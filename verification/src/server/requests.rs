//! The framed requests of a station that was admitted, and their answers.

use vstd::prelude::*;
use vstd::utf8::*;
use crate::bytes::lemma_encode_concat;
use crate::number::{decimal, decimal_text};
use crate::server::browser::BrowserError;
use crate::server::config::Config;
use crate::server::filter::{UrlError, UrlErrorView};
use crate::server::logger::{LogEntry, LogStatus};
use crate::server::origin_cc::OriginDirectives;
use crate::server::session::Session;
use crate::shared::codec::{brotli_decoded, decoded_to, is_encoding};
use crate::shared::compress::{brotli_compress, CompressionError};
use crate::shared::protocol::{
    etag_of, fits_the_wire, get_of_line, request_from_line, request_wire, sanitized_html_etag,
    sentinel, valid_etag, Request, RequestView, Response, Status,
};
use crate::text::{after_prefix, join3, same, strip_prefix, trim, trim_end, trim_start, trimmed};

verus! {

/// How long a posted body may be.
pub const MAX_BODY_SIZE: usize = 1_048_576;

// ---------------------------------------------------------------------------
// Reading
// ---------------------------------------------------------------------------

/// Why a request was not read.
#[derive(Debug, Clone, Copy, PartialEq, Eq, Structural)]
pub enum RequestError {
    EmptyUrl,
    InvalidFormat,
    BodyTooLarge(u32),
}

impl RequestError {
    /// The message for the log.
    pub open spec fn text(self) -> Seq<char> {
        match self {
            RequestError::EmptyUrl => "Empty URL"@,
            RequestError::InvalidFormat => "Invalid request format"@,
            RequestError::BodyTooLarge(n) => "Body too large: "@ + decimal(n as nat)
                + " bytes (max 1048576)"@,
        }
    }

    /// The message for the log.
    pub fn message(&self) -> (r: String)
        ensures
            r@ == self.text(),
    {
        match self {
            RequestError::EmptyUrl => "Empty URL".to_owned(),
            RequestError::InvalidFormat => "Invalid request format".to_owned(),
            RequestError::BodyTooLarge(n) => join3(
                "Body too large: ",
                decimal_text(*n as u64).as_str(),
                " bytes (max 1048576)",
            ),
        }
    }
}

/// What the line of a request says.
#[derive(Debug)]
pub enum RequestHead {
    /// The whole request.
    Complete(Request),
    /// A request whose body follows, its length of four bytes first.
    Posting { url: String },
}

/// What the line of a request says, by the texts in it.
pub enum HeadView {
    Complete(RequestView),
    Posting { url: Seq<char> },
}

impl View for RequestHead {
    type V = HeadView;

    open spec fn view(&self) -> HeadView {
        match self {
            RequestHead::Complete(r) => HeadView::Complete(r@),
            RequestHead::Posting { url } => HeadView::Posting { url: url@ },
        }
    }
}

/// What the line of a request says: the space around it does not count.
pub open spec fn head_of(line: Seq<char>) -> Result<HeadView, RequestError> {
    let t = trim(line);
    match after_prefix(t, "GET "@) {
        Some(rest) => if rest.len() == 0 {
            Err(RequestError::EmptyUrl)
        } else {
            Ok(HeadView::Complete(get_of_line(rest)))
        },
        None => match after_prefix(t, "POST "@) {
            Some(url) => if url.len() == 0 {
                Err(RequestError::EmptyUrl)
            } else {
                Ok(HeadView::Posting { url })
            },
            None => Err(RequestError::InvalidFormat),
        },
    }
}

/// Reads the line of a request.
pub fn read_head(line: &str) -> (r: Result<RequestHead, RequestError>)
    ensures
        match head_of(line@) {
            Ok(v) => r matches Ok(h) && h@ == v,
            Err(e) => r == Err::<RequestHead, RequestError>(e),
        },
{
    let t = trimmed(line);
    match strip_prefix(t.as_str(), "GET ") {
        Some(rest) => {
            if rest.as_str().unicode_len() == 0 {
                return Err(RequestError::EmptyUrl);
            }
            Ok(RequestHead::Complete(request_from_line(rest)))
        },
        None => match strip_prefix(t.as_str(), "POST ") {
            Some(url) => {
                if url.as_str().unicode_len() == 0 {
                    return Err(RequestError::EmptyUrl);
                }
                Ok(RequestHead::Posting { url })
            },
            None => Err(RequestError::InvalidFormat),
        },
    }
}

/// Reads the length in front of a posted body.
pub fn read_body_length(prefix: &[u8]) -> (r: Result<usize, RequestError>)
    requires
        prefix@.len() == 4,
    ensures
        ({
            let n = crate::bytes::from_be32(prefix@);
            if n > MAX_BODY_SIZE {
                r == Err::<usize, RequestError>(RequestError::BodyTooLarge(n as u32))
            } else {
                r == Ok::<usize, RequestError>(n as usize)
            }
        }),
{
    assert(prefix@.subrange(0, 4) =~= prefix@);
    let n: u32 = crate::bytes::read_be32(prefix, 0);
    if n as u64 > MAX_BODY_SIZE as u64 {
        return Err(RequestError::BodyTooLarge(n));
    }
    Ok(n as usize)
}

// ---------------------------------------------------------------------------
// Answering
// ---------------------------------------------------------------------------

/// A response as it is made: its status, etag, maximum age and payload.
pub open spec fn answers(
    r: Response,
    status: Status,
    etag: Seq<char>,
    max_age: int,
    payload: Seq<u8>,
) -> bool {
    r.status == status && r.etag@ == etag && r.max_age == max_age && r.payload@ == payload
}

/// The payload of a message, given what compressing it came to: compressed, or
/// as it is where that failed.
pub open spec fn message_payload(
    message: Seq<char>,
    outcome: Result<Seq<u8>, Seq<char>>,
) -> Seq<u8> {
    match outcome {
        Ok(data) => data,
        Err(_) => encode_utf8(message),
    }
}

/// A response that is a message and no page: the encoder was given the message,
/// and the payload is made of what came back. Where that is a stream, the
/// payload decompresses to the message.
pub open spec fn tells(r: Response, status: Status, message: Seq<char>) -> bool {
    exists|outcome: Result<Seq<u8>, Seq<char>>|
        {
            &&& #[trigger] is_encoding(encode_utf8(message), 11, outcome)
            &&& answers(r, status, "-"@, -1, message_payload(message, outcome))
            &&& outcome is Ok ==> brotli_decoded(r.payload@) == decoded_to(encode_utf8(message))
        }
}

/// Answers with a message, given what compressing it came to.
pub fn message_response(
    status: Status,
    message: &str,
    compressed: Result<Vec<u8>, CompressionError>,
) -> (r: Response)
    ensures
        answers(
            r,
            status,
            "-"@,
            -1,
            match compressed {
                Ok(data) => data@,
                Err(_) => encode_utf8(message@),
            },
        ),
{
    let payload = match compressed {
        Ok(data) => data,
        Err(_) => {
            let mut raw: Vec<u8> = Vec::new();
            crate::bytes::append(&mut raw, message.as_bytes());
            assert(raw@ =~= encode_utf8(message@));
            raw
        },
    };
    Response { status, etag: "-".to_owned(), max_age: -1, payload }
}

/// Answers with a message.
pub fn status_response(status: Status, message: &str) -> (r: Response)
    ensures
        tells(r, status, message@),
{
    message_response(status, message, brotli_compress(message.as_bytes(), 11))
}

/// Answers with an error.
pub fn error_response(message: &str) -> (r: Response)
    ensures
        tells(r, Status::Failure, message@),
{
    status_response(Status::Failure, message)
}

/// What a station is told and what the log is told.
#[derive(Debug)]
pub struct Refusal {
    pub response: Response,
    pub entry: Option<LogEntry>,
}

/// How a URL that is refused is answered, and how it is logged.
pub open spec fn refusal_status(e: UrlErrorView) -> (Status, LogStatus) {
    match e {
        UrlErrorView::BlockedProtocol(_) => (Status::Blocked, LogStatus::Blocked),
        UrlErrorView::BlockedHost(_) => (Status::Blocked, LogStatus::Blocked),
        UrlErrorView::UnresolvableHost(_) => (Status::Failure, LogStatus::Error),
        UrlErrorView::InvalidUrl => (Status::Failure, LogStatus::Error),
    }
}

/// Answers a request for a URL that may not be fetched.
pub fn refuse_url(callsign: &str, url: &str, e: &UrlError) -> (r: Refusal)
    ensures
        tells(r.response, refusal_status(e@).0, e@.text()),
        r.entry matches Some(entry) && entry.says(
            callsign@,
            url@,
            refusal_status(e@).1,
            Some(e@.text()),
        ),
{
    let (status, log_status) = match e {
        UrlError::BlockedProtocol(_) | UrlError::BlockedHost(_) => (
            Status::Blocked,
            LogStatus::Blocked,
        ),
        UrlError::UnresolvableHost(_) | UrlError::InvalidUrl => (Status::Failure, LogStatus::Error),
    };
    let message = e.message();
    let response = status_response(status, message.as_str());
    let entry = LogEntry::new(callsign.to_owned(), url.to_owned(), log_status, Some(message));
    Refusal { response, entry: Some(entry) }
}

/// What the browser came to.
#[derive(Debug)]
pub enum FetchEvent {
    /// There is no browser.
    Missing,
    /// A browser was started, or could not be.
    Launched(bool),
    Page(String),
    Failed(BrowserError),
}

/// What follows.
#[derive(Debug)]
pub enum FetchStep {
    /// Start a browser.
    Launch,
    /// Fetch the page with it.
    Fetch,
    /// The page is here.
    Done(String),
    GiveUp(Refusal),
}

/// Decides how a fetch goes on. A browser that crashed is started anew and the
/// page is fetched again; any other failure ends the request.
pub fn after_fetch(callsign: &str, url: &str, event: FetchEvent) -> (r: FetchStep)
    ensures
        match event {
            FetchEvent::Missing => r is Launch,
            FetchEvent::Launched(true) => r is Fetch,
            FetchEvent::Launched(false) => r matches FetchStep::GiveUp(g) && tells(
                g.response,
                Status::Failure,
                "Browser unavailable"@,
            ) && g.entry is None,
            FetchEvent::Page(html) => r == FetchStep::Done(html),
            FetchEvent::Failed(BrowserError::BrowserCrashed) => r is Launch,
            FetchEvent::Failed(e) => r matches FetchStep::GiveUp(g) && tells(
                g.response,
                Status::Failure,
                "Failed to load page"@,
            ) && (g.entry matches Some(entry) && entry.says(
                callsign@,
                url@,
                LogStatus::Error,
                Some(e@.text()),
            )),
        },
{
    match event {
        FetchEvent::Missing => FetchStep::Launch,
        FetchEvent::Launched(true) => FetchStep::Fetch,
        FetchEvent::Launched(false) => FetchStep::GiveUp(
            Refusal { response: error_response("Browser unavailable"), entry: None },
        ),
        FetchEvent::Page(html) => FetchStep::Done(html),
        FetchEvent::Failed(BrowserError::BrowserCrashed) => FetchStep::Launch,
        FetchEvent::Failed(e) => {
            let entry = LogEntry::new(
                callsign.to_owned(),
                url.to_owned(),
                LogStatus::Error,
                Some(e.message()),
            );
            FetchStep::GiveUp(
                Refusal { response: error_response("Failed to load page"), entry: Some(entry) },
            )
        },
    }
}

/// A response is the answer to a request for a page: a station that has it
/// already, as its etag tells, is told so and sent nothing; else the encoder was
/// given the page, and what came back goes out, which decompresses to it.
pub open spec fn page_answer(
    r: Response,
    html: Seq<char>,
    if_none_match: Option<Seq<char>>,
    max_age: int,
    brotli_quality: u32,
) -> bool {
    &&& valid_etag(etag_of(html))
    &&& if if_none_match == Some(etag_of(html)) {
        answers(r, Status::NotModified, etag_of(html), max_age, Seq::empty())
    } else {
        exists|outcome: Result<Seq<u8>, Seq<char>>|
            {
                &&& #[trigger] is_encoding(encode_utf8(html), brotli_quality, outcome)
                &&& match outcome {
                    Ok(data) => answers(r, Status::Success, etag_of(html), max_age, data)
                        && brotli_decoded(data) == decoded_to(encode_utf8(html)),
                    Err(_) => tells(r, Status::Failure, "Compression error"@),
                }
            }
    }
}

/// Tells whether a station has a page already, as its etag tells.
pub fn holds_page(etag: &str, if_none_match: Option<&str>) -> (r: bool)
    ensures
        r == (if_none_match matches Some(e) && e@ == etag@),
{
    match if_none_match {
        Some(e) => same(e, etag),
        None => false,
    }
}

/// Answers with a page, given what compressing it came to.
pub fn compressed_page(
    compressed: Result<Vec<u8>, CompressionError>,
    etag: String,
    max_age: i32,
) -> (r: Response)
    ensures
        match compressed {
            Ok(data) => answers(r, Status::Success, etag@, max_age as int, data@),
            Err(_) => tells(r, Status::Failure, "Compression error"@),
        },
{
    match compressed {
        Ok(payload) => Response { status: Status::Success, etag, max_age, payload },
        Err(_) => error_response("Compression error"),
    }
}

/// Answers with a page. A station that has it already, as its etag tells, is
/// told so and sent nothing; else the page goes out compressed.
pub fn page_response(
    html: &str,
    if_none_match: Option<&str>,
    max_age: i32,
    brotli_quality: u32,
) -> (r: Response)
    ensures
        page_answer(
            r,
            html@,
            match if_none_match {
                Some(e) => Some(e@),
                None => None,
            },
            max_age as int,
            brotli_quality,
        ),
{
    let etag = sanitized_html_etag(html);
    if holds_page(etag.as_str(), if_none_match) {
        let payload: Vec<u8> = Vec::new();
        assert(payload@ =~= Seq::<u8>::empty());
        return Response { status: Status::NotModified, etag, max_age, payload };
    }
    compressed_page(brotli_compress(html.as_bytes(), brotli_quality), etag, max_age)
}

/// What reading a request came to.
#[derive(Debug)]
pub enum ReadOutcome {
    Asked(Request),
    /// The station hung up.
    Closed,
    /// The station was silent for too long.
    TimedOut,
    Failed,
}

/// What follows.
#[derive(Debug)]
pub enum ServeStep {
    /// Fetch a page for the station.
    Get { url: String, if_none_match: Option<String> },
    /// Send this and read on.
    Answer(Response),
    /// Say this, where it is anything, and hang up.
    Close { say: Option<String> },
}

/// Decides what follows what a station asked: a page is fetched, a form is
/// refused, and with silence or noise the session ends.
pub fn next_step(read: ReadOutcome) -> (r: ServeStep)
    ensures
        match read {
            ReadOutcome::Asked(Request::Get { url, if_none_match }) => r == (ServeStep::Get {
                url,
                if_none_match,
            }),
            ReadOutcome::Asked(Request::Post { .. }) => r matches ServeStep::Answer(a) && tells(
                a,
                Status::Failure,
                "POST requests are not supported"@,
            ),
            ReadOutcome::TimedOut => r matches ServeStep::Close { say: Some(s) } && s@
                == "\nSession timed out due to inactivity.\n"@,
            _ => r matches ServeStep::Close { say: None },
        },
{
    match read {
        ReadOutcome::Asked(Request::Get { url, if_none_match }) => ServeStep::Get {
            url,
            if_none_match,
        },
        ReadOutcome::Asked(Request::Post { .. }) => ServeStep::Answer(
            error_response("POST requests are not supported"),
        ),
        ReadOutcome::TimedOut => ServeStep::Close {
            say: Some("\nSession timed out due to inactivity.\n".to_owned()),
        },
        ReadOutcome::Closed | ReadOutcome::Failed => ServeStep::Close { say: None },
    }
}

/// How a page is answered and logged.
#[derive(Debug)]
pub struct Finished {
    pub response: Response,
    pub entry: LogEntry,
}

/// Answers with a page that was fetched, logs the visit and notes where the
/// station is. `probe` is what the origin said of the page, unless asking it
/// failed.
pub fn finish_request(
    session: &mut Session,
    url: &str,
    html: &str,
    if_none_match: Option<&str>,
    probe: Option<OriginDirectives>,
    config: &Config,
) -> (r: Finished)
    ensures
        final(session).current_url matches Some(u) && u@ == url@,
        final(session).callsign == old(session).callsign,
        final(session).acknowledged == old(session).acknowledged,
        final(session).last_activity == old(session).last_activity,
        r.entry.says(old(session).callsign@, url@, LogStatus::Success, None),
        page_answer(
            r.response,
            html@,
            match if_none_match {
                Some(e) => Some(e@),
                None => None,
            },
            match probe {
                Some(d) => d.max_age as int,
                None => config.default_max_age_seconds as int,
            },
            config.brotli_quality,
        ),
{
    let max_age: i32 = match probe {
        Some(d) => d.max_age,
        None => config.default_max_age_seconds,
    };
    let entry = LogEntry::new(
        session.callsign.clone(),
        url.to_owned(),
        LogStatus::Success,
        None,
    );
    session.visit(url);
    Finished { response: page_response(html, if_none_match, max_age, config.brotli_quality), entry }
}

// ---------------------------------------------------------------------------
// Laws
// ---------------------------------------------------------------------------

/// The line of a request.
pub open spec fn request_line(r: RequestView) -> Seq<char> {
    match r {
        RequestView::Get { url, if_none_match: None } => "GET "@ + url,
        RequestView::Get { url, if_none_match: Some(etag) } => "GET "@ + (url + sentinel() + etag),
        RequestView::Post { url, .. } => "POST "@ + url,
    }
}

/// The server reads from the line of a request what the client asked: a
/// request to get a page whole, the URL of a posted one. The line may not end
/// in space, which does not count.
pub proof fn the_server_reads_what_was_asked(r: RequestView)
    requires
        fits_the_wire(r),
        request_line(r).len() > 0,
        !crate::text::is_space(request_line(r).last()),
    ensures
        head_of(request_line(r).push('\n')) == (match r {
            RequestView::Post { url, .. } => Ok::<HeadView, RequestError>(HeadView::Posting { url }),
            _ => Ok(HeadView::Complete(r)),
        }),
        request_wire(r) == encode_utf8(request_line(r).push('\n')) + (match r {
            RequestView::Post { body, .. } => crate::bytes::be32(body.len() as u32) + body,
            _ => Seq::empty(),
        }),
{
    lemma_line_on_the_wire(r);
    reveal_strlit("GET ");
    reveal_strlit("POST ");
    let line = request_line(r);
    lemma_trim_line(line);
    match r {
        RequestView::Get { url, if_none_match: None } => {
            assert(line.take(4) =~= "GET "@);
            assert(line.skip(4) =~= url);
        },
        RequestView::Get { url, if_none_match: Some(etag) } => {
            let rest = url + sentinel() + etag;
            assert(line.take(4) =~= "GET "@);
            assert(line.skip(4) =~= rest);
            reveal_strlit(" IF-NONE-MATCH ");
            crate::shared::protocol::lemma_sentinel_position(url, etag);
        },
        RequestView::Post { url, .. } => {
            assert(line.take(5) =~= "POST "@);
            assert(line.skip(5) =~= url);
            assert(line.take(4)[0] == 'P');
        },
    }
}

proof fn lemma_line_on_the_wire(r: RequestView)
    ensures
        request_wire(r) == encode_utf8(request_line(r).push('\n')) + (match r {
            RequestView::Post { body, .. } => crate::bytes::be32(body.len() as u32) + body,
            _ => Seq::empty(),
        }),
{
    let line = request_line(r);
    let feed = seq!['\n'];
    assert(line.push('\n') =~= line + feed);
    lemma_encode_concat(line, feed);
    is_ascii_chars_encode_utf8(feed);
    assert(encode_utf8(feed) =~= seq![0x0au8]);
    match r {
        RequestView::Get { url, if_none_match: None } => {
            lemma_encode_concat("GET "@, url);
            assert(request_wire(r) =~= encode_utf8(line.push('\n')) + Seq::<u8>::empty());
        },
        RequestView::Get { url, if_none_match: Some(etag) } => {
            lemma_encode_concat("GET "@, url + sentinel() + etag);
            lemma_encode_concat(url + sentinel(), etag);
            lemma_encode_concat(url, sentinel());
            assert(request_wire(r) =~= encode_utf8(line.push('\n')) + Seq::<u8>::empty());
        },
        RequestView::Post { url, body } => {
            lemma_encode_concat("POST "@, url);
            assert(request_wire(r) =~= encode_utf8(line.push('\n')) + (crate::bytes::be32(
                body.len() as u32,
            ) + body));
        },
    }
}

proof fn lemma_trim_line(line: Seq<char>)
    requires
        line.len() > 0,
        line[0] == 'G' || line[0] == 'P',
        !crate::text::is_space(line.last()),
    ensures
        trim(line.push('\n')) == line,
{
    let all = line.push('\n');
    assert(all[0] == line[0]);
    assert(trim_start(all) == all);
    assert(all.drop_last() =~= line);
    reveal_with_fuel(trim_end, 3);
}

/// A line that begins with neither verb is no request, and a verb alone names no
/// page.
pub proof fn other_lines_are_no_requests(line: Seq<char>)
    requires
        line.len() > 0,
        !crate::text::is_space(line[0]),
        !crate::text::is_space(line.last()),
        !crate::text::starts_with(line, "GET "@),
        !crate::text::starts_with(line, "POST "@),
    ensures
        head_of(line) == Err::<HeadView, RequestError>(RequestError::InvalidFormat),
{
    crate::text::trimming_takes_space_alone(Seq::empty(), line, Seq::empty());
    assert(Seq::<char>::empty() + line + Seq::<char>::empty() =~= line);
}

/// What is blocked is answered and logged as blocked, what could not be found
/// or read as a failure.
pub proof fn refusals_have_their_statuses(s: Seq<char>)
    ensures
        refusal_status(UrlErrorView::BlockedProtocol(s)) == (Status::Blocked, LogStatus::Blocked),
        refusal_status(UrlErrorView::BlockedHost(s)) == (Status::Blocked, LogStatus::Blocked),
        refusal_status(UrlErrorView::UnresolvableHost(s)) == (Status::Failure, LogStatus::Error),
        refusal_status(UrlErrorView::InvalidUrl) == (Status::Failure, LogStatus::Error),
        UrlErrorView::BlockedProtocol(s).text() == "Blocked protocol: "@ + s,
        UrlErrorView::BlockedHost(s).text() == "Blocked host: "@ + s,
        UrlErrorView::UnresolvableHost(s).text() == "Unresolvable host: "@ + s,
{
}

/// A page that the client has already is not sent again, any other is: it comes
/// with its etag and its age, compressed where that went well.
pub proof fn pages_are_sent_once(
    r: Response,
    html: Seq<char>,
    held: Option<Seq<char>>,
    max_age: int,
    quality: u32,
)
    requires
        page_answer(r, html, held, max_age, quality),
    ensures
        held == Some(etag_of(html)) ==> r.status == Status::NotModified && r.payload@.len() == 0,
        held == Some(etag_of(html)) ==> r.etag@ == etag_of(html) && r.max_age == max_age,
        held != Some(etag_of(html)) ==> r.status == Status::Success || r.status == Status::Failure,
        held != Some(etag_of(html)) && r.status == Status::Success ==> {
            &&& brotli_decoded(r.payload@) == decoded_to(encode_utf8(html))
            &&& r.etag@ == etag_of(html)
            &&& r.max_age == max_age
        },
{
}

/// A body of up to one mebibyte is taken.
pub proof fn bodies_have_this_limit()
    ensures
        MAX_BODY_SIZE == 1024 * 1024,
{
}

} // verus!
