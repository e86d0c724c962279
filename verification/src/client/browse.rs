//! How the client answers a browser: from what it keeps, or over the air.

use vstd::prelude::*;
use vstd::utf8::*;
use crate::bytes::{string_from_utf8, utf8_text};
use crate::client::cache::{
    capped, confirmed, distinct_urls, inserted_pages_are_found, lemma_distinct_same_urls,
    lemma_position_is, new_row, position_of, remaining_secs, seconds_left, taken_in, used, Cache,
    Hit, Moment, RowView,
};
use crate::client::rewrite::{
    all_handlers, page_rewritten, rewrite_html, text_or_error, url_fault, RewriteError,
};
use crate::client::transport::agwpe::{AgwpeError, ErrorView};
use crate::client::ui::{
    browse_page, browse_text, error_page, error_text, render_session_error_page, session_error_text,
};
use crate::number::{decimal, decimal_text};
use crate::shared::codec::{base64_len, brotli_decoded};
use crate::shared::compress::{brotli_decompress, CompressionError};
use crate::shared::protocol::{
    header_of, magic, payload_of, response_wire, valid_etag, HeaderView, ProtocolError, Request,
    RequestView, Response, Status,
};
use crate::text::{chars_of, join2, join3, occurs, occurs_at, opt_view, same, text_of};

verus! {

// ---------------------------------------------------------------------------
// Answers
// ---------------------------------------------------------------------------

/// What a browser is answered.
#[derive(Debug)]
pub enum Answer {
    /// Go there instead.
    Redirect(String),
    /// The browser has the page already; the etag is in quotes.
    NotModified { etag: String },
    /// A page that is not to be kept.
    Page(String),
    /// A page that the browser may keep, and its headers.
    Kept { body: String, cache_control: String, etag: String },
}

/// What a browser is answered, by the texts in it.
pub enum AnswerView {
    Redirect(Seq<char>),
    NotModified { etag: Seq<char> },
    Page(Seq<char>),
    Kept { body: Seq<char>, cache_control: Seq<char>, etag: Seq<char> },
}

impl View for Answer {
    type V = AnswerView;

    open spec fn view(&self) -> AnswerView {
        match self {
            Answer::Redirect(to) => AnswerView::Redirect(to@),
            Answer::NotModified { etag } => AnswerView::NotModified { etag: etag@ },
            Answer::Page(body) => AnswerView::Page(body@),
            Answer::Kept { body, cache_control, etag } => AnswerView::Kept {
                body: body@,
                cache_control: cache_control@,
                etag: etag@,
            },
        }
    }
}

/// An etag in quotes.
pub open spec fn quoted(etag: Seq<char>) -> Seq<char> {
    "\""@ + etag + "\""@
}

/// A page that the browser may keep for so many seconds.
pub open spec fn kept(body: Seq<char>, etag: Seq<char>, ttl_secs: nat) -> AnswerView {
    AnswerView::Kept {
        body,
        cache_control: "private, max-age="@ + decimal(ttl_secs),
        etag: quoted(etag),
    }
}

/// Answers with a page that the browser may keep for so many seconds.
pub fn build_cached_html_response(body: String, etag: &str, ttl_secs: u64) -> (r: Answer)
    ensures
        r@ == kept(body@, etag@, ttl_secs as nat),
{
    Answer::Kept {
        body,
        cache_control: join2("private, max-age=", decimal_text(ttl_secs).as_str()),
        etag: join3("\"", etag, "\""),
    }
}

/// How long a page stays fresh: as its server says, within the longest that the
/// client keeps one, and not at all where the server says so.
pub open spec fn effective_ttl(server_max_age: i32, config_cap_secs: u64) -> nat {
    if server_max_age <= 0 {
        0
    } else if server_max_age < config_cap_secs {
        server_max_age as nat
    } else {
        config_cap_secs as nat
    }
}

/// How long a page stays fresh.
pub fn effective_ttl_secs(server_max_age: i32, config_cap_secs: u64) -> (r: u64)
    ensures
        r == effective_ttl(server_max_age, config_cap_secs),
{
    if server_max_age <= 0 {
        return 0;
    }
    let age: u64 = server_max_age as u64;
    if age < config_cap_secs {
        age
    } else {
        config_cap_secs
    }
}

// ---------------------------------------------------------------------------
// Pages
// ---------------------------------------------------------------------------

/// The text of what was decompressed, or the message of what went wrong.
pub open spec fn decoded_text(
    decoded: Result<Vec<u8>, CompressionError>,
    bad_text: Seq<char>,
) -> Result<Seq<char>, Seq<char>> {
    match decoded {
        Err(e) => Err("Decompression failed: "@ + e.text()),
        Ok(bytes) => match utf8_text(bytes@) {
            None => Err(bad_text),
            Some(text) => Ok(text),
        },
    }
}

/// Reads the text of what was decompressed.
pub fn read_text(decoded: Result<Vec<u8>, CompressionError>, bad_text: &str) -> (r: Result<
    String,
    String,
>)
    ensures
        text_or_error(r) == decoded_text(decoded, bad_text@),
{
    match decoded {
        Err(e) => Err(join2("Decompression failed: ", e.message().as_str())),
        Ok(bytes) => match string_from_utf8(bytes) {
            Some(text) => Ok(text),
            None => Err(bad_text.to_owned()),
        },
    }
}

/// A rewritten page in the frame of the client, or the message of what went
/// wrong.
pub open spec fn framed(rewritten: Result<String, RewriteError>, url: Seq<char>) -> Result<
    Seq<char>,
    Seq<char>,
> {
    match rewritten {
        Err(e) => Err("Failed to rewrite HTML: "@ + e.text()),
        Ok(page) => Ok(browse_text(page@, url)),
    }
}

/// Puts a rewritten page into the frame of the client.
pub fn frame_page(rewritten: Result<String, RewriteError>, url: &str) -> (r: Result<String, String>)
    ensures
        text_or_error(r) == framed(rewritten, url@),
{
    match rewritten {
        Err(e) => Err(join2("Failed to rewrite HTML: ", e.message().as_str())),
        Ok(page) => Ok(browse_page(page.as_str(), url)),
    }
}

/// A page as the client shows it, or the message of what went wrong. The page
/// came compressed from `url`.
pub open spec fn shown_page(compressed: Seq<u8>, url: Seq<char>, bad_text: Seq<char>) -> Result<
    Seq<char>,
    Seq<char>,
> {
    match brotli_decoded(compressed) {
        Err(e) => Err("Decompression failed: "@ + ("Decompression failed: "@ + e)),
        Ok(bytes) => match utf8_text(bytes) {
            None => Err(bad_text),
            Some(html) => match url_fault(url) {
                Some(e) => Err("Failed to rewrite HTML: "@ + ("Invalid base URL: "@ + e)),
                None => match page_rewritten(html, all_handlers(), url) {
                    Err(e) => Err("Failed to rewrite HTML: "@ + ("Rewrite failed: "@ + e)),
                    Ok(page) => Ok(browse_text(page, url)),
                },
            },
        },
    }
}

/// Makes a page out of what came compressed from `url`.
pub fn show_page(compressed: &[u8], url: &str, bad_text: &str) -> (r: Result<String, String>)
    ensures
        text_or_error(r) == shown_page(compressed@, url@, bad_text@),
{
    match read_text(brotli_decompress(compressed), bad_text) {
        Err(e) => Err(e),
        Ok(html) => frame_page(rewrite_html(html.as_str(), url), url),
    }
}

/// Answers with a page that the browser may keep for so many seconds, or with
/// the message of what went wrong.
pub fn answer_page(page: Result<String, String>, etag: &str, ttl_secs: u64) -> (r: Answer)
    ensures
        r@ == (match page {
            Ok(body) => kept(body@, etag@, ttl_secs as nat),
            Err(e) => AnswerView::Page(error_text(e@)),
        }),
{
    match page {
        Ok(body) => build_cached_html_response(body, etag, ttl_secs),
        Err(e) => Answer::Page(error_page(e.as_str())),
    }
}

/// The page of a row that is kept, as a browser is answered with it.
pub open spec fn served(row: RowView, url: Seq<char>, now: Moment) -> AnswerView {
    match shown_page(row.brotli_body, url, "Invalid UTF-8 in cached response"@) {
        Err(e) => AnswerView::Page(error_text(e)),
        Ok(body) => kept(body, row.etag, seconds_left(row.fetched_at, row.max_age, now) as nat),
    }
}

/// Answers with a page that is kept.
pub fn serve_from_hit(hit: &Hit, url: &str, now: Moment) -> (r: Answer)
    ensures
        forall|row: RowView| #[trigger] hit.shows(row) ==> r@ == served(row, url@, now),
{
    let page = show_page(hit.brotli_body.as_slice(), url, "Invalid UTF-8 in cached response");
    let left: u64 = remaining_secs(hit.fetched_at, hit.max_age, now);
    answer_page(page, hit.etag.as_str(), left)
}

// ---------------------------------------------------------------------------
// Asking
// ---------------------------------------------------------------------------

/// Where a browser wants to go.
#[derive(Debug)]
pub enum Visit {
    /// There is no connection: to the page to connect from.
    Redirect(String),
    /// Nowhere yet: the empty page.
    Blank(String),
    Go(String),
}

/// Reads where a browser wants to go from the parameter of its request.
pub fn visit(url: Option<String>, connected: bool) -> (r: Visit)
    ensures
        match url {
            Some(u) if u@.len() > 0 => r == Visit::Go(u),
            _ => if connected {
                r matches Visit::Blank(page) && page@ == browse_text(""@, ""@)
            } else {
                r matches Visit::Redirect(to) && to@ == "/connect"@
            },
        },
{
    if let Some(u) = url {
        if u.as_str().unicode_len() > 0 {
            return Visit::Go(u);
        }
    }
    if connected {
        Visit::Blank(browse_page("", ""))
    } else {
        Visit::Redirect("/connect".to_owned())
    }
}

/// Reads where a form is to be posted to.
pub fn post_target(url: Option<String>) -> (r: Visit)
    ensures
        match url {
            Some(u) if u@.len() > 0 => r == Visit::Go(u),
            _ => r matches Visit::Redirect(to) && to@ == "/connect"@,
        },
{
    if let Some(u) = url {
        if u.as_str().unicode_len() > 0 {
            return Visit::Go(u);
        }
    }
    Visit::Redirect("/connect".to_owned())
}

/// Tells whether a browser asks to pass over what is kept.
pub fn wants_no_cache(nocache: Option<&str>) -> (r: bool)
    ensures
        r == (nocache matches Some(s) && s@ == "1"@),
{
    match nocache {
        Some(s) => same(s, "1"),
        None => false,
    }
}

/// A text without the quotes in front of it and behind it.
pub open spec fn unquoted(s: Seq<char>) -> Seq<char> {
    drop_quotes_behind(drop_quotes_in_front(s))
}

/// A text without quotes in front.
pub open spec fn drop_quotes_in_front(s: Seq<char>) -> Seq<char>
    decreases s.len(),
{
    if s.len() > 0 && s[0] == '"' {
        drop_quotes_in_front(s.drop_first())
    } else {
        s
    }
}

/// A text without quotes behind.
pub open spec fn drop_quotes_behind(s: Seq<char>) -> Seq<char>
    decreases s.len(),
{
    if s.len() > 0 && s.last() == '"' {
        drop_quotes_behind(s.drop_last())
    } else {
        s
    }
}

/// Takes the quotes off an etag that a browser names.
pub fn unquote(s: &str) -> (r: String)
    ensures
        r@ == unquoted(s@),
{
    let chars = chars_of(s);
    let mut from: usize = 0;
    assert(s@.skip(0) =~= s@);
    while from < chars.len() && chars[from] == '"'
        invariant
            from <= chars@.len(),
            chars@ == s@,
            drop_quotes_in_front(s@) == drop_quotes_in_front(s@.skip(from as int)),
        decreases chars.len() - from,
    {
        assert(s@.skip(from as int).drop_first() =~= s@.skip(from + 1));
        from += 1;
    }
    let ghost mid = s@.skip(from as int);
    let mut to: usize = chars.len();
    assert(s@.subrange(from as int, to as int) =~= mid);
    while to > from && chars[to - 1] == '"'
        invariant
            from <= to <= chars@.len(),
            chars@ == s@,
            drop_quotes_behind(mid) == drop_quotes_behind(s@.subrange(from as int, to as int)),
        decreases to,
    {
        assert(s@.subrange(from as int, to as int).drop_last() =~= s@.subrange(
            from as int,
            to - 1,
        ));
        to -= 1;
    }
    text_of(&chars, from, to)
}

/// What a request that went over the air was.
#[derive(Debug)]
pub enum Sent {
    /// A form, whose answer is not kept.
    Posted,
    /// A page, and the etag of the one that is kept.
    Asked { etag: Option<String> },
}

/// What a request that went over the air was, by the text in it.
pub enum SentView {
    Posted,
    Asked { etag: Option<Seq<char>> },
}

impl View for Sent {
    type V = SentView;

    open spec fn view(&self) -> SentView {
        match self {
            Sent::Posted => SentView::Posted,
            Sent::Asked { etag } => SentView::Asked { etag: opt_view(*etag) },
        }
    }
}

/// What follows the request of a browser.
#[derive(Debug)]
pub enum BrowseStep {
    Reply(Answer),
    Send { request: Request, sent: Sent },
}

/// What follows the request of a browser, by the texts in it.
pub enum BrowseStepView {
    Reply(AnswerView),
    Send { request: RequestView, sent: SentView },
}

impl View for BrowseStep {
    type V = BrowseStepView;

    open spec fn view(&self) -> BrowseStepView {
        match self {
            BrowseStep::Reply(a) => BrowseStepView::Reply(a@),
            BrowseStep::Send { request, sent } => BrowseStepView::Send {
                request: request@,
                sent: sent@,
            },
        }
    }
}

/// The row of a page that is kept, where the browser does not pass over it.
pub open spec fn kept_row(rows: Option<Seq<RowView>>, url: Seq<char>, nocache: bool) -> Option<RowView> {
    match rows {
        Some(r) if !nocache => match position_of(r, url) {
            Some(i) => Some(r[i]),
            None => None,
        },
        _ => None,
    }
}

/// A row that may be shown without asking for it again.
pub open spec fn row_is_fresh(row: RowView, now: Moment) -> bool {
    row.fetched_at <= now.secs && now.secs - row.fetched_at < row.max_age
}

/// The rows of a cache, where there is one.
pub open spec fn rows_of(cache: Option<Cache>) -> Option<Seq<RowView>> {
    match cache {
        Some(c) => Some(c@),
        None => None,
    }
}

/// What follows the request of a browser. A page that is kept and fresh is
/// shown, or the browser told that it has it; any other is asked for over the
/// air, with the etag of the one that is kept.
pub open spec fn browse_step(
    connected: bool,
    url: Seq<char>,
    post_body: Option<Seq<u8>>,
    nocache: bool,
    browser_etag: Option<Seq<char>>,
    rows: Option<Seq<RowView>>,
    now: Moment,
) -> BrowseStepView {
    if !connected {
        BrowseStepView::Reply(AnswerView::Redirect("/connect"@))
    } else {
        match post_body {
            Some(body) => BrowseStepView::Send {
                request: RequestView::Post { url, body },
                sent: SentView::Posted,
            },
            None => match kept_row(rows, url, nocache) {
                Some(row) => if row_is_fresh(row, now) {
                    if browser_etag == Some(row.etag) {
                        BrowseStepView::Reply(AnswerView::NotModified { etag: quoted(row.etag) })
                    } else {
                        BrowseStepView::Reply(served(row, url, now))
                    }
                } else {
                    BrowseStepView::Send {
                        request: RequestView::Get { url, if_none_match: Some(row.etag) },
                        sent: SentView::Asked { etag: Some(row.etag) },
                    }
                },
                None => BrowseStepView::Send {
                    request: RequestView::Get { url, if_none_match: None },
                    sent: SentView::Asked { etag: None },
                },
            },
        }
    }
}

/// The rows after the request of a browser: one that is shown was used.
pub open spec fn rows_after_browse(
    connected: bool,
    url: Seq<char>,
    posts: bool,
    nocache: bool,
    rows: Seq<RowView>,
    now: Moment,
) -> Seq<RowView> {
    if connected && !posts {
        match kept_row(Some(rows), url, nocache) {
            Some(row) if row_is_fresh(row, now) => used(rows, url, now.secs),
            _ => rows,
        }
    } else {
        rows
    }
}

/// The cache after a step is the one before it, with other rows.
pub open spec fn cache_became(before: Option<Cache>, after: Option<Cache>, rows: Seq<RowView>) -> bool {
    match (before, after) {
        (Some(a), Some(b)) => b.wf() && b.same_limits(&a) && b@ == rows,
        (None, None) => true,
        _ => false,
    }
}

/// Decides what follows the request of a browser.
pub fn handle_browse(
    connected: bool,
    url: &str,
    post_body: Option<Vec<u8>>,
    nocache: bool,
    browser_if_none_match: Option<&str>,
    cache: &mut Option<Cache>,
    now: Moment,
) -> (r: BrowseStep)
    requires
        *old(cache) matches Some(c) ==> c.wf(),
    ensures
        r@ == browse_step(
            connected,
            url@,
            match post_body {
                Some(b) => Some(b@),
                None => None,
            },
            nocache,
            match browser_if_none_match {
                Some(e) => Some(e@),
                None => None,
            },
            rows_of(*old(cache)),
            now,
        ),
        *old(cache) matches Some(c) ==> cache_became(
            *old(cache),
            *final(cache),
            rows_after_browse(connected, url@, post_body is Some, nocache, c@, now),
        ),
        *old(cache) is None ==> *final(cache) is None,
{
    if !connected {
        return BrowseStep::Reply(Answer::Redirect("/connect".to_owned()));
    }
    if let Some(body) = post_body {
        return BrowseStep::Send {
            request: Request::Post { url: url.to_owned(), body },
            sent: Sent::Posted,
        };
    }
    let found = if nocache {
        None
    } else {
        match &*cache {
            Some(c) => c.lookup(url),
            None => None,
        }
    };
    let ghost row = match position_of((*old(cache))->0@, url@) {
        Some(i) => (*old(cache))->0@[i],
        None => arbitrary(),
    };
    match found {
        Some(hit) => {
            assert(hit.shows(row));
            if hit.is_fresh(now.secs) {
                if let Some(c) = cache {
                    c.touch_last_used(url, now.secs);
                }
                let held = match browser_if_none_match {
                    Some(e) => same(e, hit.etag.as_str()),
                    None => false,
                };
                if held {
                    return BrowseStep::Reply(
                        Answer::NotModified { etag: join3("\"", hit.etag.as_str(), "\"") },
                    );
                }
                return BrowseStep::Reply(serve_from_hit(&hit, url, now));
            }
            let etag = hit.etag.clone();
            BrowseStep::Send {
                request: Request::Get { url: url.to_owned(), if_none_match: Some(hit.etag) },
                sent: Sent::Asked { etag: Some(etag) },
            }
        },
        None => BrowseStep::Send {
            request: Request::Get { url: url.to_owned(), if_none_match: None },
            sent: Sent::Asked { etag: None },
        },
    }
}

// ---------------------------------------------------------------------------
// What came back
// ---------------------------------------------------------------------------

/// A response as it came in: its payload is still in base64.
#[derive(Debug)]
pub struct Reply {
    pub status: Status,
    pub etag: String,
    pub max_age: i32,
    pub payload: Vec<u8>,
}

/// A response as it came in, by the texts in it.
pub struct ReplyView {
    pub status: Status,
    pub etag: Seq<char>,
    pub max_age: int,
    pub payload: Seq<u8>,
}

impl View for Reply {
    type V = ReplyView;

    open spec fn view(&self) -> ReplyView {
        ReplyView {
            status: self.status,
            etag: self.etag@,
            max_age: self.max_age as int,
            payload: self.payload@,
        }
    }
}

/// The response in what came in, or the message of what is wrong with it.
pub open spec fn reply_of(data: Seq<u8>) -> Result<ReplyView, Seq<char>> {
    match header_of(data) {
        HeaderView::Incomplete => Err("Incomplete response header"@),
        HeaderView::Malformed => Err("Invalid response header: "@ + "Invalid response format"@),
        HeaderView::Complete { status, len, etag, max_age, end } => if data.len() < end + len {
            Err("Incomplete response payload"@)
        } else {
            Ok(ReplyView { status, etag, max_age, payload: data.subrange(end, end + len) })
        },
    }
}

/// Reads the response in what came in.
pub fn read_reply(data: &[u8]) -> (r: Result<Reply, String>)
    ensures
        match reply_of(data@) {
            Ok(v) => r matches Ok(x) && x@ == v,
            Err(e) => r matches Err(m) && m@ == e,
        },
{
    match Response::decode_header(data) {
        Ok(Some((status, len, etag, max_age, end))) => {
            let have: usize = data.len();
            if ((have - end) as u64) < len as u64 {
                return Err("Incomplete response payload".to_owned());
            }
            let payload = crate::bytes::copy_range(data, end, end + len as usize);
            Ok(Reply { status, etag, max_age, payload })
        },
        Ok(None) => Err("Incomplete response header".to_owned()),
        Err(e) => {
            proof {
                assert(e == ProtocolError::InvalidResponse);
            }
            Err(join2("Invalid response header: ", e.message().as_str()))
        },
    }
}

/// The text of a response that is no page, as a page of an error.
pub open spec fn told(compressed: Seq<u8>) -> AnswerView {
    match brotli_decoded(compressed) {
        Err(e) => AnswerView::Page(
            error_text("Decompression failed: "@ + ("Decompression failed: "@ + e)),
        ),
        Ok(bytes) => AnswerView::Page(
            error_text(
                match utf8_text(bytes) {
                    Some(s) => s,
                    None => "Invalid UTF-8"@,
                },
            ),
        ),
    }
}

/// Tells the operator what a response that is no page says, once it was
/// decompressed.
pub fn tell(decoded: Result<Vec<u8>, CompressionError>) -> (r: Answer)
    ensures
        r@ == AnswerView::Page(
            error_text(
                match decoded_text(decoded, "Invalid UTF-8"@) {
                    Ok(text) => text,
                    Err(e) => e,
                },
            ),
        ),
{
    match read_text(decoded, "Invalid UTF-8") {
        Ok(text) => Answer::Page(error_page(text.as_str())),
        Err(e) => Answer::Page(error_page(e.as_str())),
    }
}

/// What a browser is answered to a response. Where the server confirms the page
/// that is kept, that page is shown.
pub open spec fn reply_answer(
    reply: ReplyView,
    url: Seq<char>,
    sent: SentView,
    rows: Option<Seq<RowView>>,
    max_ttl: u64,
    now: Moment,
) -> AnswerView {
    match reply.status {
        Status::NotModified => {
            let none = AnswerView::Page(
                error_text("Server sent NotModified but no cache entry is available"@),
            );
            match (rows, sent) {
                (Some(r), SentView::Asked { etag: Some(e) }) => if e == reply.etag {
                    match position_of(confirmed(r, url, now.secs), url) {
                        Some(i) => served(confirmed(r, url, now.secs)[i], url, now),
                        None => none,
                    }
                } else {
                    none
                },
                _ => none,
            }
        },
        Status::Success => match payload_of(reply.payload) {
            None => AnswerView::Page(
                error_text("Base64 decode failed: "@ + "Invalid response format"@),
            ),
            Some(compressed) => match shown_page(compressed, url, "Invalid UTF-8 in response"@) {
                Err(e) => AnswerView::Page(error_text(e)),
                Ok(body) => kept(body, reply.etag, effective_ttl(reply.max_age as i32, max_ttl)),
            },
        },
        _ => match payload_of(reply.payload) {
            None => AnswerView::Page(
                error_text("Base64 decode failed: "@ + "Invalid response format"@),
            ),
            Some(compressed) => told(compressed),
        },
    }
}

/// The rows after a response: a page that came in is kept, and one that the
/// server confirmed is fresh again. The answer to a form changes nothing.
pub open spec fn rows_after_reply(
    reply: ReplyView,
    url: Seq<char>,
    sent: SentView,
    rows: Seq<RowView>,
    cap_bytes: u64,
    cache_ttl: u64,
    now: Moment,
) -> Seq<RowView> {
    match (reply.status, sent) {
        (Status::NotModified, SentView::Asked { etag: Some(e) }) => if e == reply.etag {
            confirmed(rows, url, now.secs)
        } else {
            rows
        },
        (Status::Success, SentView::Asked { .. }) => match payload_of(reply.payload) {
            Some(compressed) => taken_in(
                rows,
                new_row(
                    url,
                    reply.etag,
                    compressed,
                    capped(reply.max_age as i32, cache_ttl),
                    now.secs,
                ),
                reply.max_age as i32,
                cap_bytes,
            ),
            None => rows,
        },
        _ => rows,
    }
}

/// Answers a browser with a response, and keeps what it brought.
pub fn answer_reply(
    reply: Reply,
    url: &str,
    sent: &Sent,
    cache: &mut Option<Cache>,
    max_ttl: u64,
    now: Moment,
) -> (r: Answer)
    requires
        *old(cache) matches Some(c) ==> c.wf(),
    ensures
        r@ == reply_answer(
            reply@,
            url@,
            sent@,
            rows_of(*old(cache)),
            max_ttl,
            now,
        ),
        *old(cache) matches Some(c) ==> cache_became(
            *old(cache),
            *final(cache),
            rows_after_reply(reply@, url@, sent@, c@, c.cap_bytes, c.max_ttl, now),
        ),
        *old(cache) is None ==> *final(cache) is None,
{
    match reply.status {
        Status::NotModified => {
            if let Sent::Asked { etag: Some(etag) } = sent {
                if same(etag.as_str(), reply.etag.as_str()) {
                    if let Some(c) = cache {
                        c.touch_fresh(url, now.secs);
                        if let Some(hit) = c.lookup(url) {
                            return serve_from_hit(&hit, url, now);
                        }
                    }
                }
            }
            Answer::Page(error_page("Server sent NotModified but no cache entry is available"))
        },
        Status::Success => match Response::decode_payload(reply.payload.as_slice()) {
            Ok(compressed) => {
                if let Sent::Asked { .. } = sent {
                    if let Some(c) = cache {
                        c.insert(
                            url,
                            reply.etag.as_str(),
                            compressed.as_slice(),
                            reply.max_age,
                            now.secs,
                        );
                    }
                }
                answer_page(
                    show_page(compressed.as_slice(), url, "Invalid UTF-8 in response"),
                    reply.etag.as_str(),
                    effective_ttl_secs(reply.max_age, max_ttl),
                )
            },
            Err(e) => {
                proof {
                    assert(e == ProtocolError::InvalidResponse);
                }
                Answer::Page(error_page(join2("Base64 decode failed: ", e.message().as_str()).as_str()))
            },
        },
        Status::Failure | Status::Blocked => match Response::decode_payload(
            reply.payload.as_slice(),
        ) {
            Ok(compressed) => tell(brotli_decompress(compressed.as_slice())),
            Err(e) => {
                proof {
                    assert(e == ProtocolError::InvalidResponse);
                }
                Answer::Page(error_page(join2("Base64 decode failed: ", e.message().as_str()).as_str()))
            },
        },
    }
}

/// What a browser is answered where nothing came back.
pub open spec fn failure_answer(e: ErrorView) -> AnswerView {
    match e {
        ErrorView::NeedsReconsent => AnswerView::Page(
            session_error_text(
                "Session dropped and the disclaimer text changed. Please reconnect and re-consent."@,
                true,
            ),
        ),
        ErrorView::SessionDied { reason } => AnswerView::Page(
            session_error_text("Session lost: "@ + reason + ". Please reconnect."@, true),
        ),
        ErrorView::DisconnectedByOperator => AnswerView::Page(
            session_error_text("Request cancelled by operator disconnect."@, true),
        ),
        _ => AnswerView::Page(error_text("Request failed: "@ + e.text())),
    }
}

/// Answers a browser where nothing came back.
pub fn answer_failure(e: &AgwpeError) -> (r: Answer)
    ensures
        r@ == failure_answer(e@),
{
    match e {
        AgwpeError::NeedsReconsent => Answer::Page(
            render_session_error_page(
                "Session dropped and the disclaimer text changed. Please reconnect and re-consent.",
                true,
            ),
        ),
        AgwpeError::SessionDied { reason } => Answer::Page(
            render_session_error_page(
                join3("Session lost: ", reason.as_str(), ". Please reconnect.").as_str(),
                true,
            ),
        ),
        AgwpeError::DisconnectedByOperator => Answer::Page(
            render_session_error_page("Request cancelled by operator disconnect.", true),
        ),
        _ => Answer::Page(error_page(join2("Request failed: ", e.message().as_str()).as_str())),
    }
}

/// What came back over the air, by its bytes or its error.
pub open spec fn outcome_view(outcome: Result<Vec<u8>, AgwpeError>) -> Result<Seq<u8>, ErrorView> {
    match outcome {
        Ok(data) => Ok(data@),
        Err(e) => Err(e@),
    }
}

/// What a browser is answered to what came back over the air.
pub open spec fn dispatched(
    outcome: Result<Seq<u8>, ErrorView>,
    url: Seq<char>,
    sent: SentView,
    rows: Option<Seq<RowView>>,
    max_ttl: u64,
    now: Moment,
) -> AnswerView {
    match outcome {
        Err(e) => failure_answer(e),
        Ok(data) => match reply_of(data) {
            Err(m) => AnswerView::Page(error_text(m)),
            Ok(reply) => reply_answer(reply, url, sent, rows, max_ttl, now),
        },
    }
}

/// The rows after what came back over the air.
pub open spec fn rows_after_dispatch(
    outcome: Result<Seq<u8>, ErrorView>,
    url: Seq<char>,
    sent: SentView,
    rows: Seq<RowView>,
    cap_bytes: u64,
    cache_ttl: u64,
    now: Moment,
) -> Seq<RowView> {
    match outcome {
        Err(_) => rows,
        Ok(data) => match reply_of(data) {
            Err(_) => rows,
            Ok(reply) => rows_after_reply(reply, url, sent, rows, cap_bytes, cache_ttl, now),
        },
    }
}

/// Answers a browser with what came back over the air.
pub fn dispatch_ax25(
    outcome: Result<Vec<u8>, AgwpeError>,
    url: &str,
    sent: &Sent,
    cache: &mut Option<Cache>,
    max_ttl: u64,
    now: Moment,
) -> (r: Answer)
    requires
        *old(cache) matches Some(c) ==> c.wf(),
    ensures
        r@ == dispatched(
            outcome_view(outcome),
            url@,
            sent@,
            rows_of(*old(cache)),
            max_ttl,
            now,
        ),
        *old(cache) matches Some(c) ==> cache_became(
            *old(cache),
            *final(cache),
            rows_after_dispatch(outcome_view(outcome), url@, sent@, c@, c.cap_bytes, c.max_ttl, now),
        ),
        *old(cache) is None ==> *final(cache) is None,
{
    match outcome {
        Err(e) => answer_failure(&e),
        Ok(data) => match read_reply(data.as_slice()) {
            Err(m) => Answer::Page(error_page(m.as_str())),
            Ok(reply) => answer_reply(reply, url, sent, cache, max_ttl, now),
        },
    }
}

// ---------------------------------------------------------------------------
// Laws
// ---------------------------------------------------------------------------

/// A page that a server sent reaches the browser: what the client reads from
/// the wire is the response that went out, and the page shown is made of the
/// payload that was sent, whatever noise without the magic came before it.
pub proof fn pages_arrive_as_they_were_sent(
    front: Seq<u8>,
    etag: Seq<char>,
    max_age: i32,
    payload: Seq<u8>,
    url: Seq<char>,
    sent: SentView,
    rows: Option<Seq<RowView>>,
    max_ttl: u64,
    now: Moment,
)
    requires
        !occurs(front, magic()),
        valid_etag(etag),
        base64_len(payload.len() as int) <= u32::MAX,
    ensures
        dispatched(
            Ok(front + response_wire(Status::Success, etag, max_age as int, payload)),
            url,
            sent,
            rows,
            max_ttl,
            now,
        ) == (match shown_page(payload, url, "Invalid UTF-8 in response"@) {
            Ok(body) => kept(body, etag, effective_ttl(max_age, max_ttl)),
            Err(e) => AnswerView::Page(error_text(e)),
        }),
{
    crate::shared::protocol::response_round_trip(
        front,
        Status::Success,
        etag,
        max_age as int,
        payload,
    );
    assert((max_age as int) as i32 == max_age);
}

/// What a server refuses reaches the operator as its message, and changes
/// nothing that is kept.
pub proof fn refusals_are_told(
    status: Status,
    etag: Seq<char>,
    max_age: i32,
    payload: Seq<u8>,
    url: Seq<char>,
    sent: SentView,
    rows: Seq<RowView>,
    cap_bytes: u64,
    cache_ttl: u64,
    max_ttl: u64,
    now: Moment,
)
    requires
        status == Status::Failure || status == Status::Blocked,
        valid_etag(etag),
        base64_len(payload.len() as int) <= u32::MAX,
    ensures
        ({
            let data = response_wire(status, etag, max_age as int, payload);
            &&& dispatched(Ok(data), url, sent, Some(rows), max_ttl, now) == told(payload)
            &&& rows_after_dispatch(Ok(data), url, sent, rows, cap_bytes, cache_ttl, now) == rows
        }),
{
    let none = Seq::<u8>::empty();
    let data = response_wire(status, etag, max_age as int, payload);
    assert(none + data =~= data);
    assert(!occurs(none, magic())) by {
        assert forall|i: int| !#[trigger] occurs_at(none, magic(), i) by {}
    }
    crate::shared::protocol::response_round_trip(none, status, etag, max_age as int, payload);
}

/// A page that came in is shown again from what is kept, without going over
/// the air, until its time is up.
pub proof fn kept_pages_are_shown_again(
    reply: ReplyView,
    compressed: Seq<u8>,
    url: Seq<char>,
    etag: Option<Seq<char>>,
    rows: Seq<RowView>,
    cap_bytes: u64,
    cache_ttl: u64,
    now: Moment,
    later: Moment,
)
    requires
        distinct_urls(rows),
        reply.status == Status::Success,
        payload_of(reply.payload) == Some(compressed),
        0 < reply.max_age <= i32::MAX,
        now.secs <= later.secs,
        later.secs - now.secs < capped(reply.max_age as i32, cache_ttl),
    ensures
        ({
            let row = new_row(
                url,
                reply.etag,
                compressed,
                capped(reply.max_age as i32, cache_ttl),
                now.secs,
            );
            let after = rows_after_reply(
                reply,
                url,
                SentView::Asked { etag },
                rows,
                cap_bytes,
                cache_ttl,
                now,
            );
            browse_step(true, url, None, false, None, Some(after), later) == BrowseStepView::Reply(
                served(row, url, later),
            )
        }),
{
    let row = new_row(
        url,
        reply.etag,
        compressed,
        capped(reply.max_age as i32, cache_ttl),
        now.secs,
    );
    inserted_pages_are_found(rows, row, cap_bytes);
}

/// A page that its server forbids to keep is not kept.
pub proof fn forbidden_pages_are_not_kept(
    reply: ReplyView,
    url: Seq<char>,
    sent: SentView,
    rows: Seq<RowView>,
    cap_bytes: u64,
    cache_ttl: u64,
    now: Moment,
)
    requires
        reply.status == Status::Success,
        i32::MIN <= reply.max_age < 0,
    ensures
        rows_after_reply(reply, url, sent, rows, cap_bytes, cache_ttl, now) == rows,
{
}

/// A page that has gone stale is asked for with its etag, and where the server
/// confirms it, the page that is kept is shown, fresh from then on.
pub proof fn confirmed_pages_are_shown(
    reply: ReplyView,
    url: Seq<char>,
    rows: Seq<RowView>,
    i: int,
    max_ttl: u64,
    now: Moment,
)
    requires
        distinct_urls(rows),
        position_of(rows, url) == Some(i),
        0 <= i < rows.len(),
        rows[i].url == url,
        !row_is_fresh(rows[i], now),
        reply.status == Status::NotModified,
        reply.etag == rows[i].etag,
    ensures
        browse_step(true, url, None, false, None, Some(rows), now) == (BrowseStepView::Send {
            request: RequestView::Get { url, if_none_match: Some(rows[i].etag) },
            sent: SentView::Asked { etag: Some(rows[i].etag) },
        }),
        reply_answer(
            reply,
            url,
            SentView::Asked { etag: Some(rows[i].etag) },
            Some(rows),
            max_ttl,
            now,
        ) == served(
            (RowView { fetched_at: now.secs, last_used: now.secs, ..rows[i] }),
            url,
            now,
        ),
{
    let after = confirmed(rows, url, now.secs);
    assert(after[i] == RowView { fetched_at: now.secs, last_used: now.secs, ..rows[i] });
    lemma_distinct_same_urls(rows, after);
    lemma_position_is(after, url, i);
}

/// The browser is told to keep a page for as long as the client does: the lesser
/// of the server's age and the longest that is kept, and not at all where the
/// server forbids it.
pub proof fn browsers_keep_pages_as_long_as_the_client(server_max_age: i32, max_ttl: u64)
    ensures
        server_max_age < 0 ==> effective_ttl(server_max_age, max_ttl) == 0,
        server_max_age >= 0 ==> effective_ttl(server_max_age, max_ttl) == capped(
            server_max_age,
            max_ttl,
        ),
        0 <= server_max_age <= max_ttl ==> effective_ttl(server_max_age, max_ttl)
            == server_max_age,
        server_max_age >= max_ttl ==> effective_ttl(server_max_age, max_ttl) == max_ttl,
{
}

/// Without a link nothing is asked for and nothing is shown: the browser is sent
/// to where one is made.
pub proof fn without_a_link_browsers_are_sent_to_connect(
    url: Seq<char>,
    post_body: Option<Seq<u8>>,
    nocache: bool,
    browser_etag: Option<Seq<char>>,
    rows: Seq<RowView>,
    now: Moment,
)
    ensures
        browse_step(false, url, post_body, nocache, browser_etag, Some(rows), now)
            == BrowseStepView::Reply(AnswerView::Redirect("/connect"@)),
        rows_after_browse(false, url, post_body is Some, nocache, rows, now) == rows,
{
}

/// A form goes over the air as it was filled in, whatever is kept, and neither it
/// nor its answer changes what is kept.
pub proof fn forms_go_over_the_air(
    url: Seq<char>,
    body: Seq<u8>,
    nocache: bool,
    browser_etag: Option<Seq<char>>,
    rows: Seq<RowView>,
    outcome: Result<Seq<u8>, ErrorView>,
    cap_bytes: u64,
    cache_ttl: u64,
    now: Moment,
)
    ensures
        browse_step(true, url, Some(body), nocache, browser_etag, Some(rows), now) == (
        BrowseStepView::Send {
            request: RequestView::Post { url, body },
            sent: SentView::Posted,
        }),
        rows_after_browse(true, url, true, nocache, rows, now) == rows,
        rows_after_dispatch(outcome, url, SentView::Posted, rows, cap_bytes, cache_ttl, now)
            == rows,
{
}

/// A page that is kept is not asked for again until its age is up, unless the
/// browser insists. Where the browser names its etag, it is told that it has the
/// page; else it is shown what is kept. Either way the page counts as used.
pub proof fn fresh_pages_stay_off_the_air(
    url: Seq<char>,
    browser_etag: Option<Seq<char>>,
    rows: Seq<RowView>,
    i: int,
    now: Moment,
)
    requires
        distinct_urls(rows),
        0 <= i < rows.len(),
        rows[i].url == url,
        rows[i].fetched_at <= now.secs < rows[i].fetched_at + rows[i].max_age,
    ensures
        browse_step(true, url, None, false, browser_etag, Some(rows), now)
            == BrowseStepView::Reply(
            if browser_etag == Some(rows[i].etag) {
                AnswerView::NotModified { etag: seq!['"'] + rows[i].etag + seq!['"'] }
            } else {
                served(rows[i], url, now)
            },
        ),
        rows_after_browse(true, url, false, false, rows, now)[i].last_used == now.secs,
{
    lemma_position_is(rows, url, i);
    reveal_strlit("\"");
    assert("\""@ =~= seq!['"']);
}

/// A page that has gone stale is asked for with the etag of what is kept; one
/// that is not kept, or that the browser wants anew, is asked for without.
pub proof fn other_pages_are_asked_for(
    url: Seq<char>,
    nocache: bool,
    browser_etag: Option<Seq<char>>,
    rows: Seq<RowView>,
    i: int,
    now: Moment,
)
    requires
        distinct_urls(rows),
        0 <= i < rows.len(),
    ensures
        rows[i].url == url && !nocache && !(rows[i].fetched_at <= now.secs < rows[i].fetched_at
            + rows[i].max_age) ==> browse_step(
            true,
            url,
            None,
            nocache,
            browser_etag,
            Some(rows),
            now,
        ) == (BrowseStepView::Send {
            request: RequestView::Get { url, if_none_match: Some(rows[i].etag) },
            sent: SentView::Asked { etag: Some(rows[i].etag) },
        }),
        nocache || (forall|k: int| 0 <= k < rows.len() ==> (#[trigger] rows[k]).url != url)
            ==> browse_step(true, url, None, nocache, browser_etag, Some(rows), now) == (
        BrowseStepView::Send {
            request: RequestView::Get { url, if_none_match: None },
            sent: SentView::Asked { etag: None },
        }),
        browse_step(true, url, None, nocache, browser_etag, None, now) == (BrowseStepView::Send {
            request: RequestView::Get { url, if_none_match: None },
            sent: SentView::Asked { etag: None },
        }),
{
    if rows[i].url == url {
        lemma_position_is(rows, url, i);
    }
    crate::client::cache::lemma_position_found(rows, url);
}

/// A page that is kept is shown as it was made when it came in, out of the same
/// HTML, for as long as it has left.
pub proof fn kept_pages_show_their_body(
    row: RowView,
    url: Seq<char>,
    html: Seq<char>,
    page: Seq<char>,
    now: Moment,
)
    requires
        brotli_decoded(row.brotli_body) == Ok::<Seq<u8>, Seq<char>>(encode_utf8(html)),
        url_fault(url) is None,
        page_rewritten(html, all_handlers(), url) == Ok::<Seq<char>, Seq<char>>(page),
    ensures
        served(row, url, now) == (AnswerView::Kept {
            body: browse_text(page, url),
            cache_control: "private, max-age="@ + decimal(
                seconds_left(row.fetched_at, row.max_age, now) as nat,
            ),
            etag: "\""@ + row.etag + "\""@,
        }),
{
    encode_utf8_valid_utf8(html);
    encode_utf8_decode_utf8(html);
}

/// An etag that the browser sends back in quotes is the etag that it was given.
pub proof fn quotes_come_off_again(etag: Seq<char>)
    requires
        !etag.contains('"'),
    ensures
        unquoted(quoted(etag)) == etag,
        unquoted(etag) == etag,
{
    reveal_strlit("\"");
    let q = "\""@;
    assert(q =~= seq!['"']);
    let s = quoted(etag);
    assert(s.drop_first() =~= etag + q);
    let t = etag + q;
    if etag.len() > 0 {
        assert(etag.contains(etag[0]) && etag.contains(etag.last()));
        assert(t[0] == etag[0]);
        assert(drop_quotes_in_front(t) == t);
        assert(s[0] == '"');
        assert(drop_quotes_in_front(s) == t);
        assert(t.last() == '"');
        assert(drop_quotes_behind(etag) == etag);
        assert(t.drop_last() =~= etag);
    } else {
        assert(t =~= q);
        assert(t.drop_first() =~= etag);
        reveal_with_fuel(drop_quotes_in_front, 3);
        assert(s =~= seq!['"', '"']);
        assert(s.drop_first().drop_first() =~= etag);
    }
}

/// Only as many bytes as the header announces are taken for the payload, and a
/// response that has not come whole is not answered from.
pub proof fn payloads_are_whole(data: Seq<u8>)
    ensures
        match (reply_of(data), header_of(data)) {
            (Ok(reply), HeaderView::Complete { status, len, etag, max_age, end }) => {
                &&& reply.payload.len() == len
                &&& reply.payload == data.skip(end).take(len as int)
                &&& reply.status == status && reply.etag == etag && reply.max_age == max_age
            },
            (Ok(_), _) => false,
            (Err(_), HeaderView::Complete { len, end, .. }) => data.len() < end + len,
            (Err(_), _) => true,
        },
{
    if let HeaderView::Complete { end, len, .. } = header_of(data) {
        lemma_header_ends_within(data);
        if data.len() >= end + len {
            assert(data.subrange(end, end + len) =~= data.skip(end).take(len as int));
        }
    }
}

proof fn lemma_header_ends_within(data: Seq<u8>)
    ensures
        header_of(data) matches HeaderView::Complete { end, .. } ==> 0 <= end <= data.len(),
{
    if header_of(data) is Complete {
        crate::client::transport::session::header_is_settled(data, Seq::empty());
        crate::text::lemma_first_exists(data, magic());
        let q = crate::text::find(data, magic())->0;
        crate::shared::protocol::lemma_line_break_within(data, q + 6);
    }
}

/// Where nothing came back, nothing that is kept changes. A lost session is told
/// of with its reason, and any other failure with its message.
pub proof fn failures_change_nothing(
    e: ErrorView,
    url: Seq<char>,
    sent: SentView,
    rows: Seq<RowView>,
    cap_bytes: u64,
    cache_ttl: u64,
    max_ttl: u64,
    now: Moment,
)
    ensures
        rows_after_dispatch(Err(e), url, sent, rows, cap_bytes, cache_ttl, now) == rows,
        e matches ErrorView::SessionDied { reason } ==> dispatched(
            Err(e),
            url,
            sent,
            Some(rows),
            max_ttl,
            now,
        ) == AnswerView::Page(
            session_error_text("Session lost: "@ + reason + ". Please reconnect."@, true),
        ),
        !(e is SessionDied) && !(e is NeedsReconsent) && !(e is DisconnectedByOperator)
            ==> dispatched(Err(e), url, sent, Some(rows), max_ttl, now) == AnswerView::Page(
            error_text("Request failed: "@ + e.text()),
        ),
{
}

/// A page that came in is kept under its URL with the etag and the body that it
/// was sent with, from the moment that it came.
pub proof fn pages_that_come_in_are_kept(
    reply: ReplyView,
    compressed: Seq<u8>,
    url: Seq<char>,
    etag: Option<Seq<char>>,
    rows: Seq<RowView>,
    cap_bytes: u64,
    cache_ttl: u64,
    now: Moment,
)
    requires
        distinct_urls(rows),
        reply.status == Status::Success,
        payload_of(reply.payload) == Some(compressed),
        0 <= reply.max_age <= i32::MAX,
    ensures
        ({
            let after = rows_after_reply(
                reply,
                url,
                SentView::Asked { etag },
                rows,
                cap_bytes,
                cache_ttl,
                now,
            );
            position_of(after, url) matches Some(i) && {
                &&& 0 <= i < after.len()
                &&& after[i].url == url
                &&& after[i].etag == reply.etag
                &&& after[i].brotli_body == compressed
                &&& after[i].fetched_at == now.secs
                &&& reply.max_age <= cache_ttl ==> after[i].max_age == reply.max_age
                &&& reply.max_age >= cache_ttl ==> after[i].max_age == cache_ttl
            }
        }),
{
    crate::client::cache::pages_are_kept_as_they_came(
        rows,
        url,
        reply.etag,
        compressed,
        reply.max_age as i32,
        cache_ttl,
        now.secs,
        cap_bytes,
    );
}

/// Where the session is gone, the page says why and how to go on.
pub proof fn lost_sessions_can_be_reconnected(e: ErrorView, reason: Seq<char>)
    ensures
        failure_answer(ErrorView::NeedsReconsent) == AnswerView::Page(
            session_error_text(
                "Session dropped and the disclaimer text changed. Please reconnect and re-consent."@,
                true,
            ),
        ),
        failure_answer(ErrorView::DisconnectedByOperator) == AnswerView::Page(
            session_error_text("Request cancelled by operator disconnect."@, true),
        ),
        failure_answer(ErrorView::SessionDied { reason }) == AnswerView::Page(
            session_error_text("Session lost: "@ + reason + ". Please reconnect."@, true),
        ),
        failure_answer(ErrorView::Io(reason)) == AnswerView::Page(
            error_text("Request failed: "@ + ErrorView::Io(reason).text()),
        ),
{
}

/// A page that was rewritten is framed under its URL, and what was decompressed
/// is its text where it is one.
pub proof fn rewritten_pages_are_framed(
    page: String,
    url: Seq<char>,
    bytes: Vec<u8>,
    text: Seq<char>,
    bad: Seq<char>,
)
    requires
        bytes@ == encode_utf8(text),
    ensures
        framed(Ok(page), url) == Ok::<Seq<char>, Seq<char>>(browse_text(page@, url)),
        decoded_text(Ok(bytes), bad) == Ok::<Seq<char>, Seq<char>>(text),
{
    encode_utf8_valid_utf8(text);
    encode_utf8_decode_utf8(text);
}

} // verus!
