//! The framed requests and responses that follow the handshake.
//!
//! A request is a line, `GET url`, `GET url IF-NONE-MATCH etag` or `POST url`;
//! a posted body follows its line behind a 32-bit length. A response is
//!
//! ```text
//! RESP<status> <base64 length> <etag> <max age>\n<base64 payload>\n
//! ```
//!
//! in printable ASCII, so that it survives a telnet driver on the way.

use vstd::prelude::*;
use vstd::utf8::*;
use crate::bytes::{
    append, append_be32, be32, copy_range, bytes_begin, find_byte, find_bytes, from_be32, index_of,
    lemma_encode_concat, lemma_index_of, read_be32, string_from_utf8, utf8_text,
};
use crate::number::{
    decimal, decimal_signed, push_decimal, read_i32, read_unsigned, signed, signed_decimal_text,
    unsigned,
};
use crate::shared::codec::{
    base64_decode, base64_encode, base64_len, base64_text, base64url_encode, is_base64url_char,
    sha256, sha256_digest,
};
use crate::text::{
    around_first, chars_of, find, first_at, occurs, occurs_at, opt_view, split, split_at_char,
    split_once, starts_with,
};

verus! {

/// Why a message could not be read.
#[derive(Debug, Clone, Copy, PartialEq, Eq, Structural)]
pub enum ProtocolError {
    InvalidRequest,
    InvalidResponse,
    UrlTooLong,
    PayloadTooLarge,
}

impl ProtocolError {
    /// The message for the operator.
    pub open spec fn text(self) -> Seq<char> {
        match self {
            ProtocolError::InvalidRequest => "Invalid request format"@,
            ProtocolError::InvalidResponse => "Invalid response format"@,
            ProtocolError::UrlTooLong => "URL too long"@,
            ProtocolError::PayloadTooLarge => "Payload too large"@,
        }
    }

    /// The message for the operator.
    pub fn message(&self) -> (r: String)
        ensures
            r@ == self.text(),
    {
        match self {
            ProtocolError::InvalidRequest => "Invalid request format".to_owned(),
            ProtocolError::InvalidResponse => "Invalid response format".to_owned(),
            ProtocolError::UrlTooLong => "URL too long".to_owned(),
            ProtocolError::PayloadTooLarge => "Payload too large".to_owned(),
        }
    }
}

// ---------------------------------------------------------------------------
// Requests
// ---------------------------------------------------------------------------

/// What the client asks of the server.
#[derive(Debug, Clone, PartialEq)]
pub enum Request {
    Get { url: String, if_none_match: Option<String> },
    Post { url: String, body: Vec<u8> },
}

/// A request by the texts and bytes that it holds.
pub enum RequestView {
    Get { url: Seq<char>, if_none_match: Option<Seq<char>> },
    Post { url: Seq<char>, body: Seq<u8> },
}

impl View for Request {
    type V = RequestView;

    open spec fn view(&self) -> RequestView {
        match self {
            Request::Get { url, if_none_match } => RequestView::Get {
                url: url@,
                if_none_match: opt_view(*if_none_match),
            },
            Request::Post { url, body } => RequestView::Post { url: url@, body: body@ },
        }
    }
}

/// The token between the URL and the etag of a conditional request.
pub open spec fn sentinel() -> Seq<char> {
    " IF-NONE-MATCH "@
}

/// A request on the wire.
pub open spec fn request_wire(r: RequestView) -> Seq<u8> {
    match r {
        RequestView::Get { url, if_none_match: None } => encode_utf8("GET "@) + encode_utf8(url)
            + seq![0x0au8],
        RequestView::Get { url, if_none_match: Some(etag) } => encode_utf8("GET "@) + encode_utf8(
            url,
        ) + encode_utf8(sentinel()) + encode_utf8(etag) + seq![0x0au8],
        RequestView::Post { url, body } => encode_utf8("POST "@) + encode_utf8(url) + seq![0x0au8]
            + be32(body.len() as u32) + body,
    }
}

/// The text from `from` up to the next line feed, and where that line feed
/// stands.
pub open spec fn text_line(data: Seq<u8>, from: int) -> Option<(Seq<char>, int)> {
    match index_of(data, 0x0a, from) {
        Some(end) => match utf8_text(data.subrange(from, end)) {
            Some(line) => Some((line, end)),
            None => None,
        },
        None => None,
    }
}

/// What the line of a `GET` asks for.
pub open spec fn get_of_line(line: Seq<char>) -> RequestView {
    match around_first(line, sentinel()) {
        Some((url, etag)) => RequestView::Get { url, if_none_match: Some(etag) },
        None => RequestView::Get { url: line, if_none_match: None },
    }
}

/// The request that `data` begins with, where it holds one whole.
pub open spec fn request_of(data: Seq<u8>) -> Option<RequestView> {
    if starts_with(data, encode_utf8("GET "@)) {
        match text_line(data, 4) {
            Some((line, _)) => Some(get_of_line(line)),
            None => None,
        }
    } else if starts_with(data, encode_utf8("POST "@)) {
        match text_line(data, 5) {
            Some((url, end)) => {
                if data.len() < end + 5 {
                    None
                } else {
                    let n = from_be32(data.subrange(end + 1, end + 5));
                    if data.len() < end + 5 + n {
                        None
                    } else {
                        Some(RequestView::Post { url, body: data.subrange(end + 5, end + 5 + n) })
                    }
                }
            },
            None => None,
        }
    } else {
        None
    }
}

/// The text from `from` up to the next line feed, and where that stands.
fn read_text_line(data: &[u8], from: usize) -> (r: Option<(String, usize)>)
    requires
        from <= data@.len(),
    ensures
        match r {
            Some((line, end)) => text_line(data@, from as int) == Some((line@, end as int)) && from
                <= end < data@.len(),
            None => text_line(data@, from as int) is None,
        },
{
    match find_byte(data, 0x0a, from) {
        Some(end) => match string_from_utf8(copy_range(data, from, end)) {
            Some(line) => Some((line, end)),
            None => None,
        },
        None => None,
    }
}

proof fn lemma_request_prefixes()
    ensures
        encode_utf8("GET "@).len() == 4,
        encode_utf8("POST "@).len() == 5,
        encode_utf8("GET "@)[0] == 0x47,
        encode_utf8("POST "@)[0] == 0x50,
{
    reveal_strlit("GET ");
    reveal_strlit("POST ");
    is_ascii_chars_encode_utf8("GET "@);
    is_ascii_chars_encode_utf8("POST "@);
}

impl Request {
    /// The request as it goes over the wire. The length in front of a posted
    /// body is taken modulo 2^32.
    pub fn encode(&self) -> (r: Vec<u8>)
        ensures
            r@ == request_wire(self@),
    {
        let mut data: Vec<u8> = Vec::new();
        match self {
            Request::Get { url, if_none_match: None } => {
                append(&mut data, "GET ".as_bytes());
                append(&mut data, url.as_str().as_bytes());
                data.push(0x0a);
                assert(data@ =~= request_wire(self@));
            },
            Request::Get { url, if_none_match: Some(etag) } => {
                append(&mut data, "GET ".as_bytes());
                append(&mut data, url.as_str().as_bytes());
                append(&mut data, " IF-NONE-MATCH ".as_bytes());
                append(&mut data, etag.as_str().as_bytes());
                data.push(0x0a);
                assert(data@ =~= request_wire(self@));
            },
            Request::Post { url, body } => {
                append(&mut data, "POST ".as_bytes());
                append(&mut data, url.as_str().as_bytes());
                data.push(0x0a);
                append_be32(&mut data, body.len() as u32);
                append(&mut data, body);
                assert(data@ =~= request_wire(self@));
            },
        }
        data
    }

    /// Reads the request that `data` begins with.
    pub fn decode(data: &[u8]) -> (r: Result<Request, ProtocolError>)
        ensures
            match request_of(data@) {
                Some(v) => r matches Ok(req) && req@ == v,
                None => r == Err::<Request, ProtocolError>(ProtocolError::InvalidRequest),
            },
    {
        proof {
            lemma_request_prefixes();
        }
        if bytes_begin(data, "GET ".as_bytes()) {
            match read_text_line(data, 4) {
                Some((line, _)) => Ok(request_from_line(line)),
                None => Err(ProtocolError::InvalidRequest),
            }
        } else if bytes_begin(data, "POST ".as_bytes()) {
            match read_text_line(data, 5) {
                Some((url, end)) => {
                    let left: usize = data.len() - end - 1;
                    if left < 4 {
                        return Err(ProtocolError::InvalidRequest);
                    }
                    let n: u32 = read_be32(data, end + 1);
                    if (left - 4) as u64 >= n as u64 {
                        let start: usize = end + 5;
                        let body = copy_range(data, start, start + n as usize);
                        Ok(Request::Post { url, body })
                    } else {
                        Err(ProtocolError::InvalidRequest)
                    }
                },
                None => Err(ProtocolError::InvalidRequest),
            }
        } else {
            Err(ProtocolError::InvalidRequest)
        }
    }
}

/// The `GET` that a line, without its `GET ` and its line feed, stands for.
pub fn request_from_line(line: String) -> (r: Request)
    ensures
        r@ == get_of_line(line@),
{
    match split_once(line.as_str(), " IF-NONE-MATCH ") {
        Some((url, etag)) => Request::Get { url, if_none_match: Some(etag) },
        None => Request::Get { url: line, if_none_match: None },
    }
}

// ---------------------------------------------------------------------------
// Responses
// ---------------------------------------------------------------------------

/// How a request ended.
#[derive(Debug, Clone, Copy, PartialEq, Eq, Structural)]
pub enum Status {
    Success,
    Failure,
    Blocked,
    NotModified,
}

/// The number of a status.
pub open spec fn status_code(s: Status) -> u8 {
    match s {
        Status::Success => 0,
        Status::Failure => 1,
        Status::Blocked => 2,
        Status::NotModified => 3,
    }
}

impl Status {
    /// The status with a number.
    pub fn try_from(value: u8) -> (r: Result<Status, ProtocolError>)
        ensures
            value <= 3 ==> (r matches Ok(s) && status_code(s) == value),
            value > 3 ==> r == Err::<Status, ProtocolError>(ProtocolError::InvalidResponse),
    {
        match value {
            0 => Ok(Status::Success),
            1 => Ok(Status::Failure),
            2 => Ok(Status::Blocked),
            3 => Ok(Status::NotModified),
            _ => Err(ProtocolError::InvalidResponse),
        }
    }

    /// The number of the status.
    pub fn code(self) -> (r: u8)
        ensures
            r == status_code(self),
    {
        match self {
            Status::Success => 0,
            Status::Failure => 1,
            Status::Blocked => 2,
            Status::NotModified => 3,
        }
    }
}

/// What the server answers.
#[derive(Debug, Clone)]
pub struct Response {
    pub status: Status,
    pub etag: String,
    pub max_age: i32,
    pub payload: Vec<u8>,
}

/// `RESP`, with which every response begins.
pub open spec fn magic() -> Seq<u8> {
    seq![0x52u8, 0x45, 0x53, 0x50]
}

/// An etag that a response may carry: `-`, or sixteen characters of the
/// URL-safe base64 alphabet.
pub open spec fn valid_etag(s: Seq<char>) -> bool {
    s == seq!['-'] || (s.len() == 16 && forall|i: int|
        0 <= i < s.len() ==> is_base64url_char(#[trigger] s[i]))
}

/// The three fields behind the status.
pub open spec fn header_fields(len: nat, etag: Seq<char>, max_age: int) -> Seq<char> {
    decimal(len) + seq![' '] + (etag + seq![' '] + decimal_signed(max_age))
}

/// The header line of a response, with its line feed.
pub open spec fn header_text(status: Status, len: nat, etag: Seq<char>, max_age: int) -> Seq<char> {
    seq!['R', 'E', 'S', 'P', (0x30 + status_code(status)) as u8 as char, ' '] + header_fields(
        len,
        etag,
        max_age,
    ) + seq!['\n']
}

/// A response as text.
pub open spec fn response_text(
    status: Status,
    etag: Seq<char>,
    max_age: int,
    payload: Seq<u8>,
) -> Seq<char> {
    let body = base64_text(payload, false, true);
    header_text(status, body.len(), etag, max_age) + body + seq!['\n']
}

/// A response on the wire.
pub open spec fn response_wire(
    status: Status,
    etag: Seq<char>,
    max_age: int,
    payload: Seq<u8>,
) -> Seq<u8> {
    encode_utf8(response_text(status, etag, max_age, payload))
}

/// What can be said of a response header in the bytes received so far.
pub enum HeaderView {
    /// More bytes are needed.
    Incomplete,
    /// The bytes behind the magic are no header.
    Malformed,
    /// A whole header; the payload begins at `end`.
    Complete { status: Status, len: nat, etag: Seq<char>, max_age: int, end: int },
}

/// A line feed or a carriage return.
pub open spec fn is_line_break(b: u8) -> bool {
    b == 0x0a || b == 0x0d
}

/// The first line break from `from` on.
pub open spec fn line_break(data: Seq<u8>, from: int) -> Option<int>
    decreases data.len() - from,
{
    if from >= data.len() {
        None
    } else if is_line_break(data[from]) {
        Some(from)
    } else {
        line_break(data, from + 1)
    }
}

/// The status that a digit stands for.
pub open spec fn status_of_digit(b: u8) -> Option<Status> {
    if b == 0x30 {
        Some(Status::Success)
    } else if b == 0x31 {
        Some(Status::Failure)
    } else if b == 0x32 {
        Some(Status::Blocked)
    } else if b == 0x33 {
        Some(Status::NotModified)
    } else {
        None
    }
}

/// Payload length, etag and maximum age, where `line` is these three fields
/// with single spaces between them.
pub open spec fn fields_of(line: Seq<char>) -> Option<(nat, Seq<char>, int)> {
    let f = split(line, ' ');
    if f.len() == 3 && valid_etag(f[1]) {
        match (unsigned(f[0], u32::MAX as nat), signed(f[2], i32::MAX as nat)) {
            (Some(len), Some(age)) => Some((len, f[1], age)),
            _ => None,
        }
    } else {
        None
    }
}

/// The header whose status digit stands at `at`.
pub open spec fn header_after_magic(data: Seq<u8>, at: int) -> HeaderView {
    if data.len() < at + 2 {
        HeaderView::Incomplete
    } else {
        match status_of_digit(data[at]) {
            None => HeaderView::Malformed,
            Some(status) => {
                if data[at + 1] != 0x20 {
                    HeaderView::Malformed
                } else {
                    match line_break(data, at + 2) {
                        None => HeaderView::Incomplete,
                        Some(e) => match utf8_text(data.subrange(at + 2, e)) {
                            None => HeaderView::Malformed,
                            Some(line) => match fields_of(line) {
                                None => HeaderView::Malformed,
                                Some((len, etag, max_age)) => HeaderView::Complete {
                                    status,
                                    len,
                                    etag,
                                    max_age,
                                    end: e + 1,
                                },
                            },
                        },
                    }
                }
            },
        }
    }
}

/// What the bytes received so far say of the response header: the header is
/// looked for behind the first magic, and whatever stands in front of that is
/// passed over.
pub open spec fn header_of(data: Seq<u8>) -> HeaderView {
    match find(data, magic()) {
        None => HeaderView::Incomplete,
        Some(p) => header_after_magic(data, p + 4),
    }
}

/// The result of reading a header, as a view.
pub open spec fn header_result(
    r: Result<Option<(Status, u32, String, i32, usize)>, ProtocolError>,
) -> HeaderView {
    match r {
        Ok(None) => HeaderView::Incomplete,
        Ok(Some(h)) => HeaderView::Complete {
            status: h.0,
            len: h.1 as nat,
            etag: h.2@,
            max_age: h.3 as int,
            end: h.4 as int,
        },
        Err(_) => HeaderView::Malformed,
    }
}

/// The payload that a base64 text encodes, where it is one.
pub open spec fn payload_of(text: Seq<u8>) -> Option<Seq<u8>> {
    if exists|d: Seq<u8>| text == encode_utf8(#[trigger] base64_text(d, false, true)) {
        Some(choose|d: Seq<u8>| text == encode_utf8(#[trigger] base64_text(d, false, true)))
    } else {
        None
    }
}

/// The etag of a page: the URL-safe base64 of the first twelve bytes of the
/// SHA-256 of its UTF-8 text.
pub open spec fn etag_of(html: Seq<char>) -> Seq<char> {
    base64_text(sha256(encode_utf8(html)).take(12), true, false)
}

/// Finds the first line break from `from` on.
fn find_line_break(data: &[u8], from: usize) -> (r: Option<usize>)
    requires
        from <= data@.len(),
    ensures
        match r {
            Some(i) => line_break(data@, from as int) == Some(i as int) && from <= i < data@.len(),
            None => line_break(data@, from as int) is None,
        },
{
    let mut i: usize = from;
    while i < data.len()
        invariant
            from <= i <= data@.len(),
            line_break(data@, from as int) == line_break(data@, i as int),
        decreases data.len() - i,
    {
        if data[i] == 0x0a || data[i] == 0x0d {
            return Some(i);
        }
        i += 1;
    }
    None
}

/// Tells whether a response may carry this etag.
pub fn is_valid_etag(etag: &str) -> (r: bool)
    ensures
        r == valid_etag(etag@),
{
    let chars = chars_of(etag);
    if chars.len() == 1 {
        assert(chars@ =~= seq![chars@[0]]);
        return chars[0] == '-';
    }
    if chars.len() != 16 {
        return false;
    }
    let mut i: usize = 0;
    while i < 16
        invariant
            i <= 16,
            chars@.len() == 16,
            chars@ == etag@,
            forall|k: int| 0 <= k < i ==> is_base64url_char(#[trigger] etag@[k]),
        decreases 16 - i,
    {
        let c = chars[i];
        if !(('A' <= c && c <= 'Z') || ('a' <= c && c <= 'z') || ('0' <= c && c <= '9') || c == '-'
            || c == '_') {
            assert(!is_base64url_char(etag@[i as int]));
            return false;
        }
        i += 1;
    }
    true
}

/// Reads the three fields of a header line.
fn read_fields(line: &str) -> (r: Option<(u32, String, i32)>)
    ensures
        match r {
            Some((len, etag, age)) => fields_of(line@) == Some((len as nat, etag@, age as int)),
            None => fields_of(line@) is None,
        },
{
    let fields = split_at_char(line, ' ');
    let ghost f = split(line@, ' ');
    assert(f.len() == fields@.len());
    if fields.len() != 3 {
        return None;
    }
    assert(f[0] == fields@[0]@ && f[1] == fields@[1]@ && f[2] == fields@[2]@);
    if !is_valid_etag(fields[1].as_str()) {
        return None;
    }
    match (read_unsigned(fields[0].as_str(), 0xffff_ffff), read_i32(fields[2].as_str())) {
        (Some(len), Some(age)) => Some((len as u32, fields[1].clone(), age)),
        _ => None,
    }
}

impl Response {
    /// The response as it goes over the wire.
    pub fn encode(&self) -> (r: Vec<u8>)
        requires
            base64_len(self.payload@.len() as int) <= isize::MAX,
        ensures
            r@ == response_wire(self.status, self.etag@, self.max_age as int, self.payload@),
    {
        let body = base64_encode(&self.payload);
        let mut head = String::new();
        head.push('R');
        head.push('E');
        head.push('S');
        head.push('P');
        head.push((0x30 + self.status.code()) as char);
        head.push(' ');
        let body_bytes = body.as_str().as_bytes();
        proof {
            crate::shared::codec::lemma_base64_ascii(self.payload@);
        }
        push_decimal(&mut head, body_bytes.len() as u64);
        head.push(' ');
        head.append(self.etag.as_str());
        head.push(' ');
        let age = signed_decimal_text(self.max_age as i64);
        head.append(age.as_str());
        head.push('\n');
        head.append(body.as_str());
        head.push('\n');
        assert(head@ =~= response_text(
            self.status,
            self.etag@,
            self.max_age as int,
            self.payload@,
        ));
        let mut out: Vec<u8> = Vec::new();
        append(&mut out, head.as_str().as_bytes());
        assert(out@ =~= encode_utf8(head@));
        out
    }

    /// Reads the header of the first response in `data`: its status, the
    /// length of its base64 payload, its etag, its maximum age and where the
    /// payload begins. `None` where more bytes are needed.
    pub fn decode_header(data: &[u8]) -> (r: Result<
        Option<(Status, u32, String, i32, usize)>,
        ProtocolError,
    >)
        ensures
            header_result(r) == header_of(data@),
            r matches Err(e) ==> e == ProtocolError::InvalidResponse,
            r matches Ok(Some(h)) ==> h.4 <= data@.len(),
    {
        let magic_bytes: [u8; 4] = [0x52, 0x45, 0x53, 0x50];
        assert(magic_bytes@ =~= magic());
        let n: usize = data.len();
        let at: usize = match find_bytes(data, &magic_bytes) {
            Some(p) => p + 4,
            None => {
                return Ok(None);
            },
        };
        if n - at < 2 {
            return Ok(None);
        }
        let status = match data[at] {
            0x30 => Status::Success,
            0x31 => Status::Failure,
            0x32 => Status::Blocked,
            0x33 => Status::NotModified,
            _ => {
                return Err(ProtocolError::InvalidResponse);
            },
        };
        if data[at + 1] != 0x20 {
            return Err(ProtocolError::InvalidResponse);
        }
        let start: usize = at + 2;
        let end: usize = match find_line_break(data, start) {
            Some(e) => e,
            None => {
                return Ok(None);
            },
        };
        match string_from_utf8(copy_range(data, start, end)) {
            None => Err(ProtocolError::InvalidResponse),
            Some(line) => match read_fields(line.as_str()) {
                None => Err(ProtocolError::InvalidResponse),
                Some((len, etag, max_age)) => Ok(Some((status, len, etag, max_age, end + 1))),
            },
        }
    }

    /// Turns a base64 payload back into the raw payload.
    pub fn decode_payload(base64_bytes: &[u8]) -> (r: Result<Vec<u8>, ProtocolError>)
        ensures
            match payload_of(base64_bytes@) {
                Some(d) => r matches Ok(v) && v@ == d,
                None => r == Err::<Vec<u8>, ProtocolError>(ProtocolError::InvalidResponse),
            },
    {
        match base64_decode(base64_bytes) {
            Some(d) => {
                proof {
                    payload_round_trip(d@);
                }
                Ok(d)
            },
            None => Err(ProtocolError::InvalidResponse),
        }
    }
}

/// Makes an etag of the first twelve bytes of a digest.
pub fn digest_etag(digest: &[u8]) -> (r: String)
    requires
        digest@.len() >= 12,
    ensures
        r@ == base64_text(digest@.take(12), true, false),
        r@.len() == 16,
        valid_etag(r@),
{
    let head = copy_range(digest, 0, 12);
    proof {
        assert(head@ =~= digest@.take(12));
        crate::shared::codec::lemma_base64_alphabet(head@, true, false);
        crate::shared::codec::lemma_twelve_bytes(head@);
    }
    base64url_encode(&head)
}

/// Computes the etag of a page.
pub fn sanitized_html_etag(html: &str) -> (r: String)
    ensures
        r@ == etag_of(html@),
        r@.len() == 16,
        valid_etag(r@),
{
    digest_etag(sha256_digest(html.as_bytes()).as_slice())
}

// ---------------------------------------------------------------------------
// Laws
// ---------------------------------------------------------------------------

/// The bytes of an ASCII text are its characters.
proof fn lemma_ascii_bytes(s: Seq<char>)
    requires
        is_ascii_chars(s),
    ensures
        encode_utf8(s).len() == s.len(),
        forall|i: int| 0 <= i < s.len() ==> #[trigger] encode_utf8(s)[i] == s[i] as u8,
{
    is_ascii_chars_encode_utf8(s);
}

/// A decimal text is ASCII digits.
proof fn lemma_decimal_chars(n: nat)
    ensures
        forall|i: int| 0 <= i < decimal(n).len() ==> '0' <= #[trigger] decimal(n)[i] <= '9',
{
    crate::number::lemma_decimal(n);
    assert forall|i: int| 0 <= i < decimal(n).len() implies '0' <= #[trigger] decimal(n)[i]
        <= '9' by {
        assert(crate::text::is_digit(decimal(n)[i]));
    }
}

/// The characters of the three fields: printable, and no line break.
proof fn lemma_fields_printable(len: nat, etag: Seq<char>, max_age: int)
    requires
        valid_etag(etag),
    ensures
        forall|i: int|
            0 <= i < header_fields(len, etag, max_age).len() ==> ' ' <= #[trigger] header_fields(
                len,
                etag,
                max_age,
            )[i] <= '~',
{
    lemma_decimal_chars(len);
    lemma_decimal_chars(
        (if max_age < 0 {
            -max_age
        } else {
            max_age
        }) as nat,
    );
    let f = header_fields(len, etag, max_age);
    let d = decimal(len);
    let a = decimal_signed(max_age);
    assert forall|i: int| 0 <= i < f.len() implies ' ' <= #[trigger] f[i] <= '~' by {
        if i < d.len() {
            assert(f[i] == d[i]);
        } else if d.len() < i < d.len() + 1 + etag.len() {
            assert(f[i] == etag[i - d.len() - 1]);
        } else if i > d.len() + 1 + etag.len() {
            let k = i - d.len() - 2 - etag.len();
            assert(f[i] == a[k]);
            if max_age < 0 {
                if k > 0 {
                    assert(a[k] == decimal((-max_age) as nat)[k - 1]);
                }
            } else {
                assert(a[k] == decimal(max_age as nat)[k]);
            }
        }
    }
}

/// Every byte of a response is a line feed or printable ASCII: no NUL, no
/// carriage return and no telnet command byte goes over the wire.
pub proof fn wire_is_telnet_safe(
    status: Status,
    etag: Seq<char>,
    max_age: int,
    payload: Seq<u8>,
)
    requires
        valid_etag(etag),
    ensures
        forall|i: int|
            0 <= i < response_wire(status, etag, max_age, payload).len() ==> ({
                let b = #[trigger] response_wire(status, etag, max_age, payload)[i];
                b == 0x0a || 0x20 <= b <= 0x7e
            }),
        is_ascii_chars(response_text(status, etag, max_age, payload)),
{
    let body = base64_text(payload, false, true);
    let t = response_text(status, etag, max_age, payload);
    let f = header_fields(body.len(), etag, max_age);
    lemma_fields_printable(body.len(), etag, max_age);
    crate::shared::codec::lemma_base64_alphabet(payload, false, true);
    assert forall|i: int| 0 <= i < t.len() implies t[i] == '\n' || ' ' <= #[trigger] t[i]
        <= '~' by {
        if 6 <= i < 6 + f.len() {
            assert(t[i] == f[i - 6]);
        } else if 7 + f.len() <= i < 7 + f.len() + body.len() {
            assert(t[i] == body[i - 7 - f.len()]);
        }
    }
    assert(is_ascii_chars(t)) by {
        assert forall|i: int| 0 <= i < t.len() implies #[trigger] t[i] as nat <= 127 by {}
    }
    lemma_ascii_bytes(t);
}

/// A payload that was encoded for the wire decodes to itself.
pub proof fn payload_round_trip(payload: Seq<u8>)
    ensures
        payload_of(encode_utf8(base64_text(payload, false, true))) == Some(payload),
{
    let text = encode_utf8(base64_text(payload, false, true));
    let d = choose|d: Seq<u8>| text == encode_utf8(#[trigger] base64_text(d, false, true));
    assert(text == encode_utf8(base64_text(d, false, true)));
    encode_utf8_decode_utf8(base64_text(payload, false, true));
    encode_utf8_decode_utf8(base64_text(d, false, true));
    crate::shared::codec::base64_is_injective(d, payload);
}

/// A request that its line can carry: no line feed in its texts, no sentinel
/// that would be taken for the one that the request itself writes, and a body
/// whose length fits in 32 bits.
pub open spec fn fits_the_wire(r: RequestView) -> bool {
    match r {
        RequestView::Get { url, if_none_match: None } => !url.contains('\n') && !occurs(
            url,
            sentinel(),
        ),
        RequestView::Get { url, if_none_match: Some(etag) } => !url.contains('\n')
            && !etag.contains('\n') && !occurs(url.push(' '), sentinel()),
        RequestView::Post { url, body } => !url.contains('\n') && body.len() <= u32::MAX,
    }
}

/// A text between a prefix and a line feed is read back.
proof fn lemma_text_line(head: Seq<u8>, line: Seq<char>, rest: Seq<u8>)
    requires
        !line.contains('\n'),
    ensures
        ({
            let data = head + encode_utf8(line) + seq![0x0au8] + rest;
            text_line(data, head.len() as int) == Some(
                (line, (head.len() + encode_utf8(line).len()) as int),
            )
        }),
{
    let body = encode_utf8(line);
    let data = head + body + seq![0x0au8] + rest;
    let from = head.len() as int;
    let end = from + body.len();
    assert(0x0au8 as char == '\n');
    crate::bytes::lemma_ascii_byte_absent(line, 0x0a);
    assert forall|i: int| from <= i < end implies data[i] != 0x0a by {
        assert(data[i] == body[i - from]);
    }
    assert(data[end] == 0x0a);
    lemma_index_of(data, 0x0a, from, end);
    assert(data.subrange(from, end) =~= body);
    encode_utf8_valid_utf8(line);
    encode_utf8_decode_utf8(line);
}

/// The sentinel of a conditional request is found where the request wrote it.
pub proof fn lemma_sentinel_position(url: Seq<char>, etag: Seq<char>)
    requires
        !occurs(url.push(' '), sentinel()),
    ensures
        around_first(url + sentinel() + etag, sentinel()) == Some((url, etag)),
{
    reveal_strlit(" IF-NONE-MATCH ");
    let s = sentinel();
    let line = url + s + etag;
    let n = url.len() as int;
    assert(line.subrange(n, n + 15) =~= s);
    assert(occurs_at(line, s, n));
    assert forall|j: int| 0 <= j < n implies !#[trigger] occurs_at(line, s, j) by {
        if occurs_at(line, s, j) {
            let w = line.subrange(j, j + 15);
            assert(w =~= s);
            if j + 15 <= n + 1 {
                assert(url.push(' ').subrange(j, j + 15) =~= w);
                assert(occurs_at(url.push(' '), s, j));
            } else {
                // The two copies would overlap by more than one character.
                let k = n - j;
                assert(0 < k < 14);
                assert(w[k] == s[0]);
                assert(w[k + 1] == s[1]);
                assert(s[k] == s[0]);
                assert(s[k + 1] == s[1]);
            }
        }
    }
    crate::text::lemma_find(line, s, n);
    assert(line.take(n) =~= url);
    assert(line.skip(n + 15) =~= etag);
}

/// A request is read back as it was sent.
pub proof fn request_round_trip(r: RequestView)
    requires
        fits_the_wire(r),
    ensures
        request_of(request_wire(r)) == Some(r),
{
    let data = request_wire(r);
    lemma_request_prefixes();
    match r {
        RequestView::Get { url, if_none_match: None } => {
            let head = encode_utf8("GET "@);
            lemma_text_line(head, url, Seq::<u8>::empty());
            assert(data =~= head + encode_utf8(url) + seq![0x0au8] + Seq::<u8>::empty());
            assert(data.take(4) =~= head);
            assert(find(url, sentinel()) is None);
        },
        RequestView::Get { url, if_none_match: Some(etag) } => {
            let head = encode_utf8("GET "@);
            let line = url + sentinel() + etag;
            assert(!line.contains('\n')) by {
                reveal_strlit(" IF-NONE-MATCH ");
                assert forall|i: int| 0 <= i < line.len() implies line[i] != '\n' by {
                    if i < url.len() {
                        assert(line[i] == url[i]);
                        assert(url.contains(url[i]));
                    } else if i >= url.len() + 15 {
                        assert(line[i] == etag[i - url.len() - 15]);
                        assert(etag.contains(etag[i - url.len() - 15]));
                    }
                }
            }
            lemma_encode_concat(url + sentinel(), etag);
            lemma_encode_concat(url, sentinel());
            lemma_text_line(head, line, Seq::<u8>::empty());
            assert(data =~= head + encode_utf8(line) + seq![0x0au8] + Seq::<u8>::empty());
            assert(data.take(4) =~= head);
            lemma_sentinel_position(url, etag);
        },
        RequestView::Post { url, body } => {
            let head = encode_utf8("POST "@);
            let rest = be32(body.len() as u32) + body;
            lemma_text_line(head, url, rest);
            assert(data =~= head + encode_utf8(url) + seq![0x0au8] + rest);
            assert(data.take(5) =~= head);
            assert(data[0] == 0x50);
            assert(!starts_with(data, encode_utf8("GET "@))) by {
                assert(data.take(4)[0] == 0x50);
            }
            let end = 5 + encode_utf8(url).len() as int;
            assert(data.subrange(end + 1, end + 5) =~= be32(body.len() as u32));
            crate::bytes::four_bytes_round_trip(body.len() as u32);
            assert(data.subrange(end + 5, end + 5 + body.len()) =~= body);
        },
    }
}

/// The first line break, where it is known.
proof fn lemma_line_break(data: Seq<u8>, from: int, at: int)
    requires
        0 <= from <= at <= data.len(),
        forall|i: int| from <= i < at ==> !is_line_break(#[trigger] data[i]),
        at < data.len() ==> is_line_break(data[at]),
    ensures
        line_break(data, from) == (if at < data.len() {
            Some(at)
        } else {
            None::<int>
        }),
    decreases at - from,
{
    if from < at {
        assert(!is_line_break(data[from]));
        lemma_line_break(data, from + 1, at);
    }
}

/// A line break lies within the bytes.
pub proof fn lemma_line_break_within(data: Seq<u8>, from: int)
    requires
        0 <= from <= data.len(),
    ensures
        line_break(data, from) matches Some(e) ==> from <= e < data.len(),
    decreases data.len() - from,
{
    if from < data.len() {
        lemma_line_break_within(data, from + 1);
    }
}

/// The fields of a header read back as they were written.
proof fn lemma_fields_round_trip(len: nat, etag: Seq<char>, max_age: int)
    requires
        valid_etag(etag),
        len <= u32::MAX,
        i32::MIN <= max_age <= i32::MAX,
    ensures
        fields_of(header_fields(len, etag, max_age)) == Some((len, etag, max_age)),
{
    let d = decimal(len);
    let a = decimal_signed(max_age);
    lemma_decimal_chars(len);
    lemma_decimal_chars(
        (if max_age < 0 {
            -max_age
        } else {
            max_age
        }) as nat,
    );
    assert forall|i: int| 0 <= i < d.len() implies d[i] != ' ' by {
        assert('0' <= d[i]);
    }
    assert forall|i: int| 0 <= i < a.len() implies a[i] != ' ' by {
        if max_age < 0 {
            if i > 0 {
                assert(a[i] == decimal((-max_age) as nat)[i - 1]);
            }
        } else {
            assert(a[i] == decimal(max_age as nat)[i]);
        }
    }
    assert forall|i: int| 0 <= i < etag.len() implies etag[i] != ' ' by {
        if etag.len() == 16 {
            assert(is_base64url_char(etag[i]));
        }
    }
    crate::text::lemma_split_whole(d, ' ');
    crate::text::lemma_split_whole(etag, ' ');
    crate::text::lemma_split_whole(a, ' ');
    crate::text::lemma_split_join(etag, ' ', a);
    crate::text::lemma_split_join(d, ' ', etag + seq![' '] + a);
    let f = split(header_fields(len, etag, max_age), ' ');
    assert(f =~= seq![d, etag, a]);
    crate::number::unsigned_decimal_round_trip(len, u32::MAX as nat);
    crate::number::signed_decimal_round_trip(max_age, i32::MAX as nat);
}

/// The bytes of a response behind some others: what stands where.
proof fn lemma_wire_layout(
    front: Seq<u8>,
    status: Status,
    etag: Seq<char>,
    max_age: int,
    payload: Seq<u8>,
)
    requires
        valid_etag(etag),
    ensures
        ({
            let body = base64_text(payload, false, true);
            let f = header_fields(body.len(), etag, max_age);
            let data = front + response_wire(status, etag, max_age, payload);
            let g = front.len() as int;
            &&& data.len() == g + 8 + f.len() + body.len()
            &&& data[g] == 0x52 && data[g + 1] == 0x45 && data[g + 2] == 0x53 && data[g + 3] == 0x50
            &&& data[g + 4] == 0x30 + status_code(status)
            &&& data[g + 5] == 0x20
            &&& data.subrange(g + 6, g + 6 + f.len()) == encode_utf8(f)
            &&& data[g + 6 + f.len()] == 0x0a
            &&& data.subrange(g + 7 + f.len(), g + 7 + f.len() + body.len()) == encode_utf8(body)
            &&& forall|i: int| g + 6 <= i < g + 6 + f.len() ==> !is_line_break(#[trigger] data[i])
        }),
{
    let body = base64_text(payload, false, true);
    let t = response_text(status, etag, max_age, payload);
    let w = encode_utf8(t);
    let f = header_fields(body.len(), etag, max_age);
    let data = front + w;
    let g = front.len() as int;
    wire_is_telnet_safe(status, etag, max_age, payload);
    lemma_ascii_bytes(t);
    lemma_fields_printable(body.len(), etag, max_age);
    crate::shared::codec::lemma_base64_ascii(payload);
    assert(is_ascii_chars(f)) by {
        assert forall|i: int| 0 <= i < f.len() implies '\0' <= #[trigger] f[i] <= '\u{7f}' by {}
    }
    lemma_ascii_bytes(f);
    lemma_ascii_bytes(body);
    assert(t.len() == 8 + f.len() + body.len());
    assert forall|i: int| 0 <= i < w.len() implies #[trigger] data[g + i] == t[i] as u8 by {
        assert(w[i] == t[i] as u8);
    }
    assert(t[0] == 'R' && t[1] == 'E' && t[2] == 'S' && t[3] == 'P' && t[5] == ' ');
    assert(data[g + 0] == 0x52);
    assert(data[g + 1] == 0x45);
    assert forall|i: int| 0 <= i < f.len() implies #[trigger] data[g + (6 + i)] == f[i] as u8 by {
        assert(t[6 + i] == f[i]);
    }
    assert(data.subrange(g + 6, g + 6 + f.len()) =~= encode_utf8(f)) by {
        assert forall|i: int| 0 <= i < f.len() implies #[trigger] data.subrange(
            g + 6,
            g + 6 + f.len(),
        )[i] == encode_utf8(f)[i] by {
            assert(data[g + (6 + i)] == f[i] as u8);
        }
    }
    assert(t[6 + f.len() as int] == '\n');
    assert(data[g + (6 + f.len())] == 0x0a);
    assert(data.subrange(g + 7 + f.len(), g + 7 + f.len() + body.len()) =~= encode_utf8(body)) by {
        assert forall|i: int| 0 <= i < body.len() implies #[trigger] data.subrange(
            g + 7 + f.len(),
            g + 7 + f.len() + body.len(),
        )[i] == encode_utf8(body)[i] by {
            assert(t[7 + f.len() + i] == body[i]);
            assert(data[g + (7 + f.len() + i)] == body[i] as u8);
        }
    }
    assert forall|i: int| g + 6 <= i < g + 6 + f.len() implies !is_line_break(
        #[trigger] data[i],
    ) by {
        let k = i - g - 6;
        assert(data[g + (6 + k)] == f[k] as u8);
        assert(' ' <= f[k] <= '~');
    }
}

/// A response begins with the magic.
pub proof fn lemma_wire_begins(status: Status, etag: Seq<char>, max_age: int, payload: Seq<u8>)
    requires
        valid_etag(etag),
    ensures
        starts_with(response_wire(status, etag, max_age, payload), magic()),
{
    let none = Seq::<u8>::empty();
    let w = response_wire(status, etag, max_age, payload);
    lemma_wire_layout(none, status, etag, max_age, payload);
    assert(none + w =~= w);
    assert(w.take(4) =~= magic());
}

/// Bytes without the magic in front of a response do not make one with it.
proof fn lemma_magic_position(front: Seq<u8>, rest: Seq<u8>)
    requires
        !occurs(front, magic()),
        starts_with(rest, magic()),
    ensures
        find(front + rest, magic()) == Some(front.len() as int),
        first_at(front + rest, magic(), front.len() as int),
{
    let data = front + rest;
    let g = front.len() as int;
    assert(data.subrange(g, g + 4) =~= rest.take(4));
    assert(occurs_at(data, magic(), g));
    assert forall|j: int| 0 <= j < g implies !#[trigger] occurs_at(
        data,
        magic(),
        j,
    ) by {
        if occurs_at(data, magic(), j) {
            let w = data.subrange(j, j + 4);
            assert(w[0] == 0x52 && w[1] == 0x45 && w[2] == 0x53 && w[3] == 0x50);
            assert(rest.take(4)[0] == 0x52);
            assert(rest.take(4)[1] == 0x45);
            if j + 4 <= g {
                assert(front.subrange(j, j + 4) =~= magic());
                assert(occurs_at(front, magic(), j));
            } else {
                let k = g - j;
                assert(w[k] == rest[0]);
            }
        }
    }
    crate::text::lemma_find(data, magic(), g);
}

/// A header line read behind the magic.
proof fn lemma_header_after(
    data: Seq<u8>,
    at: int,
    status: Status,
    line: Seq<char>,
    fields: (nat, Seq<char>, int),
)
    requires
        0 <= at,
        at + 2 + encode_utf8(line).len() < data.len(),
        data[at] == 0x30 + status_code(status),
        data[at + 1] == 0x20,
        data.subrange(at + 2, at + 2 + encode_utf8(line).len()) == encode_utf8(line),
        data[at + 2 + encode_utf8(line).len()] == 0x0a,
        forall|i: int|
            at + 2 <= i < at + 2 + encode_utf8(line).len() ==> !is_line_break(#[trigger] data[i]),
        fields_of(line) == Some(fields),
    ensures
        header_after_magic(data, at) == (HeaderView::Complete {
            status,
            len: fields.0,
            etag: fields.1,
            max_age: fields.2,
            end: at + 3 + encode_utf8(line).len(),
        }),
{
    let e = at + 2 + encode_utf8(line).len();
    lemma_line_break(data, at + 2, e);
    encode_utf8_valid_utf8(line);
    encode_utf8_decode_utf8(line);
}

/// A response is read back as it was sent, also behind bytes that do not hold
/// the magic: the header gives status, length, etag and maximum age, the
/// payload's text stands where the header says, and it decodes to the payload.
pub proof fn response_round_trip(
    front: Seq<u8>,
    status: Status,
    etag: Seq<char>,
    max_age: int,
    payload: Seq<u8>,
)
    requires
        !occurs(front, magic()),
        valid_etag(etag),
        i32::MIN <= max_age <= i32::MAX,
        base64_len(payload.len() as int) <= u32::MAX,
    ensures
        ({
            let data = front + response_wire(status, etag, max_age, payload);
            let len = base64_len(payload.len() as int);
            let end = (front.len() + header_text(status, len as nat, etag, max_age).len()) as int;
            &&& header_of(data) == HeaderView::Complete {
                status,
                len: len as nat,
                etag,
                max_age,
                end,
            }
            &&& end + len + 1 == data.len()
            &&& payload_of(data.subrange(end, end + len)) == Some(payload)
        }),
{
    let body = base64_text(payload, false, true);
    let f = header_fields(body.len(), etag, max_age);
    let w = response_wire(status, etag, max_age, payload);
    let data = front + w;
    let g = front.len() as int;
    let end = g + 7 + f.len();
    assert(body.len() == base64_len(payload.len() as int)) by {
        crate::shared::codec::lemma_base64_len(payload, false);
    }
    assert(find(data, magic()) == Some(g)) by {
        lemma_wire_begins(status, etag, max_age, payload);
        lemma_magic_position(front, w);
    }
    assert(header_after_magic(data, g + 4) == (HeaderView::Complete {
        status,
        len: body.len(),
        etag,
        max_age,
        end,
    })) by {
        lemma_wire_layout(front, status, etag, max_age, payload);
        lemma_fields_round_trip(body.len(), etag, max_age);
        assert(data.subrange(g + 6, g + 6 + f.len()).len() == f.len());
        lemma_header_after(data, g + 4, status, f, (body.len(), etag, max_age));
    }
    assert(header_text(status, body.len(), etag, max_age).len() == 7 + f.len());
    assert(end + body.len() + 1 == data.len() && data.subrange(end, end + body.len())
        == encode_utf8(body)) by {
        lemma_wire_layout(front, status, etag, max_age, payload);
    }
    payload_round_trip(payload);
}

/// As long as the header of a response has not arrived whole, reading it asks
/// for more bytes.
pub proof fn header_waits_for_its_line(
    front: Seq<u8>,
    status: Status,
    etag: Seq<char>,
    max_age: int,
    payload: Seq<u8>,
    arrived: int,
)
    requires
        !occurs(front, magic()),
        valid_etag(etag),
        0 <= arrived < front.len() + header_text(
            status,
            base64_text(payload, false, true).len(),
            etag,
            max_age,
        ).len(),
    ensures
        header_of((front + response_wire(status, etag, max_age, payload)).take(arrived))
            == HeaderView::Incomplete,
{
    let body = base64_text(payload, false, true);
    let f = header_fields(body.len(), etag, max_age);
    let w = response_wire(status, etag, max_age, payload);
    let data = front + w;
    let part = data.take(arrived);
    let g = front.len() as int;
    lemma_wire_layout(front, status, etag, max_age, payload);
    lemma_wire_begins(status, etag, max_age, payload);
    lemma_magic_position(front, w);
    assert forall|j: int| #[trigger] occurs_at(part, magic(), j) implies
        occurs_at(data, magic(), j) by {
        assert(part.subrange(j, j + 4) =~= data.subrange(j, j + 4));
    }
    if arrived >= g + 4 {
        assert(part.subrange(g, g + 4) =~= data.subrange(g, g + 4));
        assert(occurs_at(part, magic(), g));
        assert forall|j: int| 0 <= j < g implies !#[trigger] occurs_at(
            part,
            magic(),
            j,
        ) by {}
        crate::text::lemma_find(part, magic(), g);
        if arrived >= g + 6 {
            lemma_line_break(part, g + 6, arrived);
        }
    } else {
        assert forall|j: int| !#[trigger] occurs_at(part, magic(), j) by {
            if occurs_at(part, magic(), j) {
                assert(occurs_at(data, magic(), j));
                assert(j >= g);
            }
        }
    }
}

/// A status is read back from its number, and no other number is a status.
pub proof fn status_codes_are_distinct(a: Status, b: Status)
    ensures
        status_code(a) <= 3,
        status_code(a) == status_code(b) ==> a == b,
        status_of_digit((0x30 + status_code(a)) as u8) == Some(a),
{
}

/// A response goes over the wire as its magic, the digit of its status, the
/// length of its payload in base64, its etag and its maximum age, with single
/// spaces between them, and the payload on a line of its own.
pub proof fn responses_have_their_layout(
    status: Status,
    etag: Seq<char>,
    max_age: int,
    payload: Seq<u8>,
)
    ensures
        ({
            let digit = match status {
                Status::Success => "0"@,
                Status::Failure => "1"@,
                Status::Blocked => "2"@,
                Status::NotModified => "3"@,
            };
            response_wire(status, etag, max_age, payload) == encode_utf8(
                "RESP"@ + digit + " "@ + decimal(((payload.len() + 2) / 3 * 4) as nat) + " "@ + etag
                    + " "@ + decimal_signed(max_age) + "\n"@ + base64_text(payload, false, true)
                    + "\n"@,
            )
        }),
{
    reveal_strlit("RESP");
    reveal_strlit("0");
    reveal_strlit("1");
    reveal_strlit("2");
    reveal_strlit("3");
    reveal_strlit(" ");
    reveal_strlit("\n");
    crate::shared::codec::lemma_base64_len(payload, false);
    let digit = match status {
        Status::Success => "0"@,
        Status::Failure => "1"@,
        Status::Blocked => "2"@,
        Status::NotModified => "3"@,
    };
    assert(response_text(status, etag, max_age, payload) =~= "RESP"@ + digit + " "@ + decimal(
        ((payload.len() + 2) / 3 * 4) as nat,
    ) + " "@ + etag + " "@ + decimal_signed(max_age) + "\n"@ + base64_text(payload, false, true)
        + "\n"@);
}

/// A request goes over the wire as a line of its verb, its URL and, where the
/// client holds a page, the etag of that; a posted body follows behind its
/// length, the most significant byte first.
pub proof fn requests_have_their_layout(url: Seq<char>, etag: Seq<char>, body: Seq<u8>)
    requires
        body.len() <= u32::MAX,
    ensures
        request_wire(RequestView::Get { url, if_none_match: None }) == encode_utf8("GET "@ + url)
            + seq![0x0au8],
        request_wire(RequestView::Get { url, if_none_match: Some(etag) }) == encode_utf8(
            "GET "@ + url + " IF-NONE-MATCH "@ + etag,
        ) + seq![0x0au8],
        request_wire(RequestView::Post { url, body }) == encode_utf8("POST "@ + url) + seq![0x0au8]
            + seq![
            (body.len() / 0x100_0000) as u8,
            (body.len() / 0x1_0000 % 0x100) as u8,
            (body.len() / 0x100 % 0x100) as u8,
            (body.len() % 0x100) as u8,
        ] + body,
{
    lemma_encode_concat("GET "@, url);
    lemma_encode_concat("POST "@, url);
    lemma_encode_concat("GET "@ + url + " IF-NONE-MATCH "@, etag);
    lemma_encode_concat("GET "@ + url, " IF-NONE-MATCH "@);
    assert(be32(body.len() as u32) =~= seq![
        (body.len() / 0x100_0000) as u8,
        (body.len() / 0x1_0000 % 0x100) as u8,
        (body.len() / 0x100 % 0x100) as u8,
        (body.len() % 0x100) as u8,
    ]);
}

/// The etag of a page is how the URL-safe base64 of its hash begins, and one
/// that a response may carry.
pub proof fn etags_begin_the_hash(html: Seq<char>)
    ensures
        sha256(encode_utf8(html)).len() == 32 ==> {
            &&& etag_of(html) == base64_text(sha256(encode_utf8(html)), true, false).take(16)
            &&& etag_of(html).len() == 16
            &&& valid_etag(etag_of(html))
        },
        valid_etag("-"@),
{
    reveal_strlit("-");
    assert("-"@ =~= seq!['-']);
    let d = sha256(encode_utf8(html));
    if d.len() == 32 {
        crate::shared::codec::lemma_twelve_bytes(d.take(12));
        crate::shared::codec::lemma_base64_alphabet(d.take(12), true, false);
        lemma_base64_begins(d, 12);
        assert(etag_of(html) =~= base64_text(d, true, false).take(16));
    }
}

/// The base64 of whole triples is how the base64 of the rest begins.
proof fn lemma_base64_begins(d: Seq<u8>, n: int)
    requires
        0 <= n <= d.len(),
        n % 3 == 0,
    ensures
        base64_text(d, true, false) == base64_text(d.take(n), true, false) + base64_text(
            d.skip(n),
            true,
            false,
        ),
    decreases n,
{
    if n == 0 {
        assert(d.take(0) =~= Seq::<u8>::empty());
        assert(d.skip(0) =~= d);
        assert(base64_text(d, true, false) =~= base64_text(d.take(n), true, false) + base64_text(
            d.skip(n),
            true,
            false,
        ));
    } else {
        lemma_base64_begins(d.skip(3), n - 3);
        assert(d.skip(3).take(n - 3) =~= d.take(n).skip(3));
        assert(d.skip(3).skip(n - 3) =~= d.skip(n));
        assert(d.take(n)[0] == d[0] && d.take(n)[1] == d[1] && d.take(n)[2] == d[2]);
        assert(base64_text(d, true, false) =~= base64_text(d.take(n), true, false) + base64_text(
            d.skip(n),
            true,
            false,
        ));
    }
}

/// Behind the magic stands the digit of a status and a space, or there is no
/// header.
pub proof fn headers_begin_with_a_status(front: Seq<u8>, digit: u8, next: u8, rest: Seq<u8>)
    requires
        !occurs(front, seq![0x52u8, 0x45, 0x53, 0x50]),
    ensures
        !(0x30 <= digit <= 0x33) || next != 0x20 ==> header_of(
            front + seq![0x52u8, 0x45, 0x53, 0x50, digit, next] + rest,
        ) == HeaderView::Malformed,
        0x30 <= digit <= 0x33 && next == 0x20 && line_break(rest, 0) is None ==> header_of(
            front + seq![0x52u8, 0x45, 0x53, 0x50, digit, next] + rest,
        ) == HeaderView::Incomplete,
        header_of(front) == HeaderView::Incomplete,
{
    let w = seq![0x52u8, 0x45, 0x53, 0x50, digit, next] + rest;
    let data = front + seq![0x52u8, 0x45, 0x53, 0x50, digit, next] + rest;
    let g = front.len() as int;
    assert(seq![0x52u8, 0x45, 0x53, 0x50] =~= magic());
    assert(data =~= front + w);
    assert(w.take(4) =~= magic());
    lemma_magic_position(front, w);
    assert(data[g + 4] == digit);
    assert(data[g + 5] == next);
    if line_break(rest, 0) is None {
        lemma_no_break(rest, 0);
        assert forall|i: int| g + 6 <= i < data.len() implies !is_line_break(
            #[trigger] data[i],
        ) by {
            assert(data[i] == rest[i - g - 6]);
        }
        lemma_line_break(data, g + 6, data.len() as int);
    }
}

/// Where no line break is found there is none.
proof fn lemma_no_break(data: Seq<u8>, from: int)
    requires
        0 <= from <= data.len(),
        line_break(data, from) is None,
    ensures
        forall|i: int| from <= i < data.len() ==> !is_line_break(#[trigger] data[i]),
    decreases data.len() - from,
{
    if from < data.len() {
        lemma_no_break(data, from + 1);
    }
}

/// A header has three fields: a length of 32 bits, an etag and a signed age of
/// 32 bits. A line of fewer or more is no header.
pub proof fn headers_have_three_fields(a: Seq<char>, b: Seq<char>, c: Seq<char>)
    requires
        !a.contains(' '),
        !b.contains(' '),
        !c.contains(' '),
    ensures
        fields_of(a + seq![' '] + b + seq![' '] + c) == (if unsigned(a, 0xffff_ffff) is Some
            && valid_etag(b) && signed(c, 0x7fff_ffff) is Some {
            Some((unsigned(a, 0xffff_ffff)->Some_0, b, signed(c, 0x7fff_ffff)->Some_0))
        } else {
            None
        }),
        fields_of(a) is None,
        fields_of(a + seq![' '] + b) is None,
        fields_of(a + seq![' '] + b + seq![' '] + c + seq![' '] + a) is None,
{
    assert forall|i: int| 0 <= i < a.len() implies a[i] != ' ' by {
        assert(a.contains(a[i]));
    }
    assert forall|i: int| 0 <= i < b.len() implies b[i] != ' ' by {
        assert(b.contains(b[i]));
    }
    assert forall|i: int| 0 <= i < c.len() implies c[i] != ' ' by {
        assert(c.contains(c[i]));
    }
    crate::text::lemma_split_whole(a, ' ');
    crate::text::lemma_split_whole(b, ' ');
    crate::text::lemma_split_whole(c, ' ');
    crate::text::lemma_split_join(a, ' ', b);
    crate::text::lemma_split_join(a + seq![' '] + b, ' ', c);
    crate::text::lemma_split_join(a + seq![' '] + b + seq![' '] + c, ' ', a);
    assert(split(a + seq![' '] + b + seq![' '] + c, ' ') =~= seq![a, b, c]);
}

/// A header line ends at a line feed or at a carriage return, whichever comes
/// first.
pub proof fn header_lines_end_in_either_way(data: Seq<u8>, from: int, at: int)
    requires
        0 <= from <= at < data.len(),
        forall|i: int| from <= i < at ==> #[trigger] data[i] != 0x0a && data[i] != 0x0d,
        data[at] == 0x0a || data[at] == 0x0d,
    ensures
        line_break(data, from) == Some(at),
{
    assert forall|i: int| from <= i < at implies !is_line_break(#[trigger] data[i]) by {}
    lemma_line_break(data, from, at);
}

} // verus!
