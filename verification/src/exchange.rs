//! A page on its way from the server's browser to the operator's.

use vstd::prelude::*;
use vstd::utf8::*;
use crate::client::browse::{
    dispatched, effective_ttl, kept, pages_arrive_as_they_were_sent, refusals_are_told,
    rows_after_dispatch, served, AnswerView, SentView,
};
use crate::client::cache::{
    confirmed, distinct_urls, lemma_distinct_same_urls, lemma_position_is, Moment, RowView,
};
use crate::client::rewrite::{all_handlers, page_rewritten, url_fault};
use crate::client::ui::{browse_text, error_text};
use crate::server::requests::{page_answer, tells};
use crate::shared::codec::{base64_len, brotli_decoded, decoded_to};
use crate::shared::protocol::{
    etag_of, magic, response_round_trip, response_wire, Response, Status,
};
use crate::text::{occurs, occurs_at};

verus! {

/// A response on the wire.
pub open spec fn wire_of(r: Response) -> Seq<u8> {
    response_wire(r.status, r.etag@, r.max_age as int, r.payload@)
}

/// The page that the operator sees is made of exactly the HTML that the
/// server's browser gave, where the response is a page, whatever noise without the magic the node put in
/// front of it.
pub proof fn pages_arrive_whole(
    front: Seq<u8>,
    r: Response,
    html: Seq<char>,
    if_none_match: Option<Seq<char>>,
    max_age: i32,
    brotli_quality: u32,
    url: Seq<char>,
    sent: SentView,
    rows: Option<Seq<RowView>>,
    max_ttl: u64,
    now: Moment,
)
    requires
        page_answer(r, html, if_none_match, max_age as int, brotli_quality),
        if_none_match != Some(etag_of(html)),
        r.status == Status::Success,
        base64_len(r.payload@.len() as int) <= u32::MAX,
        !occurs(front, magic()),
    ensures
        dispatched(Ok(front + wire_of(r)), url, sent, rows, max_ttl, now) == (match url_fault(url) {
            Some(e) => AnswerView::Page(
                error_text("Failed to rewrite HTML: "@ + ("Invalid base URL: "@ + e)),
            ),
            None => match page_rewritten(html, all_handlers(), url) {
                Err(e) => AnswerView::Page(
                    error_text("Failed to rewrite HTML: "@ + ("Rewrite failed: "@ + e)),
                ),
                Ok(page) => kept(
                    browse_text(page, url),
                    etag_of(html),
                    effective_ttl(max_age, max_ttl),
                ),
            },
        }),
{
    encode_utf8_valid_utf8(html);
    encode_utf8_decode_utf8(html);
    pages_arrive_as_they_were_sent(
        front,
        r.etag@,
        max_age,
        r.payload@,
        url,
        sent,
        rows,
        max_ttl,
        now,
    );
}

/// What the server says instead of a page is what the operator reads, where it
/// could be compressed, and what is kept stays as it is.
pub proof fn messages_arrive(
    r: Response,
    status: Status,
    message: Seq<char>,
    url: Seq<char>,
    sent: SentView,
    rows: Seq<RowView>,
    cap_bytes: u64,
    cache_ttl: u64,
    max_ttl: u64,
    now: Moment,
)
    requires
        status == Status::Failure || status == Status::Blocked,
        tells(r, status, message),
        brotli_decoded(r.payload@) == decoded_to(encode_utf8(message)),
        base64_len(r.payload@.len() as int) <= u32::MAX,
    ensures
        dispatched(Ok(wire_of(r)), url, sent, Some(rows), max_ttl, now) == AnswerView::Page(
            error_text(message),
        ),
        rows_after_dispatch(Ok(wire_of(r)), url, sent, rows, cap_bytes, cache_ttl, now) == rows,
{
    reveal_strlit("-");
    assert("-"@ =~= seq!['-']);
    encode_utf8_valid_utf8(message);
    encode_utf8_decode_utf8(message);
    refusals_are_told(
        status,
        r.etag@,
        r.max_age,
        r.payload@,
        url,
        sent,
        rows,
        cap_bytes,
        cache_ttl,
        max_ttl,
        now,
    );
}

/// A page that the client keeps and that has not changed is not sent again: the
/// server confirms it, and the client shows what it keeps, fresh from then on.
pub proof fn unchanged_pages_are_confirmed(
    r: Response,
    html: Seq<char>,
    max_age: i32,
    brotli_quality: u32,
    url: Seq<char>,
    rows: Seq<RowView>,
    i: int,
    max_ttl: u64,
    now: Moment,
)
    requires
        distinct_urls(rows),
        0 <= i < rows.len(),
        rows[i].url == url,
        rows[i].etag == etag_of(html),
        page_answer(r, html, Some(rows[i].etag), max_age as int, brotli_quality),
    ensures
        r.payload@.len() == 0,
        dispatched(
            Ok(wire_of(r)),
            url,
            SentView::Asked { etag: Some(rows[i].etag) },
            Some(rows),
            max_ttl,
            now,
        ) == served(
            (RowView { fetched_at: now.secs, last_used: now.secs, ..rows[i] }),
            url,
            now,
        ),
{
    let none = Seq::<u8>::empty();
    assert(none + wire_of(r) =~= wire_of(r));
    assert(!occurs(none, magic())) by {
        assert forall|k: int| !#[trigger] occurs_at(none, magic(), k) by {}
    }
    response_round_trip(none, r.status, r.etag@, max_age as int, r.payload@);
    let after = confirmed(rows, url, now.secs);
    lemma_position_is(rows, url, i);
    assert(after[i] == RowView { fetched_at: now.secs, last_used: now.secs, ..rows[i] });
    lemma_distinct_same_urls(rows, after);
    lemma_position_is(after, url, i);
}

} // verus!
