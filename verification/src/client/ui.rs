//! The pages that the client shows of itself.

pub mod templates;

use vstd::prelude::*;
use crate::number::{decimal, decimal_signed, decimal_text, signed_decimal_text};
use crate::text::{
    chars_of, lemma_occurs_itself, lemma_occurs_longer, lemma_occurs_within, lemma_starts_longer,
    lemma_three_within, occurs, starts_with,
};
use crate::client::ui::templates::{
    BROWSE_END, BROWSE_TO_CONTENT, BROWSE_TO_URL, BROWSE_TO_URL_AGAIN, CACHE_END, CACHE_ROW_END,
    CACHE_ROW_TO_FETCHED, CACHE_ROW_TO_SIZE, CACHE_ROW_TO_TTL, CACHE_ROW_TO_URL,
    CACHE_ROW_TO_URL_ATTR, CACHE_ROW_TO_USED, CACHE_TABLE, CACHE_TO_BODY, CACHE_TO_CSS,
    CONFIGURATION_END, CONFIGURATION_TO_BPQ_COMMAND, CONFIGURATION_TO_CSS, CONFIGURATION_TO_HOST,
    CONFIGURATION_TO_MY_CALLSIGN, CONFIGURATION_TO_PORT, CONFIGURATION_TO_SKIP_CHECKED,
    CONFIGURATION_TO_TARGET_CALLSIGN, CONNECT_END, CONNECT_TO_CSS, CONNECT_TO_MY_CALL,
    CONNECT_TO_PORTS_JSON, CONNECT_TO_STATE, CONNECT_TO_STATE_AGAIN, CONNECT_TO_STATE_CLASS,
    CONNECT_TO_TARGET_CALL, CSS, ERROR_END, ERROR_TO_CSS, ERROR_TO_MESSAGE, RECONNECT_LINK,
    SESSION_ERROR_END, SESSION_ERROR_TO_CSS, SESSION_ERROR_TO_MESSAGE,
    SESSION_ERROR_TO_RECONNECT_LINK,
};

verus! {

// ---------------------------------------------------------------------------
// Escaping
// ---------------------------------------------------------------------------

/// A character in the text or in a quoted attribute of a page.
pub open spec fn escaped_char(c: char) -> Seq<char> {
    if c == '&' {
        "&amp;"@
    } else if c == '<' {
        "&lt;"@
    } else if c == '>' {
        "&gt;"@
    } else if c == '"' {
        "&quot;"@
    } else if c == '\'' {
        "&#39;"@
    } else {
        seq![c]
    }
}

/// A text on a page.
pub open spec fn escaped(s: Seq<char>) -> Seq<char>
    decreases s.len(),
{
    if s.len() == 0 {
        s
    } else {
        escaped(s.drop_last()) + escaped_char(s.last())
    }
}

/// Escapes a text for a page: what it says is shown and never acted on.
pub fn h(s: &str) -> (r: String)
    ensures
        r@ == escaped(s@),
{
    let chars = chars_of(s);
    let mut out = String::new();
    let mut i: usize = 0;
    assert(chars@.take(0) =~= Seq::<char>::empty());
    assert(out@ =~= escaped(chars@.take(0)));
    while i < chars.len()
        invariant
            i <= chars@.len(),
            out@ == escaped(chars@.take(i as int)),
        decreases chars.len() - i,
    {
        let c = chars[i];
        let ghost before = out@;
        assert(chars@.take(i + 1).drop_last() =~= chars@.take(i as int));
        if c == '&' {
            out.append("&amp;");
        } else if c == '<' {
            out.append("&lt;");
        } else if c == '>' {
            out.append("&gt;");
        } else if c == '"' {
            out.append("&quot;");
        } else if c == '\'' {
            out.append("&#39;");
        } else {
            out.push(c);
        }
        assert(out@ =~= before + escaped_char(c));
        i += 1;
    }
    assert(chars@.take(i as int) =~= s@);
    out
}

/// A character of a JSON text inside a script.
pub open spec fn script_char(c: char) -> Seq<char> {
    if c == '<' {
        "\\u003c"@
    } else if c == '>' {
        "\\u003e"@
    } else if c == '&' {
        "\\u0026"@
    } else if c == '\u{2028}' {
        "\\u2028"@
    } else if c == '\u{2029}' {
        "\\u2029"@
    } else {
        seq![c]
    }
}

/// A JSON text inside a script.
pub open spec fn script_json(s: Seq<char>) -> Seq<char>
    decreases s.len(),
{
    if s.len() == 0 {
        s
    } else {
        script_json(s.drop_last()) + script_char(s.last())
    }
}

/// Makes a JSON text safe inside a script: what could end the script or break
/// its lines is written as JSON escapes, which leave the value as it is.
pub fn json_for_script(s: &str) -> (r: String)
    ensures
        r@ == script_json(s@),
{
    let chars = chars_of(s);
    let mut out = String::new();
    let mut i: usize = 0;
    assert(chars@.take(0) =~= Seq::<char>::empty());
    assert(out@ =~= script_json(chars@.take(0)));
    while i < chars.len()
        invariant
            i <= chars@.len(),
            out@ == script_json(chars@.take(i as int)),
        decreases chars.len() - i,
    {
        let c = chars[i];
        let ghost before = out@;
        assert(chars@.take(i + 1).drop_last() =~= chars@.take(i as int));
        if c == '<' {
            out.append("\\u003c");
        } else if c == '>' {
            out.append("\\u003e");
        } else if c == '&' {
            out.append("\\u0026");
        } else if c == '\u{2028}' {
            out.append("\\u2028");
        } else if c == '\u{2029}' {
            out.append("\\u2029");
        } else {
            out.push(c);
        }
        assert(out@ =~= before + script_char(c));
        i += 1;
    }
    assert(chars@.take(i as int) =~= s@);
    out
}

// ---------------------------------------------------------------------------
// Pages
// ---------------------------------------------------------------------------

/// The page to connect from.
pub open spec fn connect_text(
    my_callsign: Seq<char>,
    target_callsign: Seq<char>,
    state: Seq<char>,
    state_class: Seq<char>,
    ports_json: Seq<char>,
) -> Seq<char> {
    CONNECT_TO_CSS@ + CSS@ + CONNECT_TO_STATE_CLASS@ + escaped(state_class) + CONNECT_TO_STATE@
        + escaped(state) + CONNECT_TO_MY_CALL@ + escaped(my_callsign) + CONNECT_TO_TARGET_CALL@
        + escaped(target_callsign) + CONNECT_TO_PORTS_JSON@ + script_json(ports_json)
        + CONNECT_TO_STATE_AGAIN@ + escaped(state) + CONNECT_END@
}

/// The page to connect from.
pub fn connect_page(
    my_callsign: &str,
    target_callsign: &str,
    connection_state: &str,
    connection_state_class: &str,
    ports_json: &str,
) -> (r: String)
    ensures
        r@ == connect_text(
            my_callsign@,
            target_callsign@,
            connection_state@,
            connection_state_class@,
            ports_json@,
        ),
{
    let state = h(connection_state);
    let mut out = CONNECT_TO_CSS.to_owned();
    out.append(CSS);
    out.append(CONNECT_TO_STATE_CLASS);
    out.append(h(connection_state_class).as_str());
    out.append(CONNECT_TO_STATE);
    out.append(state.as_str());
    out.append(CONNECT_TO_MY_CALL);
    out.append(h(my_callsign).as_str());
    out.append(CONNECT_TO_TARGET_CALL);
    out.append(h(target_callsign).as_str());
    out.append(CONNECT_TO_PORTS_JSON);
    out.append(json_for_script(ports_json).as_str());
    out.append(CONNECT_TO_STATE_AGAIN);
    out.append(state.as_str());
    out.append(CONNECT_END);
    out
}

/// The page of the settings.
pub open spec fn configuration_text(
    host: Seq<char>,
    port: u16,
    my_callsign: Seq<char>,
    target_callsign: Seq<char>,
    bpq_command: Seq<char>,
    skip_bpq_app: bool,
) -> Seq<char> {
    CONFIGURATION_TO_CSS@ + CSS@ + CONFIGURATION_TO_HOST@ + escaped(host) + CONFIGURATION_TO_PORT@
        + decimal(port as nat) + CONFIGURATION_TO_MY_CALLSIGN@ + escaped(my_callsign)
        + CONFIGURATION_TO_TARGET_CALLSIGN@ + escaped(target_callsign)
        + CONFIGURATION_TO_SKIP_CHECKED@ + (if skip_bpq_app {
        "checked"@
    } else {
        ""@
    }) + CONFIGURATION_TO_BPQ_COMMAND@ + escaped(bpq_command) + CONFIGURATION_END@
}

/// The page of the settings.
pub fn configuration_page(
    agwpe_host: &str,
    agwpe_port: u16,
    my_callsign: &str,
    target_callsign: &str,
    bpq_command: &str,
    skip_bpq_app: bool,
) -> (r: String)
    ensures
        r@ == configuration_text(
            agwpe_host@,
            agwpe_port,
            my_callsign@,
            target_callsign@,
            bpq_command@,
            skip_bpq_app,
        ),
{
    let mut out = CONFIGURATION_TO_CSS.to_owned();
    out.append(CSS);
    out.append(CONFIGURATION_TO_HOST);
    out.append(h(agwpe_host).as_str());
    out.append(CONFIGURATION_TO_PORT);
    out.append(decimal_text(agwpe_port as u64).as_str());
    out.append(CONFIGURATION_TO_MY_CALLSIGN);
    out.append(h(my_callsign).as_str());
    out.append(CONFIGURATION_TO_TARGET_CALLSIGN);
    out.append(h(target_callsign).as_str());
    out.append(CONFIGURATION_TO_SKIP_CHECKED);
    out.append(
        if skip_bpq_app {
            "checked"
        } else {
            ""
        },
    );
    out.append(CONFIGURATION_TO_BPQ_COMMAND);
    out.append(h(bpq_command).as_str());
    out.append(CONFIGURATION_END);
    out
}

/// The page of an error.
pub open spec fn error_text(message: Seq<char>) -> Seq<char> {
    ERROR_TO_CSS@ + CSS@ + ERROR_TO_MESSAGE@ + escaped(message) + ERROR_END@
}

/// The page of an error.
pub fn error_page(message: &str) -> (r: String)
    ensures
        r@ == error_text(message@),
{
    let mut out = ERROR_TO_CSS.to_owned();
    out.append(CSS);
    out.append(ERROR_TO_MESSAGE);
    out.append(h(message).as_str());
    out.append(ERROR_END);
    out
}

/// The page of a session that is gone.
pub open spec fn session_error_text(message: Seq<char>, show_reconnect_link: bool) -> Seq<char> {
    SESSION_ERROR_TO_CSS@ + CSS@ + SESSION_ERROR_TO_MESSAGE@ + escaped(message)
        + SESSION_ERROR_TO_RECONNECT_LINK@ + (if show_reconnect_link {
        RECONNECT_LINK@
    } else {
        ""@
    }) + SESSION_ERROR_END@
}

/// The page of a session that is gone.
pub fn render_session_error_page(message: &str, show_reconnect_link: bool) -> (r: String)
    ensures
        r@ == session_error_text(message@, show_reconnect_link),
{
    let mut out = SESSION_ERROR_TO_CSS.to_owned();
    out.append(CSS);
    out.append(SESSION_ERROR_TO_MESSAGE);
    out.append(h(message).as_str());
    out.append(SESSION_ERROR_TO_RECONNECT_LINK);
    out.append(
        if show_reconnect_link {
            RECONNECT_LINK
        } else {
            ""
        },
    );
    out.append(SESSION_ERROR_END);
    out
}

/// The page round a fetched page, which stands in it as it is.
pub open spec fn browse_text(html_content: Seq<char>, url: Seq<char>) -> Seq<char> {
    BROWSE_TO_URL@ + escaped(url) + BROWSE_TO_URL_AGAIN@ + escaped(url) + BROWSE_TO_CONTENT@
        + html_content + BROWSE_END@
}

/// The page round a fetched page.
pub fn browse_page(html_content: &str, url: &str) -> (r: String)
    ensures
        r@ == browse_text(html_content@, url@),
{
    let shown = h(url);
    let mut out = BROWSE_TO_URL.to_owned();
    out.append(shown.as_str());
    out.append(BROWSE_TO_URL_AGAIN);
    out.append(shown.as_str());
    out.append(BROWSE_TO_CONTENT);
    out.append(html_content);
    out.append(BROWSE_END);
    out
}

/// A row of the list of kept pages.
#[derive(Debug, Clone)]
pub struct CachePageRow {
    pub url: String,
    pub size_bytes: u64,
    pub fetched_at_iso: String,
    pub last_used_iso: String,
    pub ttl_remaining_secs: i64,
    pub etag: String,
}

/// A row of the list of kept pages, as it is shown.
pub open spec fn cache_row_text(row: CachePageRow) -> Seq<char> {
    CACHE_ROW_TO_URL@ + escaped(row.url@) + CACHE_ROW_TO_SIZE@ + decimal(row.size_bytes as nat)
        + CACHE_ROW_TO_FETCHED@ + escaped(row.fetched_at_iso@) + CACHE_ROW_TO_USED@ + escaped(
        row.last_used_iso@,
    ) + CACHE_ROW_TO_TTL@ + decimal_signed(row.ttl_remaining_secs as int) + CACHE_ROW_TO_URL_ATTR@
        + escaped(row.url@) + CACHE_ROW_END@
}

/// Rows of the list of kept pages, as they are shown.
pub open spec fn cache_rows_text(rows: Seq<CachePageRow>) -> Seq<char>
    decreases rows.len(),
{
    if rows.len() == 0 {
        Seq::empty()
    } else {
        cache_rows_text(rows.drop_last()) + cache_row_text(rows.last())
    }
}

/// The list of kept pages.
pub open spec fn cache_text(rows: Seq<CachePageRow>, total_bytes: u64, cap_bytes: u64) -> Seq<char> {
    CACHE_TO_CSS@ + CSS@ + CACHE_TO_BODY@ + "<p>"@ + decimal(rows.len()) + " entries — "@ + decimal(
        total_bytes as nat,
    ) + " / "@ + decimal(cap_bytes as nat) + " bytes used.</p>"@ + CACHE_TABLE@ + cache_rows_text(
        rows,
    ) + "</tbody></table>"@ + CACHE_END@
}

/// Adds a row to the list.
fn push_cache_row(out: &mut String, row: &CachePageRow)
    ensures
        final(out)@ == old(out)@ + cache_row_text(*row),
{
    let ghost before = out@;
    let url = h(row.url.as_str());
    let mut cell = CACHE_ROW_TO_URL.to_owned();
    cell.append(url.as_str());
    cell.append(CACHE_ROW_TO_SIZE);
    cell.append(decimal_text(row.size_bytes).as_str());
    cell.append(CACHE_ROW_TO_FETCHED);
    cell.append(h(row.fetched_at_iso.as_str()).as_str());
    cell.append(CACHE_ROW_TO_USED);
    cell.append(h(row.last_used_iso.as_str()).as_str());
    cell.append(CACHE_ROW_TO_TTL);
    cell.append(signed_decimal_text(row.ttl_remaining_secs).as_str());
    cell.append(CACHE_ROW_TO_URL_ATTR);
    cell.append(url.as_str());
    cell.append(CACHE_ROW_END);
    out.append(cell.as_str());
}

/// The list of kept pages.
pub fn cache_page(rows: &[CachePageRow], total_bytes: u64, cap_bytes: u64) -> (r: String)
    ensures
        r@ == cache_text(rows@, total_bytes, cap_bytes),
{
    let mut out = CACHE_TO_CSS.to_owned();
    out.append(CSS);
    out.append(CACHE_TO_BODY);
    out.append("<p>");
    out.append(decimal_text(rows.len() as u64).as_str());
    out.append(" entries — ");
    out.append(decimal_text(total_bytes).as_str());
    out.append(" / ");
    out.append(decimal_text(cap_bytes).as_str());
    out.append(" bytes used.</p>");
    out.append(CACHE_TABLE);
    let ghost head = out@;
    let mut i: usize = 0;
    assert(rows@.take(0) =~= Seq::<CachePageRow>::empty());
    assert(out@ =~= head + cache_rows_text(rows@.take(0)));
    while i < rows.len()
        invariant
            i <= rows@.len(),
            out@ == head + cache_rows_text(rows@.take(i as int)),
        decreases rows.len() - i,
    {
        assert(rows@.take(i + 1).drop_last() =~= rows@.take(i as int));
        let ghost before = cache_rows_text(rows@.take(i as int));
        push_cache_row(&mut out, &rows[i]);
        assert(out@ =~= head + (before + cache_row_text(rows@[i as int])));
        i += 1;
    }
    assert(rows@.take(i as int) =~= rows@);
    out.append("</tbody></table>");
    out.append(CACHE_END);
    out
}

// ---------------------------------------------------------------------------
// Laws
// ---------------------------------------------------------------------------

/// The characters that a page acts on.
pub open spec fn is_markup(c: char) -> bool {
    c == '<' || c == '>' || c == '"' || c == '\''
}

proof fn lemma_escaped_char(c: char)
    ensures
        escaped_char(c).len() > 0,
        forall|i: int| 0 <= i < escaped_char(c).len() ==> !is_markup(#[trigger] escaped_char(c)[i]),
{
    reveal_strlit("&amp;");
    reveal_strlit("&lt;");
    reveal_strlit("&gt;");
    reveal_strlit("&quot;");
    reveal_strlit("&#39;");
}

/// Whatever a text says, on a page it holds nothing that the page acts on: it
/// ends no element and no attribute and begins none.
pub proof fn escaped_text_holds_no_markup(s: Seq<char>)
    ensures
        forall|i: int| 0 <= i < escaped(s).len() ==> !is_markup(#[trigger] escaped(s)[i]),
    decreases s.len(),
{
    if s.len() > 0 {
        escaped_text_holds_no_markup(s.drop_last());
        lemma_escaped_char(s.last());
        let a = escaped(s.drop_last());
        let b = escaped_char(s.last());
        assert forall|i: int| 0 <= i < escaped(s).len() implies !is_markup(
            #[trigger] escaped(s)[i],
        ) by {
            if i < a.len() {
                assert(escaped(s)[i] == a[i]);
            } else {
                assert(escaped(s)[i] == b[i - a.len()]);
            }
        }
    }
}

proof fn lemma_escaped_front(s: Seq<char>)
    requires
        s.len() > 0,
    ensures
        escaped(s) == escaped_char(s[0]) + escaped(s.drop_first()),
    decreases s.len(),
{
    let rest = s.drop_first();
    if s.len() == 1 {
        assert(s.drop_last() =~= Seq::<char>::empty());
        assert(rest =~= Seq::<char>::empty());
        assert(escaped(s) =~= escaped_char(s[0]) + escaped(rest));
    } else {
        lemma_escaped_front(s.drop_last());
        assert(s.drop_last().drop_first() =~= rest.drop_last());
        assert(rest.last() == s.last());
        assert(escaped(s) =~= escaped_char(s[0]) + escaped(rest));
    }
}

/// Two texts that look the same on a page are the same.
pub proof fn escaping_loses_nothing(a: Seq<char>, b: Seq<char>)
    requires
        escaped(a) == escaped(b),
    ensures
        a == b,
    decreases a.len(),
{
    reveal_strlit("&amp;");
    reveal_strlit("&lt;");
    reveal_strlit("&gt;");
    reveal_strlit("&quot;");
    reveal_strlit("&#39;");
    if a.len() > 0 {
        lemma_escaped_front(a);
        lemma_escaped_char(a[0]);
    }
    if b.len() > 0 {
        lemma_escaped_front(b);
        lemma_escaped_char(b[0]);
    }
    if a.len() == 0 || b.len() == 0 {
        assert(a =~= b);
    } else {
        let p = escaped_char(a[0]);
        let q = escaped_char(b[0]);
        let x = escaped(a.drop_first());
        let y = escaped(b.drop_first());
        let all = escaped(a);
        assert(all == p + x && all == q + y);
        assert(all[0] == p[0] && all[0] == q[0]);
        if p.len() > 1 {
            assert(all[1] == p[1]);
        }
        if q.len() > 1 {
            assert(all[1] == q[1]);
        }
        assert(a[0] == b[0]);
        assert(x =~= all.skip(p.len() as int));
        assert(y =~= all.skip(q.len() as int));
        escaping_loses_nothing(a.drop_first(), b.drop_first());
        assert(a =~= seq![a[0]] + a.drop_first());
        assert(b =~= seq![b[0]] + b.drop_first());
    }
}

proof fn lemma_script_char(c: char)
    ensures
        forall|i: int|
            0 <= i < script_char(c).len() ==> {
                let d = #[trigger] script_char(c)[i];
                d != '<' && d != '>' && d != '&' && d != '\u{2028}' && d != '\u{2029}'
            },
{
    reveal_strlit("\\u003c");
    reveal_strlit("\\u003e");
    reveal_strlit("\\u0026");
    reveal_strlit("\\u2028");
    reveal_strlit("\\u2029");
}

/// No JSON text ends the script that it stands in: it holds no `<`, no `>` and
/// no `&`, nor a line break that scripts know and JSON does not.
pub proof fn json_stays_in_its_script(s: Seq<char>)
    ensures
        forall|i: int|
            0 <= i < script_json(s).len() ==> {
                let d = #[trigger] script_json(s)[i];
                d != '<' && d != '>' && d != '&' && d != '\u{2028}' && d != '\u{2029}'
            },
    decreases s.len(),
{
    if s.len() > 0 {
        json_stays_in_its_script(s.drop_last());
        lemma_script_char(s.last());
        let a = script_json(s.drop_last());
        let b = script_char(s.last());
        assert forall|i: int| 0 <= i < script_json(s).len() implies {
            let d = #[trigger] script_json(s)[i];
            d != '<' && d != '>' && d != '&' && d != '\u{2028}' && d != '\u{2029}'
        } by {
            if i < a.len() {
                assert(script_json(s)[i] == a[i]);
            } else {
                assert(script_json(s)[i] == b[i - a.len()]);
            }
        }
    }
}

/// The page to connect shows the state, both callsigns and the ports, each in
/// its own place.
pub proof fn the_connect_page_shows_its_parts(
    my_callsign: Seq<char>,
    target_callsign: Seq<char>,
    state: Seq<char>,
    state_class: Seq<char>,
    ports_json: Seq<char>,
)
    ensures
        occurs(
            connect_text(my_callsign, target_callsign, state, state_class, ports_json),
            CONNECT_TO_STATE_CLASS@ + escaped(state_class) + CONNECT_TO_STATE@,
        ),
        occurs(
            connect_text(my_callsign, target_callsign, state, state_class, ports_json),
            CONNECT_TO_STATE@ + escaped(state) + CONNECT_TO_MY_CALL@,
        ),
        occurs(
            connect_text(my_callsign, target_callsign, state, state_class, ports_json),
            CONNECT_TO_MY_CALL@ + escaped(my_callsign) + CONNECT_TO_TARGET_CALL@,
        ),
        occurs(
            connect_text(my_callsign, target_callsign, state, state_class, ports_json),
            CONNECT_TO_TARGET_CALL@ + escaped(target_callsign) + CONNECT_TO_PORTS_JSON@,
        ),
        occurs(
            connect_text(my_callsign, target_callsign, state, state_class, ports_json),
            CONNECT_TO_PORTS_JSON@ + script_json(ports_json) + CONNECT_TO_STATE_AGAIN@,
        ),
        occurs(
            connect_text(my_callsign, target_callsign, state, state_class, ports_json),
            CONNECT_TO_STATE_AGAIN@ + escaped(state) + CONNECT_END@,
        ),
{
    let s0 = CONNECT_TO_CSS@;
    let s1 = s0 + CSS@;
    let s2 = s1 + CONNECT_TO_STATE_CLASS@;
    let s3 = s2 + escaped(state_class);
    let s4 = s3 + CONNECT_TO_STATE@;
    let s5 = s4 + escaped(state);
    let s6 = s5 + CONNECT_TO_MY_CALL@;
    let s7 = s6 + escaped(my_callsign);
    let s8 = s7 + CONNECT_TO_TARGET_CALL@;
    let s9 = s8 + escaped(target_callsign);
    let s10 = s9 + CONNECT_TO_PORTS_JSON@;
    let s11 = s10 + script_json(ports_json);
    let s12 = s11 + CONNECT_TO_STATE_AGAIN@;
    let s13 = s12 + escaped(state);
    let s14 = s13 + CONNECT_END@;
    let m0 = CONNECT_TO_STATE_CLASS@ + escaped(state_class) + CONNECT_TO_STATE@;
    lemma_three_within(s1, CONNECT_TO_STATE_CLASS@, escaped(state_class), CONNECT_TO_STATE@);
    lemma_occurs_longer(s4, m0, escaped(state));
    lemma_occurs_longer(s5, m0, CONNECT_TO_MY_CALL@);
    lemma_occurs_longer(s6, m0, escaped(my_callsign));
    lemma_occurs_longer(s7, m0, CONNECT_TO_TARGET_CALL@);
    lemma_occurs_longer(s8, m0, escaped(target_callsign));
    lemma_occurs_longer(s9, m0, CONNECT_TO_PORTS_JSON@);
    lemma_occurs_longer(s10, m0, script_json(ports_json));
    lemma_occurs_longer(s11, m0, CONNECT_TO_STATE_AGAIN@);
    lemma_occurs_longer(s12, m0, escaped(state));
    lemma_occurs_longer(s13, m0, CONNECT_END@);
    let m1 = CONNECT_TO_STATE@ + escaped(state) + CONNECT_TO_MY_CALL@;
    lemma_three_within(s3, CONNECT_TO_STATE@, escaped(state), CONNECT_TO_MY_CALL@);
    lemma_occurs_longer(s6, m1, escaped(my_callsign));
    lemma_occurs_longer(s7, m1, CONNECT_TO_TARGET_CALL@);
    lemma_occurs_longer(s8, m1, escaped(target_callsign));
    lemma_occurs_longer(s9, m1, CONNECT_TO_PORTS_JSON@);
    lemma_occurs_longer(s10, m1, script_json(ports_json));
    lemma_occurs_longer(s11, m1, CONNECT_TO_STATE_AGAIN@);
    lemma_occurs_longer(s12, m1, escaped(state));
    lemma_occurs_longer(s13, m1, CONNECT_END@);
    let m2 = CONNECT_TO_MY_CALL@ + escaped(my_callsign) + CONNECT_TO_TARGET_CALL@;
    lemma_three_within(s5, CONNECT_TO_MY_CALL@, escaped(my_callsign), CONNECT_TO_TARGET_CALL@);
    lemma_occurs_longer(s8, m2, escaped(target_callsign));
    lemma_occurs_longer(s9, m2, CONNECT_TO_PORTS_JSON@);
    lemma_occurs_longer(s10, m2, script_json(ports_json));
    lemma_occurs_longer(s11, m2, CONNECT_TO_STATE_AGAIN@);
    lemma_occurs_longer(s12, m2, escaped(state));
    lemma_occurs_longer(s13, m2, CONNECT_END@);
    let m3 = CONNECT_TO_TARGET_CALL@ + escaped(target_callsign) + CONNECT_TO_PORTS_JSON@;
    lemma_three_within(s7, CONNECT_TO_TARGET_CALL@, escaped(target_callsign), CONNECT_TO_PORTS_JSON@);
    lemma_occurs_longer(s10, m3, script_json(ports_json));
    lemma_occurs_longer(s11, m3, CONNECT_TO_STATE_AGAIN@);
    lemma_occurs_longer(s12, m3, escaped(state));
    lemma_occurs_longer(s13, m3, CONNECT_END@);
    let m4 = CONNECT_TO_PORTS_JSON@ + script_json(ports_json) + CONNECT_TO_STATE_AGAIN@;
    lemma_three_within(s9, CONNECT_TO_PORTS_JSON@, script_json(ports_json), CONNECT_TO_STATE_AGAIN@);
    lemma_occurs_longer(s12, m4, escaped(state));
    lemma_occurs_longer(s13, m4, CONNECT_END@);
    let m5 = CONNECT_TO_STATE_AGAIN@ + escaped(state) + CONNECT_END@;
    lemma_three_within(s11, CONNECT_TO_STATE_AGAIN@, escaped(state), CONNECT_END@);
}

/// The page of the settings shows each setting in its own place.
pub proof fn the_configuration_page_shows_its_parts(
    host: Seq<char>,
    port: u16,
    my_callsign: Seq<char>,
    target_callsign: Seq<char>,
    command: Seq<char>,
    skip: bool,
)
    ensures
        occurs(
            configuration_text(host, port, my_callsign, target_callsign, command, skip),
            CONFIGURATION_TO_HOST@ + escaped(host) + CONFIGURATION_TO_PORT@,
        ),
        occurs(
            configuration_text(host, port, my_callsign, target_callsign, command, skip),
            CONFIGURATION_TO_PORT@ + decimal(port as nat) + CONFIGURATION_TO_MY_CALLSIGN@,
        ),
        occurs(
            configuration_text(host, port, my_callsign, target_callsign, command, skip),
            CONFIGURATION_TO_MY_CALLSIGN@ + escaped(my_callsign) + CONFIGURATION_TO_TARGET_CALLSIGN@,
        ),
        occurs(
            configuration_text(host, port, my_callsign, target_callsign, command, skip),
            CONFIGURATION_TO_TARGET_CALLSIGN@ + escaped(target_callsign) + CONFIGURATION_TO_SKIP_CHECKED@,
        ),
        occurs(
            configuration_text(host, port, my_callsign, target_callsign, command, skip),
            CONFIGURATION_TO_SKIP_CHECKED@ + (if skip { "checked"@ } else { ""@ }) + CONFIGURATION_TO_BPQ_COMMAND@,
        ),
        occurs(
            configuration_text(host, port, my_callsign, target_callsign, command, skip),
            CONFIGURATION_TO_BPQ_COMMAND@ + escaped(command) + CONFIGURATION_END@,
        ),
{
    let s0 = CONFIGURATION_TO_CSS@;
    let s1 = s0 + CSS@;
    let s2 = s1 + CONFIGURATION_TO_HOST@;
    let s3 = s2 + escaped(host);
    let s4 = s3 + CONFIGURATION_TO_PORT@;
    let s5 = s4 + decimal(port as nat);
    let s6 = s5 + CONFIGURATION_TO_MY_CALLSIGN@;
    let s7 = s6 + escaped(my_callsign);
    let s8 = s7 + CONFIGURATION_TO_TARGET_CALLSIGN@;
    let s9 = s8 + escaped(target_callsign);
    let s10 = s9 + CONFIGURATION_TO_SKIP_CHECKED@;
    let s11 = s10 + (if skip { "checked"@ } else { ""@ });
    let s12 = s11 + CONFIGURATION_TO_BPQ_COMMAND@;
    let s13 = s12 + escaped(command);
    let s14 = s13 + CONFIGURATION_END@;
    let m0 = CONFIGURATION_TO_HOST@ + escaped(host) + CONFIGURATION_TO_PORT@;
    lemma_three_within(s1, CONFIGURATION_TO_HOST@, escaped(host), CONFIGURATION_TO_PORT@);
    lemma_occurs_longer(s4, m0, decimal(port as nat));
    lemma_occurs_longer(s5, m0, CONFIGURATION_TO_MY_CALLSIGN@);
    lemma_occurs_longer(s6, m0, escaped(my_callsign));
    lemma_occurs_longer(s7, m0, CONFIGURATION_TO_TARGET_CALLSIGN@);
    lemma_occurs_longer(s8, m0, escaped(target_callsign));
    lemma_occurs_longer(s9, m0, CONFIGURATION_TO_SKIP_CHECKED@);
    lemma_occurs_longer(s10, m0, (if skip { "checked"@ } else { ""@ }));
    lemma_occurs_longer(s11, m0, CONFIGURATION_TO_BPQ_COMMAND@);
    lemma_occurs_longer(s12, m0, escaped(command));
    lemma_occurs_longer(s13, m0, CONFIGURATION_END@);
    let m1 = CONFIGURATION_TO_PORT@ + decimal(port as nat) + CONFIGURATION_TO_MY_CALLSIGN@;
    lemma_three_within(s3, CONFIGURATION_TO_PORT@, decimal(port as nat), CONFIGURATION_TO_MY_CALLSIGN@);
    lemma_occurs_longer(s6, m1, escaped(my_callsign));
    lemma_occurs_longer(s7, m1, CONFIGURATION_TO_TARGET_CALLSIGN@);
    lemma_occurs_longer(s8, m1, escaped(target_callsign));
    lemma_occurs_longer(s9, m1, CONFIGURATION_TO_SKIP_CHECKED@);
    lemma_occurs_longer(s10, m1, (if skip { "checked"@ } else { ""@ }));
    lemma_occurs_longer(s11, m1, CONFIGURATION_TO_BPQ_COMMAND@);
    lemma_occurs_longer(s12, m1, escaped(command));
    lemma_occurs_longer(s13, m1, CONFIGURATION_END@);
    let m2 = CONFIGURATION_TO_MY_CALLSIGN@ + escaped(my_callsign) + CONFIGURATION_TO_TARGET_CALLSIGN@;
    lemma_three_within(s5, CONFIGURATION_TO_MY_CALLSIGN@, escaped(my_callsign), CONFIGURATION_TO_TARGET_CALLSIGN@);
    lemma_occurs_longer(s8, m2, escaped(target_callsign));
    lemma_occurs_longer(s9, m2, CONFIGURATION_TO_SKIP_CHECKED@);
    lemma_occurs_longer(s10, m2, (if skip { "checked"@ } else { ""@ }));
    lemma_occurs_longer(s11, m2, CONFIGURATION_TO_BPQ_COMMAND@);
    lemma_occurs_longer(s12, m2, escaped(command));
    lemma_occurs_longer(s13, m2, CONFIGURATION_END@);
    let m3 = CONFIGURATION_TO_TARGET_CALLSIGN@ + escaped(target_callsign) + CONFIGURATION_TO_SKIP_CHECKED@;
    lemma_three_within(s7, CONFIGURATION_TO_TARGET_CALLSIGN@, escaped(target_callsign), CONFIGURATION_TO_SKIP_CHECKED@);
    lemma_occurs_longer(s10, m3, (if skip { "checked"@ } else { ""@ }));
    lemma_occurs_longer(s11, m3, CONFIGURATION_TO_BPQ_COMMAND@);
    lemma_occurs_longer(s12, m3, escaped(command));
    lemma_occurs_longer(s13, m3, CONFIGURATION_END@);
    let m4 = CONFIGURATION_TO_SKIP_CHECKED@ + (if skip { "checked"@ } else { ""@ }) + CONFIGURATION_TO_BPQ_COMMAND@;
    lemma_three_within(s9, CONFIGURATION_TO_SKIP_CHECKED@, (if skip { "checked"@ } else { ""@ }), CONFIGURATION_TO_BPQ_COMMAND@);
    lemma_occurs_longer(s12, m4, escaped(command));
    lemma_occurs_longer(s13, m4, CONFIGURATION_END@);
    let m5 = CONFIGURATION_TO_BPQ_COMMAND@ + escaped(command) + CONFIGURATION_END@;
    lemma_three_within(s11, CONFIGURATION_TO_BPQ_COMMAND@, escaped(command), CONFIGURATION_END@);
}

/// A row of the list of kept pages shows the page, its size and its times, each
/// in its own place.
pub proof fn rows_show_their_page(
    row: CachePageRow,
)
    ensures
        occurs(
            cache_row_text(row),
            CACHE_ROW_TO_URL@ + escaped(row.url@) + CACHE_ROW_TO_SIZE@,
        ),
        occurs(
            cache_row_text(row),
            CACHE_ROW_TO_SIZE@ + decimal(row.size_bytes as nat) + CACHE_ROW_TO_FETCHED@,
        ),
        occurs(
            cache_row_text(row),
            CACHE_ROW_TO_FETCHED@ + escaped(row.fetched_at_iso@) + CACHE_ROW_TO_USED@,
        ),
        occurs(
            cache_row_text(row),
            CACHE_ROW_TO_USED@ + escaped(row.last_used_iso@) + CACHE_ROW_TO_TTL@,
        ),
        occurs(
            cache_row_text(row),
            CACHE_ROW_TO_TTL@ + decimal_signed(row.ttl_remaining_secs as int) + CACHE_ROW_TO_URL_ATTR@,
        ),
        occurs(
            cache_row_text(row),
            CACHE_ROW_TO_URL_ATTR@ + escaped(row.url@) + CACHE_ROW_END@,
        ),
{
    let s0 = CACHE_ROW_TO_URL@;
    let s1 = s0 + escaped(row.url@);
    let s2 = s1 + CACHE_ROW_TO_SIZE@;
    let s3 = s2 + decimal(row.size_bytes as nat);
    let s4 = s3 + CACHE_ROW_TO_FETCHED@;
    let s5 = s4 + escaped(row.fetched_at_iso@);
    let s6 = s5 + CACHE_ROW_TO_USED@;
    let s7 = s6 + escaped(row.last_used_iso@);
    let s8 = s7 + CACHE_ROW_TO_TTL@;
    let s9 = s8 + decimal_signed(row.ttl_remaining_secs as int);
    let s10 = s9 + CACHE_ROW_TO_URL_ATTR@;
    let s11 = s10 + escaped(row.url@);
    let s12 = s11 + CACHE_ROW_END@;
    let m0 = CACHE_ROW_TO_URL@ + escaped(row.url@) + CACHE_ROW_TO_SIZE@;
    lemma_occurs_itself(m0);
    lemma_occurs_longer(s2, m0, decimal(row.size_bytes as nat));
    lemma_occurs_longer(s3, m0, CACHE_ROW_TO_FETCHED@);
    lemma_occurs_longer(s4, m0, escaped(row.fetched_at_iso@));
    lemma_occurs_longer(s5, m0, CACHE_ROW_TO_USED@);
    lemma_occurs_longer(s6, m0, escaped(row.last_used_iso@));
    lemma_occurs_longer(s7, m0, CACHE_ROW_TO_TTL@);
    lemma_occurs_longer(s8, m0, decimal_signed(row.ttl_remaining_secs as int));
    lemma_occurs_longer(s9, m0, CACHE_ROW_TO_URL_ATTR@);
    lemma_occurs_longer(s10, m0, escaped(row.url@));
    lemma_occurs_longer(s11, m0, CACHE_ROW_END@);
    let m1 = CACHE_ROW_TO_SIZE@ + decimal(row.size_bytes as nat) + CACHE_ROW_TO_FETCHED@;
    lemma_three_within(s1, CACHE_ROW_TO_SIZE@, decimal(row.size_bytes as nat), CACHE_ROW_TO_FETCHED@);
    lemma_occurs_longer(s4, m1, escaped(row.fetched_at_iso@));
    lemma_occurs_longer(s5, m1, CACHE_ROW_TO_USED@);
    lemma_occurs_longer(s6, m1, escaped(row.last_used_iso@));
    lemma_occurs_longer(s7, m1, CACHE_ROW_TO_TTL@);
    lemma_occurs_longer(s8, m1, decimal_signed(row.ttl_remaining_secs as int));
    lemma_occurs_longer(s9, m1, CACHE_ROW_TO_URL_ATTR@);
    lemma_occurs_longer(s10, m1, escaped(row.url@));
    lemma_occurs_longer(s11, m1, CACHE_ROW_END@);
    let m2 = CACHE_ROW_TO_FETCHED@ + escaped(row.fetched_at_iso@) + CACHE_ROW_TO_USED@;
    lemma_three_within(s3, CACHE_ROW_TO_FETCHED@, escaped(row.fetched_at_iso@), CACHE_ROW_TO_USED@);
    lemma_occurs_longer(s6, m2, escaped(row.last_used_iso@));
    lemma_occurs_longer(s7, m2, CACHE_ROW_TO_TTL@);
    lemma_occurs_longer(s8, m2, decimal_signed(row.ttl_remaining_secs as int));
    lemma_occurs_longer(s9, m2, CACHE_ROW_TO_URL_ATTR@);
    lemma_occurs_longer(s10, m2, escaped(row.url@));
    lemma_occurs_longer(s11, m2, CACHE_ROW_END@);
    let m3 = CACHE_ROW_TO_USED@ + escaped(row.last_used_iso@) + CACHE_ROW_TO_TTL@;
    lemma_three_within(s5, CACHE_ROW_TO_USED@, escaped(row.last_used_iso@), CACHE_ROW_TO_TTL@);
    lemma_occurs_longer(s8, m3, decimal_signed(row.ttl_remaining_secs as int));
    lemma_occurs_longer(s9, m3, CACHE_ROW_TO_URL_ATTR@);
    lemma_occurs_longer(s10, m3, escaped(row.url@));
    lemma_occurs_longer(s11, m3, CACHE_ROW_END@);
    let m4 = CACHE_ROW_TO_TTL@ + decimal_signed(row.ttl_remaining_secs as int) + CACHE_ROW_TO_URL_ATTR@;
    lemma_three_within(s7, CACHE_ROW_TO_TTL@, decimal_signed(row.ttl_remaining_secs as int), CACHE_ROW_TO_URL_ATTR@);
    lemma_occurs_longer(s10, m4, escaped(row.url@));
    lemma_occurs_longer(s11, m4, CACHE_ROW_END@);
    let m5 = CACHE_ROW_TO_URL_ATTR@ + escaped(row.url@) + CACHE_ROW_END@;
    lemma_three_within(s9, CACHE_ROW_TO_URL_ATTR@, escaped(row.url@), CACHE_ROW_END@);
}

/// The page of kept pages shows how many there are, how much room they take and
/// have, and every row in its order.
pub proof fn the_cache_page_shows_its_rows(
    rows: Seq<CachePageRow>,
    row: CachePageRow,
    total: u64,
    cap: u64,
)
    ensures
        occurs(
            cache_text(rows, total, cap),
            "<p>"@ + decimal(rows.len()) + " entries — "@ + decimal(total as nat) + " / "@ + decimal(
                cap as nat,
            ) + " bytes used.</p>"@,
        ),
        occurs(
            cache_text(rows, total, cap),
            CACHE_TABLE@ + cache_rows_text(rows) + "</tbody></table>"@,
        ),
        cache_rows_text(rows.push(row)) == cache_rows_text(rows) + cache_row_text(row),
        cache_rows_text(Seq::empty()) == Seq::<char>::empty(),
{
    let all = cache_text(rows, total, cap);
    let front = CACHE_TO_CSS@ + CSS@ + CACHE_TO_BODY@;
    let told = "<p>"@ + decimal(rows.len()) + " entries — "@ + decimal(total as nat) + " / "@
        + decimal(cap as nat) + " bytes used.</p>"@;
    let table = CACHE_TABLE@ + cache_rows_text(rows) + "</tbody></table>"@;
    assert(all =~= front + told + (table + CACHE_END@));
    lemma_occurs_within(front, told, table + CACHE_END@);
    assert(all =~= (front + told) + table + CACHE_END@);
    lemma_occurs_within(front + told, table, CACHE_END@);
    assert(rows.push(row).drop_last() =~= rows);
}

/// The pages of errors show the message, and a way to connect again where one is
/// asked for.
pub proof fn error_pages_show_their_message(message: Seq<char>)
    ensures
        occurs(error_text(message), ERROR_TO_MESSAGE@ + escaped(message) + ERROR_END@),
        occurs(
            session_error_text(message, true),
            SESSION_ERROR_TO_MESSAGE@ + escaped(message) + SESSION_ERROR_TO_RECONNECT_LINK@
                + RECONNECT_LINK@,
        ),
        occurs(
            session_error_text(message, false),
            SESSION_ERROR_TO_MESSAGE@ + escaped(message) + SESSION_ERROR_TO_RECONNECT_LINK@
                + SESSION_ERROR_END@,
        ),
{
    reveal_strlit("");
    let said = ERROR_TO_MESSAGE@ + escaped(message) + ERROR_END@;
    assert(error_text(message) =~= (ERROR_TO_CSS@ + CSS@) + said + Seq::<char>::empty());
    lemma_occurs_within(ERROR_TO_CSS@ + CSS@, said, Seq::<char>::empty());
    let front = SESSION_ERROR_TO_CSS@ + CSS@;
    let told = SESSION_ERROR_TO_MESSAGE@ + escaped(message) + SESSION_ERROR_TO_RECONNECT_LINK@;
    assert(session_error_text(message, true) =~= front + (told + RECONNECT_LINK@)
        + SESSION_ERROR_END@);
    lemma_occurs_within(front, told + RECONNECT_LINK@, SESSION_ERROR_END@);
    assert(session_error_text(message, false) =~= front + (told + SESSION_ERROR_END@) + Seq::<
        char,
    >::empty());
    lemma_occurs_within(front, told + SESSION_ERROR_END@, Seq::<char>::empty());
}

/// A page stands on the client's as it came, under its address.
pub proof fn pages_stand_under_their_address(html: Seq<char>, url: Seq<char>)
    ensures
        occurs(browse_text(html, url), BROWSE_TO_CONTENT@ + html + BROWSE_END@),
        starts_with(browse_text(html, url), BROWSE_TO_URL@ + escaped(url) + BROWSE_TO_URL_AGAIN@),
        occurs(
            browse_text(html, url),
            BROWSE_TO_URL_AGAIN@ + escaped(url) + BROWSE_TO_CONTENT@,
        ),
{
    let shown = escaped(url);
    let s1 = BROWSE_TO_URL@ + shown;
    let s2 = s1 + BROWSE_TO_URL_AGAIN@;
    let s3 = s2 + shown;
    let s4 = s3 + BROWSE_TO_CONTENT@;
    lemma_three_within(s3, BROWSE_TO_CONTENT@, html, BROWSE_END@);
    let bar = BROWSE_TO_URL_AGAIN@ + shown + BROWSE_TO_CONTENT@;
    lemma_three_within(s1, BROWSE_TO_URL_AGAIN@, shown, BROWSE_TO_CONTENT@);
    lemma_occurs_longer(s4, bar, html);
    lemma_occurs_longer(s4 + html, bar, BROWSE_END@);
    assert(s2.take(s2.len() as int) =~= s2);
    lemma_starts_longer(s2, s2, shown);
    lemma_starts_longer(s3, s2, BROWSE_TO_CONTENT@);
    lemma_starts_longer(s4, s2, html);
    lemma_starts_longer(s4 + html, s2, BROWSE_END@);
}

/// Escaping goes character by character: markup becomes its entity, anything
/// else stays; in a script it becomes its code.
pub proof fn only_markup_is_escaped(a: Seq<char>, b: Seq<char>, c: char)
    ensures
        escaped(a + b) == escaped(a) + escaped(b),
        escaped(seq!['&']) == "&amp;"@,
        escaped(seq!['<']) == "&lt;"@,
        escaped(seq!['>']) == "&gt;"@,
        escaped(seq!['"']) == "&quot;"@,
        escaped(seq!['\'']) == "&#39;"@,
        !is_markup(c) && c != '&' ==> escaped(seq![c]) == seq![c],
        script_json(a + b) == script_json(a) + script_json(b),
        script_json(seq!['<']) == "\\u003c"@,
        script_json(seq!['>']) == "\\u003e"@,
        script_json(seq!['&']) == "\\u0026"@,
        script_json(seq!['\u{2028}']) == "\\u2028"@,
        script_json(seq!['\u{2029}']) == "\\u2029"@,
        c != '<' && c != '>' && c != '&' && c != '\u{2028}' && c != '\u{2029}' ==> script_json(
            seq![c],
        ) == seq![c],
    decreases b.len(),
{
    lemma_one_escaped('&');
    lemma_one_escaped('<');
    lemma_one_escaped('>');
    lemma_one_escaped('"');
    lemma_one_escaped('\'');
    lemma_one_escaped('\u{2028}');
    lemma_one_escaped('\u{2029}');
    lemma_one_escaped(c);
    if b.len() == 0 {
        assert(a + b =~= a);
        assert(escaped(a) + escaped(b) =~= escaped(a));
        assert(script_json(a) + script_json(b) =~= script_json(a));
    } else {
        only_markup_is_escaped(a, b.drop_last(), c);
        assert((a + b).drop_last() =~= a + b.drop_last());
        assert((a + b).last() == b.last());
        assert(escaped(a + b) =~= escaped(a) + escaped(b));
        assert(script_json(a + b) =~= script_json(a) + script_json(b));
    }
}

/// One character is escaped by itself.
proof fn lemma_one_escaped(c: char)
    ensures
        escaped(seq![c]) == escaped_char(c),
        script_json(seq![c]) == script_char(c),
{
    reveal_with_fuel(escaped, 2);
    reveal_with_fuel(script_json, 2);
    assert(seq![c].drop_last() =~= Seq::<char>::empty());
    assert(escaped(seq![c]) =~= escaped_char(c));
    assert(script_json(seq![c]) =~= script_char(c));
}

} // verus!
