//! What the browser that fetches pages is told, and what its answers mean.

use vstd::prelude::*;
use crate::number::{decimal, decimal_text};
use crate::server::config::{find_var, var, var_text, var_views};
use crate::server::session::is_alnum;
use crate::shared::json::{json_quote, json_string};
use crate::text::{
    after_prefix, chars_of, contains, join2, join3, lemma_occurs_within, occurs, starts_with,
    strip_prefix,
};

verus! {

/// Notes the port of the filtering proxy, through which every browser goes. The
/// first port that was noted stays.
pub fn set_proxy_port(slot: &mut Option<u16>, port: u16)
    ensures
        *final(slot) == (match *old(slot) {
            Some(p) => Some(p),
            None => Some(port),
        }),
{
    if slot.is_none() {
        *slot = Some(port);
    }
}

/// The port that was noted.
pub fn current_proxy_port(slot: &Option<u16>) -> (r: Option<u16>)
    ensures
        r == *slot,
{
    *slot
}

/// Why the browser gave no page.
#[derive(Debug, Clone)]
pub enum BrowserError {
    LaunchFailed(String),
    NavigationFailed(String),
    ExtractionFailed(String),
    BrowserCrashed,
}

/// Why the browser gave no page, by the text in it.
pub enum BrowserErrorView {
    LaunchFailed(Seq<char>),
    NavigationFailed(Seq<char>),
    ExtractionFailed(Seq<char>),
    BrowserCrashed,
}

impl View for BrowserError {
    type V = BrowserErrorView;

    open spec fn view(&self) -> BrowserErrorView {
        match self {
            BrowserError::LaunchFailed(s) => BrowserErrorView::LaunchFailed(s@),
            BrowserError::NavigationFailed(s) => BrowserErrorView::NavigationFailed(s@),
            BrowserError::ExtractionFailed(s) => BrowserErrorView::ExtractionFailed(s@),
            BrowserError::BrowserCrashed => BrowserErrorView::BrowserCrashed,
        }
    }
}

impl BrowserErrorView {
    /// The message for the log.
    pub open spec fn text(self) -> Seq<char> {
        match self {
            BrowserErrorView::LaunchFailed(s) => "Failed to launch browser: "@ + s,
            BrowserErrorView::NavigationFailed(s) => "Failed to navigate: "@ + s,
            BrowserErrorView::ExtractionFailed(s) => "Failed to extract content: "@ + s,
            BrowserErrorView::BrowserCrashed => "Browser crashed - please try again"@,
        }
    }
}

impl BrowserError {
    /// The message for the log.
    pub fn message(&self) -> (r: String)
        ensures
            r@ == self@.text(),
    {
        match self {
            BrowserError::LaunchFailed(s) => join2("Failed to launch browser: ", s.as_str()),
            BrowserError::NavigationFailed(s) => join2("Failed to navigate: ", s.as_str()),
            BrowserError::ExtractionFailed(s) => join2("Failed to extract content: ", s.as_str()),
            BrowserError::BrowserCrashed => "Browser crashed - please try again".to_owned(),
        }
    }
}

/// The driver says that its session is gone.
pub open spec fn session_lost(message: Seq<char>) -> bool {
    occurs(message, "session deleted"@) || occurs(message, "invalid session id"@)
}

/// What a failure to go to a page means. `display` is the driver's message,
/// which can be empty; `debug` is what else it shows.
pub fn navigation_error(display: &str, debug: &str) -> (r: BrowserError)
    ensures
        r@ == (if session_lost(display@) {
            BrowserErrorView::BrowserCrashed
        } else if display@.len() == 0 {
            BrowserErrorView::NavigationFailed(debug@)
        } else {
            BrowserErrorView::NavigationFailed(display@)
        }),
{
    if contains(display, "session deleted") || contains(display, "invalid session id") {
        BrowserError::BrowserCrashed
    } else if display.unicode_len() == 0 {
        BrowserError::NavigationFailed(debug.to_owned())
    } else {
        BrowserError::NavigationFailed(display.to_owned())
    }
}

/// What a failure to run the script in a page means.
pub fn extraction_error(display: &str) -> (r: BrowserError)
    ensures
        r@ == (if session_lost(display@) {
            BrowserErrorView::BrowserCrashed
        } else {
            BrowserErrorView::ExtractionFailed(display@)
        }),
{
    if contains(display, "session deleted") || contains(display, "invalid session id") {
        BrowserError::BrowserCrashed
    } else {
        BrowserError::ExtractionFailed(display.to_owned())
    }
}

/// The page that the script returned, where it returned a text and that is not
/// the report of a failure.
pub fn scrubbed_page(value: Option<String>) -> (r: Result<String, BrowserError>)
    ensures
        match value {
            Some(html) => match after_prefix(html@, "__SCRUB_ERROR__"@) {
                Some(why) => r matches Err(e) && e@ == BrowserErrorView::ExtractionFailed(why),
                None => r == Ok::<String, BrowserError>(html),
            },
            None => r matches Err(e) && e@ == BrowserErrorView::ExtractionFailed(
                "No HTML returned"@,
            ),
        },
{
    match value {
        Some(html) => match strip_prefix(html.as_str(), "__SCRUB_ERROR__") {
            Some(why) => Err(BrowserError::ExtractionFailed(why)),
            None => Ok(html),
        },
        None => Err(BrowserError::ExtractionFailed("No HTML returned".to_owned())),
    }
}

/// Whether Unicode counts a character beyond ASCII as alphabetic or numeric.
pub uninterp spec fn unicode_alphanumeric(c: char) -> bool;

/// A letter or a digit of any script.
pub open spec fn alphanumeric(c: char) -> bool {
    if (c as int) < 0x80 {
        is_alnum(c)
    } else {
        unicode_alphanumeric(c)
    }
}

/// `char::is_alphanumeric` of the standard library: on ASCII, the letters and
/// digits.
#[verifier::external_body]
fn is_alphanumeric(c: char) -> (r: bool)
    ensures
        r == (if (c as int) < 0x80 {
            is_alnum(c)
        } else {
            unicode_alphanumeric(c)
        }),
{
    c.is_alphanumeric()
}

/// A text without what is neither a letter nor a digit.
pub open spec fn safe_id_of(s: Seq<char>) -> Seq<char>
    decreases s.len(),
{
    if s.len() == 0 {
        s
    } else if alphanumeric(s.last()) {
        safe_id_of(s.drop_last()).push(s.last())
    } else {
        safe_id_of(s.drop_last())
    }
}

/// How the name of the directory begins in which a browser keeps its profile.
pub fn profile_prefix(callsign: &str) -> (r: String)
    ensures
        r@ == "firefox-"@ + safe_id_of(callsign@) + "-"@,
{
    let chars = chars_of(callsign);
    let mut id = String::new();
    let mut i: usize = 0;
    assert(chars@.take(0) =~= Seq::<char>::empty());
    assert(id@ =~= safe_id_of(chars@.take(0)));
    while i < chars.len()
        invariant
            i <= chars@.len(),
            id@ == safe_id_of(chars@.take(i as int)),
        decreases chars.len() - i,
    {
        assert(chars@.take(i + 1).drop_last() =~= chars@.take(i as int));
        if is_alphanumeric(chars[i]) {
            id.push(chars[i]);
        }
        i += 1;
    }
    assert(chars@.take(i as int) =~= callsign@);
    join3("firefox-", id.as_str(), "-")
}

/// Where the programs and libraries of the browser are.
#[derive(Debug, Clone)]
pub struct BrowserPaths {
    pub geckodriver: String,
    pub firefox: String,
    pub libraries: String,
}

/// Reads where the programs and libraries of the browser are.
pub fn browser_paths(vars: &Vec<(String, String)>) -> (r: BrowserPaths)
    ensures
        r.geckodriver@ == var_text(var(var_views(vars@), "GECKODRIVER_PATH"@), "/bin/geckodriver"@),
        r.firefox@ == var_text(var(var_views(vars@), "FIREFOX_PATH"@), "/bin/firefox"@),
        r.libraries@ == var_text(var(var_views(vars@), "LD_LIBRARY_PATH"@), "/lib"@),
{
    BrowserPaths {
        geckodriver: path_or(vars, "GECKODRIVER_PATH", "/bin/geckodriver"),
        firefox: path_or(vars, "FIREFOX_PATH", "/bin/firefox"),
        libraries: path_or(vars, "LD_LIBRARY_PATH", "/lib"),
    }
}

/// Reads a path, or takes another where it is not set.
fn path_or(vars: &Vec<(String, String)>, key: &str, default: &str) -> (r: String)
    ensures
        r@ == var_text(var(var_views(vars@), key@), default@),
{
    match find_var(vars, key) {
        Some(v) => v,
        None => default.to_owned(),
    }
}

/// What follows a look at whether the driver listens.
#[derive(Debug)]
pub enum LaunchStep {
    Ready,
    Wait,
    GiveUp(BrowserError),
}

/// Decides whether to wait on for the driver.
pub fn await_driver(listening: bool, expired: bool) -> (r: LaunchStep)
    ensures
        if listening {
            r is Ready
        } else if expired {
            r matches LaunchStep::GiveUp(e) && e@ == BrowserErrorView::LaunchFailed(
                "geckodriver did not start listening within 30s"@,
            )
        } else {
            r is Wait
        },
{
    if listening {
        LaunchStep::Ready
    } else if expired {
        LaunchStep::GiveUp(
            BrowserError::LaunchFailed(
                "geckodriver did not start listening within 30s".to_owned(),
            ),
        )
    } else {
        LaunchStep::Wait
    }
}

/// The port of the filtering proxy, without which no browser may be started.
pub fn required_proxy_port(slot: &Option<u16>) -> (r: Result<u16, BrowserError>)
    ensures
        match *slot {
            Some(p) => r == Ok::<u16, BrowserError>(p),
            None => r matches Err(e) && e@ == BrowserErrorView::LaunchFailed(
                "proxy port not initialized before BrowserInstance::new"@,
            ),
        },
{
    match slot {
        Some(p) => Ok(*p),
        None => Err(
            BrowserError::LaunchFailed(
                "proxy port not initialized before BrowserInstance::new".to_owned(),
            ),
        ),
    }
}

/// The preferences that do not depend on anything, as JSON: nothing is kept on
/// disk or played, no image is loaded, and nothing is reported or updated.
pub const FIXED_PREFS: &'static str =
    r#""browser.cache.disk.enable":false,"browser.cache.memory.enable":true,"media.autoplay.default":5,"permissions.default.image":2,"datareporting.healthreport.uploadEnabled":false,"toolkit.telemetry.enabled":false,"app.update.enabled":false,"browser.shell.checkDefaultBrowser":false,"browser.startup.homepage_override.mstone":"ignore","browser.contentblocking.category":"strict","network.cookie.cookieBehavior":5,"security.enterprise_roots.enabled":true,"pdfjs.disabled":true,"network.proxy.type":1,"network.proxy.share_proxy_settings":true,"network.proxy.socks_remote_dns":true,"network.proxy.no_proxies_on":"","network.dns.disablePrefetch":true,"network.prefetch-next":false"#;

/// What the driver is told of the browser, as JSON: where it is, how it runs,
/// and that every request of it goes through the filtering proxy.
pub open spec fn capabilities_text(firefox: Seq<char>, proxy_port: u16) -> Seq<char> {
    "{\"moz:firefoxOptions\":{\"binary\":"@ + json_string(firefox)
        + ",\"args\":[\"-headless\"],\"prefs\":{"@ + FIXED_PREFS@
        + ",\"network.proxy.http\":\"127.0.0.1\",\"network.proxy.http_port\":"@ + decimal(
        proxy_port as nat,
    ) + ",\"network.proxy.ssl\":\"127.0.0.1\",\"network.proxy.ssl_port\":"@ + decimal(
        proxy_port as nat,
    ) + "}}}"@
}

/// Writes what the driver is told of the browser.
pub fn capabilities_json(firefox: &str, proxy_port: u16) -> (r: String)
    ensures
        r@ == capabilities_text(firefox@, proxy_port),
{
    let port = decimal_text(proxy_port as u64);
    let mut out = "{\"moz:firefoxOptions\":{\"binary\":".to_owned();
    out.append(json_quote(firefox).as_str());
    out.append(",\"args\":[\"-headless\"],\"prefs\":{");
    out.append(FIXED_PREFS);
    out.append(",\"network.proxy.http\":\"127.0.0.1\",\"network.proxy.http_port\":");
    out.append(port.as_str());
    out.append(",\"network.proxy.ssl\":\"127.0.0.1\",\"network.proxy.ssl_port\":");
    out.append(port.as_str());
    out.append("}}}");
    out
}

/// Whatever the callsign, the name of the directory holds no path separator and
/// no dot.
pub proof fn profiles_stay_in_their_directory(callsign: Seq<char>)
    ensures
        ({
            let name = "firefox-"@ + safe_id_of(callsign) + "-"@;
            forall|i: int|
                0 <= i < name.len() ==> (#[trigger] name[i]) != '/' && name[i] != '.' && name[i]
                    != '\\'
        }),
{
    reveal_strlit("firefox-");
    reveal_strlit("-");
    lemma_safe_id(callsign);
}

proof fn lemma_safe_id(s: Seq<char>)
    ensures
        forall|i: int| 0 <= i < safe_id_of(s).len() ==> alphanumeric(#[trigger] safe_id_of(s)[i]),
    decreases s.len(),
{
    if s.len() > 0 {
        lemma_safe_id(s.drop_last());
        let head = safe_id_of(s.drop_last());
        assert forall|i: int| 0 <= i < safe_id_of(s).len() implies alphanumeric(
            #[trigger] safe_id_of(s)[i],
        ) by {
            if i < head.len() {
                assert(safe_id_of(s)[i] == head[i]);
            }
        }
    }
}

/// Every request of a browser goes through the proxy on this machine: its port
/// is given for plain and for encrypted requests.
pub proof fn browsers_go_through_the_proxy(firefox: Seq<char>, port: u16)
    ensures
        occurs(
            capabilities_text(firefox, port),
            "\"network.proxy.http\":\"127.0.0.1\",\"network.proxy.http_port\":"@ + decimal(
                port as nat,
            ) + ","@,
        ),
        occurs(
            capabilities_text(firefox, port),
            "\"network.proxy.ssl\":\"127.0.0.1\",\"network.proxy.ssl_port\":"@ + decimal(
                port as nat,
            ) + "}"@,
        ),
        starts_with(
            capabilities_text(firefox, port),
            "{\"moz:firefoxOptions\":{\"binary\":"@ + json_string(firefox),
        ),
{
    reveal_strlit(",\"network.proxy.http\":\"127.0.0.1\",\"network.proxy.http_port\":");
    reveal_strlit("\"network.proxy.http\":\"127.0.0.1\",\"network.proxy.http_port\":");
    reveal_strlit(",\"network.proxy.ssl\":\"127.0.0.1\",\"network.proxy.ssl_port\":");
    reveal_strlit("\"network.proxy.ssl\":\"127.0.0.1\",\"network.proxy.ssl_port\":");
    reveal_strlit("}}}");
    reveal_strlit("}");
    reveal_strlit(",");
    let all = capabilities_text(firefox, port);
    let digits = decimal(port as nat);
    let start = "{\"moz:firefoxOptions\":{\"binary\":"@ + json_string(firefox);
    let front = start + ",\"args\":[\"-headless\"],\"prefs\":{"@ + FIXED_PREFS@;
    let http = ",\"network.proxy.http\":\"127.0.0.1\",\"network.proxy.http_port\":"@;
    let ssl = ",\"network.proxy.ssl\":\"127.0.0.1\",\"network.proxy.ssl_port\":"@;
    let first = "\"network.proxy.http\":\"127.0.0.1\",\"network.proxy.http_port\":"@ + digits
        + ","@;
    let second = "\"network.proxy.ssl\":\"127.0.0.1\",\"network.proxy.ssl_port\":"@ + digits
        + "}"@;
    assert(http =~= ","@ + "\"network.proxy.http\":\"127.0.0.1\",\"network.proxy.http_port\":"@);
    assert(ssl =~= ","@ + "\"network.proxy.ssl\":\"127.0.0.1\",\"network.proxy.ssl_port\":"@);
    let rest = "\"network.proxy.ssl\":\"127.0.0.1\",\"network.proxy.ssl_port\":"@ + digits
        + "}}}"@;
    assert(all =~= (front + ","@) + first + rest);
    lemma_occurs_within(front + ","@, first, rest);
    assert(all =~= (front + http + digits + ","@) + second + "}}"@) by {
        reveal_strlit("}}");
    }
    lemma_occurs_within(front + http + digits + ","@, second, "}}"@);
    assert(all.take(start.len() as int) =~= start);
}

/// The name of a profile keeps the letters and digits of the callsign in their
/// order and nothing else.
pub proof fn profiles_keep_letters_and_digits(a: Seq<char>, b: Seq<char>, c: char)
    ensures
        safe_id_of(a + b) == safe_id_of(a) + safe_id_of(b),
        'a' <= c <= 'z' || 'A' <= c <= 'Z' || '0' <= c <= '9' ==> safe_id_of(seq![c]) == seq![c],
        c == '/' || c == '\\' || c == '.' || c == '-' || c == ' ' ==> safe_id_of(seq![c])
            == Seq::<char>::empty(),
    decreases b.len(),
{
    reveal_with_fuel(safe_id_of, 2);
    assert(seq![c].drop_last() =~= Seq::<char>::empty());
    if b.len() == 0 {
        assert(a + b =~= a);
        assert(safe_id_of(a) + safe_id_of(b) =~= safe_id_of(a));
    } else {
        profiles_keep_letters_and_digits(a, b.drop_last(), c);
        assert((a + b).drop_last() =~= a + b.drop_last());
        assert((a + b).last() == b.last());
        assert(safe_id_of(a + b) =~= safe_id_of(a) + safe_id_of(b));
    }
}

/// Wherever in its message the driver says so, the session is lost; where it
/// says neither, it is not.
pub proof fn lost_sessions_are_told_by_the_driver(front: Seq<char>, back: Seq<char>)
    ensures
        session_lost(front + "session deleted"@ + back),
        session_lost(front + "invalid session id"@ + back),
        !occurs(front, "session deleted"@) && !occurs(front, "invalid session id"@)
            ==> !session_lost(front),
{
    lemma_occurs_within(front, "session deleted"@, back);
    lemma_occurs_within(front, "invalid session id"@, back);
}

} // verus!
