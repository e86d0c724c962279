//! The access log: one JSON object to a line.

use vstd::prelude::*;
use crate::clock::{is_now_text, is_utc_time, now_text};
use crate::shared::json::{json_quote, json_string};
use crate::text::{lemma_occurs_within, occurs, opt_view, starts_with};

verus! {

/// How a request ended, for the log.
#[derive(Debug, Clone, Copy, PartialEq, Eq, Structural)]
pub enum LogStatus {
    Success,
    Blocked,
    Error,
    Agreed,
}

impl LogStatus {
    /// The word in the log.
    pub open spec fn word(self) -> Seq<char> {
        match self {
            LogStatus::Success => "ok"@,
            LogStatus::Blocked => "blocked"@,
            LogStatus::Error => "error"@,
            LogStatus::Agreed => "agreed"@,
        }
    }

    /// The word in the log.
    pub fn to_text(self) -> (r: &'static str)
        ensures
            r@ == self.word(),
    {
        match self {
            LogStatus::Success => "ok",
            LogStatus::Blocked => "blocked",
            LogStatus::Error => "error",
            LogStatus::Agreed => "agreed",
        }
    }
}

/// An entry of the log.
#[derive(Debug, Clone)]
pub struct LogEntry {
    /// When, in UTC.
    pub ts: String,
    pub call: String,
    pub url: String,
    pub status: LogStatus,
    pub reason: Option<String>,
}

/// An entry as a JSON object.
pub open spec fn entry_json(
    ts: Seq<char>,
    call: Seq<char>,
    url: Seq<char>,
    status: LogStatus,
    reason: Option<Seq<char>>,
) -> Seq<char> {
    "{\"ts\":"@ + json_string(ts) + ",\"call\":"@ + json_string(call) + ",\"url\":"@ + json_string(
        url,
    ) + ",\"status\":"@ + json_string(status.word()) + (match reason {
        Some(why) => ",\"reason\":"@ + json_string(why),
        None => Seq::empty(),
    }) + "}"@
}

impl LogEntry {
    /// Who asked for what and why it ended so, at a time that the clock gave.
    pub open spec fn says(
        &self,
        call: Seq<char>,
        url: Seq<char>,
        status: LogStatus,
        reason: Option<Seq<char>>,
    ) -> bool {
        &&& is_now_text(self.ts)
        &&& is_utc_time(self.ts@)
        &&& self.call@ == call
        &&& self.url@ == url
        &&& self.status == status
        &&& opt_view(self.reason) == reason
    }

    /// An entry of the present time.
    pub fn new(call: String, url: String, status: LogStatus, reason: Option<String>) -> (r: LogEntry)
        ensures
            is_now_text(r.ts),
            is_utc_time(r.ts@),
            r.call == call,
            r.url == url,
            r.status == status,
            r.reason == reason,
    {
        LogEntry { ts: now_text(), call, url, status, reason }
    }

    /// The entry as a JSON object.
    pub fn to_json(&self) -> (r: String)
        ensures
            r@ == entry_json(self.ts@, self.call@, self.url@, self.status, opt_view(self.reason)),
    {
        let mut out = "{\"ts\":".to_owned();
        out.append(json_quote(self.ts.as_str()).as_str());
        out.append(",\"call\":");
        out.append(json_quote(self.call.as_str()).as_str());
        out.append(",\"url\":");
        out.append(json_quote(self.url.as_str()).as_str());
        out.append(",\"status\":");
        out.append(json_quote(self.status.to_text()).as_str());
        let ghost head = out@;
        if let Some(why) = &self.reason {
            out.append(",\"reason\":");
            out.append(json_quote(why.as_str()).as_str());
            assert(out@ =~= head + (",\"reason\":"@ + json_string(why@)));
        } else {
            assert(out@ =~= head + Seq::<char>::empty());
        }
        out.append("}");
        out
    }
}

/// Where the log is kept.
#[derive(Debug, Clone)]
pub struct Logger {
    pub log_path: String,
}

impl Logger {
    /// A log in a file.
    pub fn new(log_path: &str) -> (r: Logger)
        ensures
            r.log_path@ == log_path@,
    {
        Logger { log_path: log_path.to_owned() }
    }

    /// What an entry adds to the log.
    pub fn line(&self, entry: &LogEntry) -> (r: String)
        ensures
            r@ == entry_json(
                entry.ts@,
                entry.call@,
                entry.url@,
                entry.status,
                opt_view(entry.reason),
            ) + "\n"@,
    {
        let mut out = entry.to_json();
        out.append("\n");
        out
    }
}

/// Whatever a station sent, its entry stays on one line of the log.
pub proof fn entries_stay_on_one_line(
    ts: Seq<char>,
    call: Seq<char>,
    url: Seq<char>,
    status: LogStatus,
    reason: Option<Seq<char>>,
)
    ensures
        ({
            let json = entry_json(ts, call, url, status, reason);
            forall|i: int| 0 <= i < json.len() ==> (#[trigger] json[i]) as int >= 0x20
        }),
{
    reveal_strlit("{\"ts\":");
    reveal_strlit(",\"call\":");
    reveal_strlit(",\"url\":");
    reveal_strlit(",\"status\":");
    reveal_strlit(",\"reason\":");
    reveal_strlit("}");
    crate::shared::json::json_strings_stay_on_one_line(ts);
    crate::shared::json::json_strings_stay_on_one_line(call);
    crate::shared::json::json_strings_stay_on_one_line(url);
    crate::shared::json::json_strings_stay_on_one_line(status.word());
    if let Some(why) = reason {
        crate::shared::json::json_strings_stay_on_one_line(why);
    }
    let a = "{\"ts\":"@;
    let b = a + json_string(ts);
    let c = b + ",\"call\":"@;
    let d = c + json_string(call);
    let e = d + ",\"url\":"@;
    let f = e + json_string(url);
    let g = f + ",\"status\":"@;
    let h = g + json_string(status.word());
    let tail = match reason {
        Some(why) => ",\"reason\":"@ + json_string(why),
        None => Seq::empty(),
    };
    lemma_printable_concat(a, json_string(ts));
    lemma_printable_concat(b, ",\"call\":"@);
    lemma_printable_concat(c, json_string(call));
    lemma_printable_concat(d, ",\"url\":"@);
    lemma_printable_concat(e, json_string(url));
    lemma_printable_concat(f, ",\"status\":"@);
    lemma_printable_concat(g, json_string(status.word()));
    if let Some(why) = reason {
        lemma_printable_concat(",\"reason\":"@, json_string(why));
    }
    lemma_printable_concat(h, tail);
    lemma_printable_concat(h + tail, "}"@);
}

/// No control character.
spec fn printable(s: Seq<char>) -> bool {
    forall|i: int| 0 <= i < s.len() ==> (#[trigger] s[i]) as int >= 0x20
}

proof fn lemma_printable_concat(a: Seq<char>, b: Seq<char>)
    requires
        printable(a),
        printable(b),
    ensures
        printable(a + b),
{
    assert forall|i: int| 0 <= i < (a + b).len() implies (#[trigger] (a + b)[i]) as int >= 0x20 by {
        if i < a.len() {
            assert((a + b)[i] == a[i]);
        } else {
            assert((a + b)[i] == b[i - a.len()]);
        }
    }
}

/// An entry says when, who, what, how it ended and why, each as a string under
/// its own name.
pub proof fn entries_say_what_happened(
    ts: Seq<char>,
    call: Seq<char>,
    url: Seq<char>,
    status: LogStatus,
    why: Seq<char>,
)
    ensures
        entry_json(ts, call, url, status, Some(why)) == entry_json(ts, call, url, status, None).drop_last()
            + ",\"reason\":"@ + json_string(why) + "}"@,
        starts_with(entry_json(ts, call, url, status, None), "{\"ts\":"@ + json_string(ts) + ","@),
        occurs(
            entry_json(ts, call, url, status, None),
            "\"call\":"@ + json_string(call) + ","@,
        ),
        occurs(entry_json(ts, call, url, status, None), "\"url\":"@ + json_string(url) + ","@),
        occurs(
            entry_json(ts, call, url, status, None),
            "\"status\":"@ + json_string(
                match status {
                    LogStatus::Success => "ok"@,
                    LogStatus::Blocked => "blocked"@,
                    LogStatus::Error => "error"@,
                    LogStatus::Agreed => "agreed"@,
                },
            ) + "}"@,
        ),
{
    reveal_strlit("}");
    reveal_strlit(",");
    reveal_strlit(",\"call\":");
    reveal_strlit("\"call\":");
    reveal_strlit(",\"url\":");
    reveal_strlit("\"url\":");
    reveal_strlit(",\"status\":");
    reveal_strlit("\"status\":");
    assert(",\"call\":"@ =~= ","@ + "\"call\":"@);
    assert(",\"url\":"@ =~= ","@ + "\"url\":"@);
    assert(",\"status\":"@ =~= ","@ + "\"status\":"@);
    let all = entry_json(ts, call, url, status, None);
    let t = "{\"ts\":"@ + json_string(ts) + ","@;
    let c = "\"call\":"@ + json_string(call) + ","@;
    let u = "\"url\":"@ + json_string(url) + ","@;
    let s = "\"status\":"@ + json_string(status.word()) + "}"@;
    assert(all =~= t + c + (u + s));
    lemma_occurs_within(t, c, u + s);
    assert(all =~= (t + c) + u + s);
    lemma_occurs_within(t + c, u, s);
    assert(all =~= (t + c + u) + s + Seq::<char>::empty());
    lemma_occurs_within(t + c + u, s, Seq::<char>::empty());
    assert(all.take(t.len() as int) =~= t);
    assert(entry_json(ts, call, url, status, Some(why)) =~= all.drop_last() + ",\"reason\":"@
        + json_string(why) + "}"@);
}

} // verus!
