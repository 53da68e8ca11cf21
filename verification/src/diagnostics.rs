//! What an exported playback report may hold. Only what is on a list goes out: no addresses, no
//! paths, no cookies, no tokens and no free text.

use vstd::prelude::*;

use crate::activity::ActivityLevel;
use crate::error::is_hex_digit;
use crate::ids::random_u64;
use crate::models::{text_of, texts};
use crate::text::{append_hex, chars_of, hex, same, split_at_char, split_once, words, words_of};

verus! {

/// The value of the first `name=value` among words.
pub open spec fn value_in(words: Seq<Seq<char>>, name: Seq<char>) -> Option<Seq<char>>
    decreases words.len(),
{
    if words.len() == 0 {
        None
    } else {
        match split_at_char(words[0], '=') {
            Some(pair) => if pair.0 == name {
                Some(pair.1)
            } else {
                value_in(words.drop_first(), name)
            },
            None => value_in(words.drop_first(), name),
        }
    }
}

/// The value of a field in a text of words.
pub fn field(detail: &str, name: &str) -> (r: Option<String>)
    ensures
        text_of(r) == value_in(words_of(detail@), name@),
{
    let list = words(detail);
    let ghost model = texts(list@);
    let mut i: usize = 0;
    assert(model.skip(0) =~= model);
    while i < list.len()
        invariant
            i <= list@.len(),
            model == texts(list@),
            model == words_of(detail@),
            value_in(model, name@) == value_in(model.skip(i as int), name@),
        decreases list@.len() - i,
    {
        assert(model.skip(i as int)[0] == list@[i as int]@);
        assert(model.skip(i as int).drop_first() =~= model.skip(i + 1));
        if let Some((key, value)) = split_once(list[i].as_str(), '=') {
            if same(key.as_str(), name) {
                return Some(value);
            }
        }
        i += 1;
    }
    None
}

/// The codes that may go out.
pub open spec fn is_allowed_code(code: Seq<char>) -> bool {
    ||| code == "AUTH_EXPIRED"@
    ||| code == "RATE_LIMITED"@
    ||| code == "UPSTREAM_TIMEOUT"@
    ||| code == "UPSTREAM_TRANSPORT"@
    ||| code == "INVALID_RESPONSE"@
    ||| code == "UPSTREAM_ERROR"@
    ||| code == "ACCOUNT_CHANGED"@
    ||| code == "MEDIA_UNAVAILABLE"@
    ||| code == "INVALID_MEDIA"@
    ||| code == "INVALID_RANGE"@
    ||| code == "UPSTREAM_HTTP"@
    ||| code == "MEDIA_ENTITY_CHANGED"@
}

pub fn allowed_code(code: &str) -> (r: bool)
    ensures
        r == is_allowed_code(code@),
{
    same(code, "AUTH_EXPIRED") || same(code, "RATE_LIMITED") || same(code, "UPSTREAM_TIMEOUT")
        || same(code, "UPSTREAM_TRANSPORT") || same(code, "INVALID_RESPONSE") || same(
        code,
        "UPSTREAM_ERROR",
    ) || same(code, "ACCOUNT_CHANGED") || same(code, "MEDIA_UNAVAILABLE") || same(
        code,
        "INVALID_MEDIA",
    ) || same(code, "INVALID_RANGE") || same(code, "UPSTREAM_HTTP") || same(
        code,
        "MEDIA_ENTITY_CHANGED",
    )
}

/// Sixteen hexadecimal digits.
pub open spec fn is_attempt(s: Seq<char>) -> bool {
    s.len() == 16 && forall|i: int| 0 <= i < s.len() ==> is_hex_digit(#[trigger] s[i])
}

pub open spec fn is_stage(s: Seq<char>) -> bool {
    s == "resolve"@ || s == "media"@ || s == "media_read"@ || s == "cache"@
}

pub open spec fn is_quality(s: Seq<char>) -> bool {
    s == "flac"@ || s == "320"@ || s == "128"@
}

/// What the report calls an event; other events stay out.
pub open spec fn action_of(action: Seq<char>) -> Option<Seq<char>> {
    if action == "试听地址申请"@ || action == "试听地址已申请"@ {
        Some("preview_resolve"@)
    } else if action == "在线音频响应"@ {
        Some("media_response"@)
    } else if action == "在线音频读取中断"@ {
        Some("media_read_error"@)
    } else if action == "在线音频缓存失败"@ {
        Some("media_cache_error"@)
    } else {
        None
    }
}

/// An event of the log.
pub struct ActivityLogEntry {
    pub timestamp: String,
    pub level: ActivityLevel,
    pub action: String,
    pub detail: String,
    pub target: String,
    pub status: Option<u16>,
    pub duration_ms: Option<u64>,
    pub count: u64,
}

/// An event as it goes out.
pub struct DiagnosticEntry {
    pub time: String,
    pub action: &'static str,
    pub level: ActivityLevel,
    pub status: Option<u16>,
    pub duration_ms: Option<u64>,
    pub count: u64,
    pub attempt_id: Option<String>,
    pub code: Option<String>,
    pub stage: Option<String>,
    pub requested: Option<String>,
    pub actual: Option<String>,
}

#[verifier::ext_equal]
pub struct DiagnosticModel {
    pub time: Seq<char>,
    pub action: Seq<char>,
    pub level: ActivityLevel,
    pub status: Option<u16>,
    pub duration_ms: Option<u64>,
    pub count: u64,
    pub attempt_id: Option<Seq<char>>,
    pub code: Option<Seq<char>>,
    pub stage: Option<Seq<char>>,
    pub requested: Option<Seq<char>>,
    pub actual: Option<Seq<char>>,
}

impl View for DiagnosticEntry {
    type V = DiagnosticModel;

    open spec fn view(&self) -> DiagnosticModel {
        DiagnosticModel {
            time: self.time@,
            action: self.action@,
            level: self.level,
            status: self.status,
            duration_ms: self.duration_ms,
            count: self.count,
            attempt_id: text_of(self.attempt_id),
            code: text_of(self.code),
            stage: text_of(self.stage),
            requested: text_of(self.requested),
            actual: text_of(self.actual),
        }
    }
}

/// A field, where its value is on the list.
pub open spec fn listed(value: Option<Seq<char>>, allowed: bool) -> Option<Seq<char>> {
    if value is Some && allowed {
        value
    } else {
        None
    }
}

pub open spec fn diagnostic_of(e: ActivityLogEntry) -> Option<DiagnosticModel> {
    let list = words_of(e.detail@);
    let attempt = value_in(list, "attempt"@);
    let code = value_in(list, "code"@);
    let stage = value_in(list, "stage"@);
    let requested = value_in(list, "requested"@);
    let actual = value_in(list, "actual"@);
    match action_of(e.action@) {
        None => None,
        Some(action) => Some(
            DiagnosticModel {
                time: e.timestamp@,
                action,
                level: e.level,
                status: e.status,
                duration_ms: e.duration_ms,
                count: e.count,
                attempt_id: listed(attempt, is_attempt(attempt->0)),
                code: listed(code, is_allowed_code(code->0)),
                stage: listed(stage, is_stage(stage->0)),
                requested: listed(requested, is_quality(requested->0)),
                actual: listed(actual, is_quality(actual->0)),
            },
        ),
    }
}

pub open spec fn entry_view(r: Option<DiagnosticEntry>) -> Option<DiagnosticModel> {
    match r {
        Some(e) => Some(e@),
        None => None,
    }
}

fn attempt_like(s: &str) -> (r: bool)
    ensures
        r == is_attempt(s@),
{
    let v = chars_of(s);
    if v.len() != 16 {
        return false;
    }
    let mut i: usize = 0;
    while i < v.len()
        invariant
            i <= v@.len() == 16,
            v@ == s@,
            forall|j: int| 0 <= j < i ==> is_hex_digit(#[trigger] v@[j]),
        decreases v@.len() - i,
    {
        let c = v[i];
        let digit: bool = ('0' <= c && c <= '9') || ('a' <= c && c <= 'f') || ('A' <= c && c <= 'F');
        if !digit {
            assert(!is_hex_digit(v@[i as int]));
            return false;
        }
        i += 1;
    }
    true
}

fn quality_field(detail: &str, name: &str) -> (r: Option<String>)
    ensures
        ({
            let value = value_in(words_of(detail@), name@);
            text_of(r) == listed(value, is_quality(value->0))
        }),
{
    match field(detail, name) {
        Some(v) => if same(v.as_str(), "flac") || same(v.as_str(), "320") || same(
            v.as_str(),
            "128",
        ) {
            Some(v)
        } else {
            None
        },
        None => None,
    }
}

fn action_name(action: &str) -> (r: Option<&'static str>)
    ensures
        match r {
            Some(name) => action_of(action@) == Some(name@),
            None => action_of(action@) is None,
        },
{
    if same(action, "试听地址申请") || same(action, "试听地址已申请") {
        Some("preview_resolve")
    } else if same(action, "在线音频响应") {
        Some("media_response")
    } else if same(action, "在线音频读取中断") {
        Some("media_read_error")
    } else if same(action, "在线音频缓存失败") {
        Some("media_cache_error")
    } else {
        None
    }
}

/// What goes out of an event of the log; nothing where the event is not about playback.
pub fn entry(e: &ActivityLogEntry) -> (r: Option<DiagnosticEntry>)
    ensures
        entry_view(r) == diagnostic_of(*e),
{
    let action: &'static str = match action_name(e.action.as_str()) {
        Some(name) => name,
        None => {
            return None;
        },
    };
    let detail = e.detail.as_str();
    let attempt_id = match field(detail, "attempt") {
        Some(v) => if attempt_like(v.as_str()) {
            Some(v)
        } else {
            None
        },
        None => None,
    };
    let code = match field(detail, "code") {
        Some(v) => if allowed_code(v.as_str()) {
            Some(v)
        } else {
            None
        },
        None => None,
    };
    let stage = match field(detail, "stage") {
        Some(v) => if same(v.as_str(), "resolve") || same(v.as_str(), "media") || same(
            v.as_str(),
            "media_read",
        ) || same(v.as_str(), "cache") {
            Some(v)
        } else {
            None
        },
        None => None,
    };
    let requested = quality_field(detail, "requested");
    let actual = quality_field(detail, "actual");
    Some(
        DiagnosticEntry {
            time: e.timestamp.clone(),
            action,
            level: e.level,
            status: e.status,
            duration_ms: e.duration_ms,
            count: e.count,
            attempt_id,
            code,
            stage,
            requested,
            actual,
        },
    )
}

/// Nothing of an event's text goes out unless it is on a list: what is exported does not depend on
/// the target of the event, and of the detail only listed values remain.
pub proof fn only_listed_values_go_out(e: ActivityLogEntry, other: ActivityLogEntry)
    ensures
        match diagnostic_of(e) {
            Some(d) => {
                &&& (d.attempt_id is Some ==> is_attempt(d.attempt_id->0))
                &&& (d.code is Some ==> is_allowed_code(d.code->0))
                &&& (d.stage is Some ==> is_stage(d.stage->0))
                &&& (d.requested is Some ==> is_quality(d.requested->0))
                &&& (d.actual is Some ==> is_quality(d.actual->0))
                &&& action_of(e.action@) == Some(d.action)
            },
            None => true,
        },
        diagnostic_of(ActivityLogEntry { target: other.target, ..e }) == diagnostic_of(e),
{
}

/// The events of the log that go out.
pub open spec fn exported(log: Seq<ActivityLogEntry>) -> Seq<DiagnosticModel>
    decreases log.len(),
{
    if log.len() == 0 {
        Seq::empty()
    } else {
        match diagnostic_of(log.last()) {
            Some(d) => exported(log.drop_last()).push(d),
            None => exported(log.drop_last()),
        }
    }
}

pub open spec fn diagnostic_views(v: Seq<DiagnosticEntry>) -> Seq<DiagnosticModel> {
    v.map_values(|e: DiagnosticEntry| e@)
}

/// The events of a report.
pub fn report_entries(log: &Vec<ActivityLogEntry>) -> (r: Vec<DiagnosticEntry>)
    ensures
        diagnostic_views(r@) == exported(log@),
{
    let mut r: Vec<DiagnosticEntry> = Vec::new();
    let mut i: usize = 0;
    assert(diagnostic_views(r@) =~= exported(log@.take(0)));
    while i < log.len()
        invariant
            i <= log@.len(),
            diagnostic_views(r@) == exported(log@.take(i as int)),
        decreases log@.len() - i,
    {
        assert(log@.take(i + 1).drop_last() =~= log@.take(i as int));
        if let Some(e) = entry(&log[i]) {
            let ghost before = diagnostic_views(r@);
            let ghost d = e@;
            r.push(e);
            assert(diagnostic_views(r@) =~= before.push(d));
        }
        i += 1;
    }
    assert(log@.take(i as int) =~= log@);
    r
}

/// The name of a report's file.
pub open spec fn report_text(stamp: Seq<char>, n: u32) -> Seq<char> {
    "KDJ-playback-"@ + stamp + "-"@ + hex(n as nat, 8, false) + ".json"@
}

pub fn report_name_of(stamp: &str, n: u32) -> (r: String)
    ensures
        r@ == report_text(stamp@, n),
{
    let mut r = "KDJ-playback-".to_owned();
    r.append(stamp);
    r.append("-");
    append_hex(&mut r, n as u64, 8, false);
    r.append(".json");
    assert(r@ =~= report_text(stamp@, n));
    r
}

/// How the moment of a report is written.
pub const STAMP_FORMAT: &'static str = "%Y%m%d-%H%M%S";

/// A date and a time of day: a year of four digits or more, two digits each for the month and the
/// day, a dash, and two digits each for the hour, the minute and the second.
pub open spec fn is_stamp(s: Seq<char>) -> bool {
    &&& s.len() >= 15
    &&& s[s.len() - 7] == '-'
    &&& forall|i: int|
        s.len() - 15 <= i < s.len() && i != s.len() - 7 ==> crate::text::is_digit(#[trigger] s[i])
}

/// Calls `chrono::Local::now` and formats the moment as a date and a time of day. Which moment it
/// is rests on the clock and the time zone: nothing is claimed of that.
#[verifier::external_body]
fn local_stamp(format: &str) -> (r: String)
    requires
        format@ == STAMP_FORMAT@,
    ensures
        is_stamp(r@),
{
    chrono::Local::now().format(format).to_string()
}

/// A fresh name for a report's file: the time, and some random digits.
pub fn new_report_name() -> (r: String)
    ensures
        exists|stamp: Seq<char>, n: u32| is_stamp(stamp) && r@ == #[trigger] report_text(stamp, n),
{
    let stamp = local_stamp(STAMP_FORMAT);
    let n: u64 = random_u64() % 0x1_0000_0000;
    report_name_of(stamp.as_str(), n as u32)
}

} // verus!
