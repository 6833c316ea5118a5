//! The spellings under which kinds, severities, confidences, vendors and process kinds are stored.

use vstd::prelude::*;
use crate::events::{Confidence, EventKind, Severity};
use crate::model::{ProcessKind, Vendor};
use crate::model::text_view;
use crate::text::{chars_of, is_text, text_of, trim_end_char, trim_start_char};
use crate::text::{without_leading, without_trailing};

verus! {

/// A character that JSON writes as itself.
pub open spec fn is_plain(c: char) -> bool {
    c != '"' && c != '\\' && c as u32 >= 0x20
}

pub open spec fn all_plain(s: Seq<char>) -> bool {
    forall|i: int| 0 <= i < s.len() ==> is_plain(#[trigger] s[i])
}

/// `s` between double quotes.
pub open spec fn quoted(s: Seq<char>) -> Seq<char> {
    seq!['"'] + s + seq!['"']
}

/// The hexadecimal digit `d`, in lower case.
pub open spec fn hex_char(d: int) -> char {
    if d < 10 {
        (48 + d) as char
    } else {
        (87 + d) as char
    }
}

/// A character as JSON writes it inside a string.
pub open spec fn json_char(c: char) -> Seq<char> {
    if c == '"' || c == '\\' {
        seq!['\\', c]
    } else if c as u32 == 0x08 {
        seq!['\\', 'b']
    } else if c as u32 == 0x09 {
        seq!['\\', 't']
    } else if c as u32 == 0x0a {
        seq!['\\', 'n']
    } else if c as u32 == 0x0c {
        seq!['\\', 'f']
    } else if c as u32 == 0x0d {
        seq!['\\', 'r']
    } else if c as u32 <= 0x1f {
        seq!['\\', 'u', '0', '0', hex_char(c as int / 16), hex_char(c as int % 16)]
    } else {
        seq![c]
    }
}

/// A text as JSON writes it inside a string.
pub open spec fn json_chars(s: Seq<char>) -> Seq<char>
    decreases s.len(),
{
    if s.len() == 0 {
        Seq::empty()
    } else {
        json_chars(s.drop_last()) + json_char(s.last())
    }
}

proof fn lemma_plain_chars(s: Seq<char>)
    requires
        all_plain(s),
    ensures
        json_chars(s) == s,
    decreases s.len(),
{
    if s.len() > 0 {
        let t = s.drop_last();
        assert forall|i: int| 0 <= i < t.len() implies is_plain(#[trigger] t[i]) by {
            assert(s[i] == t[i]);
        }
        lemma_plain_chars(t);
        assert(s[s.len() - 1] == s.last());
        assert(t + seq![s.last()] =~= s);
    } else {
        assert(s =~= Seq::empty());
    }
}

/// The text that a JSON document which is one string stands for; `None` for every other text.
pub uninterp spec fn json_string(doc: Seq<char>) -> Option<Seq<char>>;

/// `serde_json::to_string` of a string: the string between quotes, with quotes, backslashes and
/// control characters escaped. It does not fail on a string.
#[verifier::external_body]
fn to_json(s: &str) -> (r: Option<String>)
    ensures
        r is Some,
        r->0@ == quoted(json_chars(s@)),
{
    serde_json::to_string(s).ok()
}

/// `serde_json::from_str` into a string: a function of the document alone, which gives back plain
/// characters between quotes as they are.
#[verifier::external_body]
fn from_json(doc: &str) -> (r: Option<String>)
    ensures
        text_view(r) == json_string(doc@),
        forall|s: Seq<char>|
            all_plain(s) && doc@ == #[trigger] quoted(s) ==> text_view(r) == Some(s),
{
    serde_json::from_str::<String>(doc).ok()
}

/// What a stored token reads as: itself where it is plain, else what the JSON string with these
/// contents stands for.
pub open spec fn json_read(s: Seq<char>) -> Option<Seq<char>> {
    if all_plain(s) {
        Some(s)
    } else {
        json_string(quoted(s))
    }
}

/// A token as it is stored: its JSON string without the quotes.
fn serde_str(token: &str) -> (r: String)
    requires
        all_plain(token@),
    ensures
        r@ == token@,
{
    let json: Vec<char> = match to_json(token) {
        Some(t) => chars_of(t.as_str()),
        None => Vec::new(),
    };
    let t = trim_end_char(trim_start_char(json.as_slice(), '"'), '"');
    proof {
        lemma_plain_chars(token@);
        lemma_unquoted(token@);
    }
    text_of(t)
}

proof fn lemma_unquoted(s: Seq<char>)
    requires
        all_plain(s),
    ensures
        without_trailing(without_leading(quoted(s), '"'), '"') == s,
{
    let q = quoted(s);
    let rest = s + seq!['"'];
    assert(q.skip(1) =~= rest);
    if s.len() > 0 {
        assert(rest[0] == s[0]);
        assert(without_leading(rest, '"') == rest);
        assert(rest.drop_last() =~= s);
        assert(s.last() == s[s.len() - 1]);
        assert(without_trailing(rest, '"') == without_trailing(s, '"'));
    } else {
        assert(rest.skip(1) =~= s);
        assert(without_leading(rest, '"') == without_leading(s, '"'));
    }
}

/// A stored token as it is read.
fn serde_parse(s: &str) -> (r: Option<String>)
    ensures
        text_view(r) == json_read(s@),
{
    let mut doc: String = String::new();
    doc.push('"');
    doc.append(s);
    doc.push('"');
    assert(doc@ =~= quoted(s@));
    from_json(doc.as_str())
}

/// The stored spelling of an event kind.
pub open spec fn kind_token(k: EventKind) -> Seq<char> {
    match k {
        EventKind::ThrottleStart => "throttle_start"@,
        EventKind::ThrottleEnd => "throttle_end"@,
        EventKind::ProcessAttached => "process_attached"@,
        EventKind::ProcessExited => "process_exited"@,
        EventKind::VramPressure => "vram_pressure"@,
        EventKind::IdleGap => "idle_gap"@,
        EventKind::CollectorStall => "collector_stall"@,
        EventKind::HistoryReset => "history_reset"@,
        EventKind::HangSuspected => "hang_suspected"@,
        EventKind::DeviceLost => "device_lost"@,
        EventKind::DeviceReturned => "device_returned"@,
        EventKind::CpuSpillover => "cpu_spillover"@,
        EventKind::RecordingStarted => "recording_started"@,
        EventKind::RecordingStopped => "recording_stopped"@,
    }
}

/// The event kind that is spelled `t`.
pub open spec fn kind_of_token(t: Seq<char>) -> Option<EventKind> {
    if t == "throttle_start"@ {
        Some(EventKind::ThrottleStart)
    } else if t == "throttle_end"@ {
        Some(EventKind::ThrottleEnd)
    } else if t == "process_attached"@ {
        Some(EventKind::ProcessAttached)
    } else if t == "process_exited"@ {
        Some(EventKind::ProcessExited)
    } else if t == "vram_pressure"@ {
        Some(EventKind::VramPressure)
    } else if t == "idle_gap"@ {
        Some(EventKind::IdleGap)
    } else if t == "collector_stall"@ {
        Some(EventKind::CollectorStall)
    } else if t == "history_reset"@ {
        Some(EventKind::HistoryReset)
    } else if t == "hang_suspected"@ {
        Some(EventKind::HangSuspected)
    } else if t == "device_lost"@ {
        Some(EventKind::DeviceLost)
    } else if t == "device_returned"@ {
        Some(EventKind::DeviceReturned)
    } else if t == "cpu_spillover"@ {
        Some(EventKind::CpuSpillover)
    } else if t == "recording_started"@ {
        Some(EventKind::RecordingStarted)
    } else if t == "recording_stopped"@ {
        Some(EventKind::RecordingStopped)
    } else {
        None
    }
}

/// Distinct event kind spellings stand for distinct values.
pub(crate) proof fn lemma_kind_tokens(k: EventKind)
    ensures
        all_plain(kind_token(k)),
        kind_of_token(kind_token(k)) == Some(k),
{
    reveal_strlit("throttle_start");
    reveal_strlit("throttle_end");
    reveal_strlit("process_attached");
    reveal_strlit("process_exited");
    reveal_strlit("vram_pressure");
    reveal_strlit("idle_gap");
    reveal_strlit("collector_stall");
    reveal_strlit("history_reset");
    reveal_strlit("hang_suspected");
    reveal_strlit("device_lost");
    reveal_strlit("device_returned");
    reveal_strlit("cpu_spillover");
    reveal_strlit("recording_started");
    reveal_strlit("recording_stopped");
    assert(all_plain("throttle_start"@));
    assert(all_plain("throttle_end"@));
    assert(all_plain("process_attached"@));
    assert(all_plain("process_exited"@));
    assert(all_plain("vram_pressure"@));
    assert(all_plain("idle_gap"@));
    assert(all_plain("collector_stall"@));
    assert(all_plain("history_reset"@));
    assert(all_plain("hang_suspected"@));
    assert(all_plain("device_lost"@));
    assert(all_plain("device_returned"@));
    assert(all_plain("cpu_spillover"@));
    assert(all_plain("recording_started"@));
    assert(all_plain("recording_stopped"@));
    assert("process_exited"@[0] != "throttle_start"@[0]);
    assert("history_reset"@[0] != "vram_pressure"@[0]);
    assert("hang_suspected"@[0] != "throttle_start"@[0]);
    assert("hang_suspected"@[0] != "process_exited"@[0]);
    assert("device_returned"@[0] != "collector_stall"@[0]);
    assert("cpu_spillover"@[0] != "vram_pressure"@[0]);
    assert("cpu_spillover"@[0] != "history_reset"@[0]);
    assert("recording_stopped"@[12] != "recording_started"@[12]);
}

pub fn kind_to_str(k: EventKind) -> (r: String)
    ensures
        r@ == kind_token(k),
{
    proof {
        lemma_kind_tokens(k);
    }
    match k {
        EventKind::ThrottleStart => serde_str("throttle_start"),
        EventKind::ThrottleEnd => serde_str("throttle_end"),
        EventKind::ProcessAttached => serde_str("process_attached"),
        EventKind::ProcessExited => serde_str("process_exited"),
        EventKind::VramPressure => serde_str("vram_pressure"),
        EventKind::IdleGap => serde_str("idle_gap"),
        EventKind::CollectorStall => serde_str("collector_stall"),
        EventKind::HistoryReset => serde_str("history_reset"),
        EventKind::HangSuspected => serde_str("hang_suspected"),
        EventKind::DeviceLost => serde_str("device_lost"),
        EventKind::DeviceReturned => serde_str("device_returned"),
        EventKind::CpuSpillover => serde_str("cpu_spillover"),
        EventKind::RecordingStarted => serde_str("recording_started"),
        EventKind::RecordingStopped => serde_str("recording_stopped"),
    }
}

/// The event kind that a token reads as; `None` where it is none.
pub open spec fn read_kind(s: Seq<char>) -> Option<EventKind> {
    match json_read(s) {
        Some(t) => kind_of_token(t),
        None => None,
    }
}

pub fn kind_from_str(s: &str) -> (r: Option<EventKind>)
    ensures
        r == read_kind(s@),
{
    let t: Vec<char> = match serde_parse(s) {
        Some(t) => chars_of(t.as_str()),
        None => {
            return None;
        },
    };
    if is_text(t.as_slice(), "throttle_start") {
        Some(EventKind::ThrottleStart)
    } else if is_text(t.as_slice(), "throttle_end") {
        Some(EventKind::ThrottleEnd)
    } else if is_text(t.as_slice(), "process_attached") {
        Some(EventKind::ProcessAttached)
    } else if is_text(t.as_slice(), "process_exited") {
        Some(EventKind::ProcessExited)
    } else if is_text(t.as_slice(), "vram_pressure") {
        Some(EventKind::VramPressure)
    } else if is_text(t.as_slice(), "idle_gap") {
        Some(EventKind::IdleGap)
    } else if is_text(t.as_slice(), "collector_stall") {
        Some(EventKind::CollectorStall)
    } else if is_text(t.as_slice(), "history_reset") {
        Some(EventKind::HistoryReset)
    } else if is_text(t.as_slice(), "hang_suspected") {
        Some(EventKind::HangSuspected)
    } else if is_text(t.as_slice(), "device_lost") {
        Some(EventKind::DeviceLost)
    } else if is_text(t.as_slice(), "device_returned") {
        Some(EventKind::DeviceReturned)
    } else if is_text(t.as_slice(), "cpu_spillover") {
        Some(EventKind::CpuSpillover)
    } else if is_text(t.as_slice(), "recording_started") {
        Some(EventKind::RecordingStarted)
    } else if is_text(t.as_slice(), "recording_stopped") {
        Some(EventKind::RecordingStopped)
    } else {
        None
    }
}

/// The stored spelling of a severity.
pub open spec fn severity_token(s: Severity) -> Seq<char> {
    match s {
        Severity::Info => "info"@,
        Severity::Warning => "warning"@,
        Severity::Critical => "critical"@,
    }
}

/// The severity that is spelled `t`.
pub open spec fn severity_of_token(t: Seq<char>) -> Option<Severity> {
    if t == "info"@ {
        Some(Severity::Info)
    } else if t == "warning"@ {
        Some(Severity::Warning)
    } else if t == "critical"@ {
        Some(Severity::Critical)
    } else {
        None
    }
}

/// Distinct severity spellings stand for distinct values.
pub(crate) proof fn lemma_severity_tokens(s: Severity)
    ensures
        all_plain(severity_token(s)),
        severity_of_token(severity_token(s)) == Some(s),
{
    reveal_strlit("info");
    reveal_strlit("warning");
    reveal_strlit("critical");
    assert(all_plain("info"@));
    assert(all_plain("warning"@));
    assert(all_plain("critical"@));
}

pub fn severity_to_str(s: Severity) -> (r: String)
    ensures
        r@ == severity_token(s),
{
    proof {
        lemma_severity_tokens(s);
    }
    match s {
        Severity::Info => serde_str("info"),
        Severity::Warning => serde_str("warning"),
        Severity::Critical => serde_str("critical"),
    }
}

/// The severity that a token reads as; `None` where it is none.
pub open spec fn read_severity(s: Seq<char>) -> Option<Severity> {
    match json_read(s) {
        Some(t) => severity_of_token(t),
        None => None,
    }
}

pub fn severity_from_str(s: &str) -> (r: Option<Severity>)
    ensures
        r == read_severity(s@),
{
    let t: Vec<char> = match serde_parse(s) {
        Some(t) => chars_of(t.as_str()),
        None => {
            return None;
        },
    };
    if is_text(t.as_slice(), "info") {
        Some(Severity::Info)
    } else if is_text(t.as_slice(), "warning") {
        Some(Severity::Warning)
    } else if is_text(t.as_slice(), "critical") {
        Some(Severity::Critical)
    } else {
        None
    }
}

/// The stored spelling of a confidence.
pub open spec fn confidence_token(c: Confidence) -> Seq<char> {
    match c {
        Confidence::Fact => "fact"@,
        Confidence::Likely => "likely"@,
    }
}

/// The confidence that is spelled `t`.
pub open spec fn confidence_of_token(t: Seq<char>) -> Option<Confidence> {
    if t == "fact"@ {
        Some(Confidence::Fact)
    } else if t == "likely"@ {
        Some(Confidence::Likely)
    } else {
        None
    }
}

/// Distinct confidence spellings stand for distinct values.
pub(crate) proof fn lemma_confidence_tokens(c: Confidence)
    ensures
        all_plain(confidence_token(c)),
        confidence_of_token(confidence_token(c)) == Some(c),
{
    reveal_strlit("fact");
    reveal_strlit("likely");
    assert(all_plain("fact"@));
    assert(all_plain("likely"@));
}

pub fn confidence_to_str(c: Confidence) -> (r: String)
    ensures
        r@ == confidence_token(c),
{
    proof {
        lemma_confidence_tokens(c);
    }
    match c {
        Confidence::Fact => serde_str("fact"),
        Confidence::Likely => serde_str("likely"),
    }
}

/// The confidence that a token reads as; `None` where it is none.
pub open spec fn read_confidence(s: Seq<char>) -> Option<Confidence> {
    match json_read(s) {
        Some(t) => confidence_of_token(t),
        None => None,
    }
}

pub fn confidence_from_str(s: &str) -> (r: Option<Confidence>)
    ensures
        r == read_confidence(s@),
{
    let t: Vec<char> = match serde_parse(s) {
        Some(t) => chars_of(t.as_str()),
        None => {
            return None;
        },
    };
    if is_text(t.as_slice(), "fact") {
        Some(Confidence::Fact)
    } else if is_text(t.as_slice(), "likely") {
        Some(Confidence::Likely)
    } else {
        None
    }
}

/// The stored spelling of a vendor.
pub open spec fn vendor_token(v: Vendor) -> Seq<char> {
    match v {
        Vendor::Nvidia => "nvidia"@,
        Vendor::Amd => "amd"@,
        Vendor::Intel => "intel"@,
        Vendor::Apple => "apple"@,
        Vendor::Unknown => "unknown"@,
    }
}

/// The vendor that is spelled `t`.
pub open spec fn vendor_of_token(t: Seq<char>) -> Option<Vendor> {
    if t == "nvidia"@ {
        Some(Vendor::Nvidia)
    } else if t == "amd"@ {
        Some(Vendor::Amd)
    } else if t == "intel"@ {
        Some(Vendor::Intel)
    } else if t == "apple"@ {
        Some(Vendor::Apple)
    } else if t == "unknown"@ {
        Some(Vendor::Unknown)
    } else {
        None
    }
}

/// Distinct vendor spellings stand for distinct values.
pub(crate) proof fn lemma_vendor_tokens(v: Vendor)
    ensures
        all_plain(vendor_token(v)),
        vendor_of_token(vendor_token(v)) == Some(v),
{
    reveal_strlit("nvidia");
    reveal_strlit("amd");
    reveal_strlit("intel");
    reveal_strlit("apple");
    reveal_strlit("unknown");
    assert(all_plain("nvidia"@));
    assert(all_plain("amd"@));
    assert(all_plain("intel"@));
    assert(all_plain("apple"@));
    assert(all_plain("unknown"@));
    assert("apple"@[0] != "intel"@[0]);
}

pub fn vendor_str(v: Vendor) -> (r: String)
    ensures
        r@ == vendor_token(v),
{
    proof {
        lemma_vendor_tokens(v);
    }
    match v {
        Vendor::Nvidia => serde_str("nvidia"),
        Vendor::Amd => serde_str("amd"),
        Vendor::Intel => serde_str("intel"),
        Vendor::Apple => serde_str("apple"),
        Vendor::Unknown => serde_str("unknown"),
    }
}

/// The vendor that a token reads as; an unreadable one is unknown.
pub open spec fn read_vendor(s: Seq<char>) -> Vendor {
    match json_read(s) {
        Some(t) => match vendor_of_token(t) {
            Some(v) => v,
            None => Vendor::Unknown,
        },
        None => Vendor::Unknown,
    }
}

pub fn vendor_from_str(s: &str) -> (r: Vendor)
    ensures
        r == read_vendor(s@),
{
    let t: Vec<char> = match serde_parse(s) {
        Some(t) => chars_of(t.as_str()),
        None => {
            return Vendor::Unknown;
        },
    };
    if is_text(t.as_slice(), "nvidia") {
        Vendor::Nvidia
    } else if is_text(t.as_slice(), "amd") {
        Vendor::Amd
    } else if is_text(t.as_slice(), "intel") {
        Vendor::Intel
    } else if is_text(t.as_slice(), "apple") {
        Vendor::Apple
    } else {
        Vendor::Unknown
    }
}

/// The stored spelling of a process kind.
pub open spec fn process_kind_token(k: ProcessKind) -> Seq<char> {
    match k {
        ProcessKind::Compute => "compute"@,
        ProcessKind::Graphics => "graphics"@,
        ProcessKind::Both => "both"@,
        ProcessKind::Unknown => "unknown"@,
    }
}

/// The process kind that is spelled `t`.
pub open spec fn process_kind_of_token(t: Seq<char>) -> Option<ProcessKind> {
    if t == "compute"@ {
        Some(ProcessKind::Compute)
    } else if t == "graphics"@ {
        Some(ProcessKind::Graphics)
    } else if t == "both"@ {
        Some(ProcessKind::Both)
    } else if t == "unknown"@ {
        Some(ProcessKind::Unknown)
    } else {
        None
    }
}

/// Distinct process kind spellings stand for distinct values.
pub(crate) proof fn lemma_process_kind_tokens(k: ProcessKind)
    ensures
        all_plain(process_kind_token(k)),
        process_kind_of_token(process_kind_token(k)) == Some(k),
{
    reveal_strlit("compute");
    reveal_strlit("graphics");
    reveal_strlit("both");
    reveal_strlit("unknown");
    assert(all_plain("compute"@));
    assert(all_plain("graphics"@));
    assert(all_plain("both"@));
    assert(all_plain("unknown"@));
    assert("unknown"@[0] != "compute"@[0]);
}

pub fn kind_str(k: ProcessKind) -> (r: String)
    ensures
        r@ == process_kind_token(k),
{
    proof {
        lemma_process_kind_tokens(k);
    }
    match k {
        ProcessKind::Compute => serde_str("compute"),
        ProcessKind::Graphics => serde_str("graphics"),
        ProcessKind::Both => serde_str("both"),
        ProcessKind::Unknown => serde_str("unknown"),
    }
}

/// The kind of process that a token reads as; an unreadable one is unknown.
pub open spec fn read_process_kind(s: Seq<char>) -> ProcessKind {
    match json_read(s) {
        Some(t) => match process_kind_of_token(t) {
            Some(v) => v,
            None => ProcessKind::Unknown,
        },
        None => ProcessKind::Unknown,
    }
}

pub fn kind_from_proc_str(s: &str) -> (r: ProcessKind)
    ensures
        r == read_process_kind(s@),
{
    let t: Vec<char> = match serde_parse(s) {
        Some(t) => chars_of(t.as_str()),
        None => {
            return ProcessKind::Unknown;
        },
    };
    if is_text(t.as_slice(), "compute") {
        ProcessKind::Compute
    } else if is_text(t.as_slice(), "graphics") {
        ProcessKind::Graphics
    } else if is_text(t.as_slice(), "both") {
        ProcessKind::Both
    } else {
        ProcessKind::Unknown
    }
}

} // verus!
