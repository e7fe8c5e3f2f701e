//! Lines of the `flutter run` process: machine events and plain output.

use vstd::prelude::*;
use crate::json::{get_bool, get_str, into_array, into_member, json_bool, json_get, json_str, json_text, read_json, Json};
use crate::protocol::is_opt_json;
use crate::text::{chars_of, push_char, string_of};
use crate::types::opt_view;

verus! {

#[derive(Debug, PartialEq, Eq)]
pub struct FlutterLogEntry {
    pub kind: FlutterLogKind,
    pub raw: String,
}

#[derive(Debug, PartialEq, Eq)]
pub enum FlutterLogKind {
    AppProgress { id: String, message: String, finished: bool },
    AppLog { message: String, error: bool },
    AppStarted,
    AppDebugPort { ws_uri: String },
    DaemonConnected,
    DeviceAdded { name: String, platform: String },
    AppWebLaunchUrl { url: String },
    Plain(String),
    MachineJson(Json),
}

/// A `flutter run --machine` event.
#[derive(Debug, PartialEq, Eq)]
pub struct MachineEvent {
    pub event: Option<String>,
    pub params: Option<Json>,
}

// ---------------------------------------------------------------------------
// Whitespace
// ---------------------------------------------------------------------------

/// Unicode White_Space, as `char::is_whitespace` decides it.
pub open spec fn is_ws(c: char) -> bool {
    ||| c == '\t' || c == '\n' || c == '\u{0B}' || c == '\u{0C}' || c == '\r' || c == ' '
    ||| c == '\u{85}' || c == '\u{A0}' || c == '\u{1680}'
    ||| ('\u{2000}' <= c && c <= '\u{200A}')
    ||| c == '\u{2028}' || c == '\u{2029}' || c == '\u{202F}' || c == '\u{205F}' || c == '\u{3000}'
}

fn is_ws_exec(c: char) -> (r: bool)
    ensures
        r == is_ws(c),
{
    c == '\t' || c == '\n' || c == '\u{0B}' || c == '\u{0C}' || c == '\r' || c == ' ' || c == '\u{85}'
        || c == '\u{A0}' || c == '\u{1680}' || ('\u{2000}' <= c && c <= '\u{200A}') || c == '\u{2028}'
        || c == '\u{2029}' || c == '\u{202F}' || c == '\u{205F}' || c == '\u{3000}'
}

/// Every character is whitespace.
pub open spec fn all_ws(s: Seq<char>) -> bool {
    forall|i: int| 0 <= i < s.len() ==> is_ws(#[trigger] s[i])
}

/// `s` without leading and trailing whitespace (`str::trim`): the range
/// from the first to the last non-whitespace character.
pub open spec fn trimmed(s: Seq<char>, lo: int, hi: int) -> bool {
    &&& 0 <= lo <= hi <= s.len()
    &&& forall|i: int| 0 <= i < lo ==> is_ws(#[trigger] s[i])
    &&& forall|i: int| hi <= i < s.len() ==> is_ws(#[trigger] s[i])
    &&& lo < hi ==> !is_ws(s[lo]) && !is_ws(s[hi - 1])
}

/// The text of `s` without leading and trailing whitespace.
pub open spec fn trim_of(s: Seq<char>) -> Seq<char> {
    let (lo, hi) = choose|lo: int, hi: int| trimmed(s, lo, hi);
    s.subrange(lo, hi)
}

/// There is one trimmed text.
proof fn lemma_trim_of(s: Seq<char>, lo: int, hi: int)
    requires
        trimmed(s, lo, hi),
    ensures
        trim_of(s) == s.subrange(lo, hi),
{
    let (a, b) = choose|a: int, b: int| trimmed(s, a, b);
    assert(trimmed(s, a, b));
    if lo < hi && a < b {
        lemma_trimmed_unique(s, lo, hi, a, b);
        if b < hi {
            assert(is_ws(s[hi - 1]));
        } else if hi < b {
            assert(is_ws(s[b - 1]));
        }
    } else if lo < hi {
        assert(is_ws(s[lo]));
    } else if a < b {
        assert(is_ws(s[a]));
    }
    assert(trim_of(s) =~= s.subrange(lo, hi));
}

/// Text without leading and trailing whitespace.
pub fn trim_text(s: &str) -> (r: String)
    ensures
        exists|lo: int, hi: int| trimmed(s@, lo, hi) && r@ == s@.subrange(lo, hi),
        r@ == trim_of(s@),
{
    let v = chars_of(s);
    let n = v.len();
    let mut lo: usize = 0;
    while lo < n && is_ws_exec(v[lo])
        invariant
            n == v@.len(),
            lo <= n,
            forall|i: int| 0 <= i < lo ==> is_ws(#[trigger] v@[i]),
        decreases n - lo,
    {
        lo = lo + 1;
    }
    let mut hi: usize = n;
    while hi > lo && is_ws_exec(v[hi - 1])
        invariant
            n == v@.len(),
            lo <= hi <= n,
            forall|i: int| hi <= i < n ==> is_ws(#[trigger] v@[i]),
        decreases hi,
    {
        hi = hi - 1;
    }
    let r = string_of(&v, lo, hi);
    assert(trimmed(s@, lo as int, hi as int));
    proof { lemma_trim_of(s@, lo as int, hi as int); }
    r
}

/// Whether text is empty once trimmed.
pub fn is_blank(s: &str) -> (r: bool)
    ensures
        r == all_ws(s@),
{
    let v = chars_of(s);
    let n = v.len();
    let mut i: usize = 0;
    while i < n
        invariant
            n == v@.len(),
            v@ == s@,
            i <= n,
            forall|k: int| 0 <= k < i ==> is_ws(#[trigger] v@[k]),
        decreases n - i,
    {
        if !is_ws_exec(v[i]) {
            return false;
        }
        i = i + 1;
    }
    true
}

// ---------------------------------------------------------------------------
// ANSI escapes
// ---------------------------------------------------------------------------

pub open spec fn is_ascii_alpha(c: char) -> bool {
    ('a' <= c && c <= 'z') || ('A' <= c && c <= 'Z')
}

/// Position after the control sequence whose parameters start at `j`: just
/// past its first ASCII letter, or the end of the text.
pub open spec fn csi_end(s: Seq<char>, j: int) -> int
    decreases s.len() - j,
{
    if j >= s.len() {
        s.len() as int
    } else if is_ascii_alpha(s[j]) {
        j + 1
    } else {
        csi_end(s, j + 1)
    }
}

pub proof fn lemma_csi_end(s: Seq<char>, j: int)
    requires
        0 <= j,
    ensures
        j <= csi_end(s, j) || j > s.len(),
        csi_end(s, j) <= s.len() || j > s.len(),
        j <= s.len() ==> j < csi_end(s, j) || j == s.len(),
    decreases s.len() - j,
{
    if j < s.len() && !is_ascii_alpha(s[j]) {
        lemma_csi_end(s, j + 1);
    }
}

/// `s[i..]` with ANSI escape sequences removed: an ESC followed by `[`
/// drops everything up to and including the next ASCII letter; any other
/// ESC is dropped alone.
pub open spec fn strip_from(s: Seq<char>, i: int) -> Seq<char>
    decreases s.len() - i,
{
    if i < 0 || i >= s.len() {
        seq![]
    } else if s[i] == '\u{1b}' {
        if i + 1 < s.len() && s[i + 1] == '[' {
            proof {
                lemma_csi_end(s, i + 2);
            }
            strip_from(s, csi_end(s, i + 2))
        } else {
            strip_from(s, i + 1)
        }
    } else {
        seq![s[i]] + strip_from(s, i + 1)
    }
}

proof fn lemma_strip_from(s: Seq<char>, i: int)
    requires
        0 <= i,
    ensures
        forall|k: int| 0 <= k < strip_from(s, i).len() ==> strip_from(s, i)[k] != '\u{1b}',
        (forall|k: int| i <= k < s.len() ==> s[k] != '\u{1b}') ==> strip_from(s, i) == s.subrange(
            i,
            s.len() as int,
        ) || i > s.len(),
    decreases s.len() - i,
{
    if i < s.len() {
        if s[i] == '\u{1b}' {
            if i + 1 < s.len() && s[i + 1] == '[' {
                lemma_csi_end(s, i + 2);
                lemma_strip_from(s, csi_end(s, i + 2));
                assert(strip_from(s, i) == strip_from(s, csi_end(s, i + 2)));
            } else {
                lemma_strip_from(s, i + 1);
                assert(strip_from(s, i) == strip_from(s, i + 1));
            }
        } else {
            lemma_strip_from(s, i + 1);
            let rest = strip_from(s, i + 1);
            assert(strip_from(s, i) == seq![s[i]] + rest);
            assert forall|k: int| 0 <= k < strip_from(s, i).len() implies strip_from(s, i)[k] != '\u{1b}' by {
                if k > 0 {
                    assert(strip_from(s, i)[k] == rest[k - 1]);
                }
            }
            if forall|k: int| i <= k < s.len() ==> s[k] != '\u{1b}' {
                assert(s.subrange(i, s.len() as int) =~= seq![s[i]] + s.subrange(i + 1, s.len() as int));
            }
        }
    } else if i == s.len() {
        assert(s.subrange(i, s.len() as int) =~= Seq::<char>::empty());
    }
}

/// Stripping leaves no escape character behind, and leaves text without
/// escape characters as it is.
pub proof fn lemma_strip_ansi(s: Seq<char>)
    ensures
        forall|k: int| 0 <= k < strip_from(s, 0).len() ==> strip_from(s, 0)[k] != '\u{1b}',
        (forall|k: int| 0 <= k < s.len() ==> s[k] != '\u{1b}') ==> strip_from(s, 0) == s,
{
    lemma_strip_from(s, 0);
    assert(s.subrange(0, s.len() as int) =~= s);
}

/// `a` is a subsequence of `b`: what is left of `b` after dropping some
/// of its characters.
pub open spec fn is_subsequence(a: Seq<char>, b: Seq<char>) -> bool
    decreases b.len(),
{
    if b.len() == 0 {
        a.len() == 0
    } else {
        is_subsequence(a, b.drop_first()) || (a.len() > 0 && a[0] == b[0] && is_subsequence(
            a.drop_first(),
            b.drop_first(),
        ))
    }
}

proof fn lemma_subsequence_skip(a: Seq<char>, c: Seq<char>, b: Seq<char>)
    requires
        is_subsequence(a, b),
    ensures
        is_subsequence(a, c + b),
    decreases c.len(),
{
    if c.len() > 0 {
        lemma_subsequence_skip(a, c.drop_first(), b);
        assert((c + b).drop_first() =~= c.drop_first() + b);
    } else {
        assert(c + b =~= b);
    }
}

proof fn lemma_strip_from_subsequence(s: Seq<char>, i: int)
    requires
        0 <= i <= s.len(),
    ensures
        is_subsequence(strip_from(s, i), s.subrange(i, s.len() as int)),
    decreases s.len() - i,
{
    let tail = s.subrange(i, s.len() as int);
    if i == s.len() {
        assert(tail.len() == 0);
    } else if s[i] == '\u{1b}' {
        if i + 1 < s.len() && s[i + 1] == '[' {
            lemma_csi_end(s, i + 2);
            let e = csi_end(s, i + 2);
            lemma_strip_from_subsequence(s, e);
            lemma_subsequence_skip(strip_from(s, e), s.subrange(i, e), s.subrange(e, s.len() as int));
            assert(s.subrange(i, e) + s.subrange(e, s.len() as int) =~= tail);
        } else {
            lemma_strip_from_subsequence(s, i + 1);
            assert(tail.drop_first() =~= s.subrange(i + 1, s.len() as int));
        }
    } else {
        lemma_strip_from_subsequence(s, i + 1);
        let r = strip_from(s, i);
        assert(r == seq![s[i]] + strip_from(s, i + 1));
        assert(r.drop_first() =~= strip_from(s, i + 1));
        assert(tail.drop_first() =~= s.subrange(i + 1, s.len() as int));
    }
}

/// What is stripped is only taken away: the result is a subsequence of
/// the text.
pub proof fn lemma_strip_ansi_subsequence(s: Seq<char>)
    ensures
        is_subsequence(strip_from(s, 0), s),
{
    lemma_strip_from_subsequence(s, 0);
    assert(s.subrange(0, s.len() as int) =~= s);
}

/// Strips ANSI escape codes from text.
pub fn strip_ansi(text: &str) -> (r: String)
    ensures
        r@ == strip_from(text@, 0),
{
    let v = chars_of(text);
    let n = v.len();
    let mut out = String::new();
    let mut i: usize = 0;
    while i < n
        invariant
            n == v@.len(),
            v@ == text@,
            i <= n,
            out@ + strip_from(v@, i as int) == strip_from(v@, 0),
        decreases n - i,
    {
        let c = v[i];
        if c == '\u{1b}' {
            if i + 1 < n && v[i + 1] == '[' {
                let mut j = i + 2;
                proof { lemma_csi_end(v@, i + 2); }
                while j < n && !(('a' <= v[j] && v[j] <= 'z') || ('A' <= v[j] && v[j] <= 'Z'))
                    invariant
                        n == v@.len(),
                        i + 2 <= j <= n,
                        csi_end(v@, i + 2) == csi_end(v@, j as int),
                    decreases n - j,
                {
                    j = j + 1;
                }
                if j < n {
                    j = j + 1;
                }
                assert(j == csi_end(v@, i + 2));
                i = j;
            } else {
                i = i + 1;
            }
        } else {
            let ghost before = out@;
            push_char(&mut out, c);
            assert(out@ + strip_from(v@, i + 1) =~= before + strip_from(v@, i as int));
            i = i + 1;
        }
    }
    assert(out@ + strip_from(v@, n as int) =~= out@);
    out
}

// ---------------------------------------------------------------------------
// Machine events
// ---------------------------------------------------------------------------

/// The text of member `key` of the parameters, or empty.
pub open spec fn param_text(params: Json, key: Seq<char>) -> Seq<char> {
    match json_str(json_get(params, key)) {
        Some(s) => s,
        None => seq![],
    }
}

/// The boolean member `key` of the parameters, or false.
pub open spec fn param_flag(params: Json, key: Seq<char>) -> bool {
    match json_bool(json_get(params, key)) {
        Some(b) => b,
        None => false,
    }
}

/// What a machine event with name `event` and parameters `params` (null
/// when absent) is read as.
pub open spec fn machine_kind(k: FlutterLogKind, event: Option<Seq<char>>, params: Json) -> bool {
    if event == Some("app.progress"@) {
        k matches FlutterLogKind::AppProgress { id, message, finished } && id@ == param_text(params, "id"@)
            && message@ == param_text(params, "message"@) && finished == param_flag(params, "finished"@)
    } else if event == Some("app.log"@) {
        k matches FlutterLogKind::AppLog { message, error } && message@ == param_text(params, "log"@)
            && error == param_flag(params, "error"@)
    } else if event == Some("app.started"@) {
        k is AppStarted
    } else if event == Some("app.debugPort"@) {
        k matches FlutterLogKind::AppDebugPort { ws_uri } && ws_uri@ == param_text(params, "wsUri"@)
    } else if event == Some("daemon.connected"@) {
        k is DaemonConnected
    } else if event == Some("device.added"@) {
        k matches FlutterLogKind::DeviceAdded { name, platform } && name@ == param_text(params, "name"@)
            && platform@ == param_text(params, "platform"@)
    } else if event == Some("app.webLaunchUrl"@) {
        k matches FlutterLogKind::AppWebLaunchUrl { url } && url@ == param_text(params, "url"@)
    } else {
        k matches FlutterLogKind::MachineJson(Json::Object(ms)) && ms@.len() == 2 && ms@[0].0@ == "event"@
            && is_opt_json(ms@[0].1, event) && ms@[1].0@ == "params"@ && ms@[1].1 == params
    }
}

/// An `app.debugPort` machine event gives the debug port entry whose
/// address is the string member `wsUri` of its parameters (empty when
/// there is none).
pub proof fn lemma_debug_port_address(k: FlutterLogKind, params: Json)
    requires
        machine_kind(k, Some("app.debugPort"@), params),
    ensures
        k is AppDebugPort,
        json_get(params, "wsUri"@) matches Some(Json::String(u)) ==> k->AppDebugPort_ws_uri@ == u@,
        !(json_get(params, "wsUri"@) matches Some(Json::String(_))) ==> k->AppDebugPort_ws_uri@.len() == 0,
{
    reveal_strlit("app.debugPort");
    reveal_strlit("app.progress");
    reveal_strlit("app.log");
    reveal_strlit("app.started");
    assert("app.debugPort"@[4] != "app.progress"@[4]);
    assert("app.debugPort"@[4] != "app.log"@[4]);
    assert("app.debugPort"@[4] != "app.started"@[4]);
}

/// Each machine event the monitor knows reads the parameters the Flutter
/// daemon gives it: `app.log` its `log` text and `error` flag,
/// `app.progress` its `id`, `message` and `finished` flag, `device.added`
/// its `name` and `platform`, `app.webLaunchUrl` its `url`; a missing text
/// reads as empty and a missing flag as false.
pub proof fn lemma_machine_event_members(k: FlutterLogKind, event: Seq<char>, params: Json)
    requires
        machine_kind(k, Some(event), params),
    ensures
        event == "app.log"@ ==> (k matches FlutterLogKind::AppLog { message, error } && message@ == param_text(
            params,
            "log"@,
        ) && error == param_flag(params, "error"@)),
        event == "app.progress"@ ==> (k matches FlutterLogKind::AppProgress { id, message, finished } && id@
            == param_text(params, "id"@) && message@ == param_text(params, "message"@) && finished == param_flag(
            params,
            "finished"@,
        )),
        event == "device.added"@ ==> (k matches FlutterLogKind::DeviceAdded { name, platform } && name@ == param_text(
            params,
            "name"@,
        ) && platform@ == param_text(params, "platform"@)),
        event == "app.webLaunchUrl"@ ==> (k matches FlutterLogKind::AppWebLaunchUrl { url } && url@ == param_text(
            params,
            "url"@,
        )),
{
    reveal_strlit("app.progress");
    reveal_strlit("app.log");
    reveal_strlit("app.started");
    reveal_strlit("app.debugPort");
    reveal_strlit("daemon.connected");
    reveal_strlit("device.added");
    reveal_strlit("app.webLaunchUrl");
    assert("app.log"@[4] != "app.progress"@[4]);
    assert("device.added"@[0] != "app.progress"@[0]);
    assert("device.added"@[0] != "app.log"@[0]);
    assert("device.added"@[0] != "app.started"@[0]);
    assert("device.added"@[0] != "app.debugPort"@[0]);
    assert("device.added"@[1] != "daemon.connected"@[1]);
    assert("app.webLaunchUrl"@[4] != "app.progress"@[4]);
    assert("app.webLaunchUrl"@[4] != "app.log"@[4]);
    assert("app.webLaunchUrl"@[4] != "app.started"@[4]);
    assert("app.webLaunchUrl"@[4] != "app.debugPort"@[4]);
    assert("app.webLaunchUrl"@[0] != "daemon.connected"@[0]);
    assert("app.webLaunchUrl"@[0] != "device.added"@[0]);
}

fn param_string(params: &Json, key: &str) -> (r: String)
    ensures
        r@ == param_text(*params, key@),
{
    match get_str(params, key) {
        Some(s) => String::from_str(s),
        None => String::new(),
    }
}

fn param_bool(params: &Json, key: &str) -> (r: bool)
    ensures
        r == param_flag(*params, key@),
{
    match get_bool(params, key) {
        Some(b) => b,
        None => false,
    }
}

fn str_is(s: &String, lit: &str) -> (r: bool)
    ensures
        r == (s@ == lit@),
{
    *s == String::from_str(lit)
}

impl FlutterLogEntry {
    /// Reads a machine event.
    pub fn parse_machine_event(event: MachineEvent) -> (r: FlutterLogKind)
        ensures
            machine_kind(r, opt_view(event.event), match event.params { Some(p) => p, None => Json::Null }),
    {
        let params = match event.params {
            Some(p) => p,
            None => Json::Null,
        };
        let name = event.event;
        match &name {
            Some(e) => {
                if str_is(e, "app.progress") {
                    return FlutterLogKind::AppProgress {
                        id: param_string(&params, "id"),
                        message: param_string(&params, "message"),
                        finished: param_bool(&params, "finished"),
                    };
                } else if str_is(e, "app.log") {
                    return FlutterLogKind::AppLog {
                        message: param_string(&params, "log"),
                        error: param_bool(&params, "error"),
                    };
                } else if str_is(e, "app.started") {
                    return FlutterLogKind::AppStarted;
                } else if str_is(e, "app.debugPort") {
                    return FlutterLogKind::AppDebugPort { ws_uri: param_string(&params, "wsUri") };
                } else if str_is(e, "daemon.connected") {
                    return FlutterLogKind::DaemonConnected;
                } else if str_is(e, "device.added") {
                    return FlutterLogKind::DeviceAdded {
                        name: param_string(&params, "name"),
                        platform: param_string(&params, "platform"),
                    };
                } else if str_is(e, "app.webLaunchUrl") {
                    return FlutterLogKind::AppWebLaunchUrl { url: param_string(&params, "url") };
                }
            },
            None => {},
        }
        let ev = match name {
            Some(e) => Json::String(e),
            None => Json::Null,
        };
        let mut members: Vec<(String, Json)> = Vec::new();
        members.push((String::from_str("event"), ev));
        members.push((String::from_str("params"), params));
        FlutterLogKind::MachineJson(Json::Object(members))
    }
}


/// Whether an entry is hidden from the Flutter tab.
pub open spec fn noise(k: FlutterLogKind) -> bool {
    match k {
        FlutterLogKind::MachineJson(_) => true,
        FlutterLogKind::DaemonConnected => true,
        FlutterLogKind::DeviceAdded { .. } => true,
        FlutterLogKind::AppProgress { message, .. } => all_ws(message@),
        _ => false,
    }
}

/// The plain text of an entry, for copying.
pub open spec fn plain_text(k: FlutterLogKind) -> Seq<char> {
    match k {
        FlutterLogKind::AppProgress { message, finished, .. } => (if finished { "✓"@ } else { "⏳"@ }) + " "@ + message@,
        FlutterLogKind::AppLog { message, error } => (if error { "✗"@ } else { "│"@ }) + " "@ + strip_from(message@, 0),
        FlutterLogKind::AppStarted => "✓ App started"@,
        FlutterLogKind::AppDebugPort { ws_uri } => "🔗 Debug: "@ + ws_uri@,
        FlutterLogKind::DaemonConnected => "✓ Flutter daemon connected"@,
        FlutterLogKind::DeviceAdded { name, platform } => "📱 "@ + name@ + " ("@ + platform@ + ")"@,
        FlutterLogKind::AppWebLaunchUrl { url } => "🌐 "@ + url@,
        FlutterLogKind::Plain(text) => strip_from(text@, 0),
        FlutterLogKind::MachineJson(json) => "⚙ "@ + match json_str(json_get(json, "event"@)) {
            Some(e) => e,
            None => "unknown"@,
        },
    }
}

/// The plain text of a plain line is the line with its escape sequences
/// taken out: no escape character is left, only characters of the line
/// remain (in order), and a line without escape characters is kept as it
/// is. The same holds of the message of an `app.log` event, after its
/// marker and space.
pub proof fn lemma_plain_text_has_no_escapes(k: FlutterLogKind)
    ensures
        k matches FlutterLogKind::Plain(t) ==> {
            &&& forall|i: int| 0 <= i < plain_text(k).len() ==> plain_text(k)[i] != '\u{1b}'
            &&& is_subsequence(plain_text(k), t@)
            &&& (forall|i: int| 0 <= i < t@.len() ==> t@[i] != '\u{1b}') ==> plain_text(k) == t@
        },
        k matches FlutterLogKind::AppLog { message, .. } ==> {
            &&& plain_text(k).len() >= 2
            &&& forall|i: int| 2 <= i < plain_text(k).len() ==> plain_text(k)[i] != '\u{1b}'
            &&& is_subsequence(plain_text(k).subrange(2, plain_text(k).len() as int), message@)
        },
{
    match k {
        FlutterLogKind::Plain(t) => {
            lemma_strip_ansi(t@);
            lemma_strip_ansi_subsequence(t@);
        },
        FlutterLogKind::AppLog { message, error } => {
            reveal_strlit("✗");
            reveal_strlit("│");
            reveal_strlit(" ");
            lemma_strip_ansi(message@);
            lemma_strip_ansi_subsequence(message@);
            let head = (if error { "✗"@ } else { "│"@ }) + " "@;
            let body = strip_from(message@, 0);
            assert(head.len() == 2);
            assert(plain_text(k) =~= head + body);
            assert(plain_text(k).subrange(2, plain_text(k).len() as int) =~= body);
            assert forall|i: int| 2 <= i < plain_text(k).len() implies plain_text(k)[i] != '\u{1b}' by {
                assert(plain_text(k)[i] == body[i - 2]);
            }
        },
        _ => {},
    }
}

/// The trimmed line starts like a JSON array or object.
pub open spec fn looks_like_json(s: Seq<char>) -> bool {
    exists|lo: int, hi: int| trimmed(s, lo, hi) && lo < hi && (s[lo] == '[' || s[lo] == '{')
}

/// What a line is read as, given the outcomes of reading its trimmed text
/// as a list of machine events, as one machine event and as any JSON value.
pub open spec fn line_kind(
    k: FlutterLogKind,
    line: Seq<char>,
    list: Option<Seq<MachineEvent>>,
    single: Option<MachineEvent>,
    value: Option<Json>,
) -> bool {
    let first = match list {
        Some(l) => if l.len() > 0 { Some(l[0]) } else { None },
        None => None,
    };
    if looks_like_json(line) && first is Some {
        machine_kind(k, opt_view(first->0.event), match first->0.params { Some(p) => p, None => Json::Null })
    } else if looks_like_json(line) && single is Some {
        machine_kind(k, opt_view(single->0.event), match single->0.params { Some(p) => p, None => Json::Null })
    } else if looks_like_json(line) && value is Some {
        k == FlutterLogKind::MachineJson(value->0)
    } else {
        k matches FlutterLogKind::Plain(t) && t@ == line
    }
}

/// How the optional event name of a machine event reads: absent or null
/// gives no name; anything but a string is refused.
pub open spec fn event_field(v: Option<Json>) -> Option<Option<String>> {
    match v {
        None => Some(None),
        Some(Json::Null) => Some(None),
        Some(Json::String(s)) => Some(Some(s)),
        _ => None,
    }
}

/// How the optional parameters of a machine event read: null is absent.
pub open spec fn params_field(v: Option<Json>) -> Option<Json> {
    match v {
        Some(Json::Null) => None,
        _ => v,
    }
}

/// A JSON value read as a machine event: an object with optional members
/// `event` and `params`, or a list of exactly those two in that order.
pub open spec fn machine_event_of(j: Json) -> Option<MachineEvent> {
    match j {
        Json::Object(_) => match event_field(json_get(j, "event"@)) {
            Some(e) => Some(MachineEvent { event: e, params: params_field(json_get(j, "params"@)) }),
            None => None,
        },
        Json::Array(v) => if v@.len() == 2 {
            match event_field(Some(v@[0])) {
                Some(e) => Some(MachineEvent { event: e, params: params_field(Some(v@[1])) }),
                None => None,
            }
        } else {
            None
        },
        _ => None,
    }
}

/// A JSON value read as a list of machine events: a list each of whose
/// elements reads as one.
pub open spec fn machine_events_of(j: Json) -> Option<Seq<MachineEvent>> {
    match j {
        Json::Array(v) => if forall|i: int| 0 <= i < v@.len() ==> (#[trigger] machine_event_of(v@[i])) is Some {
            Some(v@.map_values(|x: Json| machine_event_of(x)->0))
        } else {
            None
        },
        _ => None,
    }
}

/// The list of machine events a JSON reading gives, if any.
pub open spec fn events_reading(value: Option<Json>) -> Option<Seq<MachineEvent>> {
    match value {
        Some(j) => machine_events_of(j),
        None => None,
    }
}

/// The machine event a JSON reading gives, if any.
pub open spec fn event_reading(value: Option<Json>) -> Option<MachineEvent> {
    match value {
        Some(j) => machine_event_of(j),
        None => None,
    }
}

fn event_field_ok(v: Option<&Json>) -> (r: bool)
    ensures
        r == (event_field(match v { Some(x) => Some(*x), None => None }) is Some),
{
    match v {
        None => true,
        Some(Json::Null) => true,
        Some(Json::String(_)) => true,
        Some(_) => false,
    }
}

fn decodes_event(j: &Json) -> (r: bool)
    ensures
        r == (machine_event_of(*j) is Some),
{
    match j {
        Json::Object(_) => event_field_ok(j.get("event")),
        Json::Array(v) => v.len() == 2 && event_field_ok(Some(&v[0])),
        _ => false,
    }
}

fn decodes_events(j: &Json) -> (r: bool)
    ensures
        r == (machine_events_of(*j) is Some && machine_events_of(*j)->0.len() > 0),
{
    match j {
        Json::Array(v) => {
            let n = v.len();
            if n == 0 {
                return false;
            }
            let mut i: usize = 0;
            while i < n
                invariant
                    *j == Json::Array(*v),
                    n == v@.len(),
                    i <= n,
                    forall|k: int| 0 <= k < i ==> (#[trigger] machine_event_of(v@[k])) is Some,
                decreases n - i,
            {
                if !decodes_event(&v[i]) {
                    assert(machine_event_of(v@[i as int]) is None);
                    return false;
                }
                i = i + 1;
            }
            true
        },
        _ => false,
    }
}

fn optional_name(v: Json) -> (r: Option<String>)
    requires
        event_field(Some(v)) is Some,
    ensures
        Some(r) == event_field(Some(v)),
{
    match v {
        Json::String(s) => Some(s),
        _ => None,
    }
}

fn optional_params(v: Option<Json>) -> (r: Option<Json>)
    ensures
        r == params_field(v),
{
    match v {
        Some(Json::Null) => None,
        _ => v,
    }
}

fn take_event(j: Json) -> (r: MachineEvent)
    requires
        machine_event_of(j) is Some,
    ensures
        r == machine_event_of(j)->0,
{
    let ghost g = j;
    if let Json::Array(mut v) = j {
        let p = v.pop().unwrap();
        let e = v.pop().unwrap();
        MachineEvent { event: optional_name(e), params: optional_params(Some(p)) }
    } else {
        let event = match j.get("event") {
            Some(Json::String(s)) => Some(s.clone()),
            _ => None,
        };
        let params = into_member(j, "params");
        MachineEvent { event, params: optional_params(params) }
    }
}

fn take_first_event(j: Json) -> (r: MachineEvent)
    requires
        machine_events_of(j) is Some,
        machine_events_of(j)->0.len() > 0,
    ensures
        r == machine_events_of(j)->0[0],
{
    let ghost g = j;
    let mut v = into_array(j).unwrap();
    assert(machine_event_of(v@[0]) is Some);
    let first = v.remove(0);
    take_event(first)
}

proof fn lemma_trimmed_unique(s: Seq<char>, lo: int, hi: int, lo2: int, hi2: int)
    requires
        trimmed(s, lo, hi),
        trimmed(s, lo2, hi2),
        lo < hi,
    ensures
        lo == lo2,
{
    if lo2 < lo {
        assert(is_ws(s[lo2]));
        if lo2 < hi2 {
            assert(!is_ws(s[lo2]));
        } else {
            assert(is_ws(s[lo]));
        }
    } else if lo < lo2 {
        assert(is_ws(s[lo]));
    }
}

fn starts_like_json(line: &str) -> (r: bool)
    ensures
        r == looks_like_json(line@),
{
    let v = chars_of(line);
    let n = v.len();
    let mut lo: usize = 0;
    while lo < n && is_ws_exec(v[lo])
        invariant
            n == v@.len(),
            v@ == line@,
            lo <= n,
            forall|i: int| 0 <= i < lo ==> is_ws(#[trigger] v@[i]),
        decreases n - lo,
    {
        lo = lo + 1;
    }
    if lo == n {
        proof {
            if looks_like_json(line@) {
                let (a, b) = choose|a: int, b: int| trimmed(line@, a, b) && a < b && (line@[a] == '[' || line@[a] == '{');
                assert(is_ws(line@[a]));
            }
        }
        return false;
    }
    let mut hi: usize = n;
    while hi > lo && is_ws_exec(v[hi - 1])
        invariant
            n == v@.len(),
            lo < n,
            !is_ws(v@[lo as int]),
            lo <= hi <= n,
            forall|i: int| hi <= i < n ==> is_ws(#[trigger] v@[i]),
        decreases hi,
    {
        hi = hi - 1;
    }
    assert(hi > lo);
    assert(trimmed(line@, lo as int, hi as int));
    let r = v[lo] == '[' || v[lo] == '{';
    proof {
        if looks_like_json(line@) {
            let (a, b) = choose|a: int, b: int| trimmed(line@, a, b) && a < b && (line@[a] == '[' || line@[a] == '{');
            lemma_trimmed_unique(line@, a, b, lo as int, hi as int);
        }
    }
    r
}

impl FlutterLogEntry {
    /// Reads a line, given what its trimmed text reads as in JSON (`None`
    /// where it is no JSON text).
    pub fn from_json_reading(line: &str, value: Option<Json>) -> (r: FlutterLogEntry)
        ensures
            r.raw@ == line@,
            line_kind(r.kind, line@, events_reading(value), event_reading(value), value),
    {
        let raw = String::from_str(line);
        if starts_like_json(line) {
            match value {
                Some(v) => {
                    if decodes_events(&v) {
                        let first = take_first_event(v);
                        return FlutterLogEntry { kind: Self::parse_machine_event(first), raw };
                    }
                    if decodes_event(&v) {
                        let event = take_event(v);
                        return FlutterLogEntry { kind: Self::parse_machine_event(event), raw };
                    }
                    return FlutterLogEntry { kind: FlutterLogKind::MachineJson(v), raw };
                },
                None => {},
            }
        }
        FlutterLogEntry { kind: FlutterLogKind::Plain(String::from_str(line)), raw }
    }

    /// Reads a line of `flutter run` output: the first machine event of a
    /// JSON list, a single machine event, any other JSON, or plain text.
    pub fn parse(line: &str) -> (r: FlutterLogEntry)
        ensures
            r.raw@ == line@,
            line_kind(
                r.kind,
                line@,
                events_reading(json_text(trim_of(line@))),
                event_reading(json_text(trim_of(line@))),
                json_text(trim_of(line@)),
            ),
    {
        let value = if starts_like_json(line) {
            let t = trim_text(line);
            read_json(t.as_str())
        } else {
            None
        };
        Self::from_json_reading(line, value)
    }

    /// Whether the entry is noise hidden from the Flutter tab.
    pub fn is_noise(&self) -> (r: bool)
        ensures
            r == noise(self.kind),
    {
        match &self.kind {
            FlutterLogKind::MachineJson(_) => true,
            FlutterLogKind::DaemonConnected => true,
            FlutterLogKind::DeviceAdded { .. } => true,
            FlutterLogKind::AppProgress { message, .. } => is_blank(message.as_str()),
            _ => false,
        }
    }

    /// The entry as plain text, for yanking and copying.
    pub fn to_plain_text(&self) -> (r: String)
        ensures
            r@ == plain_text(self.kind),
    {
        match &self.kind {
            FlutterLogKind::AppProgress { message, finished, .. } => {
                let mut out = if *finished { String::from_str("✓") } else { String::from_str("⏳") };
                out.append(" ");
                out.append(message.as_str());
                out
            },
            FlutterLogKind::AppLog { message, error } => {
                let mut out = if *error { String::from_str("✗") } else { String::from_str("│") };
                out.append(" ");
                out.append(strip_ansi(message.as_str()).as_str());
                out
            },
            FlutterLogKind::AppStarted => String::from_str("✓ App started"),
            FlutterLogKind::AppDebugPort { ws_uri } => {
                let mut out = String::from_str("🔗 Debug: ");
                out.append(ws_uri.as_str());
                out
            },
            FlutterLogKind::DaemonConnected => String::from_str("✓ Flutter daemon connected"),
            FlutterLogKind::DeviceAdded { name, platform } => {
                let mut out = String::from_str("📱 ");
                out.append(name.as_str());
                out.append(" (");
                out.append(platform.as_str());
                out.append(")");
                out
            },
            FlutterLogKind::AppWebLaunchUrl { url } => {
                let mut out = String::from_str("🌐 ");
                out.append(url.as_str());
                out
            },
            FlutterLogKind::Plain(text) => strip_ansi(text.as_str()),
            FlutterLogKind::MachineJson(json) => {
                let mut out = String::from_str("⚙ ");
                match get_str(json, "event") {
                    Some(e) => out.append(e),
                    None => out.append("unknown"),
                }
                out
            },
        }
    }
}

} // verus!
