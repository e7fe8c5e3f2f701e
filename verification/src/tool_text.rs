//! Short human-readable descriptions of the agent's tool calls and of what
//! they returned, as the chat shows them under each call.

use vstd::prelude::*;
use vstd::utf8::{decode_utf8, encode_utf8, is_char_boundary};
use crate::json::{
    get_bool, get_str, get_u64, json_bool, json_display, json_get, json_str, json_text, json_u64, print_json, read_json, Json,
};
use crate::chat::{ToolCall, ToolStatus};
use crate::event::{line_count, lines_in, newlines};
use crate::text::{chars_of, contains_text, decimal, first_chars, has_infix, push_decimal, push_decimal_u64, string_of};

verus! {

/// The string member `key` of `j`, or `d` where there is none.
pub open spec fn member_text(j: Json, key: Seq<char>, d: Seq<char>) -> Seq<char> {
    match json_str(json_get(j, key)) {
        Some(s) => s,
        None => d,
    }
}

/// The number of bytes of a text in UTF-8.
pub open spec fn byte_len(s: Seq<char>) -> nat {
    encode_utf8(s).len()
}

/// Cutting `s` after its first `n` bytes falls between two characters (or
/// `s` has no more than `n` bytes).
pub open spec fn cuts_cleanly(s: Seq<char>, n: nat) -> bool {
    byte_len(s) <= n || is_char_boundary(encode_utf8(s), n as int)
}

/// The text made of the first `n` bytes of `s` (all of `s` if it has fewer).
pub open spec fn byte_head(s: Seq<char>, n: nat) -> Seq<char> {
    let b = encode_utf8(s);
    decode_utf8(b.subrange(0, if b.len() <= n { b.len() as int } else { n as int }))
}

/// The first `n` bytes of `s`, where that cut falls between characters.
fn head_of(s: &str, n: usize) -> (r: Option<String>)
    ensures
        r is Some <==> cuts_cleanly(s@, n as nat),
        r matches Some(h) ==> h@ == byte_head(s@, n as nat),
{
    let len = s.as_bytes().len();
    let cut = if len <= n { len } else { n };
    proof {
        vstd::utf8::encode_utf8_valid_utf8(s@);
        vstd::utf8::is_char_boundary_start_end_of_seq(encode_utf8(s@));
    }
    if cut < len && !s.is_char_boundary(cut) {
        return None;
    }
    let (head, _) = s.split_at(cut);
    proof {
        vstd::utf8::encode_utf8_decode_utf8(head@);
    }
    Some(String::from_str(head))
}

/// The string member `key` of `j`, or `d`.
fn member_or<'a>(j: &'a Json, key: &str, d: &'a str) -> (r: &'a str)
    ensures
        r@ == member_text(*j, key@, d@),
{
    match get_str(j, key) {
        Some(s) => s,
        None => d,
    }
}

/// `a`, `b` and `c` one after the other.
fn concat3(a: &str, b: &str, c: &str) -> (r: String)
    ensures
        r@ == a@ + b@ + c@,
{
    let mut out = String::from_str(a);
    out.append(b);
    out.append(c);
    out
}

/// The length of an array member, or 0.
pub open spec fn array_len(v: Option<Json>) -> nat {
    match v {
        Some(Json::Array(a)) => a@.len(),
        _ => 0,
    }
}

/// What an `execute` call does to widget `id`; `dx` and `dy` are the
/// scroll amounts as printed.
pub open spec fn interaction_text(
    id: Seq<char>,
    interaction: Seq<char>,
    extra: Option<Json>,
    dx: Seq<char>,
    dy: Seq<char>,
) -> Seq<char> {
    if interaction == "enterText"@ && extra is Some {
        "Typing '"@ + member_text(extra->0, "text"@, "..."@) + "' into '"@ + id + "'"@
    } else if interaction == "tap"@ {
        "Tapping '"@ + id + "'"@
    } else if interaction == "doubleTap"@ {
        "Double-tapping '"@ + id + "'"@
    } else if interaction == "longPress"@ {
        "Long-pressing '"@ + id + "'"@
    } else if interaction == "scroll"@ && extra is Some {
        "Scrolling '"@ + id + "' by ("@ + dx + ", "@ + dy + ")"@
    } else {
        interaction + " on '"@ + id + "'"@
    }
}

/// The description of a call of tool `name` with arguments `args`; `dx`
/// and `dy` are the scroll amounts of an `execute` call's `args`, printed
/// as whole numbers.
pub open spec fn tool_args_text(name: Seq<char>, args: Json, dx: Seq<char>, dy: Seq<char>) -> Seq<char> {
    if name == "getTree"@ {
        "Fetching widget tree..."@
    } else if name == "getStatus"@ {
        "Checking app status..."@
    } else if name == "getLogs"@ {
        "Getting last "@ + decimal(
            match json_u64(json_get(args, "maxLines"@)) {
                Some(n) => n as nat,
                None => 100,
            },
        ) + " log lines"@
    } else if name == "getErrors"@ {
        "Checking for runtime errors..."@
    } else if name == "getState"@ {
        "Getting state of '"@ + member_text(args, "id"@, "?"@) + "'"@
    } else if name == "execute"@ {
        interaction_text(
            member_text(args, "id"@, "?"@),
            member_text(args, "interaction"@, "?"@),
            json_get(args, "args"@),
            dx,
            dy,
        )
    } else if name == "batch"@ {
        "Executing "@ + decimal(array_len(json_get(args, "steps"@))) + " steps in batch"@
    } else if name == "hotReload"@ {
        "Hot reloading app..."@
    } else if name == "hotRestart"@ {
        "Hot restarting app..."@
    } else if name == "runApp"@ {
        "Starting app on '"@ + member_text(args, "deviceId"@, "default"@) + "'"@
    } else if name == "stopApp"@ {
        "Stopping app..."@
    } else if name == "createSession"@ {
        "Creating session '"@ + member_text(args, "name"@, "?"@) + "'"@
    } else if name == "listSessions"@ {
        "Listing available sessions..."@
    } else if name == "connectSession"@ {
        "Connecting to session '"@ + byte_head(member_text(args, "sessionId"@, "?"@), 8) + "'"@
    } else if name == "destroySession"@ {
        "Destroying session..."@
    } else {
        let j = json_display(args);
        if byte_len(j) > 60 {
            first_chars(j, 60) + "..."@
        } else {
            j
        }
    }
}

fn interaction_description(id: &str, interaction: &str, extra: Option<&Json>, dx: &str, dy: &str) -> (r: String)
    ensures
        r@ == interaction_text(id@, interaction@, match extra {
            Some(x) => Some(*x),
            None => None,
        }, dx@, dy@),
{
    let is_enter = crate::app::str_eq(interaction, "enterText");
    let is_scroll = crate::app::str_eq(interaction, "scroll");
    match extra {
        Some(a) => {
            if is_enter {
                let mut out = concat3("Typing '", member_or(a, "text", "..."), "' into '");
                out.append(id);
                out.append("'");
                return out;
            }
        },
        None => {},
    }
    if crate::app::str_eq(interaction, "tap") {
        concat3("Tapping '", id, "'")
    } else if crate::app::str_eq(interaction, "doubleTap") {
        concat3("Double-tapping '", id, "'")
    } else if crate::app::str_eq(interaction, "longPress") {
        concat3("Long-pressing '", id, "'")
    } else if is_scroll && extra.is_some() {
        let mut out = concat3("Scrolling '", id, "' by (");
        out.append(dx);
        out.append(", ");
        out.append(dy);
        out.append(")");
        out
    } else {
        let mut out = concat3(interaction, " on '", id);
        out.append("'");
        out
    }
}

/// Describes a call of tool `name` with arguments `args` in a few words.
/// `dx` and `dy` are the scroll amounts of an `execute` call (its
/// `args.dx` and `args.dy`) printed as whole numbers; no other call reads
/// them. Other tools show their arguments as JSON, cut after 60
/// characters.
pub fn format_tool_args(name: &str, args: &Json, dx: &str, dy: &str) -> (r: String)
    requires
        name@ == "connectSession"@ ==> cuts_cleanly(member_text(*args, "sessionId"@, "?"@), 8),
    ensures
        r@ == tool_args_text(name@, *args, dx@, dy@),
{
    if crate::app::str_eq(name, "getTree") {
        String::from_str("Fetching widget tree...")
    } else if crate::app::str_eq(name, "getStatus") {
        String::from_str("Checking app status...")
    } else if crate::app::str_eq(name, "getLogs") {
        let n = match get_u64(args, "maxLines") {
            Some(n) => n,
            None => 100,
        };
        let mut out = String::from_str("Getting last ");
        push_decimal_u64(&mut out, n);
        out.append(" log lines");
        out
    } else if crate::app::str_eq(name, "getErrors") {
        String::from_str("Checking for runtime errors...")
    } else if crate::app::str_eq(name, "getState") {
        concat3("Getting state of '", member_or(args, "id", "?"), "'")
    } else if crate::app::str_eq(name, "execute") {
        interaction_description(
            member_or(args, "id", "?"),
            member_or(args, "interaction", "?"),
            args.get("args"),
            dx,
            dy,
        )
    } else if crate::app::str_eq(name, "batch") {
        let n = match args.get("steps") {
            Some(x) => match x.as_array() {
                Some(a) => a.len(),
                None => 0,
            },
            None => 0,
        };
        let mut out = String::from_str("Executing ");
        push_decimal(&mut out, n);
        out.append(" steps in batch");
        out
    } else if crate::app::str_eq(name, "hotReload") {
        String::from_str("Hot reloading app...")
    } else if crate::app::str_eq(name, "hotRestart") {
        String::from_str("Hot restarting app...")
    } else if crate::app::str_eq(name, "runApp") {
        concat3("Starting app on '", member_or(args, "deviceId", "default"), "'")
    } else if crate::app::str_eq(name, "stopApp") {
        String::from_str("Stopping app...")
    } else if crate::app::str_eq(name, "createSession") {
        concat3("Creating session '", member_or(args, "name", "?"), "'")
    } else if crate::app::str_eq(name, "listSessions") {
        String::from_str("Listing available sessions...")
    } else if crate::app::str_eq(name, "connectSession") {
        match head_of(member_or(args, "sessionId", "?"), 8) {
            Some(h) => concat3("Connecting to session '", h.as_str(), "'"),
            None => String::new(),
        }
    } else if crate::app::str_eq(name, "destroySession") {
        String::from_str("Destroying session...")
    } else {
        let j = print_json(args);
        if j.as_str().as_bytes().len() > 60 {
            let v = chars_of(j.as_str());
            let k = if v.len() < 60 { v.len() } else { 60 };
            let mut out = string_of(&v, 0, k);
            out.append("...");
            proof {
                assert(v@.subrange(0, v@.len() as int) =~= v@);
            }
            out
        } else {
            j
        }
    }
}

/// `n`, or `usize::MAX` where `n` is larger.
pub open spec fn capped(n: nat) -> nat {
    if n > usize::MAX {
        usize::MAX as nat
    } else {
        n
    }
}

/// The number of widgets in a tree node: the node and, through its
/// `children` array, all widgets below it.
pub open spec fn widget_count(j: Json) -> nat
    decreases j, 0int,
{
    1 + match j {
        Json::Object(ms) => {
            let i = crate::json::member_index(ms@, "children"@, 0);
            if 0 <= i < ms@.len() {
                match ms@[i].1 {
                    Json::Array(c) => {
                        proof {
                            assert(decreases_to!(j => ms));
                            assert(decreases_to!(ms => ms@));
                            assert(decreases_to!(ms@ => ms@[i]));
                            assert(decreases_to!(ms@[i] => ms@[i].1));
                            assert(decreases_to!(ms@[i].1 => c));
                            assert(decreases_to!(c => c@));
                        }
                        widgets_count(c@)
                    },
                    _ => 0,
                }
            } else {
                0
            }
        },
        _ => 0,
    }
}

/// The number of widgets in a list of tree nodes.
pub open spec fn widgets_count(items: Seq<Json>) -> nat
    decreases items, 1int,
{
    if items.len() == 0 {
        0
    } else {
        widgets_count(items.subrange(0, items.len() - 1)) + widget_count(items[items.len() - 1])
    }
}

proof fn lemma_capped_sum(a: nat, b: nat)
    ensures
        capped(capped(a) + capped(b)) == capped(a + b),
{
}

/// Counts the widgets of a tree node (at most `usize::MAX`).
fn count_widgets(node: &Json) -> (r: usize)
    ensures
        r == capped(widget_count(*node)),
    decreases node,
{
    let mut sum: usize = 0;
    let ghost mut items: Seq<Json> = seq![];
    match node {
        Json::Object(ms) => {
            let ghost i = crate::json::member_index(ms@, "children"@, 0);
            match node.get("children") {
                Some(Json::Array(c)) => {
                    proof {
                        assert(0 <= i < ms@.len() && ms@[i].1 == Json::Array(*c));
                        assert(decreases_to!(*node => ms));
                        assert(decreases_to!(ms => ms@));
                        assert(decreases_to!(ms@ => ms@[i]));
                        assert(decreases_to!(ms@[i] => ms@[i].1));
                        assert(decreases_to!(ms@[i].1 => *c));
                        assert(decreases_to!(*c => c@));
                        items = c@;
                    }
                    let n = c.len();
                    let mut k: usize = 0;
                    while k < n
                        invariant
                            n == c@.len(),
                            k <= n,
                            sum == capped(widgets_count(c@.subrange(0, k as int))),
                            decreases_to!(*node => c@),
                        decreases n - k,
                    {
                        proof {
                            assert(decreases_to!(c@ => c@[k as int]));
                        }
                        let w = count_widgets(&c[k]);
                        proof {
                            let pre = c@.subrange(0, k as int);
                            let next = c@.subrange(0, k + 1);
                            assert(next.subrange(0, next.len() - 1) =~= pre);
                            assert(next[next.len() - 1] == c@[k as int]);
                            lemma_capped_sum(widgets_count(pre), widget_count(c@[k as int]));
                        }
                        sum = sum.saturating_add(w);
                        k = k + 1;
                    }
                    proof {
                        assert(c@.subrange(0, n as int) =~= c@);
                    }
                },
                _ => {},
            }
        },
        _ => {},
    }
    proof {
        lemma_capped_sum(1, widgets_count(items));
    }
    1usize.saturating_add(sum)
}

/// Where the line that starts at `p` ends: the position of the next
/// newline, or the end of the text.
pub open spec fn line_end(s: Seq<char>, p: int) -> int
    decreases s.len() - p,
{
    if p < 0 || p >= s.len() {
        s.len() as int
    } else if s[p] == '\n' {
        p
    } else {
        line_end(s, p + 1)
    }
}

pub proof fn lemma_line_end(s: Seq<char>, p: int)
    requires
        0 <= p <= s.len(),
    ensures
        p <= line_end(s, p) <= s.len(),
    decreases s.len() - p,
{
    if p < s.len() && s[p] != '\n' {
        lemma_line_end(s, p + 1);
    }
}

/// `l` without one carriage return at its end.
pub open spec fn without_cr(l: Seq<char>) -> Seq<char> {
    if l.len() > 0 && l.last() == '\r' {
        l.drop_last()
    } else {
        l
    }
}

/// The lines of `s` from position `p` on, as `str::lines` gives them: split
/// at each newline, a carriage return before a newline dropped, and no
/// empty line after a final newline.
pub open spec fn lines_from(s: Seq<char>, p: int) -> Seq<Seq<char>>
    decreases s.len() - p,
{
    if p < 0 || p >= s.len() {
        seq![]
    } else {
        let e = line_end(s, p);
        proof {
            lemma_line_end(s, p);
        }
        let piece = s.subrange(p, e);
        if e < s.len() {
            seq![without_cr(piece)] + lines_from(s, e + 1)
        } else {
            seq![piece]
        }
    }
}

/// The lines of a text, as `str::lines` gives them.
pub open spec fn text_lines(s: Seq<char>) -> Seq<Seq<char>> {
    lines_from(s, 0)
}

proof fn lemma_newlines_concat(a: Seq<char>, b: Seq<char>)
    ensures
        newlines(a + b) == newlines(a) + newlines(b),
    decreases b.len(),
{
    if b.len() > 0 {
        assert((a + b).drop_last() =~= a + b.drop_last());
        lemma_newlines_concat(a, b.drop_last());
    } else {
        assert(a + b =~= a);
    }
}

proof fn lemma_no_newlines_upto(s: Seq<char>, p: int, e: int)
    requires
        0 <= p <= e <= s.len(),
        forall|k: int| p <= k < e ==> s[k] != '\n',
    ensures
        newlines(s.subrange(p, e)) == 0,
    decreases e - p,
{
    if e > p {
        assert(s.subrange(p, e).drop_last() =~= s.subrange(p, e - 1));
        lemma_no_newlines_upto(s, p, e - 1);
    }
}

proof fn lemma_line_end_props(s: Seq<char>, p: int)
    requires
        0 <= p <= s.len(),
    ensures
        p <= line_end(s, p) <= s.len(),
        line_end(s, p) < s.len() ==> s[line_end(s, p)] == '\n',
        forall|k: int| p <= k < line_end(s, p) ==> s[k] != '\n',
    decreases s.len() - p,
{
    if p < s.len() && s[p] != '\n' {
        lemma_line_end_props(s, p + 1);
    }
}

/// Counting lines by their newlines agrees with splitting the text into
/// lines: [`line_count`] counts the lines that [`text_lines`] gives.
pub proof fn lemma_lines_in(s: Seq<char>)
    ensures
        lines_in(s) == text_lines(s).len(),
{
    lemma_lines_from_len(s, 0);
    assert(s.subrange(0, s.len() as int) =~= s);
}

proof fn lemma_lines_from_len(s: Seq<char>, p: int)
    requires
        0 <= p <= s.len(),
    ensures
        lines_from(s, p).len() == newlines(s.subrange(p, s.len() as int)) + if p < s.len() && s.last() != '\n' {
            1nat
        } else {
            0nat
        },
    decreases s.len() - p,
{
    if p < s.len() {
        let e = line_end(s, p);
        lemma_line_end_props(s, p);
        lemma_no_newlines_upto(s, p, e);
        if e < s.len() {
            lemma_lines_from_len(s, e + 1);
            let tail = s.subrange(p, s.len() as int);
            assert(tail =~= s.subrange(p, e) + seq!['\n'] + s.subrange(e + 1, s.len() as int));
            lemma_newlines_concat(s.subrange(p, e) + seq!['\n'], s.subrange(e + 1, s.len() as int));
            lemma_newlines_concat(s.subrange(p, e), seq!['\n']);
            assert(newlines(seq!['\n']) == 1) by {
                assert(seq!['\n'].drop_last() =~= Seq::<char>::empty());
                assert(newlines(Seq::<char>::empty()) == 0);
                assert(seq!['\n'].last() == '\n');
            }
            if e + 1 == s.len() {
                assert(s.last() == '\n');
            }
        } else {
            assert(s.subrange(p, s.len() as int) =~= s.subrange(p, e));
            assert(s.last() == s[s.len() - 1]);
        }
    }
}

/// The first three lines of a text (fewer if it has fewer).
pub open spec fn first_three(s: Seq<char>) -> Seq<Seq<char>> {
    let ls = text_lines(s);
    ls.take(if ls.len() < 3 { ls.len() as int } else { 3 })
}

/// A line of output as shown: indented, and past 80 bytes cut to its
/// first 77 bytes and an ellipsis.
pub open spec fn clip_line(l: Seq<char>) -> Seq<char> {
    if byte_len(l) > 80 {
        "  "@ + byte_head(l, 77) + "..."@
    } else {
        "  "@ + l
    }
}

/// A line can be shown: a long one is cut between characters.
pub open spec fn clips_cleanly(l: Seq<char>) -> bool {
    byte_len(l) > 80 ==> cuts_cleanly(l, 77)
}

/// The views of some strings.
pub open spec fn texts(v: Seq<String>) -> Seq<Seq<char>> {
    v.map_values(|x: String| x@)
}

/// Output shown as text: its first three lines, clipped.
pub open spec fn plain_output(s: Seq<char>) -> Seq<Seq<char>> {
    first_three(s).map_values(|l: Seq<char>| clip_line(l))
}

/// Each of the first three lines of `s` can be shown.
pub open spec fn plain_output_ok(s: Seq<char>) -> bool {
    forall|i: int| 0 <= i < first_three(s).len() ==> clips_cleanly(#[trigger] first_three(s)[i])
}

/// The first three lines of `output`, clipped; `None` where a long line
/// cannot be cut between characters after 77 bytes.
fn plain_output_lines(output: &str) -> (r: Option<Vec<String>>)
    ensures
        r is Some <==> plain_output_ok(output@),
        r matches Some(v) ==> texts(v@) == plain_output(output@),
{
    let v = chars_of(output);
    let ghost s = output@;
    let n = v.len();
    let mut out: Vec<String> = Vec::new();
    let ghost mut raw: Seq<Seq<char>> = seq![];
    let mut pos: usize = 0;
    while pos < n && out.len() < 3
        invariant
            s == output@,
            v@ == s,
            n == s.len(),
            pos <= n,
            out@.len() == raw.len(),
            raw.len() <= 3,
            text_lines(s) == raw + lines_from(s, pos as int),
            forall|j: int| 0 <= j < raw.len() ==> (#[trigger] out@[j])@ == clip_line(raw[j]),
            forall|j: int| 0 <= j < raw.len() ==> clips_cleanly(#[trigger] raw[j]),
        decreases n - pos,
    {
        let mut e = pos;
        while e < n && v[e] != '\n'
            invariant
                v@ == s,
                n == s.len(),
                pos <= e <= n,
                line_end(s, pos as int) == line_end(s, e as int),
            decreases n - e,
        {
            e = e + 1;
        }
        let mut stop = e;
        if e < n && e > pos && v[e - 1] == '\r' {
            stop = e - 1;
        }
        let line = string_of(&v, pos, stop);
        let ghost piece = s.subrange(pos as int, e as int);
        proof {
            assert(line_end(s, pos as int) == e);
            let l = if e < n { without_cr(piece) } else { piece };
            assert(line@ =~= l);
            if e < n {
                assert(lines_from(s, pos as int) == seq![l] + lines_from(s, e + 1));
                assert(raw + lines_from(s, pos as int) =~= raw.push(l) + lines_from(s, e + 1));
            } else {
                assert(lines_from(s, pos as int) == seq![l]);
                assert(lines_from(s, n as int) =~= seq![]);
                assert(raw + lines_from(s, pos as int) =~= raw.push(l) + lines_from(s, n as int));
            }
        }
        let ghost next: int = if e < n { e + 1 } else { n as int };
        assert(text_lines(s) == raw.push(line@) + lines_from(s, next));
        let clipped = if line.as_str().as_bytes().len() > 80 {
            match head_of(line.as_str(), 77) {
                Some(h) => concat3("  ", h.as_str(), "..."),
                None => {
                    proof {
                        let j = raw.len() as int;
                        assert(text_lines(s)[j] == line@);
                        assert(first_three(s)[j] == line@);
                        assert(!clips_cleanly(first_three(s)[j]));
                    }
                    return None;
                },
            }
        } else {
            let mut t = String::from_str("  ");
            t.append(line.as_str());
            t
        };
        proof {
            raw = raw.push(line@);
        }
        out.push(clipped);
        pos = if e < n { e + 1 } else { n };
    }
    proof {
        let ls = text_lines(s);
        if raw.len() < 3 {
            assert(lines_from(s, pos as int) =~= seq![]);
            assert(ls =~= raw);
        }
        assert(first_three(s) =~= raw);
        assert(texts(out@) =~= plain_output(s));
    }
    Some(out)
}

/// A log line that reports an error.
pub open spec fn is_error_log(j: Json) -> bool {
    match j {
        Json::String(t) => has_infix(t@, "ERROR"@) || has_infix(t@, "Exception"@),
        _ => false,
    }
}

/// The number of log lines that report an error.
pub open spec fn error_logs(items: Seq<Json>) -> nat
    decreases items.len(),
{
    if items.len() == 0 {
        0
    } else {
        error_logs(items.drop_last()) + if is_error_log(items.last()) {
            1nat
        } else {
            0nat
        }
    }
}

/// Member `key` of `j` is `true`.
pub open spec fn says_true(j: Json, key: Seq<char>) -> bool {
    json_bool(json_get(j, key)) == Some(true)
}

/// What a JSON result of tool `name` is summarized as; `None` where it is
/// shown as plain text instead.
pub open spec fn parsed_lines(name: Seq<char>, j: Json) -> Option<Seq<Seq<char>>> {
    if name == "getStatus"@ {
        let vm = says_true(j, "vmConnected"@);
        let first = "  "@ + (if vm {
            "✓"@
        } else {
            "✗"@
        }) + " App: "@ + (if vm {
            "Running"@
        } else {
            "Not running"@
        });
        Some(
            match json_str(json_get(j, "currentSessionId"@)) {
                Some(sid) => seq![first, "  Session: "@ + byte_head(sid, 8)],
                None => seq![first],
            },
        )
    } else if name == "getTree"@ {
        match json_get(j, "tree"@) {
            Some(t) => Some(seq!["  Found "@ + decimal(capped(widget_count(t))) + " interactable widgets"@]),
            None => None,
        }
    } else if name == "execute"@ {
        if says_true(j, "success"@) {
            Some(seq!["  ✓ Action completed"@])
        } else {
            Some(seq!["  ✗ Failed: "@ + member_text(j, "error"@, "Unknown error"@)])
        }
    } else if name == "getLogs"@ {
        match json_get(j, "logs"@) {
            Some(Json::Array(logs)) => {
                let first = "  "@ + decimal(logs@.len()) + " log lines"@;
                let errors = error_logs(logs@);
                Some(
                    if errors > 0 {
                        seq![first, "  ⚠ "@ + decimal(errors) + " errors found"@]
                    } else {
                        seq![first]
                    },
                )
            },
            _ => None,
        }
    } else if name == "getErrors"@ {
        match json_get(j, "errors"@) {
            Some(Json::Array(es)) => Some(
                if es@.len() == 0 {
                    seq!["  ✓ No runtime errors"@]
                } else {
                    seq!["  ⚠ "@ + decimal(es@.len()) + " runtime errors"@]
                },
            ),
            _ => None,
        }
    } else if name == "createSession"@ || name == "connectSession"@ {
        if says_true(j, "created"@) || says_true(j, "connected"@) {
            match json_get(j, "session"@) {
                Some(sess) => Some(seq!["  ✓ Session: "@ + byte_head(member_text(sess, "id"@, "?"@), 8)]),
                None => None,
            }
        } else {
            None
        }
    } else if name == "hotReload"@ || name == "hotRestart"@ {
        if says_true(j, "success"@) {
            Some(seq!["  ✓ Reload complete"@])
        } else {
            None
        }
    } else if name == "listSessions"@ {
        match json_get(j, "sessions"@) {
            Some(Json::Array(ss)) => Some(
                if ss@.len() == 0 {
                    seq!["  No sessions found"@]
                } else {
                    seq!["  Found "@ + decimal(ss@.len()) + " sessions"@]
                },
            ),
            _ => None,
        }
    } else {
        None
    }
}

/// The session ids that the summary of a JSON result shortens to 8 bytes
/// can be cut there.
pub open spec fn parsed_cuts_cleanly(name: Seq<char>, j: Json) -> bool {
    if name == "getStatus"@ {
        match json_str(json_get(j, "currentSessionId"@)) {
            Some(sid) => cuts_cleanly(sid, 8),
            None => true,
        }
    } else if name == "getTree"@ || name == "execute"@ || name == "getLogs"@ || name == "getErrors"@ {
        true
    } else if (name == "createSession"@ || name == "connectSession"@) && (says_true(j, "created"@) || says_true(
        j,
        "connected"@,
    )) {
        match json_get(j, "session"@) {
            Some(sess) => cuts_cleanly(member_text(sess, "id"@, "?"@), 8),
            None => true,
        }
    } else {
        true
    }
}

/// What tool `name` returning `output` is summarized as: a JSON result of
/// a known tool in words, anything else as its first three lines.
pub open spec fn tool_output_lines(name: Seq<char>, output: Seq<char>) -> Seq<Seq<char>> {
    match json_text(output) {
        Some(j) => match parsed_lines(name, j) {
            Some(ls) => ls,
            None => plain_output(output),
        },
        None => plain_output(output),
    }
}

/// The summary of `output` cuts no text in the middle of a character.
pub open spec fn tool_output_ok(name: Seq<char>, output: Seq<char>) -> bool {
    match json_text(output) {
        Some(j) => match parsed_lines(name, j) {
            Some(_) => parsed_cuts_cleanly(name, j),
            None => plain_output_ok(output),
        },
        None => plain_output_ok(output),
    }
}

fn count_error_logs(logs: &Vec<Json>) -> (r: usize)
    ensures
        r == error_logs(logs@),
{
    let mut count: usize = 0;
    let mut k: usize = 0;
    while k < logs.len()
        invariant
            k <= logs@.len(),
            count <= k,
            count == error_logs(logs@.subrange(0, k as int)),
        decreases logs@.len() - k,
    {
        proof {
            assert(logs@.subrange(0, k + 1).drop_last() =~= logs@.subrange(0, k as int));
        }
        match &logs[k] {
            Json::String(t) => {
                if contains_text(t.as_str(), "ERROR") || contains_text(t.as_str(), "Exception") {
                    count = count + 1;
                }
            },
            _ => {},
        }
        k = k + 1;
    }
    proof {
        assert(logs@.subrange(0, logs@.len() as int) =~= logs@);
    }
    count
}

/// `pre`, the number `n` and `post`.
fn with_count(pre: &str, n: usize, post: &str) -> (r: String)
    ensures
        r@ == pre@ + decimal(n as nat) + post@,
{
    let mut out = String::from_str(pre);
    push_decimal(&mut out, n);
    out.append(post);
    out
}

/// The summary of a JSON result: `None` where a session id cannot be cut
/// after 8 bytes, else the lines, or `None` inside where the result is
/// shown as plain text.
fn parsed_output(name: &str, j: &Json) -> (r: Option<Option<Vec<String>>>)
    ensures
        match r {
            None => !parsed_cuts_cleanly(name@, *j),
            Some(x) => parsed_cuts_cleanly(name@, *j) && match x {
                None => parsed_lines(name@, *j) is None,
                Some(v) => parsed_lines(name@, *j) == Some(texts(v@)),
            },
        },
{
    let says = |key: &str| -> (b: bool)
        ensures
            b == says_true(*j, key@),
        {
            match get_bool(j, key) {
                Some(b) => b,
                None => false,
            }
        };
    if crate::app::str_eq(name, "getStatus") {
        let vm = says("vmConnected");
        let mut first = String::from_str("  ");
        first.append(if vm { "✓" } else { "✗" });
        first.append(" App: ");
        first.append(if vm { "Running" } else { "Not running" });
        let mut v: Vec<String> = Vec::new();
        v.push(first);
        match get_str(j, "currentSessionId") {
            Some(sid) => match head_of(sid, 8) {
                Some(h) => {
                    let mut t = String::from_str("  Session: ");
                    t.append(h.as_str());
                    v.push(t);
                },
                None => {
                    assert(!cuts_cleanly(sid@, 8));
                    assert(json_str(json_get(*j, "currentSessionId"@)) == Some(sid@));
                    assert(!parsed_cuts_cleanly(name@, *j));
                    return None;
                },
            },
            None => {},
        }
        proof {
            assert(Some(texts(v@)) == parsed_lines(name@, *j));
        }
        Some(Some(v))
    } else if crate::app::str_eq(name, "getTree") {
        match j.get("tree") {
            Some(t) => {
                let line = with_count("  Found ", count_widgets(t), " interactable widgets");
                let v = vec![line];
                proof {
                    assert(texts(v@) =~= seq![line@]);
                }
                Some(Some(v))
            },
            None => Some(None),
        }
    } else if crate::app::str_eq(name, "execute") {
        let line = if says("success") {
            String::from_str("  ✓ Action completed")
        } else {
            let mut t = String::from_str("  ✗ Failed: ");
            t.append(member_or(j, "error", "Unknown error"));
            t
        };
        let v = vec![line];
        proof {
            assert(texts(v@) =~= seq![line@]);
        }
        Some(Some(v))
    } else if crate::app::str_eq(name, "getLogs") {
        match j.get("logs") {
            Some(Json::Array(logs)) => {
                let mut v: Vec<String> = Vec::new();
                v.push(with_count("  ", logs.len(), " log lines"));
                let errors = count_error_logs(logs);
                if errors > 0 {
                    v.push(with_count("  ⚠ ", errors, " errors found"));
                }
                proof {
                    assert(Some(texts(v@)) == parsed_lines(name@, *j));
                }
                Some(Some(v))
            },
            _ => Some(None),
        }
    } else if crate::app::str_eq(name, "getErrors") {
        match j.get("errors") {
            Some(Json::Array(es)) => {
                let line = if es.len() == 0 {
                    String::from_str("  ✓ No runtime errors")
                } else {
                    with_count("  ⚠ ", es.len(), " runtime errors")
                };
                let v = vec![line];
                proof {
                    assert(texts(v@) =~= seq![line@]);
                }
                Some(Some(v))
            },
            _ => Some(None),
        }
    } else if crate::app::str_eq(name, "createSession") || crate::app::str_eq(name, "connectSession") {
        if says("created") || says("connected") {
            match j.get("session") {
                Some(sess) => match head_of(member_or(sess, "id", "?"), 8) {
                    Some(h) => {
                        let mut t = String::from_str("  ✓ Session: ");
                        t.append(h.as_str());
                        let v = vec![t];
                        proof {
                            assert(texts(v@) =~= seq![t@]);
                        }
                        Some(Some(v))
                    },
                    None => {
                        assert(json_get(*j, "session"@) == Some(*sess));
                        assert(!cuts_cleanly(member_text(*sess, "id"@, "?"@), 8));
                        assert(!parsed_cuts_cleanly(name@, *j));
                        None
                    },
                },
                None => Some(None),
            }
        } else {
            Some(None)
        }
    } else if crate::app::str_eq(name, "hotReload") || crate::app::str_eq(name, "hotRestart") {
        if says("success") {
            let v = vec![String::from_str("  ✓ Reload complete")];
            proof {
                assert(texts(v@) =~= seq!["  ✓ Reload complete"@]);
            }
            Some(Some(v))
        } else {
            Some(None)
        }
    } else if crate::app::str_eq(name, "listSessions") {
        match j.get("sessions") {
            Some(Json::Array(ss)) => {
                let line = if ss.len() == 0 {
                    String::from_str("  No sessions found")
                } else {
                    with_count("  Found ", ss.len(), " sessions")
                };
                let v = vec![line];
                proof {
                    assert(texts(v@) =~= seq![line@]);
                }
                Some(Some(v))
            },
            _ => Some(None),
        }
    } else {
        Some(None)
    }
}

/// Summarizes what tool `name` returned, as [`format_tool_output`] does;
/// `None` where that would cut a text in the middle of a character.
fn summarize_output(name: &str, output: &str) -> (r: Option<Vec<String>>)
    ensures
        r is Some <==> tool_output_ok(name@, output@),
        r matches Some(v) ==> texts(v@) == tool_output_lines(name@, output@),
{
    match read_json(output) {
        Some(j) => match parsed_output(name, &j) {
            None => None,
            Some(Some(v)) => Some(v),
            Some(None) => plain_output_lines(output),
        },
        None => plain_output_lines(output),
    }
}

/// Summarizes in a few lines what tool `name` returned: the JSON result of
/// a known tool in words, anything else as its first three lines, each
/// indented and cut after 77 bytes when longer than 80.
pub fn format_tool_output(name: &str, output: &str) -> (r: Vec<String>)
    requires
        tool_output_ok(name@, output@),
    ensures
        texts(r@) == tool_output_lines(name@, output@),
{
    match summarize_output(name, output) {
        Some(v) => v,
        None => Vec::new(),
    }
}

/// [`format_tool_output`] where it can be run: `None` where the summary
/// would cut a text in the middle of a character.
pub fn try_format_tool_output(name: &str, output: &str) -> (r: Option<Vec<String>>)
    ensures
        r is Some <==> tool_output_ok(name@, output@),
        r matches Some(v) ==> texts(v@) == tool_output_lines(name@, output@),
{
    if summarize_output(name, output).is_some() {
        Some(format_tool_output(name, output))
    } else {
        None
    }
}

/// The sign shown before a tool call in each status.
pub open spec fn status_icon(s: ToolStatus) -> Seq<char> {
    match s {
        ToolStatus::Running => "⟳"@,
        ToolStatus::Success => "✓"@,
        ToolStatus::Failed => "✗"@,
    }
}

/// The lines shown for a tool call: its status and name, what it does,
/// then, once it returned, the summary of its output and, for output of
/// more than three lines, how many more there are.
pub open spec fn call_lines(c: ToolCall, dx: Seq<char>, dy: Seq<char>) -> Seq<Seq<char>> {
    let head = seq![status_icon(c.status) + " "@ + c.name@, "  "@ + tool_args_text(c.name@, c.args, dx, dy)];
    match c.output {
        None => head,
        Some(o) => {
            let total = text_lines(o@).len();
            head + tool_output_lines(c.name@, o@) + if total > 3 {
                seq!["  [+"@ + decimal((total - 3) as nat) + " more lines - press 'e' to expand]"@]
            } else {
                seq![]
            }
        },
    }
}

/// A tool call can be shown without cutting a text in the middle of a
/// character.
pub open spec fn call_ok(c: ToolCall) -> bool {
    &&& c.name@ == "connectSession"@ ==> cuts_cleanly(member_text(c.args, "sessionId"@, "?"@), 8)
    &&& c.output matches Some(o) ==> tool_output_ok(c.name@, o@)
}

/// The lines shown for a tool call (see [`call_lines`]); `dx` and `dy` are
/// the scroll amounts of an `execute` call printed as whole numbers.
/// `None` where a text would be cut in the middle of a character.
pub fn tool_call_lines(call: &ToolCall, dx: &str, dy: &str) -> (r: Option<Vec<String>>)
    ensures
        r is Some <==> call_ok(*call),
        r matches Some(v) ==> texts(v@) == call_lines(*call, dx@, dy@),
{
    let name = call.name.as_str();
    if crate::app::str_eq(name, "connectSession") && head_of(member_or(&call.args, "sessionId", "?"), 8).is_none() {
        return None;
    }
    let icon = match call.status {
        ToolStatus::Running => "⟳",
        ToolStatus::Success => "✓",
        ToolStatus::Failed => "✗",
    };
    let mut v: Vec<String> = Vec::new();
    v.push(concat3(icon, " ", name));
    let args = format_tool_args(name, &call.args, dx, dy);
    let mut second = String::from_str("  ");
    second.append(args.as_str());
    v.push(second);
    proof {
        assert(v@[1]@ =~= "  "@ + tool_args_text(call.name@, call.args, dx@, dy@));
        assert(texts(v@) =~= seq![status_icon(call.status) + " "@ + call.name@, "  "@ + tool_args_text(call.name@, call.args, dx@, dy@)]);
    }
    match &call.output {
        None => Some(v),
        Some(o) => match try_format_tool_output(name, o.as_str()) {
            None => None,
            Some(mut lines) => {
                let ghost head = texts(v@);
                let ghost body = texts(lines@);
                v.append(&mut lines);
                proof {
                    assert(texts(v@) =~= head + body);
                }
                let total = line_count(o.as_str());
                proof {
                    lemma_lines_in(o@);
                }
                if total > 3 {
                    let ghost before = texts(v@);
                    v.push(with_count("  [+", total - 3, " more lines - press 'e' to expand]"));
                    proof {
                        assert(texts(v@) =~= before + seq!["  [+"@ + decimal((total - 3) as nat) + " more lines - press 'e' to expand]"@]);
                    }
                } else {
                    assert(texts(v@) =~= head + body + seq![]);
                }
                Some(v)
            },
        },
    }
}

} // verus!
