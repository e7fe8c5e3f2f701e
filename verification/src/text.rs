//! Character-level helpers shared by the formatters and parsers.

use vstd::prelude::*;
use vstd::string::*;

verus! {

/// The decimal digit character for `d`.
pub open spec fn digit_char(d: nat) -> char {
    if d == 0 { '0' }
    else if d == 1 { '1' }
    else if d == 2 { '2' }
    else if d == 3 { '3' }
    else if d == 4 { '4' }
    else if d == 5 { '5' }
    else if d == 6 { '6' }
    else if d == 7 { '7' }
    else if d == 8 { '8' }
    else { '9' }
}

/// The decimal rendering of `n`, without sign or leading zeros.
pub open spec fn decimal(n: nat) -> Seq<char>
    decreases n,
{
    if n < 10 {
        seq![digit_char(n)]
    } else {
        decimal(n / 10).push(digit_char(n % 10))
    }
}

/// Appends one character to a string (`String::push`).
#[verifier::external_body]
pub(crate) fn push_char(s: &mut String, c: char)
    ensures
        final(s)@ == old(s)@.push(c),
{
    s.push(c)
}

fn digit_to_char(d: usize) -> (c: char)
    requires
        d < 10,
    ensures
        c == digit_char(d as nat),
{
    if d == 0 { '0' }
    else if d == 1 { '1' }
    else if d == 2 { '2' }
    else if d == 3 { '3' }
    else if d == 4 { '4' }
    else if d == 5 { '5' }
    else if d == 6 { '6' }
    else if d == 7 { '7' }
    else if d == 8 { '8' }
    else { '9' }
}

/// Appends the decimal rendering of `n`.
pub fn push_decimal(s: &mut String, n: usize)
    ensures
        final(s)@ == old(s)@ + decimal(n as nat),
    decreases n,
{
    if n < 10 {
        push_char(s, digit_to_char(n));
        assert(decimal(n as nat) == seq![digit_char(n as nat)]);
    } else {
        push_decimal(s, n / 10);
        push_char(s, digit_to_char(n % 10));
    }
}

/// Appends the decimal rendering of `n`.
pub fn push_decimal_u64(s: &mut String, n: u64)
    ensures
        final(s)@ == old(s)@ + decimal(n as nat),
    decreases n,
{
    if n < 10 {
        push_char(s, digit_to_char(n as usize));
        assert(decimal(n as nat) == seq![digit_char(n as nat)]);
    } else {
        push_decimal_u64(s, n / 10);
        push_char(s, digit_to_char((n % 10) as usize));
    }
}

/// Position of the first occurrence of `c` in `s`, if any.
#[verifier::opaque]
pub open spec fn first_index(s: Seq<char>, c: char) -> Option<int> {
    if exists|i: int| 0 <= i < s.len() && s[i] == c {
        Some(choose|i: int| 0 <= i < s.len() && s[i] == c && forall|j: int| 0 <= j < i ==> s[j] != c)
    } else {
        None
    }
}

/// The first occurrence is well defined: it is the least index holding `c`.
pub proof fn lemma_first_index(s: Seq<char>, c: char, i: int)
    requires
        0 <= i < s.len(),
        s[i] == c,
        forall|j: int| 0 <= j < i ==> s[j] != c,
    ensures
        first_index(s, c) == Some(i),
{
    reveal(first_index);
    let k = choose|k: int| 0 <= k < s.len() && s[k] == c && forall|j: int| 0 <= j < k ==> s[j] != c;
    assert(0 <= k < s.len() && s[k] == c && forall|j: int| 0 <= j < k ==> s[j] != c);
    if k < i {
        assert(s[k] != c);
    }
    if i < k {
        assert(s[i] != c);
    }
}

/// What `first_index` promises.
pub proof fn lemma_first_index_props(s: Seq<char>, c: char)
    ensures
        match first_index(s, c) {
            Some(i) => 0 <= i < s.len() && s[i] == c && forall|j: int| 0 <= j < i ==> s[j] != c,
            None => forall|j: int| 0 <= j < s.len() ==> s[j] != c,
        },
{
    reveal(first_index);
    if exists|i: int| 0 <= i < s.len() && s[i] == c {
        let i0 = choose|i: int| 0 <= i < s.len() && s[i] == c;
        lemma_least_occurrence(s, c, i0);
    }
}

proof fn lemma_least_occurrence(s: Seq<char>, c: char, i: int)
    requires
        0 <= i < s.len(),
        s[i] == c,
    ensures
        exists|k: int| 0 <= k < s.len() && s[k] == c && forall|j: int| 0 <= j < k ==> s[j] != c,
    decreases i,
{
    if exists|j: int| 0 <= j < i && s[j] == c {
        let j = choose|j: int| 0 <= j < i && s[j] == c;
        lemma_least_occurrence(s, c, j);
    } else {
        assert(0 <= i < s.len() && s[i] == c && forall|j: int| 0 <= j < i ==> s[j] != c);
    }
}

/// No occurrence means no first occurrence.
pub proof fn lemma_first_index_none(s: Seq<char>, c: char)
    requires
        forall|j: int| 0 <= j < s.len() ==> s[j] != c,
    ensures
        first_index(s, c) is None,
{
    reveal(first_index);
}

/// The characters of a string, one per element.
pub fn chars_of(s: &str) -> (v: Vec<char>)
    ensures
        v@ == s@,
{
    let n = s.unicode_len();
    let mut v: Vec<char> = Vec::new();
    let mut i: usize = 0;
    while i < n
        invariant
            n == s@.len(),
            i <= n,
            v@ == s@.subrange(0, i as int),
        decreases n - i,
    {
        v.push(s.get_char(i));
        i = i + 1;
    }
    v
}

/// The string made of `v[lo..hi]`.
pub fn string_of(v: &Vec<char>, lo: usize, hi: usize) -> (s: String)
    requires
        lo <= hi <= v.len(),
    ensures
        s@ == v@.subrange(lo as int, hi as int),
{
    let mut s = String::new();
    let mut i = lo;
    while i < hi
        invariant
            lo <= i <= hi <= v.len(),
            s@ == v@.subrange(lo as int, i as int),
        decreases hi - i,
    {
        push_char(&mut s, v[i]);
        i = i + 1;
    }
    s
}

/// Index of the first `c` in `v[lo..hi]`, counted from `lo`.
pub fn find_in(v: &Vec<char>, lo: usize, hi: usize, c: char) -> (r: Option<usize>)
    requires
        lo <= hi <= v.len(),
    ensures
        match r {
            Some(k) => lo <= k < hi && first_index(v@.subrange(lo as int, hi as int), c) == Some(k - lo),
            None => first_index(v@.subrange(lo as int, hi as int), c) is None,
        },
{
    let ghost sub = v@.subrange(lo as int, hi as int);
    let mut i = lo;
    while i < hi
        invariant
            lo <= i <= hi <= v.len(),
            sub == v@.subrange(lo as int, hi as int),
            forall|j: int| 0 <= j < i - lo ==> sub[j] != c,
        decreases hi - i,
    {
        if v[i] == c {
            proof { lemma_first_index(sub, c, i - lo); }
            return Some(i);
        }
        i = i + 1;
    }
    proof { lemma_first_index_none(sub, c); }
    None
}


/// Lexicographic order on character sequences, by code point (the order
/// of their UTF-8 bytes); a proper
/// prefix comes first. This is the order of `str`'s `Ord`.
pub open spec fn lex_lt(a: Seq<char>, b: Seq<char>) -> bool
    decreases a.len(),
{
    if a.len() == 0 {
        b.len() > 0
    } else if b.len() == 0 {
        false
    } else if a[0] != b[0] {
        a[0] < b[0]
    } else {
        lex_lt(a.drop_first(), b.drop_first())
    }
}

pub proof fn lemma_lex_irreflexive(a: Seq<char>)
    ensures
        !lex_lt(a, a),
    decreases a.len(),
{
    if a.len() > 0 {
        lemma_lex_irreflexive(a.drop_first());
    }
}

pub proof fn lemma_lex_asymmetric(a: Seq<char>, b: Seq<char>)
    ensures
        !(lex_lt(a, b) && lex_lt(b, a)),
    decreases a.len(),
{
    if a.len() > 0 && b.len() > 0 && a[0] == b[0] {
        lemma_lex_asymmetric(a.drop_first(), b.drop_first());
    }
}

pub proof fn lemma_lex_transitive(a: Seq<char>, b: Seq<char>, c: Seq<char>)
    requires
        lex_lt(a, b),
        lex_lt(b, c),
    ensures
        lex_lt(a, c),
    decreases a.len(),
{
    if a.len() > 0 && b.len() > 0 && c.len() > 0 && a[0] == b[0] && b[0] == c[0] {
        lemma_lex_transitive(a.drop_first(), b.drop_first(), c.drop_first());
    }
}

pub proof fn lemma_lex_total(a: Seq<char>, b: Seq<char>)
    ensures
        a == b || lex_lt(a, b) || lex_lt(b, a),
    decreases a.len(),
{
    if a.len() > 0 && b.len() > 0 {
        if a[0] == b[0] {
            lemma_lex_total(a.drop_first(), b.drop_first());
            if a.drop_first() == b.drop_first() {
                assert(a =~= seq![a[0]] + a.drop_first());
                assert(b =~= seq![b[0]] + b.drop_first());
            }
        }
    } else if a.len() == 0 && b.len() == 0 {
        assert(a =~= b);
    }
}

proof fn lemma_lex_skip(a: Seq<char>, b: Seq<char>, i: int)
    requires
        0 <= i <= a.len(),
        i <= b.len(),
        a.take(i) == b.take(i),
    ensures
        lex_lt(a, b) == lex_lt(a.skip(i), b.skip(i)),
    decreases i,
{
    if i > 0 {
        assert(a[0] == a.take(i)[0]);
        assert(b[0] == b.take(i)[0]);
        assert(a.drop_first().take(i - 1) =~= a.take(i).drop_first());
        assert(b.drop_first().take(i - 1) =~= b.take(i).drop_first());
        lemma_lex_skip(a.drop_first(), b.drop_first(), i - 1);
        assert(a.drop_first().skip(i - 1) =~= a.skip(i));
        assert(b.drop_first().skip(i - 1) =~= b.skip(i));
    } else {
        assert(a.skip(0) =~= a);
        assert(b.skip(0) =~= b);
    }
}

/// Whether `a` comes before `b` in lexicographic order.
pub fn str_less(a: &str, b: &str) -> (r: bool)
    ensures
        r == lex_lt(a@, b@),
{
    let va = chars_of(a);
    let vb = chars_of(b);
    let na = va.len();
    let nb = vb.len();
    let mut i: usize = 0;
    while i < na && i < nb && va[i] == vb[i]
        invariant
            va@ == a@,
            vb@ == b@,
            na == va@.len(),
            nb == vb@.len(),
            i <= na,
            i <= nb,
            va@.take(i as int) == vb@.take(i as int),
        decreases na - i,
    {
        assert(va@.take(i + 1) =~= va@.take(i as int).push(va@[i as int]));
        assert(vb@.take(i + 1) =~= vb@.take(i as int).push(vb@[i as int]));
        i = i + 1;
    }
    proof {
        lemma_lex_skip(va@, vb@, i as int);
        let sa = va@.skip(i as int);
        let sb = vb@.skip(i as int);
        if i < na && i < nb {
            assert(sa[0] == va@[i as int]);
            assert(sb[0] == vb@[i as int]);
        }
    }
    if i == na {
        i < nb
    } else if i == nb {
        false
    } else {
        va[i] < vb[i]
    }
}

/// `n` occurs in `h` at position `i`.
pub open spec fn occurs_at(h: Seq<char>, n: Seq<char>, i: int) -> bool {
    0 <= i && i + n.len() <= h.len() && h.subrange(i, i + n.len()) == n
}

/// `n` occurs somewhere in `h` (`str::contains`).
pub open spec fn has_infix(h: Seq<char>, n: Seq<char>) -> bool {
    exists|i: int| occurs_at(h, n, i)
}

/// A text occurs in itself, and what occurs in a text occurs in any text
/// that has it in front or behind.
pub proof fn lemma_infix_concat(a: Seq<char>, b: Seq<char>, n: Seq<char>)
    ensures
        has_infix(n, n),
        has_infix(a, n) ==> has_infix(a + b, n),
        has_infix(b, n) ==> has_infix(a + b, n),
{
    assert(occurs_at(n, n, 0)) by {
        assert(n.subrange(0, n.len() as int) =~= n);
    }
    if has_infix(a, n) {
        let i = choose|i: int| occurs_at(a, n, i);
        assert((a + b).subrange(i, i + n.len()) =~= a.subrange(i, i + n.len()));
        assert(occurs_at(a + b, n, i));
    }
    if has_infix(b, n) {
        let i = choose|i: int| occurs_at(b, n, i);
        let j = i + a.len();
        assert((a + b).subrange(j, j + n.len()) =~= b.subrange(i, i + n.len()));
        assert(occurs_at(a + b, n, j));
    }
}

/// What occurs in a part of a text occurs in the text.
pub proof fn lemma_infix_trans(h: Seq<char>, m: Seq<char>, n: Seq<char>)
    requires
        has_infix(h, m),
        has_infix(m, n),
    ensures
        has_infix(h, n),
{
    let i = choose|i: int| occurs_at(h, m, i);
    let j = choose|j: int| occurs_at(m, n, j);
    assert(h.subrange(i + j, i + j + n.len()) =~= m.subrange(j, j + n.len())) by {
        assert forall|k: int| 0 <= k < n.len() implies #[trigger] h.subrange(i + j, i + j + n.len())[k] == m.subrange(
            j,
            j + n.len(),
        )[k] by {
            assert(h.subrange(i, i + m.len())[j + k] == h[i + j + k]);
        }
    }
    assert(occurs_at(h, n, i + j));
}

fn matches_at(h: &Vec<char>, n: &Vec<char>, i: usize) -> (r: bool)
    requires
        i + n@.len() <= h@.len(),
    ensures
        r == occurs_at(h@, n@, i as int),
{
    let mut k: usize = 0;
    assert(h@.len() == h.len());
    while k < n.len()
        invariant
            h@.len() <= usize::MAX,
            i + n@.len() <= h@.len(),
            k <= n@.len(),
            forall|j: int| 0 <= j < k ==> h@[i + j] == n@[j],
        decreases n@.len() - k,
    {
        if h[i + k] != n[k] {
            assert(h@.subrange(i as int, i + n@.len())[k as int] != n@[k as int]);
            return false;
        }
        k = k + 1;
    }
    assert(h@.subrange(i as int, i + n@.len()) =~= n@);
    true
}

/// Whether `needle` occurs in `hay`.
pub fn contains_text(hay: &str, needle: &str) -> (r: bool)
    ensures
        r == has_infix(hay@, needle@),
{
    let h = chars_of(hay);
    let n = chars_of(needle);
    if n.len() > h.len() {
        assert forall|i: int| !occurs_at(hay@, needle@, i) by {}
        return false;
    }
    let last = h.len() - n.len();
    let mut i: usize = 0;
    while i < last
        invariant
            h@ == hay@,
            n@ == needle@,
            last == h@.len() - n@.len(),
            i <= last,
            forall|j: int| 0 <= j < i ==> !occurs_at(hay@, needle@, j),
        decreases last - i,
    {
        if matches_at(&h, &n, i) {
            return true;
        }
        i = i + 1;
    }
    if matches_at(&h, &n, last) {
        return true;
    }
    assert forall|j: int| !occurs_at(hay@, needle@, j) by {}
    false
}

/// Whether `hay` starts with `prefix`.
pub fn starts_with_text(hay: &str, prefix: &str) -> (r: bool)
    ensures
        r == occurs_at(hay@, prefix@, 0),
{
    let h = chars_of(hay);
    let n = chars_of(prefix);
    if n.len() > h.len() {
        return false;
    }
    matches_at(&h, &n, 0)
}

/// The lowercase form of a text, as `str::to_lowercase` gives it.
pub uninterp spec fn lower_text(s: Seq<char>) -> Seq<char>;

/// An ASCII text without uppercase letters.
pub open spec fn is_lower_ascii(s: Seq<char>) -> bool {
    forall|i: int| 0 <= i < s.len() ==> (#[trigger] s[i]) < '\u{80}' && !('A' <= s[i] && s[i] <= 'Z')
}

/// The lowercase form of a text: the text itself where it is ASCII without
/// capitals, else what `str::to_lowercase` gives (the same on every text,
/// as [`lowercase`] states).
pub open spec fn lowered(s: Seq<char>) -> Seq<char> {
    if is_lower_ascii(s) {
        s
    } else {
        lower_text(s)
    }
}

/// `str::to_lowercase`: the Unicode lowercase mapping of each character.
/// The contract names the result, which depends on the text alone, and
/// states that ASCII text without uppercase letters maps to itself.
#[verifier::external_body]
pub(crate) fn lowercase(s: &str) -> (r: String)
    ensures
        r@ == lower_text(s@),
        is_lower_ascii(s@) ==> r@ == s@,
{
    s.to_lowercase()
}

/// The first `n` characters of `s` (all of them if it is shorter).
pub open spec fn first_chars(s: Seq<char>, n: int) -> Seq<char> {
    if s.len() <= n { s } else { s.subrange(0, n) }
}

/// `s` cut to fit `max` bytes of UTF-8: unchanged if it fits, else its
/// first `max - 1` characters and an ellipsis.
pub open spec fn truncated(s: Seq<char>, max: nat) -> Seq<char> {
    if vstd::utf8::encode_utf8(s).len() <= max {
        s
    } else {
        first_chars(s, max - 1) + "…"@
    }
}

/// Cuts `s` to fit `max` bytes, marking the cut with an ellipsis (a
/// non-empty text needs room for at least one byte).
pub fn truncate(s: &str, max: usize) -> (r: String)
    requires
        max > 0 || s@.len() == 0,
    ensures
        r@ == truncated(s@, max as nat),
{
    let raw = s.as_bytes();
    let bytes = raw.len();
    assert(bytes == vstd::utf8::encode_utf8(s@).len());
    proof {
        if s@.len() == 0 {
            assert(vstd::utf8::encode_utf8(s@) =~= Seq::<u8>::empty());
        }
    }
    if bytes <= max {
        String::from_str(s)
    } else {
        let v = chars_of(s);
        let keep = if v.len() <= max - 1 { v.len() } else { max - 1 };
        let mut out = string_of(&v, 0, keep);
        assert(v@.subrange(0, v@.len() as int) =~= v@);
        out.append("…");
        out
    }
}

} // verus!
