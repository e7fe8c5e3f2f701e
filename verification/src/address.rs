//! Addressing language for targeting widgets in compact trees.
//!
//! Syntax:
//! - `id` selects a node by its interaction key,
//! - `id[n]` selects the nth instance (counted from 0),
//! - `id.child` navigates to a child node,
//! - `id:variant` and `id:variant[n]` select (the nth instance of) a variant,
//!   variants being told apart by their child structure.

use vstd::prelude::*;
use crate::text::{
    chars_of, decimal, digit_char, find_in, first_index, lemma_first_index, lemma_first_index_none,
    lemma_first_index_props, push_char, push_decimal, string_of,
};


verus! {

/// A parsed path.
#[derive(Debug, Clone, PartialEq, Eq)]
pub struct Address {
    pub segments: Vec<AddressSegment>,
}

/// A single segment of a path.
#[derive(Debug, Clone, PartialEq, Eq)]
pub enum AddressSegment {
    /// Just an id: `item`
    Id(String),
    /// Id with index: `item[2]`
    Indexed { id: String, index: usize },
    /// Id with variant filter: `item:delete`
    VariantFilter { id: String, variant_child: String },
    /// Id with variant filter and index: `item:delete[1]`
    VariantFilterIndexed { id: String, variant_child: String, index: usize },
}

/// Why a path could not be parsed.
#[derive(Debug, Clone, PartialEq, Eq)]
pub enum ParseError {
    EmptyInput,
    EmptySegment,
    EmptyId,
    EmptyVariantChild,
    InvalidIndex(String),
    UnclosedBracket,
    UnexpectedCharacter(char),
}

/// Why a path could not be resolved against a tree.
#[derive(Debug, Clone, PartialEq, Eq)]
pub enum ResolveError {
    NotFound(String),
    IndexOutOfBounds { id: String, index: usize, count: usize },
    VariantNotFound { id: String, variant_child: String },
}

/// A resolved address ready for execution.
#[derive(Debug, Clone, PartialEq, Eq)]
pub struct ResolvedAddress {
    pub path: Vec<ResolvedStep>,
}

/// A single step in a resolved path.
#[derive(Debug, Clone, PartialEq, Eq)]
pub struct ResolvedStep {
    pub id: String,
    pub instance_index: usize,
}

/// Mathematical value of a segment.
pub enum SegmentView {
    Id(Seq<char>),
    Indexed(Seq<char>, nat),
    VariantFilter(Seq<char>, Seq<char>),
    VariantFilterIndexed(Seq<char>, Seq<char>, nat),
}

/// Mathematical value of a parse error.
pub enum ParseErrorView {
    EmptyInput,
    EmptySegment,
    EmptyId,
    EmptyVariantChild,
    InvalidIndex(Seq<char>),
    UnclosedBracket,
    UnexpectedCharacter(char),
}

impl View for AddressSegment {
    type V = SegmentView;

    open spec fn view(&self) -> SegmentView {
        match self {
            AddressSegment::Id(id) => SegmentView::Id(id@),
            AddressSegment::Indexed { id, index } => SegmentView::Indexed(id@, *index as nat),
            AddressSegment::VariantFilter { id, variant_child } => SegmentView::VariantFilter(
                id@,
                variant_child@,
            ),
            AddressSegment::VariantFilterIndexed { id, variant_child, index } =>
                SegmentView::VariantFilterIndexed(id@, variant_child@, *index as nat),
        }
    }
}

impl View for ParseError {
    type V = ParseErrorView;

    open spec fn view(&self) -> ParseErrorView {
        match self {
            ParseError::EmptyInput => ParseErrorView::EmptyInput,
            ParseError::EmptySegment => ParseErrorView::EmptySegment,
            ParseError::EmptyId => ParseErrorView::EmptyId,
            ParseError::EmptyVariantChild => ParseErrorView::EmptyVariantChild,
            ParseError::InvalidIndex(s) => ParseErrorView::InvalidIndex(s@),
            ParseError::UnclosedBracket => ParseErrorView::UnclosedBracket,
            ParseError::UnexpectedCharacter(c) => ParseErrorView::UnexpectedCharacter(*c),
        }
    }
}

impl View for Address {
    type V = Seq<SegmentView>;

    open spec fn view(&self) -> Seq<SegmentView> {
        self.segments@.map_values(|s: AddressSegment| s@)
    }
}

// ---------------------------------------------------------------------------
// Decimal indices
// ---------------------------------------------------------------------------

pub open spec fn is_digit(c: char) -> bool {
    '0' <= c && c <= '9'
}

pub open spec fn all_digits(s: Seq<char>) -> bool {
    forall|i: int| 0 <= i < s.len() ==> is_digit(#[trigger] s[i])
}

/// Value of a string of decimal digits.
pub open spec fn digits_value(s: Seq<char>) -> nat
    decreases s.len(),
{
    if s.len() == 0 {
        0
    } else {
        digits_value(s.drop_last()) * 10 + ((s.last() as u32) - ('0' as u32)) as nat
    }
}

/// What `str::parse::<usize>` accepts: an optional `+`, then at least one
/// decimal digit, with a value that fits in `usize`.
pub open spec fn spec_parse_index(s: Seq<char>) -> Option<nat> {
    let d = if s.len() > 0 && s[0] == '+' { s.drop_first() } else { s };
    if d.len() > 0 && all_digits(d) && digits_value(d) <= usize::MAX {
        Some(digits_value(d))
    } else {
        None
    }
}

proof fn lemma_digits_value_mono(s: Seq<char>, i: int)
    requires
        0 <= i <= s.len(),
        all_digits(s),
    ensures
        digits_value(s.subrange(0, i)) <= digits_value(s),
    decreases s.len(),
{
    if i < s.len() {
        assert(s.drop_last() =~= s.subrange(0, s.len() - 1));
        assert(all_digits(s.drop_last()));
        lemma_digits_value_mono(s.drop_last(), i);
        assert(s.drop_last().subrange(0, i) =~= s.subrange(0, i));
    } else {
        assert(s.subrange(0, i) =~= s);
    }
}

fn parse_index(v: &Vec<char>, lo: usize, hi: usize) -> (r: Option<usize>)
    requires
        lo <= hi <= v.len(),
    ensures
        match r {
            Some(n) => spec_parse_index(v@.subrange(lo as int, hi as int)) == Some(n as nat),
            None => spec_parse_index(v@.subrange(lo as int, hi as int)) is None,
        },
{
    let ghost s = v@.subrange(lo as int, hi as int);
    let start = if lo < hi && v[lo] == '+' { lo + 1 } else { lo };
    let ghost d = v@.subrange(start as int, hi as int);
    assert(d =~= (if s.len() > 0 && s[0] == '+' { s.drop_first() } else { s }));
    if start == hi {
        assert(d.len() == 0);
        assert(spec_parse_index(s) is None);
        return None;
    }
    assert(d.len() > 0);
    let ghost expected = if all_digits(d) && digits_value(d) <= usize::MAX {
        Some(digits_value(d))
    } else {
        None::<nat>
    };
    assert(spec_parse_index(s) == expected);
    let mut k = start;
    while k < hi
        invariant
            lo <= start <= k <= hi <= v.len(),
            d == v@.subrange(start as int, hi as int),
            s == v@.subrange(lo as int, hi as int),
            spec_parse_index(s) == expected,
            expected == (if all_digits(d) && digits_value(d) <= usize::MAX {
                Some(digits_value(d))
            } else {
                None::<nat>
            }),
            forall|j: int| 0 <= j < k - start ==> is_digit(#[trigger] d[j]),
        decreases hi - k,
    {
        if !('0' <= v[k] && v[k] <= '9') {
            assert(!is_digit(d[k - start]));
            return None;
        }
        k = k + 1;
    }
    assert(all_digits(d));
    let mut value: usize = 0;
    let mut i = start;
    while i < hi
        invariant
            lo <= start <= i <= hi <= v.len(),
            d == v@.subrange(start as int, hi as int),
            all_digits(d),
            s == v@.subrange(lo as int, hi as int),
            spec_parse_index(s) == expected,
            expected == (if digits_value(d) <= usize::MAX {
                Some(digits_value(d))
            } else {
                None::<nat>
            }),
            value as nat == digits_value(d.subrange(0, i - start)),
        decreases hi - i,
    {
        let ghost pre = d.subrange(0, i - start);
        let ghost next = d.subrange(0, i - start + 1);
        assert(next.drop_last() =~= pre);
        assert(next.last() == v[i as int]);
        assert(is_digit(d[i - start]));
        let dv = ((v[i] as u32) - ('0' as u32)) as usize;
        match value.checked_mul(10) {
            Some(t) => {
                match t.checked_add(dv) {
                    Some(u) => {
                        value = u;
                    },
                    None => {
                        proof { lemma_digits_value_mono(d, i - start + 1); }
                        return None;
                    },
                }
            },
            None => {
                proof { lemma_digits_value_mono(d, i - start + 1); }
                return None;
            },
        }
        i = i + 1;
    }
    assert(d.subrange(0, hi - start) =~= d);
    Some(value)
}

// ---------------------------------------------------------------------------
// Parsing
// ---------------------------------------------------------------------------

/// `s` ends with `]`; the index text is what stands before it.
pub open spec fn spec_parse_bracketed(s: Seq<char>) -> Result<nat, ParseErrorView> {
    if s.len() == 0 || s.last() != ']' {
        Err(ParseErrorView::UnclosedBracket)
    } else {
        match spec_parse_index(s.drop_last()) {
            Some(n) => Ok(n),
            None => Err(ParseErrorView::InvalidIndex(s.drop_last())),
        }
    }
}

/// What a segment with a variant filter parses to, given the text before
/// and after its first `:`.
pub open spec fn spec_parse_filter(id: Seq<char>, rest: Seq<char>) -> Result<SegmentView, ParseErrorView> {
    if id.len() == 0 {
        Err(ParseErrorView::EmptyId)
    } else {
        match first_index(rest, '[') {
            Some(b) => {
                let child = rest.subrange(0, b);
                if child.len() == 0 {
                    Err(ParseErrorView::EmptyVariantChild)
                } else {
                    match spec_parse_bracketed(rest.subrange(b + 1, rest.len() as int)) {
                        Ok(n) => Ok(SegmentView::VariantFilterIndexed(id, child, n)),
                        Err(e) => Err(e),
                    }
                }
            },
            None => {
                if rest.len() == 0 {
                    Err(ParseErrorView::EmptyVariantChild)
                } else {
                    Ok(SegmentView::VariantFilter(id, rest))
                }
            },
        }
    }
}

/// What a segment without `:` parses to.
pub open spec fn spec_parse_plain(s: Seq<char>) -> Result<SegmentView, ParseErrorView> {
    match first_index(s, '[') {
        Some(b) => {
            let id = s.subrange(0, b);
            if id.len() == 0 {
                Err(ParseErrorView::EmptyId)
            } else {
                match spec_parse_bracketed(s.subrange(b + 1, s.len() as int)) {
                    Ok(n) => Ok(SegmentView::Indexed(id, n)),
                    Err(e) => Err(e),
                }
            }
        },
        None => {
            if s.len() == 0 {
                Err(ParseErrorView::EmptyId)
            } else {
                Ok(SegmentView::Id(s))
            }
        },
    }
}

/// What one segment parses to.
pub open spec fn spec_parse_segment(s: Seq<char>) -> Result<SegmentView, ParseErrorView> {
    match first_index(s, ':') {
        Some(c) => spec_parse_filter(s.subrange(0, c), s.subrange(c + 1, s.len() as int)),
        None => spec_parse_plain(s),
    }
}

/// Parses the `.`-separated parts of `s` from left to right; the first
/// failing part decides the error.
pub open spec fn spec_parse_parts(s: Seq<char>) -> Result<Seq<SegmentView>, ParseErrorView>
    decreases s.len(),
{
    proof {
        lemma_first_index_props(s, '.');
    }
    match first_index(s, '.') {
        Some(d) => {
            let part = s.subrange(0, d);
            if part.len() == 0 {
                Err(ParseErrorView::EmptySegment)
            } else {
                match spec_parse_segment(part) {
                    Err(e) => Err(e),
                    Ok(seg) => match spec_parse_parts(s.subrange(d + 1, s.len() as int)) {
                        Ok(rest) => Ok(seq![seg] + rest),
                        Err(e) => Err(e),
                    },
                }
            }
        },
        None => {
            if s.len() == 0 {
                Err(ParseErrorView::EmptySegment)
            } else {
                match spec_parse_segment(s) {
                    Err(e) => Err(e),
                    Ok(seg) => Ok(seq![seg]),
                }
            }
        },
    }
}

/// What a whole path parses to.
pub open spec fn spec_parse(s: Seq<char>) -> Result<Seq<SegmentView>, ParseErrorView> {
    if s.len() == 0 {
        Err(ParseErrorView::EmptyInput)
    } else {
        spec_parse_parts(s)
    }
}

fn parse_bracketed(v: &Vec<char>, lo: usize, hi: usize) -> (r: Result<usize, ParseError>)
    requires
        lo <= hi <= v.len(),
    ensures
        match r {
            Ok(n) => spec_parse_bracketed(v@.subrange(lo as int, hi as int)) == Ok::<nat, ParseErrorView>(n as nat),
            Err(e) => spec_parse_bracketed(v@.subrange(lo as int, hi as int)) == Err::<nat, ParseErrorView>(e@),
        },
{
    let ghost s = v@.subrange(lo as int, hi as int);
    if lo == hi || v[hi - 1] != ']' {
        return Err(ParseError::UnclosedBracket);
    }
    assert(s.drop_last() =~= v@.subrange(lo as int, hi - 1));
    match parse_index(v, lo, hi - 1) {
        Some(n) => Ok(n),
        None => Err(ParseError::InvalidIndex(string_of(v, lo, hi - 1))),
    }
}

fn parse_filter(v: &Vec<char>, lo: usize, c: usize, hi: usize) -> (r: Result<AddressSegment, ParseError>)
    requires
        lo <= c < hi <= v.len(),
    ensures
        match r {
            Ok(seg) => spec_parse_filter(v@.subrange(lo as int, c as int), v@.subrange(c + 1, hi as int))
                == Ok::<SegmentView, ParseErrorView>(seg@),
            Err(e) => spec_parse_filter(v@.subrange(lo as int, c as int), v@.subrange(c + 1, hi as int))
                == Err::<SegmentView, ParseErrorView>(e@),
        },
{
    if c == lo {
        return Err(ParseError::EmptyId);
    }
    let ghost rest = v@.subrange(c + 1, hi as int);
    match find_in(v, c + 1, hi, '[') {
        Some(b) => {
            if b == c + 1 {
                return Err(ParseError::EmptyVariantChild);
            }
            assert(rest.subrange(0, b - (c + 1)) =~= v@.subrange(c + 1, b as int));
            assert(rest.subrange(b - (c + 1) + 1, rest.len() as int) =~= v@.subrange(b + 1, hi as int));
            match parse_bracketed(v, b + 1, hi) {
                Ok(n) => Ok(
                    AddressSegment::VariantFilterIndexed {
                        id: string_of(v, lo, c),
                        variant_child: string_of(v, c + 1, b),
                        index: n,
                    },
                ),
                Err(e) => Err(e),
            }
        },
        None => {
            if c + 1 == hi {
                return Err(ParseError::EmptyVariantChild);
            }
            Ok(
                AddressSegment::VariantFilter {
                    id: string_of(v, lo, c),
                    variant_child: string_of(v, c + 1, hi),
                },
            )
        },
    }
}

fn parse_plain(v: &Vec<char>, lo: usize, hi: usize) -> (r: Result<AddressSegment, ParseError>)
    requires
        lo <= hi <= v.len(),
    ensures
        match r {
            Ok(seg) => spec_parse_plain(v@.subrange(lo as int, hi as int)) == Ok::<SegmentView, ParseErrorView>(seg@),
            Err(e) => spec_parse_plain(v@.subrange(lo as int, hi as int)) == Err::<SegmentView, ParseErrorView>(e@),
        },
{
    let ghost s = v@.subrange(lo as int, hi as int);
    match find_in(v, lo, hi, '[') {
        Some(b) => {
            if b == lo {
                return Err(ParseError::EmptyId);
            }
            assert(s.subrange(0, b - lo) =~= v@.subrange(lo as int, b as int));
            assert(s.subrange(b - lo + 1, s.len() as int) =~= v@.subrange(b + 1, hi as int));
            match parse_bracketed(v, b + 1, hi) {
                Ok(n) => Ok(AddressSegment::Indexed { id: string_of(v, lo, b), index: n }),
                Err(e) => Err(e),
            }
        },
        None => {
            if lo == hi {
                return Err(ParseError::EmptyId);
            }
            Ok(AddressSegment::Id(string_of(v, lo, hi)))
        },
    }
}

fn parse_segment_range(v: &Vec<char>, lo: usize, hi: usize) -> (r: Result<AddressSegment, ParseError>)
    requires
        lo <= hi <= v.len(),
    ensures
        match r {
            Ok(seg) => spec_parse_segment(v@.subrange(lo as int, hi as int)) == Ok::<SegmentView, ParseErrorView>(seg@),
            Err(e) => spec_parse_segment(v@.subrange(lo as int, hi as int)) == Err::<SegmentView, ParseErrorView>(e@),
        },
{
    let ghost s = v@.subrange(lo as int, hi as int);
    match find_in(v, lo, hi, ':') {
        Some(c) => {
            assert(s.subrange(0, c - lo) =~= v@.subrange(lo as int, c as int));
            assert(s.subrange(c - lo + 1, s.len() as int) =~= v@.subrange(c + 1, hi as int));
            parse_filter(v, lo, c, hi)
        },
        None => parse_plain(v, lo, hi),
    }
}

/// Combines the segments already parsed with the outcome for the rest.
pub open spec fn prepend_segments(
    done: Seq<SegmentView>,
    rest: Result<Seq<SegmentView>, ParseErrorView>,
) -> Result<Seq<SegmentView>, ParseErrorView> {
    match rest {
        Ok(r) => Ok(done + r),
        Err(e) => Err(e),
    }
}

impl Address {
    /// Parses a path.
    pub fn parse(input: &str) -> (r: Result<Address, ParseError>)
        ensures
            match r {
                Ok(a) => spec_parse(input@) == Ok::<Seq<SegmentView>, ParseErrorView>(a@),
                Err(e) => spec_parse(input@) == Err::<Seq<SegmentView>, ParseErrorView>(e@),
            },
    {
        let v = chars_of(input);
        let n = v.len();
        if n == 0 {
            return Err(ParseError::EmptyInput);
        }
        let ghost full = v@;
        assert(v@.subrange(0, n as int) =~= full);
        let mut segments: Vec<AddressSegment> = Vec::new();
        let mut lo: usize = 0;
        loop
            invariant
                n == v.len(),
                full == v@,
                full == input@,
                n > 0,
                lo <= n,
                spec_parse(full) == prepend_segments(
                    segments@.map_values(|s: AddressSegment| s@),
                    spec_parse_parts(v@.subrange(lo as int, n as int)),
                ),
            decreases n - lo,
        {
            let ghost s = v@.subrange(lo as int, n as int);
            let ghost done = segments@.map_values(|s: AddressSegment| s@);
            proof {
                lemma_first_index_props(s, '.');
            }
            match find_in(&v, lo, n, '.') {
                Some(d) => {
                    if d == lo {
                        return Err(ParseError::EmptySegment);
                    }
                    assert(s.subrange(0, d - lo) =~= v@.subrange(lo as int, d as int));
                    assert(s.subrange(d - lo + 1, s.len() as int) =~= v@.subrange(d + 1, n as int));
                    let seg = match parse_segment_range(&v, lo, d) {
                        Ok(seg) => seg,
                        Err(e) => {
                            return Err(e);
                        },
                    };
                    segments.push(seg);
                    proof {
                        let done2 = segments@.map_values(|s: AddressSegment| s@);
                        assert(done2 =~= done + seq![seg@]);
                        match spec_parse_parts(v@.subrange(d + 1, n as int)) {
                            Ok(r) => {
                                assert(done + (seq![seg@] + r) =~= done2 + r);
                            },
                            Err(e) => {},
                        }
                    }
                    lo = d + 1;
                },
                None => {
                    if lo == n {
                        return Err(ParseError::EmptySegment);
                    }
                    let seg = match parse_segment_range(&v, lo, n) {
                        Ok(seg) => seg,
                        Err(e) => {
                            return Err(e);
                        },
                    };
                    segments.push(seg);
                    proof {
                        let done2 = segments@.map_values(|s: AddressSegment| s@);
                        assert(done2 =~= done + seq![seg@]);
                    }
                    return Ok(Address { segments });
                },
            }
        }
    }
}

// ---------------------------------------------------------------------------
// Display
// ---------------------------------------------------------------------------

/// The text of one segment.
pub open spec fn segment_text(s: SegmentView) -> Seq<char> {
    match s {
        SegmentView::Id(id) => id,
        SegmentView::Indexed(id, n) => id + seq!['['] + decimal(n) + seq![']'],
        SegmentView::VariantFilter(id, child) => id + seq![':'] + child,
        SegmentView::VariantFilterIndexed(id, child, n) => id + seq![':'] + child + seq!['['] + decimal(
            n,
        ) + seq![']'],
    }
}

/// The text of a path: its segments joined by `.`.
pub open spec fn address_text(segs: Seq<SegmentView>) -> Seq<char>
    decreases segs.len(),
{
    if segs.len() == 0 {
        seq![]
    } else if segs.len() == 1 {
        segment_text(segs[0])
    } else {
        segment_text(segs[0]) + seq!['.'] + address_text(segs.drop_first())
    }
}

proof fn lemma_address_text_snoc(segs: Seq<SegmentView>, s: SegmentView)
    requires
        segs.len() > 0,
    ensures
        address_text(segs.push(s)) == address_text(segs) + seq!['.'] + segment_text(s),
    decreases segs.len(),
{
    let p = segs.push(s);
    if segs.len() == 1 {
        assert(p.drop_first() =~= seq![s]);
        assert(address_text(p.drop_first()) == segment_text(s));
    } else {
        assert(p.drop_first() =~= segs.drop_first().push(s));
        lemma_address_text_snoc(segs.drop_first(), s);
        assert(address_text(p) =~= address_text(segs) + seq!['.'] + segment_text(s));
    }
}

impl AddressSegment {
    /// The segment as written in a path.
    pub fn to_string(&self) -> (s: String)
        ensures
            s@ == segment_text(self@),
    {
        let mut out = String::new();
        self.write_to(&mut out);
        assert(out@ =~= segment_text(self@));
        out
    }

    fn write_to(&self, out: &mut String)
        ensures
            final(out)@ == old(out)@ + segment_text(self@),
    {
        let ghost start = out@;
        match self {
            AddressSegment::Id(id) => {
                out.append(id.as_str());
                assert(out@ =~= start + segment_text(self@));
            },
            AddressSegment::Indexed { id, index } => {
                out.append(id.as_str());
                push_char(out, '[');
                push_decimal(out, *index);
                push_char(out, ']');
                assert(out@ =~= start + segment_text(self@));
            },
            AddressSegment::VariantFilter { id, variant_child } => {
                out.append(id.as_str());
                push_char(out, ':');
                out.append(variant_child.as_str());
                assert(out@ =~= start + segment_text(self@));
            },
            AddressSegment::VariantFilterIndexed { id, variant_child, index } => {
                out.append(id.as_str());
                push_char(out, ':');
                out.append(variant_child.as_str());
                push_char(out, '[');
                push_decimal(out, *index);
                push_char(out, ']');
                assert(out@ =~= start + segment_text(self@));
            },
        }
    }
}

impl Address {
    /// The path as written: its segments joined by `.`.
    pub fn to_string(&self) -> (s: String)
        ensures
            s@ == address_text(self@),
    {
        let mut out = String::new();
        let n = self.segments.len();
        let mut i: usize = 0;
        while i < n
            invariant
                n == self.segments.len(),
                i <= n,
                out@ == address_text(self@.take(i as int)),
            decreases n - i,
        {
            let ghost before = self@.take(i as int);
            let ghost seg = self.segments[i as int]@;
            if i > 0 {
                push_char(&mut out, '.');
            }
            self.segments[i].write_to(&mut out);
            proof {
                assert(self@.take(i + 1) =~= before.push(seg));
                if i > 0 {
                    lemma_address_text_snoc(before, seg);
                } else {
                    assert(before.push(seg) =~= seq![seg]);
                }
            }
            i = i + 1;
        }
        assert(self@.take(n as int) =~= self@);
        out
    }
}

/// The message for a parse error.
pub open spec fn parse_error_text(e: ParseErrorView) -> Seq<char> {
    match e {
        ParseErrorView::EmptyInput => "empty input"@,
        ParseErrorView::EmptySegment => "empty segment"@,
        ParseErrorView::EmptyId => "empty id"@,
        ParseErrorView::EmptyVariantChild => "empty variant child"@,
        ParseErrorView::InvalidIndex(s) => "invalid index: "@ + s,
        ParseErrorView::UnclosedBracket => "unclosed bracket"@,
        ParseErrorView::UnexpectedCharacter(c) => "unexpected character: "@ + seq![c],
    }
}

impl ParseError {
    /// The error as a message for the user.
    pub fn to_string(&self) -> (s: String)
        ensures
            s@ == parse_error_text(self@),
    {
        match self {
            ParseError::EmptyInput => String::from_str("empty input"),
            ParseError::EmptySegment => String::from_str("empty segment"),
            ParseError::EmptyId => String::from_str("empty id"),
            ParseError::EmptyVariantChild => String::from_str("empty variant child"),
            ParseError::InvalidIndex(t) => {
                let mut out = String::from_str("invalid index: ");
                out.append(t.as_str());
                out
            },
            ParseError::UnclosedBracket => String::from_str("unclosed bracket"),
            ParseError::UnexpectedCharacter(c) => {
                let mut out = String::from_str("unexpected character: ");
                push_char(&mut out, *c);
                out
            },
        }
    }
}

/// The message for a resolve error.
pub open spec fn resolve_error_text(e: ResolveError) -> Seq<char> {
    match e {
        ResolveError::NotFound(id) => "node not found: "@ + id@,
        ResolveError::IndexOutOfBounds { id, index, count } => "index "@ + decimal(index as nat) + " out of bounds for "@
            + id@ + " (count: "@ + decimal(count as nat) + ")"@,
        ResolveError::VariantNotFound { id, variant_child } => "variant "@ + id@ + ":"@ + variant_child@
            + " not found"@,
    }
}

impl ResolveError {
    /// The error as a message for the user.
    pub fn to_string(&self) -> (s: String)
        ensures
            s@ == resolve_error_text(*self),
    {
        match self {
            ResolveError::NotFound(id) => {
                let mut out = String::from_str("node not found: ");
                out.append(id.as_str());
                out
            },
            ResolveError::IndexOutOfBounds { id, index, count } => {
                let mut out = String::from_str("index ");
                push_decimal(&mut out, *index);
                out.append(" out of bounds for ");
                out.append(id.as_str());
                out.append(" (count: ");
                push_decimal(&mut out, *count);
                out.append(")");
                out
            },
            ResolveError::VariantNotFound { id, variant_child } => {
                let mut out = String::from_str("variant ");
                out.append(id.as_str());
                out.append(":");
                out.append(variant_child.as_str());
                out.append(" not found");
                out
            },
        }
    }
}

// ---------------------------------------------------------------------------
// Round trip
// ---------------------------------------------------------------------------

pub open spec fn lacks(s: Seq<char>, c: char) -> bool {
    forall|i: int| 0 <= i < s.len() ==> s[i] != c
}

/// A segment that its own text parses back to: ids are non-empty and hold
/// no `.` or `:` (nor `[` when no filter follows); a variant child is
/// non-empty and holds no `.` or `[`; an index fits in `usize`.
pub open spec fn wf_segment(s: SegmentView) -> bool {
    match s {
        SegmentView::Id(id) => id.len() > 0 && lacks(id, '.') && lacks(id, ':') && lacks(id, '['),
        SegmentView::Indexed(id, n) => id.len() > 0 && lacks(id, '.') && lacks(id, ':') && lacks(
            id,
            '[',
        ) && n <= usize::MAX,
        SegmentView::VariantFilter(id, child) => id.len() > 0 && lacks(id, '.') && lacks(id, ':')
            && child.len() > 0 && lacks(child, '.') && lacks(child, '['),
        SegmentView::VariantFilterIndexed(id, child, n) => id.len() > 0 && lacks(id, '.') && lacks(
            id,
            ':',
        ) && child.len() > 0 && lacks(child, '.') && lacks(child, '[') && n <= usize::MAX,
    }
}

/// A non-empty path of well-formed segments.
pub open spec fn wf_address(segs: Seq<SegmentView>) -> bool {
    segs.len() > 0 && forall|i: int| 0 <= i < segs.len() ==> wf_segment(#[trigger] segs[i])
}

proof fn lemma_digit_char(k: nat)
    requires
        k < 10,
    ensures
        is_digit(digit_char(k)),
        ((digit_char(k) as u32) - ('0' as u32)) as nat == k,
{
}

proof fn lemma_decimal(n: nat)
    ensures
        decimal(n).len() > 0,
        all_digits(decimal(n)),
        digits_value(decimal(n)) == n,
    decreases n,
{
    lemma_digit_char(n % 10);
    if n >= 10 {
        lemma_decimal(n / 10);
        let d = decimal(n);
        assert(d.drop_last() =~= decimal(n / 10));
        assert(forall|i: int| 0 <= i < d.len() - 1 ==> d[i] == decimal(n / 10)[i]);
        assert(d.last() == digit_char(n % 10));
        assert(digits_value(d) == digits_value(decimal(n / 10)) * 10 + n % 10);
    } else {
        let d = decimal(n);
        assert(d.drop_last() =~= Seq::<char>::empty());
        assert(digits_value(Seq::<char>::empty()) == 0);
        assert(d.last() == digit_char(n));
        assert(digits_value(d) == n);
    }
}

proof fn lemma_decimal_index(n: nat)
    requires
        n <= usize::MAX,
    ensures
        spec_parse_bracketed(decimal(n) + seq![']']) == Ok::<nat, ParseErrorView>(n),
        lacks(decimal(n), '.'),
        lacks(decimal(n), ':'),
        lacks(decimal(n), '['),
{
    lemma_decimal(n);
    let t = decimal(n) + seq![']'];
    assert(t.drop_last() =~= decimal(n));
    assert(is_digit(decimal(n)[0]));
}

proof fn lemma_bracket_tail(id: Seq<char>, n: nat)
    requires
        n <= usize::MAX,
        lacks(id, '['),
        lacks(id, ':'),
        id.len() > 0,
    ensures
        ({
            let t = id + seq!['['] + decimal(n) + seq![']'];
            &&& first_index(t, ':') is None
            &&& first_index(t, '[') == Some(id.len() as int)
            &&& t.subrange(0, id.len() as int) == id
            &&& t.subrange(id.len() as int + 1, t.len() as int) == decimal(n) + seq![']']
            &&& spec_parse_bracketed(t.subrange(id.len() as int + 1, t.len() as int)) == Ok::<nat, ParseErrorView>(n)
        }),
{
    lemma_decimal_index(n);
    let t = id + seq!['['] + decimal(n) + seq![']'];
    let k = id.len() as int;
    assert forall|j: int| 0 <= j < t.len() implies t[j] != ':' by {
        if j < k {
            assert(t[j] == id[j]);
        } else if k < j < t.len() - 1 {
            assert(t[j] == decimal(n)[j - k - 1]);
        }
    }
    lemma_first_index_none(t, ':');
    assert forall|j: int| 0 <= j < k implies t[j] != '[' by {
        assert(t[j] == id[j]);
    }
    lemma_first_index(t, '[', k);
    assert(t.subrange(0, k) =~= id);
    assert(t.subrange(k + 1, t.len() as int) =~= decimal(n) + seq![']']);
}

proof fn lemma_segment_roundtrip(s: SegmentView)
    requires
        wf_segment(s),
    ensures
        spec_parse_segment(segment_text(s)) == Ok::<SegmentView, ParseErrorView>(s),
        lacks(segment_text(s), '.'),
{
    match s {
        SegmentView::Id(id) => {
            lemma_first_index_none(id, ':');
            lemma_first_index_none(id, '[');
        },
        SegmentView::Indexed(id, n) => {
            lemma_bracket_tail(id, n);
            lemma_decimal_index(n);
            let t = segment_text(s);
            assert forall|j: int| 0 <= j < t.len() implies t[j] != '.' by {
                if j < id.len() {
                    assert(t[j] == id[j]);
                } else if id.len() < j < t.len() - 1 {
                    assert(t[j] == decimal(n)[j - id.len() - 1]);
                }
            }
        },
        SegmentView::VariantFilter(id, child) => {
            let t = segment_text(s);
            let k = id.len() as int;
            assert forall|j: int| 0 <= j < k implies t[j] != ':' by {
                assert(t[j] == id[j]);
            }
            lemma_first_index(t, ':', k);
            assert(t.subrange(0, k) =~= id);
            assert(t.subrange(k + 1, t.len() as int) =~= child);
            lemma_first_index_none(child, '[');
            assert forall|j: int| 0 <= j < t.len() implies t[j] != '.' by {
                if j < k {
                    assert(t[j] == id[j]);
                } else if j > k {
                    assert(t[j] == child[j - k - 1]);
                }
            }
        },
        SegmentView::VariantFilterIndexed(id, child, n) => {
            let t = segment_text(s);
            let k = id.len() as int;
            assert forall|j: int| 0 <= j < k implies t[j] != ':' by {
                assert(t[j] == id[j]);
            }
            lemma_first_index(t, ':', k);
            assert(t.subrange(0, k) =~= id);
            let rest = t.subrange(k + 1, t.len() as int);
            assert(rest =~= child + seq!['['] + decimal(n) + seq![']']);
            let m = child.len() as int;
            assert forall|j: int| 0 <= j < m implies rest[j] != '[' by {
                assert(rest[j] == child[j]);
            }
            lemma_first_index(rest, '[', m);
            assert(rest.subrange(0, m) =~= child);
            assert(rest.subrange(m + 1, rest.len() as int) =~= decimal(n) + seq![']']);
            lemma_decimal_index(n);
            assert forall|j: int| 0 <= j < t.len() implies t[j] != '.' by {
                if j < k {
                    assert(t[j] == id[j]);
                } else if k < j <= k + m {
                    assert(t[j] == child[j - k - 1]);
                } else if k + m + 1 < j < t.len() - 1 {
                    assert(t[j] == decimal(n)[j - k - m - 2]);
                }
            }
        },
    }
}

/// Writing a well-formed path and parsing the text gives the path back.
pub proof fn lemma_parse_of_text(segs: Seq<SegmentView>)
    requires
        wf_address(segs),
    ensures
        spec_parse(address_text(segs)) == Ok::<Seq<SegmentView>, ParseErrorView>(segs),
    decreases segs.len(),
{
    lemma_parse_parts_of_text(segs);
    lemma_segment_roundtrip(segs[0]);
    lemma_segment_text_nonempty(segs[0]);
    if segs.len() > 1 {
        assert(address_text(segs).len() > 0);
    }
}

proof fn lemma_segment_text_nonempty(s: SegmentView)
    requires
        wf_segment(s),
    ensures
        segment_text(s).len() > 0,
{
}

proof fn lemma_parse_parts_of_text(segs: Seq<SegmentView>)
    requires
        wf_address(segs),
    ensures
        spec_parse_parts(address_text(segs)) == Ok::<Seq<SegmentView>, ParseErrorView>(segs),
    decreases segs.len(),
{
    let s0 = segs[0];
    assert(wf_segment(s0));
    lemma_segment_roundtrip(s0);
    lemma_segment_text_nonempty(s0);
    let t0 = segment_text(s0);
    if segs.len() == 1 {
        lemma_first_index_none(t0, '.');
        assert(seq![s0] =~= segs);
    } else {
        let rest = segs.drop_first();
        assert forall|i: int| 0 <= i < rest.len() implies wf_segment(#[trigger] rest[i]) by {
            assert(rest[i] == segs[i + 1]);
        }
        lemma_parse_parts_of_text(rest);
        let t = address_text(segs);
        assert(t == t0 + seq!['.'] + address_text(rest));
        let k = t0.len() as int;
        assert forall|j: int| 0 <= j < k implies t[j] != '.' by {
            assert(t[j] == t0[j]);
        }
        lemma_first_index(t, '.', k);
        assert(t.subrange(0, k) =~= t0);
        assert(t.subrange(k + 1, t.len() as int) =~= address_text(rest));
        assert(seq![s0] + rest =~= segs);
    }
}

proof fn lemma_lacks_subrange(s: Seq<char>, c: char, lo: int, hi: int)
    requires
        0 <= lo <= hi <= s.len(),
        lacks(s, c),
    ensures
        lacks(s.subrange(lo, hi), c),
{
    assert forall|i: int| 0 <= i < hi - lo implies s.subrange(lo, hi)[i] != c by {
        assert(s.subrange(lo, hi)[i] == s[lo + i]);
    }
}

proof fn lemma_lacks_before_first(s: Seq<char>, c: char, k: int)
    requires
        first_index(s, c) == Some(k),
    ensures
        0 <= k < s.len(),
        lacks(s.subrange(0, k), c),
{
    lemma_first_index_props(s, c);
    assert forall|i: int| 0 <= i < k implies s.subrange(0, k)[i] != c by {
        assert(s.subrange(0, k)[i] == s[i]);
    }
}

proof fn lemma_index_bound(t: Seq<char>)
    ensures
        spec_parse_bracketed(t) matches Ok(n) ==> n <= usize::MAX,
{
}

proof fn lemma_segment_wf(s: Seq<char>)
    requires
        lacks(s, '.'),
    ensures
        spec_parse_segment(s) matches Ok(seg) ==> wf_segment(seg),
{
    lemma_first_index_props(s, ':');
    match first_index(s, ':') {
        Some(c) => {
            let id = s.subrange(0, c);
            let rest = s.subrange(c + 1, s.len() as int);
            lemma_lacks_before_first(s, ':', c);
            lemma_lacks_subrange(s, '.', 0, c);
            lemma_lacks_subrange(s, '.', c + 1, s.len() as int);
            lemma_first_index_props(rest, '[');
            match first_index(rest, '[') {
                Some(b) => {
                    lemma_lacks_before_first(rest, '[', b);
                    lemma_lacks_subrange(rest, '.', 0, b);
                    lemma_index_bound(rest.subrange(b + 1, rest.len() as int));
                },
                None => {},
            }
        },
        None => {
            lemma_first_index_props(s, '[');
            match first_index(s, '[') {
                Some(b) => {
                    lemma_lacks_before_first(s, '[', b);
                    lemma_lacks_subrange(s, '.', 0, b);
                    lemma_lacks_subrange(s, ':', 0, b);
                    lemma_index_bound(s.subrange(b + 1, s.len() as int));
                },
                None => {},
            }
        },
    }
}

proof fn lemma_parse_parts_wf(s: Seq<char>)
    ensures
        spec_parse_parts(s) matches Ok(segs) ==> wf_address(segs),
    decreases s.len(),
{
    lemma_first_index_props(s, '.');
    match first_index(s, '.') {
        Some(d) => {
            let part = s.subrange(0, d);
            lemma_lacks_before_first(s, '.', d);
            lemma_segment_wf(part);
            let tail = s.subrange(d + 1, s.len() as int);
            lemma_parse_parts_wf(tail);
            if let Ok(segs) = spec_parse_parts(s) {
                let seg = spec_parse_segment(part)->Ok_0;
                let rest = spec_parse_parts(tail)->Ok_0;
                assert(segs == seq![seg] + rest);
                assert forall|i: int| 0 <= i < segs.len() implies wf_segment(#[trigger] segs[i]) by {
                    if i > 0 {
                        assert(segs[i] == rest[i - 1]);
                    }
                }
            }
        },
        None => {
            lemma_segment_wf(s);
        },
    }
}

/// Every path that parses is well formed, so it is written back to a text
/// that parses to the same path: `parse(to_string(parse(s))) == parse(s)`.
pub proof fn lemma_parse_well_formed(s: Seq<char>)
    ensures
        spec_parse(s) matches Ok(segs) ==> wf_address(segs),
        spec_parse(s) matches Ok(segs) ==> spec_parse(address_text(segs)) == spec_parse(s),
{
    lemma_parse_parts_wf(s);
    if let Ok(segs) = spec_parse(s) {
        lemma_parse_of_text(segs);
    }
}

impl AddressSegment {
    /// Parses a single segment.
    pub fn parse(input: &str) -> (r: Result<AddressSegment, ParseError>)
        ensures
            match r {
                Ok(seg) => spec_parse_segment(input@) == Ok::<SegmentView, ParseErrorView>(seg@),
                Err(e) => spec_parse_segment(input@) == Err::<SegmentView, ParseErrorView>(e@),
            },
    {
        let v = chars_of(input);
        assert(v@.subrange(0, v@.len() as int) =~= v@);
        parse_segment_range(&v, 0, v.len())
    }
}

// ---------------------------------------------------------------------------
// Printing a parsed text
// ---------------------------------------------------------------------------

/// Index digits written the one way the printer writes them: decimal
/// digits only, without sign, and no leading zero but in `0` itself.
pub open spec fn canonical_digits(t: Seq<char>) -> bool {
    &&& t.len() > 0
    &&& all_digits(t)
    &&& (t.len() == 1 || t[0] != '0')
}

/// The text after a `[` of a segment: an index written canonically, then `]`.
pub open spec fn canonical_bracket(t: Seq<char>) -> bool {
    t.len() > 0 && canonical_digits(t.drop_last())
}

/// Every index of the segment text `p` (the text between its first `[` and
/// the closing `]`) is written canonically.
pub open spec fn canonical_segment(p: Seq<char>) -> bool {
    match first_index(p, ':') {
        Some(c) => {
            let rest = p.subrange(c + 1, p.len() as int);
            match first_index(rest, '[') {
                Some(b) => canonical_bracket(rest.subrange(b + 1, rest.len() as int)),
                None => true,
            }
        },
        None => match first_index(p, '[') {
            Some(b) => canonical_bracket(p.subrange(b + 1, p.len() as int)),
            None => true,
        },
    }
}

/// Every index of the path text `s` is written canonically: each of its
/// `.`-separated segments is.
pub open spec fn canonical_indices(s: Seq<char>) -> bool
    decreases s.len(),
{
    proof {
        lemma_first_index_props(s, '.');
    }
    match first_index(s, '.') {
        Some(d) => canonical_segment(s.subrange(0, d)) && canonical_indices(s.subrange(d + 1, s.len() as int)),
        None => canonical_segment(s),
    }
}

proof fn lemma_digit_of_char(c: char)
    requires
        is_digit(c),
    ensures
        digit_char(((c as u32) - ('0' as u32)) as nat) == c,
        1 <= ((c as u32) - ('0' as u32)) || c == '0',
{
}

proof fn lemma_decimal_of_digits(t: Seq<char>)
    requires
        canonical_digits(t),
    ensures
        decimal(digits_value(t)) == t,
        t[0] != '0' ==> digits_value(t) >= 1,
    decreases t.len(),
{
    let d = ((t.last() as u32) - ('0' as u32)) as nat;
    lemma_digit_of_char(t.last());
    if t.len() == 1 {
        assert(t.drop_last() =~= Seq::<char>::empty());
        assert(digits_value(Seq::<char>::empty()) == 0);
        assert(digits_value(t) == digits_value(t.drop_last()) * 10 + d);
        assert(digits_value(t) == d);
        assert(decimal(d) =~= t);
    } else {
        let u = t.drop_last();
        assert(canonical_digits(u)) by {
            assert(u[0] == t[0]);
        }
        lemma_decimal_of_digits(u);
        let m = digits_value(u);
        let n = digits_value(t);
        assert(n == m * 10 + d);
        assert(d < 10) by {
            assert(is_digit(t.last()));
        }
        assert(n / 10 == m && n % 10 == d) by (nonlinear_arith)
            requires
                n == m * 10 + d,
                d < 10,
        {
        }
        assert(decimal(n) == decimal(n / 10).push(digit_char(n % 10)));
        assert(decimal(n) =~= t);
    }
}

proof fn lemma_bracket_text(t: Seq<char>, n: nat)
    requires
        spec_parse_bracketed(t) == Ok::<nat, ParseErrorView>(n),
        canonical_bracket(t),
    ensures
        decimal(n) + seq![']'] == t,
{
    let u = t.drop_last();
    assert(!(u.len() > 0 && u[0] == '+')) by {
        assert(is_digit(u[0]));
    }
    lemma_decimal_of_digits(u);
    assert(u.push(t.last()) =~= t);
}

proof fn lemma_segment_text_of_parse(p: Seq<char>)
    requires
        spec_parse_segment(p) is Ok,
        canonical_segment(p),
    ensures
        segment_text(spec_parse_segment(p)->Ok_0) == p,
{
    lemma_first_index_props(p, ':');
    match first_index(p, ':') {
        Some(c) => {
            let id = p.subrange(0, c);
            let rest = p.subrange(c + 1, p.len() as int);
            lemma_first_index_props(rest, '[');
            match first_index(rest, '[') {
                Some(b) => {
                    let child = rest.subrange(0, b);
                    let t = rest.subrange(b + 1, rest.len() as int);
                    let n = spec_parse_bracketed(t)->Ok_0;
                    lemma_bracket_text(t, n);
                    assert(rest =~= child + seq!['['] + t);
                    assert(p =~= id + seq![':'] + rest);
                    assert(segment_text(spec_parse_segment(p)->Ok_0) =~= id + seq![':'] + child + seq!['['] + decimal(n) + seq![']']);
                },
                None => {
                    assert(p =~= id + seq![':'] + rest);
                },
            }
        },
        None => {
            lemma_first_index_props(p, '[');
            match first_index(p, '[') {
                Some(b) => {
                    let id = p.subrange(0, b);
                    let t = p.subrange(b + 1, p.len() as int);
                    let n = spec_parse_bracketed(t)->Ok_0;
                    lemma_bracket_text(t, n);
                    assert(p =~= id + seq!['['] + t);
                    assert(segment_text(spec_parse_segment(p)->Ok_0) =~= id + seq!['['] + decimal(n) + seq![']']);
                },
                None => {},
            }
        },
    }
}

proof fn lemma_parts_text_of_parse(s: Seq<char>)
    requires
        spec_parse_parts(s) is Ok,
        canonical_indices(s),
    ensures
        spec_parse_parts(s)->Ok_0.len() > 0,
        address_text(spec_parse_parts(s)->Ok_0) == s,
    decreases s.len(),
{
    lemma_first_index_props(s, '.');
    match first_index(s, '.') {
        Some(d) => {
            let part = s.subrange(0, d);
            let tail = s.subrange(d + 1, s.len() as int);
            lemma_segment_text_of_parse(part);
            lemma_parts_text_of_parse(tail);
            let seg = spec_parse_segment(part)->Ok_0;
            let rest = spec_parse_parts(tail)->Ok_0;
            let all = seq![seg] + rest;
            assert(all.drop_first() =~= rest);
            assert(all[0] == seg);
            assert(s =~= part + seq!['.'] + tail);
        },
        None => {
            lemma_segment_text_of_parse(s);
        },
    }
}

/// Printing a parsed path gives back the text it was parsed from, whenever
/// that text writes every index canonically (digits only, no sign, no
/// leading zero).
pub proof fn lemma_text_of_parse(s: Seq<char>)
    requires
        spec_parse(s) is Ok,
        canonical_indices(s),
    ensures
        address_text(spec_parse(s)->Ok_0) == s,
{
    lemma_parts_text_of_parse(s);
}

} // verus!
