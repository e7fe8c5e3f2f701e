//! Compact tree representation with schema deduplication.
//!
//! Raw `TreeNode`s are turned into a compact form that
//! - deduplicates repeated widget descriptions into schemas,
//! - collapses runs of identical siblings into a count,
//! - groups variants (same id, different children),
//! - keeps differing siblings in order.

use vstd::prelude::*;
use crate::types::{opt_view, clone_opt, ContextInfo, TreeNode};
use crate::text::{decimal, push_decimal, lex_lt, lemma_lex_irreflexive, lemma_lex_total, lemma_lex_transitive, push_char, str_less};

verus! {

/// A schema describes one interaction key.
#[derive(Debug, Clone, PartialEq, Eq)]
pub struct Schema {
    pub id: String,
    pub description: Option<String>,
    pub widget_type: Option<String>,
    pub capabilities: Vec<String>,
    pub actions: Vec<String>,
}

/// One pattern of children seen under a repeated id.
#[derive(Debug, PartialEq, Eq)]
pub struct Variant {
    pub count: usize,
    pub children: Vec<TreeEntry>,
}

/// An entry of the compact tree.
#[derive(Debug, PartialEq, Eq)]
pub enum TreeEntry {
    /// Semantic grouping via an InteractionContext widget
    Context { context: String, description: Option<String>, children: Vec<TreeEntry> },
    /// Same id with different child structures
    Variants { id: String, variants: Vec<Variant> },
    /// Identical siblings collapsed to a count
    Homogeneous { id: String, count: usize, children: Vec<TreeEntry> },
    /// Mixed siblings as a positional array (order matters)
    Heterogeneous { items: Vec<TreeEntry> },
    /// Single instance
    Singleton { id: String, children: Vec<TreeEntry> },
}

/// Mathematical value of a tree entry.
pub enum EntryV {
    Context { context: Seq<char>, description: Option<Seq<char>>, children: Seq<EntryV> },
    Variants { id: Seq<char>, variants: Seq<VariantV> },
    Homogeneous { id: Seq<char>, count: nat, children: Seq<EntryV> },
    Heterogeneous { items: Seq<EntryV> },
    Singleton { id: Seq<char>, children: Seq<EntryV> },
}

/// Mathematical value of a variant.
pub struct VariantV {
    pub count: nat,
    pub children: Seq<EntryV>,
}

pub open spec fn entry_view(e: TreeEntry) -> EntryV
    decreases e,
{
    match e {
        TreeEntry::Context { context, description, children } => EntryV::Context {
            context: context@,
            description: opt_view(description),
            children: entries_view(children@),
        },
        TreeEntry::Variants { id, variants } => EntryV::Variants {
            id: id@,
            variants: variants_view(variants@),
        },
        TreeEntry::Homogeneous { id, count, children } => EntryV::Homogeneous {
            id: id@,
            count: count as nat,
            children: entries_view(children@),
        },
        TreeEntry::Heterogeneous { items } => EntryV::Heterogeneous { items: entries_view(items@) },
        TreeEntry::Singleton { id, children } => EntryV::Singleton {
            id: id@,
            children: entries_view(children@),
        },
    }
}

pub open spec fn entries_view(es: Seq<TreeEntry>) -> Seq<EntryV>
    decreases es,
{
    if es.len() == 0 {
        seq![]
    } else {
        entries_view(es.drop_last()).push(entry_view(es.last()))
    }
}

pub open spec fn variant_view(v: Variant) -> VariantV
    decreases v,
{
    VariantV { count: v.count as nat, children: entries_view(v.children@) }
}

pub open spec fn variants_view(vs: Seq<Variant>) -> Seq<VariantV>
    decreases vs,
{
    if vs.len() == 0 {
        seq![]
    } else {
        variants_view(vs.drop_last()).push(variant_view(vs.last()))
    }
}


proof fn lemma_entries_view_push(es: Seq<TreeEntry>, e: TreeEntry)
    ensures
        entries_view(es.push(e)) == entries_view(es).push(entry_view(e)),
{
    assert(es.push(e).drop_last() =~= es);
}

proof fn lemma_variants_view_push(vs: Seq<Variant>, v: Variant)
    ensures
        variants_view(vs.push(v)) == variants_view(vs).push(variant_view(v)),
{
    assert(vs.push(v).drop_last() =~= vs);
}

proof fn lemma_entries_view_len(es: Seq<TreeEntry>)
    ensures
        entries_view(es).len() == es.len(),
    decreases es.len(),
{
    if es.len() > 0 {
        lemma_entries_view_len(es.drop_last());
    }
}

// ---------------------------------------------------------------------------
// Compaction: specification
// ---------------------------------------------------------------------------

/// Ids of the given nodes joined by `,`.
pub open spec fn join_ids(cs: Seq<TreeNode>) -> Seq<char>
    decreases cs.len(),
{
    if cs.len() == 0 {
        seq![]
    } else if cs.len() == 1 {
        cs[0].id@
    } else {
        join_ids(cs.drop_last()) + seq![','] + cs.last().id@
    }
}

/// The fingerprint of a node's child structure: its children's ids joined
/// by `,` (empty without children).
pub open spec fn fingerprint(n: TreeNode) -> Seq<char> {
    join_ids(n.children@)
}

/// End of the run of equal ids that starts at `lo`.
pub open spec fn run_end(ns: Seq<TreeNode>, lo: int) -> int
    decreases ns.len() - lo,
{
    if lo + 1 >= ns.len() {
        ns.len() as int
    } else if ns[lo + 1].id@ != ns[lo].id@ {
        lo + 1
    } else {
        run_end(ns, lo + 1)
    }
}

pub proof fn lemma_run_end(ns: Seq<TreeNode>, lo: int)
    requires
        0 <= lo < ns.len(),
    ensures
        lo < run_end(ns, lo) <= ns.len(),
        forall|k: int| lo <= k < run_end(ns, lo) ==> ns[k].id@ == ns[lo].id@,
        run_end(ns, lo) < ns.len() ==> ns[run_end(ns, lo)].id@ != ns[lo].id@,
    decreases ns.len() - lo,
{
    if lo + 1 < ns.len() && ns[lo + 1].id@ == ns[lo].id@ {
        lemma_run_end(ns, lo + 1);
    }
}

/// The nodes of `ns` at the positions `sel`.
pub open spec fn select(ns: Seq<TreeNode>, sel: Seq<usize>) -> Seq<TreeNode> {
    Seq::new(sel.len(), |i: int| ns[sel[i] as int])
}

/// A group of nodes of one run that share a fingerprint: how many, and the
/// position of the first.
pub struct FpGroup {
    pub fp: Seq<char>,
    pub count: nat,
    pub rep: int,
}

/// Position of the group with fingerprint `f`, or -1.
pub open spec fn fp_find(gs: Seq<FpGroup>, f: Seq<char>) -> int
    decreases gs.len(),
{
    if gs.len() == 0 {
        -1
    } else if gs.last().fp == f {
        gs.len() - 1
    } else {
        fp_find(gs.drop_last(), f)
    }
}

/// The fingerprint groups of `ns[lo..hi]`, in order of first occurrence.
pub open spec fn fp_groups(ns: Seq<TreeNode>, lo: int, hi: int) -> Seq<FpGroup>
    decreases hi - lo,
{
    if hi <= lo {
        seq![]
    } else {
        let gs = fp_groups(ns, lo, hi - 1);
        let f = fingerprint(ns[hi - 1]);
        let k = fp_find(gs, f);
        if k >= 0 {
            gs.update(k, FpGroup { fp: f, count: gs[k].count + 1, rep: gs[k].rep })
        } else {
            gs.push(FpGroup { fp: f, count: 1, rep: hi - 1 })
        }
    }
}

/// Where an element of count `c` goes in a list sorted by decreasing count:
/// after every element whose count is at least `c`.
pub open spec fn ins_pos(s: Seq<(nat, int)>, c: nat) -> int
    decreases s.len(),
{
    if s.len() == 0 {
        0
    } else if s.last().0 >= c {
        s.len() as int
    } else {
        ins_pos(s.drop_last(), c)
    }
}

/// Stable sort by decreasing count of (count, representative) pairs.
pub open spec fn sort_desc(s: Seq<(nat, int)>) -> Seq<(nat, int)>
    decreases s.len(),
{
    if s.len() == 0 {
        seq![]
    } else {
        let r = sort_desc(s.drop_last());
        r.insert(ins_pos(r, s.last().0), s.last())
    }
}

/// (count, representative) of each fingerprint group.
pub open spec fn group_keys(gs: Seq<FpGroup>) -> Seq<(nat, int)> {
    gs.map_values(|g: FpGroup| (g.count, g.rep))
}

/// The compact entries for `ns[lo..]`: one entry per run of equal ids.
pub open spec fn compact_from(ns: Seq<TreeNode>, lo: int) -> Seq<EntryV>
    decreases ns, 2nat, ns.len() - lo,
{
    if 0 <= lo < ns.len() {
        proof {
            lemma_run_end(ns, lo);
        }
        let hi = run_end(ns, lo);
        seq![group_entry(ns, lo, hi)] + compact_from(ns, hi)
    } else {
        seq![]
    }
}

/// The compact entry for the run `ns[lo..hi]` of nodes with one id: a
/// singleton, a count of identical nodes, or the variants by child structure.
pub open spec fn group_entry(ns: Seq<TreeNode>, lo: int, hi: int) -> EntryV
    decreases ns, 1nat, 0int,
{
    if !(0 <= lo < hi <= ns.len()) {
        EntryV::Heterogeneous { items: seq![] }
    } else if hi - lo == 1 {
        EntryV::Singleton { id: ns[lo].id@, children: compact_from(ns[lo].children@, 0) }
    } else if fp_groups(ns, lo, hi).len() == 1 {
        EntryV::Homogeneous {
            id: ns[lo].id@,
            count: (hi - lo) as nat,
            children: compact_from(ns[lo].children@, 0),
        }
    } else {
        EntryV::Variants {
            id: ns[lo].id@,
            variants: variants_of(ns, sort_desc(group_keys(fp_groups(ns, lo, hi)))),
        }
    }
}

/// One variant per (count, representative) pair.
pub open spec fn variants_of(ns: Seq<TreeNode>, ks: Seq<(nat, int)>) -> Seq<VariantV>
    decreases ns, 0nat, ks.len(),
{
    if ks.len() == 0 {
        seq![]
    } else {
        let k = ks.last();
        let v = if 0 <= k.1 < ns.len() {
            VariantV { count: k.0, children: compact_from(ns[k.1].children@, 0) }
        } else {
            VariantV { count: k.0, children: seq![] }
        };
        variants_of(ns, ks.drop_last()).push(v)
    }
}

/// The compact form of a list of sibling nodes.
pub open spec fn compact(ns: Seq<TreeNode>) -> Seq<EntryV> {
    compact_from(ns, 0)
}


// ---------------------------------------------------------------------------
// Compaction keeps count of every sibling
// ---------------------------------------------------------------------------

/// The counts of some variants, added up.
pub open spec fn variant_counts(vs: Seq<VariantV>) -> nat
    decreases vs.len(),
{
    if vs.len() == 0 {
        0
    } else {
        variant_counts(vs.drop_last()) + vs.last().count
    }
}

/// How many sibling nodes an entry made by compaction stands for: one for
/// a singleton, its count for identical siblings, the counts of its
/// variants for a group of variants. (Compaction makes no contexts and no
/// mixed groups; they count for nothing here.)
pub open spec fn entry_weight(e: EntryV) -> nat {
    match e {
        EntryV::Singleton { .. } => 1,
        EntryV::Homogeneous { count, .. } => count,
        EntryV::Variants { variants, .. } => variant_counts(variants),
        _ => 0,
    }
}

/// The weights of some entries, added up.
pub open spec fn entry_weights(es: Seq<EntryV>) -> nat
    decreases es.len(),
{
    if es.len() == 0 {
        0
    } else {
        entry_weight(es[0]) + entry_weights(es.drop_first())
    }
}

/// The counts of some fingerprint groups, added up.
pub open spec fn group_counts(gs: Seq<FpGroup>) -> nat
    decreases gs.len(),
{
    if gs.len() == 0 {
        0
    } else {
        group_counts(gs.drop_last()) + gs.last().count
    }
}

/// The counts of some (count, representative) pairs, added up.
pub open spec fn key_counts(ks: Seq<(nat, int)>) -> nat
    decreases ks.len(),
{
    if ks.len() == 0 {
        0
    } else {
        key_counts(ks.drop_last()) + ks.last().0
    }
}

pub(crate) proof fn lemma_fp_find(gs: Seq<FpGroup>, f: Seq<char>)
    ensures
        -1 <= fp_find(gs, f) < gs.len(),
    decreases gs.len(),
{
    if gs.len() > 0 && gs.last().fp != f {
        lemma_fp_find(gs.drop_last(), f);
    }
}

proof fn lemma_group_counts_update(gs: Seq<FpGroup>, k: int, g: FpGroup)
    requires
        0 <= k < gs.len(),
    ensures
        group_counts(gs.update(k, g)) + gs[k].count == group_counts(gs) + g.count,
    decreases gs.len(),
{
    let u = gs.update(k, g);
    if k == gs.len() - 1 {
        assert(u.drop_last() =~= gs.drop_last());
    } else {
        assert(u.drop_last() =~= gs.drop_last().update(k, g));
        lemma_group_counts_update(gs.drop_last(), k, g);
    }
}

proof fn lemma_fp_group_counts(ns: Seq<TreeNode>, lo: int, hi: int)
    requires
        lo <= hi,
    ensures
        group_counts(fp_groups(ns, lo, hi)) == hi - lo,
    decreases hi - lo,
{
    if hi > lo {
        lemma_fp_group_counts(ns, lo, hi - 1);
        let gs = fp_groups(ns, lo, hi - 1);
        let f = fingerprint(ns[hi - 1]);
        let k = fp_find(gs, f);
        lemma_fp_find(gs, f);
        if k >= 0 {
            lemma_group_counts_update(gs, k, FpGroup { fp: f, count: gs[k].count + 1, rep: gs[k].rep });
        } else {
            let g = FpGroup { fp: f, count: 1, rep: hi - 1 };
            assert(gs.push(g).drop_last() =~= gs);
        }
    }
}

proof fn lemma_key_counts_of_groups(gs: Seq<FpGroup>)
    ensures
        key_counts(group_keys(gs)) == group_counts(gs),
    decreases gs.len(),
{
    if gs.len() > 0 {
        assert(group_keys(gs).drop_last() =~= group_keys(gs.drop_last()));
        lemma_key_counts_of_groups(gs.drop_last());
    }
}

proof fn lemma_ins_pos(s: Seq<(nat, int)>, c: nat)
    ensures
        0 <= ins_pos(s, c) <= s.len(),
    decreases s.len(),
{
    if s.len() > 0 && s.last().0 < c {
        lemma_ins_pos(s.drop_last(), c);
    }
}

proof fn lemma_key_counts_insert(s: Seq<(nat, int)>, i: int, x: (nat, int))
    requires
        0 <= i <= s.len(),
    ensures
        key_counts(s.insert(i, x)) == key_counts(s) + x.0,
    decreases s.len(),
{
    let t = s.insert(i, x);
    if i == s.len() {
        assert(t.drop_last() =~= s);
    } else {
        assert(t.drop_last() =~= s.drop_last().insert(i, x));
        lemma_key_counts_insert(s.drop_last(), i, x);
    }
}

proof fn lemma_sort_desc_counts(s: Seq<(nat, int)>)
    ensures
        key_counts(sort_desc(s)) == key_counts(s),
    decreases s.len(),
{
    if s.len() > 0 {
        let r = sort_desc(s.drop_last());
        lemma_sort_desc_counts(s.drop_last());
        lemma_ins_pos(r, s.last().0);
        lemma_key_counts_insert(r, ins_pos(r, s.last().0), s.last());
    }
}

proof fn lemma_variants_of_counts(ns: Seq<TreeNode>, ks: Seq<(nat, int)>)
    ensures
        variant_counts(variants_of(ns, ks)) == key_counts(ks),
    decreases ks.len(),
{
    if ks.len() > 0 {
        lemma_variants_of_counts(ns, ks.drop_last());
        assert(variants_of(ns, ks).drop_last() =~= variants_of(ns, ks.drop_last()));
    }
}

pub(crate) proof fn lemma_group_entry_weight(ns: Seq<TreeNode>, lo: int, hi: int)
    requires
        0 <= lo < hi <= ns.len(),
    ensures
        entry_weight(group_entry(ns, lo, hi)) == hi - lo,
{
    if hi - lo > 1 && fp_groups(ns, lo, hi).len() != 1 {
        let gs = fp_groups(ns, lo, hi);
        lemma_fp_group_counts(ns, lo, hi);
        lemma_key_counts_of_groups(gs);
        lemma_sort_desc_counts(group_keys(gs));
        lemma_variants_of_counts(ns, sort_desc(group_keys(gs)));
    }
}

proof fn lemma_compact_from_weights(ns: Seq<TreeNode>, lo: int)
    requires
        0 <= lo <= ns.len(),
    ensures
        entry_weights(compact_from(ns, lo)) == ns.len() - lo,
    decreases ns.len() - lo,
{
    if lo < ns.len() {
        lemma_run_end(ns, lo);
        let hi = run_end(ns, lo);
        lemma_compact_from_weights(ns, hi);
        lemma_group_entry_weight(ns, lo, hi);
        let es = compact_from(ns, lo);
        assert(es.drop_first() =~= compact_from(ns, hi));
    }
}

/// Compaction loses no sibling and counts none twice: the entries made
/// from a list of sibling nodes stand for exactly as many nodes as the
/// list holds.
pub proof fn lemma_compaction_counts_every_sibling(ns: Seq<TreeNode>)
    ensures
        entry_weights(compact(ns)) == ns.len(),
{
    lemma_compact_from_weights(ns, 0);
}

// ---------------------------------------------------------------------------
// Compaction: implementation
// ---------------------------------------------------------------------------

proof fn lemma_join_ids_take(cs: Seq<TreeNode>, i: int)
    requires
        0 < i < cs.len(),
    ensures
        join_ids(cs.take(i + 1)) == join_ids(cs.take(i)) + seq![','] + cs[i].id@,
{
    assert(cs.take(i + 1).drop_last() =~= cs.take(i));
}

/// Computes a fingerprint for a node's child structure, used to tell
/// variants (same id, different children) apart.
pub fn child_fingerprint(node: &TreeNode) -> (r: String)
    ensures
        r@ == fingerprint(*node),
{
    let mut out = String::new();
    let n = node.children.len();
    let mut i: usize = 0;
    while i < n
        invariant
            n == node.children@.len(),
            i <= n,
            out@ == join_ids(node.children@.take(i as int)),
        decreases n - i,
    {
        if i > 0 {
            push_char(&mut out, ',');
            proof { lemma_join_ids_take(node.children@, i as int); }
        } else {
            assert(node.children@.take(1) =~= seq![node.children@[0]]);
        }
        out.append(node.children[i].id.as_str());
        i = i + 1;
    }
    assert(node.children@.take(n as int) =~= node.children@);
    out
}

/// Converts a single node to a singleton entry.
pub fn node_to_entry(node: &TreeNode) -> (r: TreeEntry)
    ensures
        entry_view(r) == (EntryV::Singleton { id: node.id@, children: compact(node.children@) }),
    decreases node, 4nat,
{
    let children = compact_siblings(node.children.as_slice());
    TreeEntry::Singleton { id: node.id.clone(), children }
}

/// Valid positions into a slice of nodes.
pub open spec fn valid_sel(ns: Seq<TreeNode>, sel: Seq<usize>) -> bool {
    forall|i: int| 0 <= i < sel.len() ==> (#[trigger] sel[i]) < ns.len()
}

fn run_end_sel(ns: &[TreeNode], sel: &Vec<usize>, lo: usize) -> (hi: usize)
    requires
        valid_sel(ns@, sel@),
        lo < sel.len(),
    ensures
        hi == run_end(select(ns@, sel@), lo as int),
{
    let ghost s = select(ns@, sel@);
    let n = sel.len();
    let mut hi = lo + 1;
    while hi < n && ns[sel[hi]].id == ns[sel[hi - 1]].id
        invariant
            valid_sel(ns@, sel@),
            s == select(ns@, sel@),
            n == sel.len(),
            lo < hi <= n,
            run_end(s, lo as int) == run_end(s, hi - 1),
        decreases n - hi,
    {
        assert(s[hi as int] == ns@[sel@[hi as int] as int]);
        assert(s[hi - 1] == ns@[sel@[hi - 1] as int]);
        hi = hi + 1;
    }
    if hi < n {
        assert(s[hi as int] == ns@[sel@[hi as int] as int]);
        assert(s[hi - 1] == ns@[sel@[hi - 1] as int]);
    }
    hi
}

/// Mathematical value of the parallel group vectors.
pub open spec fn groups_of(fps: Seq<String>, counts: Seq<usize>, reps: Seq<usize>) -> Seq<FpGroup> {
    Seq::new(fps.len(), |i: int| FpGroup { fp: fps[i]@, count: counts[i] as nat, rep: reps[i] as int })
}

proof fn lemma_fp_find_bound(gs: Seq<FpGroup>, f: Seq<char>)
    ensures
        -1 <= fp_find(gs, f) < gs.len(),
        fp_find(gs, f) >= 0 ==> gs[fp_find(gs, f)].fp == f,
    decreases gs.len(),
{
    if gs.len() > 0 {
        lemma_fp_find_bound(gs.drop_last(), f);
    }
}

proof fn lemma_fp_groups_facts(ns: Seq<TreeNode>, lo: int, hi: int)
    requires
        lo <= hi,
    ensures
        fp_groups(ns, lo, hi).len() <= hi - lo,
        forall|k: int| 0 <= k < fp_groups(ns, lo, hi).len() ==> lo <= (#[trigger] fp_groups(ns, lo, hi)[k]).rep < hi,
        forall|k: int| 0 <= k < fp_groups(ns, lo, hi).len() ==> 1 <= (#[trigger] fp_groups(ns, lo, hi)[k]).count <= hi - lo,
        hi > lo ==> fp_groups(ns, lo, hi).len() >= 1,
    decreases hi - lo,
{
    if hi > lo {
        lemma_fp_groups_facts(ns, lo, hi - 1);
        let gs = fp_groups(ns, lo, hi - 1);
        lemma_fp_find_bound(gs, fingerprint(ns[hi - 1]));
    }
}

fn fp_groups_sel(ns: &[TreeNode], sel: &Vec<usize>, lo: usize, hi: usize) -> (r: (Vec<String>, Vec<usize>, Vec<usize>))
    requires
        valid_sel(ns@, sel@),
        lo <= hi <= sel.len(),
    ensures
        r.0@.len() == r.1@.len() == r.2@.len(),
        groups_of(r.0@, r.1@, r.2@) == fp_groups(select(ns@, sel@), lo as int, hi as int),
{
    let ghost s = select(ns@, sel@);
    let mut fps: Vec<String> = Vec::new();
    let mut counts: Vec<usize> = Vec::new();
    let mut reps: Vec<usize> = Vec::new();
    let mut k = lo;
    assert(groups_of(fps@, counts@, reps@) =~= fp_groups(s, lo as int, lo as int));
    while k < hi
        invariant
            valid_sel(ns@, sel@),
            s == select(ns@, sel@),
            lo <= k <= hi <= sel.len(),
            fps@.len() == counts@.len() == reps@.len(),
            groups_of(fps@, counts@, reps@) == fp_groups(s, lo as int, k as int),
        decreases hi - k,
    {
        let ghost gs = groups_of(fps@, counts@, reps@);
        proof {
            lemma_fp_groups_facts(s, lo as int, k as int);
        }
        let f = child_fingerprint(&ns[sel[k]]);
        assert(s[k as int] == ns@[sel@[k as int] as int]);
        // search from the last group down
        let mut j = fps.len();
        let mut found: Option<usize> = None;
        assert(gs.take(j as int) =~= gs);
        while j > 0
            invariant_except_break
                j <= fps@.len(),
                fps@.len() == counts@.len() == reps@.len(),
                gs == groups_of(fps@, counts@, reps@),
                found is None,
                fp_find(gs, f@) == fp_find(gs.take(j as int), f@),
            ensures
                fps@.len() == counts@.len() == reps@.len(),
                gs == groups_of(fps@, counts@, reps@),
                match found {
                    Some(idx) => idx < fps@.len() && fp_find(gs, f@) == idx,
                    None => fp_find(gs, f@) == -1,
                },
            decreases j,
        {
            assert(gs.take(j as int).drop_last() =~= gs.take(j - 1));
            if fps[j - 1] == f {
                assert(gs.take(j as int).last() == gs[j - 1]);
                found = Some(j - 1);
                break;
            }
            j = j - 1;
        }
        match found {
            Some(idx) => {
                proof {
                    lemma_fp_groups_facts(s, lo as int, k as int);
                    lemma_fp_find_bound(gs, f@);
                }
                let c = counts[idx];
                counts[idx] = c + 1;
                proof {
                    assert(groups_of(fps@, counts@, reps@) =~= gs.update(
                        idx as int,
                        FpGroup { fp: f@, count: gs[idx as int].count + 1, rep: gs[idx as int].rep },
                    ));
                }
            },
            None => {

                fps.push(f);
                counts.push(1);
                reps.push(k);
                proof {
                    assert(groups_of(fps@, counts@, reps@) =~= gs.push(
                        FpGroup { fp: fingerprint(s[k as int]), count: 1, rep: k as int },
                    ));
                }
            },
        }
        k = k + 1;
    }
    (fps, counts, reps)
}


/// Mathematical value of parallel (count, representative) vectors.
pub open spec fn keys_of(counts: Seq<usize>, reps: Seq<usize>) -> Seq<(nat, int)> {
    Seq::new(counts.len(), |i: int| (counts[i] as nat, reps[i] as int))
}

proof fn lemma_ins_pos_bound(r: Seq<(nat, int)>, c: nat)
    ensures
        0 <= ins_pos(r, c) <= r.len(),
    decreases r.len(),
{
    if r.len() > 0 {
        lemma_ins_pos_bound(r.drop_last(), c);
    }
}

fn sort_groups(counts: &Vec<usize>, reps: &Vec<usize>) -> (r: (Vec<usize>, Vec<usize>))
    requires
        counts@.len() == reps@.len(),
    ensures
        r.0@.len() == r.1@.len(),
        keys_of(r.0@, r.1@) == sort_desc(keys_of(counts@, reps@)),
        forall|i: int| 0 <= i < r.1@.len() ==> exists|j: int| 0 <= j < reps@.len() && (#[trigger] r.1@[i]) == reps@[j],
{
    let ghost ks = keys_of(counts@, reps@);
    let m = counts.len();
    let mut sc: Vec<usize> = Vec::new();
    let mut sr: Vec<usize> = Vec::new();
    let mut t: usize = 0;
    assert(ks.take(0) =~= Seq::<(nat, int)>::empty());
    while t < m
        invariant
            m == counts@.len() == reps@.len(),
            ks == keys_of(counts@, reps@),
            t <= m,
            sc@.len() == sr@.len(),
            keys_of(sc@, sr@) == sort_desc(ks.take(t as int)),
            forall|i: int| 0 <= i < sr@.len() ==> exists|j: int| 0 <= j < reps@.len() && (#[trigger] sr@[i]) == reps@[j],
        decreases m - t,
    {
        let c = counts[t];
        let ghost cur = keys_of(sc@, sr@);
        let ghost old_sr = sr@;
        let mut j = sc.len();
        assert(cur.take(j as int) =~= cur);
        while j > 0 && sc[j - 1] < c
            invariant
                j <= sc@.len(),
                sc@.len() == sr@.len(),
                cur == keys_of(sc@, sr@),
                old_sr == sr@,
                ins_pos(cur, c as nat) == ins_pos(cur.take(j as int), c as nat),
            decreases j,
        {
            assert(cur.take(j as int).drop_last() =~= cur.take(j - 1));
            j = j - 1;
        }
        proof {
            if j > 0 {
                assert(cur.take(j as int).last() == cur[j - 1]);
            }
            assert(ins_pos(cur, c as nat) == j);
            assert(ks.take(t + 1).drop_last() =~= ks.take(t as int));
            assert(ks.take(t + 1).last() == (c as nat, reps@[t as int] as int));
        }
        sc.insert(j, c);
        sr.insert(j, reps[t]);
        proof {
            assert(keys_of(sc@, sr@) =~= cur.insert(j as int, (c as nat, reps@[t as int] as int)));
            assert forall|i: int| 0 <= i < sr@.len() implies exists|j2: int| 0 <= j2 < reps@.len() && (#[trigger] sr@[i]) == reps@[j2] by {
                if i < j {
                    assert(sr@[i] == old_sr[i]);
                } else if i == j {
                    assert(sr@[i] == reps@[t as int]);
                } else {
                    assert(sr@[i] == old_sr[i - 1]);
                }
            }
        }
        t = t + 1;
    }
    assert(ks.take(m as int) =~= ks);
    (sc, sr)
}

/// The positions `0..n`.
pub fn all_positions(n: usize) -> (v: Vec<usize>)
    ensures
        v@.len() == n,
        forall|i: int| 0 <= i < n ==> v@[i] == i,
{
    let mut v: Vec<usize> = Vec::new();
    let mut i: usize = 0;
    while i < n
        invariant
            i <= n,
            v@.len() == i,
            forall|k: int| 0 <= k < i ==> v@[k] == k,
        decreases n - i,
    {
        v.push(i);
        i = i + 1;
    }
    v
}

/// Compacts a list of sibling nodes into tree entries: one entry per run
/// of consecutive nodes with the same id.
pub fn compact_siblings(ns: &[TreeNode]) -> (r: Vec<TreeEntry>)
    ensures
        entries_view(r@) == compact(ns@),
    decreases ns@, 3nat,
{
    let sel = all_positions(ns.len());
    assert(select(ns@, sel@) =~= ns@);
    compact_sel(ns, &sel)
}

fn compact_sel(ns: &[TreeNode], sel: &Vec<usize>) -> (r: Vec<TreeEntry>)
    requires
        valid_sel(ns@, sel@),
    ensures
        entries_view(r@) == compact(select(ns@, sel@)),
    decreases ns@, 2nat,
{
    let ghost s = select(ns@, sel@);
    let n = sel.len();
    let mut out: Vec<TreeEntry> = Vec::new();
    let mut lo: usize = 0;
    while lo < n
        invariant
            valid_sel(ns@, sel@),
            s == select(ns@, sel@),
            n == sel.len(),
            lo <= n,
            entries_view(out@) + compact_from(s, lo as int) == compact_from(s, 0),
        decreases n - lo,
    {
        let hi = run_end_sel(ns, sel, lo);
        proof { lemma_run_end(s, lo as int); }
        let e = compact_same_id_group(ns, sel, lo, hi);
        let ghost before = out@;
        out.push(e);
        proof {
            lemma_entries_view_push(before, e);
            assert(entries_view(out@) + compact_from(s, hi as int) =~= entries_view(before) + compact_from(s, lo as int));
        }
        lo = hi;
    }
    assert(entries_view(out@) + compact_from(s, n as int) =~= entries_view(out@));
    out
}

fn compact_same_id_group(ns: &[TreeNode], sel: &Vec<usize>, lo: usize, hi: usize) -> (r: TreeEntry)
    requires
        valid_sel(ns@, sel@),
        lo < hi <= sel.len(),
    ensures
        entry_view(r) == group_entry(select(ns@, sel@), lo as int, hi as int),
    decreases ns@, 1nat,
{
    let ghost s = select(ns@, sel@);
    let first = &ns[sel[lo]];
    assert(s[lo as int] == ns@[sel@[lo as int] as int]);
    if hi - lo == 1 {
        return node_to_entry(first);
    }
    let (fps, counts, reps) = fp_groups_sel(ns, sel, lo, hi);
    if fps.len() == 1 {
        let children = compact_siblings(first.children.as_slice());
        return TreeEntry::Homogeneous { id: first.id.clone(), count: hi - lo, children };
    }
    let (sc, sr) = sort_groups(&counts, &reps);
    proof {
        lemma_fp_groups_facts(s, lo as int, hi as int);
        let gs = fp_groups(s, lo as int, hi as int);
        assert(keys_of(counts@, reps@) =~= group_keys(gs));
        assert forall|i: int| 0 <= i < sr@.len() implies (#[trigger] sr@[i]) < sel@.len() by {
            let j = choose|j: int| 0 <= j < reps@.len() && sr@[i] == reps@[j];
            assert(reps@[j] as int == gs[j].rep);
        }
    }
    let variants = variants_sel(ns, sel, &sc, &sr);
    TreeEntry::Variants { id: first.id.clone(), variants }
}

fn variants_sel(ns: &[TreeNode], sel: &Vec<usize>, sc: &Vec<usize>, sr: &Vec<usize>) -> (r: Vec<Variant>)
    requires
        valid_sel(ns@, sel@),
        sc@.len() == sr@.len(),
        forall|i: int| 0 <= i < sr@.len() ==> (#[trigger] sr@[i]) < sel@.len(),
    ensures
        variants_view(r@) == variants_of(select(ns@, sel@), keys_of(sc@, sr@)),
    decreases ns@, 0nat,
{
    let ghost s = select(ns@, sel@);
    let ghost ks = keys_of(sc@, sr@);
    let m = sc.len();
    let mut out: Vec<Variant> = Vec::new();
    let mut t: usize = 0;
    assert(ks.take(0) =~= Seq::<(nat, int)>::empty());
    while t < m
        invariant
            valid_sel(ns@, sel@),
            s == select(ns@, sel@),
            ks == keys_of(sc@, sr@),
            m == sc@.len() == sr@.len(),
            forall|i: int| 0 <= i < sr@.len() ==> (#[trigger] sr@[i]) < sel@.len(),
            t <= m,
            variants_view(out@) == variants_of(s, ks.take(t as int)),
        decreases m - t,
    {
        let rep = sr[t];
        let node = &ns[sel[rep]];
        assert(s[rep as int] == ns@[sel@[rep as int] as int]);
        let children = compact_siblings(node.children.as_slice());
        let v = Variant { count: sc[t], children };
        let ghost before = out@;
        out.push(v);
        proof {
            lemma_variants_view_push(before, v);
            assert(ks.take(t + 1).drop_last() =~= ks.take(t as int));
            assert(ks.take(t + 1).last() == ks[t as int]);
        }
        t = t + 1;
    }
    assert(ks.take(m as int) =~= ks);
    out
}


// ---------------------------------------------------------------------------
// Context grouping
// ---------------------------------------------------------------------------

/// The names of the contexts enclosing a node, outermost first.
pub open spec fn ctx_names(n: TreeNode) -> Seq<Seq<char>> {
    n.contexts@.map_values(|c: ContextInfo| c.name@)
}

/// `inner` wrapped in one context entry per element of `ctxs`, outermost
/// first.
pub open spec fn wrap_contexts(ctxs: Seq<ContextInfo>, inner: Seq<EntryV>) -> Seq<EntryV>
    decreases ctxs.len(),
{
    if ctxs.len() == 0 {
        inner
    } else {
        seq![
            EntryV::Context {
                context: ctxs[0].name@,
                description: opt_view(ctxs[0].description),
                children: wrap_contexts(ctxs.drop_first(), inner),
            },
        ]
    }
}

/// The outermost of the nested context entries (or the entries themselves
/// as a heterogeneous list when there is no context).
pub open spec fn nested_contexts(ctxs: Seq<ContextInfo>, inner: Seq<EntryV>) -> EntryV {
    if ctxs.len() == 0 {
        EntryV::Heterogeneous { items: inner }
    } else {
        wrap_contexts(ctxs, inner)[0]
    }
}

fn clone_context_name(c: &ContextInfo) -> (r: (String, Option<String>))
    ensures
        r.0@ == c.name@,
        opt_view(r.1) == opt_view(c.description),
{
    (c.name.clone(), clone_opt(&c.description))
}

/// Builds the nested context entries from a list of contexts (outermost
/// first) around the given children.
pub fn build_nested_contexts(contexts: &[ContextInfo], innermost_children: Vec<TreeEntry>) -> (r: TreeEntry)
    ensures
        entry_view(r) == nested_contexts(contexts@, entries_view(innermost_children@)),
{
    if contexts.len() == 0 {
        return TreeEntry::Heterogeneous { items: innermost_children };
    }
    let ghost inner = entries_view(innermost_children@);
    let n = contexts.len();
    let mut current = innermost_children;
    let mut i = n;
    assert(contexts@.subrange(n as int, n as int).len() == 0);
    while i > 0
        invariant
            n == contexts@.len(),
            i <= n,
            entries_view(current@) == wrap_contexts(contexts@.subrange(i as int, n as int), inner),
            i < n ==> current@.len() == 1,
        decreases i,
    {
        let (name, description) = clone_context_name(&contexts[i - 1]);
        let e = TreeEntry::Context { context: name, description, children: current };
        let mut next: Vec<TreeEntry> = Vec::new();
        next.push(e);
        proof {
            lemma_entries_view_push(Seq::<TreeEntry>::empty(), e);
            assert(Seq::<TreeEntry>::empty().push(e) =~= next@);
            assert(entries_view(Seq::<TreeEntry>::empty()) =~= Seq::<EntryV>::empty());
            let sub = contexts@.subrange(i - 1, n as int);
            assert(sub.drop_first() =~= contexts@.subrange(i as int, n as int));
            assert(sub[0] == contexts@[i - 1]);
        }
        current = next;
        i = i - 1;
    }
    assert(contexts@.subrange(0, n as int) =~= contexts@);
    proof {
        lemma_entries_view_len(current@);
    }
    let r = current.pop().unwrap();
    proof {
        assert(current@.len() == 0);
    }
    r
}

/// A slot of the top-level tree: a run of nodes without context, or the
/// first node of a context path (all nodes with that path go there).
pub enum SlotV {
    Plain(Seq<usize>),
    Ctx(int),
}

pub struct SlotState {
    pub slots: Seq<SlotV>,
    pub cur: Seq<usize>,
}

/// Node `i` has contexts and no earlier node has the same context path.
pub open spec fn is_first_ctx(ns: Seq<TreeNode>, i: int) -> bool {
    &&& ns[i].contexts@.len() > 0
    &&& forall|j: int| 0 <= j < i ==> ns[j].contexts@.len() == 0 || ctx_names(ns[j]) != ctx_names(ns[i])
}

/// The slots after the first `n` nodes, with the pending run of nodes
/// without context.
pub open spec fn slot_state(ns: Seq<TreeNode>, n: int) -> SlotState
    decreases n,
{
    if n <= 0 {
        SlotState { slots: seq![], cur: seq![] }
    } else {
        let st = slot_state(ns, n - 1);
        let i = n - 1;
        if ns[i].contexts@.len() == 0 {
            SlotState { slots: st.slots, cur: st.cur.push(i as usize) }
        } else {
            let flushed = if st.cur.len() > 0 { st.slots.push(SlotV::Plain(st.cur)) } else { st.slots };
            SlotState {
                slots: if is_first_ctx(ns, i) { flushed.push(SlotV::Ctx(i)) } else { flushed },
                cur: seq![],
            }
        }
    }
}

/// All slots, in order of first occurrence.
pub open spec fn final_slots(ns: Seq<TreeNode>) -> Seq<SlotV> {
    let st = slot_state(ns, ns.len() as int);
    if st.cur.len() > 0 { st.slots.push(SlotV::Plain(st.cur)) } else { st.slots }
}

/// Positions among the first `n` nodes that have the same context path as
/// node `rep`.
pub open spec fn ctx_members(ns: Seq<TreeNode>, rep: int, n: int) -> Seq<usize>
    decreases n,
{
    if n <= 0 {
        seq![]
    } else {
        let m = ctx_members(ns, rep, n - 1);
        if ns[n - 1].contexts@.len() > 0 && ctx_names(ns[n - 1]) == ctx_names(ns[rep]) {
            m.push((n - 1) as usize)
        } else {
            m
        }
    }
}

pub open spec fn slot_entries(ns: Seq<TreeNode>, slot: SlotV) -> Seq<EntryV> {
    match slot {
        SlotV::Plain(idx) => compact(select(ns, idx)),
        SlotV::Ctx(rep) => seq![
            nested_contexts(ns[rep].contexts@, compact(select(ns, ctx_members(ns, rep, ns.len() as int)))),
        ],
    }
}

pub open spec fn slots_entries(ns: Seq<TreeNode>, slots: Seq<SlotV>) -> Seq<EntryV>
    decreases slots.len(),
{
    if slots.len() == 0 {
        seq![]
    } else {
        slots_entries(ns, slots.drop_last()) + slot_entries(ns, slots.last())
    }
}

/// The top-level compact tree: nodes grouped under their context paths,
/// in order of first occurrence, with runs of nodes without context kept
/// in place between them.
pub open spec fn context_tree(ns: Seq<TreeNode>) -> Seq<EntryV> {
    slots_entries(ns, final_slots(ns))
}

fn same_path(a: &TreeNode, b: &TreeNode) -> (r: bool)
    ensures
        r == (ctx_names(*a) == ctx_names(*b)),
{
    let n = a.contexts.len();
    if n != b.contexts.len() {
        assert(ctx_names(*a).len() != ctx_names(*b).len());
        return false;
    }
    let mut i: usize = 0;
    while i < n
        invariant
            n == a.contexts@.len() == b.contexts@.len(),
            i <= n,
            forall|k: int| 0 <= k < i ==> a.contexts@[k].name@ == b.contexts@[k].name@,
        decreases n - i,
    {
        if a.contexts[i].name != b.contexts[i].name {
            assert(ctx_names(*a)[i as int] != ctx_names(*b)[i as int]);
            return false;
        }
        i = i + 1;
    }
    assert(ctx_names(*a) =~= ctx_names(*b));
    true
}

fn is_first_ctx_exec(ns: &[TreeNode], i: usize) -> (r: bool)
    requires
        i < ns@.len(),
        ns@[i as int].contexts@.len() > 0,
    ensures
        r == is_first_ctx(ns@, i as int),
{
    let mut j: usize = 0;
    while j < i
        invariant
            i < ns@.len(),
            j <= i,
            forall|k: int| 0 <= k < j ==> ns@[k].contexts@.len() == 0 || ctx_names(ns@[k]) != ctx_names(ns@[i as int]),
        decreases i - j,
    {
        if ns[j].contexts.len() > 0 && same_path(&ns[j], &ns[i]) {
            return false;
        }
        j = j + 1;
    }
    true
}

fn ctx_members_exec(ns: &[TreeNode], rep: usize) -> (r: Vec<usize>)
    requires
        rep < ns@.len(),
    ensures
        r@ == ctx_members(ns@, rep as int, ns@.len() as int),
        valid_sel(ns@, r@),
{
    let n = ns.len();
    let mut out: Vec<usize> = Vec::new();
    let mut k: usize = 0;
    while k < n
        invariant
            n == ns@.len(),
            rep < n,
            k <= n,
            out@ == ctx_members(ns@, rep as int, k as int),
            valid_sel(ns@, out@),
        decreases n - k,
    {
        if ns[k].contexts.len() > 0 && same_path(&ns[k], &ns[rep]) {
            out.push(k);
        }
        k = k + 1;
    }
    out
}

enum Slot {
    Plain(Vec<usize>),
    Ctx(usize),
}

spec fn slot_view(s: Slot) -> SlotV {
    match s {
        Slot::Plain(v) => SlotV::Plain(v@),
        Slot::Ctx(i) => SlotV::Ctx(i as int),
    }
}

spec fn slots_view(s: Seq<Slot>) -> Seq<SlotV> {
    s.map_values(|x: Slot| slot_view(x))
}

spec fn slot_ok(ns: Seq<TreeNode>, s: SlotV) -> bool {
    match s {
        SlotV::Plain(v) => valid_sel(ns, v),
        SlotV::Ctx(i) => 0 <= i < ns.len(),
    }
}

proof fn lemma_entries_view_concat(a: Seq<TreeEntry>, b: Seq<TreeEntry>)
    ensures
        entries_view(a + b) == entries_view(a) + entries_view(b),
    decreases b.len(),
{
    if b.len() == 0 {
        assert(a + b =~= a);
        assert(entries_view(b) =~= Seq::<EntryV>::empty());
        assert(entries_view(a) + entries_view(b) =~= entries_view(a));
    } else {
        lemma_entries_view_concat(a, b.drop_last());
        assert((a + b).drop_last() =~= a + b.drop_last());
        assert((a + b).last() == b.last());
        assert(entries_view(a + b) =~= entries_view(a) + entries_view(b));
    }
}

fn collect_slots(ns: &[TreeNode]) -> (r: Vec<Slot>)
    ensures
        slots_view(r@) == final_slots(ns@),
        forall|k: int| 0 <= k < r@.len() ==> slot_ok(ns@, #[trigger] slot_view(r@[k])),
{
    let n = ns.len();
    let mut slots: Vec<Slot> = Vec::new();
    let mut cur: Vec<usize> = Vec::new();
    let mut i: usize = 0;
    while i < n
        invariant
            n == ns@.len(),
            i <= n,
            slots_view(slots@) == slot_state(ns@, i as int).slots,
            cur@ == slot_state(ns@, i as int).cur,
            valid_sel(ns@, cur@),
            forall|k: int| 0 <= k < slots@.len() ==> slot_ok(ns@, #[trigger] slot_view(slots@[k])),
        decreases n - i,
    {
        let ghost before = slots@;
        if ns[i].contexts.len() == 0 {
            cur.push(i);
        } else {
            if cur.len() > 0 {
                let taken = cur;
                cur = Vec::new();
                slots.push(Slot::Plain(taken));
            }
            let ghost mid = slots@;
            if is_first_ctx_exec(ns, i) {
                slots.push(Slot::Ctx(i));
            }
            proof {
                assert(slots_view(mid) =~= (if slot_state(ns@, i as int).cur.len() > 0 {
                    slot_state(ns@, i as int).slots.push(SlotV::Plain(slot_state(ns@, i as int).cur))
                } else {
                    slot_state(ns@, i as int).slots
                }));
            }
        }
        proof {
            assert(slots_view(slots@) =~= slot_state(ns@, i + 1).slots);
            assert forall|k: int| 0 <= k < slots@.len() implies slot_ok(ns@, #[trigger] slot_view(slots@[k])) by {
                if k < before.len() {
                    assert(slots@[k] == before[k]);
                }
            }
        }
        i = i + 1;
    }
    if cur.len() > 0 {
        slots.push(Slot::Plain(cur));
    }
    proof {
        assert(slots_view(slots@) =~= final_slots(ns@));
    }
    slots
}

/// Builds the top-level compact tree, grouping nodes under their
/// InteractionContext ancestors and keeping the order of first occurrence.
pub fn build_context_tree(nodes: &[TreeNode]) -> (r: Vec<TreeEntry>)
    ensures
        entries_view(r@) == context_tree(nodes@),
{
    let slots = collect_slots(nodes);
    let ghost fs = final_slots(nodes@);
    let m = slots.len();
    let mut out: Vec<TreeEntry> = Vec::new();
    let mut k: usize = 0;
    assert(slots_view(slots@).take(0) =~= Seq::<SlotV>::empty());
    while k < m
        invariant
            m == slots@.len(),
            k <= m,
            fs == slots_view(slots@),
            fs == final_slots(nodes@),
            forall|j: int| 0 <= j < slots@.len() ==> slot_ok(nodes@, #[trigger] slot_view(slots@[j])),
            entries_view(out@) == slots_entries(nodes@, fs.take(k as int)),
        decreases m - k,
    {
        let ghost before = out@;
        assert(slot_ok(nodes@, slot_view(slots@[k as int])));
        match &slots[k] {
            Slot::Plain(idx) => {
                let mut part = compact_sel(nodes, idx);
                let ghost p = part@;
                out.append(&mut part);
                proof {
                    lemma_entries_view_concat(before, p);
                    assert(out@ =~= before + p);
                    assert(slot_entries(nodes@, slot_view(slots@[k as int])) == compact(select(nodes@, idx@)));
                }
            },
            Slot::Ctx(rep) => {
                let members = ctx_members_exec(nodes, *rep);
                let inner = compact_sel(nodes, &members);
                let e = build_nested_contexts(nodes[*rep].contexts.as_slice(), inner);
                out.push(e);
                proof {
                    lemma_entries_view_push(before, e);
                }
            },
        }
        proof {
            assert(fs.take(k + 1).drop_last() =~= fs.take(k as int));
            assert(fs.take(k + 1).last() == fs[k as int]);
            assert(fs[k as int] == slot_view(slots@[k as int]));
        }
        k = k + 1;
    }
    assert(fs.take(m as int) =~= fs);
    out
}


// ---------------------------------------------------------------------------
// Schemas
// ---------------------------------------------------------------------------

/// Warning emitted when schema extraction finds inconsistencies.
#[derive(Debug, Clone, PartialEq, Eq)]
pub struct SchemaWarning {
    pub id: String,
    pub message: String,
}

impl Schema {
    /// The schema a node declares: its id and widget type.
    pub fn from_tree_node(node: &TreeNode) -> (r: Schema)
        ensures
            r.id@ == node.id@,
            opt_view(r.widget_type) == opt_view(node.widget_type),
            r.description is None,
            r.capabilities@.len() == 0,
            r.actions@.len() == 0,
    {
        Schema {
            id: node.id.clone(),
            description: None,
            widget_type: clone_opt(&node.widget_type),
            capabilities: Vec::new(),
            actions: Vec::new(),
        }
    }
}

/// The nodes of a forest in depth-first pre-order.
pub open spec fn preorder(ns: Seq<TreeNode>) -> Seq<TreeNode>
    decreases ns,
{
    if ns.len() == 0 {
        seq![]
    } else {
        preorder_node(ns[0]) + preorder(ns.drop_first())
    }
}

/// A node followed by its descendants in depth-first pre-order.
pub open spec fn preorder_node(n: TreeNode) -> Seq<TreeNode>
    decreases n,
{
    seq![n] + preorder(n.children@)
}

proof fn lemma_preorder_push(ns: Seq<TreeNode>, n: TreeNode)
    ensures
        preorder(ns.push(n)) == preorder(ns) + preorder_node(n),
    decreases ns.len(),
{
    if ns.len() == 0 {
        assert(ns.push(n).drop_first() =~= Seq::<TreeNode>::empty());
        assert(preorder(Seq::<TreeNode>::empty()) =~= Seq::<TreeNode>::empty());
        assert(preorder(ns.push(n)) =~= preorder_node(n));
        assert(preorder(ns) + preorder_node(n) =~= preorder_node(n));
    } else {
        assert(ns.push(n).drop_first() =~= ns.drop_first().push(n));
        lemma_preorder_push(ns.drop_first(), n);
        assert(ns.push(n)[0] == ns[0]);
        assert(preorder(ns.push(n)) =~= preorder(ns) + preorder_node(n));
    }
}

/// Some node of `pre` has id `k`.
pub open spec fn has_id(pre: Seq<TreeNode>, k: Seq<char>) -> bool {
    exists|i: int| 0 <= i < pre.len() && pre[i].id@ == k
}

/// The widget type of the first node of `pre` with id `k`.
pub open spec fn first_widget_type(pre: Seq<TreeNode>, k: Seq<char>) -> Option<Seq<char>>
    decreases pre.len(),
{
    if pre.len() == 0 {
        None
    } else if has_id(pre.drop_last(), k) {
        first_widget_type(pre.drop_last(), k)
    } else {
        opt_view(pre.last().widget_type)
    }
}

/// The `Debug` rendering of an optional string (`None` or `Some("..")`).
pub uninterp spec fn debug_text(o: Option<Seq<char>>) -> Seq<char>;

/// Renders an optional string with its `Debug` format.
#[verifier::external_body]
fn debug_option_string(o: &Option<String>) -> (r: String)
    ensures
        r@ == debug_text(opt_view(*o)),
{
    format!("{:?}", o)
}

/// The text of a widget type mismatch warning.
pub open spec fn mismatch_message(first: Option<Seq<char>>, new: Option<Seq<char>>) -> Seq<char> {
    "widget_type mismatch: first="@ + debug_text(first) + ", new="@ + debug_text(new)
}

/// The warnings for `pre`: one per node whose id was seen before with a
/// different widget type, in order.
pub open spec fn schema_warnings(pre: Seq<TreeNode>) -> Seq<(Seq<char>, Seq<char>)>
    decreases pre.len(),
{
    if pre.len() == 0 {
        seq![]
    } else {
        let p = pre.drop_last();
        let n = pre.last();
        let w = schema_warnings(p);
        if has_id(p, n.id@) && first_widget_type(p, n.id@) != opt_view(n.widget_type) {
            w.push((n.id@, mismatch_message(first_widget_type(p, n.id@), opt_view(n.widget_type))))
        } else {
            w
        }
    }
}

pub open spec fn warnings_view(ws: Seq<SchemaWarning>) -> Seq<(Seq<char>, Seq<char>)> {
    ws.map_values(|w: SchemaWarning| (w.id@, w.message@))
}

/// Schemas sorted strictly by id.
pub open spec fn sorted_by_id(ss: Seq<Schema>) -> bool {
    forall|i: int, j: int| 0 <= i < j < ss.len() ==> lex_lt(ss[i].id@, ss[j].id@)
}

/// Schemas sorted by id never repeat an id: deduplication keeps one
/// schema per id.
pub proof fn lemma_one_schema_per_id(ss: Seq<Schema>)
    requires
        sorted_by_id(ss),
    ensures
        forall|i: int, j: int| 0 <= i < ss.len() && 0 <= j < ss.len() && i != j ==> ss[i].id@ != ss[j].id@,
{
    assert forall|i: int, j: int| 0 <= i < ss.len() && 0 <= j < ss.len() && i != j implies ss[i].id@
        != ss[j].id@ by {
        lemma_lex_irreflexive(ss[i].id@);
        if i < j {
            assert(lex_lt(ss[i].id@, ss[j].id@));
        } else {
            assert(lex_lt(ss[j].id@, ss[i].id@));
        }
    }
}

/// `ss` holds, sorted by id, one schema per id of `pre`, with the widget
/// type of the first node with that id.
pub open spec fn schemas_of(ss: Seq<Schema>, pre: Seq<TreeNode>) -> bool {
    &&& sorted_by_id(ss)
    &&& forall|i: int| 0 <= i < ss.len() ==> {
        &&& has_id(pre, (#[trigger] ss[i]).id@)
        &&& opt_view(ss[i].widget_type) == first_widget_type(pre, ss[i].id@)
        &&& ss[i].description is None
        &&& ss[i].capabilities@.len() == 0
        &&& ss[i].actions@.len() == 0
    }
    &&& forall|k: Seq<char>| has_id(pre, k) ==> exists|i: int| 0 <= i < ss.len() && (#[trigger] ss[i]).id@ == k
}

/// Extracts unique schemas from tree nodes.
struct SchemaExtractor {
    schemas: Vec<Schema>,
    warnings: Vec<SchemaWarning>,
}

impl SchemaExtractor {
    spec fn inv(self, pre: Seq<TreeNode>) -> bool {
        &&& schemas_of(self.schemas@, pre)
        &&& warnings_view(self.warnings@) == schema_warnings(pre)
    }

    fn new() -> (r: Self)
        ensures
            r.inv(seq![]),
    {
        let r = SchemaExtractor { schemas: Vec::new(), warnings: Vec::new() };
        assert(warnings_view(r.warnings@) =~= schema_warnings(seq![]));
        r
    }

    fn extract_from_nodes(&mut self, nodes: &[TreeNode], Ghost(done): Ghost<Seq<TreeNode>>)
        requires
            old(self).inv(done),
        ensures
            final(self).inv(done + preorder(nodes@)),
        decreases nodes@, 1nat,
    {
        let n = nodes.len();
        let mut i: usize = 0;
        assert(nodes@.take(0) =~= Seq::<TreeNode>::empty());
        assert(done + preorder(nodes@.take(0)) =~= done);
        while i < n
            invariant
                n == nodes@.len(),
                i <= n,
                self.inv(done + preorder(nodes@.take(i as int))),
            decreases n - i,
        {
            let ghost before = done + preorder(nodes@.take(i as int));
            self.extract_from_node(&nodes[i], Ghost(before));
            proof {
                assert(nodes@.take(i + 1) =~= nodes@.take(i as int).push(nodes@[i as int]));
                lemma_preorder_push(nodes@.take(i as int), nodes@[i as int]);
                assert(before + preorder_node(nodes@[i as int]) =~= done + preorder(nodes@.take(i + 1)));
            }
            i = i + 1;
        }
        assert(nodes@.take(n as int) =~= nodes@);
    }

    fn extract_from_node(&mut self, node: &TreeNode, Ghost(done): Ghost<Seq<TreeNode>>)
        requires
            old(self).inv(done),
        ensures
            final(self).inv(done + preorder_node(*node)),
        decreases node, 0nat,
    {
        self.record(node, Ghost(done));
        self.extract_from_nodes(node.children.as_slice(), Ghost(done.push(*node)));
        assert(done.push(*node) + preorder(node.children@) =~= done + preorder_node(*node));
    }

    fn record(&mut self, node: &TreeNode, Ghost(done): Ghost<Seq<TreeNode>>)
        requires
            old(self).inv(done),
        ensures
            final(self).inv(done.push(*node)),
    {
        let ghost post = done.push(*node);
        let ghost k = node.id@;
        assert(post.drop_last() =~= done);
        assert(post.last() == *node);
        proof {
            assert forall|q: Seq<char>| has_id(done, q) implies has_id(post, q) by {
                let i = choose|i: int| 0 <= i < done.len() && done[i].id@ == q;
                assert(post[i] == done[i]);
            }
            assert forall|q: Seq<char>| q != k && has_id(post, q) implies has_id(done, q) by {
                let i = choose|i: int| 0 <= i < post.len() && post[i].id@ == q;
                assert(i < done.len());
                assert(post[i] == done[i]);
            }
            assert(has_id(post, k)) by {
                assert(post[done.len() as int].id@ == k);
            }
        }
        let n = self.schemas.len();
        let mut j: usize = 0;
        while j < n && !(self.schemas[j].id == node.id)
            invariant
                n == self.schemas@.len(),
                j <= n,
                k == node.id@,
                forall|t: int| 0 <= t < j ==> self.schemas@[t].id@ != k,
            decreases n - j,
        {
            j = j + 1;
        }
        if j < n {
            // Seen before: keep the first schema, warn on a different widget type.
            assert(self.schemas@[j as int].id@ == k);
            assert(has_id(done, k));
            let existing = clone_opt(&self.schemas[j].widget_type);
            if !same_opt(&existing, &node.widget_type) {
                let mut message = String::from_str("widget_type mismatch: first=");
                message.append(debug_option_string(&existing).as_str());
                message.append(", new=");
                message.append(debug_option_string(&node.widget_type).as_str());
                let ghost ws = self.warnings@;
                self.warnings.push(SchemaWarning { id: node.id.clone(), message });
                assert(warnings_view(self.warnings@) =~= warnings_view(ws).push(
                    (k, mismatch_message(first_widget_type(done, k), opt_view(node.widget_type))),
                ));
            }
            assert forall|i: int| 0 <= i < self.schemas@.len() implies
                opt_view(self.schemas@[i].widget_type) == first_widget_type(post, self.schemas@[i].id@) by {
                assert(has_id(done, self.schemas@[i].id@));
            }
        } else {
            proof {
                if has_id(done, k) {
                    let i = choose|i: int| 0 <= i < self.schemas@.len() && (#[trigger] self.schemas@[i]).id@ == k;
                    assert(self.schemas@[i].id@ != k);
                }
            }
            // First sighting: insert in id order.
            let mut p: usize = 0;
            while p < n && !str_less(node.id.as_str(), self.schemas[p].id.as_str())
                invariant
                    n == self.schemas@.len(),
                    p <= n,
                    k == node.id@,
                    forall|t: int| 0 <= t < n ==> self.schemas@[t].id@ != k,
                    forall|t: int| 0 <= t < p ==> !lex_lt(k, self.schemas@[t].id@),
                decreases n - p,
            {
                p = p + 1;
            }
            let ghost old_ss = self.schemas@;
            let schema = Schema::from_tree_node(node);
            self.schemas.insert(p, schema);
            proof {
                let ss = self.schemas@;
                assert(ss == old_ss.insert(p as int, schema));
                assert forall|t: int| 0 <= t < p implies lex_lt(old_ss[t].id@, k) by {
                    lemma_lex_total(old_ss[t].id@, k);
                }
                assert forall|a: int, b: int| 0 <= a < b < ss.len() implies lex_lt(ss[a].id@, ss[b].id@) by {
                    if b < p {
                        assert(ss[a] == old_ss[a] && ss[b] == old_ss[b]);
                    } else if b == p {
                        assert(ss[a] == old_ss[a]);
                    } else if a < p {
                        assert(ss[a] == old_ss[a] && ss[b] == old_ss[b - 1]);
                        assert(lex_lt(k, old_ss[p as int].id@));
                        if b - 1 > p {
                            lemma_lex_transitive(k, old_ss[p as int].id@, old_ss[b - 1].id@);
                        }
                        lemma_lex_transitive(old_ss[a].id@, k, old_ss[b - 1].id@);
                    } else if a == p {
                        assert(ss[b] == old_ss[b - 1]);
                        assert(lex_lt(k, old_ss[p as int].id@));
                        if b - 1 > p {
                            lemma_lex_transitive(k, old_ss[p as int].id@, old_ss[b - 1].id@);
                        }
                    } else {
                        assert(ss[a] == old_ss[a - 1] && ss[b] == old_ss[b - 1]);
                    }
                }
                assert forall|i: int| 0 <= i < ss.len() implies {
                    &&& has_id(post, (#[trigger] ss[i]).id@)
                    &&& opt_view(ss[i].widget_type) == first_widget_type(post, ss[i].id@)
                    &&& ss[i].description is None
                    &&& ss[i].capabilities@.len() == 0
                    &&& ss[i].actions@.len() == 0
                } by {
                    if i < p {
                        assert(ss[i] == old_ss[i]);
                    } else if i > p {
                        assert(ss[i] == old_ss[i - 1]);
                    }
                }
                assert forall|q: Seq<char>| has_id(post, q) implies exists|i: int| 0 <= i < ss.len() && (#[trigger] ss[i]).id@ == q by {
                    if q == k {
                        assert(ss[p as int].id@ == q);
                    } else {
                        let i = choose|i: int| 0 <= i < old_ss.len() && (#[trigger] old_ss[i]).id@ == q;
                        if i < p {
                            assert(ss[i] == old_ss[i]);
                        } else {
                            assert(ss[i + 1] == old_ss[i]);
                        }
                    }
                }
            }
        }
    }
}

/// Whether two optional strings are equal.
fn same_opt(a: &Option<String>, b: &Option<String>) -> (r: bool)
    ensures
        r == (opt_view(*a) == opt_view(*b)),
{
    match (a, b) {
        (Some(x), Some(y)) => *x == *y,
        (None, None) => true,
        _ => false,
    }
}


// ---------------------------------------------------------------------------
// Printable form
// ---------------------------------------------------------------------------

proof fn lemma_entries_view_index(es: Seq<TreeEntry>)
    ensures
        entries_view(es).len() == es.len(),
        forall|i: int| 0 <= i < es.len() ==> #[trigger] entries_view(es)[i] == entry_view(es[i]),
    decreases es.len(),
{
    if es.len() > 0 {
        lemma_entries_view_index(es.drop_last());
        assert forall|i: int| 0 <= i < es.len() implies #[trigger] entries_view(es)[i] == entry_view(es[i]) by {
            if i < es.len() - 1 {
                assert(entries_view(es)[i] == entries_view(es.drop_last())[i]);
                assert(es.drop_last()[i] == es[i]);
            }
        }
    }
}

proof fn lemma_variants_view_index(vs: Seq<Variant>)
    ensures
        variants_view(vs).len() == vs.len(),
        forall|i: int| 0 <= i < vs.len() ==> #[trigger] variants_view(vs)[i] == variant_view(vs[i]),
    decreases vs.len(),
{
    if vs.len() > 0 {
        lemma_variants_view_index(vs.drop_last());
        assert forall|i: int| 0 <= i < vs.len() implies #[trigger] variants_view(vs)[i] == variant_view(vs[i]) by {
            if i < vs.len() - 1 {
                assert(variants_view(vs)[i] == variants_view(vs.drop_last())[i]);
                assert(vs.drop_last()[i] == vs[i]);
            }
        }
    }
}

pub open spec fn connector(is_last: bool) -> Seq<char> {
    if is_last { "└── "@ } else { "├── "@ }
}

pub open spec fn continuation(is_last: bool) -> Seq<char> {
    if is_last { "    "@ } else { "│   "@ }
}

/// `: "desc"` when there is a description.
pub open spec fn desc_text(d: Option<Seq<char>>) -> Seq<char> {
    match d {
        Some(x) => ": \""@ + x + "\""@,
        None => seq![],
    }
}

/// One-line rendering of an entry, following single children with ` → `.
pub open spec fn fmt_inline(e: EntryV) -> Seq<char>
    decreases e,
{
    match e {
        EntryV::Singleton { id, children } => id + (if children.len() == 1 {
            " → "@ + fmt_inline(children[0])
        } else {
            seq![]
        }),
        EntryV::Homogeneous { id, count, children } => id + " ×"@ + decimal(count) + (if children.len() == 1 {
            " → "@ + fmt_inline(children[0])
        } else {
            seq![]
        }),
        EntryV::Context { context, description, .. } => "["@ + context + "]"@ + desc_text(description),
        EntryV::Variants { id, .. } => id,
        EntryV::Heterogeneous { .. } => "[...]"@,
    }
}

/// The lines of an entry drawn as a tree branch under `prefix`.
pub open spec fn fmt_tree(e: EntryV, prefix: Seq<char>, is_last: bool) -> Seq<char>
    decreases e, 0int,
{
    let conn = connector(is_last);
    let child_prefix = prefix + continuation(is_last);
    match e {
        EntryV::Context { context, description, children } => prefix + conn + "["@ + context + "]"@
            + desc_text(description) + "\n"@ + fmt_items(children, child_prefix, children.len() as int),
        EntryV::Singleton { id, children } => prefix + conn + id + (if children.len() == 1 {
            " → "@ + fmt_inline(children[0]) + "\n"@
        } else if children.len() == 0 {
            "\n"@
        } else {
            "\n"@ + fmt_items(children, child_prefix, children.len() as int)
        }),
        EntryV::Homogeneous { id, count, children } => prefix + conn + id + " ×"@ + decimal(count) + (
        if children.len() == 1 {
            " → "@ + fmt_inline(children[0]) + "\n"@
        } else if children.len() == 0 {
            "\n"@
        } else {
            "\n"@ + fmt_items(children, child_prefix, children.len() as int)
        }),
        EntryV::Variants { id, variants } => prefix + conn + id + "\n"@ + fmt_variants(
            variants,
            child_prefix,
            variants.len() as int,
        ),
        EntryV::Heterogeneous { items } => fmt_items(items, prefix, items.len() as int),
    }
}

/// The first `n` entries of `es` drawn under `prefix`, the last one of `es`
/// with the closing connector.
pub open spec fn fmt_items(es: Seq<EntryV>, prefix: Seq<char>, n: int) -> Seq<char>
    decreases es, n,
{
    if n <= 0 || n > es.len() {
        seq![]
    } else {
        fmt_items(es, prefix, n - 1) + fmt_tree(es[n - 1], prefix, n - 1 == es.len() - 1)
    }
}

/// The first `n` variants drawn under `prefix`.
pub open spec fn fmt_variants(vs: Seq<VariantV>, prefix: Seq<char>, n: int) -> Seq<char>
    decreases vs, n,
{
    if n <= 0 || n > vs.len() {
        seq![]
    } else {
        fmt_variants(vs, prefix, n - 1) + fmt_variant(vs[n - 1], prefix, n - 1 == vs.len() - 1)
    }
}

/// One variant: its count, then its children inline or as branches.
pub open spec fn fmt_variant(v: VariantV, prefix: Seq<char>, is_last: bool) -> Seq<char>
    decreases v, 0int,
{
    let head = prefix + connector(is_last) + "(×"@ + decimal(v.count);
    if v.children.len() == 1 {
        head + ") → "@ + fmt_inline(v.children[0]) + "\n"@
    } else if v.children.len() == 0 {
        head + ")\n"@
    } else {
        head + ")\n"@ + fmt_items(v.children, prefix + continuation(is_last), v.children.len() as int)
    }
}

fn write_connector(out: &mut String, is_last: bool)
    ensures
        final(out)@ == old(out)@ + connector(is_last),
{
    if is_last {
        out.append("└── ");
    } else {
        out.append("├── ");
    }
}

fn child_prefix_of(prefix: &String, is_last: bool) -> (r: String)
    ensures
        r@ == prefix@ + continuation(is_last),
{
    let mut p = prefix.clone();
    if is_last {
        p.append("    ");
    } else {
        p.append("│   ");
    }
    p
}

fn write_desc(out: &mut String, d: &Option<String>)
    ensures
        final(out)@ == old(out)@ + desc_text(opt_view(*d)),
{
    match d {
        Some(x) => {
            out.append(": \"");
            out.append(x.as_str());
            out.append("\"");
        },
        None => {},
    }
}

impl TreeEntry {
    /// The id of an entry, for entries that have one.
    pub fn id(&self) -> (r: Option<&str>)
        ensures
            match *self {
                TreeEntry::Context { .. } => r is None,
                TreeEntry::Heterogeneous { .. } => r is None,
                TreeEntry::Homogeneous { id, .. } => r matches Some(s) && s@ == id@,
                TreeEntry::Variants { id, .. } => r matches Some(s) && s@ == id@,
                TreeEntry::Singleton { id, .. } => r matches Some(s) && s@ == id@,
            },
    {
        match self {
            TreeEntry::Context { .. } => None,
            TreeEntry::Homogeneous { id, .. } => Some(id.as_str()),
            TreeEntry::Heterogeneous { .. } => None,
            TreeEntry::Variants { id, .. } => Some(id.as_str()),
            TreeEntry::Singleton { id, .. } => Some(id.as_str()),
        }
    }

    fn fmt_inline(&self, out: &mut String)
        ensures
            final(out)@ == old(out)@ + fmt_inline(entry_view(*self)),
        decreases self,
    {
        let ghost start = out@;
        match self {
            TreeEntry::Singleton { id, children } => {
                out.append(id.as_str());
                if children.len() == 1 {
                    out.append(" → ");
                    proof { lemma_entries_view_index(children@); }
                    children[0].fmt_inline(out);
                }
                proof { lemma_entries_view_index(children@); }
                assert(out@ =~= start + fmt_inline(entry_view(*self)));
            },
            TreeEntry::Homogeneous { id, count, children } => {
                out.append(id.as_str());
                out.append(" ×");
                push_decimal(out, *count);
                if children.len() == 1 {
                    out.append(" → ");
                    proof { lemma_entries_view_index(children@); }
                    children[0].fmt_inline(out);
                }
                proof { lemma_entries_view_index(children@); }
                assert(out@ =~= start + fmt_inline(entry_view(*self)));
            },
            TreeEntry::Context { context, description, .. } => {
                out.append("[");
                out.append(context.as_str());
                out.append("]");
                write_desc(out, description);
                assert(out@ =~= start + fmt_inline(entry_view(*self)));
            },
            TreeEntry::Variants { id, .. } => {
                out.append(id.as_str());
            },
            TreeEntry::Heterogeneous { .. } => {
                out.append("[...]");
            },
        }
    }

    #[verifier::rlimit(40)]
    fn fmt_tree(&self, out: &mut String, prefix: &String, is_last: bool)
        ensures
            final(out)@ == old(out)@ + fmt_tree(entry_view(*self), prefix@, is_last),
        decreases self, 1nat,
    {
        let ghost start = out@;
        match self {
            TreeEntry::Context { context, description, children } => {
                out.append(prefix.as_str());
                write_connector(out, is_last);
                out.append("[");
                out.append(context.as_str());
                out.append("]");
                write_desc(out, description);
                out.append("\n");
                let cp = child_prefix_of(prefix, is_last);
                let ghost mid = out@;
                write_items(children, out, &cp);
                proof { lemma_entries_view_index(children@); }
                assert(out@ =~= start + fmt_tree(entry_view(*self), prefix@, is_last));
            },
            TreeEntry::Singleton { id, children } => {
                out.append(prefix.as_str());
                write_connector(out, is_last);
                out.append(id.as_str());
                proof { lemma_entries_view_index(children@); }
                write_children(children, out, prefix, is_last);
                assert(out@ =~= start + fmt_tree(entry_view(*self), prefix@, is_last));
            },
            TreeEntry::Homogeneous { id, count, children } => {
                out.append(prefix.as_str());
                write_connector(out, is_last);
                out.append(id.as_str());
                out.append(" ×");
                push_decimal(out, *count);
                proof { lemma_entries_view_index(children@); }
                write_children(children, out, prefix, is_last);
                assert(out@ =~= start + fmt_tree(entry_view(*self), prefix@, is_last));
            },
            TreeEntry::Variants { id, variants } => {
                out.append(prefix.as_str());
                write_connector(out, is_last);
                out.append(id.as_str());
                out.append("\n");
                let cp = child_prefix_of(prefix, is_last);
                write_variants(variants, out, &cp);
                proof { lemma_variants_view_index(variants@); }
                assert(out@ =~= start + fmt_tree(entry_view(*self), prefix@, is_last));
            },
            TreeEntry::Heterogeneous { items } => {
                write_items(items, out, prefix);
                proof { lemma_entries_view_index(items@); }
            },
        }
    }
}

/// The tail of a singleton or homogeneous line: a single child inline, or
/// the children as branches.
fn write_children(children: &Vec<TreeEntry>, out: &mut String, prefix: &String, is_last: bool)
    ensures
        final(out)@ == old(out)@ + ({
            let cs = entries_view(children@);
            if cs.len() == 1 {
                " → "@ + fmt_inline(cs[0]) + "\n"@
            } else if cs.len() == 0 {
                "\n"@
            } else {
                "\n"@ + fmt_items(cs, prefix@ + continuation(is_last), cs.len() as int)
            }
        }),
    decreases children@, 1nat,
{
    let ghost start = out@;
    proof { lemma_entries_view_index(children@); }
    if children.len() == 1 {
        out.append(" → ");
        children[0].fmt_inline(out);
        out.append("\n");
        assert(out@ =~= start + (" → "@ + fmt_inline(entry_view(children@[0])) + "\n"@));
    } else if children.len() == 0 {
        out.append("\n");
    } else {
        out.append("\n");
        let cp = child_prefix_of(prefix, is_last);
        write_items(children, out, &cp);
        assert(out@ =~= start + ("\n"@ + fmt_items(entries_view(children@), cp@, children@.len() as int)));
    }
}

fn write_items(es: &Vec<TreeEntry>, out: &mut String, prefix: &String)
    ensures
        final(out)@ == old(out)@ + fmt_items(entries_view(es@), prefix@, es@.len() as int),
    decreases es@, 0nat,
{
    let ghost start = out@;
    let ghost ev = entries_view(es@);
    proof { lemma_entries_view_index(es@); }
    let n = es.len();
    let mut i: usize = 0;
    while i < n
        invariant
            n == es@.len(),
            ev == entries_view(es@),
            ev.len() == n,
            forall|k: int| 0 <= k < n ==> #[trigger] ev[k] == entry_view(es@[k]),
            i <= n,
            out@ == start + fmt_items(ev, prefix@, i as int),
        decreases n - i,
    {
        let ghost before = out@;
        es[i].fmt_tree(out, prefix, i == n - 1);
        assert(out@ =~= start + fmt_items(ev, prefix@, i + 1));
        i = i + 1;
    }
}

fn write_variants(vs: &Vec<Variant>, out: &mut String, prefix: &String)
    ensures
        final(out)@ == old(out)@ + fmt_variants(variants_view(vs@), prefix@, vs@.len() as int),
    decreases vs@, 0nat,
{
    let ghost start = out@;
    let ghost vv = variants_view(vs@);
    proof { lemma_variants_view_index(vs@); }
    let n = vs.len();
    let mut i: usize = 0;
    while i < n
        invariant
            n == vs@.len(),
            vv == variants_view(vs@),
            vv.len() == n,
            forall|k: int| 0 <= k < n ==> #[trigger] vv[k] == variant_view(vs@[k]),
            i <= n,
            out@ == start + fmt_variants(vv, prefix@, i as int),
        decreases n - i,
    {
        write_variant(&vs[i], out, prefix, i == n - 1);
        assert(out@ =~= start + fmt_variants(vv, prefix@, i + 1));
        i = i + 1;
    }
}

fn write_variant(v: &Variant, out: &mut String, prefix: &String, is_last: bool)
    ensures
        final(out)@ == old(out)@ + fmt_variant(variant_view(*v), prefix@, is_last),
    decreases v, 0nat,
{
    let ghost start = out@;
    proof { lemma_entries_view_index(v.children@); }
    out.append(prefix.as_str());
    write_connector(out, is_last);
    out.append("(×");
    push_decimal(out, v.count);
    if v.children.len() == 1 {
        out.append(") → ");
        v.children[0].fmt_inline(out);
        out.append("\n");
    } else if v.children.len() == 0 {
        out.append(")\n");
    } else {
        out.append(")\n");
        let cp = child_prefix_of(prefix, is_last);
        write_items(&v.children, out, &cp);
    }
    assert(out@ =~= start + fmt_variant(variant_view(*v), prefix@, is_last));
}


// ---------------------------------------------------------------------------
// The compact tree
// ---------------------------------------------------------------------------

/// The top-level compact tree structure.
#[derive(Debug, PartialEq, Eq)]
pub struct CompactTree {
    /// Schema definitions, sorted by id
    pub schemas: Vec<Schema>,
    /// The compacted tree entries
    pub tree: Vec<TreeEntry>,
}

/// Strings joined by a separator.
pub open spec fn join_with(items: Seq<String>, sep: Seq<char>) -> Seq<char>
    decreases items.len(),
{
    if items.len() == 0 {
        seq![]
    } else if items.len() == 1 {
        items[0]@
    } else {
        join_with(items.drop_last(), sep) + sep + items.last()@
    }
}

/// The line of the schemas section for one schema.
pub open spec fn schema_line(s: Schema) -> Seq<char> {
    "• "@ + s.id@ + desc_text(opt_view(s.description)) + (match opt_view(s.widget_type) {
        Some(w) => " ("@ + w + ")"@,
        None => seq![],
    }) + (if s.capabilities@.len() > 0 {
        " ["@ + join_with(s.capabilities@, ", "@) + "]"@
    } else {
        seq![]
    }) + (if s.actions@.len() > 0 {
        " {"@ + join_with(s.actions@, ", "@) + "}"@
    } else {
        seq![]
    }) + "\n"@
}

/// The lines of the first `n` schemas.
pub open spec fn schema_lines(ss: Seq<Schema>, n: int) -> Seq<char>
    decreases n,
{
    if n <= 0 || n > ss.len() {
        seq![]
    } else {
        schema_lines(ss, n - 1) + schema_line(ss[n - 1])
    }
}

/// The printable form: a schemas section, then a tree section, each left
/// out when empty.
pub open spec fn printable(schemas: Seq<Schema>, tree: Seq<EntryV>) -> Seq<char> {
    (if schemas.len() > 0 {
        "[Schemas]\n"@ + schema_lines(schemas, schemas.len() as int) + "\n"@
    } else {
        seq![]
    }) + (if tree.len() > 0 {
        "[Tree]\n"@ + fmt_items(tree, seq![], tree.len() as int)
    } else {
        seq![]
    })
}

fn write_joined(out: &mut String, items: &Vec<String>)
    ensures
        final(out)@ == old(out)@ + join_with(items@, ", "@),
{
    let ghost start = out@;
    let n = items.len();
    let mut i: usize = 0;
    assert(items@.take(0) =~= Seq::<String>::empty());
    while i < n
        invariant
            n == items@.len(),
            i <= n,
            out@ == start + join_with(items@.take(i as int), ", "@),
        decreases n - i,
    {
        if i > 0 {
            out.append(", ");
        }
        out.append(items[i].as_str());
        proof {
            assert(items@.take(i + 1).drop_last() =~= items@.take(i as int));
            if i == 0 {
                assert(items@.take(1) =~= seq![items@[0]]);
            }
        }
        assert(out@ =~= start + join_with(items@.take(i + 1), ", "@));
        i = i + 1;
    }
    assert(items@.take(n as int) =~= items@);
}

pub open spec fn widget_text(w: Option<Seq<char>>) -> Seq<char> {
    match w {
        Some(w) => " ("@ + w + ")"@,
        None => seq![],
    }
}

pub open spec fn list_text(items: Seq<String>, open: Seq<char>, close: Seq<char>) -> Seq<char> {
    if items.len() > 0 {
        open + join_with(items, ", "@) + close
    } else {
        seq![]
    }
}

proof fn lemma_schema_line(s: Schema)
    ensures
        schema_line(s) == "• "@ + s.id@ + desc_text(opt_view(s.description)) + widget_text(opt_view(s.widget_type))
            + list_text(s.capabilities@, " ["@, "]"@) + list_text(s.actions@, " {"@, "}"@) + "\n"@,
{
}

fn write_widget(out: &mut String, w: &Option<String>)
    ensures
        final(out)@ == old(out)@ + widget_text(opt_view(*w)),
{
    match w {
        Some(w) => {
            out.append(" (");
            out.append(w.as_str());
            out.append(")");
        },
        None => {},
    }
}

pub(crate) fn write_list(out: &mut String, items: &Vec<String>, open: &str, close: &str)
    ensures
        final(out)@ == old(out)@ + list_text(items@, open@, close@),
{
    if items.len() > 0 {
        out.append(open);
        write_joined(out, items);
        out.append(close);
    }
}

fn write_schema_line(out: &mut String, s: &Schema)
    ensures
        final(out)@ == old(out)@ + schema_line(*s),
{
    let ghost start = out@;
    out.append("• ");
    out.append(s.id.as_str());
    write_desc(out, &s.description);
    write_widget(out, &s.widget_type);
    write_list(out, &s.capabilities, " [", "]");
    write_list(out, &s.actions, " {", "}");
    out.append("\n");
    proof { lemma_schema_line(*s); }
    assert(out@ =~= start + schema_line(*s));
}

/// The first schema with id `id`.
pub open spec fn schema_of(ss: Seq<Schema>, id: Seq<char>) -> Option<Schema>
    decreases ss.len(),
{
    if ss.len() == 0 {
        None
    } else if ss[0].id@ == id {
        Some(ss[0])
    } else {
        schema_of(ss.drop_first(), id)
    }
}

/// Where no schema before `i` has id `id`, the first with it is the one at
/// `i`, or none if `i` is the end.
pub proof fn lemma_schema_of(ss: Seq<Schema>, id: Seq<char>, i: int)
    requires
        0 <= i <= ss.len(),
        forall|k: int| 0 <= k < i ==> ss[k].id@ != id,
        i < ss.len() ==> ss[i].id@ == id,
    ensures
        schema_of(ss, id) == (if i < ss.len() { Some(ss[i]) } else { None }),
    decreases i,
{
    if i > 0 {
        assert forall|k: int| 0 <= k < i - 1 implies ss.drop_first()[k].id@ != id by {
            assert(ss.drop_first()[k] == ss[k + 1]);
        }
        lemma_schema_of(ss.drop_first(), id, i - 1);
    }
}

impl CompactTree {
    /// The schemas are keyed by id: each id once, in increasing order.
    pub open spec fn wf(&self) -> bool {
        sorted_by_id(self.schemas@)
    }

    /// An empty compact tree.
    pub fn new() -> (r: Self)
        ensures
            r.schemas@.len() == 0,
            r.tree@.len() == 0,
            r.wf(),
    {
        CompactTree { schemas: Vec::new(), tree: Vec::new() }
    }

    /// Converts raw nodes into a compact tree, with the warnings of the
    /// schema extraction.
    pub fn from_tree_nodes(nodes: &[TreeNode]) -> (r: (CompactTree, Vec<SchemaWarning>))
        ensures
            schemas_of(r.0.schemas@, preorder(nodes@)),
            r.0.wf(),
            entries_view(r.0.tree@) == context_tree(nodes@),
            warnings_view(r.1@) == schema_warnings(preorder(nodes@)),
    {
        let mut extractor = SchemaExtractor::new();
        extractor.extract_from_nodes(nodes, Ghost(Seq::empty()));
        assert(Seq::<TreeNode>::empty() + preorder(nodes@) =~= preorder(nodes@));
        let tree = build_context_tree(nodes);
        let SchemaExtractor { schemas, warnings } = extractor;
        (CompactTree { schemas, tree }, warnings)
    }

    /// The schema with the given id (the first, should two have it).
    pub fn schema(&self, id: &str) -> (r: Option<&Schema>)
        ensures
            match r {
                Some(s) => s.id@ == id@ && exists|i: int| 0 <= i < self.schemas@.len() && self.schemas@[i] == *s,
                None => forall|i: int| 0 <= i < self.schemas@.len() ==> self.schemas@[i].id@ != id@,
            },
            match r {
                Some(s) => schema_of(self.schemas@, id@) == Some(*s),
                None => schema_of(self.schemas@, id@) is None,
            },
            self.wf() && r is Some ==> forall|i: int|
                0 <= i < self.schemas@.len() && (#[trigger] self.schemas@[i]).id@ == id@ ==> self.schemas@[i] == *r->0,
    {
        let key = String::from_str(id);
        let n = self.schemas.len();
        let mut i: usize = 0;
        while i < n
            invariant
                n == self.schemas@.len(),
                i <= n,
                key@ == id@,
                forall|k: int| 0 <= k < i ==> self.schemas@[k].id@ != id@,
            decreases n - i,
        {
            if self.schemas[i].id == key {
                proof {
                    lemma_schema_of(self.schemas@, id@, i as int);
                    if self.wf() {
                        lemma_one_schema_per_id(self.schemas@);
                    }
                }
                return Some(&self.schemas[i]);
            }
            i = i + 1;
        }
        proof { lemma_schema_of(self.schemas@, id@, n as int); }
        None
    }

    /// The printable form, for language-model consumption: each schema
    /// once, by increasing id, then the tree.
    pub fn to_printable(&self) -> (r: String)
        requires
            self.wf(),
        ensures
            r@ == printable(self.schemas@, entries_view(self.tree@)),
    {
        let mut out = String::new();
        let ns = self.schemas.len();
        if ns > 0 {
            out.append("[Schemas]\n");
            let mut i: usize = 0;
            while i < ns
                invariant
                    ns == self.schemas@.len(),
                    i <= ns,
                    out@ == "[Schemas]\n"@ + schema_lines(self.schemas@, i as int),
                decreases ns - i,
            {
                write_schema_line(&mut out, &self.schemas[i]);
                i = i + 1;
            }
            out.append("\n");
        }
        let ghost mid = out@;
        if self.tree.len() > 0 {
            out.append("[Tree]\n");
            let prefix = String::new();
            write_items(&self.tree, &mut out, &prefix);
            proof { lemma_entries_view_len(self.tree@); }
        }
        proof { lemma_entries_view_len(self.tree@); }
        assert(out@ =~= printable(self.schemas@, entries_view(self.tree@)));
        out
    }
}

impl Default for CompactTree {
    fn default() -> (r: Self)
        ensures
            r.schemas@.len() == 0,
            r.tree@.len() == 0,
            r.wf(),
    {
        Self::new()
    }
}


/// The runs of consecutive equal ids in `ns[lo..]`, as position ranges.
pub open spec fn runs_from(ns: Seq<TreeNode>, lo: int) -> Seq<(int, int)>
    decreases ns.len() - lo,
{
    if 0 <= lo < ns.len() {
        proof {
            lemma_run_end(ns, lo);
        }
        seq![(lo, run_end(ns, lo))] + runs_from(ns, run_end(ns, lo))
    } else {
        seq![]
    }
}

/// Groups consecutive nodes by their id.
pub fn group_by_id(nodes: &[TreeNode]) -> (r: Vec<Vec<&TreeNode>>)
    ensures
        r@.len() == runs_from(nodes@, 0).len(),
        forall|g: int| 0 <= g < r@.len() ==> {
            let (lo, hi) = runs_from(nodes@, 0)[g];
            &&& (#[trigger] r@[g])@.len() == hi - lo
            &&& forall|k: int| 0 <= k < hi - lo ==> *r@[g]@[k] == nodes@[lo + k]
        },
{
    let n = nodes.len();
    let all = all_positions(n);
    assert(select(nodes@, all@) =~= nodes@);
    let mut groups: Vec<Vec<&TreeNode>> = Vec::new();
    let mut lo: usize = 0;
    while lo < n
        invariant
            n == nodes@.len(),
            all@.len() == n,
            forall|i: int| 0 <= i < n ==> all@[i] == i,
            select(nodes@, all@) == nodes@,
            lo <= n,
            groups@.len() + runs_from(nodes@, lo as int).len() == runs_from(nodes@, 0).len(),
            forall|g: int| 0 <= g < groups@.len() ==> {
                let (a, b) = runs_from(nodes@, 0)[g];
                &&& (#[trigger] groups@[g])@.len() == b - a
                &&& forall|k: int| 0 <= k < b - a ==> *groups@[g]@[k] == nodes@[a + k]
            },
            forall|t: int| 0 <= t < runs_from(nodes@, lo as int).len() ==>
                runs_from(nodes@, 0)[groups@.len() + t] == #[trigger] runs_from(nodes@, lo as int)[t],
        decreases n - lo,
    {
        assert(valid_sel(nodes@, all@));
        let hi = run_end_sel(nodes, &all, lo);
        proof { lemma_run_end(nodes@, lo as int); }
        let mut g: Vec<&TreeNode> = Vec::new();
        let mut k = lo;
        while k < hi
            invariant
                lo <= k <= hi <= n,
                n == nodes@.len(),
                g@.len() == k - lo,
                forall|t: int| 0 <= t < k - lo ==> *g@[t] == nodes@[lo + t],
            decreases hi - k,
        {
            g.push(&nodes[k]);
            k = k + 1;
        }
        let ghost old_groups = groups@;
        let ghost rest = runs_from(nodes@, lo as int);
        assert(rest[0] == (lo as int, hi as int));
        assert(runs_from(nodes@, hi as int) =~= rest.drop_first());
        groups.push(g);
        proof {
            assert(runs_from(nodes@, 0)[old_groups.len() as int] == rest[0]);
            assert forall|gi: int| 0 <= gi < groups@.len() implies {
                let (a, b) = runs_from(nodes@, 0)[gi];
                &&& (#[trigger] groups@[gi])@.len() == b - a
                &&& forall|kk: int| 0 <= kk < b - a ==> *groups@[gi]@[kk] == nodes@[a + kk]
            } by {
                if gi < old_groups.len() {
                    assert(groups@[gi] == old_groups[gi]);
                }
            }
            assert forall|t: int| 0 <= t < runs_from(nodes@, hi as int).len() implies
                runs_from(nodes@, 0)[groups@.len() + t] == #[trigger] runs_from(nodes@, hi as int)[t] by {
                assert(runs_from(nodes@, hi as int)[t] == rest[t + 1]);
            }
        }
        lo = hi;
    }
    groups
}

} // verus!
