//! Laws of compaction and context grouping: how sibling nodes are cut
//! into runs of one id, what each run becomes, and how the top level is
//! laid out around context paths.

use vstd::prelude::*;
use crate::tree_format::{
    compact, compact_from, ctx_members, ctx_names, final_slots, fingerprint, fp_find, fp_groups, group_entry, group_keys,
    is_first_ctx, lemma_fp_find, lemma_group_entry_weight, lemma_run_end, nested_contexts, run_end, runs_from, select,
    slot_entries, slot_state, slots_entries, sort_desc, ins_pos, context_tree, variant_counts, variants_of, EntryV,
    FpGroup, SlotState, SlotV, VariantV,
};
use crate::types::TreeNode;
use crate::text::{decimal, has_infix, lemma_infix_concat, lemma_infix_trans};
use crate::tree_format::{connector, continuation, desc_text, fmt_items, fmt_tree, fmt_variant, fmt_variants, printable, Schema};

verus! {

// ---------------------------------------------------------------------------
// Runs of equal ids
// ---------------------------------------------------------------------------

/// The nodes of the runs `rs`, one run after the other.
pub open spec fn concat_runs(ns: Seq<TreeNode>, rs: Seq<(int, int)>) -> Seq<TreeNode>
    decreases rs.len(),
{
    if rs.len() == 0 {
        seq![]
    } else {
        ns.subrange(rs[0].0, rs[0].1) + concat_runs(ns, rs.drop_first())
    }
}

/// `rs` cuts `ns[lo..]` into maximal runs of equal ids: non-empty runs
/// that follow one another from `lo` to the end, each of one id, with a
/// different id in the next run.
pub open spec fn maximal_runs(ns: Seq<TreeNode>, lo: int, rs: Seq<(int, int)>) -> bool {
    &&& (rs.len() == 0 <==> lo >= ns.len())
    &&& rs.len() > 0 ==> rs[0].0 == lo && rs[rs.len() - 1].1 == ns.len()
    &&& forall|g: int| 0 <= g < rs.len() ==> {
        &&& 0 <= (#[trigger] rs[g]).0 < rs[g].1 <= ns.len()
        &&& forall|k: int| rs[g].0 <= k < rs[g].1 ==> (#[trigger] ns[k]).id@ == ns[rs[g].0].id@
    }
    &&& forall|g: int| 0 <= g < rs.len() - 1 ==> (#[trigger] rs[g]).1 == rs[g + 1].0 && ns[rs[g + 1].0].id@
        != ns[rs[g].0].id@
}

proof fn lemma_runs_from(ns: Seq<TreeNode>, lo: int)
    requires
        0 <= lo <= ns.len(),
    ensures
        maximal_runs(ns, lo, runs_from(ns, lo)),
        concat_runs(ns, runs_from(ns, lo)) == ns.subrange(lo, ns.len() as int),
    decreases ns.len() - lo,
{
    let rs = runs_from(ns, lo);
    if lo < ns.len() {
        lemma_run_end(ns, lo);
        let hi = run_end(ns, lo);
        lemma_runs_from(ns, hi);
        let rest = runs_from(ns, hi);
        assert(rs == seq![(lo, hi)] + rest);
        assert(rs.drop_first() =~= rest);
        assert forall|g: int| 0 <= g < rs.len() implies {
            &&& 0 <= (#[trigger] rs[g]).0 < rs[g].1 <= ns.len()
            &&& forall|k: int| rs[g].0 <= k < rs[g].1 ==> (#[trigger] ns[k]).id@ == ns[rs[g].0].id@
        } by {
            if g > 0 {
                assert(rs[g] == rest[g - 1]);
            }
        }
        assert forall|g: int| 0 <= g < rs.len() - 1 implies (#[trigger] rs[g]).1 == rs[g + 1].0 && ns[rs[g
            + 1].0].id@ != ns[rs[g].0].id@ by {
            assert(rs[g + 1] == rest[g]);
            if g > 0 {
                assert(rs[g] == rest[g - 1]);
            }
        }
        if rest.len() > 0 {
            assert(rs[rs.len() - 1] == rest[rest.len() - 1]);
        }
        assert(ns.subrange(lo, hi) + ns.subrange(hi, ns.len() as int) =~= ns.subrange(lo, ns.len() as int));
    } else {
        assert(ns.subrange(lo, ns.len() as int) =~= Seq::<TreeNode>::empty());
    }
}

/// Grouping by id (the runs that [`group_by_id`] returns) cuts the nodes
/// into maximal runs of equal ids, in order: the groups put together give
/// the nodes back, and neighbouring groups have different ids.
pub proof fn lemma_groups_by_id(ns: Seq<TreeNode>)
    ensures
        maximal_runs(ns, 0, runs_from(ns, 0)),
        concat_runs(ns, runs_from(ns, 0)) == ns,
{
    lemma_runs_from(ns, 0);
    assert(ns.subrange(0, ns.len() as int) =~= ns);
}

/// The id of a compact entry, where it has one.
pub open spec fn entry_id(e: EntryV) -> Option<Seq<char>> {
    match e {
        EntryV::Homogeneous { id, .. } => Some(id),
        EntryV::Singleton { id, .. } => Some(id),
        EntryV::Variants { id, .. } => Some(id),
        _ => None,
    }
}

/// What compaction makes of the run `ns[lo..hi]` of nodes with one id: a
/// singleton for one node, else a count of identical nodes or variants,
/// standing for all `hi - lo` nodes.
pub open spec fn run_entry(ns: Seq<TreeNode>, lo: int, hi: int, e: EntryV) -> bool {
    &&& entry_id(e) == Some(ns[lo].id@)
    &&& hi - lo == 1 ==> e == EntryV::Singleton { id: ns[lo].id@, children: compact(ns[lo].children@) }
    &&& hi - lo > 1 ==> (e is Homogeneous && e->Homogeneous_count == hi - lo && e->Homogeneous_children == compact(
        ns[lo].children@,
    )) || (e is Variants && variant_counts(e->Variants_variants) == hi - lo)
}

proof fn lemma_compact_from_runs(ns: Seq<TreeNode>, lo: int)
    requires
        0 <= lo <= ns.len(),
    ensures
        compact_from(ns, lo).len() == runs_from(ns, lo).len(),
        forall|g: int| 0 <= g < runs_from(ns, lo).len() ==> #[trigger] compact_from(ns, lo)[g] == group_entry(
            ns,
            runs_from(ns, lo)[g].0,
            runs_from(ns, lo)[g].1,
        ),
    decreases ns.len() - lo,
{
    if lo < ns.len() {
        lemma_run_end(ns, lo);
        let hi = run_end(ns, lo);
        lemma_compact_from_runs(ns, hi);
        let es = compact_from(ns, lo);
        let rs = runs_from(ns, lo);
        assert forall|g: int| 0 <= g < rs.len() implies #[trigger] es[g] == group_entry(ns, rs[g].0, rs[g].1) by {
            if g > 0 {
                assert(es[g] == compact_from(ns, hi)[g - 1]);
                assert(rs[g] == runs_from(ns, hi)[g - 1]);
            }
        }
    }
}

/// Compacting siblings gives one entry per maximal run of equal ids, in
/// order: the entry of a run carries its id, is a singleton (with its
/// children compacted) for a run of one, and otherwise a count of
/// identical nodes or a group of variants whose counts add up to the run's
/// length.
pub proof fn lemma_compaction_by_runs(ns: Seq<TreeNode>)
    ensures
        maximal_runs(ns, 0, runs_from(ns, 0)),
        compact(ns).len() == runs_from(ns, 0).len(),
        forall|g: int| 0 <= g < runs_from(ns, 0).len() ==> run_entry(
            ns,
            runs_from(ns, 0)[g].0,
            runs_from(ns, 0)[g].1,
            #[trigger] compact(ns)[g],
        ),
{
    lemma_runs_from(ns, 0);
    lemma_compact_from_runs(ns, 0);
    let rs = runs_from(ns, 0);
    assert forall|g: int| 0 <= g < rs.len() implies run_entry(ns, rs[g].0, rs[g].1, #[trigger] compact(ns)[g]) by {
        assert(0 <= rs[g].0 < rs[g].1 <= ns.len());
        lemma_group_entry_weight(ns, rs[g].0, rs[g].1);
    }
}

// ---------------------------------------------------------------------------
// A run of one id: identical nodes or variants
// ---------------------------------------------------------------------------

/// How many of `ns[lo..hi]` have child structure `f`.
pub open spec fn fp_count(ns: Seq<TreeNode>, lo: int, hi: int, f: Seq<char>) -> nat
    decreases hi - lo,
{
    if hi <= lo {
        0
    } else {
        fp_count(ns, lo, hi - 1, f) + if fingerprint(ns[hi - 1]) == f {
            1nat
        } else {
            0nat
        }
    }
}

/// `gs` are the child structures of `ns[lo..hi]`: each once, with how many
/// nodes have it and the first of them, and no structure left out.
pub open spec fn fp_groups_exact(ns: Seq<TreeNode>, lo: int, hi: int, gs: Seq<FpGroup>) -> bool {
    &&& forall|i: int, j: int| 0 <= i < j < gs.len() ==> (#[trigger] gs[i]).fp != (#[trigger] gs[j]).fp
    &&& forall|i: int| 0 <= i < gs.len() ==> {
        &&& (#[trigger] gs[i]).count == fp_count(ns, lo, hi, gs[i].fp)
        &&& gs[i].count >= 1
        &&& lo <= gs[i].rep < hi
        &&& fingerprint(ns[gs[i].rep]) == gs[i].fp
        &&& forall|k: int| lo <= k < gs[i].rep ==> fingerprint(#[trigger] ns[k]) != gs[i].fp
    }
    &&& forall|k: int| lo <= k < hi ==> exists|i: int| 0 <= i < gs.len() && (#[trigger] gs[i]).fp == fingerprint(
        #[trigger] ns[k],
    )
}

proof fn lemma_fp_find_props(gs: Seq<FpGroup>, f: Seq<char>)
    ensures
        fp_find(gs, f) >= 0 ==> fp_find(gs, f) < gs.len() && gs[fp_find(gs, f)].fp == f,
        fp_find(gs, f) < 0 ==> forall|i: int| 0 <= i < gs.len() ==> (#[trigger] gs[i]).fp != f,
    decreases gs.len(),
{
    if gs.len() > 0 && gs.last().fp != f {
        lemma_fp_find_props(gs.drop_last(), f);
        assert forall|i: int| 0 <= i < gs.len() - 1 implies gs.drop_last()[i] == #[trigger] gs[i] by {}
    }
}

proof fn lemma_fp_count_pos(ns: Seq<TreeNode>, lo: int, hi: int, f: Seq<char>)
    requires
        fp_count(ns, lo, hi, f) > 0,
    ensures
        exists|k: int| lo <= k < hi && fingerprint(#[trigger] ns[k]) == f,
    decreases hi - lo,
{
    if hi > lo && fingerprint(ns[hi - 1]) != f {
        lemma_fp_count_pos(ns, lo, hi - 1, f);
        let k = choose|k: int| lo <= k < hi - 1 && fingerprint(#[trigger] ns[k]) == f;
        assert(lo <= k < hi && fingerprint(ns[k]) == f);
    }
}

proof fn lemma_fp_groups_exact(ns: Seq<TreeNode>, lo: int, hi: int)
    requires
        0 <= lo <= hi <= ns.len(),
    ensures
        fp_groups_exact(ns, lo, hi, fp_groups(ns, lo, hi)),
    decreases hi - lo,
{
    if hi > lo {
        lemma_fp_groups_exact(ns, lo, hi - 1);
        let gs0 = fp_groups(ns, lo, hi - 1);
        let f = fingerprint(ns[hi - 1]);
        let k = fp_find(gs0, f);
        lemma_fp_find(gs0, f);
        lemma_fp_find_props(gs0, f);
        let gs = fp_groups(ns, lo, hi);
        if k >= 0 {
            assert(gs == gs0.update(k, FpGroup { fp: f, count: gs0[k].count + 1, rep: gs0[k].rep }));
            assert forall|i: int| 0 <= i < gs.len() implies {
                &&& (#[trigger] gs[i]).count == fp_count(ns, lo, hi, gs[i].fp)
                &&& gs[i].count >= 1
                &&& lo <= gs[i].rep < hi
                &&& fingerprint(ns[gs[i].rep]) == gs[i].fp
                &&& forall|j: int| lo <= j < gs[i].rep ==> fingerprint(#[trigger] ns[j]) != gs[i].fp
            } by {
                assert(gs0[i].fp == gs[i].fp);
            }
            assert forall|i: int, j: int| 0 <= i < j < gs.len() implies (#[trigger] gs[i]).fp != (
            #[trigger] gs[j]).fp by {
                assert(gs0[i].fp == gs[i].fp && gs0[j].fp == gs[j].fp);
            }
            assert forall|m: int| lo <= m < hi implies exists|i: int| 0 <= i < gs.len() && (#[trigger] gs[i]).fp
                == fingerprint(#[trigger] ns[m]) by {
                if m == hi - 1 {
                    assert(gs[k].fp == fingerprint(ns[m]));
                } else {
                    let i = choose|i: int| 0 <= i < gs0.len() && (#[trigger] gs0[i]).fp == fingerprint(ns[m]);
                    assert(gs[i].fp == gs0[i].fp);
                }
            }
        } else {
            let g = FpGroup { fp: f, count: 1, rep: hi - 1 };
            assert(gs == gs0.push(g));
            assert(fp_count(ns, lo, hi - 1, f) == 0) by {
                if fp_count(ns, lo, hi - 1, f) > 0 {
                    lemma_fp_count_pos(ns, lo, hi - 1, f);
                    let m = choose|m: int| lo <= m < hi - 1 && fingerprint(#[trigger] ns[m]) == f;
                    let i = choose|i: int| 0 <= i < gs0.len() && (#[trigger] gs0[i]).fp == fingerprint(ns[m]);
                    assert(gs0[i].fp != f);
                }
            }
            assert forall|j: int| lo <= j < hi - 1 implies fingerprint(#[trigger] ns[j]) != f by {
                let i = choose|i: int| 0 <= i < gs0.len() && (#[trigger] gs0[i]).fp == fingerprint(ns[j]);
                assert(gs0[i].fp != f);
            }
            assert forall|i: int| 0 <= i < gs.len() implies {
                &&& (#[trigger] gs[i]).count == fp_count(ns, lo, hi, gs[i].fp)
                &&& gs[i].count >= 1
                &&& lo <= gs[i].rep < hi
                &&& fingerprint(ns[gs[i].rep]) == gs[i].fp
                &&& forall|j: int| lo <= j < gs[i].rep ==> fingerprint(#[trigger] ns[j]) != gs[i].fp
            } by {
                if i < gs0.len() {
                    assert(gs[i] == gs0[i]);
                    assert(gs0[i].fp != f);
                }
            }
            assert forall|i: int, j: int| 0 <= i < j < gs.len() implies (#[trigger] gs[i]).fp != (
            #[trigger] gs[j]).fp by {
                assert(gs[i] == gs0[i]);
                if j < gs0.len() {
                    assert(gs[j] == gs0[j]);
                }
            }
            assert forall|m: int| lo <= m < hi implies exists|i: int| 0 <= i < gs.len() && (#[trigger] gs[i]).fp
                == fingerprint(#[trigger] ns[m]) by {
                if m == hi - 1 {
                    assert(gs[gs0.len() as int].fp == fingerprint(ns[m]));
                } else {
                    let i = choose|i: int| 0 <= i < gs0.len() && (#[trigger] gs0[i]).fp == fingerprint(ns[m]);
                    assert(gs[i] == gs0[i]);
                }
            }
        }
    }
}

/// Counts never grow along `s`.
pub open spec fn counts_non_increasing(s: Seq<(nat, int)>) -> bool {
    forall|i: int, j: int| 0 <= i < j < s.len() ==> (#[trigger] s[i]).0 >= (#[trigger] s[j]).0
}

/// `a` and `b` hold the same elements (for elements that occur once each,
/// as the keys of distinct groups do).
pub open spec fn same_elements(a: Seq<(nat, int)>, b: Seq<(nat, int)>) -> bool {
    &&& a.len() == b.len()
    &&& forall|i: int| 0 <= i < a.len() ==> b.contains(#[trigger] a[i])
    &&& forall|j: int| 0 <= j < b.len() ==> a.contains(#[trigger] b[j])
}

proof fn lemma_ins_pos_props(s: Seq<(nat, int)>, c: nat)
    ensures
        0 <= ins_pos(s, c) <= s.len(),
        forall|j: int| ins_pos(s, c) <= j < s.len() ==> (#[trigger] s[j]).0 < c,
        ins_pos(s, c) > 0 ==> s[ins_pos(s, c) - 1].0 >= c,
    decreases s.len(),
{
    if s.len() > 0 && s.last().0 < c {
        lemma_ins_pos_props(s.drop_last(), c);
        assert forall|j: int| ins_pos(s, c) <= j < s.len() implies (#[trigger] s[j]).0 < c by {
            if j < s.len() - 1 {
                assert(s[j] == s.drop_last()[j]);
            }
        }
    }
}

proof fn lemma_sort_desc(s: Seq<(nat, int)>)
    ensures
        counts_non_increasing(sort_desc(s)),
        same_elements(sort_desc(s), s),
    decreases s.len(),
{
    if s.len() > 0 {
        let p = s.drop_last();
        let x = s.last();
        lemma_sort_desc(p);
        let r = sort_desc(p);
        let i = ins_pos(r, x.0);
        lemma_ins_pos_props(r, x.0);
        let t = r.insert(i, x);
        assert(t == sort_desc(s));
        assert forall|a: int, b: int| 0 <= a < b < t.len() implies (#[trigger] t[a]).0 >= (#[trigger] t[b]).0 by {
            if b < i {
                assert(t[a] == r[a] && t[b] == r[b]);
            } else if b == i {
                assert(t[a] == r[a]);
                assert(r[a].0 >= r[i - 1].0 || a == i - 1);
            } else if a < i {
                assert(t[a] == r[a] && t[b] == r[b - 1]);
            } else if a == i {
                assert(t[b] == r[b - 1]);
            } else {
                assert(t[a] == r[a - 1] && t[b] == r[b - 1]);
            }
        }
        assert forall|a: int| 0 <= a < t.len() implies s.contains(#[trigger] t[a]) by {
            if a == i {
                assert(s[s.len() - 1] == x);
            } else {
                let y = if a < i { r[a] } else { r[a - 1] };
                assert(t[a] == y);
                assert(p.contains(y));
                let j = choose|j: int| 0 <= j < p.len() && p[j] == y;
                assert(s[j] == y);
            }
        }
        assert forall|b: int| 0 <= b < s.len() implies t.contains(#[trigger] s[b]) by {
            if b == s.len() - 1 {
                assert(t[i] == x);
            } else {
                assert(s[b] == p[b]);
                assert(r.contains(p[b]));
                let j = choose|j: int| 0 <= j < r.len() && r[j] == p[b];
                if j < i {
                    assert(t[j] == r[j]);
                } else {
                    assert(t[j + 1] == r[j]);
                }
            }
        }
    }
}

proof fn lemma_variants_of_index(ns: Seq<TreeNode>, ks: Seq<(nat, int)>)
    requires
        forall|i: int| 0 <= i < ks.len() ==> 0 <= (#[trigger] ks[i]).1 < ns.len(),
    ensures
        variants_of(ns, ks).len() == ks.len(),
        forall|i: int| 0 <= i < ks.len() ==> #[trigger] variants_of(ns, ks)[i] == (VariantV {
            count: ks[i].0,
            children: compact(ns[ks[i].1].children@),
        }),
    decreases ks.len(),
{
    if ks.len() > 0 {
        lemma_variants_of_index(ns, ks.drop_last());
        let vs = variants_of(ns, ks);
        assert forall|i: int| 0 <= i < ks.len() implies #[trigger] vs[i] == (VariantV {
            count: ks[i].0,
            children: compact(ns[ks[i].1].children@),
        }) by {
            if i < ks.len() - 1 {
                assert(ks[i] == ks.drop_last()[i]);
            }
        }
    }
}

/// A run of two or more nodes with one id: where all have the same child
/// structure it becomes one count of identical nodes (children taken from
/// the first); else one variant per child structure, with the number of
/// nodes that have it and the children of the first of them, ordered by
/// count, highest first.
pub proof fn lemma_same_id_group(ns: Seq<TreeNode>, lo: int, hi: int)
    requires
        0 <= lo,
        lo + 2 <= hi <= ns.len(),
    ensures
        fp_groups_exact(ns, lo, hi, fp_groups(ns, lo, hi)),
        (forall|k: int| lo <= k < hi ==> fingerprint(#[trigger] ns[k]) == fingerprint(ns[lo])) ==> group_entry(
            ns,
            lo,
            hi,
        ) == (EntryV::Homogeneous {
            id: ns[lo].id@,
            count: (hi - lo) as nat,
            children: compact(ns[lo].children@),
        }),
        !(forall|k: int| lo <= k < hi ==> fingerprint(#[trigger] ns[k]) == fingerprint(ns[lo])) ==> {
            let ks = sort_desc(group_keys(fp_groups(ns, lo, hi)));
            &&& group_entry(ns, lo, hi) == EntryV::Variants { id: ns[lo].id@, variants: variants_of(ns, ks) }
            &&& counts_non_increasing(ks)
            &&& same_elements(ks, group_keys(fp_groups(ns, lo, hi)))
            &&& variants_of(ns, ks).len() == ks.len()
            &&& forall|i: int| 0 <= i < ks.len() ==> #[trigger] variants_of(ns, ks)[i] == (VariantV {
                count: ks[i].0,
                children: compact(ns[ks[i].1].children@),
            })
        },
{
    let gs = fp_groups(ns, lo, hi);
    lemma_fp_groups_exact(ns, lo, hi);
    let f0 = fingerprint(ns[lo]);
    if forall|k: int| lo <= k < hi ==> fingerprint(#[trigger] ns[k]) == f0 {
        let i0 = choose|i: int| 0 <= i < gs.len() && (#[trigger] gs[i]).fp == fingerprint(ns[lo]);
        if gs.len() != 1 {
            let j = if i0 == 0 { 1int } else { 0int };
            let r = gs[j].rep;
            assert(fingerprint(ns[r]) == f0);
            assert(gs[j].fp == f0);
            if i0 < j {
                assert(gs[i0].fp != gs[j].fp);
            } else {
                assert(gs[j].fp != gs[i0].fp);
            }
        }
    } else {
        let k = choose|k: int| lo <= k < hi && fingerprint(#[trigger] ns[k]) != f0;
        let i0 = choose|i: int| 0 <= i < gs.len() && (#[trigger] gs[i]).fp == fingerprint(ns[lo]);
        let i1 = choose|i: int| 0 <= i < gs.len() && (#[trigger] gs[i]).fp == fingerprint(ns[k]);
        assert(i0 != i1);
        assert(gs.len() != 1);
        let keys = group_keys(gs);
        lemma_sort_desc(keys);
        let ks = sort_desc(keys);
        assert forall|i: int| 0 <= i < ks.len() implies 0 <= (#[trigger] ks[i]).1 < ns.len() by {
            assert(keys.contains(ks[i]));
            let j = choose|j: int| 0 <= j < keys.len() && keys[j] == ks[i];
            assert(keys[j] == (gs[j].count, gs[j].rep));
        }
        lemma_variants_of_index(ns, ks);
    }
}

/// Two or more siblings that all share one id compact to a single entry:
/// where all have the same child structure, a count of identical nodes
/// with the children of the first; else one variant per child structure
/// (each counted once, with the number of nodes that have it and the
/// children of the first of them), ordered by count, highest first.
pub proof fn lemma_compact_same_id(ns: Seq<TreeNode>)
    requires
        ns.len() >= 2,
        forall|k: int| 0 <= k < ns.len() ==> (#[trigger] ns[k]).id@ == ns[0].id@,
    ensures
        compact(ns).len() == 1,
        compact(ns)[0] == group_entry(ns, 0, ns.len() as int),
        fp_groups_exact(ns, 0, ns.len() as int, fp_groups(ns, 0, ns.len() as int)),
        (forall|k: int| 0 <= k < ns.len() ==> fingerprint(#[trigger] ns[k]) == fingerprint(ns[0])) ==> compact(ns)[0]
            == (EntryV::Homogeneous { id: ns[0].id@, count: ns.len(), children: compact(ns[0].children@) }),
        !(forall|k: int| 0 <= k < ns.len() ==> fingerprint(#[trigger] ns[k]) == fingerprint(ns[0])) ==> {
            let ks = sort_desc(group_keys(fp_groups(ns, 0, ns.len() as int)));
            &&& compact(ns)[0] == EntryV::Variants { id: ns[0].id@, variants: variants_of(ns, ks) }
            &&& counts_non_increasing(ks)
            &&& same_elements(ks, group_keys(fp_groups(ns, 0, ns.len() as int)))
            &&& variants_of(ns, ks).len() == ks.len()
            &&& forall|i: int| 0 <= i < ks.len() ==> #[trigger] variants_of(ns, ks)[i] == (VariantV {
                count: ks[i].0,
                children: compact(ns[ks[i].1].children@),
            })
        },
{
    let n = ns.len() as int;
    lemma_run_end(ns, 0);
    if run_end(ns, 0) < n {
        assert(ns[run_end(ns, 0)].id@ == ns[0].id@);
    }
    assert(run_end(ns, 0) == n);
    assert(compact_from(ns, n) == Seq::<EntryV>::empty());
    assert(compact(ns) =~= seq![group_entry(ns, 0, n)]);
    lemma_same_id_group(ns, 0, n);
}

// ---------------------------------------------------------------------------
// Context grouping
// ---------------------------------------------------------------------------

/// The node sits in at least one context.
pub open spec fn has_ctx(n: TreeNode) -> bool {
    n.contexts@.len() > 0
}

/// The first node position a slot holds.
pub open spec fn slot_first(sl: SlotV) -> int {
    match sl {
        SlotV::Plain(idx) => idx[0] as int,
        SlotV::Ctx(r) => r,
    }
}

/// The last node position a slot holds (its first node, for a context).
pub open spec fn slot_last(sl: SlotV) -> int {
    match sl {
        SlotV::Plain(idx) => idx[idx.len() - 1] as int,
        SlotV::Ctx(r) => r,
    }
}

/// `idx` are consecutive positions of nodes without context, starting
/// right after a node with one (or at the start).
pub open spec fn plain_run(ns: Seq<TreeNode>, idx: Seq<usize>) -> bool {
    &&& idx.len() > 0
    &&& forall|k: int| 0 <= k < idx.len() ==> (#[trigger] idx[k]) == idx[0] + k && (idx[k] as int) < ns.len()
        && !has_ctx(ns[idx[k] as int])
    &&& (idx[0] == 0 || has_ctx(ns[idx[0] - 1]))
}

/// A slot as the top level shows it: a maximal run of nodes without
/// context, or the first node of a context path.
pub open spec fn good_slot(ns: Seq<TreeNode>, sl: SlotV) -> bool {
    match sl {
        SlotV::Plain(idx) => plain_run(ns, idx) && (idx[idx.len() - 1] + 1 == ns.len() || has_ctx(
            ns[idx[idx.len() - 1] + 1],
        )),
        SlotV::Ctx(r) => 0 <= r < ns.len() && is_first_ctx(ns, r),
    }
}

/// What holds of the slots after the first `n` nodes.
pub open spec fn slots_inv(ns: Seq<TreeNode>, n: int, st: SlotState) -> bool {
    &&& forall|a: int, b: int| 0 <= a < b < st.slots.len() ==> slot_last(#[trigger] st.slots[a]) < slot_first(
        #[trigger] st.slots[b],
    )
    &&& forall|a: int| 0 <= a < st.slots.len() ==> good_slot(ns, #[trigger] st.slots[a]) && slot_last(st.slots[a])
        < n
    &&& forall|a: int| 0 <= a < st.slots.len() ==> (#[trigger] st.slots[a] is Plain) ==> slot_last(st.slots[a]) + 1 < n
    &&& st.cur.len() == 0 ==> n == 0 || has_ctx(ns[n - 1])
    &&& st.cur.len() > 0 ==> plain_run(ns, st.cur) && st.cur[st.cur.len() - 1] == n - 1 && forall|a: int|
        0 <= a < st.slots.len() ==> slot_last(#[trigger] st.slots[a]) < st.cur[0]
    &&& forall|i: int| 0 <= i < n && is_first_ctx(ns, i) ==> exists|a: int|
        0 <= a < st.slots.len() && #[trigger] st.slots[a] == SlotV::Ctx(i)
    &&& forall|i: int| 0 <= i < n && !has_ctx(#[trigger] ns[i]) ==> st.cur.contains(i as usize) || exists|a: int|
        0 <= a < st.slots.len() && (#[trigger] st.slots[a] matches SlotV::Plain(idx) && idx.contains(i as usize))
}

proof fn lemma_slot_state(ns: Seq<TreeNode>, n: int)
    requires
        0 <= n <= ns.len(),
        ns.len() <= usize::MAX,
    ensures
        slots_inv(ns, n, slot_state(ns, n)),
    decreases n,
{
    if n > 0 {
        lemma_slot_state(ns, n - 1);
        let st = slot_state(ns, n - 1);
        let i = n - 1;
        let nst = slot_state(ns, n);
        if !has_ctx(ns[i]) {
            assert(nst.slots == st.slots && nst.cur == st.cur.push(i as usize));
            let c = nst.cur;
            assert forall|k: int| 0 <= k < c.len() implies (#[trigger] c[k]) == c[0] + k && (c[k] as int) < ns.len()
                && !has_ctx(ns[c[k] as int]) by {
                if k < st.cur.len() {
                    assert(c[k] == st.cur[k]);
                }
                if st.cur.len() > 0 {
                    assert(c[0] == st.cur[0]);
                }
            }
            if st.cur.len() > 0 {
                assert(c[0] == st.cur[0]);
            }
            assert forall|j: int| 0 <= j < n && !has_ctx(#[trigger] ns[j]) implies nst.cur.contains(j as usize)
                || exists|a: int| 0 <= a < nst.slots.len() && (#[trigger] nst.slots[a] matches SlotV::Plain(idx)
                && idx.contains(j as usize)) by {
                if j == i {
                    assert(c[c.len() - 1] == i as usize);
                } else if st.cur.contains(j as usize) {
                    let k = choose|k: int| 0 <= k < st.cur.len() && st.cur[k] == j as usize;
                    assert(c[k] == j as usize);
                }
            }
        } else {
            let flushed = if st.cur.len() > 0 { st.slots.push(SlotV::Plain(st.cur)) } else { st.slots };
            assert(nst.cur.len() == 0);
            assert(nst.slots == (if is_first_ctx(ns, i) { flushed.push(SlotV::Ctx(i)) } else { flushed }));
            let sl = nst.slots;
            assert forall|a: int| 0 <= a < sl.len() implies (a < st.slots.len() ==> sl[a] == st.slots[a]) && (a
                == st.slots.len() && st.cur.len() > 0 ==> sl[a] == SlotV::Plain(st.cur)) && (a == flushed.len()
                ==> sl[a] == SlotV::Ctx(i)) by {}
            assert forall|a: int| 0 <= a < sl.len() implies good_slot(ns, #[trigger] sl[a]) && slot_last(sl[a]) < n by {
                if a < st.slots.len() {
                    assert(sl[a] == st.slots[a]);
                }
            }
            assert forall|a: int| 0 <= a < sl.len() implies (#[trigger] sl[a] is Plain) ==> slot_last(sl[a]) + 1 < n + 1 by {
                if a < st.slots.len() {
                    assert(sl[a] == st.slots[a]);
                }
            }
            assert forall|a: int, b: int| 0 <= a < b < sl.len() implies slot_last(#[trigger] sl[a]) < slot_first(
                #[trigger] sl[b],
            ) by {
                if b < st.slots.len() {
                    assert(sl[a] == st.slots[a] && sl[b] == st.slots[b]);
                } else if a < st.slots.len() {
                    assert(sl[a] == st.slots[a]);
                    if b == st.slots.len() && st.cur.len() > 0 {
                        assert(slot_last(st.slots[a]) < st.cur[0]);
                    }
                } else if b == flushed.len() {
                    assert(sl[a] == SlotV::Plain(st.cur));
                }
            }
            assert forall|j: int| 0 <= j < n && is_first_ctx(ns, j) implies exists|a: int|
                0 <= a < sl.len() && #[trigger] sl[a] == SlotV::Ctx(j) by {
                if j == i {
                    assert(sl[flushed.len() as int] == SlotV::Ctx(i));
                } else {
                    let a = choose|a: int| 0 <= a < st.slots.len() && #[trigger] st.slots[a] == SlotV::Ctx(j);
                    assert(sl[a] == st.slots[a]);
                }
            }
            assert forall|j: int| 0 <= j < n && !has_ctx(#[trigger] ns[j]) implies nst.cur.contains(j as usize)
                || exists|a: int| 0 <= a < sl.len() && (#[trigger] sl[a] matches SlotV::Plain(idx) && idx.contains(
                j as usize)) by {
                if st.cur.contains(j as usize) {
                    assert(sl[st.slots.len() as int] == SlotV::Plain(st.cur));
                } else {
                    let a = choose|a: int| 0 <= a < st.slots.len() && (#[trigger] st.slots[a] matches SlotV::Plain(
                        idx,
                    ) && idx.contains(j as usize));
                    assert(sl[a] == st.slots[a]);
                }
            }
        }
    }
}

/// `m` lists, in increasing order, exactly the positions below `n` of the
/// nodes whose context path is that of node `rep`.
pub open spec fn members_exact(ns: Seq<TreeNode>, rep: int, n: int, m: Seq<usize>) -> bool {
    &&& forall|a: int, b: int| 0 <= a < b < m.len() ==> (#[trigger] m[a]) < (#[trigger] m[b])
    &&& forall|a: int| 0 <= a < m.len() ==> (#[trigger] m[a]) < n && has_ctx(ns[m[a] as int]) && ctx_names(
        ns[m[a] as int],
    ) == ctx_names(ns[rep])
    &&& forall|i: int| 0 <= i < n && has_ctx(#[trigger] ns[i]) && ctx_names(ns[i]) == ctx_names(ns[rep]) ==> m.contains(
        i as usize,
    )
}

proof fn lemma_ctx_members(ns: Seq<TreeNode>, rep: int, n: int)
    requires
        0 <= n <= ns.len(),
        ns.len() <= usize::MAX,
    ensures
        members_exact(ns, rep, n, ctx_members(ns, rep, n)),
    decreases n,
{
    if n > 0 {
        lemma_ctx_members(ns, rep, n - 1);
        let m0 = ctx_members(ns, rep, n - 1);
        let m = ctx_members(ns, rep, n);
        if has_ctx(ns[n - 1]) && ctx_names(ns[n - 1]) == ctx_names(ns[rep]) {
            assert(m == m0.push((n - 1) as usize));
            assert forall|a: int, b: int| 0 <= a < b < m.len() implies (#[trigger] m[a]) < (#[trigger] m[b]) by {
                assert(m[a] == m0[a]);
                if b < m0.len() {
                    assert(m[b] == m0[b]);
                }
            }
            assert forall|a: int| 0 <= a < m.len() implies (#[trigger] m[a]) < n && has_ctx(ns[m[a] as int])
                && ctx_names(ns[m[a] as int]) == ctx_names(ns[rep]) by {
                if a < m0.len() {
                    assert(m[a] == m0[a]);
                }
            }
            assert forall|i: int| 0 <= i < n && has_ctx(#[trigger] ns[i]) && ctx_names(ns[i]) == ctx_names(ns[rep])
                implies m.contains(i as usize) by {
                if i == n - 1 {
                    assert(m[m0.len() as int] == i as usize);
                } else {
                    let a = choose|a: int| 0 <= a < m0.len() && m0[a] == i as usize;
                    assert(m[a] == m0[a]);
                }
            }
        }
    }
}

proof fn lemma_plain_slot_entries(ns: Seq<TreeNode>, sl: Seq<SlotV>)
    requires
        forall|a: int| 0 <= a < sl.len() ==> good_slot(ns, #[trigger] sl[a]),
    ensures
        forall|a: int| 0 <= a < sl.len() ==> (#[trigger] sl[a] matches SlotV::Plain(idx) ==> slot_entries(ns, sl[a])
            == compact(ns.subrange(idx[0] as int, idx[0] + idx.len()))),
{
    assert forall|a: int| 0 <= a < sl.len() implies (#[trigger] sl[a] matches SlotV::Plain(idx) ==> slot_entries(
        ns,
        sl[a],
    ) == compact(ns.subrange(idx[0] as int, idx[0] + idx.len()))) by {
        if let SlotV::Plain(idx) = sl[a] {
            assert(good_slot(ns, sl[a]));
            assert(select(ns, idx) =~= ns.subrange(idx[0] as int, idx[0] + idx.len()));
        }
    }
}

/// How the top level of the compact tree is laid out: its slots come in
/// order of their first node; each is either a maximal run of nodes
/// without context, compacted as siblings of their own, or the context
/// chain of a context path placed at the first node with that path
/// (outermost context first, descriptions from that node) holding the
/// compacted nodes of every node with that path, in order. Every context
/// path and every node without context has its slot.
#[verifier::rlimit(40)]
pub proof fn lemma_context_tree(ns: Seq<TreeNode>)
    requires
        ns.len() <= usize::MAX,
    ensures
        context_tree(ns) == slots_entries(ns, final_slots(ns)),
        forall|a: int, b: int| 0 <= a < b < final_slots(ns).len() ==> slot_last(#[trigger] final_slots(ns)[a])
            < slot_first(#[trigger] final_slots(ns)[b]),
        forall|a: int| 0 <= a < final_slots(ns).len() ==> good_slot(ns, #[trigger] final_slots(ns)[a]),
        forall|i: int| 0 <= i < ns.len() && is_first_ctx(ns, i) ==> exists|a: int|
            0 <= a < final_slots(ns).len() && #[trigger] final_slots(ns)[a] == SlotV::Ctx(i),
        forall|i: int| 0 <= i < ns.len() && !has_ctx(#[trigger] ns[i]) ==> exists|a: int|
            0 <= a < final_slots(ns).len() && (#[trigger] final_slots(ns)[a] matches SlotV::Plain(idx)
                && idx.contains(i as usize)),
        forall|rep: int| 0 <= rep < ns.len() ==> #[trigger] members_exact(
            ns,
            rep,
            ns.len() as int,
            ctx_members(ns, rep, ns.len() as int),
        ),
        forall|rep: int| 0 <= rep < ns.len() ==> #[trigger] slot_entries(ns, SlotV::Ctx(rep)) == seq![
            nested_contexts(ns[rep].contexts@, compact(select(ns, ctx_members(ns, rep, ns.len() as int)))),
        ],
        forall|a: int| 0 <= a < final_slots(ns).len() ==> (#[trigger] final_slots(ns)[a] matches SlotV::Plain(idx)
            ==> slot_entries(ns, final_slots(ns)[a]) == compact(ns.subrange(idx[0] as int, idx[0] + idx.len()))),
{
    let n = ns.len() as int;
    lemma_slot_state(ns, n);
    let st = slot_state(ns, n);
    let sl = final_slots(ns);
    assert forall|rep: int| 0 <= rep < ns.len() implies #[trigger] members_exact(
        ns,
        rep,
        n,
        ctx_members(ns, rep, n),
    ) by {
        lemma_ctx_members(ns, rep, n);
    }
    if st.cur.len() > 0 {
        assert(sl == st.slots.push(SlotV::Plain(st.cur)));
        assert forall|a: int| 0 <= a < sl.len() implies good_slot(ns, #[trigger] sl[a]) by {
            if a < st.slots.len() {
                assert(sl[a] == st.slots[a]);
            }
        }
        assert forall|a: int, b: int| 0 <= a < b < sl.len() implies slot_last(#[trigger] sl[a]) < slot_first(
            #[trigger] sl[b],
        ) by {
            assert(sl[a] == st.slots[a]);
            if b < st.slots.len() {
                assert(sl[b] == st.slots[b]);
            }
        }
        assert forall|i: int| 0 <= i < n && is_first_ctx(ns, i) implies exists|a: int|
            0 <= a < sl.len() && #[trigger] sl[a] == SlotV::Ctx(i) by {
            let a = choose|a: int| 0 <= a < st.slots.len() && #[trigger] st.slots[a] == SlotV::Ctx(i);
            assert(sl[a] == st.slots[a]);
        }
        assert forall|i: int| 0 <= i < n && !has_ctx(#[trigger] ns[i]) implies exists|a: int|
            0 <= a < sl.len() && (#[trigger] sl[a] matches SlotV::Plain(idx) && idx.contains(i as usize)) by {
            if st.cur.contains(i as usize) {
                assert(sl[st.slots.len() as int] == SlotV::Plain(st.cur));
            } else {
                let a = choose|a: int| 0 <= a < st.slots.len() && (#[trigger] st.slots[a] matches SlotV::Plain(
                    idx,
                ) && idx.contains(i as usize));
                assert(sl[a] == st.slots[a]);
            }
        }
    } else {
        assert(sl == st.slots);
        assert forall|a: int| 0 <= a < sl.len() implies good_slot(ns, #[trigger] sl[a]) by {}
    }
    lemma_plain_slot_entries(ns, sl);
}

// ---------------------------------------------------------------------------
// Printing
// ---------------------------------------------------------------------------

proof fn lemma_items_draw_each(es: Seq<EntryV>, prefix: Seq<char>, n: int, k: int)
    requires
        0 <= k < n <= es.len(),
    ensures
        has_infix(fmt_items(es, prefix, n), fmt_tree(es[k], prefix, k == es.len() - 1)),
    decreases n,
{
    let t = fmt_tree(es[k], prefix, k == es.len() - 1);
    let before = fmt_items(es, prefix, n - 1);
    let last = fmt_tree(es[n - 1], prefix, n - 1 == es.len() - 1);
    lemma_infix_concat(before, last, t);
    if k < n - 1 {
        lemma_items_draw_each(es, prefix, n - 1, k);
    }
}

proof fn lemma_variants_draw_each(vs: Seq<VariantV>, prefix: Seq<char>, n: int, k: int)
    requires
        0 <= k < n <= vs.len(),
    ensures
        has_infix(fmt_variants(vs, prefix, n), fmt_variant(vs[k], prefix, k == vs.len() - 1)),
    decreases n,
{
    let t = fmt_variant(vs[k], prefix, k == vs.len() - 1);
    lemma_infix_concat(fmt_variants(vs, prefix, n - 1), fmt_variant(vs[n - 1], prefix, n - 1 == vs.len() - 1), t);
    if k < n - 1 {
        lemma_variants_draw_each(vs, prefix, n - 1, k);
    }
}

/// A variant with two or more children is drawn as its count line
/// (`(×count)`) followed by each of its children, drawn as a branch under
/// the variant's prefix extended by its continuation, the last child with
/// the closing connector.
pub proof fn lemma_variant_draws_children(v: VariantV, prefix: Seq<char>, is_last: bool)
    requires
        v.children.len() >= 2,
    ensures
        ({
            let head = prefix + connector(is_last) + "(×"@ + decimal(v.count) + ")\n"@;
            &&& fmt_variant(v, prefix, is_last).len() >= head.len()
            &&& fmt_variant(v, prefix, is_last).subrange(0, head.len() as int) == head
            &&& forall|c: int| 0 <= c < v.children.len() ==> has_infix(
                fmt_variant(v, prefix, is_last).subrange(head.len() as int, fmt_variant(v, prefix, is_last).len() as int),
                fmt_tree(#[trigger] v.children[c], prefix + continuation(is_last), c == v.children.len() - 1),
            )
        }),
{
    let head = prefix + connector(is_last) + "(×"@ + decimal(v.count) + ")\n"@;
    let body = fmt_items(v.children, prefix + continuation(is_last), v.children.len() as int);
    let whole = fmt_variant(v, prefix, is_last);
    assert(whole =~= head + body);
    assert(whole.subrange(0, head.len() as int) =~= head);
    assert(whole.subrange(head.len() as int, whole.len() as int) =~= body);
    assert forall|c: int| 0 <= c < v.children.len() implies has_infix(
        whole.subrange(head.len() as int, whole.len() as int),
        fmt_tree(#[trigger] v.children[c], prefix + continuation(is_last), c == v.children.len() - 1),
    ) by {
        lemma_items_draw_each(v.children, prefix + continuation(is_last), v.children.len() as int, c);
    }
}

/// In the printable form of a compact tree, every child of a variant
/// with several children, under a top-level group of variants, is drawn:
/// as a branch under the continuations of its group and of its variant.
pub proof fn lemma_printable_draws_variant_children(ss: Seq<Schema>, tree: Seq<EntryV>, k: int, j: int, c: int)
    requires
        0 <= k < tree.len(),
        tree[k] is Variants,
        0 <= j < tree[k]->Variants_variants.len(),
        tree[k]->Variants_variants[j].children.len() >= 2,
        0 <= c < tree[k]->Variants_variants[j].children.len(),
    ensures
        ({
            let vs = tree[k]->Variants_variants;
            let kids = vs[j].children;
            has_infix(
                printable(ss, tree),
                fmt_tree(
                    kids[c],
                    continuation(k == tree.len() - 1) + continuation(j == vs.len() - 1),
                    c == kids.len() - 1,
                ),
            )
        }),
{
    let vs = tree[k]->Variants_variants;
    let kids = vs[j].children;
    let top = continuation(k == tree.len() - 1);
    let child = fmt_tree(kids[c], top + continuation(j == vs.len() - 1), c == kids.len() - 1);
    let v_text = fmt_variant(vs[j], top, j == vs.len() - 1);
    let e_text = fmt_tree(tree[k], seq![], k == tree.len() - 1);
    let items = fmt_items(tree, seq![], tree.len() as int);
    // the child within its variant
    let head = top + connector(j == vs.len() - 1) + "(×"@ + decimal(vs[j].count) + ")\n"@;
    let body = fmt_items(kids, top + continuation(j == vs.len() - 1), kids.len() as int);
    assert(v_text =~= head + body);
    lemma_items_draw_each(kids, top + continuation(j == vs.len() - 1), kids.len() as int, c);
    lemma_infix_concat(head, body, child);
    // the variant within its group
    assert(seq![] + top =~= top);
    let vars = fmt_variants(vs, top, vs.len() as int);
    assert(e_text =~= connector(k == tree.len() - 1) + tree[k]->Variants_id + "\n"@ + vars);
    lemma_variants_draw_each(vs, top, vs.len() as int, j);
    lemma_infix_concat(connector(k == tree.len() - 1) + tree[k]->Variants_id + "\n"@, vars, v_text);
    lemma_infix_trans(e_text, v_text, child);
    // the group within the tree
    lemma_items_draw_each(tree, seq![], tree.len() as int, k);
    lemma_infix_trans(items, e_text, child);
    let sch = if ss.len() > 0 {
        "[Schemas]\n"@ + crate::tree_format::schema_lines(ss, ss.len() as int) + "\n"@
    } else {
        seq![]
    };
    lemma_infix_concat("[Tree]\n"@, items, child);
    lemma_infix_concat(sch, "[Tree]\n"@ + items, child);
    assert(printable(ss, tree) =~= sch + ("[Tree]\n"@ + items));
}

/// An entry drawn as a branch starts with its own line under `prefix`
/// (a group of mixed items has none) and then draws, under the prefix
/// extended by its continuation, each of its children where it has more
/// than one (a context: all of them), and each of its variants; the items
/// of a mixed group are drawn under `prefix` itself.
pub proof fn lemma_entry_draws_children(e: EntryV, prefix: Seq<char>, is_last: bool, c: int)
    ensures
        !(e is Heterogeneous) ==> fmt_tree(e, prefix, is_last).len() >= prefix.len() + 4 && fmt_tree(
            e,
            prefix,
            is_last,
        ).subrange(0, prefix.len() + 4int) == prefix + connector(is_last),
        e matches EntryV::Context { children, .. } ==> (0 <= c < children.len() ==> has_infix(
            fmt_tree(e, prefix, is_last),
            fmt_tree(children[c], prefix + continuation(is_last), c == children.len() - 1),
        )),
        e matches EntryV::Singleton { children, .. } ==> (children.len() >= 2 && 0 <= c < children.len() ==> has_infix(
            fmt_tree(e, prefix, is_last),
            fmt_tree(children[c], prefix + continuation(is_last), c == children.len() - 1),
        )),
        e matches EntryV::Homogeneous { children, .. } ==> (children.len() >= 2 && 0 <= c < children.len()
            ==> has_infix(
            fmt_tree(e, prefix, is_last),
            fmt_tree(children[c], prefix + continuation(is_last), c == children.len() - 1),
        )),
        e matches EntryV::Variants { variants, .. } ==> (0 <= c < variants.len() ==> has_infix(
            fmt_tree(e, prefix, is_last),
            fmt_variant(variants[c], prefix + continuation(is_last), c == variants.len() - 1),
        )),
        e matches EntryV::Heterogeneous { items } ==> (0 <= c < items.len() ==> has_infix(
            fmt_tree(e, prefix, is_last),
            fmt_tree(items[c], prefix, c == items.len() - 1),
        )),
{
    let t = fmt_tree(e, prefix, is_last);
    let cp = prefix + continuation(is_last);
    let pc = prefix + connector(is_last);
    assert(connector(is_last).len() == 4) by {
        reveal_strlit("└── ");
        reveal_strlit("├── ");
    }
    match e {
        EntryV::Context { context, description, children } => {
            let head = pc + "["@ + context + "]"@ + desc_text(description) + "\n"@;
            let body = fmt_items(children, cp, children.len() as int);
            assert(t =~= head + body);
            assert(t.subrange(0, prefix.len() + 4int) =~= pc);
            if 0 <= c < children.len() {
                lemma_items_draw_each(children, cp, children.len() as int, c);
                lemma_infix_concat(head, body, fmt_tree(children[c], cp, c == children.len() - 1));
            }
        },
        EntryV::Singleton { id, children } => {
            assert(t.subrange(0, prefix.len() + 4int) =~= pc);
            if children.len() >= 2 && 0 <= c < children.len() {
                let head = pc + id + "\n"@;
                let body = fmt_items(children, cp, children.len() as int);
                assert(t =~= head + body);
                lemma_items_draw_each(children, cp, children.len() as int, c);
                lemma_infix_concat(head, body, fmt_tree(children[c], cp, c == children.len() - 1));
            }
        },
        EntryV::Homogeneous { id, count, children } => {
            assert(t.subrange(0, prefix.len() + 4int) =~= pc);
            if children.len() >= 2 && 0 <= c < children.len() {
                let head = pc + id + " ×"@ + decimal(count) + "\n"@;
                let body = fmt_items(children, cp, children.len() as int);
                assert(t =~= head + body);
                lemma_items_draw_each(children, cp, children.len() as int, c);
                lemma_infix_concat(head, body, fmt_tree(children[c], cp, c == children.len() - 1));
            }
        },
        EntryV::Variants { id, variants } => {
            let head = pc + id + "\n"@;
            let body = fmt_variants(variants, cp, variants.len() as int);
            assert(t =~= head + body);
            assert(t.subrange(0, prefix.len() + 4int) =~= pc);
            if 0 <= c < variants.len() {
                lemma_variants_draw_each(variants, cp, variants.len() as int, c);
                lemma_infix_concat(head, body, fmt_variant(variants[c], cp, c == variants.len() - 1));
            }
        },
        EntryV::Heterogeneous { items } => {
            if 0 <= c < items.len() {
                lemma_items_draw_each(items, prefix, items.len() as int, c);
            }
        },
    }
}

/// Every top-level entry of the compact tree is drawn in its printable
/// form, as a branch at the root.
pub proof fn lemma_printable_draws_entries(ss: Seq<Schema>, tree: Seq<EntryV>, k: int)
    requires
        0 <= k < tree.len(),
    ensures
        has_infix(printable(ss, tree), fmt_tree(tree[k], seq![], k == tree.len() - 1)),
{
    let t = fmt_tree(tree[k], seq![], k == tree.len() - 1);
    let items = fmt_items(tree, seq![], tree.len() as int);
    lemma_items_draw_each(tree, seq![], tree.len() as int, k);
    let sch = if ss.len() > 0 {
        "[Schemas]\n"@ + crate::tree_format::schema_lines(ss, ss.len() as int) + "\n"@
    } else {
        seq![]
    };
    lemma_infix_concat("[Tree]\n"@, items, t);
    lemma_infix_concat(sch, "[Tree]\n"@ + items, t);
    assert(printable(ss, tree) =~= sch + ("[Tree]\n"@ + items));
}

} // verus!
