//! Paths of the compact tree as the tree pane shows it: every item is
//! identified by its kind or id and its position among its siblings.

use vstd::prelude::*;
use tui_tree_widget::TreeState;
use crate::session::{path_view, tree_open, tree_opened, tree_selection};
use crate::text::{decimal, push_decimal};
use crate::tree_format::{
    entries_view, entry_view, list_text, schema_of, variant_view, variants_view, write_list, CompactTree, EntryV, Schema, TreeEntry,
    Variant, VariantV,
};

verus! {

/// The identifier of entry `e` at sibling position `i`: `ctx_i` for a
/// context, `het_i` for a heterogeneous group, `<id>_i` otherwise.
pub open spec fn item_id(e: EntryV, i: nat) -> Seq<char> {
    match e {
        EntryV::Context { .. } => "ctx_"@ + decimal(i),
        EntryV::Heterogeneous { .. } => "het_"@ + decimal(i),
        EntryV::Homogeneous { id, .. } => id + "_"@ + decimal(i),
        EntryV::Singleton { id, .. } => id + "_"@ + decimal(i),
        EntryV::Variants { id, .. } => id + "_"@ + decimal(i),
    }
}

/// The identifier of the `i`-th variant of a variants entry.
pub open spec fn variant_item_id(i: nat) -> Seq<char> {
    "var_"@ + decimal(i)
}

/// The paths that expanding every entry of `es` (under `prefix`) opens:
/// every context, heterogeneous group and variants entry, every variant
/// with children, and every other entry with children.
pub open spec fn open_set(es: Seq<EntryV>, prefix: Seq<Seq<char>>) -> Set<Seq<Seq<char>>>
    decreases es, 2int,
{
    if es.len() == 0 {
        Set::empty()
    } else {
        let n = es.len() - 1;
        open_set(es.subrange(0, n), prefix).union(entry_open_set(es[n], n as nat, prefix))
    }
}

/// The paths expanding entry `e` at position `i` opens.
pub open spec fn entry_open_set(e: EntryV, i: nat, prefix: Seq<Seq<char>>) -> Set<Seq<Seq<char>>>
    decreases e, 1int,
{
    let p = prefix.push(item_id(e, i));
    match e {
        EntryV::Context { children, .. } => set![p].union(open_set(children, p)),
        EntryV::Heterogeneous { items } => set![p].union(open_set(items, p)),
        EntryV::Homogeneous { children, .. } => if children.len() > 0 {
            set![p].union(open_set(children, p))
        } else {
            Set::empty()
        },
        EntryV::Singleton { children, .. } => if children.len() > 0 {
            set![p].union(open_set(children, p))
        } else {
            Set::empty()
        },
        EntryV::Variants { variants, .. } => set![p].union(variants_open_set(variants, p)),
    }
}

/// The paths expanding the variants `vs` (under `prefix`) opens.
pub open spec fn variants_open_set(vs: Seq<VariantV>, prefix: Seq<Seq<char>>) -> Set<Seq<Seq<char>>>
    decreases vs, 0int,
{
    if vs.len() == 0 {
        Set::empty()
    } else {
        let n = vs.len() - 1;
        let vp = prefix.push(variant_item_id(n as nat));
        let children = vs[n].children;
        let here = if children.len() > 0 {
            proof {
                assert(decreases_to!(vs => vs[n]));
                assert(decreases_to!(vs[n] => vs[n].children));
            }
            set![vp].union(open_set(children, vp))
        } else {
            Set::empty()
        };
        variants_open_set(vs.subrange(0, n), prefix).union(here)
    }
}

/// The identifier of `e` at position `i`.
pub fn entry_item_id(e: &TreeEntry, i: usize) -> (r: String)
    ensures
        r@ == item_id(entry_view(*e), i as nat),
{
    let mut out = match e {
        TreeEntry::Context { .. } => String::from_str("ctx_"),
        TreeEntry::Heterogeneous { .. } => String::from_str("het_"),
        TreeEntry::Homogeneous { id, .. } => {
            let mut s = id.clone();
            s.append("_");
            s
        },
        TreeEntry::Singleton { id, .. } => {
            let mut s = id.clone();
            s.append("_");
            s
        },
        TreeEntry::Variants { id, .. } => {
            let mut s = id.clone();
            s.append("_");
            s
        },
    };
    push_decimal(&mut out, i);
    out
}

fn extended(prefix: &Vec<String>, item: String) -> (r: Vec<String>)
    ensures
        path_view(r@) == path_view(prefix@).push(item@),
{
    let mut out: Vec<String> = Vec::new();
    let mut k: usize = 0;
    while k < prefix.len()
        invariant
            k <= prefix@.len(),
            out@.len() == k,
            forall|j: int| 0 <= j < k ==> (#[trigger] out@[j])@ == prefix@[j]@,
        decreases prefix@.len() - k,
    {
        out.push(prefix[k].clone());
        k = k + 1;
    }
    out.push(item);
    assert(path_view(out@) =~= path_view(prefix@).push(item@));
    out
}

pub proof fn lemma_entries_view_index(es: Seq<TreeEntry>, i: int)
    requires
        0 <= i < es.len(),
    ensures
        entries_view(es)[i] == entry_view(es[i]),
    decreases es.len(),
{
    lemma_entries_view_len(es.drop_last());
    if i < es.len() - 1 {
        lemma_entries_view_index(es.drop_last(), i);
    }
}

pub proof fn lemma_entries_view_len(es: Seq<TreeEntry>)
    ensures
        entries_view(es).len() == es.len(),
    decreases es.len(),
{
    if es.len() > 0 {
        lemma_entries_view_len(es.drop_last());
    }
}

proof fn lemma_entries_view_prefix(es: Seq<TreeEntry>, i: int)
    requires
        0 <= i <= es.len(),
    ensures
        entries_view(es.subrange(0, i)) == entries_view(es).subrange(0, i),
    decreases es.len(),
{
    lemma_entries_view_len(es);
    if i == es.len() {
        assert(es.subrange(0, i) =~= es);
        assert(entries_view(es).subrange(0, i) =~= entries_view(es));
    } else {
        lemma_entries_view_prefix(es.drop_last(), i);
        assert(es.drop_last().subrange(0, i) =~= es.subrange(0, i));
        lemma_entries_view_len(es.drop_last());
        assert(entries_view(es.drop_last()).subrange(0, i) =~= entries_view(es).subrange(0, i));
    }
}

proof fn lemma_variants_view_len(vs: Seq<Variant>)
    ensures
        variants_view(vs).len() == vs.len(),
    decreases vs.len(),
{
    if vs.len() > 0 {
        lemma_variants_view_len(vs.drop_last());
    }
}

proof fn lemma_variants_view_index(vs: Seq<Variant>, i: int)
    requires
        0 <= i < vs.len(),
    ensures
        variants_view(vs)[i] == crate::tree_format::variant_view(vs[i]),
    decreases vs.len(),
{
    lemma_variants_view_len(vs.drop_last());
    if i < vs.len() - 1 {
        lemma_variants_view_index(vs.drop_last(), i);
    }
}

fn copy_path(p: &Vec<String>) -> (r: Vec<String>)
    ensures
        path_view(r@) == path_view(p@),
{
    let mut out: Vec<String> = Vec::new();
    let mut k: usize = 0;
    while k < p.len()
        invariant
            k <= p@.len(),
            out@.len() == k,
            forall|j: int| 0 <= j < k ==> (#[trigger] out@[j])@ == p@[j]@,
        decreases p@.len() - k,
    {
        out.push(p[k].clone());
        k = k + 1;
    }
    assert(path_view(out@) =~= path_view(p@));
    out
}

/// Opens every path that expanding the entries `es` under `prefix` opens.
pub fn open_entries(state: &mut TreeState<String>, es: &Vec<TreeEntry>, prefix: &Vec<String>)
    ensures
        tree_selection(*final(state)) == tree_selection(*old(state)),
        tree_opened(*final(state)) == tree_opened(*old(state)).union(
            open_set(entries_view(es@), path_view(prefix@)),
        ),
    decreases es@, 2int,
{
    let ghost ev = entries_view(es@);
    let ghost pv = path_view(prefix@);
    let ghost start = tree_opened(*state);
    proof { lemma_entries_view_len(es@); }
    let mut i: usize = 0;
    while i < es.len()
        invariant
            i <= es@.len(),
            ev == entries_view(es@),
            ev.len() == es@.len(),
            pv == path_view(prefix@),
            start == tree_opened(*old(state)),
            tree_selection(*state) == tree_selection(*old(state)),
            tree_opened(*state) == start.union(open_set(ev.subrange(0, i as int), pv)),
        decreases es@.len() - i,
    {
        proof {
            lemma_entries_view_index(es@, i as int);
            assert(decreases_to!(es@ => es@[i as int]));
        }
        open_entry(state, &es[i], i, prefix);
        proof {
            let s1 = ev.subrange(0, i + 1);
            assert(s1.subrange(0, i as int) =~= ev.subrange(0, i as int));
            assert(s1[i as int] == ev[i as int]);
            assert(open_set(s1, pv) == open_set(ev.subrange(0, i as int), pv).union(
                entry_open_set(ev[i as int], i as nat, pv),
            ));
            assert(tree_opened(*state) =~= start.union(open_set(s1, pv)));
        }
        i = i + 1;
    }
    assert(ev.subrange(0, es@.len() as int) =~= ev);
}

/// Opens every path that expanding entry `e` at position `i` under
/// `prefix` opens.
pub fn open_entry(state: &mut TreeState<String>, e: &TreeEntry, i: usize, prefix: &Vec<String>)
    ensures
        tree_selection(*final(state)) == tree_selection(*old(state)),
        tree_opened(*final(state)) == tree_opened(*old(state)).union(
            entry_open_set(entry_view(*e), i as nat, path_view(prefix@)),
        ),
    decreases *e, 1int,
{
    let id = entry_item_id(e, i);
    let p = extended(prefix, id);
    let ghost pv = path_view(p@);
    assert(pv == path_view(prefix@).push(item_id(entry_view(*e), i as nat)));
    assert(p@.len() > 0) by {
        assert(pv.len() == p@.len());
    }
    match e {
        TreeEntry::Context { children, .. } => {
            tree_open(state, copy_path(&p));
            proof { assert(decreases_to!(*e => *children)); assert(decreases_to!(*children => children@)); }
            open_entries(state, children, &p);
        },
        TreeEntry::Heterogeneous { items } => {
            tree_open(state, copy_path(&p));
            proof { assert(decreases_to!(*e => *items)); assert(decreases_to!(*items => items@)); }
            open_entries(state, items, &p);
        },
        TreeEntry::Homogeneous { children, .. } => {
            if children.len() > 0 {
                tree_open(state, copy_path(&p));
                proof { assert(decreases_to!(*e => *children)); assert(decreases_to!(*children => children@)); }
                open_entries(state, children, &p);
            }
            proof { lemma_entries_view_len(children@); }
        },
        TreeEntry::Singleton { children, .. } => {
            if children.len() > 0 {
                tree_open(state, copy_path(&p));
                proof { assert(decreases_to!(*e => *children)); assert(decreases_to!(*children => children@)); }
                open_entries(state, children, &p);
            }
            proof { lemma_entries_view_len(children@); }
        },
        TreeEntry::Variants { variants, .. } => {
            tree_open(state, copy_path(&p));
            proof { assert(decreases_to!(*e => *variants)); assert(decreases_to!(*variants => variants@)); }
            open_variants(state, variants, &p);
        },
    }
    assert(tree_opened(*state) =~= tree_opened(*old(state)).union(
        entry_open_set(entry_view(*e), i as nat, path_view(prefix@)),
    ));
}

/// Opens every path that expanding the variants `vs` under `prefix` opens.
#[verifier::spinoff_prover]
pub fn open_variants(state: &mut TreeState<String>, vs: &Vec<Variant>, prefix: &Vec<String>)
    ensures
        tree_selection(*final(state)) == tree_selection(*old(state)),
        tree_opened(*final(state)) == tree_opened(*old(state)).union(
            variants_open_set(variants_view(vs@), path_view(prefix@)),
        ),
    decreases vs@, 0int,
{
    let ghost vv = variants_view(vs@);
    let ghost pv = path_view(prefix@);
    let ghost start = tree_opened(*state);
    proof { lemma_variants_view_len(vs@); }
    let mut j: usize = 0;
    while j < vs.len()
        invariant
            j <= vs@.len(),
            vv == variants_view(vs@),
            vv.len() == vs@.len(),
            pv == path_view(prefix@),
            start == tree_opened(*old(state)),
            tree_selection(*state) == tree_selection(*old(state)),
            tree_opened(*state) == start.union(variants_open_set(vv.subrange(0, j as int), pv)),
        decreases vs@.len() - j,
    {
        proof { lemma_variants_view_index(vs@, j as int); }
        let mut label = String::from_str("var_");
        push_decimal(&mut label, j);
        let ghost label_view = label@;
        let vp = extended(prefix, label);
        let ghost vpv = path_view(vp@);
        assert(vp@.len() > 0) by {
            assert(vpv.len() == vp@.len());
        }
        let children = &vs[j].children;
        proof { lemma_entries_view_len(children@); }
        let ghost before = tree_opened(*state);
        if children.len() > 0 {
            let cp = copy_path(&vp);
            assert(cp@.len() > 0) by {
                assert(path_view(cp@).len() == cp@.len());
            }
            tree_open(state, cp);
            assert(tree_opened(*state) == before.insert(vpv));
            proof {
                assert(decreases_to!(vs@ => vs@[j as int]));
                assert(decreases_to!(vs@[j as int] => vs@[j as int].children));
                assert(decreases_to!(vs@[j as int].children => vs@[j as int].children@));
            }
            open_entries(state, children, &vp);
            assert(tree_opened(*state) == before.insert(vpv).union(open_set(entries_view(children@), vpv)));
        }
        proof {
            let s1 = vv.subrange(0, j + 1);
            assert(s1.subrange(0, j as int) =~= vv.subrange(0, j as int));
            assert(s1[j as int] == vv[j as int]);
            assert(vv[j as int].children == entries_view(children@));
            assert(label_view == variant_item_id(j as nat));
            assert(vpv == pv.push(variant_item_id(j as nat)));
            let here = if vv[j as int].children.len() > 0 {
                set![vpv].union(open_set(vv[j as int].children, vpv))
            } else {
                Set::empty()
            };
            assert(variants_open_set(s1, pv) == variants_open_set(vv.subrange(0, j as int), pv).union(here));
            assert(tree_opened(*state) =~= before.union(here));
            assert(before == start.union(variants_open_set(vv.subrange(0, j as int), pv)));
            assert(tree_opened(*state) =~= start.union(variants_open_set(s1, pv)));
        }
        j = j + 1;
    }
    assert(vv.subrange(0, vs@.len() as int) =~= vv);
}

/// The id of an entry, for entries that have one.
pub open spec fn entry_id_of(e: EntryV) -> Option<Seq<char>> {
    match e {
        EntryV::Homogeneous { id, .. } => Some(id),
        EntryV::Singleton { id, .. } => Some(id),
        EntryV::Variants { id, .. } => Some(id),
        _ => None,
    }
}

/// What the tree pane shows after an id: the capabilities (` [..]`) and
/// the actions (` {..}`) of its schema, each where there are any.
pub open spec fn schema_suffix(s: Option<Schema>) -> Seq<char> {
    match s {
        Some(s) => list_text(s.capabilities@, " ["@, "]"@) + list_text(s.actions@, " {"@, "}"@),
        None => seq![],
    }
}

/// The label of an entry in the tree pane: a context by its name, a
/// heterogeneous group as `[items]`, an id with the count of a homogeneous
/// group and what its schema offers.
pub open spec fn entry_label_text(ss: Seq<Schema>, e: EntryV) -> Seq<char> {
    match e {
        EntryV::Context { context, .. } => context,
        EntryV::Heterogeneous { .. } => "[items]"@,
        EntryV::Homogeneous { id, count, .. } => id + " ×"@ + decimal(count) + schema_suffix(schema_of(ss, id)),
        EntryV::Singleton { id, .. } => id + schema_suffix(schema_of(ss, id)),
        EntryV::Variants { id, .. } => id + schema_suffix(schema_of(ss, id)),
    }
}

/// The label of a variant: how often it occurs and, for a single child
/// with an id, that child and its capabilities.
pub open spec fn variant_label_text(ss: Seq<Schema>, v: VariantV) -> Seq<char> {
    "(×"@ + decimal(v.count) + ")"@ + if v.children.len() == 1 {
        match entry_id_of(v.children[0]) {
            Some(cid) => " → "@ + cid + match schema_of(ss, cid) {
                Some(s) => list_text(s.capabilities@, " ["@, "]"@),
                None => seq![],
            },
            None => seq![],
        }
    } else {
        seq![]
    }
}

fn append_schema_suffix(out: &mut String, compact: &CompactTree, id: &str)
    ensures
        final(out)@ == old(out)@ + schema_suffix(schema_of(compact.schemas@, id@)),
{
    match compact.schema(id) {
        Some(s) => {
            write_list(out, &s.capabilities, " [", "]");
            write_list(out, &s.actions, " {", "}");
        },
        None => {},
    }
}

/// The label of entry `e` in the tree pane.
pub fn entry_label(compact: &CompactTree, e: &TreeEntry) -> (r: String)
    ensures
        r@ == entry_label_text(compact.schemas@, entry_view(*e)),
{
    match e {
        TreeEntry::Context { context, .. } => context.clone(),
        TreeEntry::Heterogeneous { .. } => String::from_str("[items]"),
        TreeEntry::Homogeneous { id, count, .. } => {
            let mut out = id.clone();
            out.append(" ×");
            push_decimal(&mut out, *count);
            append_schema_suffix(&mut out, compact, id.as_str());
            out
        },
        TreeEntry::Singleton { id, .. } => {
            let mut out = id.clone();
            append_schema_suffix(&mut out, compact, id.as_str());
            out
        },
        TreeEntry::Variants { id, .. } => {
            let mut out = id.clone();
            append_schema_suffix(&mut out, compact, id.as_str());
            out
        },
    }
}

/// The label of variant `v` in the tree pane.
pub fn variant_label(compact: &CompactTree, v: &Variant) -> (r: String)
    ensures
        r@ == variant_label_text(compact.schemas@, variant_view(*v)),
{
    let mut out = String::from_str("(×");
    push_decimal(&mut out, v.count);
    out.append(")");
    let ghost head = out@;
    proof {
        lemma_entries_view_len(v.children@);
    }
    if v.children.len() == 1 {
        proof {
            lemma_entries_view_index(v.children@, 0);
        }
        match v.children[0].id() {
            Some(cid) => {
                out.append(" → ");
                out.append(cid);
                match compact.schema(cid) {
                    Some(s) => write_list(&mut out, &s.capabilities, " [", "]"),
                    None => {},
                }
            },
            None => {},
        }
    }
    assert(out@ =~= variant_label_text(compact.schemas@, variant_view(*v)));
    out
}

/// An item of the tree pane: its identifier, its label and its children
/// (none for a leaf).
#[derive(Debug, PartialEq, Eq)]
pub struct PaneItem {
    pub id: String,
    pub label: String,
    pub children: Vec<PaneItem>,
}

/// Mathematical value of a pane item.
pub struct PaneItemV {
    pub id: Seq<char>,
    pub label: Seq<char>,
    pub children: Seq<PaneItemV>,
}

pub open spec fn pane_view(p: PaneItem) -> PaneItemV
    decreases p,
{
    PaneItemV { id: p.id@, label: p.label@, children: panes_view(p.children@) }
}

pub open spec fn panes_view(ps: Seq<PaneItem>) -> Seq<PaneItemV>
    decreases ps,
{
    if ps.len() == 0 {
        seq![]
    } else {
        panes_view(ps.drop_last()).push(pane_view(ps.last()))
    }
}

/// The pane items of the entries `es`, each identified by its position.
pub open spec fn entry_panes(ss: Seq<Schema>, es: Seq<EntryV>) -> Seq<PaneItemV>
    decreases es, 2int,
{
    if es.len() == 0 {
        seq![]
    } else {
        let n = es.len() - 1;
        entry_panes(ss, es.subrange(0, n)).push(entry_pane(ss, es[n], n as nat))
    }
}

/// The pane item of entry `e` at position `i`: identified as in
/// [`item_id`], labelled as in [`entry_label_text`]; a context or mixed
/// group holds its entries, a count or single node its children, a
/// variants entry one item per variant.
pub open spec fn entry_pane(ss: Seq<Schema>, e: EntryV, i: nat) -> PaneItemV
    decreases e, 1int,
{
    PaneItemV {
        id: item_id(e, i),
        label: entry_label_text(ss, e),
        children: match e {
            EntryV::Context { children, .. } => entry_panes(ss, children),
            EntryV::Heterogeneous { items } => entry_panes(ss, items),
            EntryV::Homogeneous { children, .. } => entry_panes(ss, children),
            EntryV::Singleton { children, .. } => entry_panes(ss, children),
            EntryV::Variants { variants, .. } => variant_panes(ss, variants),
        },
    }
}

/// The pane items of the variants `vs`: `var_i`, labelled as in
/// [`variant_label_text`], holding the variant's entries when it has more
/// than one (a single child is shown in the label).
pub open spec fn variant_panes(ss: Seq<Schema>, vs: Seq<VariantV>) -> Seq<PaneItemV>
    decreases vs, 0int,
{
    if vs.len() == 0 {
        seq![]
    } else {
        let n = vs.len() - 1;
        let v = vs[n];
        let children = if v.children.len() <= 1 {
            seq![]
        } else {
            proof {
                assert(decreases_to!(vs => vs[n]));
                assert(decreases_to!(vs[n] => vs[n].children));
            }
            entry_panes(ss, v.children)
        };
        variant_panes(ss, vs.subrange(0, n)).push(
            PaneItemV { id: variant_item_id(n as nat), label: variant_label_text(ss, v), children },
        )
    }
}

proof fn lemma_panes_view_push(ps: Seq<PaneItem>, p: PaneItem)
    ensures
        panes_view(ps.push(p)) == panes_view(ps).push(pane_view(p)),
{
    assert(ps.push(p).drop_last() =~= ps);
}

/// The items of the tree pane for the entries `es`.
pub fn pane_items(compact: &CompactTree, es: &Vec<TreeEntry>) -> (r: Vec<PaneItem>)
    ensures
        panes_view(r@) == entry_panes(compact.schemas@, entries_view(es@)),
    decreases es@, 2int,
{
    let ghost ev = entries_view(es@);
    let ghost ss = compact.schemas@;
    proof { lemma_entries_view_len(es@); }
    let mut out: Vec<PaneItem> = Vec::new();
    let mut i: usize = 0;
    while i < es.len()
        invariant
            i <= es@.len(),
            ev == entries_view(es@),
            ev.len() == es@.len(),
            ss == compact.schemas@,
            panes_view(out@) == entry_panes(ss, ev.subrange(0, i as int)),
        decreases es@.len() - i,
    {
        proof {
            lemma_entries_view_index(es@, i as int);
            assert(decreases_to!(es@ => es@[i as int]));
        }
        let item = pane_item(compact, &es[i], i);
        proof {
            lemma_panes_view_push(out@, item);
            let s1 = ev.subrange(0, i + 1);
            assert(s1.subrange(0, i as int) =~= ev.subrange(0, i as int));
            assert(s1[i as int] == ev[i as int]);
        }
        out.push(item);
        i = i + 1;
    }
    assert(ev.subrange(0, es@.len() as int) =~= ev);
    out
}

/// The pane item of entry `e` at position `i`.
pub fn pane_item(compact: &CompactTree, e: &TreeEntry, i: usize) -> (r: PaneItem)
    ensures
        pane_view(r) == entry_pane(compact.schemas@, entry_view(*e), i as nat),
    decreases *e, 1int,
{
    let id = entry_item_id(e, i);
    let label = entry_label(compact, e);
    let children = match e {
        TreeEntry::Context { children, .. } => {
            proof { assert(decreases_to!(*e => *children)); assert(decreases_to!(*children => children@)); }
            pane_items(compact, children)
        },
        TreeEntry::Heterogeneous { items } => {
            proof { assert(decreases_to!(*e => *items)); assert(decreases_to!(*items => items@)); }
            pane_items(compact, items)
        },
        TreeEntry::Homogeneous { children, .. } => {
            proof { assert(decreases_to!(*e => *children)); assert(decreases_to!(*children => children@)); }
            pane_items(compact, children)
        },
        TreeEntry::Singleton { children, .. } => {
            proof { assert(decreases_to!(*e => *children)); assert(decreases_to!(*children => children@)); }
            pane_items(compact, children)
        },
        TreeEntry::Variants { variants, .. } => {
            proof { assert(decreases_to!(*e => *variants)); assert(decreases_to!(*variants => variants@)); }
            variant_pane_items(compact, variants)
        },
    };
    PaneItem { id, label, children }
}

fn variant_pane_items(compact: &CompactTree, vs: &Vec<Variant>) -> (r: Vec<PaneItem>)
    ensures
        panes_view(r@) == variant_panes(compact.schemas@, variants_view(vs@)),
    decreases vs@, 0int,
{
    let ghost vv = variants_view(vs@);
    let ghost ss = compact.schemas@;
    proof { lemma_variants_view_len(vs@); }
    let mut out: Vec<PaneItem> = Vec::new();
    let mut j: usize = 0;
    while j < vs.len()
        invariant
            j <= vs@.len(),
            vv == variants_view(vs@),
            vv.len() == vs@.len(),
            ss == compact.schemas@,
            panes_view(out@) == variant_panes(ss, vv.subrange(0, j as int)),
        decreases vs@.len() - j,
    {
        proof { lemma_variants_view_index(vs@, j as int); }
        let v = &vs[j];
        let mut id = String::from_str("var_");
        push_decimal(&mut id, j);
        let label = variant_label(compact, v);
        proof { lemma_entries_view_len(v.children@); }
        let children = if v.children.len() <= 1 {
            Vec::new()
        } else {
            proof {
                assert(decreases_to!(vs@ => vs@[j as int]));
                assert(decreases_to!(vs@[j as int] => vs@[j as int].children));
                assert(decreases_to!(vs@[j as int].children => vs@[j as int].children@));
            }
            pane_items(compact, &v.children)
        };
        let item = PaneItem { id, label, children };
        proof {
            lemma_panes_view_push(out@, item);
            let s1 = vv.subrange(0, j + 1);
            assert(s1.subrange(0, j as int) =~= vv.subrange(0, j as int));
            assert(s1[j as int] == vv[j as int]);
            assert(panes_view(Seq::<PaneItem>::empty()) == Seq::<PaneItemV>::empty());
        }
        out.push(item);
        j = j + 1;
    }
    assert(vv.subrange(0, vs@.len() as int) =~= vv);
    out
}

} // verus!
