//! Reading the interaction tree out of the JSON the daemon sends.

use vstd::prelude::*;
use crate::json::{get_str, json_get, json_str, str_member, string_member, Json};
use crate::types::{opt_view, Action, Capability, ContextInfo, TreeNode};

verus! {

/// The optional text of member `key`: a string, or nothing for any other
/// value or an absent member.
pub open spec fn lenient_text(j: Json, key: Seq<char>) -> Option<Seq<char>> {
    json_str(json_get(j, key))
}

/// `out` are the contexts read from `items`: each element whose `name` is
/// a string, in order.
pub open spec fn contexts_read(items: Seq<Json>, out: Seq<ContextInfo>) -> bool
    decreases items.len(),
{
    if items.len() == 0 {
        out.len() == 0
    } else {
        let x = items.last();
        if str_member(x, "name"@) is Some {
            &&& out.len() > 0
            &&& contexts_read(items.drop_last(), out.drop_last())
            &&& Some(out.last().name) == str_member(x, "name"@)
            &&& opt_view(out.last().description) == lenient_text(x, "description"@)
        } else {
            contexts_read(items.drop_last(), out)
        }
    }
}

/// `out` are the capabilities read from `items`: each element whose `name`
/// is a string, in order.
pub open spec fn capabilities_read(items: Seq<Json>, out: Seq<Capability>) -> bool
    decreases items.len(),
{
    if items.len() == 0 {
        out.len() == 0
    } else {
        let x = items.last();
        if str_member(x, "name"@) is Some {
            &&& out.len() > 0
            &&& capabilities_read(items.drop_last(), out.drop_last())
            &&& Some(out.last().name) == str_member(x, "name"@)
        } else {
            capabilities_read(items.drop_last(), out)
        }
    }
}

/// `out` are the actions read from `items`: each element whose `name` is a
/// string, in order.
pub open spec fn actions_read(items: Seq<Json>, out: Seq<Action>) -> bool
    decreases items.len(),
{
    if items.len() == 0 {
        out.len() == 0
    } else {
        let x = items.last();
        if str_member(x, "name"@) is Some {
            &&& out.len() > 0
            &&& actions_read(items.drop_last(), out.drop_last())
            &&& Some(out.last().name) == str_member(x, "name"@)
            &&& opt_view(out.last().description) == lenient_text(x, "description"@)
        } else {
            actions_read(items.drop_last(), out)
        }
    }
}

/// The list member `key`, or nothing.
pub open spec fn list_member(j: Json, key: Seq<char>) -> Seq<Json> {
    match json_get(j, key) {
        Some(Json::Array(v)) => v@,
        _ => seq![],
    }
}

/// `out` are the nodes read from `items`: each element whose `id` is a
/// string, in order, read as by [`node_read`].
pub open spec fn nodes_read(items: Seq<Json>, out: Seq<TreeNode>) -> bool
    decreases items, 1int,
{
    if items.len() == 0 {
        out.len() == 0
    } else {
        let x = items[items.len() - 1];
        let rest = items.subrange(0, items.len() - 1);
        if str_member(x, "id"@) is Some {
            &&& out.len() > 0
            &&& nodes_read(rest, out.drop_last())
            &&& node_read(x, out.last())
        } else {
            nodes_read(rest, out)
        }
    }
}

/// `n` is the node read from `j`: its string `id`, its `widgetType` where
/// that is a string, and its `children`, `contexts`, `capabilities` and
/// `actions` read from the lists of those names (none where a member is no
/// list).
pub open spec fn node_read(j: Json, n: TreeNode) -> bool
    decreases j, 0int,
{
    &&& Some(n.id) == str_member(j, "id"@)
    &&& opt_view(n.widget_type) == lenient_text(j, "widgetType"@)
    &&& match j {
        Json::Object(ms) => {
            let i = crate::json::member_index(ms@, "children"@, 0);
            if 0 <= i < ms@.len() {
                match ms@[i].1 {
                    Json::Array(c) => {
                        proof {
                            assert(decreases_to!(j => ms));
                            assert(decreases_to!(ms => ms@));
                            assert(decreases_to!(ms@ => ms@[i]));
                            assert(decreases_to!(ms@[i] => ms@[i].1));
                            assert(decreases_to!(ms@[i].1 => c));
                            assert(decreases_to!(c => c@));
                        }
                        nodes_read(c@, n.children@)
                    },
                    _ => n.children@.len() == 0,
                }
            } else {
                n.children@.len() == 0
            }
        },
        _ => n.children@.len() == 0,
    }
    &&& contexts_read(list_member(j, "contexts"@), n.contexts@)
    &&& capabilities_read(list_member(j, "capabilities"@), n.capabilities@)
    &&& actions_read(list_member(j, "actions"@), n.actions@)
}

fn optional_text(j: &Json, key: &str) -> (r: Option<String>)
    ensures
        opt_view(r) == lenient_text(*j, key@),
{
    match get_str(j, key) {
        Some(t) => Some(String::from_str(t)),
        None => None,
    }
}

proof fn lemma_prefix_step<T>(items: Seq<T>, i: int)
    requires
        0 <= i < items.len(),
    ensures
        items.subrange(0, i + 1).drop_last() == items.subrange(0, i),
        items.subrange(0, i + 1).last() == items[i],
        items.subrange(0, i + 1).len() == i + 1,
{
    assert(items.subrange(0, i + 1).drop_last() =~= items.subrange(0, i));
}

/// Reads the contexts of a node.
pub fn read_contexts(items: &Vec<Json>) -> (r: Vec<ContextInfo>)
    ensures
        contexts_read(items@, r@),
{
    let mut out: Vec<ContextInfo> = Vec::new();
    let mut i: usize = 0;
    while i < items.len()
        invariant
            i <= items@.len(),
            contexts_read(items@.subrange(0, i as int), out@),
        decreases items@.len() - i,
    {
        proof { lemma_prefix_step(items@, i as int); }
        let ghost before = out@;
        match string_member(&items[i], "name") {
            Some(name) => {
                let description = optional_text(&items[i], "description");
                out.push(ContextInfo { name, description });
                assert(out@.drop_last() =~= before);
            },
            None => {},
        }
        i = i + 1;
    }
    assert(items@.subrange(0, items@.len() as int) =~= items@);
    out
}

/// Reads the capabilities of a node.
pub fn read_capabilities(items: &Vec<Json>) -> (r: Vec<Capability>)
    ensures
        capabilities_read(items@, r@),
{
    let mut out: Vec<Capability> = Vec::new();
    let mut i: usize = 0;
    while i < items.len()
        invariant
            i <= items@.len(),
            capabilities_read(items@.subrange(0, i as int), out@),
        decreases items@.len() - i,
    {
        proof { lemma_prefix_step(items@, i as int); }
        let ghost before = out@;
        match string_member(&items[i], "name") {
            Some(name) => {
                out.push(Capability { name });
                assert(out@.drop_last() =~= before);
            },
            None => {},
        }
        i = i + 1;
    }
    assert(items@.subrange(0, items@.len() as int) =~= items@);
    out
}

/// Reads the actions of a node.
pub fn read_actions(items: &Vec<Json>) -> (r: Vec<Action>)
    ensures
        actions_read(items@, r@),
{
    let mut out: Vec<Action> = Vec::new();
    let mut i: usize = 0;
    while i < items.len()
        invariant
            i <= items@.len(),
            actions_read(items@.subrange(0, i as int), out@),
        decreases items@.len() - i,
    {
        proof { lemma_prefix_step(items@, i as int); }
        let ghost before = out@;
        match string_member(&items[i], "name") {
            Some(name) => {
                let description = optional_text(&items[i], "description");
                out.push(Action { name, description });
                assert(out@.drop_last() =~= before);
            },
            None => {},
        }
        i = i + 1;
    }
    assert(items@.subrange(0, items@.len() as int) =~= items@);
    out
}

fn list_of<'a>(j: &'a Json, key: &str) -> (r: Option<&'a Vec<Json>>)
    ensures
        match r {
            Some(v) => json_get(*j, key@) == Some(Json::Array(*v)),
            None => !(json_get(*j, key@) matches Some(Json::Array(_))),
        },
{
    match j.get(key) {
        Some(Json::Array(v)) => Some(v),
        _ => None,
    }
}

/// Reads one node of the tree; its `id` is a string.
pub fn read_node(j: &Json) -> (r: TreeNode)
    requires
        str_member(*j, "id"@) is Some,
    ensures
        node_read(*j, r),
    decreases *j, 0int,
{
    let id = string_member(j, "id").unwrap();
    let widget_type = optional_text(j, "widgetType");
    let children = match list_of(j, "children") {
        Some(c) => {
            proof {
                let ms = j->Object_0;
                let i = crate::json::member_index(ms@, "children"@, 0);
                assert(0 <= i < ms@.len());
                assert(ms@[i].1 == Json::Array(*c));
                assert(decreases_to!(*j => ms));
                assert(decreases_to!(ms => ms@));
                assert(decreases_to!(ms@ => ms@[i]));
                assert(decreases_to!(ms@[i] => ms@[i].1));
                assert(decreases_to!(ms@[i].1 => *c));
                assert(decreases_to!(*c => c@));
            }
            read_nodes(c)
        },
        None => Vec::new(),
    };
    let contexts = match list_of(j, "contexts") {
        Some(v) => read_contexts(v),
        None => Vec::new(),
    };
    let capabilities = match list_of(j, "capabilities") {
        Some(v) => read_capabilities(v),
        None => Vec::new(),
    };
    let actions = match list_of(j, "actions") {
        Some(v) => read_actions(v),
        None => Vec::new(),
    };
    TreeNode { id, widget_type, capabilities, actions, children, contexts }
}

/// Reads the nodes of a tree: each element whose `id` is a string, in
/// order; the others are skipped.
pub fn read_nodes(items: &Vec<Json>) -> (r: Vec<TreeNode>)
    ensures
        nodes_read(items@, r@),
    decreases items@, 1int,
{
    let mut out: Vec<TreeNode> = Vec::new();
    let mut i: usize = 0;
    while i < items.len()
        invariant
            i <= items@.len(),
            nodes_read(items@.subrange(0, i as int), out@),
        decreases items@.len() - i,
    {
        proof { lemma_prefix_step(items@, i as int); }
        let ghost before = out@;
        if string_member(&items[i], "id").is_some() {
            proof { assert(decreases_to!(items@ => items@[i as int])); }
            let node = read_node(&items[i]);
            out.push(node);
            assert(out@.drop_last() =~= before);
        }
        i = i + 1;
    }
    assert(items@.subrange(0, items@.len() as int) =~= items@);
    out
}

} // verus!
