//! The file tree of a vault.

use vstd::prelude::*;
use vstd::string::StringExecFns;
use vstd::utf8::encode_utf8;

use crate::path::{is_kept, parsed, part_bytes, part_of, FilePath, Part};
use crate::text::{
    is_white_space, join, lemma_decode_contains, lemma_encode_join, lemma_filter_all,
    lemma_forward_slashes, lemma_join_first, lemma_names, names, names_undoes_join, split_names,
    split_undoes_join,
};
use crate::vault::{
    accepted, checked, folded, has_backslash, hidden_entry, hidden_top, in_hidden,
    lemma_folded_names, relative, requested, three_names_are_hidden, Vault, VaultErrorView,
};

verus! {

/// Whether a node of the tree stands for a directory or for a file.
#[derive(Debug, Clone, Copy, PartialEq, Eq, Structural)]
pub enum NodeKind {
    Dir,
    File,
}

/// A node of the tree, with the nodes below it.
#[derive(Debug)]
pub struct TreeNode {
    pub name: String,
    pub path: String,
    pub kind: NodeKind,
    pub children: Option<Vec<TreeNode>>,
}

/// What a `TreeNode` holds.
#[verifier::ext_equal]
pub struct NodeView {
    pub name: Seq<char>,
    pub path: Seq<char>,
    pub kind: NodeKind,
    pub children: Option<Seq<NodeView>>,
}

impl TreeNode {
    /// The node as a value.
    pub open spec fn view(&self) -> NodeView
        decreases self,
    {
        NodeView {
            name: self.name@,
            path: self.path@,
            kind: self.kind,
            children: match self.children {
                None => None,
                Some(nodes) => Some(
                    Seq::new(
                        nodes@.len(),
                        |i: int|
                            if 0 <= i < nodes@.len() {
                                nodes@[i].view()
                            } else {
                                arbitrary()
                            },
                    ),
                ),
            },
        }
    }
}

/// The nodes directly below a node.
pub open spec fn nodes_below(node: NodeView) -> Seq<NodeView> {
    match node.children {
        Some(nodes) => nodes,
        None => Seq::empty(),
    }
}

/// The first position of a node with the given name; the length where there is none.
pub open spec fn position(nodes: Seq<NodeView>, name: Seq<char>) -> int
    decreases nodes.len(),
{
    if nodes.len() == 0 {
        0
    } else {
        let before = position(nodes.drop_last(), name);
        if before < nodes.len() - 1 {
            before
        } else if nodes.last().name == name {
            nodes.len() - 1
        } else {
            nodes.len() as int
        }
    }
}

/// The node that is made for `parts[i]`: a directory, except that the last part gets `kind`.
pub open spec fn fresh(parts: Seq<Seq<char>>, i: int, kind: NodeKind) -> NodeView {
    let own = if i == parts.len() - 1 {
        kind
    } else {
        NodeKind::Dir
    };
    NodeView {
        name: parts[i],
        path: join(parts.take(i + 1), '/'),
        kind: own,
        children: if own == NodeKind::Dir {
            Some(Seq::empty())
        } else {
            None
        },
    }
}

/// The nodes below `node`, with a fresh one for `parts[i]` at the end where none has that name.
pub open spec fn with_child(
    node: NodeView,
    parts: Seq<Seq<char>>,
    i: int,
    kind: NodeKind,
) -> Seq<NodeView> {
    let nodes = nodes_below(node);
    if position(nodes, parts[i]) < nodes.len() {
        nodes
    } else {
        nodes.push(fresh(parts, i, kind))
    }
}

/// `node` with the parts from `parts[i]` on below it: a part that has a node keeps it, any other
/// gets a fresh one.
pub open spec fn inserted(
    node: NodeView,
    parts: Seq<Seq<char>>,
    i: int,
    kind: NodeKind,
) -> NodeView
    decreases parts.len() - i,
{
    if i >= parts.len() {
        node
    } else {
        let nodes = with_child(node, parts, i, kind);
        let at = position(nodes, parts[i]);
        NodeView {
            children: Some(nodes.update(at, inserted(nodes[at], parts, i + 1, kind))),
            ..node
        }
    }
}

/// The position is the first one with the name.
proof fn lemma_position(nodes: Seq<NodeView>, name: Seq<char>)
    ensures
        0 <= position(nodes, name) <= nodes.len(),
        position(nodes, name) < nodes.len() ==> nodes[position(nodes, name)].name == name,
        forall|i: int| 0 <= i < position(nodes, name) ==> (#[trigger] nodes[i]).name != name,
    decreases nodes.len(),
{
    if nodes.len() > 0 {
        lemma_position(nodes.drop_last(), name);
        assert forall|i: int| 0 <= i < position(nodes, name) implies (#[trigger] nodes[i]).name
            != name by {
            if i < nodes.len() - 1 {
                assert(nodes.drop_last()[i] == nodes[i]);
            }
        }
    }
}

/// A position with these properties is the position.
proof fn lemma_position_is(nodes: Seq<NodeView>, name: Seq<char>, at: int)
    requires
        0 <= at <= nodes.len(),
        at < nodes.len() ==> nodes[at].name == name,
        forall|i: int| 0 <= i < at ==> (#[trigger] nodes[i]).name != name,
    ensures
        position(nodes, name) == at,
{
    lemma_position(nodes, name);
    let p = position(nodes, name);
    if p < at {
        assert(nodes[p].name != name);
    }
}

/// Finds the first node with the given name.
fn find_child(nodes: &Vec<TreeNode>, name: &String) -> (r: usize)
    ensures
        r == position(nodes@.map_values(|n: TreeNode| n@), name@),
{
    let ghost views = nodes@.map_values(|n: TreeNode| n@);
    for i in 0..nodes.len()
        invariant
            views == nodes@.map_values(|n: TreeNode| n@),
            forall|j: int| 0 <= j < i ==> (#[trigger] views[j]).name != name@,
    {
        assert(views[i as int].name == nodes[i as int].name@);
        if nodes[i].name == *name {
            proof {
                lemma_position_is(views, name@, i as int);
            }
            return i;
        }
    }
    proof {
        lemma_position_is(views, name@, nodes.len() as int);
    }
    nodes.len()
}

/// Puts the path `rel`, whose names are separated by slashes, into the tree below `root`.
///
/// Each name that has no node yet gets one: the last name one of the given kind, the others
/// directories. Nodes that are there already stay as they are.
pub fn insert_into_tree(root: &mut TreeNode, rel: &str, kind: NodeKind)
    ensures
        final(root)@ == inserted(old(root)@, names(rel@), 0, kind),
{
    let parts = split_names(rel);
    let ghost all = parts.deep_view();
    let ghost start = root@;
    let mut path_so_far = String::new();
    let mut current = root;
    let mut i: usize = 0;
    assert(all.take(0) =~= Seq::empty());
    while i < parts.len()
        invariant
            i <= parts.len(),
            all == parts.deep_view(),
            path_so_far@ == join(all.take(i as int), '/'),
            final(current)@ == inserted(current@, all, i as int, kind) ==> final(root)@ == inserted(
                start,
                all,
                0,
                kind,
            ),
        decreases parts.len() - i,
    {
        let ghost node = current@;
        let ghost node_after = final(current)@;
        let is_last = i == parts.len() - 1;
        if i > 0 {
            path_so_far.push('/');
        }
        path_so_far.append(parts[i].as_str());
        proof {
            assert(all[i as int] == parts[i as int]@);
            assert(all.take(i + 1).drop_last() =~= all.take(i as int));
        }
        assert(path_so_far@ =~= join(all.take(i + 1), '/'));
        let children = current.children.get_or_insert(Vec::new());
        let ghost below = nodes_below(node);
        assert(children@.map_values(|n: TreeNode| n@) =~= below);
        let found = find_child(children, &parts[i]);
        if found == children.len() {
            let node_kind = if is_last {
                kind
            } else {
                NodeKind::Dir
            };
            let fresh_node = TreeNode {
                name: parts[i].clone(),
                path: path_so_far.clone(),
                kind: node_kind,
                children: if node_kind == NodeKind::Dir {
                    Some(Vec::new())
                } else {
                    None
                },
            };
            assert(fresh_node.children is Some ==> fresh_node@.children->0 =~= Seq::empty());
            children.push(fresh_node);
        }
        let ghost nodes = with_child(node, all, i as int, kind);
        proof {
            lemma_position(below, all[i as int]);
            if found == below.len() {
                lemma_position_is(nodes, all[i as int], found as int);
            }
        }
        assert(children@.map_values(|n: TreeNode| n@) =~= nodes);
        current = &mut children[found];
        assert(current@ == nodes[found as int]);
        assert(node_after.children->0 =~= nodes.update(found as int, final(current)@));
        i += 1;
    }
}

/// The node that is reached from `node` by the names in `q`.
pub open spec fn lookup(node: NodeView, q: Seq<Seq<char>>) -> Option<NodeView>
    decreases q.len(),
{
    if q.len() == 0 {
        Some(node)
    } else {
        let nodes = nodes_below(node);
        let at = position(nodes, q[0]);
        if 0 <= at < nodes.len() {
            lookup(nodes[at], q.drop_first())
        } else {
            None
        }
    }
}

/// The subtree at a node that `parts` passes or ends at: what was there, or else a fresh node,
/// with the rest of the parts put in.
pub open spec fn passed(
    node: NodeView,
    parts: Seq<Seq<char>>,
    n: int,
    kind: NodeKind,
) -> NodeView {
    match lookup(node, parts.take(n)) {
        Some(there) => inserted(there, parts, n, kind),
        None => inserted(fresh(parts, n - 1, kind), parts, n, kind),
    }
}

/// One step of an insertion: the child for `parts[i]` is where a lookup finds it, and the other
/// children are the ones that were there.
proof fn lemma_inserted_step(
    node: NodeView,
    parts: Seq<Seq<char>>,
    i: int,
    kind: NodeKind,
    name: Seq<char>,
)
    requires
        0 <= i < parts.len(),
    ensures
        ({
            let before = nodes_below(node);
            let nodes = with_child(node, parts, i, kind);
            let after = nodes_below(inserted(node, parts, i, kind));
            let at = position(nodes, parts[i]);
            &&& 0 <= at < nodes.len() == after.len()
            &&& nodes[at].name == parts[i]
            &&& after[at] == inserted(nodes[at], parts, i + 1, kind)
            &&& position(after, parts[i]) == at
            &&& position(before, parts[i]) == at
            &&& at < before.len() ==> nodes[at] == before[at]
            &&& at >= before.len() ==> at == before.len() && nodes[at] == fresh(parts, i, kind)
            &&& name != parts[i] ==> {
                let p = position(after, name);
                &&& (p < after.len() <==> position(before, name) < before.len())
                &&& 0 <= p < after.len() ==> p == position(before, name) && after[p] == before[p]
            }
        }),
{
    let before = nodes_below(node);
    let nodes = with_child(node, parts, i, kind);
    let after = nodes_below(inserted(node, parts, i, kind));
    lemma_position(before, parts[i]);
    let at = position(before, parts[i]);
    lemma_position_is(nodes, parts[i], at);
    lemma_inserted_name(nodes[at], parts, i + 1, kind);
    assert forall|j: int| 0 <= j < nodes.len() implies (#[trigger] after[j]).name
        == nodes[j].name by {}
    lemma_position_is(after, parts[i], at);
    if name != parts[i] {
        lemma_position(before, name);
        let p = position(before, name);
        if p < before.len() {
            lemma_position_is(after, name, p);
        } else {
            lemma_position_is(after, name, after.len() as int);
        }
    }
}

/// An insertion keeps the name, the path and the kind of the node that it starts from.
proof fn lemma_inserted_name(node: NodeView, parts: Seq<Seq<char>>, i: int, kind: NodeKind)
    ensures
        inserted(node, parts, i, kind).name == node.name,
        inserted(node, parts, i, kind).path == node.path,
        inserted(node, parts, i, kind).kind == node.kind,
{
}

/// Whether the names `q` lead to a node that an insertion of `parts` from `parts[i]` on passes.
pub open spec fn on_the_way(q: Seq<Seq<char>>, parts: Seq<Seq<char>>, i: int) -> bool {
    &&& q.len() <= parts.len() - i
    &&& q == parts.subrange(i, i + q.len())
}

/// What a lookup finds after an insertion, from `parts[i]` on.
proof fn lemma_lookup_inserted(
    node: NodeView,
    parts: Seq<Seq<char>>,
    i: int,
    kind: NodeKind,
    q: Seq<Seq<char>>,
)
    requires
        0 <= i <= parts.len(),
    ensures
        !on_the_way(q, parts, i) ==> lookup(inserted(node, parts, i, kind), q) == lookup(node, q),
        on_the_way(q, parts, i) ==> lookup(inserted(node, parts, i, kind), q) == Some(
            match lookup(node, q) {
                Some(there) => inserted(there, parts, i + q.len(), kind),
                None => inserted(fresh(parts, i + q.len() - 1, kind), parts, i + q.len(), kind),
            },
        ),
    decreases q.len(),
{
    if q.len() == 0 {
        assert(q =~= parts.subrange(i, i + q.len()));
    } else if i < parts.len() {
        lemma_inserted_step(node, parts, i, kind, q[0]);
        let before = nodes_below(node);
        let nodes = with_child(node, parts, i, kind);
        let after = nodes_below(inserted(node, parts, i, kind));
        let rest = q.drop_first();
        lemma_position(before, q[0]);
        lemma_position(after, q[0]);
        if q[0] == parts[i] {
            let at = position(nodes, parts[i]);
            lemma_lookup_inserted(nodes[at], parts, i + 1, kind, rest);
            assert(on_the_way(q, parts, i) <==> on_the_way(rest, parts, i + 1)) by {
                if on_the_way(q, parts, i) {
                    assert(rest =~= parts.subrange(i + 1, i + 1 + rest.len()));
                }
                if on_the_way(rest, parts, i + 1) {
                    assert(q =~= seq![q[0]] + rest);
                    assert(q =~= parts.subrange(i, i + q.len()));
                }
            }
            if at >= before.len() {
                assert(rest.len() == 0 ==> rest =~= parts.subrange(i + 1, i + 1));
            }
        } else {
            assert(!on_the_way(q, parts, i)) by {
                if on_the_way(q, parts, i) {
                    assert(q[0] == parts[i]);
                }
            }
        }
    }
}

/// After an insertion the names of each beginning of the inserted path lead to the node that was
/// there, or else to a fresh one, with the rest of the path below it. All other names lead
/// where they led before.
pub proof fn lookup_after_insertion(
    node: NodeView,
    parts: Seq<Seq<char>>,
    kind: NodeKind,
    q: Seq<Seq<char>>,
)
    ensures
        !q.is_prefix_of(parts) ==> lookup(inserted(node, parts, 0, kind), q) == lookup(node, q),
        q.is_prefix_of(parts) ==> lookup(inserted(node, parts, 0, kind), q) == Some(
            passed(node, parts, q.len() as int, kind),
        ),
{
    lemma_lookup_inserted(node, parts, 0, kind, q);
    assert(on_the_way(q, parts, 0) <==> q.is_prefix_of(parts));
    if q.is_prefix_of(parts) {
        assert(q =~= parts.take(q.len() as int));
    }
}

/// An insertion takes no node away, and changes no node's name, path or kind.
pub proof fn insertion_keeps_nodes(
    node: NodeView,
    parts: Seq<Seq<char>>,
    kind: NodeKind,
    q: Seq<Seq<char>>,
)
    ensures
        lookup(node, q) matches Some(was) ==> {
            &&& lookup(inserted(node, parts, 0, kind), q) matches Some(is)
            &&& is.name == was.name && is.path == was.path && is.kind == was.kind
        },
{
    lookup_after_insertion(node, parts, kind, q);
    if q.is_prefix_of(parts) {
        assert(q =~= parts.take(q.len() as int));
        if let Some(was) = lookup(node, q) {
            lemma_inserted_name(was, parts, q.len() as int, kind);
        }
    }
}

/// Inserting the same path a second time changes nothing, whatever kind is given.
pub proof fn insertion_is_idempotent(
    node: NodeView,
    parts: Seq<Seq<char>>,
    kind: NodeKind,
    again: NodeKind,
)
    ensures
        inserted(inserted(node, parts, 0, kind), parts, 0, again) == inserted(node, parts, 0, kind),
{
    lemma_inserted_twice(node, parts, 0, kind, again);
}

proof fn lemma_inserted_twice(
    node: NodeView,
    parts: Seq<Seq<char>>,
    i: int,
    kind: NodeKind,
    again: NodeKind,
)
    requires
        0 <= i,
    ensures
        inserted(inserted(node, parts, i, kind), parts, i, again) == inserted(node, parts, i, kind),
    decreases parts.len() - i,
{
    if i < parts.len() {
        let once = inserted(node, parts, i, kind);
        lemma_inserted_step(node, parts, i, kind, parts[i]);
        let nodes = with_child(node, parts, i, kind);
        let at = position(nodes, parts[i]);
        lemma_inserted_twice(nodes[at], parts, i + 1, kind, again);
        assert(with_child(once, parts, i, again) == nodes_below(once));
        assert(nodes_below(once).update(at, nodes_below(once)[at]) =~= nodes_below(once));
    }
}

/// Whether a text can be the name of a node: it is not empty and holds no slash.
pub open spec fn is_name(s: Seq<char>) -> bool {
    s.len() > 0 && !s.contains('/')
}

/// Whether the tree at `node` is in order, where the names `at` lead to `node`: the path of each
/// node is the names that lead to it, joined by slashes, and no two children of a node share a
/// name.
pub open spec fn in_order(node: NodeView, at: Seq<Seq<char>>) -> bool
    decreases node,
{
    &&& node.path == join(at, '/')
    &&& match node.children {
        None => true,
        Some(nodes) => {
            &&& forall|i: int, j: int|
                0 <= i < j < nodes.len() ==> (#[trigger] nodes[i]).name != (
                #[trigger] nodes[j]).name
            &&& forall|i: int|
                0 <= i < nodes.len() ==> in_order(
                    #[trigger] nodes[i],
                    at.push(nodes[i].name),
                )
        },
    }
}

/// Whether each node below `node` has a proper name, and each directory a list of children.
pub open spec fn is_proper(node: NodeView) -> bool
    decreases node,
{
    match node.children {
        None => node.kind == NodeKind::File,
        Some(nodes) => forall|i: int|
            0 <= i < nodes.len() ==> is_name((#[trigger] nodes[i]).name) && is_proper(nodes[i]),
    }
}

/// Whether the files in a tree are just the nodes without a list of children.
pub open spec fn kinds_fit(node: NodeView) -> bool
    decreases node,
{
    &&& node.kind == NodeKind::File <==> node.children is None
    &&& node.children matches Some(nodes) ==> forall|i: int|
        0 <= i < nodes.len() ==> kinds_fit(#[trigger] nodes[i])
}

/// An insertion keeps a tree in order.
pub proof fn insertion_keeps_order(node: NodeView, parts: Seq<Seq<char>>, kind: NodeKind)
    requires
        in_order(node, Seq::empty()),
    ensures
        in_order(inserted(node, parts, 0, kind), Seq::empty()),
{
    assert(parts.take(0) =~= Seq::empty());
    lemma_inserted_in_order(node, parts, 0, kind);
}

proof fn lemma_inserted_in_order(node: NodeView, parts: Seq<Seq<char>>, i: int, kind: NodeKind)
    requires
        0 <= i <= parts.len(),
        in_order(node, parts.take(i)),
    ensures
        in_order(inserted(node, parts, i, kind), parts.take(i)),
    decreases parts.len() - i,
{
    if i < parts.len() {
        lemma_inserted_step(node, parts, i, kind, parts[i]);
        let at = parts.take(i);
        let before = nodes_below(node);
        let nodes = with_child(node, parts, i, kind);
        let p = position(nodes, parts[i]);
        let after = nodes_below(inserted(node, parts, i, kind));
        assert(at.push(parts[i]) =~= parts.take(i + 1));
        assert(in_order(nodes[p], parts.take(i + 1))) by {
            if p < before.len() {
                assert(in_order(before[p], at.push(before[p].name)));
            }
        }
        lemma_inserted_in_order(nodes[p], parts, i + 1, kind);
        lemma_inserted_name(nodes[p], parts, i + 1, kind);
        lemma_position(before, parts[i]);
        assert forall|j: int| 0 <= j < after.len() implies in_order(
            #[trigger] after[j],
            at.push(after[j].name),
        ) by {
            if j != p {
                assert(after[j] == before[j]);
            }
        }
        assert forall|j: int, k: int| 0 <= j < k < after.len() implies (#[trigger] after[j]).name
            != (#[trigger] after[k]).name by {
            assert(after[j].name == nodes[j].name && after[k].name == nodes[k].name);
            if k < before.len() {
                assert(before[j].name != before[k].name);
            }
        }
    }
}

/// An insertion of proper names keeps a tree proper.
proof fn lemma_inserted_proper(node: NodeView, parts: Seq<Seq<char>>, i: int, kind: NodeKind)
    requires
        0 <= i <= parts.len(),
        is_proper(node),
        forall|k: int| 0 <= k < parts.len() ==> is_name(#[trigger] parts[k]),
    ensures
        is_proper(inserted(node, parts, i, kind)),
    decreases parts.len() - i,
{
    if i < parts.len() {
        lemma_inserted_step(node, parts, i, kind, parts[i]);
        let before = nodes_below(node);
        let nodes = with_child(node, parts, i, kind);
        let p = position(nodes, parts[i]);
        let after = nodes_below(inserted(node, parts, i, kind));
        assert(is_proper(nodes[p])) by {
            if p < before.len() {
                assert(is_proper(before[p]));
            }
        }
        lemma_inserted_proper(nodes[p], parts, i + 1, kind);
        lemma_inserted_name(nodes[p], parts, i + 1, kind);
        assert forall|j: int| 0 <= j < after.len() implies is_name((#[trigger] after[j]).name)
            && is_proper(after[j]) by {
            if j != p {
                assert(after[j] == before[j]);
            }
        }
    }
}

/// An insertion keeps the files of a tree just the nodes without a list of children, where no
/// beginning of the inserted path leads to a file.
pub proof fn insertion_keeps_kinds(node: NodeView, parts: Seq<Seq<char>>, kind: NodeKind)
    requires
        kinds_fit(node),
        forall|n: int|
            0 <= n < parts.len() ==> ((#[trigger] lookup(node, parts.take(n))) matches Some(there)
                ==> there.kind == NodeKind::Dir),
    ensures
        kinds_fit(inserted(node, parts, 0, kind)),
{
    assert forall|n: int| 0 <= n < parts.len() implies ((#[trigger] lookup(
        node,
        parts.subrange(0, n),
    )) matches Some(there) ==> there.kind == NodeKind::Dir) by {
        assert(parts.subrange(0, n) =~= parts.take(n));
    }
    lemma_inserted_kinds(node, parts, 0, kind);
}

proof fn lemma_inserted_kinds(node: NodeView, parts: Seq<Seq<char>>, i: int, kind: NodeKind)
    requires
        0 <= i <= parts.len(),
        kinds_fit(node),
        forall|n: int|
            i <= n < parts.len() ==> ((#[trigger] lookup(node, parts.subrange(i, n))) matches Some(
                there,
            ) ==> there.kind == NodeKind::Dir),
    ensures
        kinds_fit(inserted(node, parts, i, kind)),
    decreases parts.len() - i,
{
    if i < parts.len() {
        lemma_inserted_step(node, parts, i, kind, parts[i]);
        let before = nodes_below(node);
        let nodes = with_child(node, parts, i, kind);
        let p = position(nodes, parts[i]);
        let after = nodes_below(inserted(node, parts, i, kind));
        assert(lookup(node, parts.subrange(i, i)) == Some(node));
        assert(kinds_fit(nodes[p])) by {
            if p < before.len() {
                assert(kinds_fit(before[p]));
            }
        }
        assert forall|n: int| i + 1 <= n < parts.len() implies ((#[trigger] lookup(
            nodes[p],
            parts.subrange(i + 1, n),
        )) matches Some(there) ==> there.kind == NodeKind::Dir) by {
            let q = parts.subrange(i, n);
            let rest = parts.subrange(i + 1, n);
            if p < before.len() {
                assert(q.drop_first() =~= rest);
                assert(lookup(node, q) == lookup(nodes[p], rest));
            } else if n > i + 1 {
                assert(lookup(nodes[p], rest) is None);
            } else {
                assert(lookup(nodes[p], rest) == Some(nodes[p]));
            }
        }
        lemma_inserted_kinds(nodes[p], parts, i + 1, kind);
        assert forall|j: int| 0 <= j < after.len() implies kinds_fit(#[trigger] after[j]) by {
            if j != p {
                assert(after[j] == before[j]);
            }
        }
    }
}

/// Whether a text comes before another one, by the first character in which they differ, or else
/// because it is shorter. Texts are so ordered as their bytes in UTF-8 are.
pub open spec fn is_less(a: Seq<char>, b: Seq<char>) -> bool
    decreases a.len(),
{
    if b.len() == 0 {
        false
    } else if a.len() == 0 {
        true
    } else if a[0] == b[0] {
        is_less(a.drop_first(), b.drop_first())
    } else {
        a[0] < b[0]
    }
}

/// Whether the names `p` come before the names `q`, by the first name in which they differ, or
/// else because there are fewer of them.
pub open spec fn precedes(p: Seq<Seq<char>>, q: Seq<Seq<char>>) -> bool
    decreases p.len(),
{
    if q.len() == 0 {
        false
    } else if p.len() == 0 {
        true
    } else if p[0] == q[0] {
        precedes(p.drop_first(), q.drop_first())
    } else {
        is_less(p[0], q[0])
    }
}

/// Whether the children of each node have ascending names.
pub open spec fn is_sorted(node: NodeView) -> bool
    decreases node,
{
    node.children matches Some(nodes) ==> {
        &&& forall|i: int, j: int|
            0 <= i < j < nodes.len() ==> is_less(
                (#[trigger] nodes[i]).name,
                (#[trigger] nodes[j]).name,
            )
        &&& forall|i: int| 0 <= i < nodes.len() ==> is_sorted(#[trigger] nodes[i])
    }
}

proof fn lemma_less_is_strict(a: Seq<char>)
    ensures
        !is_less(a, a),
    decreases a.len(),
{
    if a.len() > 0 {
        lemma_less_is_strict(a.drop_first());
    }
}

/// What comes before some names comes before them also if it is cut short.
proof fn lemma_precedes_prefix(p: Seq<Seq<char>>, m: Seq<Seq<char>>, q: Seq<Seq<char>>)
    requires
        p.is_prefix_of(m),
        precedes(m, q),
    ensures
        precedes(p, q),
    decreases p.len(),
{
    if p.len() > 0 {
        assert(p =~= m.take(p.len() as int));
        assert(p[0] == m[0]);
        if m[0] == q[0] {
            assert(p.drop_first() =~= m.drop_first().take(p.len() - 1));
            lemma_precedes_prefix(p.drop_first(), m.drop_first(), q.drop_first());
        }
    }
}

/// An insertion keeps a tree sorted, where all that is in the tree comes before the inserted path.
pub proof fn insertion_keeps_sorted(node: NodeView, parts: Seq<Seq<char>>, kind: NodeKind)
    requires
        is_sorted(node),
        forall|p: Seq<Seq<char>>|
            p.len() > 0 && (#[trigger] lookup(node, p)) is Some ==> precedes(p, parts),
    ensures
        is_sorted(inserted(node, parts, 0, kind)),
{
    assert(parts.skip(0) =~= parts);
    lemma_inserted_sorted(node, parts, 0, kind);
}

proof fn lemma_inserted_sorted(node: NodeView, parts: Seq<Seq<char>>, i: int, kind: NodeKind)
    requires
        0 <= i <= parts.len(),
        is_sorted(node),
        forall|p: Seq<Seq<char>>|
            p.len() > 0 && (#[trigger] lookup(node, p)) is Some ==> precedes(p, parts.skip(i)),
    ensures
        is_sorted(inserted(node, parts, i, kind)),
    decreases parts.len() - i,
{
    if i < parts.len() {
        lemma_inserted_step(node, parts, i, kind, parts[i]);
        let before = nodes_below(node);
        let nodes = with_child(node, parts, i, kind);
        let at = position(nodes, parts[i]);
        let after = nodes_below(inserted(node, parts, i, kind));
        let rest = parts.skip(i);
        assert(rest.drop_first() =~= parts.skip(i + 1));
        assert forall|j: int| 0 <= j < before.len() implies (#[trigger] before[j]).name == parts[i]
            || is_less(before[j].name, parts[i]) by {
            let name = before[j].name;
            assert forall|k: int| 0 <= k < j implies (#[trigger] before[k]).name != name by {
                lemma_less_is_strict(name);
                assert(is_less(before[k].name, before[j].name));
            }
            lemma_position_is(before, name, j);
            assert(lookup(before[j], seq![name].drop_first()) == Some(before[j]));
            assert(lookup(node, seq![name]) is Some);
            assert(precedes(seq![name], rest));
        }
        assert forall|p: Seq<Seq<char>>|
            p.len() > 0 && (#[trigger] lookup(nodes[at], p)) is Some implies precedes(
            p,
            parts.skip(i + 1),
        ) by {
            if at < before.len() {
                let longer = seq![parts[i]] + p;
                assert(longer.drop_first() =~= p);
                assert(lookup(node, longer) == lookup(nodes[at], p));
            }
        }
        assert(is_sorted(nodes[at])) by {
            if at < before.len() {
                assert(is_sorted(before[at]));
            }
        }
        lemma_inserted_sorted(nodes[at], parts, i + 1, kind);
        lemma_inserted_name(nodes[at], parts, i + 1, kind);
        lemma_position(before, parts[i]);
        assert forall|j: int, k: int| 0 <= j < k < after.len() implies is_less(
            (#[trigger] after[j]).name,
            (#[trigger] after[k]).name,
        ) by {
            assert(after[j].name == nodes[j].name && after[k].name == nodes[k].name);
            if k < before.len() {
                assert(is_less(before[j].name, before[k].name));
            } else {
                assert(before[j].name != parts[i]);
            }
        }
        assert forall|j: int| 0 <= j < after.len() implies is_sorted(#[trigger] after[j]) by {
            if j != at {
                assert(after[j] == before[j]);
            }
        }
    }
}

/// What kind of file an entry of a directory is.
#[derive(Debug, Clone, Copy, PartialEq, Eq, Structural)]
pub enum EntryKind {
    Dir,
    File,
    /// A link, a socket and the like.
    Other,
}

/// A file or directory that a walk through the vault comes across.
#[derive(Debug)]
pub struct WalkEntry {
    pub path: FilePath,
    pub kind: EntryKind,
}

/// What a `WalkEntry` holds.
pub struct EntryView {
    pub path: Seq<Part>,
    pub kind: EntryKind,
}

impl View for WalkEntry {
    type V = EntryView;

    open spec fn view(&self) -> EntryView {
        EntryView { path: self.path@, kind: self.kind }
    }
}

/// Whether a text is the name of a hidden top-level entry.
pub open spec fn is_hidden_text(name: Seq<char>) -> bool {
    name == ".git"@ || name == ".obsidian"@ || name == ".trash"@
}

/// Whether the first name in a relative path is that of a hidden top-level entry.
pub open spec fn starts_hidden(rel: Seq<char>) -> bool {
    names(rel).len() > 0 && is_hidden_text(names(rel)[0])
}

/// Whether the first name in a relative path is that of a hidden top-level entry.
fn is_hidden_path(rel: &str) -> (r: bool)
    ensures
        r == starts_hidden(rel@),
{
    let parts = split_names(rel);
    if parts.len() == 0 {
        return false;
    }
    assert(names(rel@)[0] == parts[0]@);
    parts[0] == ".git".to_owned() || parts[0] == ".obsidian".to_owned() || parts[0]
        == ".trash".to_owned()
}

/// The relative path and the kind that an entry has in the tree; `None` where it has no place
/// there: outside the vault, in a hidden directory or under the name of one, neither a directory
/// nor a file.
pub open spec fn shown(root: Seq<Part>, entry: EntryView) -> Option<(Seq<char>, NodeKind)> {
    if in_hidden(root, entry.path) {
        None
    } else {
        match (relative(root, entry.path), entry.kind) {
            (Some(rel), EntryKind::Dir) if !starts_hidden(rel) => Some((rel, NodeKind::Dir)),
            (Some(rel), EntryKind::File) if !starts_hidden(rel) => Some((rel, NodeKind::File)),
            _ => None,
        }
    }
}

/// The tree of no files: a directory without name and children.
pub open spec fn empty_tree() -> NodeView {
    NodeView {
        name: Seq::empty(),
        path: Seq::empty(),
        kind: NodeKind::Dir,
        children: Some(Seq::empty()),
    }
}

/// The tree of some entries, which are put in one after the other.
pub open spec fn tree_of(root: Seq<Part>, entries: Seq<EntryView>) -> NodeView
    decreases entries.len(),
{
    if entries.len() == 0 {
        empty_tree()
    } else {
        let before = tree_of(root, entries.drop_last());
        match shown(root, entries.last()) {
            Some((rel, kind)) => inserted(before, names(rel), 0, kind),
            None => before,
        }
    }
}

impl Vault {
    /// The tree of the vault, made of the entries that a walk comes across, without what is in a
    /// hidden top-level directory.
    pub fn tree(&self, entries: &Vec<WalkEntry>) -> (r: TreeNode)
        ensures
            r@ == tree_of(self@, entries@.map_values(|e: WalkEntry| e@)),
    {
        let ghost all = entries@.map_values(|e: WalkEntry| e@);
        let mut tree = TreeNode {
            name: String::new(),
            path: String::new(),
            kind: NodeKind::Dir,
            children: Some(Vec::new()),
        };
        assert(tree@.children->0 =~= Seq::empty());
        for i in 0..entries.len()
            invariant
                all == entries@.map_values(|e: WalkEntry| e@),
                tree@ == tree_of(self@, all.take(i as int)),
        {
            let entry = &entries[i];
            assert(all.take(i + 1).drop_last() =~= all.take(i as int));
            assert(all[i as int] == entry@);
            if !self.hides(&entry.path) {
                if let Some(rel) = self.relative_str(&entry.path) {
                    if !is_hidden_path(rel.as_str()) {
                        match entry.kind {
                            EntryKind::Dir => insert_into_tree(
                                &mut tree,
                                rel.as_str(),
                                NodeKind::Dir,
                            ),
                            EntryKind::File => insert_into_tree(
                                &mut tree,
                                rel.as_str(),
                                NodeKind::File,
                            ),
                            EntryKind::Other => {},
                        }
                    }
                }
            }
        }
        assert(all.take(all.len() as int) =~= all);
        tree
    }
}

/// The tree of a vault is in order and proper.
pub proof fn trees_are_in_order(root: Seq<Part>, entries: Seq<EntryView>)
    ensures
        in_order(tree_of(root, entries), Seq::empty()),
        is_proper(tree_of(root, entries)),
    decreases entries.len(),
{
    if entries.len() > 0 {
        let before = tree_of(root, entries.drop_last());
        trees_are_in_order(root, entries.drop_last());
        if let Some((rel, kind)) = shown(root, entries.last()) {
            lemma_names(rel);
            insertion_keeps_order(before, names(rel), kind);
            lemma_inserted_proper(before, names(rel), 0, kind);
        }
    }
}

/// Whether the names `q` lead to a shown entry, or to a directory above one.
pub open spec fn leads_to(root: Seq<Part>, entry: EntryView, q: Seq<Seq<char>>) -> bool {
    match shown(root, entry) {
        Some((rel, _)) => q.is_prefix_of(names(rel)),
        None => false,
    }
}

/// The kind that a shown entry gives to the node at `q`: its own, or that of a directory where `q`
/// leads only part of the way.
pub open spec fn kind_given(root: Seq<Part>, entry: EntryView, q: Seq<Seq<char>>) -> NodeKind {
    match shown(root, entry) {
        Some((rel, kind)) if names(rel) == q => kind,
        _ => NodeKind::Dir,
    }
}

/// The tree has a node just for the shown entries and the directories above them.
pub proof fn trees_hold_what_is_shown(
    root: Seq<Part>,
    entries: Seq<EntryView>,
    q: Seq<Seq<char>>,
)
    requires
        q.len() > 0,
    ensures
        lookup(tree_of(root, entries), q) is Some <==> exists|i: int|
            0 <= i < entries.len() && leads_to(root, #[trigger] entries[i], q),
    decreases entries.len(),
{
    if entries.len() > 0 {
        let init = entries.drop_last();
        trees_hold_what_is_shown(root, init, q);
        if exists|i: int| 0 <= i < init.len() && leads_to(root, #[trigger] init[i], q) {
            let i = choose|i: int| 0 <= i < init.len() && leads_to(root, #[trigger] init[i], q);
            assert(leads_to(root, entries[i], q));
        }
        if exists|i: int| 0 <= i < entries.len() && leads_to(root, #[trigger] entries[i], q) {
            let i = choose|i: int|
                0 <= i < entries.len() && leads_to(root, #[trigger] entries[i], q);
            if i < init.len() {
                assert(leads_to(root, init[i], q));
            }
        }
        if let Some((rel, kind)) = shown(root, entries.last()) {
            lookup_after_insertion(tree_of(root, init), names(rel), kind, q);
        }
    }
}

/// A node has the kind that the first entry gives to it which leads there, the last of the names
/// as its name, and the names joined by slashes as its path.
pub proof fn nodes_follow_the_first_entry(
    root: Seq<Part>,
    entries: Seq<EntryView>,
    first: int,
    q: Seq<Seq<char>>,
)
    requires
        q.len() > 0,
        0 <= first < entries.len(),
        leads_to(root, entries[first], q),
        forall|i: int| 0 <= i < first ==> !leads_to(root, #[trigger] entries[i], q),
    ensures
        lookup(tree_of(root, entries), q) matches Some(node) && {
            &&& node.name == q.last()
            &&& node.path == join(q, '/')
            &&& node.kind == kind_given(root, entries[first], q)
        },
    decreases entries.len(),
{
    let init = entries.drop_last();
    let before = tree_of(root, init);
    if first < init.len() {
        assert(init[first] == entries[first]);
        assert forall|i: int| 0 <= i < first implies !leads_to(root, #[trigger] init[i], q) by {
            assert(init[i] == entries[i]);
        }
        nodes_follow_the_first_entry(root, init, first, q);
        if let Some((rel, kind)) = shown(root, entries.last()) {
            insertion_keeps_nodes(before, names(rel), kind, q);
        }
    } else {
        let (rel, kind) = shown(root, entries.last())->0;
        trees_hold_what_is_shown(root, init, q);
        assert(lookup(before, q) is None) by {
            if exists|i: int| 0 <= i < init.len() && leads_to(root, #[trigger] init[i], q) {
                let i = choose|i: int| 0 <= i < init.len() && leads_to(root, #[trigger] init[i], q);
                assert(leads_to(root, entries[i], q));
            }
        }
        lookup_after_insertion(before, names(rel), kind, q);
        let n = q.len() as int;
        assert(q =~= names(rel).take(n));
        lemma_inserted_name(fresh(names(rel), n - 1, kind), names(rel), n, kind);
        if n == names(rel).len() {
            assert(names(rel) =~= q);
        }
    }
}

/// Whether a walk goes by name: in each directory it takes the names in ascending order, and it
/// goes through a directory right behind the directory itself.
pub open spec fn goes_by_name(root: Seq<Part>, entries: Seq<EntryView>) -> bool {
    forall|i: int, j: int|
        0 <= i < j < entries.len() ==> ((#[trigger] shown(root, entries[i])) matches Some((a, _))
            ==> ((#[trigger] shown(root, entries[j])) matches Some((b, _)) ==> precedes(
            names(a),
            names(b),
        )))
}

/// Where the walk goes by name, the children of every node of the tree have ascending names.
pub proof fn trees_are_sorted(root: Seq<Part>, entries: Seq<EntryView>)
    requires
        goes_by_name(root, entries),
    ensures
        is_sorted(tree_of(root, entries)),
    decreases entries.len(),
{
    if entries.len() > 0 {
        let init = entries.drop_last();
        let before = tree_of(root, init);
        let last = entries.len() - 1;
        assert forall|i: int, j: int| 0 <= i < j < init.len() implies ((#[trigger] shown(
            root,
            init[i],
        )) matches Some((a, _)) ==> ((#[trigger] shown(root, init[j])) matches Some((b, _))
            ==> precedes(names(a), names(b)))) by {
            assert(init[i] == entries[i] && init[j] == entries[j]);
        }
        trees_are_sorted(root, init);
        if let Some((rel, kind)) = shown(root, entries[last]) {
            assert forall|p: Seq<Seq<char>>|
                p.len() > 0 && (#[trigger] lookup(before, p)) is Some implies precedes(
                p,
                names(rel),
            ) by {
                trees_hold_what_is_shown(root, init, p);
                let k = choose|k: int| 0 <= k < init.len() && leads_to(root, #[trigger] init[k], p);
                assert(init[k] == entries[k]);
                let (other, _) = shown(root, entries[k])->0;
                lemma_precedes_prefix(p, names(other), names(rel));
            }
            insertion_keeps_sorted(before, names(rel), kind);
        }
    }
}

/// Whether a walk finds nothing inside of a file.
pub open spec fn files_are_leaves(root: Seq<Part>, entries: Seq<EntryView>) -> bool {
    forall|i: int, j: int|
        0 <= i < entries.len() && 0 <= j < entries.len() ==> ((#[trigger] shown(
            root,
            entries[i],
        )) matches Some((a, NodeKind::File)) ==> ((#[trigger] shown(root, entries[j])) matches Some(
            (b, _),
        ) ==> !(names(a).is_prefix_of(names(b)) && names(a) != names(b))))
}

/// Where the walk finds nothing inside of a file, the files of the tree are just the nodes without
/// a list of children.
pub proof fn files_have_no_children(root: Seq<Part>, entries: Seq<EntryView>)
    requires
        files_are_leaves(root, entries),
    ensures
        kinds_fit(tree_of(root, entries)),
    decreases entries.len(),
{
    if entries.len() > 0 {
        let init = entries.drop_last();
        let before = tree_of(root, init);
        let last = entries.len() - 1;
        assert forall|i: int, j: int|
            0 <= i < init.len() && 0 <= j < init.len() implies ((#[trigger] shown(
            root,
            init[i],
        )) matches Some((a, NodeKind::File)) ==> ((#[trigger] shown(root, init[j])) matches Some(
            (b, _),
        ) ==> !(names(a).is_prefix_of(names(b)) && names(a) != names(b)))) by {
            assert(init[i] == entries[i] && init[j] == entries[j]);
        }
        files_have_no_children(root, init);
        if let Some((rel, kind)) = shown(root, entries[last]) {
            let parts = names(rel);
            assert forall|n: int| 0 <= n < parts.len() implies ((#[trigger] lookup(
                before,
                parts.take(n),
            )) matches Some(there) ==> there.kind == NodeKind::Dir) by {
                let q = parts.take(n);
                if n == 0 {
                    lemma_root_is_dir(root, init);
                } else if lookup(before, q) is Some {
                    trees_hold_what_is_shown(root, init, q);
                    let i = choose|i: int|
                        0 <= i < init.len() && leads_to(root, #[trigger] init[i], q);
                    let first = lemma_first_leading(root, init, i, q);
                    nodes_follow_the_first_entry(root, init, first, q);
                    assert(init[first] == entries[first]);
                    assert(shown(root, entries[first]) is Some);
                    assert(q.is_prefix_of(parts));
                    assert(q != parts);
                }
            }
            insertion_keeps_kinds(before, parts, kind);
        }
    }
}

proof fn lemma_root_is_dir(root: Seq<Part>, entries: Seq<EntryView>)
    ensures
        tree_of(root, entries).kind == NodeKind::Dir,
    decreases entries.len(),
{
    if entries.len() > 0 {
        lemma_root_is_dir(root, entries.drop_last());
    }
}

/// What a walk comes across in hidden directories leaves no trace in the tree.
pub proof fn hidden_entries_leave_no_trace(root: Seq<Part>, entries: Seq<EntryView>)
    ensures
        tree_of(root, entries) == tree_of(
            root,
            entries.filter(|e: EntryView| !in_hidden(root, e.path)),
        ),
    decreases entries.len(),
{
    reveal(Seq::filter);
    if entries.len() > 0 {
        let visible = |e: EntryView| !in_hidden(root, e.path);
        hidden_entries_leave_no_trace(root, entries.drop_last());
        if visible(entries.last()) {
            let kept = entries.drop_last().filter(visible);
            assert(kept.push(entries.last()).drop_last() =~= kept);
        }
    }
}

/// No hidden name appears at the top of the tree.
pub proof fn hidden_names_do_not_appear(
    root: Seq<Part>,
    entries: Seq<EntryView>,
    hidden: Seq<char>,
)
    requires
        is_hidden_text(hidden),
    ensures
        lookup(tree_of(root, entries), seq![hidden]) is None,
{
    let q = seq![hidden];
    trees_hold_what_is_shown(root, entries, q);
    if exists|i: int| 0 <= i < entries.len() && leads_to(root, #[trigger] entries[i], q) {
        let i = choose|i: int| 0 <= i < entries.len() && leads_to(root, #[trigger] entries[i], q);
        let rel = relative(root, entries[i].path)->0;
        assert(q[0] == names(rel)[0]);
    }
}

/// Names as components of a path.
pub open spec fn components_of(q: Seq<Seq<char>>) -> Seq<Part> {
    q.map_values(|p: Seq<char>| Part::Normal(encode_utf8(p)))
}

/// The relative path of a file is its names, joined by slashes, where no name has a backslash.
proof fn lemma_relative_of_names(root: Seq<Part>, q: Seq<Seq<char>>)
    requires
        q.len() > 0,
        forall|i: int| 0 <= i < q.len() ==> !(#[trigger] q[i]).contains('\\'),
    ensures
        relative(root, root + components_of(q)) == Some(join(q, '/')),
{
    let path = root + components_of(q);
    assert(root.is_prefix_of(path));
    assert(path.skip(root.len() as int) =~= components_of(q));
    let bytes = components_of(q).map_values(|p: Part| part_bytes(p));
    assert(bytes =~= q.map_values(|p: Seq<char>| encode_utf8(p)));
    assert(components_of(q)[0] is Normal);
    lemma_encode_join(q);
    vstd::utf8::encode_utf8_valid_utf8(join(q, '/'));
    vstd::utf8::encode_utf8_decode_utf8(join(q, '/'));
    lemma_join_without(q, '\\');
    lemma_forward_slashes(join(q, '/'), Seq::empty());
}

proof fn lemma_join_without(q: Seq<Seq<char>>, c: char)
    requires
        c != '/',
        forall|i: int| 0 <= i < q.len() ==> !(#[trigger] q[i]).contains(c),
    ensures
        !join(q, '/').contains(c),
    decreases q.len(),
{
    if q.len() > 1 {
        let init = join(q.drop_last(), '/');
        lemma_join_without(q.drop_last(), c);
        if join(q, '/').contains(c) {
            let k = choose|k: int| 0 <= k < join(q, '/').len() && join(q, '/')[k] == c;
            if k < init.len() {
                assert(init[k] == c);
            } else {
                assert(q.last()[k - init.len() - 1] == c);
            }
        }
    }
}

/// Every file and directory of the vault that is not hidden stands in the tree under its names,
/// with its names joined by slashes as its path. Names with a backslash are left out: a backslash
/// separates names in the tree.
pub proof fn files_appear_under_their_names(
    root: Seq<Part>,
    entries: Seq<EntryView>,
    i: int,
    q: Seq<Seq<char>>,
)
    requires
        0 <= i < entries.len(),
        q.len() > 0,
        forall|k: int|
            0 <= k < q.len() ==> is_name(#[trigger] q[k]) && !q[k].contains('\\'),
        entries[i].path == root + components_of(q),
        entries[i].kind == EntryKind::Dir || entries[i].kind == EntryKind::File,
        !in_hidden(root, entries[i].path),
    ensures
        lookup(tree_of(root, entries), q) matches Some(node) && node.path == join(q, '/')
            && node.name == q.last(),
{
    lemma_relative_of_names(root, q);
    names_undoes_join(q);
    assert(q.is_prefix_of(q));
    assert(entries[i].path[root.len() as int] == components_of(q)[0]);
    assert(root.is_prefix_of(entries[i].path));
    assert(leads_to(root, entries[i], q));
    let first = lemma_first_leading(root, entries, i, q);
    nodes_follow_the_first_entry(root, entries, first, q);
}

proof fn lemma_first_leading(
    root: Seq<Part>,
    entries: Seq<EntryView>,
    i: int,
    q: Seq<Seq<char>>,
) -> (first: int)
    requires
        0 <= i < entries.len(),
        leads_to(root, entries[i], q),
    ensures
        0 <= first <= i,
        leads_to(root, entries[first], q),
        forall|k: int| 0 <= k < first ==> !leads_to(root, #[trigger] entries[k], q),
    decreases i,
{
    if exists|k: int| 0 <= k < i && leads_to(root, #[trigger] entries[k], q) {
        let k = choose|k: int| 0 <= k < i && leads_to(root, #[trigger] entries[k], q);
        lemma_first_leading(root, entries, k, q)
    } else {
        i
    }
}

/// Whether a text can be a component of a path.
pub open spec fn is_plain_name(s: Seq<char>) -> bool {
    is_name(s) && s != seq!['.'] && s != seq!['.', '.']
}

/// Joined names are parsed as those names.
proof fn lemma_parsed_names(q: Seq<Seq<char>>)
    requires
        q.len() > 0,
        forall|k: int| 0 <= k < q.len() ==> is_plain_name(#[trigger] q[k]),
    ensures
        join(q, '/').len() > 0,
        join(q, '/')[0] == q[0][0],
        q[0][0] != '/',
        parsed(join(q, '/')) == components_of(q),
{
    let text = join(q, '/');
    split_undoes_join(q, '/');
    lemma_join_first(q, '/');
    assert(q[0].len() > 0);
    assert(text.len() > 0 && text[0] == q[0][0]) by {
        if q.len() > 1 {
            assert(q[0].push('/')[0] == text.take(q[0].len() as int + 1)[0]);
        }
    }
    assert(q[0].contains(q[0][0]));
    let kept = |p: Seq<char>| is_kept(p);
    lemma_filter_all(q, kept);
    assert(q.map_values(|p: Seq<char>| part_of(p)) =~= components_of(q));
}

/// The path of a node in the tree, used as a request, names the file that the node stands for:
/// the names come back as components. Paths with white space at an end are left out, since a
/// request is trimmed.
pub proof fn tree_paths_are_addressable(q: Seq<Seq<char>>)
    requires
        q.len() > 0,
        forall|k: int| 0 <= k < q.len() ==> is_plain_name(#[trigger] q[k]),
        !is_white_space(join(q, '/')[0]),
        !is_white_space(join(q, '/').last()),
        hidden_entry(encode_utf8(q[0])) is None,
    ensures
        checked(join(q, '/')) == Ok::<_, VaultErrorView>(components_of(q)),
{
    lemma_parsed_names(q);
    assert(requested(join(q, '/')) == join(q, '/'));
}

/// The relative path of a file that a request may lead to, which is what git gets, leads git to no
/// hidden top-level entry, whether or not the names of the file have a backslash.
pub proof fn git_gets_no_hidden_paths(root: Seq<Part>, rel: Seq<char>, q: Seq<Seq<char>>)
    requires
        q.len() > 0,
        forall|k: int| 0 <= k < q.len() ==> is_plain_name(#[trigger] q[k]),
        accepted(root, rel, root + components_of(q)) is Ok,
    ensures
        relative(root, root + components_of(q)) matches Some(text) && !in_hidden(
            root,
            folded(root, parsed(text)),
        ),
{
    let path = root + components_of(q);
    assert(path[root.len() as int] == components_of(q)[0]);
    if !has_backslash(root, path) {
        assert forall|i: int| 0 <= i < q.len() implies !(#[trigger] q[i]).contains('\\') by {
            let bytes = encode_utf8(q[i]);
            assert(path[root.len() + i] == Part::Normal(bytes));
            assert(!bytes.contains(92u8));
            vstd::utf8::encode_utf8_valid_utf8(q[i]);
            vstd::utf8::encode_utf8_decode_utf8(q[i]);
            lemma_decode_contains(bytes, '\\');
        }
        lemma_relative_of_names(root, q);
        lemma_parsed_names(q);
        lemma_folded_names(root, components_of(q));
    }
}

/// A node holds its name, its path, its kind, and its children in order.
pub proof fn nodes_hold_their_fields(node: TreeNode)
    ensures
        node@.name == node.name@,
        node@.path == node.path@,
        node@.kind == node.kind,
        node@.children is None <==> node.children is None,
        node.children matches Some(children) ==> {
            &&& node@.children->0.len() == children@.len()
            &&& forall|i: int|
                0 <= i < children@.len() ==> (#[trigger] node@.children->0[i]) == children@[i]@
        },
{
}

/// An entry holds its path and its kind.
pub proof fn entries_hold_their_fields(entry: WalkEntry)
    ensures
        entry@.path == entry.path@,
        entry@.kind == entry.kind,
{
}

/// Names lead from a node to its first child with the first name, and from there on by the others;
/// no names lead to the node itself.
pub proof fn names_lead_from_child_to_child(
    node: NodeView,
    name: Seq<char>,
    q: Seq<Seq<char>>,
    j: int,
)
    ensures
        lookup(node, Seq::empty()) == Some(node),
        node.children is None ==> lookup(node, seq![name] + q) is None,
        node.children matches Some(nodes) ==> {
            &&& 0 <= j < nodes.len() && nodes[j].name == name && (forall|i: int|
                0 <= i < j ==> (#[trigger] nodes[i]).name != name) ==> lookup(node, seq![name] + q)
                == lookup(nodes[j], q)
            &&& (forall|i: int| 0 <= i < nodes.len() ==> (#[trigger] nodes[i]).name != name)
                ==> lookup(node, seq![name] + q) is None
        },
{
    let nodes = nodes_below(node);
    let whole = seq![name] + q;
    assert(whole[0] == name);
    assert(whole.drop_first() =~= q);
    lemma_position(nodes, name);
    if 0 <= j < nodes.len() && nodes[j].name == name && (forall|i: int|
        0 <= i < j ==> (#[trigger] nodes[i]).name != name) {
        lemma_position_is(nodes, name, j);
    }
}

/// Every beginning of an inserted path leads to a node. A node that was there keeps its name, its
/// path and its kind. A new one has the last of the names as its name, the names joined by slashes
/// as its path, and is a directory, but for the last one, which gets the given kind and nothing
/// below it.
pub proof fn insertion_makes_the_missing_nodes(
    node: NodeView,
    parts: Seq<Seq<char>>,
    kind: NodeKind,
    n: int,
)
    requires
        0 < n <= parts.len(),
    ensures
        ({
            let q = parts.take(n);
            let after = lookup(inserted(node, parts, 0, kind), q);
            &&& after is Some
            &&& lookup(node, q) matches Some(was) ==> {
                &&& after->0.name == was.name
                &&& after->0.path == was.path
                &&& after->0.kind == was.kind
                &&& n == parts.len() ==> after->0 == was
            }
            &&& lookup(node, q) is None ==> {
                &&& after->0.name == parts[n - 1]
                &&& after->0.path == join(q, '/')
                &&& n < parts.len() ==> after->0.kind == NodeKind::Dir
                &&& n == parts.len() ==> after->0.kind == kind && after->0.children == (match kind {
                    NodeKind::Dir => Some(Seq::<NodeView>::empty()),
                    NodeKind::File => None,
                })
            }
        }),
{
    let q = parts.take(n);
    assert(q.is_prefix_of(parts)) by {
        assert(q =~= parts.take(q.len() as int));
    }
    lookup_after_insertion(node, parts, kind, q);
    match lookup(node, q) {
        Some(was) => {
            lemma_inserted_name(was, parts, n, kind);
        },
        None => {
            lemma_inserted_name(fresh(parts, n - 1, kind), parts, n, kind);
        },
    }
}

/// An insertion keeps the children of each node in their places, and puts a new one behind them.
pub proof fn insertion_puts_new_nodes_last(
    node: NodeView,
    parts: Seq<Seq<char>>,
    kind: NodeKind,
    n: int,
    before: Seq<NodeView>,
)
    requires
        0 <= n < parts.len(),
        match lookup(node, parts.take(n)) {
            Some(there) => match there.children {
                Some(nodes) => before == nodes,
                None => before.len() == 0,
            },
            None => before.len() == 0,
        },
    ensures
        ({
            let known = exists|i: int|
                0 <= i < before.len() && (#[trigger] before[i]).name == parts[n];
            lookup(inserted(node, parts, 0, kind), parts.take(n)) matches Some(there) && (
            there.children matches Some(after) && {
                &&& known ==> after.len() == before.len()
                &&& !known ==> after.len() == before.len() + 1 && after.last().name == parts[n]
                &&& forall|i: int|
                    0 <= i < before.len() ==> (#[trigger] after[i]).name == before[i].name && (
                    before[i].name != parts[n] ==> after[i] == before[i])
            })
        }),
{
    let q = parts.take(n);
    assert(q.is_prefix_of(parts)) by {
        assert(q =~= parts.take(q.len() as int));
    }
    lookup_after_insertion(node, parts, kind, q);
    let start = match lookup(node, q) {
        Some(there) => there,
        None => fresh(parts, n - 1, kind),
    };
    assert(before =~= nodes_below(start));
    let nodes = with_child(start, parts, n, kind);
    let at = position(nodes, parts[n]);
    lemma_inserted_step(start, parts, n, kind, parts[n]);
    lemma_position(before, parts[n]);
    lemma_inserted_name(nodes[at], parts, n + 1, kind);
    let after = nodes_below(inserted(start, parts, n, kind));
    assert forall|i: int| 0 <= i < before.len() implies (#[trigger] after[i]).name == before[i].name
        && (before[i].name != parts[n] ==> after[i] == before[i]) by {
        assert(nodes[i] == before[i]);
    }
}

/// Whether an entry is shown depends on where it lies and what it is called; as what it is shown
/// depends on its kind alone.
pub proof fn entries_are_shown_as_what_they_are(root: Seq<Part>, path: Seq<Part>)
    ensures
        ({
            let rel = relative(root, path);
            let first = names(rel->0)[0];
            let visible = rel is Some && hidden_top(root, path) is None && !(names(rel->0).len() > 0
                && (first == ".git"@ || first == ".obsidian"@ || first == ".trash"@));
            &&& shown(root, EntryView { path, kind: EntryKind::Other }) is None
            &&& shown(root, EntryView { path, kind: EntryKind::Dir }) == (if visible {
                Some((rel->0, NodeKind::Dir))
            } else {
                None
            })
            &&& shown(root, EntryView { path, kind: EntryKind::File }) == (if visible {
                Some((rel->0, NodeKind::File))
            } else {
                None
            })
        }),
{
}

/// The tree of no entries is a directory without name and children. Another entry is put in at its
/// relative path, if it is shown, and changes nothing otherwise.
pub proof fn trees_grow_entry_by_entry(root: Seq<Part>, entries: Seq<EntryView>, entry: EntryView)
    ensures
        tree_of(root, Seq::empty()) == (NodeView {
            name: Seq::empty(),
            path: Seq::empty(),
            kind: NodeKind::Dir,
            children: Some(Seq::empty()),
        }),
        match shown(root, entry) {
            Some((rel, kind)) => tree_of(root, entries.push(entry)) == inserted(
                tree_of(root, entries),
                names(rel),
                0,
                kind,
            ),
            None => tree_of(root, entries.push(entry)) == tree_of(root, entries),
        },
{
    assert(entries.push(entry).drop_last() =~= entries);
}

/// A file of the vault stands in the tree as a file, and a directory as a directory, under its
/// names and with its names joined by slashes as its path, where no entry before it leads there.
/// Nothing is below it where no entry lies below it. Names with a backslash are left out: a
/// backslash separates names in the tree.
pub proof fn files_appear_as_what_they_are(
    root: Seq<Part>,
    entries: Seq<EntryView>,
    i: int,
    q: Seq<Seq<char>>,
)
    requires
        0 <= i < entries.len(),
        q.len() > 0,
        forall|k: int|
            0 <= k < q.len() ==> (#[trigger] q[k]).len() > 0 && !q[k].contains('/')
                && !q[k].contains('\\'),
        q[0] != ".git"@ && q[0] != ".obsidian"@ && q[0] != ".trash"@,
        entries[i].path == root + q.map_values(|p: Seq<char>| Part::Normal(encode_utf8(p))),
        entries[i].kind == EntryKind::Dir || entries[i].kind == EntryKind::File,
        forall|k: int|
            0 <= k < i ==> ((#[trigger] relative(root, entries[k].path)) matches Some(rel)
                ==> !q.is_prefix_of(names(rel))),
    ensures
        lookup(tree_of(root, entries), q) matches Some(node) && {
            &&& node.name == q.last()
            &&& node.path == join(q, '/')
            &&& entries[i].kind == EntryKind::File ==> node.kind == NodeKind::File
            &&& entries[i].kind == EntryKind::Dir ==> node.kind == NodeKind::Dir
            &&& (forall|k: int|
                0 <= k < entries.len() ==> ((#[trigger] relative(
                    root,
                    entries[k].path,
                )) matches Some(rel) ==> q.is_prefix_of(names(rel)) ==> names(rel) == q)) ==> (
            match entries[i].kind {
                EntryKind::File => node.children is None,
                _ => node.children == Some(Seq::<NodeView>::empty()),
            })
        },
{
    let below = q.map_values(|p: Seq<char>| Part::Normal(encode_utf8(p)));
    assert(below =~= components_of(q));
    lemma_relative_of_names(root, q);
    names_undoes_join(q);
    assert(entries[i].path[root.len() as int] == below[0]);
    vstd::utf8::encode_utf8_decode_utf8(q[0]);
    if let Some(entry) = hidden_entry(encode_utf8(q[0])) {
        three_names_are_hidden(encode_utf8(q[0]), entry);
        vstd::utf8::encode_utf8_decode_utf8(entry);
    }
    assert(hidden_top(root, entries[i].path) is None);
    entries_are_shown_as_what_they_are(root, entries[i].path);
    assert(q.is_prefix_of(q));
    assert(leads_to(root, entries[i], q));
    assert forall|k: int| 0 <= k < i implies !leads_to(root, #[trigger] entries[k], q) by {
        assert(relative(root, entries[k].path) == relative(root, entries[k].path));
    }
    nodes_follow_the_first_entry(root, entries, i, q);
    if forall|k: int|
        0 <= k < entries.len() ==> ((#[trigger] relative(root, entries[k].path)) matches Some(rel)
            ==> q.is_prefix_of(names(rel)) ==> names(rel) == q) {
        let (rel, kind) = shown(root, entries[i])->0;
        lemma_stays_alone(root, entries, i, q, rel, kind);
    }
}

/// A node that an entry makes stays as it is made where no entry lies below it.
proof fn lemma_stays_alone(
    root: Seq<Part>,
    entries: Seq<EntryView>,
    i: int,
    q: Seq<Seq<char>>,
    rel: Seq<char>,
    kind: NodeKind,
)
    requires
        0 <= i < entries.len(),
        q.len() > 0,
        shown(root, entries[i]) == Some((rel, kind)),
        names(rel) == q,
        forall|k: int| 0 <= k < i ==> !leads_to(root, #[trigger] entries[k], q),
        forall|k: int|
            0 <= k < entries.len() ==> ((#[trigger] relative(root, entries[k].path)) matches Some(
                rel,
            ) ==> q.is_prefix_of(names(rel)) ==> names(rel) == q),
    ensures
        lookup(tree_of(root, entries), q) == Some(fresh(q, q.len() - 1, kind)),
    decreases entries.len(),
{
    let init = entries.drop_last();
    let last = entries.len() - 1;
    let before = tree_of(root, init);
    assert(q.take(q.len() as int) =~= q);
    assert(q.is_prefix_of(q));
    if i == last {
        trees_hold_what_is_shown(root, init, q);
        assert forall|k: int| 0 <= k < init.len() implies !leads_to(
            root,
            #[trigger] init[k],
            q,
        ) by {
            assert(init[k] == entries[k]);
        }
        assert(lookup(before, q) is None);
        lookup_after_insertion(before, q, kind, q);
    } else {
        assert(init[i] == entries[i]);
        assert forall|k: int| 0 <= k < i implies !leads_to(root, #[trigger] init[k], q) by {
            assert(init[k] == entries[k]);
        }
        assert forall|k: int| 0 <= k < init.len() implies ((#[trigger] relative(
            root,
            init[k].path,
        )) matches Some(rel) ==> q.is_prefix_of(names(rel)) ==> names(rel) == q) by {
            assert(init[k] == entries[k]);
            assert(relative(root, entries[k].path) == relative(root, init[k].path));
        }
        lemma_stays_alone(root, init, i, q, rel, kind);
        if let Some((other, other_kind)) = shown(root, entries[last]) {
            assert(relative(root, entries[last].path) == Some(other));
            lookup_after_insertion(before, names(other), other_kind, q);
        }
    }
}

}
