//! The order in which the children of a directory stand: directories first,
//! then everything else, each group by name.

use crate::models::{
    lemma_node_views, lemma_node_views_insert, node_views, FileNode, FileNodeType, NodeView,
};
use crate::text::{
    lemma_text_lt_asymmetric, lemma_text_lt_total, lemma_text_lt_transitive, str_lt, text_lt,
};
use vstd::prelude::*;

verus! {

/// Directories rank before files and symbolic links.
pub open spec fn kind_rank(kind: FileNodeType) -> int {
    if kind == FileNodeType::Directory {
        0
    } else {
        1
    }
}

/// Whether `a` must stand before `b`: its kind ranks first, or the kinds
/// rank alike and its name comes first.
pub open spec fn node_before(a: NodeView, b: NodeView) -> bool {
    kind_rank(a.node_type) < kind_rank(b.node_type) || (kind_rank(a.node_type) == kind_rank(
        b.node_type,
    ) && text_lt(a.name, b.name))
}

/// Whether no node stands after one that it must stand before.
pub open spec fn children_sorted(children: Seq<NodeView>) -> bool {
    forall|i: int, j: int|
        0 <= i < j < children.len() ==> !node_before(#[trigger] children[j], #[trigger] children[i])
}

/// How many nodes at the start of `sorted` must stand before `node`.
pub open spec fn insertion_point(sorted: Seq<NodeView>, node: NodeView) -> int
    decreases sorted.len(),
{
    if sorted.len() > 0 && node_before(sorted[0], node) {
        1 + insertion_point(sorted.drop_first(), node)
    } else {
        0
    }
}

/// `sorted` with `node` put in after the nodes that must stand before it.
pub open spec fn insert_sorted(sorted: Seq<NodeView>, node: NodeView) -> Seq<NodeView> {
    sorted.insert(insertion_point(sorted, node), node)
}

/// The nodes in order. Nodes that rank alike and share a name keep the order
/// they came in.
pub open spec fn sort_nodes(nodes: Seq<NodeView>) -> Seq<NodeView>
    decreases nodes.len(),
{
    if nodes.len() == 0 {
        Seq::empty()
    } else {
        insert_sorted(sort_nodes(nodes.drop_first()), nodes[0])
    }
}

/// `node_before` never holds both ways.
pub proof fn lemma_node_before_asymmetric(a: NodeView, b: NodeView)
    ensures
        !(node_before(a, b) && node_before(b, a)),
{
    lemma_text_lt_asymmetric(a.name, b.name);
}

/// If `a` must stand before `b`, then any `c` has `a` before it or stands
/// before `b`.
pub proof fn lemma_node_before_splits(a: NodeView, b: NodeView, c: NodeView)
    requires
        node_before(a, b),
    ensures
        node_before(a, c) || node_before(c, b),
{
    if kind_rank(a.node_type) == kind_rank(b.node_type) && kind_rank(a.node_type) == kind_rank(
        c.node_type,
    ) {
        lemma_text_lt_total(a.name, c.name);
        if text_lt(c.name, a.name) {
            lemma_text_lt_transitive(c.name, a.name, b.name);
        }
    }
}

/// Where `insertion_point` lies, and what stands on either side of it.
pub proof fn lemma_insertion_point(sorted: Seq<NodeView>, node: NodeView)
    ensures
        0 <= insertion_point(sorted, node) <= sorted.len(),
        forall|i: int|
            0 <= i < insertion_point(sorted, node) ==> node_before(#[trigger] sorted[i], node),
        insertion_point(sorted, node) < sorted.len() ==> !node_before(
            sorted[insertion_point(sorted, node)],
            node,
        ),
    decreases sorted.len(),
{
    if sorted.len() > 0 && node_before(sorted[0], node) {
        let rest = sorted.drop_first();
        lemma_insertion_point(rest, node);
        assert forall|i: int| 0 <= i < insertion_point(sorted, node) implies node_before(
            #[trigger] sorted[i],
            node,
        ) by {
            if i > 0 {
                assert(sorted[i] == rest[i - 1]);
            }
        }
        if insertion_point(sorted, node) < sorted.len() {
            assert(sorted[insertion_point(sorted, node)] == rest[insertion_point(rest, node)]);
        }
    }
}

/// Putting a node into a sorted list leaves it sorted.
pub proof fn lemma_insert_sorted_is_sorted(sorted: Seq<NodeView>, node: NodeView)
    requires
        children_sorted(sorted),
    ensures
        children_sorted(insert_sorted(sorted, node)),
{
    let at = insertion_point(sorted, node);
    let result = insert_sorted(sorted, node);
    lemma_insertion_point(sorted, node);
    assert forall|i: int, j: int| 0 <= i < j < result.len() implies !node_before(
        #[trigger] result[j],
        #[trigger] result[i],
    ) by {
        if j == at {
            // result[j] is the new node, result[i] stood before it already.
            assert(result[i] == sorted[i]);
            lemma_node_before_asymmetric(sorted[i], node);
        } else if i == at {
            // result[i] is the new node, result[j] stood at or after the point.
            assert(result[j] == sorted[j - 1]);
            if node_before(sorted[j - 1], node) {
                lemma_node_before_splits(sorted[j - 1], node, sorted[at]);
            }
        } else {
            let oi = if i < at {
                i
            } else {
                i - 1
            };
            let oj = if j < at {
                j
            } else {
                j - 1
            };
            assert(result[i] == sorted[oi]);
            assert(result[j] == sorted[oj]);
        }
    }
}

/// The result of `sort_nodes` is sorted, as long as the list, and made of
/// the same nodes.
#[verifier::rlimit(50)]
pub proof fn lemma_sort_nodes(nodes: Seq<NodeView>)
    ensures
        children_sorted(sort_nodes(nodes)),
        sort_nodes(nodes).len() == nodes.len(),
        sort_nodes(nodes).to_multiset() == nodes.to_multiset(),
        forall|node: NodeView| sort_nodes(nodes).contains(node) <==> nodes.contains(node),
    decreases nodes.len(),
{
    broadcast use vstd::seq_lib::group_to_multiset_ensures;

    if nodes.len() == 0 {
        assert(sort_nodes(nodes) =~= nodes);
    } else {
        let rest = nodes.drop_first();
        let sorted_rest = sort_nodes(rest);
        lemma_sort_nodes(rest);
        lemma_insert_sorted_is_sorted(sorted_rest, nodes[0]);
        lemma_insertion_point(sorted_rest, nodes[0]);
        let at = insertion_point(sorted_rest, nodes[0]);
        let result = sorted_rest.insert(at, nodes[0]);
        assert(nodes =~= rest.insert(0, nodes[0]));
        assert(result.to_multiset() =~= nodes.to_multiset()) by {
            sorted_rest.to_multiset_ensures();
            rest.to_multiset_ensures();
            vstd::seq_lib::to_multiset_insert(sorted_rest, at, nodes[0]);
            vstd::seq_lib::to_multiset_insert(rest, 0, nodes[0]);
        }
        assert forall|node: NodeView| result.contains(node) <==> nodes.contains(node) by {
            if result.contains(node) {
                let k = choose|k: int| 0 <= k < result.len() && result[k] == node;
                if k != at {
                    let ok = if k < at {
                        k
                    } else {
                        k - 1
                    };
                    assert(sorted_rest[ok] == node);
                    assert(sorted_rest.contains(node));
                    assert(rest.contains(node));
                    let r = choose|r: int| 0 <= r < rest.len() && rest[r] == node;
                    assert(nodes[r + 1] == node);
                } else {
                    assert(nodes[0] == node);
                }
            }
            if nodes.contains(node) {
                let k = choose|k: int| 0 <= k < nodes.len() && nodes[k] == node;
                if k == 0 {
                    assert(result[at] == node);
                } else {
                    assert(rest[k - 1] == node);
                    assert(rest.contains(node));
                    assert(sorted_rest.contains(node));
                    let r = choose|r: int| 0 <= r < sorted_rest.len() && sorted_rest[r] == node;
                    if r < at {
                        assert(result[r] == node);
                    } else {
                        assert(result[r + 1] == node);
                    }
                }
            }
        }
    }
}

/// Whether `a` must stand before `b`.
pub fn node_precedes(a: &FileNode, b: &FileNode) -> (r: bool)
    ensures
        r == node_before(a@, b@),
{
    let a_is_dir = a.node_type == FileNodeType::Directory;
    let b_is_dir = b.node_type == FileNodeType::Directory;
    if a_is_dir != b_is_dir {
        a_is_dir
    } else {
        str_lt(a.name.as_str(), b.name.as_str())
    }
}

/// Sorts the children of a directory: directories first, then the rest,
/// each group by name.
#[verifier::rlimit(50)]
pub fn sort_children(children: Vec<FileNode>) -> (sorted: Vec<FileNode>)
    ensures
        node_views(sorted@) == sort_nodes(node_views(children@)),
{
    let ghost all = node_views(children@);
    let mut rest = children;
    let mut sorted: Vec<FileNode> = Vec::new();
    proof {
        lemma_node_views(rest@);
        assert(all.skip(all.len() as int) =~= Seq::<NodeView>::empty());
    }
    while rest.len() > 0
        invariant
            node_views(rest@) == all.take(rest.len() as int),
            node_views(sorted@) == sort_nodes(all.skip(rest.len() as int)),
            rest.len() <= all.len(),
        decreases rest.len(),
    {
        let ghost before = rest@;
        let node = rest.pop().unwrap();
        proof {
            lemma_node_views(before);
            lemma_node_views(rest@);
            assert(node_views(before)[before.len() - 1] == before[before.len() - 1]@);
            assert(node@ == all[rest.len() as int]);
            assert(node_views(rest@) =~= all.take(rest.len() as int));
            assert(all.skip(rest.len() as int).drop_first() =~= all.skip(rest.len() as int + 1));
            lemma_node_views(sorted@);
        }
        let mut at: usize = 0;
        assert(node_views(sorted@).skip(0) =~= node_views(sorted@));
        while at < sorted.len() && node_precedes(&sorted[at], &node)
            invariant
                at <= sorted.len(),
                forall|i: int| 0 <= i < sorted.len() ==> #[trigger] node_views(sorted@)[i] == sorted@[i]@,
                node_views(sorted@).len() == sorted.len(),
                insertion_point(node_views(sorted@), node@) == at + insertion_point(
                    node_views(sorted@).skip(at as int),
                    node@,
                ),
            decreases sorted.len() - at,
        {
            assert(node_views(sorted@).skip(at as int).drop_first() =~= node_views(sorted@).skip(
                at as int + 1,
            ));
            at = at + 1;
        }
        proof {
            lemma_node_views_insert(sorted@, at as int, node);
        }
        sorted.insert(at, node);
    }
    sorted
}

} // verus!
