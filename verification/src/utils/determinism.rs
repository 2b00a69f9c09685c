//! The tree does not depend on the order in which the adjacency lists its
//! directories.
//!
//! The builder walks the records of the adjacency in the order they stand
//! in, and sorts what it gathered. This file proves that the sort takes the
//! order of the records out again: two adjacencies that hold the same
//! records give the same tree.

use crate::models::NodeView;
use crate::utils::order::{
    children_sorted, lemma_sort_nodes, node_before, sort_nodes,
};
use crate::utils::scan::{
    distinct_directories, lemma_record_index, lemma_record_index_is, record_index, RecordView,
};
use crate::utils::tree::{
    files_in, is_child_directory, lemma_longest, longest, subdirectories, tree_of,
};
use vstd::prelude::*;

verus! {

/// Whether any two different nodes of the list are ordered one way or the
/// other: no two of them rank alike and share a name.
pub open spec fn comparable(nodes: Seq<NodeView>) -> bool {
    forall|i: int, j: int|
        0 <= i < nodes.len() && 0 <= j < nodes.len() && nodes[i] != nodes[j] ==> node_before(
            #[trigger] nodes[i],
            #[trigger] nodes[j],
        ) || node_before(nodes[j], nodes[i])
}

/// The children of the directory `path` as the builder gathers them, before
/// they are sorted.
pub open spec fn gathered(
    path: Seq<Seq<char>>,
    records: Seq<RecordView>,
    nodes: Seq<Option<NodeView>>,
    root_path: Seq<char>,
) -> Seq<NodeView> {
    files_in(path, records, nodes) + subdirectories(path, records, nodes, root_path, records.len())
}

/// The subtree that a record gives to the directory `current`, if the
/// record is of a directory directly below it.
pub open spec fn subtree_below(
    current: Seq<Seq<char>>,
    records: Seq<RecordView>,
    nodes: Seq<Option<NodeView>>,
    root_path: Seq<char>,
) -> spec_fn(RecordView) -> Option<NodeView> {
    |r: RecordView|
        if is_child_directory(current, r.components) {
            Some(tree_of(r.components, records, nodes, root_path))
        } else {
            None
        }
}

/// What `f` gives for the elements of `s`, in order, where it gives
/// anything.
pub open spec fn collected(s: Seq<RecordView>, f: spec_fn(RecordView) -> Option<NodeView>) -> Seq<
    NodeView,
>
    decreases s.len(),
{
    if s.len() == 0 {
        Seq::empty()
    } else {
        match f(s.last()) {
            Some(node) => collected(s.drop_last(), f).push(node),
            None => collected(s.drop_last(), f),
        }
    }
}

/// `subdirectories` collects the subtrees below the current directory.
proof fn lemma_subdirectories_are_collected(
    current: Seq<Seq<char>>,
    records: Seq<RecordView>,
    nodes: Seq<Option<NodeView>>,
    root_path: Seq<char>,
    count: nat,
)
    requires
        count <= records.len(),
    ensures
        subdirectories(current, records, nodes, root_path, count) == collected(
            records.take(count as int),
            subtree_below(current, records, nodes, root_path),
        ),
    decreases count,
{
    if count > 0 {
        lemma_subdirectories_are_collected(current, records, nodes, root_path, (count - 1) as nat);
        assert(records.take(count as int).drop_last() =~= records.take(count - 1));
        assert(records.take(count as int).last() == records[count - 1]);
    }
}

/// Two functions that agree on the elements of a list collect the same.
proof fn lemma_collected_agrees(
    s: Seq<RecordView>,
    f: spec_fn(RecordView) -> Option<NodeView>,
    g: spec_fn(RecordView) -> Option<NodeView>,
)
    requires
        forall|i: int| 0 <= i < s.len() ==> f(#[trigger] s[i]) == g(s[i]),
    ensures
        collected(s, f) == collected(s, g),
    decreases s.len(),
{
    if s.len() > 0 {
        let rest = s.drop_last();
        assert forall|i: int| 0 <= i < rest.len() implies f(#[trigger] rest[i]) == g(rest[i]) by {
            assert(rest[i] == s[i]);
        }
        lemma_collected_agrees(rest, f, g);
        assert(f(s[s.len() - 1]) == g(s[s.len() - 1]));
    }
}

/// Taking one element out of a list takes what it gave out of what is
/// collected, and nothing else.
#[verifier::rlimit(50)]
proof fn lemma_collected_without(
    s: Seq<RecordView>,
    f: spec_fn(RecordView) -> Option<NodeView>,
    at: int,
)
    requires
        0 <= at < s.len(),
    ensures
        collected(s, f).to_multiset() == match f(s[at]) {
            Some(node) => collected(s.remove(at), f).to_multiset().insert(node),
            None => collected(s.remove(at), f).to_multiset(),
        },
    decreases s.len(),
{
    broadcast use vstd::seq_lib::group_to_multiset_ensures;
    broadcast use vstd::multiset::group_multiset_axioms;

    if at == s.len() - 1 {
        assert(s.remove(at) =~= s.drop_last());
    } else {
        let rest = s.drop_last();
        lemma_collected_without(rest, f, at);
        assert(s.remove(at).drop_last() =~= rest.remove(at));
        assert(s.remove(at).last() == s.last());
        assert(rest[at] == s[at]);
        let inner = collected(rest.remove(at), f);
        match f(s.last()) {
            Some(last) => {
                match f(s[at]) {
                    Some(node) => {
                        assert(collected(s, f).to_multiset() =~= inner.to_multiset().insert(
                            node,
                        ).insert(last));
                        assert(collected(s.remove(at), f).to_multiset().insert(node)
                            =~= inner.to_multiset().insert(last).insert(node));
                    },
                    None => {},
                }
            },
            None => {},
        }
    }
}

/// Two lists with the same elements collect the same nodes, each as often.
#[verifier::rlimit(50)]
proof fn lemma_collected_of_permutation(
    a: Seq<RecordView>,
    b: Seq<RecordView>,
    f: spec_fn(RecordView) -> Option<NodeView>,
)
    requires
        a.to_multiset() == b.to_multiset(),
    ensures
        collected(a, f).to_multiset() == collected(b, f).to_multiset(),
    decreases a.len(),
{
    broadcast use vstd::seq_lib::group_to_multiset_ensures;
    broadcast use vstd::multiset::group_multiset_axioms;

    vstd::seq_lib::to_multiset_len(a);
    vstd::seq_lib::to_multiset_len(b);
    if a.len() == 0 {
        assert(b.len() == 0);
    } else {
        let x = a.last();
        let rest = a.drop_last();
        assert(a.contains(x)) by {
            assert(a[a.len() - 1] == x);
        }
        vstd::seq_lib::to_multiset_contains(a, x);
        vstd::seq_lib::to_multiset_contains(b, x);
        let at = choose|at: int| 0 <= at < b.len() && b[at] == x;
        assert(rest =~= a.remove(a.len() - 1));
        vstd::seq_lib::to_multiset_remove(a, a.len() - 1);
        vstd::seq_lib::to_multiset_remove(b, at);
        lemma_collected_of_permutation(rest, b.remove(at), f);
        lemma_collected_without(b, f, at);
    }
}

/// Two sorted lists with the same nodes, each as often, are the same list,
/// if any two different nodes among them are ordered.
#[verifier::rlimit(50)]
proof fn lemma_sorted_lists_agree(x: Seq<NodeView>, y: Seq<NodeView>)
    requires
        children_sorted(x),
        children_sorted(y),
        x.to_multiset() == y.to_multiset(),
        comparable(x),
    ensures
        x == y,
    decreases x.len(),
{
    broadcast use vstd::seq_lib::group_to_multiset_ensures;
    broadcast use vstd::multiset::group_multiset_axioms;

    vstd::seq_lib::to_multiset_len(x);
    vstd::seq_lib::to_multiset_len(y);
    if x.len() == 0 {
        assert(x =~= y);
    } else {
        // The first nodes are the same: each stands somewhere in the other
        // list, so neither must stand before the other.
        assert(y.contains(y[0]));
        vstd::seq_lib::to_multiset_contains(y, y[0]);
        vstd::seq_lib::to_multiset_contains(x, y[0]);
        let k = choose|k: int| 0 <= k < x.len() && x[k] == y[0];
        assert(x.contains(x[0]));
        vstd::seq_lib::to_multiset_contains(x, x[0]);
        vstd::seq_lib::to_multiset_contains(y, x[0]);
        let m = choose|m: int| 0 <= m < y.len() && y[m] == x[0];
        if k > 0 {
            assert(!node_before(x[k], x[0]));
        }
        if m > 0 {
            assert(!node_before(y[m], y[0]));
        }
        if x[0] != y[0] {
            assert(node_before(x[0], x[k]) || node_before(x[k], x[0]));
        }
        assert(x[0] == y[0]);
        let xs = x.drop_first();
        let ys = y.drop_first();
        assert(xs =~= x.remove(0));
        assert(ys =~= y.remove(0));
        vstd::seq_lib::to_multiset_remove(x, 0);
        vstd::seq_lib::to_multiset_remove(y, 0);
        assert forall|i: int, j: int| 0 <= i < j < xs.len() implies !node_before(
            #[trigger] xs[j],
            #[trigger] xs[i],
        ) by {
            assert(xs[i] == x[i + 1] && xs[j] == x[j + 1]);
        }
        assert forall|i: int, j: int| 0 <= i < j < ys.len() implies !node_before(
            #[trigger] ys[j],
            #[trigger] ys[i],
        ) by {
            assert(ys[i] == y[i + 1] && ys[j] == y[j + 1]);
        }
        assert forall|i: int, j: int|
            0 <= i < xs.len() && 0 <= j < xs.len() && xs[i] != xs[j] implies node_before(
            #[trigger] xs[i],
            #[trigger] xs[j],
        ) || node_before(xs[j], xs[i]) by {
            assert(xs[i] == x[i + 1] && xs[j] == x[j + 1]);
        }
        lemma_sorted_lists_agree(xs, ys);
        assert(x =~= seq![x[0]] + xs);
        assert(y =~= seq![y[0]] + ys);
    }
}

/// Sorting takes the order of a list out: two lists with the same nodes,
/// each as often, sort to the same list, if any two different nodes among
/// them are ordered.
pub proof fn lemma_sort_ignores_order(s: Seq<NodeView>, t: Seq<NodeView>)
    requires
        s.to_multiset() == t.to_multiset(),
        comparable(s),
    ensures
        sort_nodes(s) == sort_nodes(t),
{
    broadcast use vstd::seq_lib::group_to_multiset_ensures;

    lemma_sort_nodes(s);
    lemma_sort_nodes(t);
    let x = sort_nodes(s);
    assert forall|i: int, j: int|
        0 <= i < x.len() && 0 <= j < x.len() && x[i] != x[j] implies node_before(
        #[trigger] x[i],
        #[trigger] x[j],
    ) || node_before(x[j], x[i]) by {
        assert(x.contains(x[i]));
        assert(x.contains(x[j]));
        assert(s.contains(x[i]));
        assert(s.contains(x[j]));
        let p = choose|p: int| 0 <= p < s.len() && s[p] == x[i];
        let q = choose|q: int| 0 <= q < s.len() && s[q] == x[j];
        assert(node_before(s[p], s[q]) || node_before(s[q], s[p]));
    }
    lemma_sorted_lists_agree(x, sort_nodes(t));
}

/// A directory has a record in one list exactly if it has one in the other,
/// and then it is the same record, if the lists hold the same records and
/// no directory has two.
proof fn lemma_same_record(a: Seq<RecordView>, b: Seq<RecordView>, path: Seq<Seq<char>>)
    requires
        a.to_multiset() == b.to_multiset(),
        distinct_directories(a),
    ensures
        record_index(a, path) < a.len() <==> record_index(b, path) < b.len(),
        record_index(a, path) < a.len() ==> a[record_index(a, path)] == b[record_index(b, path)],
{
    broadcast use vstd::seq_lib::group_to_multiset_ensures;

    lemma_record_index(a, path);
    lemma_record_index(b, path);
    let i = record_index(a, path);
    let j = record_index(b, path);
    if i < a.len() {
        assert(a.contains(a[i]));
        vstd::seq_lib::to_multiset_contains(a, a[i]);
        vstd::seq_lib::to_multiset_contains(b, a[i]);
        let at = choose|at: int| 0 <= at < b.len() && b[at] == a[i];
        assert(b[at].components == path);
        assert(j < b.len());
    }
    if j < b.len() {
        assert(b.contains(b[j]));
        vstd::seq_lib::to_multiset_contains(b, b[j]);
        vstd::seq_lib::to_multiset_contains(a, b[j]);
        let at = choose|at: int| 0 <= at < a.len() && a[at] == b[j];
        assert(a[at].components == path);
        assert(i < a.len());
        // No directory has two records in `a`, so this is the record at `i`.
        if at != i {
            if at < i {
                assert(a[at].components != a[i].components);
            } else {
                assert(a[i].components != a[at].components);
            }
        }
    }
}

/// The tree does not depend on the order of the records. Let two
/// adjacencies hold the same records, one record for each directory, and
/// let no two different children of a directory rank alike and share a
/// name. Then both give the same subtree for every directory.
#[verifier::rlimit(50)]
pub proof fn lemma_tree_ignores_record_order(
    current: Seq<Seq<char>>,
    a: Seq<RecordView>,
    b: Seq<RecordView>,
    nodes: Seq<Option<NodeView>>,
    root_path: Seq<char>,
)
    requires
        a.to_multiset() == b.to_multiset(),
        distinct_directories(a),
        forall|path: Seq<Seq<char>>| comparable(#[trigger] gathered(path, a, nodes, root_path)),
    ensures
        tree_of(current, a, nodes, root_path) == tree_of(current, b, nodes, root_path),
    decreases longest(a) - current.len(),
{
    broadcast use vstd::seq_lib::group_to_multiset_ensures;

    let f_a = subtree_below(current, a, nodes, root_path);
    let f_b = subtree_below(current, b, nodes, root_path);
    // The files of the directory are the same.
    lemma_same_record(a, b, current);
    assert(files_in(current, a, nodes) == files_in(current, b, nodes));
    // The subtrees below it are the same, one by one.
    assert forall|i: int| 0 <= i < b.len() implies f_a(#[trigger] b[i]) == f_b(b[i]) by {
        if is_child_directory(current, b[i].components) {
            assert(b.contains(b[i]));
            vstd::seq_lib::to_multiset_contains(b, b[i]);
            vstd::seq_lib::to_multiset_contains(a, b[i]);
            let at = choose|at: int| 0 <= at < a.len() && a[at] == b[i];
            lemma_longest(a, at);
            lemma_tree_ignores_record_order(b[i].components, a, b, nodes, root_path);
        }
    }
    lemma_collected_agrees(b, f_a, f_b);
    lemma_collected_of_permutation(a, b, f_a);
    lemma_subdirectories_are_collected(current, a, nodes, root_path, a.len());
    lemma_subdirectories_are_collected(current, b, nodes, root_path, b.len());
    assert(a.take(a.len() as int) =~= a);
    assert(b.take(b.len() as int) =~= b);
    let below_a = subdirectories(current, a, nodes, root_path, a.len());
    let below_b = subdirectories(current, b, nodes, root_path, b.len());
    assert(below_a.to_multiset() == below_b.to_multiset());
    // So the same children are gathered, if in another order, and sorting
    // puts them in the same order.
    let files = files_in(current, a, nodes);
    vstd::seq_lib::lemma_multiset_commutative(files, below_a);
    vstd::seq_lib::lemma_multiset_commutative(files, below_b);
    assert(gathered(current, a, nodes, root_path) == files + below_a);
    lemma_sort_ignores_order(files + below_a, files + below_b);
}

} // verus!
