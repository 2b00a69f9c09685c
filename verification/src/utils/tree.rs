//! The tree builder: from the nodes of the candidates and the adjacency of
//! their directories to one rooted, sorted hierarchy.

use crate::models::{
    lemma_node_views, lemma_node_views_push, node_views, FileNode, FileNodeType, NodeView,
};
use crate::text::texts;
use crate::utils::files::{rendered, FileService};
use crate::utils::order::{children_sorted, lemma_sort_nodes, sort_children, sort_nodes};
use crate::utils::patterns::{file_name, file_name_of};
use crate::utils::scan::{
    depth_field, depth_of, full_path, lemma_record_index, node_path, prefix_equals, record_index,
    record_views, relative_text, DirectoryRecord, RecordView,
};
use crate::text::join;
use vstd::prelude::*;
use vstd::string::*;

verus! {

/// The value of a node that may be missing.
pub open spec fn optional_view(node: Option<FileNode>) -> Option<NodeView> {
    match node {
        Some(node) => Some(node@),
        None => None,
    }
}

/// The values of a list of nodes of which some may be missing.
pub open spec fn optional_views(nodes: Seq<Option<FileNode>>) -> Seq<Option<NodeView>> {
    nodes.map_values(|n: Option<FileNode>| optional_view(n))
}

/// The nodes of the first `count` of `files`: each index is looked up among
/// `nodes`, and one without a node there is passed over.
pub open spec fn file_children(files: Seq<usize>, nodes: Seq<Option<NodeView>>, count: nat) -> Seq<
    NodeView,
>
    decreases count,
{
    if count == 0 || count > files.len() {
        Seq::empty()
    } else {
        let before = file_children(files, nodes, (count - 1) as nat);
        let index = files[count - 1] as int;
        if index < nodes.len() && nodes[index] is Some {
            before.push(nodes[index]->0)
        } else {
            before
        }
    }
}

/// The nodes that lie directly in the directory `current`, as its record
/// lists them.
pub open spec fn files_in(
    current: Seq<Seq<char>>,
    records: Seq<RecordView>,
    nodes: Seq<Option<NodeView>>,
) -> Seq<NodeView> {
    let at = record_index(records, current);
    if at < records.len() {
        file_children(records[at].files, nodes, records[at].files.len())
    } else {
        Seq::empty()
    }
}

/// Whether `path` is a directory directly below `parent`.
pub open spec fn is_child_directory(parent: Seq<Seq<char>>, path: Seq<Seq<char>>) -> bool {
    path.len() == parent.len() + 1 && path.drop_last() == parent
}

/// The length of the longest path among the records.
pub open spec fn longest(records: Seq<RecordView>) -> nat
    decreases records.len(),
{
    if records.len() == 0 {
        0
    } else if records.last().components.len() > longest(records.drop_last()) {
        records.last().components.len()
    } else {
        longest(records.drop_last())
    }
}

/// No record has a longer path than `longest` says.
pub proof fn lemma_longest(records: Seq<RecordView>, at: int)
    requires
        0 <= at < records.len(),
    ensures
        records[at].components.len() <= longest(records),
    decreases records.len(),
{
    if at < records.len() - 1 {
        lemma_longest(records.drop_last(), at);
    }
}

/// The name of a directory: the last name of its path below the root; for
/// the root itself the file name of the root's path, or that whole path if
/// it has no file name.
pub open spec fn directory_name(current: Seq<Seq<char>>, root_path: Seq<char>) -> Seq<char> {
    if current.len() > 0 {
        current.last()
    } else {
        match file_name_of(root_path) {
            Some(name) => name,
            None => root_path,
        }
    }
}

/// The subtree of the directory `current`: a directory node whose children
/// are the nodes that lie directly in it and the subtrees of the
/// directories directly below it, sorted.
pub open spec fn tree_of(
    current: Seq<Seq<char>>,
    records: Seq<RecordView>,
    nodes: Seq<Option<NodeView>>,
    root_path: Seq<char>,
) -> NodeView
    decreases longest(records) - current.len(), records.len() + 1,
{
    NodeView {
        name: directory_name(current, root_path),
        path: node_path(root_path, current),
        relative_path: relative_text(current),
        node_type: FileNodeType::Directory,
        size: 0,
        has_content: false,
        children: sort_nodes(
            files_in(current, records, nodes) + subdirectories(
                current,
                records,
                nodes,
                root_path,
                records.len(),
            ),
        ),
        depth: depth_of(current.len()),
    }
}

/// The subtrees of the directories directly below `current`, among the
/// first `count` records.
pub open spec fn subdirectories(
    current: Seq<Seq<char>>,
    records: Seq<RecordView>,
    nodes: Seq<Option<NodeView>>,
    root_path: Seq<char>,
    count: nat,
) -> Seq<NodeView>
    decreases longest(records) - current.len(), count,
{
    if count == 0 || count > records.len() {
        Seq::empty()
    } else {
        let before = subdirectories(current, records, nodes, root_path, (count - 1) as nat);
        let path = records[count - 1].components;
        if is_child_directory(current, path) {
            proof {
                lemma_longest(records, count - 1);
            }
            before.push(tree_of(path, records, nodes, root_path))
        } else {
            before
        }
    }
}

impl FileService {
    /// Builds the subtree of the directory `current_path`. Its children are
    /// the nodes of the files that lie directly in it, looked up in
    /// `file_nodes`, and the subtrees of the directories of `file_map` that
    /// lie directly below it; they stand directories first, then by name.
    #[verifier::rlimit(50)]
    pub fn build_lazy_directory_tree(
        current_path: &Vec<String>,
        file_nodes: &Vec<Option<FileNode>>,
        file_map: &Vec<DirectoryRecord>,
        root_path: &str,
    ) -> (tree: FileNode)
        ensures
            tree@ == tree_of(
                texts(current_path@),
                record_views(file_map@),
                optional_views(file_nodes@),
                root_path@,
            ),
        decreases longest(record_views(file_map@)) - texts(current_path@).len(),
    {
        let ghost current = texts(current_path@);
        let ghost records = record_views(file_map@);
        let ghost nodes = optional_views(file_nodes@);
        let levels = current_path.len();
        assert(texts(current_path@).take(levels as int) =~= current);
        let mut children: Vec<FileNode> = Vec::new();
        // The files that lie directly in this directory.
        let at = Self::find_record(file_map, current_path, levels);
        if at < file_map.len() {
            let files = &file_map[at].files;
            assert(records[at as int].files == files@);
            let mut j: usize = 0;
            while j < files.len()
                invariant
                    j <= files.len(),
                    nodes == optional_views(file_nodes@),
                    node_views(children@) == file_children(files@, nodes, j as nat),
                decreases files.len() - j,
            {
                let index = files[j];
                if index < file_nodes.len() {
                    assert(nodes[index as int] == optional_view(file_nodes@[index as int]));
                    match &file_nodes[index] {
                        Some(node) => {
                            let copy = node.clone();
                            proof {
                                lemma_node_views_push(children@, copy);
                            }
                            children.push(copy);
                        },
                        None => {},
                    }
                }
                j = j + 1;
            }
        }
        assert(node_views(children@) == files_in(current, records, nodes));
        // The directories directly below this one.
        let mut r: usize = 0;
        while r < file_map.len()
            invariant
                r <= file_map.len(),
                levels == current_path.len(),
                current == texts(current_path@),
                records == record_views(file_map@),
                nodes == optional_views(file_nodes@),
                node_views(children@) == files_in(current, records, nodes) + subdirectories(
                    current,
                    records,
                    nodes,
                    root_path@,
                    r as nat,
                ),
            decreases file_map.len() - r,
        {
            let path = &file_map[r].components;
            assert(records[r as int].components == texts(path@));
            if path.len() > 0 && path.len() - 1 == levels && prefix_equals(
                current_path,
                path,
                levels,
            ) {
                assert(texts(path@).take(levels as int) =~= texts(path@).drop_last());
                proof {
                    lemma_longest(records, r as int);
                }
                let subtree = Self::build_lazy_directory_tree(
                    path,
                    file_nodes,
                    file_map,
                    root_path,
                );
                proof {
                    lemma_node_views_push(children@, subtree);
                }
                children.push(subtree);
            } else {
                assert(!is_child_directory(current, texts(path@))) by {
                    if path.len() > 0 && path.len() - 1 == levels {
                        assert(texts(path@).take(levels as int) =~= texts(path@).drop_last());
                    }
                }
            }
            r = r + 1;
            assert(node_views(children@) =~= files_in(current, records, nodes) + subdirectories(
                current,
                records,
                nodes,
                root_path@,
                r as nat,
            ));
        }
        let children = sort_children(children);
        let name = if levels > 0 {
            current_path[levels - 1].clone()
        } else {
            match file_name(root_path) {
                Some(name) => name,
                None => String::from_str(root_path),
            }
        };
        let tree = FileNode {
            name,
            path: full_path(root_path, current_path, levels),
            relative_path: join(current_path, levels, "/"),
            node_type: FileNodeType::Directory,
            size: 0,
            has_content: false,
            children,
            depth: depth_field(levels),
        };
        proof {
            tree.lemma_view();
        }
        tree
    }

    /// Builds the whole tree, from the root down.
    pub fn build_directory_tree(
        root_path: &str,
        file_nodes: &Vec<Option<FileNode>>,
        file_map: &Vec<DirectoryRecord>,
    ) -> (tree: FileNode)
        ensures
            tree@ == tree_of(
                Seq::empty(),
                record_views(file_map@),
                optional_views(file_nodes@),
                root_path@,
            ),
    {
        let root: Vec<String> = Vec::new();
        assert(texts(root@) =~= Seq::<Seq<char>>::empty());
        Self::build_lazy_directory_tree(&root, file_nodes, file_map, root_path)
    }
}

/// Whether `p` holds of a node and of every node below it.
pub open spec fn all_nodes(node: NodeView, p: spec_fn(NodeView) -> bool) -> bool
    decreases node,
{
    &&& p(node)
    &&& forall|i: int|
        0 <= i < node.children.len() ==> all_nodes(#[trigger] node.children[i], p)
}

/// Which nodes `file_children` holds: those that `nodes` has at one of the
/// first `count` indices of `files`.
#[verifier::rlimit(50)]
pub proof fn lemma_file_children(files: Seq<usize>, nodes: Seq<Option<NodeView>>, count: nat)
    requires
        count <= files.len(),
    ensures
        forall|node: NodeView|
            #![trigger file_children(files, nodes, count).contains(node)]
            file_children(files, nodes, count).contains(node) <==> exists|j: int|
                0 <= j < count && (#[trigger] files[j]) < nodes.len() && nodes[files[j] as int]
                    == Some(node),
    decreases count,
{
    if count > 0 {
        let before = file_children(files, nodes, (count - 1) as nat);
        let after = file_children(files, nodes, count);
        let index = files[count - 1] as int;
        lemma_file_children(files, nodes, (count - 1) as nat);
        assert forall|node: NodeView| after.contains(node) <==> exists|j: int|
            0 <= j < count && (#[trigger] files[j]) < nodes.len() && nodes[files[j] as int]
                == Some(node) by {
            if after.contains(node) {
                let at = choose|at: int| 0 <= at < after.len() && after[at] == node;
                if at < before.len() {
                    assert(before[at] == node);
                    assert(before.contains(node));
                } else {
                    assert(files[count - 1] < nodes.len() && nodes[index] == Some(node));
                }
            }
            if exists|j: int|
                0 <= j < count && (#[trigger] files[j]) < nodes.len() && nodes[files[j] as int]
                    == Some(node) {
                let j = choose|j: int|
                    0 <= j < count && (#[trigger] files[j]) < nodes.len() && nodes[files[j] as int]
                        == Some(node);
                if j < count - 1 {
                    assert(before.contains(node));
                    let at = choose|at: int| 0 <= at < before.len() && before[at] == node;
                    assert(after[at] == node);
                } else {
                    assert(after[after.len() - 1] == node);
                }
            }
        }
    }
}

/// Which nodes `subdirectories` holds: the subtrees of those of the first
/// `count` records that are of a directory directly below `current`.
#[verifier::rlimit(50)]
pub proof fn lemma_subdirectories(
    current: Seq<Seq<char>>,
    records: Seq<RecordView>,
    nodes: Seq<Option<NodeView>>,
    root_path: Seq<char>,
    count: nat,
)
    requires
        count <= records.len(),
    ensures
        forall|node: NodeView|
            #![trigger subdirectories(current, records, nodes, root_path, count).contains(node)]
            subdirectories(current, records, nodes, root_path, count).contains(node)
                <==> exists|r: int|
                0 <= r < count && is_child_directory(current, (#[trigger] records[r]).components)
                    && node == tree_of(records[r].components, records, nodes, root_path),
    decreases count,
{
    if count > 0 {
        let before = subdirectories(current, records, nodes, root_path, (count - 1) as nat);
        let after = subdirectories(current, records, nodes, root_path, count);
        let path = records[count - 1].components;
        lemma_subdirectories(current, records, nodes, root_path, (count - 1) as nat);
        assert forall|node: NodeView| after.contains(node) <==> exists|r: int|
            0 <= r < count && is_child_directory(current, (#[trigger] records[r]).components)
                && node == tree_of(records[r].components, records, nodes, root_path) by {
            if after.contains(node) {
                let at = choose|at: int| 0 <= at < after.len() && after[at] == node;
                if at < before.len() {
                    assert(before[at] == node);
                    assert(before.contains(node));
                } else {
                    assert(is_child_directory(current, records[count - 1].components));
                }
            }
            if exists|r: int|
                0 <= r < count && is_child_directory(current, (#[trigger] records[r]).components)
                    && node == tree_of(records[r].components, records, nodes, root_path) {
                let r = choose|r: int|
                    0 <= r < count && is_child_directory(
                        current,
                        (#[trigger] records[r]).components,
                    ) && node == tree_of(records[r].components, records, nodes, root_path);
                if r < count - 1 {
                    assert(before.contains(node));
                    let at = choose|at: int| 0 <= at < before.len() && before[at] == node;
                    assert(after[at] == node);
                } else {
                    assert(after[after.len() - 1] == node);
                }
            }
        }
    }
}

/// The children of a directory of the tree: the nodes of its record's files
/// and the subtrees of the directories directly below it, and no others.
pub proof fn lemma_tree_children(
    current: Seq<Seq<char>>,
    records: Seq<RecordView>,
    nodes: Seq<Option<NodeView>>,
    root_path: Seq<char>,
)
    ensures
        forall|node: NodeView|
            #![trigger tree_of(current, records, nodes, root_path).children.contains(node)]
            tree_of(current, records, nodes, root_path).children.contains(node) <==> {
                ||| files_in(current, records, nodes).contains(node)
                ||| subdirectories(current, records, nodes, root_path, records.len()).contains(
                    node,
                )
            },
{
    let files = files_in(current, records, nodes);
    let below = subdirectories(current, records, nodes, root_path, records.len());
    lemma_sort_nodes(files + below);
    assert forall|node: NodeView| (files + below).contains(node) <==> (files.contains(node)
        || below.contains(node)) by {
        if (files + below).contains(node) {
            let at = choose|at: int| 0 <= at < (files + below).len() && (files + below)[at] == node;
            if at < files.len() {
                assert(files[at] == node);
            } else {
                assert(below[at - files.len()] == node);
            }
        }
        if files.contains(node) {
            let at = choose|at: int| 0 <= at < files.len() && files[at] == node;
            assert((files + below)[at] == node);
        }
        if below.contains(node) {
            let at = choose|at: int| 0 <= at < below.len() && below[at] == node;
            assert((files + below)[at + files.len()] == node);
        }
    }
}

/// A property holds of every node of a subtree if it holds of every node
/// that was handed in, with all below it, and of every directory node that
/// the builder makes.
#[verifier::rlimit(50)]
pub proof fn lemma_all_nodes_of_tree(
    current: Seq<Seq<char>>,
    records: Seq<RecordView>,
    nodes: Seq<Option<NodeView>>,
    root_path: Seq<char>,
    p: spec_fn(NodeView) -> bool,
)
    requires
        forall|i: int|
            0 <= i < nodes.len() && (#[trigger] nodes[i]) is Some ==> all_nodes(nodes[i]->0, p),
        p(tree_of(current, records, nodes, root_path)),
        forall|r: int|
            0 <= r < records.len() ==> p(
                tree_of((#[trigger] records[r]).components, records, nodes, root_path),
            ),
    ensures
        all_nodes(tree_of(current, records, nodes, root_path), p),
    decreases longest(records) - current.len(),
{
    let tree = tree_of(current, records, nodes, root_path);
    lemma_tree_children(current, records, nodes, root_path);
    lemma_subdirectories(current, records, nodes, root_path, records.len());
    lemma_record_index(records, current);
    let at = record_index(records, current);
    if at < records.len() {
        lemma_file_children(records[at].files, nodes, records[at].files.len());
    }
    assert forall|i: int| 0 <= i < tree.children.len() implies all_nodes(
        #[trigger] tree.children[i],
        p,
    ) by {
        let child = tree.children[i];
        assert(tree.children.contains(child));
        if files_in(current, records, nodes).contains(child) {
            let j = choose|j: int|
                0 <= j < records[at].files.len() && (#[trigger] records[at].files[j]) < nodes.len()
                    && nodes[records[at].files[j] as int] == Some(child);
            assert(nodes[records[at].files[j] as int] is Some);
        } else {
            let r = choose|r: int|
                0 <= r < records.len() && is_child_directory(
                    current,
                    (#[trigger] records[r]).components,
                ) && child == tree_of(records[r].components, records, nodes, root_path);
            lemma_longest(records, r);
            lemma_all_nodes_of_tree(records[r].components, records, nodes, root_path, p);
        }
    }
}

/// Every directory of the tree has its children in order, directories first
/// and then by name, if that holds inside the nodes that were handed in.
pub proof fn lemma_tree_is_sorted(
    current: Seq<Seq<char>>,
    records: Seq<RecordView>,
    nodes: Seq<Option<NodeView>>,
    root_path: Seq<char>,
)
    requires
        forall|i: int|
            0 <= i < nodes.len() && (#[trigger] nodes[i]) is Some ==> all_nodes(
                nodes[i]->0,
                |n: NodeView| children_sorted(n.children),
            ),
    ensures
        all_nodes(
            tree_of(current, records, nodes, root_path),
            |n: NodeView| children_sorted(n.children),
        ),
{
    let p = |n: NodeView| children_sorted(n.children);
    assert forall|path: Seq<Seq<char>>| p(#[trigger] tree_of(path, records, nodes, root_path)) by {
        lemma_sort_nodes(
            files_in(path, records, nodes) + subdirectories(
                path,
                records,
                nodes,
                root_path,
                records.len(),
            ),
        );
    }
    lemma_all_nodes_of_tree(current, records, nodes, root_path, p);
}

/// The tree builder is deterministic: the rendered text is a function of
/// the root's path, the nodes and the adjacency. Two builds from the same
/// values give the same text, character for character.
pub proof fn lemma_same_maps_render_the_same(
    records_a: Seq<RecordView>,
    nodes_a: Seq<Option<NodeView>>,
    root_a: Seq<char>,
    records_b: Seq<RecordView>,
    nodes_b: Seq<Option<NodeView>>,
    root_b: Seq<char>,
)
    requires
        records_a == records_b,
        nodes_a == nodes_b,
        root_a == root_b,
    ensures
        rendered(tree_of(Seq::empty(), records_a, nodes_a, root_a), Seq::empty(), true)
            == rendered(tree_of(Seq::empty(), records_b, nodes_b, root_b), Seq::empty(), true),
{
}

} // verus!
