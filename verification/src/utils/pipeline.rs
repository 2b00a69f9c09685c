//! The scan as a whole: from the entries of a walk and the sizes of the
//! chosen files to the tree, and what holds of every tree so made.

use crate::error::GitingestError;
use crate::models::{
    optional_text, FileNode, FileNodeType, MatcherView, NodeView, PatternMatcher,
};
use crate::text::{lemma_text_lt_total, texts};
use crate::utils::determinism::{comparable, gathered, lemma_tree_ignores_record_order};
use crate::utils::files::{rendered, FileService};
use crate::utils::glob::any_glob_matches;
use crate::utils::order::{children_sorted, lemma_sort_nodes, node_before};
use crate::utils::patterns::{
    includes_directory, includes_file, is_binary_path, matcher_compiles, CompiledMatcher,
    PatternService,
};
use crate::utils::scan::{
    adjacency_of, candidates_of, content_decision, distinct_paths, entry_views, is_candidate,
    leaf_node, ContentDecision,
    lemma_adjacency_files, lemma_adjacency_of, lemma_candidates_are_distinct,
    lemma_candidates_of, lemma_record_index, lies_above_candidate, record_index, record_views,
    relative_text, DirectoryRecord, EntryView, RecordView, WalkEntry,
};
use crate::utils::tree::{
    all_nodes, file_children, files_in, is_child_directory, lemma_all_nodes_of_tree,
    lemma_file_children, lemma_subdirectories, lemma_tree_children, lemma_tree_is_sorted,
    optional_view, optional_views, subdirectories, tree_of,
};
use vstd::prelude::*;
use vstd::string::*;

verus! {

/// What a scan knows before any size is fetched: the compiled matcher, the
/// entries that become nodes, and the adjacency of their directories.
pub struct ScanPlan {
    pub matcher: CompiledMatcher,
    pub candidates: Vec<WalkEntry>,
    pub file_map: Vec<DirectoryRecord>,
}

impl ScanPlan {
    /// Whether this is the plan for the given entries, matcher and limits.
    pub open spec fn is_plan_of(
        &self,
        entries: Seq<EntryView>,
        m: MatcherView,
        max_files: nat,
        max_depth: nat,
    ) -> bool {
        &&& self.matcher@ == m
        &&& entry_views(self.candidates@) == candidates_of(entries, m, max_files, max_depth)
        &&& record_views(self.file_map@) == adjacency_of(
            entry_views(self.candidates@),
            self.candidates@.len(),
        )
    }
}

/// The nodes of the candidates: one for each candidate whose size is known,
/// none for a candidate whose size could not be fetched.
pub open spec fn leaf_nodes(
    candidates: Seq<EntryView>,
    sizes: Seq<Option<u64>>,
    root_path: Seq<char>,
    m: MatcherView,
    max_file_size: u64,
) -> Seq<Option<NodeView>> {
    Seq::new(
        candidates.len(),
        |i: int|
            if i < sizes.len() && sizes[i] is Some {
                Some(leaf_node(candidates[i], root_path, sizes[i]->0, m, max_file_size))
            } else {
                None
            },
    )
}

/// What becomes of the content of each candidate when content is gathered
/// with the nodes: a decision for each candidate whose size is known, none
/// for a candidate whose size could not be fetched.
pub open spec fn content_decisions(
    candidates: Seq<EntryView>,
    sizes: Seq<Option<u64>>,
    m: MatcherView,
    max_file_size: u64,
) -> Seq<Option<ContentDecision>> {
    Seq::new(
        candidates.len(),
        |i: int|
            if i < sizes.len() && sizes[i] is Some {
                Some(content_decision(candidates[i], sizes[i]->0, m, max_file_size))
            } else {
                None
            },
    )
}

/// The text that stands for the content of a file when content is gathered
/// with the nodes: the placeholder of the decision, if it has one; else the
/// text that was read, or a placeholder if the file could not be read.
pub open spec fn eager_content_text(decision: ContentDecision, read: Option<Seq<char>>) -> Seq<
    char,
> {
    match decision.placeholder_text() {
        Some(placeholder) => placeholder,
        None => match read {
            Some(text) => text,
            None => "Error reading file content"@,
        },
    }
}

/// The tree that a scan of the given entries yields.
pub open spec fn scanned_tree(
    entries: Seq<EntryView>,
    m: MatcherView,
    max_files: nat,
    max_depth: nat,
    sizes: Seq<Option<u64>>,
    root_path: Seq<char>,
    max_file_size: u64,
) -> NodeView {
    let candidates = candidates_of(entries, m, max_files, max_depth);
    tree_of(
        Seq::empty(),
        adjacency_of(candidates, candidates.len()),
        leaf_nodes(candidates, sizes, root_path, m, max_file_size),
        root_path,
    )
}

impl FileService {
    /// The first half of a scan. The matcher is compiled, which fails on a
    /// pattern that is not well formed; the candidates are chosen among the
    /// entries of the walk; and every candidate registers the directories
    /// above it.
    pub fn plan_scan(
        entries: &Vec<WalkEntry>,
        matcher: &PatternMatcher,
        max_files: usize,
        max_depth: u32,
    ) -> (r: Result<ScanPlan, GitingestError>)
        ensures
            r is Ok <==> matcher_compiles(matcher@),
            r matches Ok(plan) ==> plan.is_plan_of(
                entry_views(entries@),
                matcher@,
                max_files as nat,
                max_depth as nat,
            ),
            r matches Err(e) ==> e is PatternError,
    {
        let compiled = match PatternService::compile(matcher) {
            Ok(compiled) => compiled,
            Err(e) => {
                return Err(e);
            },
        };
        let candidates = Self::select_candidates(entries, &compiled, max_files, max_depth);
        let file_map = Self::build_adjacency(&candidates);
        Ok(ScanPlan { matcher: compiled, candidates, file_map })
    }

    /// The second half of a scan that gathers content with the nodes. The
    /// tree is the tree of [`FileService::scan_directory_lazy`]; beside it
    /// stands, for each candidate of the plan, what becomes of its content.
    pub fn scan_directory(
        root_path: &str,
        plan: &ScanPlan,
        sizes: &Vec<Option<u64>>,
        max_file_size: u64,
    ) -> (r: (FileNode, Vec<Option<ContentDecision>>))
        ensures
            r.0@ == tree_of(
                Seq::empty(),
                record_views(plan.file_map@),
                leaf_nodes(
                    entry_views(plan.candidates@),
                    sizes@,
                    root_path@,
                    plan.matcher@,
                    max_file_size,
                ),
                root_path@,
            ),
            r.1@ == content_decisions(
                entry_views(plan.candidates@),
                sizes@,
                plan.matcher@,
                max_file_size,
            ),
    {
        let ghost all = leaf_nodes(
            entry_views(plan.candidates@),
            sizes@,
            root_path@,
            plan.matcher@,
            max_file_size,
        );
        let ghost wanted = content_decisions(
            entry_views(plan.candidates@),
            sizes@,
            plan.matcher@,
            max_file_size,
        );
        let mut file_nodes: Vec<Option<FileNode>> = Vec::new();
        let mut decisions: Vec<Option<ContentDecision>> = Vec::new();
        let mut i: usize = 0;
        assert(optional_views(file_nodes@) =~= all.take(0));
        assert(decisions@ =~= wanted.take(0));
        while i < plan.candidates.len()
            invariant
                i <= plan.candidates.len(),
                all == leaf_nodes(
                    entry_views(plan.candidates@),
                    sizes@,
                    root_path@,
                    plan.matcher@,
                    max_file_size,
                ),
                wanted == content_decisions(
                    entry_views(plan.candidates@),
                    sizes@,
                    plan.matcher@,
                    max_file_size,
                ),
                optional_views(file_nodes@) == all.take(i as int),
                decisions@ == wanted.take(i as int),
            decreases plan.candidates.len() - i,
        {
            let (node, decision) = if i < sizes.len() {
                match sizes[i] {
                    Some(size) => {
                        let (node, decision) = Self::process_file(
                            &plan.candidates[i],
                            root_path,
                            size,
                            &plan.matcher,
                            max_file_size,
                        );
                        (Some(node), Some(decision))
                    },
                    None => (None, None),
                }
            } else {
                (None, None)
            };
            let ghost nodes_before = file_nodes@;
            let ghost added = optional_view(node);
            file_nodes.push(node);
            decisions.push(decision);
            proof {
                assert(entry_views(plan.candidates@)[i as int] == plan.candidates@[i as int]@);
                assert(added == all[i as int]);
                assert(decision == wanted[i as int]);
                assert(optional_views(file_nodes@) =~= optional_views(nodes_before).push(added));
                assert(all.take(i as int + 1) =~= all.take(i as int).push(all[i as int]));
                assert(wanted.take(i as int + 1) =~= wanted.take(i as int).push(
                    wanted[i as int],
                ));
            }
            i = i + 1;
        }
        assert(all.take(i as int) =~= all);
        assert(wanted.take(i as int) =~= wanted);
        let tree = Self::build_directory_tree(root_path, &file_nodes, &plan.file_map);
        (tree, decisions)
    }

    /// The text that stands for the content of a file when content is
    /// gathered with the nodes. `read` is the text of the file, or `None` if
    /// it was not read or could not be read; it counts only where the
    /// decision is to read.
    pub fn eager_content(decision: ContentDecision, read: Option<String>) -> (text: String)
        ensures
            text@ == eager_content_text(decision, optional_text(read)),
    {
        match decision.placeholder() {
            Some(placeholder) => placeholder,
            None => match read {
                Some(text) => text,
                None => String::from_str("Error reading file content"),
            },
        }
    }

    /// The second half of a scan. `sizes` holds, for each candidate of the
    /// plan, its size in bytes, or `None` if it could not be fetched; a
    /// candidate without a size is left out of the tree, its directories
    /// are not.
    pub fn scan_directory_lazy(
        root_path: &str,
        plan: &ScanPlan,
        sizes: &Vec<Option<u64>>,
        max_file_size: u64,
    ) -> (tree: FileNode)
        ensures
            tree@ == tree_of(
                Seq::empty(),
                record_views(plan.file_map@),
                leaf_nodes(
                    entry_views(plan.candidates@),
                    sizes@,
                    root_path@,
                    plan.matcher@,
                    max_file_size,
                ),
                root_path@,
            ),
    {
        let ghost all = leaf_nodes(
            entry_views(plan.candidates@),
            sizes@,
            root_path@,
            plan.matcher@,
            max_file_size,
        );
        let mut file_nodes: Vec<Option<FileNode>> = Vec::new();
        let mut i: usize = 0;
        assert(optional_views(file_nodes@) =~= all.take(0));
        while i < plan.candidates.len()
            invariant
                i <= plan.candidates.len(),
                all == leaf_nodes(
                    entry_views(plan.candidates@),
                    sizes@,
                    root_path@,
                    plan.matcher@,
                    max_file_size,
                ),
                optional_views(file_nodes@) == all.take(i as int),
            decreases plan.candidates.len() - i,
        {
            let node = if i < sizes.len() {
                match sizes[i] {
                    Some(size) => Some(
                        Self::process_file_lazy(
                            &plan.candidates[i],
                            root_path,
                            size,
                            &plan.matcher,
                            max_file_size,
                        ),
                    ),
                    None => None,
                }
            } else {
                None
            };
            let ghost before = file_nodes@;
            let ghost added = optional_view(node);
            file_nodes.push(node);
            proof {
                assert(entry_views(plan.candidates@)[i as int] == plan.candidates@[i as int]@);
                assert(added == all[i as int]);
                assert(optional_views(file_nodes@) =~= optional_views(before).push(added));
                assert(all.take(i as int + 1) =~= all.take(i as int).push(all[i as int]));
            }
            i = i + 1;
        }
        assert(all.take(i as int) =~= all);
        Self::build_directory_tree(root_path, &file_nodes, &plan.file_map)
    }
}

/// Whether a node is where the matcher lets it be: a file or a symbolic link
/// is let through as a file; a directory below the root is one that a walk
/// may descend into.
pub open spec fn node_respects(node: NodeView, m: MatcherView) -> bool {
    if node.node_type == FileNodeType::Directory {
        node.relative_path.len() == 0 || includes_directory(m, node.relative_path)
    } else {
        includes_file(m, node.relative_path)
    }
}

/// What holds of every node because `p` holds of it also holds of every
/// node, if `p` implies it.
pub proof fn lemma_all_nodes_implies(
    node: NodeView,
    p: spec_fn(NodeView) -> bool,
    q: spec_fn(NodeView) -> bool,
)
    requires
        all_nodes(node, p),
        forall|n: NodeView| #[trigger] p(n) ==> q(n),
    ensures
        all_nodes(node, q),
    decreases node,
{
    assert forall|i: int| 0 <= i < node.children.len() implies all_nodes(
        #[trigger] node.children[i],
        q,
    ) by {
        lemma_all_nodes_implies(node.children[i], p, q);
    }
}

/// Every node of a scanned tree is where the matcher lets it be.
#[verifier::rlimit(50)]
pub proof fn lemma_scanned_tree_respects_patterns(
    entries: Seq<EntryView>,
    m: MatcherView,
    max_files: nat,
    max_depth: nat,
    sizes: Seq<Option<u64>>,
    root_path: Seq<char>,
    max_file_size: u64,
)
    requires
        max_files <= usize::MAX,
    ensures
        all_nodes(
            scanned_tree(entries, m, max_files, max_depth, sizes, root_path, max_file_size),
            |n: NodeView| node_respects(n, m),
        ),
{
    let candidates = candidates_of(entries, m, max_files, max_depth);
    let records = adjacency_of(candidates, candidates.len());
    let nodes = leaf_nodes(candidates, sizes, root_path, m, max_file_size);
    let p = |n: NodeView| node_respects(n, m);
    lemma_candidates_of(entries, m, max_files, max_depth);
    lemma_adjacency_of(candidates, candidates.len());
    assert forall|i: int| 0 <= i < nodes.len() && (#[trigger] nodes[i]) is Some implies all_nodes(
        nodes[i]->0,
        p,
    ) by {
        assert(is_candidate(candidates[i], m, max_depth));
    }
    assert forall|r: int| 0 <= r < records.len() implies p(
        tree_of((#[trigger] records[r]).components, records, nodes, root_path),
    ) by {
        let path = records[r].components;
        assert(lies_above_candidate(path, candidates, candidates.len()));
        let (i, k) = choose|i: int, k: int|
            0 <= i < candidates.len() && i < candidates.len() && 0 <= k
                < candidates[i].components.len() && path
                == #[trigger] candidates[i].components.take(k);
        assert(is_candidate(candidates[i], m, max_depth));
        if k == 0 {
            assert(path =~= Seq::<Seq<char>>::empty());
        }
    }
    lemma_all_nodes_of_tree(Seq::empty(), records, nodes, root_path, p);
}

/// Exclusion has precedence in the tree: whatever the include patterns are,
/// no file or symbolic link of a scanned tree has a path that an exclude
/// pattern or a gitignore pattern matches, and no directory below the root
/// has a path that an exclude pattern matches.
pub proof fn lemma_excluded_paths_are_absent(
    entries: Seq<EntryView>,
    m: MatcherView,
    max_files: nat,
    max_depth: nat,
    sizes: Seq<Option<u64>>,
    root_path: Seq<char>,
    max_file_size: u64,
)
    requires
        max_files <= usize::MAX,
    ensures
        all_nodes(
            scanned_tree(entries, m, max_files, max_depth, sizes, root_path, max_file_size),
            |n: NodeView|
                if n.node_type == FileNodeType::Directory {
                    n.relative_path.len() > 0 ==> !any_glob_matches(
                        m.exclude_patterns,
                        n.relative_path,
                    )
                } else {
                    !any_glob_matches(m.exclude_patterns, n.relative_path) && !any_glob_matches(
                        m.gitignore_patterns,
                        n.relative_path,
                    )
                },
        ),
{
    let tree = scanned_tree(entries, m, max_files, max_depth, sizes, root_path, max_file_size);
    lemma_scanned_tree_respects_patterns(
        entries,
        m,
        max_files,
        max_depth,
        sizes,
        root_path,
        max_file_size,
    );
    lemma_all_nodes_implies(
        tree,
        |n: NodeView| node_respects(n, m),
        |n: NodeView|
            if n.node_type == FileNodeType::Directory {
                n.relative_path.len() > 0 ==> !any_glob_matches(m.exclude_patterns, n.relative_path)
            } else {
                !any_glob_matches(m.exclude_patterns, n.relative_path) && !any_glob_matches(
                    m.gitignore_patterns,
                    n.relative_path,
                )
            },
    );
}

/// With include patterns present, every file and every symbolic link of a
/// scanned tree has a path that one of them matches.
pub proof fn lemma_files_match_an_include_pattern(
    entries: Seq<EntryView>,
    m: MatcherView,
    max_files: nat,
    max_depth: nat,
    sizes: Seq<Option<u64>>,
    root_path: Seq<char>,
    max_file_size: u64,
)
    requires
        max_files <= usize::MAX,
        m.include_patterns.len() > 0,
    ensures
        all_nodes(
            scanned_tree(entries, m, max_files, max_depth, sizes, root_path, max_file_size),
            |n: NodeView|
                n.node_type != FileNodeType::Directory ==> any_glob_matches(
                    m.include_patterns,
                    n.relative_path,
                ),
        ),
{
    let tree = scanned_tree(entries, m, max_files, max_depth, sizes, root_path, max_file_size);
    lemma_scanned_tree_respects_patterns(
        entries,
        m,
        max_files,
        max_depth,
        sizes,
        root_path,
        max_file_size,
    );
    lemma_all_nodes_implies(
        tree,
        |n: NodeView| node_respects(n, m),
        |n: NodeView|
            n.node_type != FileNodeType::Directory ==> any_glob_matches(
                m.include_patterns,
                n.relative_path,
            ),
    );
}

/// What holds of a node of a well-formed tree. A directory has the size 0
/// and no content of its own; only a directory has children; the children
/// stand in order; and content belongs in the digest only for a file that
/// is no larger than the limit, let through by the matcher, and not binary.
pub open spec fn node_is_well_formed(node: NodeView, m: MatcherView, max_file_size: u64) -> bool {
    &&& node.node_type == FileNodeType::Directory ==> node.size == 0 && !node.has_content
    &&& node.node_type != FileNodeType::Directory ==> node.children.len() == 0
    &&& children_sorted(node.children)
    &&& node.has_content ==> {
        &&& node.node_type == FileNodeType::File
        &&& node.size <= max_file_size
        &&& includes_file(m, node.relative_path)
        &&& !is_binary_path(node.relative_path)
    }
}

/// Every node of a scanned tree is well formed.
pub proof fn lemma_scanned_tree_is_well_formed(
    entries: Seq<EntryView>,
    m: MatcherView,
    max_files: nat,
    max_depth: nat,
    sizes: Seq<Option<u64>>,
    root_path: Seq<char>,
    max_file_size: u64,
)
    ensures
        all_nodes(
            scanned_tree(entries, m, max_files, max_depth, sizes, root_path, max_file_size),
            |n: NodeView| node_is_well_formed(n, m, max_file_size),
        ),
{
    let candidates = candidates_of(entries, m, max_files, max_depth);
    let records = adjacency_of(candidates, candidates.len());
    let nodes = leaf_nodes(candidates, sizes, root_path, m, max_file_size);
    let p = |n: NodeView| node_is_well_formed(n, m, max_file_size);
    lemma_candidates_of(entries, m, max_files, max_depth);
    assert forall|i: int| 0 <= i < nodes.len() && (#[trigger] nodes[i]) is Some implies all_nodes(
        nodes[i]->0,
        p,
    ) by {
        assert(is_candidate(candidates[i], m, max_depth));
    }
    assert forall|path: Seq<Seq<char>>| p(#[trigger] tree_of(path, records, nodes, root_path)) by {
        lemma_sort_nodes(gathered(path, records, nodes, root_path));
    }
    lemma_all_nodes_of_tree(Seq::empty(), records, nodes, root_path, p);
}

/// In a scanned tree the children of every directory stand directories
/// first, and in each group by name.
pub proof fn lemma_scanned_tree_is_sorted(
    entries: Seq<EntryView>,
    m: MatcherView,
    max_files: nat,
    max_depth: nat,
    sizes: Seq<Option<u64>>,
    root_path: Seq<char>,
    max_file_size: u64,
)
    ensures
        all_nodes(
            scanned_tree(entries, m, max_files, max_depth, sizes, root_path, max_file_size),
            |n: NodeView| children_sorted(n.children),
        ),
{
    let candidates = candidates_of(entries, m, max_files, max_depth);
    let nodes = leaf_nodes(candidates, sizes, root_path, m, max_file_size);
    lemma_tree_is_sorted(
        Seq::empty(),
        adjacency_of(candidates, candidates.len()),
        nodes,
        root_path,
    );
}

/// The chain of ancestors of a scanned file is whole. Take a candidate
/// whose size is known, and any directory above it, the root included: the
/// subtree of that directory has among its children the subtree of the next
/// directory on the way down, or, at the end of the way, the node of the
/// candidate itself. The subtree of the empty path is the scanned tree.
#[verifier::rlimit(50)]
pub proof fn lemma_ancestor_chain_is_present(
    entries: Seq<EntryView>,
    m: MatcherView,
    max_files: nat,
    max_depth: nat,
    sizes: Seq<Option<u64>>,
    root_path: Seq<char>,
    max_file_size: u64,
    i: int,
    k: int,
)
    requires
        max_files <= usize::MAX,
        0 <= i < candidates_of(entries, m, max_files, max_depth).len(),
        i < sizes.len(),
        sizes[i] is Some,
        0 <= k < candidates_of(entries, m, max_files, max_depth)[i].components.len(),
    ensures
        ({
            let candidates = candidates_of(entries, m, max_files, max_depth);
            let records = adjacency_of(candidates, candidates.len());
            let nodes = leaf_nodes(candidates, sizes, root_path, m, max_file_size);
            let path = candidates[i].components;
            let above = tree_of(path.take(k), records, nodes, root_path);
            &&& above.node_type == FileNodeType::Directory
            &&& above.relative_path == relative_text(path.take(k))
            &&& k == 0 ==> above == scanned_tree(
                entries,
                m,
                max_files,
                max_depth,
                sizes,
                root_path,
                max_file_size,
            )
            &&& k + 1 < path.len() ==> above.children.contains(
                tree_of(path.take(k + 1), records, nodes, root_path),
            )
            &&& k + 1 == path.len() ==> above.children.contains(
                leaf_node(candidates[i], root_path, sizes[i]->0, m, max_file_size),
            )
        }),
{
    let candidates = candidates_of(entries, m, max_files, max_depth);
    let records = adjacency_of(candidates, candidates.len());
    let nodes = leaf_nodes(candidates, sizes, root_path, m, max_file_size);
    let path = candidates[i].components;
    let current = path.take(k);
    lemma_candidates_of(entries, m, max_files, max_depth);
    lemma_adjacency_of(candidates, candidates.len());
    lemma_tree_children(current, records, nodes, root_path);
    let above = tree_of(current, records, nodes, root_path);
    if k == 0 {
        assert(current =~= Seq::<Seq<char>>::empty());
    }
    if k + 1 < path.len() {
        // The next directory has a record, so its subtree is gathered.
        let below = path.take(k + 1);
        let r = record_index(records, below);
        lemma_record_index(records, below);
        assert(below.drop_last() =~= current);
        assert(is_child_directory(current, records[r].components));
        lemma_subdirectories(current, records, nodes, root_path, records.len());
        assert(above.children.contains(tree_of(below, records, nodes, root_path)));
    } else {
        // The record of the directory lists the candidate, so its node is
        // gathered.
        assert(current =~= path.drop_last());
        let at = record_index(records, current);
        lemma_record_index(records, current);
        lemma_file_children(records[at].files, nodes, records[at].files.len());
        let j = choose|j: int| 0 <= j < records[at].files.len() && records[at].files[j] == i as usize;
        let leaf = leaf_node(candidates[i], root_path, sizes[i]->0, m, max_file_size);
        assert(nodes[records[at].files[j] as int] == Some(leaf));
        assert(above.children.contains(leaf));
    }
}

/// Two candidates with different paths that lie in the same directory have
/// nodes of which one stands before the other.
proof fn lemma_two_files_are_ordered(
    candidates: Seq<EntryView>,
    sizes: Seq<Option<u64>>,
    root_path: Seq<char>,
    m: MatcherView,
    max_file_size: u64,
    x: int,
    y: int,
)
    requires
        distinct_paths(candidates),
        0 <= x < candidates.len(),
        0 <= y < candidates.len(),
        x != y,
        candidates[x].kind != FileNodeType::Directory,
        candidates[y].kind != FileNodeType::Directory,
        candidates[x].components.len() > 0,
        candidates[y].components.len() > 0,
        candidates[x].components.drop_last() == candidates[y].components.drop_last(),
    ensures
        ({
            let u = leaf_node(candidates[x], root_path, sizes[x]->0, m, max_file_size);
            let v = leaf_node(candidates[y], root_path, sizes[y]->0, m, max_file_size);
            node_before(u, v) || node_before(v, u)
        }),
{
    let cx = candidates[x].components;
    let cy = candidates[y].components;
    if cx.last() == cy.last() {
        assert(cx =~= cx.drop_last().push(cx.last()));
        assert(cy =~= cy.drop_last().push(cy.last()));
        if x < y {
            assert(candidates[x].components != candidates[y].components);
        } else {
            assert(candidates[y].components != candidates[x].components);
        }
    } else {
        lemma_text_lt_total(cx.last(), cy.last());
    }
}

/// Two different directories directly below the same directory have
/// subtrees of which one stands before the other.
proof fn lemma_two_subtrees_are_ordered(
    parent: Seq<Seq<char>>,
    first: Seq<Seq<char>>,
    second: Seq<Seq<char>>,
    records: Seq<RecordView>,
    nodes: Seq<Option<NodeView>>,
    root_path: Seq<char>,
)
    requires
        is_child_directory(parent, first),
        is_child_directory(parent, second),
        first != second,
    ensures
        node_before(
            tree_of(first, records, nodes, root_path),
            tree_of(second, records, nodes, root_path),
        ) || node_before(
            tree_of(second, records, nodes, root_path),
            tree_of(first, records, nodes, root_path),
        ),
{
    if first.last() == second.last() {
        assert(first =~= first.drop_last().push(first.last()));
        assert(second =~= second.drop_last().push(second.last()));
    } else {
        lemma_text_lt_total(first.last(), second.last());
    }
}

/// Where a gathered child comes from: a candidate that the record of the
/// directory lists, or a record of a directory directly below.
spec fn comes_from(
    child: NodeView,
    path: Seq<Seq<char>>,
    candidates: Seq<EntryView>,
    sizes: Seq<Option<u64>>,
    root_path: Seq<char>,
    m: MatcherView,
    max_file_size: u64,
    file: Option<int>,
    below: Option<Seq<Seq<char>>>,
) -> bool {
    let records = adjacency_of(candidates, candidates.len());
    let nodes = leaf_nodes(candidates, sizes, root_path, m, max_file_size);
    match (file, below) {
        (Some(x), None) => {
            &&& 0 <= x < candidates.len()
            &&& candidates[x].components.len() > 0
            &&& candidates[x].components.drop_last() == path
            &&& child == leaf_node(candidates[x], root_path, sizes[x]->0, m, max_file_size)
        },
        (None, Some(directory)) => {
            &&& is_child_directory(path, directory)
            &&& child == tree_of(directory, records, nodes, root_path)
        },
        _ => false,
    }
}

/// Every gathered child comes from a candidate in the directory or from a
/// directory directly below.
#[verifier::rlimit(50)]
proof fn lemma_gathered_child_comes_from(
    candidates: Seq<EntryView>,
    sizes: Seq<Option<u64>>,
    root_path: Seq<char>,
    m: MatcherView,
    max_file_size: u64,
    path: Seq<Seq<char>>,
    at: int,
) -> (origin: (Option<int>, Option<Seq<Seq<char>>>))
    requires
        candidates.len() <= usize::MAX,
        0 <= at < gathered(
            path,
            adjacency_of(candidates, candidates.len()),
            leaf_nodes(candidates, sizes, root_path, m, max_file_size),
            root_path,
        ).len(),
    ensures
        comes_from(
            gathered(
                path,
                adjacency_of(candidates, candidates.len()),
                leaf_nodes(candidates, sizes, root_path, m, max_file_size),
                root_path,
            )[at],
            path,
            candidates,
            sizes,
            root_path,
            m,
            max_file_size,
            origin.0,
            origin.1,
        ),
{
    let records = adjacency_of(candidates, candidates.len());
    let nodes = leaf_nodes(candidates, sizes, root_path, m, max_file_size);
    let files = files_in(path, records, nodes);
    let below = subdirectories(path, records, nodes, root_path, records.len());
    let child = gathered(path, records, nodes, root_path)[at];
    if at < files.len() {
        assert(files[at] == child);
        assert(files.contains(child));
        lemma_adjacency_files(candidates, candidates.len());
        lemma_record_index(records, path);
        let r = record_index(records, path);
        lemma_file_children(records[r].files, nodes, records[r].files.len());
        let j = choose|j: int|
            0 <= j < records[r].files.len() && (#[trigger] records[r].files[j]) < nodes.len()
                && nodes[records[r].files[j] as int] == Some(child);
        let x = records[r].files[j] as int;
        (Some(x), None)
    } else {
        assert(below[at - files.len()] == child);
        assert(below.contains(child));
        lemma_subdirectories(path, records, nodes, root_path, records.len());
        let r = choose|r: int|
            0 <= r < records.len() && is_child_directory(path, (#[trigger] records[r]).components)
                && child == tree_of(records[r].components, records, nodes, root_path);
        (None, Some(records[r].components))
    }
}

/// In a scan of entries with different paths, no two different children of
/// a directory rank alike and share a name.
#[verifier::rlimit(50)]
pub proof fn lemma_scanned_children_are_comparable(
    candidates: Seq<EntryView>,
    sizes: Seq<Option<u64>>,
    root_path: Seq<char>,
    m: MatcherView,
    max_file_size: u64,
    path: Seq<Seq<char>>,
)
    requires
        candidates.len() <= usize::MAX,
        distinct_paths(candidates),
        forall|i: int|
            0 <= i < candidates.len() ==> (#[trigger] candidates[i]).kind
                != FileNodeType::Directory,
    ensures
        comparable(
            gathered(
                path,
                adjacency_of(candidates, candidates.len()),
                leaf_nodes(candidates, sizes, root_path, m, max_file_size),
                root_path,
            ),
        ),
{
    let records = adjacency_of(candidates, candidates.len());
    let nodes = leaf_nodes(candidates, sizes, root_path, m, max_file_size);
    let all = gathered(path, records, nodes, root_path);
    assert forall|i: int, j: int|
        0 <= i < all.len() && 0 <= j < all.len() && all[i] != all[j] implies node_before(
        #[trigger] all[i],
        #[trigger] all[j],
    ) || node_before(all[j], all[i]) by {
        let from_i = lemma_gathered_child_comes_from(
            candidates,
            sizes,
            root_path,
            m,
            max_file_size,
            path,
            i,
        );
        let from_j = lemma_gathered_child_comes_from(
            candidates,
            sizes,
            root_path,
            m,
            max_file_size,
            path,
            j,
        );
        match (from_i, from_j) {
            ((Some(x), None), (Some(y), None)) => {
                lemma_two_files_are_ordered(
                    candidates,
                    sizes,
                    root_path,
                    m,
                    max_file_size,
                    x,
                    y,
                );
            },
            ((None, Some(first)), (None, Some(second))) => {
                lemma_two_subtrees_are_ordered(path, first, second, records, nodes, root_path);
            },
            ((Some(x), None), (None, Some(_))) => {
                assert(candidates[x].kind != FileNodeType::Directory);
            },
            ((None, Some(_)), (Some(y), None)) => {
                assert(candidates[y].kind != FileNodeType::Directory);
            },
            _ => {},
        }
    }
}

/// The scanned tree does not depend on the order in which the directories
/// of the adjacency are listed: whenever the entries of the walk have
/// different paths, any list of the same records gives the same tree, and
/// so the same rendered text.
pub proof fn lemma_scanned_tree_ignores_record_order(
    entries: Seq<EntryView>,
    m: MatcherView,
    max_files: nat,
    max_depth: nat,
    sizes: Seq<Option<u64>>,
    root_path: Seq<char>,
    max_file_size: u64,
    reordered: Seq<RecordView>,
)
    requires
        max_files <= usize::MAX,
        distinct_paths(entries),
        reordered.to_multiset() == adjacency_of(
            candidates_of(entries, m, max_files, max_depth),
            candidates_of(entries, m, max_files, max_depth).len(),
        ).to_multiset(),
    ensures
        ({
            let candidates = candidates_of(entries, m, max_files, max_depth);
            let nodes = leaf_nodes(candidates, sizes, root_path, m, max_file_size);
            let tree = scanned_tree(
                entries,
                m,
                max_files,
                max_depth,
                sizes,
                root_path,
                max_file_size,
            );
            &&& tree_of(Seq::empty(), reordered, nodes, root_path) == tree
            &&& rendered(tree_of(Seq::empty(), reordered, nodes, root_path), Seq::empty(), true)
                == rendered(tree, Seq::empty(), true)
        }),
{
    let candidates = candidates_of(entries, m, max_files, max_depth);
    let records = adjacency_of(candidates, candidates.len());
    let nodes = leaf_nodes(candidates, sizes, root_path, m, max_file_size);
    lemma_candidates_of(entries, m, max_files, max_depth);
    lemma_candidates_are_distinct(entries, m, max_files, max_depth);
    lemma_adjacency_of(candidates, candidates.len());
    assert forall|path: Seq<Seq<char>>| comparable(
        #[trigger] gathered(path, records, nodes, root_path),
    ) by {
        lemma_scanned_children_are_comparable(
            candidates,
            sizes,
            root_path,
            m,
            max_file_size,
            path,
        );
    }
    lemma_tree_ignores_record_order(Seq::empty(), records, reordered, nodes, root_path);
}

} // verus!
