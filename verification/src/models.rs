//! The data that flows through a run: requests, the scanned tree, patterns
//! and the statistics of a finished digest.

use crate::text::texts;
use vstd::prelude::*;
use vstd::string::*;

verus! {

/// `uuid::Uuid`, the identifier that a response carries. The crate only
/// passes such a value through.
#[verifier::external_type_specification]
#[verifier::external_body]
pub struct ExUuid(uuid::Uuid);

/// `Clone::clone` of `uuid::Uuid`, a `Copy` type: the copy is the value itself.
pub assume_specification[ <uuid::Uuid as Clone>::clone ](id: &uuid::Uuid) -> (copy: uuid::Uuid)
    ensures
        copy == *id,
;

/// What a caller asks for.
#[derive(Debug, Clone)]
pub struct IngestRequest {
    pub input_text: String,
    pub max_file_size: Option<u64>,
    pub max_files: Option<usize>,
    pub pattern_type: Option<PatternType>,
    pub pattern: Option<String>,
    pub include_patterns: Option<Vec<String>>,
    pub exclude_patterns: Option<Vec<String>>,
    pub token: Option<String>,
    pub branch: Option<String>,
    pub include_submodules: Option<bool>,
    pub download_format: Option<DownloadFormat>,
}

/// The presentation a digest is delivered in.
#[derive(Debug, Clone, Copy, PartialEq, Eq, Structural)]
pub enum DownloadFormat {
    Text,
    Markdown,
    Json,
}

/// Whether a request's single pattern selects files or rejects them.
#[derive(Debug, Clone, Copy, PartialEq, Eq, Structural)]
pub enum PatternType {
    Include,
    Exclude,
}

/// The answer to a request.
#[derive(Debug, Clone)]
pub struct IngestResponse {
    pub id: uuid::Uuid,
    pub repo_url: String,
    pub short_repo_url: String,
    pub summary: String,
    pub digest_url: Option<String>,
    pub tree: String,
    pub content: String,
    pub status: IngestStatus,
}

/// How far a request has come.
#[derive(Debug, Clone, Copy, PartialEq, Eq, Structural)]
pub enum IngestStatus {
    Pending,
    Processing,
    Completed,
    Failed,
}

/// A repository, as resolved from what the caller typed.
#[derive(Debug, Clone)]
pub struct Repository {
    pub url: String,
    pub host: String,
    pub owner: String,
    pub name: String,
    pub branch: Option<String>,
    pub commit: Option<String>,
    pub subpath: String,
}

/// The mathematical value of a [`Repository`].
pub struct RepositoryView {
    pub url: Seq<char>,
    pub host: Seq<char>,
    pub owner: Seq<char>,
    pub name: Seq<char>,
    pub branch: Option<Seq<char>>,
    pub commit: Option<Seq<char>>,
    pub subpath: Seq<char>,
}

/// The text of a string that may be missing.
pub open spec fn optional_text(text: Option<String>) -> Option<Seq<char>> {
    match text {
        Some(text) => Some(text@),
        None => None,
    }
}

impl View for Repository {
    type V = RepositoryView;

    open spec fn view(&self) -> RepositoryView {
        RepositoryView {
            url: self.url@,
            host: self.host@,
            owner: self.owner@,
            name: self.name@,
            branch: optional_text(self.branch),
            commit: optional_text(self.commit),
            subpath: self.subpath@,
        }
    }
}

/// What the clone step needs to know.
#[derive(Debug, Clone)]
pub struct CloneConfig {
    pub url: String,
    pub local_path: String,
    pub branch: Option<String>,
    pub commit: Option<String>,
    pub subpath: String,
    pub include_submodules: bool,
    pub token: Option<String>,
}

/// The kind of a node of the scanned tree.
#[derive(Debug, Clone, Copy, PartialEq, Eq, Structural)]
pub enum FileNodeType {
    Directory,
    File,
    Symlink,
}

/// A file, a directory or a symbolic link of the scanned tree. Only a
/// directory has children.
#[derive(Debug)]
pub struct FileNode {
    pub name: String,
    pub path: String,
    pub relative_path: String,
    pub node_type: FileNodeType,
    pub size: u64,
    pub has_content: bool,
    pub children: Vec<FileNode>,
    pub depth: u32,
}

/// The mathematical value of a [`FileNode`]: the same tree, with texts in
/// place of strings and sequences in place of vectors.
pub struct NodeView {
    pub name: Seq<char>,
    pub path: Seq<char>,
    pub relative_path: Seq<char>,
    pub node_type: FileNodeType,
    pub size: u64,
    pub has_content: bool,
    pub children: Seq<NodeView>,
    pub depth: u32,
}

/// The value of one node.
pub open spec fn node_view(node: FileNode) -> NodeView
    decreases node,
{
    NodeView {
        name: node.name@,
        path: node.path@,
        relative_path: node.relative_path@,
        node_type: node.node_type,
        size: node.size,
        has_content: node.has_content,
        children: node_views(node.children@),
        depth: node.depth,
    }
}

/// The values of a list of nodes, in the same order.
pub open spec fn node_views(nodes: Seq<FileNode>) -> Seq<NodeView>
    decreases nodes,
{
    if nodes.len() == 0 {
        Seq::empty()
    } else {
        node_views(nodes.drop_last()).push(node_view(nodes.last()))
    }
}

impl View for FileNode {
    type V = NodeView;

    open spec fn view(&self) -> NodeView {
        node_view(*self)
    }
}

/// `node_views` keeps the length and views each node in place.
pub proof fn lemma_node_views(nodes: Seq<FileNode>)
    ensures
        node_views(nodes).len() == nodes.len(),
        forall|i: int| 0 <= i < nodes.len() ==> #[trigger] node_views(nodes)[i] == nodes[i]@,
    decreases nodes.len(),
{
    if nodes.len() > 0 {
        lemma_node_views(nodes.drop_last());
    }
}

/// `node_views` of a list with one more node at its end.
pub proof fn lemma_node_views_push(nodes: Seq<FileNode>, node: FileNode)
    ensures
        node_views(nodes.push(node)) == node_views(nodes).push(node@),
{
    assert(nodes.push(node).drop_last() =~= nodes);
}

/// `node_views` of a list with a node put in at `at`.
pub proof fn lemma_node_views_insert(nodes: Seq<FileNode>, at: int, node: FileNode)
    requires
        0 <= at <= nodes.len(),
    ensures
        node_views(nodes.insert(at, node)) == node_views(nodes).insert(at, node@),
{
    lemma_node_views(nodes);
    lemma_node_views(nodes.insert(at, node));
    assert(node_views(nodes.insert(at, node)) =~= node_views(nodes).insert(at, node@));
}

impl FileNode {
    /// What the view of a node is made of.
    pub proof fn lemma_view(&self)
        ensures
            self@.name == self.name@,
            self@.path == self.path@,
            self@.relative_path == self.relative_path@,
            self@.node_type == self.node_type,
            self@.size == self.size,
            self@.has_content == self.has_content,
            self@.depth == self.depth,
            self@.children == node_views(self.children@),
            self@.children.len() == self.children@.len(),
            forall|i: int|
                0 <= i < self.children@.len() ==> #[trigger] self@.children[i]
                    == self.children@[i]@,
    {
        lemma_node_views(self.children@);
    }
}

impl Clone for FileNode {
    /// A copy of the whole subtree.
    fn clone(&self) -> (copy: Self)
        ensures
            copy@ == self@,
        decreases self,
    {
        let mut children: Vec<FileNode> = Vec::new();
        let mut i: usize = 0;
        while i < self.children.len()
            invariant
                i <= self.children.len(),
                node_views(children@) == node_views(self.children@.take(i as int)),
            decreases self.children.len() - i,
        {
            let child = self.children[i].clone();
            proof {
                lemma_node_views_push(children@, child);
                lemma_node_views_push(self.children@.take(i as int), self.children@[i as int]);
                assert(self.children@.take(i as int + 1) =~= self.children@.take(i as int).push(
                    self.children@[i as int],
                ));
            }
            children.push(child);
            i = i + 1;
        }
        assert(self.children@.take(i as int) =~= self.children@);
        FileNode {
            name: self.name.clone(),
            path: self.path.clone(),
            relative_path: self.relative_path.clone(),
            node_type: self.node_type,
            size: self.size,
            has_content: self.has_content,
            children,
            depth: self.depth,
        }
    }
}

/// Counters kept while a file system is walked.
#[derive(Debug, Clone)]
pub struct FileSystemStats {
    pub total_files: usize,
    pub total_size: u64,
    pub processed_files: usize,
    pub skipped_files: usize,
}

impl Default for FileSystemStats {
    /// All counters at zero.
    fn default() -> (stats: Self)
        ensures
            stats.total_files == 0,
            stats.total_size == 0,
            stats.processed_files == 0,
            stats.skipped_files == 0,
    {
        FileSystemStats { total_files: 0, total_size: 0, processed_files: 0, skipped_files: 0 }
    }
}

/// A finished digest.
#[derive(Debug, Clone)]
pub struct ProcessingResult {
    pub summary: String,
    pub tree: String,
    pub content: String,
    pub stats: ProcessingStats,
}

/// The figures of a finished digest.
#[derive(Debug, Clone)]
pub struct ProcessingStats {
    pub files_analyzed: usize,
    pub total_size_bytes: u64,
    pub estimated_tokens: Option<usize>,
    pub processing_time_ms: u64,
}

/// Three lists of glob patterns. An empty include list selects everything.
#[derive(Debug, Clone)]
pub struct PatternMatcher {
    pub include_patterns: Vec<String>,
    pub exclude_patterns: Vec<String>,
    pub gitignore_patterns: Vec<String>,
}

/// The mathematical value of a [`PatternMatcher`].
pub struct MatcherView {
    pub include_patterns: Seq<Seq<char>>,
    pub exclude_patterns: Seq<Seq<char>>,
    pub gitignore_patterns: Seq<Seq<char>>,
}

impl View for PatternMatcher {
    type V = MatcherView;

    open spec fn view(&self) -> MatcherView {
        MatcherView {
            include_patterns: texts(self.include_patterns@),
            exclude_patterns: texts(self.exclude_patterns@),
            gitignore_patterns: texts(self.gitignore_patterns@),
        }
    }
}

impl Default for PatternMatcher {
    /// No include filter, the default exclusions, nothing from a gitignore.
    fn default() -> (matcher: Self)
        ensures
            matcher@.include_patterns == Seq::<Seq<char>>::empty(),
            matcher@.exclude_patterns == default_excludes(),
            matcher@.gitignore_patterns == Seq::<Seq<char>>::empty(),
    {
        let matcher = PatternMatcher {
            include_patterns: Vec::new(),
            exclude_patterns: default_exclude_patterns(),
            gitignore_patterns: Vec::new(),
        };
        assert(matcher@.include_patterns =~= Seq::<Seq<char>>::empty());
        assert(matcher@.gitignore_patterns =~= Seq::<Seq<char>>::empty());
        matcher
    }
}

/// The patterns that are excluded unless a caller says otherwise: version
/// control, build output, editor files, logs, binaries and media.
pub open spec fn default_excludes() -> Seq<Seq<char>> {
    seq![
        ".git"@,
        ".svn"@,
        ".hg"@,
        "target/"@,
        "build/"@,
        "dist/"@,
        "node_modules/"@,
        "__pycache__/"@,
        "*.pyc"@,
        ".vscode/"@,
        ".idea/"@,
        "*.swp"@,
        "*.swo"@,
        ".DS_Store"@,
        "*.log"@,
        "*.tmp"@,
        "*.temp"@,
        "*.exe"@,
        "*.dll"@,
        "*.so"@,
        "*.dylib"@,
        "*.a"@,
        "*.lib"@,
        "*.png"@,
        "*.jpg"@,
        "*.jpeg"@,
        "*.gif"@,
        "*.pdf"@,
        "*.mp4"@,
        "*.mp3"@,
        "*.wav"@,
    ]
}

/// The default exclusions, as owned strings.
pub fn default_exclude_patterns() -> (patterns: Vec<String>)
    ensures
        texts(patterns@) == default_excludes(),
{
    let mut patterns: Vec<String> = Vec::new();
    // Version control
    patterns.push(String::from_str(".git"));
    patterns.push(String::from_str(".svn"));
    patterns.push(String::from_str(".hg"));
    // Build artifacts
    patterns.push(String::from_str("target/"));
    patterns.push(String::from_str("build/"));
    patterns.push(String::from_str("dist/"));
    patterns.push(String::from_str("node_modules/"));
    patterns.push(String::from_str("__pycache__/"));
    patterns.push(String::from_str("*.pyc"));
    // IDE and editor files
    patterns.push(String::from_str(".vscode/"));
    patterns.push(String::from_str(".idea/"));
    patterns.push(String::from_str("*.swp"));
    patterns.push(String::from_str("*.swo"));
    patterns.push(String::from_str(".DS_Store"));
    // Logs and temporary files
    patterns.push(String::from_str("*.log"));
    patterns.push(String::from_str("*.tmp"));
    patterns.push(String::from_str("*.temp"));
    // Binary files
    patterns.push(String::from_str("*.exe"));
    patterns.push(String::from_str("*.dll"));
    patterns.push(String::from_str("*.so"));
    patterns.push(String::from_str("*.dylib"));
    patterns.push(String::from_str("*.a"));
    patterns.push(String::from_str("*.lib"));
    // Media files
    patterns.push(String::from_str("*.png"));
    patterns.push(String::from_str("*.jpg"));
    patterns.push(String::from_str("*.jpeg"));
    patterns.push(String::from_str("*.gif"));
    patterns.push(String::from_str("*.pdf"));
    patterns.push(String::from_str("*.mp4"));
    patterns.push(String::from_str("*.mp3"));
    patterns.push(String::from_str("*.wav"));
    assert(texts(patterns@) =~= default_excludes());
    patterns
}

} // verus!
