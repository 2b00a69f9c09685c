use gitingest::text::split;
use gitingest::utils::content::{ContentChunk, ContentWriter};
use gitingest::utils::scan::{DirectoryRecord, WalkEntry};
use gitingest::{
    ContentDecision, FileNode, FileNodeType, FileService, GitingestError, IngestService,
    PatternMatcher, PatternService,
};

fn strings(items: &[&str]) -> Vec<String> {
    items.iter().map(|s| s.to_string()).collect()
}

fn entry(path: &str, kind: FileNodeType) -> WalkEntry {
    let components = if path.is_empty() { vec![] } else { split(path, '/') };
    WalkEntry { components, kind }
}

fn file(path: &str) -> WalkEntry {
    entry(path, FileNodeType::File)
}

fn dir(path: &str) -> WalkEntry {
    entry(path, FileNodeType::Directory)
}

fn matcher(selected: &[&str], excluded: &[&str], ignored: &[&str]) -> PatternMatcher {
    PatternMatcher {
        include_patterns: strings(selected),
        exclude_patterns: strings(excluded),
        gitignore_patterns: strings(ignored),
    }
}

fn all_nodes(tree: &FileNode) -> Vec<&FileNode> {
    let mut found = vec![tree];
    for child in &tree.children {
        found.extend(all_nodes(child));
    }
    found
}

fn relative_paths(tree: &FileNode) -> Vec<String> {
    all_nodes(tree).iter().map(|n| n.relative_path.clone()).collect()
}

fn scan(
    entries: &[WalkEntry],
    matcher: &PatternMatcher,
    sizes: &[(&str, u64)],
    max_file_size: u64,
    max_files: usize,
    max_depth: u32,
) -> FileNode {
    let entries: Vec<WalkEntry> = entries.to_vec();
    let plan = FileService::plan_scan(&entries, matcher, max_files, max_depth).unwrap();
    let fetched: Vec<Option<u64>> = plan
        .candidates
        .iter()
        .map(|c| {
            let path = c.components.join("/");
            sizes.iter().find(|(p, _)| *p == path).map(|(_, s)| *s)
        })
        .collect();
    FileService::scan_directory_lazy("/tmp/work/repo", &plan, &fetched, max_file_size)
}

fn materialize(tree: &FileNode, bodies: &[(&str, &[u8])]) -> String {
    let mut chunks: Vec<ContentChunk> = Vec::new();
    tree.write_content(&mut chunks);
    let mut out = String::new();
    for chunk in chunks {
        match chunk {
            ContentChunk::Text(text) => out.push_str(&text),
            ContentChunk::FileBody(path) => {
                let bytes = bodies.iter().find(|(p, _)| *p == path).map(|(_, b)| *b);
                out.push_str(&FileService::file_body(bytes));
            }
        }
    }
    out
}

#[test]
fn scenario_text_file_kept_and_excluded_binary_dropped() {
    let entries = [
        dir(""),
        dir("src"),
        file("src/main.txt"),
        dir("target"),
        file("target/out.bin"),
    ];
    let m = matcher(&[], &["target/**"], &[]);
    let tree = scan(&entries, &m, &[("src/main.txt", 10), ("target/out.bin", 4)], u64::MAX, usize::MAX, u32::MAX);

    // Below the root the tree has two nodes: `src/` and `main.txt`.
    assert_eq!(tree.name, "repo");
    assert_eq!(tree.node_type, FileNodeType::Directory);
    assert_eq!(relative_paths(&tree), strings(&["", "src", "src/main.txt"]));
    assert_eq!(
        FileService::generate_tree_string_lazy(&tree, "", true),
        "└── repo/\n    └── src/\n        └── main.txt\n"
    );
    let main = &tree.children[0].children[0];
    assert_eq!(main.name, "main.txt");
    assert_eq!(main.path, "/tmp/work/repo/src/main.txt");
    assert_eq!(main.size, 10);
    assert!(main.has_content);
    assert!(main.children.is_empty());
    assert_eq!(tree.children[0].size, 0);
    assert!(!tree.children[0].has_content);

    let content = materialize(&tree, &[("/tmp/work/repo/src/main.txt", b"0123456789")]);
    let separator = "=".repeat(48);
    assert_eq!(content, format!("src/main.txt:\n{}\n0123456789\n\n", separator));

    assert_eq!(IngestService::count_files_lazy(&tree), 1);
    assert_eq!(IngestService::calculate_total_size_lazy(&tree), 10);

    // Without the exclusion the binary file is a node, and is not read.
    let open = matcher(&[], &[], &[]);
    let tree = scan(&entries, &open, &[("src/main.txt", 10), ("target/out.bin", 4)], u64::MAX, usize::MAX, u32::MAX);
    assert_eq!(
        relative_paths(&tree),
        strings(&["", "src", "src/main.txt", "target", "target/out.bin"])
    );
    let binary = &tree.children[1].children[0];
    assert_eq!(binary.name, "out.bin");
    assert!(!binary.has_content);
    let content = materialize(&tree, &[("/tmp/work/repo/src/main.txt", b"0123456789")]);
    assert_eq!(content, format!("src/main.txt:\n{}\n0123456789\n\n", separator));
}

#[test]
fn scenario_count_truncation_keeps_one_file() {
    let entries = [dir(""), file("a.txt"), file("b.txt")];
    let m = matcher(&[], &[], &[]);
    let tree = scan(&entries, &m, &[("a.txt", 1), ("b.txt", 2)], u64::MAX, 1, u32::MAX);
    assert_eq!(FileService::count_files(&tree), 1);
    assert_eq!(relative_paths(&tree), strings(&["", "a.txt"]));

    let none = scan(&entries, &m, &[("a.txt", 1), ("b.txt", 2)], u64::MAX, 0, u32::MAX);
    assert_eq!(FileService::count_files(&none), 0);
    assert!(none.children.is_empty());

    let both = scan(&entries, &m, &[("a.txt", 1), ("b.txt", 2)], u64::MAX, 2, u32::MAX);
    assert_eq!(FileService::count_files(&both), 2);
}

#[test]
fn file_at_the_size_limit_has_content_and_one_byte_more_has_not() {
    let m = matcher(&[], &[], &[]);
    let compiled = PatternService::compile(&m).unwrap();
    let at = FileService::process_file_lazy(&file("a.txt"), "/r", 100, &compiled, 100);
    let over = FileService::process_file_lazy(&file("a.txt"), "/r", 101, &compiled, 100);
    let under = FileService::process_file_lazy(&file("a.txt"), "/r", 99, &compiled, 100);
    assert!(at.has_content);
    assert!(!over.has_content);
    assert!(under.has_content);
    assert_eq!(over.size, 101);
    assert_eq!(over.node_type, FileNodeType::File);

    let entries = [file("at.txt"), file("over.txt")];
    let tree = scan(&entries, &m, &[("at.txt", 100), ("over.txt", 101)], 100, usize::MAX, u32::MAX);
    let content = materialize(&tree, &[("/tmp/work/repo/at.txt", b"x"), ("/tmp/work/repo/over.txt", b"y")]);
    assert!(content.contains("at.txt:\n"));
    assert!(!content.contains("over.txt"));
    // The oversized file is still a node of the tree.
    assert_eq!(relative_paths(&tree), strings(&["", "at.txt", "over.txt"]));
}

#[test]
fn content_flag_needs_a_text_file_that_patterns_let_through() {
    let compiled = PatternService::compile(&matcher(&["*.rs", "*.png"], &[], &["secret*"])).unwrap();
    let text = FileService::process_file_lazy(&file("src/a.rs"), "/r", 5, &compiled, 10);
    assert!(text.has_content);
    assert_eq!(text.name, "a.rs");
    assert_eq!(text.relative_path, "src/a.rs");
    assert_eq!(text.path, "/r/src/a.rs");
    assert_eq!(text.depth, 2);
    let binary = FileService::process_file_lazy(&file("src/a.png"), "/r", 5, &compiled, 10);
    assert!(!binary.has_content);
    let unmatched = FileService::process_file_lazy(&file("src/a.txt"), "/r", 5, &compiled, 10);
    assert!(!unmatched.has_content);
    let ignored = FileService::process_file_lazy(&file("secret.rs"), "/r", 5, &compiled, 10);
    assert!(!ignored.has_content);
    let link = FileService::process_file_lazy(
        &entry("src/link.rs", FileNodeType::Symlink),
        "/r",
        5,
        &compiled,
        10,
    );
    assert!(!link.has_content);
    assert_eq!(link.node_type, FileNodeType::Symlink);
}

#[test]
fn content_decisions_are_made_in_order() {
    let compiled = PatternService::compile(&matcher(&[], &["*.tmp", "*.secret.png"], &[])).unwrap();
    let decide = |path: &str, size: u64, max: u64| {
        FileService::process_file(&file(path), "/r", size, &compiled, max).1
    };
    assert_eq!(decide("a.txt", 10, 100), ContentDecision::Read);
    assert_eq!(decide("a.txt", 101, 100), ContentDecision::TooLarge);
    assert_eq!(decide("a.tmp", 101, 100), ContentDecision::TooLarge);
    assert_eq!(decide("a.tmp", 100, 100), ContentDecision::Excluded);
    assert_eq!(decide("a.secret.png", 1, 100), ContentDecision::Excluded);
    assert_eq!(decide("a.png", 1, 100), ContentDecision::Binary);
    assert_eq!(decide("a.txt", 1024 * 1024, u64::MAX), ContentDecision::Read);
    assert_eq!(decide("a.txt", 1024 * 1024 + 1, u64::MAX), ContentDecision::LargeNotIncluded);
    assert_eq!(decide("a.png", 1024 * 1024 + 1, u64::MAX), ContentDecision::Binary);

    assert_eq!(ContentDecision::TooLarge.placeholder(), Some("File too large to process".to_string()));
    assert_eq!(ContentDecision::Excluded.placeholder(), Some("File excluded by patterns".to_string()));
    assert_eq!(ContentDecision::Binary.placeholder(), Some("Binary file".to_string()));
    assert_eq!(
        ContentDecision::LargeNotIncluded.placeholder(),
        Some("Large file - content not included".to_string())
    );
    assert_eq!(ContentDecision::Read.placeholder(), None);

    let (node, _) = FileService::process_file(&file("d/a.txt"), "/r", 10, &compiled, 100);
    assert_eq!(node.relative_path, "d/a.txt");
    assert!(node.has_content);
}

#[test]
fn the_eager_scan_gives_the_same_tree_and_a_decision_for_each_file() {
    let entries = vec![file("src/a.rs"), file("logo.png"), file("gone.txt"), file("big.txt")];
    let m = matcher(&[], &[], &[]);
    let plan = FileService::plan_scan(&entries, &m, usize::MAX, u32::MAX).unwrap();
    let sizes = vec![Some(10), Some(20), None, Some(101)];
    let (tree, decisions) = FileService::scan_directory("/r", &plan, &sizes, 100);
    let lazy = FileService::scan_directory_lazy("/r", &plan, &sizes, 100);
    assert_eq!(
        FileService::generate_tree_string(&tree, "", true),
        FileService::generate_tree_string(&lazy, "", true)
    );
    assert_eq!(relative_paths(&tree), relative_paths(&lazy));
    assert_eq!(
        decisions,
        vec![
            Some(ContentDecision::Read),
            Some(ContentDecision::Binary),
            None,
            Some(ContentDecision::TooLarge),
        ]
    );
    assert_eq!(
        FileService::eager_content(ContentDecision::Read, Some("text".to_string())),
        "text"
    );
    assert_eq!(
        FileService::eager_content(ContentDecision::Read, None),
        "Error reading file content"
    );
    assert_eq!(
        FileService::eager_content(ContentDecision::Binary, Some("text".to_string())),
        "Binary file"
    );
    assert_eq!(
        FileService::eager_content(ContentDecision::TooLarge, None),
        "File too large to process"
    );
}

#[test]
fn the_walk_descends_into_directories_that_are_not_excluded() {
    let compiled = PatternService::compile(&matcher(&["*.rs"], &["vendor/", "out"], &["src"])).unwrap();
    assert!(FileService::descends_into(&dir(""), &compiled));
    assert!(FileService::descends_into(&dir("src"), &compiled));
    assert!(FileService::descends_into(&dir("src/vendor"), &compiled));
    assert!(!FileService::descends_into(&dir("vendor"), &compiled));
    assert!(!FileService::descends_into(&dir("out"), &compiled));
    assert!(!FileService::descends_into(&file("src/main.rs"), &compiled));
    assert!(!FileService::descends_into(&entry("src", FileNodeType::Symlink), &compiled));
}

#[test]
fn candidates_are_filtered_pruned_and_bounded_in_depth() {
    let entries = [
        dir(""),
        dir("src"),
        file("src/main.rs"),
        file("src/notes.txt"),
        dir("vendor"),
        file("vendor/dep.rs"),
        dir("vendor/deep"),
        file("vendor/deep/x.rs"),
        dir("a"),
        dir("a/b"),
        dir("a/b/c"),
        file("a/b/c/deep.rs"),
        entry("link.rs", FileNodeType::Symlink),
        file("top.rs"),
    ];
    let m = matcher(&["*.rs"], &["vendor/"], &["top.*"]);
    let compiled = PatternService::compile(&m).unwrap();
    let chosen = FileService::select_candidates(&entries.to_vec(), &compiled, usize::MAX, 3);
    let paths: Vec<String> = chosen.iter().map(|c| c.components.join("/")).collect();
    // `vendor` is pruned with all below it, `notes.txt` matches no include
    // pattern, `top.rs` is ignored, `a/b/c/deep.rs` lies too deep.
    assert_eq!(paths, strings(&["src/main.rs", "link.rs"]));

    let deeper = FileService::select_candidates(&entries.to_vec(), &compiled, usize::MAX, 4);
    let paths: Vec<String> = deeper.iter().map(|c| c.components.join("/")).collect();
    assert_eq!(paths, strings(&["src/main.rs", "a/b/c/deep.rs", "link.rs"]));

    let first = FileService::select_candidates(&entries.to_vec(), &compiled, 1, 4);
    assert_eq!(first.len(), 1);
    assert_eq!(first[0].components, strings(&["src", "main.rs"]));
}

#[test]
fn excluded_paths_never_appear_whatever_the_include_patterns() {
    let entries = [
        dir("src"),
        file("src/keep.rs"),
        file("src/skip.rs"),
        dir("gen"),
        file("gen/api.rs"),
        dir("out"),
        file("out/build.rs"),
        file("README.md"),
    ];
    let m = matcher(&["**/*.rs", "*.md", "out/**"], &["src/skip.rs", "out/"], &["gen/**"]);
    let tree = scan(&entries, &m, &[("src/keep.rs", 1), ("README.md", 2)], u64::MAX, usize::MAX, u32::MAX);
    assert_eq!(relative_paths(&tree), strings(&["", "src", "src/keep.rs", "README.md"]));
    for node in all_nodes(&tree) {
        if node.node_type != FileNodeType::Directory {
            assert!(PatternService::should_include_file(&m, &node.relative_path).unwrap());
        }
    }
}

#[test]
fn every_ancestor_of_a_file_is_a_node() {
    // No entry for the directories at all: the files alone bring them in.
    let entries = [file("a/b/c/d.txt"), file("a/x.txt"), file("z.txt")];
    // The include pattern matches none of the directories.
    let m = matcher(&["*.txt"], &[], &[]);
    let tree = scan(
        &entries,
        &m,
        &[("a/b/c/d.txt", 1), ("a/x.txt", 1), ("z.txt", 1)],
        u64::MAX,
        usize::MAX,
        u32::MAX,
    );
    assert_eq!(
        relative_paths(&tree),
        strings(&["", "a", "a/b", "a/b/c", "a/b/c/d.txt", "a/x.txt", "z.txt"])
    );
    let a = &tree.children[0];
    assert_eq!((a.name.as_str(), a.node_type, a.depth), ("a", FileNodeType::Directory, 1));
    assert_eq!(a.path, "/tmp/work/repo/a");
    let c = &a.children[0].children[0];
    assert_eq!((c.name.as_str(), c.node_type, c.depth), ("c", FileNodeType::Directory, 3));
    assert_eq!(c.children[0].name, "d.txt");
}

#[test]
fn a_file_without_size_is_dropped_and_its_directories_stay() {
    let entries = [file("gone/a.txt"), file("here/b.txt")];
    let m = matcher(&[], &[], &[]);
    let tree = scan(&entries, &m, &[("here/b.txt", 3)], u64::MAX, usize::MAX, u32::MAX);
    assert_eq!(relative_paths(&tree), strings(&["", "gone", "here", "here/b.txt"]));
    assert_eq!(FileService::count_files(&tree), 1);
}

#[test]
fn children_of_every_directory_are_sorted() {
    let entries = [
        file("b.txt"),
        file("zoo/z.txt"),
        file("a.txt"),
        file("app/main.rs"),
        file("app/lib/x.rs"),
        file("app/a.rs"),
        file("Makefile"),
    ];
    let sizes: Vec<(&str, u64)> =
        vec![("b.txt", 1), ("zoo/z.txt", 1), ("a.txt", 1), ("app/main.rs", 1), ("app/lib/x.rs", 1), ("app/a.rs", 1), ("Makefile", 1)];
    let tree = scan(&entries, &matcher(&[], &[], &[]), &sizes, u64::MAX, usize::MAX, u32::MAX);
    assert_eq!(
        FileService::generate_tree_string_lazy(&tree, "", true),
        "\
└── repo/
    ├── app/
    │   ├── lib/
    │   │   └── x.rs
    │   ├── a.rs
    │   └── main.rs
    ├── zoo/
    │   └── z.txt
    ├── Makefile
    ├── a.txt
    └── b.txt
"
    );
}

#[test]
fn the_order_of_the_walk_does_not_change_the_tree() {
    let forward = [file("a/1.txt"), file("a/2.txt"), file("b/1.txt"), file("c.txt")];
    let backward = [file("c.txt"), file("b/1.txt"), file("a/2.txt"), file("a/1.txt")];
    let sizes = [("a/1.txt", 1), ("a/2.txt", 2), ("b/1.txt", 3), ("c.txt", 4)];
    let m = matcher(&[], &[], &[]);
    let one = scan(&forward, &m, &sizes, u64::MAX, usize::MAX, u32::MAX);
    let two = scan(&backward, &m, &sizes, u64::MAX, usize::MAX, u32::MAX);
    assert_eq!(
        FileService::generate_tree_string_lazy(&one, "", true),
        FileService::generate_tree_string_lazy(&two, "", true)
    );
    let again = scan(&forward, &m, &sizes, u64::MAX, usize::MAX, u32::MAX);
    assert_eq!(
        FileService::generate_tree_string_lazy(&one, "", true),
        FileService::generate_tree_string_lazy(&again, "", true)
    );
}

#[test]
fn adjacency_registers_every_directory_once() {
    let candidates = vec![file("a/b/x.txt"), file("a/y.txt"), file("a/b/z.txt"), file("top")];
    let records: Vec<DirectoryRecord> = FileService::build_adjacency(&candidates);
    let listed: Vec<(String, Vec<usize>)> =
        records.iter().map(|r| (r.components.join("/"), r.files.clone())).collect();
    assert_eq!(
        listed,
        vec![
            ("".to_string(), vec![3]),
            ("a".to_string(), vec![1]),
            ("a/b".to_string(), vec![0, 2]),
        ]
    );
    assert!(FileService::build_adjacency(&vec![]).is_empty());
}

#[test]
fn tree_builder_takes_any_maps() {
    let leaf = |name: &str| FileNode {
        name: name.to_string(),
        path: name.to_string(),
        relative_path: name.to_string(),
        node_type: FileNodeType::File,
        size: 1,
        has_content: true,
        children: vec![],
        depth: 0,
    };
    let file_nodes = vec![Some(leaf("one")), None, Some(leaf("two"))];
    let file_map = vec![
        DirectoryRecord { components: strings(&["d"]), files: vec![2, 1, 7] },
        DirectoryRecord { components: vec![], files: vec![0] },
        DirectoryRecord { components: strings(&["d", "e"]), files: vec![] },
        DirectoryRecord { components: strings(&["x", "y"]), files: vec![0] },
    ];
    let tree = FileService::build_directory_tree("/data/project/", &file_nodes, &file_map);
    assert_eq!(tree.name, "project");
    assert_eq!(
        FileService::generate_tree_string(&tree, "", true),
        "└── project/\n    ├── d/\n    │   ├── e/\n    │   └── two\n    └── one\n"
    );
    let sub = FileService::build_lazy_directory_tree(&strings(&["d"]), &file_nodes, &file_map, "/r");
    assert_eq!(sub.name, "d");
    assert_eq!(sub.relative_path, "d");
    assert_eq!(sub.path, "/r/d");
    assert_eq!(sub.children.len(), 2);
    let root_without_name = FileService::build_directory_tree("..", &vec![], &vec![]);
    assert_eq!(root_without_name.name, "..");
}

#[test]
fn the_order_of_the_records_does_not_change_the_tree() {
    let candidates = vec![
        file("src/main.rs"),
        file("src/util/io.rs"),
        file("README.md"),
        file("docs/guide/intro.md"),
        file("src/lib.rs"),
    ];
    let compiled = PatternService::compile(&matcher(&[], &[], &[])).unwrap();
    let file_nodes: Vec<Option<FileNode>> = candidates
        .iter()
        .map(|c| Some(FileService::process_file_lazy(c, "/r", 1, &compiled, 10)))
        .collect();
    let records = FileService::build_adjacency(&candidates);
    let expected = FileService::generate_tree_string(
        &FileService::build_directory_tree("/r", &file_nodes, &records),
        "",
        true,
    );
    assert_eq!(
        expected,
        "└── r/
    ├── docs/
    │   └── guide/
    │       └── intro.md
    ├── src/
    │   ├── util/
    │   │   └── io.rs
    │   ├── lib.rs
    │   └── main.rs
    └── README.md
"
    );
    // Every rotation and the reversal of the records give the same text.
    let copy = |r: &DirectoryRecord| DirectoryRecord {
        components: r.components.clone(),
        files: r.files.clone(),
    };
    for shift in 0..records.len() {
        let mut rotated: Vec<DirectoryRecord> = records.iter().map(copy).collect();
        rotated.rotate_left(shift);
        let tree = FileService::build_directory_tree("/r", &file_nodes, &rotated);
        assert_eq!(FileService::generate_tree_string(&tree, "", true), expected);
        rotated.reverse();
        let tree = FileService::build_directory_tree("/r", &file_nodes, &rotated);
        assert_eq!(FileService::generate_tree_string(&tree, "", true), expected);
    }
}

#[test]
fn an_unreadable_root_is_fatal_and_an_unreadable_entry_is_not() {
    match FileService::walk_failure(0, "permission denied".to_string()) {
        Some(GitingestError::FileSystemError(message)) => assert_eq!(message, "permission denied"),
        other => panic!("expected a file system error, got {:?}", other),
    }
    assert!(FileService::walk_failure(1, "permission denied".to_string()).is_none());
    assert!(FileService::walk_failure(7, String::new()).is_none());
}

#[test]
fn plan_fails_on_a_malformed_pattern_before_anything_is_scanned() {
    let entries = vec![file("a.txt")];
    let bad = matcher(&[], &["[oops"], &[]);
    assert!(matches!(
        FileService::plan_scan(&entries, &bad, usize::MAX, u32::MAX),
        Err(GitingestError::PatternError(_))
    ));
}
