use gitingest::text::{push_decimal, str_lt};
use gitingest::utils::order::{node_precedes, sort_children};
use gitingest::{format_file_size, FileNode, FileNodeType, FileService};

fn node(name: &str, kind: FileNodeType, size: u64, children: Vec<FileNode>) -> FileNode {
    FileNode {
        name: name.to_string(),
        path: format!("/repo/{}", name),
        relative_path: name.to_string(),
        node_type: kind,
        size,
        has_content: kind == FileNodeType::File,
        children,
        depth: 0,
    }
}

fn file(name: &str, size: u64) -> FileNode {
    node(name, FileNodeType::File, size, vec![])
}

fn dir(name: &str, children: Vec<FileNode>) -> FileNode {
    node(name, FileNodeType::Directory, 0, children)
}

fn link(name: &str) -> FileNode {
    node(name, FileNodeType::Symlink, 0, vec![])
}

fn names(nodes: &[FileNode]) -> Vec<String> {
    nodes.iter().map(|n| n.name.clone()).collect()
}

#[test]
fn test_file_size_formatting() {
    assert_eq!(format_file_size(500), "500 B");
    assert_eq!(format_file_size(1024), "1.0 KB");
    assert_eq!(format_file_size(1536), "1.5 KB");
    assert_eq!(format_file_size(1048576), "1.0 MB");
}

#[test]
fn file_size_formatting_matches_float_formatting() {
    let units = ["B", "KB", "MB", "GB", "TB"];
    let samples: [u64; 24] = [
        0,
        1,
        1023,
        1024,
        1025,
        1075,
        1076,
        1077,
        1126,
        1127,
        1280,
        1792,
        10_000,
        1_048_575,
        1_048_576,
        1_100_000,
        123_456_789,
        1_073_741_823,
        1_073_741_824,
        5_000_000_000,
        1_099_511_627_775,
        1_099_511_627_776,
        123_456_789_012_345,
        9_007_199_254_740_991,
    ];
    for bytes in samples {
        let mut size = bytes as f64;
        let mut unit = 0;
        while size >= 1024.0 && unit < units.len() - 1 {
            size /= 1024.0;
            unit += 1;
        }
        let expected = if unit == 0 {
            format!("{} {}", bytes, units[unit])
        } else {
            format!("{:.1} {}", size, units[unit])
        };
        assert_eq!(format_file_size(bytes), expected);
    }
}

#[test]
fn file_size_formatting_edges() {
    assert_eq!(format_file_size(0), "0 B");
    assert_eq!(format_file_size(1023), "1023 B");
    // A value halfway between two tenths goes to the even tenth.
    assert_eq!(format_file_size(1280), "1.2 KB");
    assert_eq!(format_file_size(1024 + 51 + 102), "1.1 KB");
    assert_eq!(format_file_size(1_048_575), "1024.0 KB");
    assert_eq!(format_file_size(1_073_741_824), "1.0 GB");
    assert_eq!(format_file_size(1_099_511_627_776), "1.0 TB");
    assert_eq!(format_file_size(u64::MAX), "16777216.0 TB");
}

#[test]
fn decimal_digits() {
    for n in [0u64, 7, 10, 99, 100, 12345, 1_000_000, u64::MAX] {
        let mut out = String::from("n=");
        push_decimal(&mut out, n);
        assert_eq!(out, format!("n={}", n));
    }
}

#[test]
fn names_are_ordered_like_strings() {
    let samples = ["", "a", "A", "ab", "b", "B", "ä", "z", "Z", "a/b", "a.b", "a b", "10", "9", "日本"];
    for a in samples {
        for b in samples {
            assert_eq!(str_lt(a, b), a < b, "{:?} < {:?}", a, b);
        }
    }
}

#[test]
fn directories_stand_before_files() {
    let d = dir("zeta", vec![]);
    let f = file("alpha", 1);
    let l = link("beta");
    assert!(node_precedes(&d, &f));
    assert!(!node_precedes(&f, &d));
    assert!(node_precedes(&d, &l));
    assert!(node_precedes(&f, &l));
    assert!(!node_precedes(&l, &f));
    assert!(!node_precedes(&f, &f));
}

#[test]
fn children_are_sorted_directories_first_then_by_name() {
    let sorted = sort_children(vec![
        file("b.txt", 1),
        dir("zoo", vec![]),
        file("a.txt", 1),
        dir("app", vec![]),
        link("c"),
        file("B.txt", 1),
        dir("Lib", vec![]),
    ]);
    assert_eq!(names(&sorted), vec!["Lib", "app", "zoo", "B.txt", "a.txt", "b.txt", "c"]);
    assert!(sort_children(vec![]).is_empty());
}

#[test]
fn sorting_keeps_equal_names_in_their_order() {
    let sorted = sort_children(vec![file("same", 1), file("same", 2), file("same", 3)]);
    let sizes: Vec<u64> = sorted.iter().map(|n| n.size).collect();
    assert_eq!(sizes, vec![1, 2, 3]);
}

#[test]
fn tree_rendering() {
    let tree = dir(
        "repo",
        vec![
            dir("src", vec![file("lib.rs", 10), file("main.rs", 20)]),
            dir("empty", vec![]),
            file("README.md", 5),
            link("latest"),
        ],
    );
    let expected = "\
└── repo/
    ├── src/
    │   ├── lib.rs
    │   └── main.rs
    ├── empty/
    ├── README.md
    └── latest -> ?
";
    assert_eq!(FileService::generate_tree_string(&tree, "", true), expected);
    assert_eq!(FileService::generate_tree_string_lazy(&tree, "", true), expected);
}

#[test]
fn tree_rendering_with_prefix_and_middle_sibling() {
    let tree = dir("d", vec![file("f", 1)]);
    assert_eq!(FileService::generate_tree_string(&tree, "> ", false), "> ├── d/\n> │   └── f\n");
    assert_eq!(FileService::generate_tree_string(&file("x", 1), "", false), "├── x\n");
    // Children of a node that is not a directory are never drawn.
    let odd = node("odd", FileNodeType::File, 1, vec![file("hidden", 1)]);
    assert_eq!(FileService::generate_tree_string(&odd, "", true), "└── odd\n");
}

#[test]
fn rendering_does_not_tell_all_trees_apart() {
    let mut a = file("notes.txt", 10);
    let mut b = file("notes.txt", 99_999);
    a.relative_path = "one/notes.txt".to_string();
    b.relative_path = "two/notes.txt".to_string();
    b.has_content = false;
    assert_eq!(
        FileService::generate_tree_string(&a, "", true),
        FileService::generate_tree_string(&b, "", true)
    );
}

#[test]
fn counting_files_and_sizes() {
    let tree = dir(
        "repo",
        vec![
            dir("src", vec![file("lib.rs", 10), file("main.rs", 20), link("l")]),
            dir("empty", vec![]),
            file("README.md", 5),
        ],
    );
    assert_eq!(FileService::count_files(&tree), 3);
    assert_eq!(FileService::calculate_total_size(&tree), 35);
    assert_eq!(FileService::count_files(&link("l")), 0);
    assert_eq!(FileService::calculate_total_size(&link("l")), 0);
    assert_eq!(FileService::count_files(&file("f", 7)), 1);
    assert_eq!(FileService::calculate_total_size(&file("f", 7)), 7);
    assert_eq!(FileService::count_files(&dir("d", vec![])), 0);
}

#[test]
fn total_size_stops_at_the_largest_number() {
    let tree = dir("big", vec![file("a", u64::MAX - 1), file("b", 5), file("c", 1)]);
    assert_eq!(FileService::calculate_total_size(&tree), u64::MAX);
}

#[test]
fn clone_copies_the_whole_subtree() {
    let tree = dir("repo", vec![dir("src", vec![file("lib.rs", 10)]), file("x", 1)]);
    let copy = tree.clone();
    assert_eq!(
        FileService::generate_tree_string(&copy, "", true),
        FileService::generate_tree_string(&tree, "", true)
    );
    assert_eq!(copy.children[0].children[0].size, 10);
    assert_eq!(copy.children[0].children[0].path, "/repo/lib.rs");
}
