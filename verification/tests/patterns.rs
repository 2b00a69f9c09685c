use gitingest::text::split;
use gitingest::{
    default_exclude_patterns, is_binary_file, normalize_pattern, GitingestError, PatternMatcher,
    PatternService,
};

fn strings(items: &[&str]) -> Vec<String> {
    items.iter().map(|s| s.to_string()).collect()
}

#[test]
fn test_pattern_matching() {
    let matcher = PatternMatcher {
        include_patterns: vec!["*.rs".to_string()],
        exclude_patterns: vec!["target/**".to_string()],
        gitignore_patterns: vec![],
    };

    assert!(PatternService::should_include_file(&matcher, "src/main.rs").unwrap());
    assert!(!PatternService::should_include_file(&matcher, "target/debug/main").unwrap());
    assert!(!PatternService::should_include_file(&matcher, "README.md").unwrap());
}

#[test]
fn test_binary_file_detection() {
    assert!(is_binary_file("test.exe"));
    assert!(is_binary_file("image.png"));
    assert!(!is_binary_file("source.rs"));
    assert!(!is_binary_file("README.md"));
}

#[test]
fn binary_detection_looks_at_the_last_extension_only() {
    assert!(is_binary_file("archive.tar.gz"));
    assert!(is_binary_file("dir.d/photo.JPG"));
    assert!(is_binary_file("a/b/c/Movie.Mp4"));
    assert!(!is_binary_file("notes.exe.txt"));
    assert!(!is_binary_file("exe"));
    assert!(!is_binary_file(".exe"));
    assert!(!is_binary_file("dir.png/readme"));
    assert!(!is_binary_file(""));
    assert!(!is_binary_file(".."));
    assert!(!is_binary_file("name."));
    assert!(is_binary_file("lib.a"));
    assert!(is_binary_file("x.7z"));
    assert!(is_binary_file("target/out.bin"));
    assert!(is_binary_file("firmware.BIN"));
    assert!(!is_binary_file("bin"));
    assert!(!is_binary_file("bin/tool"));
}

#[test]
fn exclusion_wins_over_inclusion() {
    let matcher = PatternMatcher {
        include_patterns: strings(&["**/*.rs"]),
        exclude_patterns: strings(&["target/**"]),
        gitignore_patterns: strings(&["generated/**"]),
    };
    assert!(PatternService::should_include_file(&matcher, "src/lib.rs").unwrap());
    assert!(!PatternService::should_include_file(&matcher, "target/build.rs").unwrap());
    assert!(!PatternService::should_include_file(&matcher, "generated/api.rs").unwrap());
}

#[test]
fn empty_include_list_selects_everything() {
    let matcher = PatternMatcher {
        include_patterns: vec![],
        exclude_patterns: strings(&["*.log"]),
        gitignore_patterns: vec![],
    };
    assert!(PatternService::should_include_file(&matcher, "README.md").unwrap());
    assert!(PatternService::should_include_file(&matcher, "src/deep/er/file.c").unwrap());
    assert!(!PatternService::should_include_file(&matcher, "debug.log").unwrap());
}

#[test]
fn directories_ignore_include_patterns() {
    let matcher = PatternMatcher {
        include_patterns: strings(&["*.rs"]),
        exclude_patterns: strings(&["target/", "node_modules/"]),
        gitignore_patterns: strings(&["src"]),
    };
    assert!(PatternService::should_include_directory(&matcher, "src").unwrap());
    assert!(PatternService::should_include_directory(&matcher, "docs").unwrap());
    assert!(!PatternService::should_include_directory(&matcher, "target").unwrap());
    assert!(!PatternService::should_include_directory(&matcher, "node_modules").unwrap());
}

#[test]
fn malformed_pattern_is_a_pattern_error() {
    let matcher = PatternMatcher {
        include_patterns: strings(&["[unclosed"]),
        exclude_patterns: vec![],
        gitignore_patterns: vec![],
    };
    match PatternService::should_include_file(&matcher, "a.txt") {
        Err(GitingestError::PatternError(message)) => {
            assert!(message.starts_with("Invalid glob pattern '[unclosed': "));
        }
        other => panic!("expected a pattern error, got {:?}", other),
    }
    let bad_exclude = PatternMatcher {
        include_patterns: vec![],
        exclude_patterns: strings(&["{a,b"]),
        gitignore_patterns: vec![],
    };
    assert!(matches!(
        PatternService::should_include_directory(&bad_exclude, "src"),
        Err(GitingestError::PatternError(_))
    ));
}

#[test]
fn a_list_is_compiled_only_when_the_query_reaches_it() {
    // The include list already rejects the path, so the malformed exclude
    // list is never compiled.
    let matcher = PatternMatcher {
        include_patterns: strings(&["*.rs"]),
        exclude_patterns: strings(&["[unclosed"]),
        gitignore_patterns: vec![],
    };
    assert!(!PatternService::should_include_file(&matcher, "README.md").unwrap());
    assert!(PatternService::should_include_file(&matcher, "main.rs").is_err());
}

#[test]
fn new_matcher_refuses_malformed_patterns() {
    let ok = PatternService::new_matcher(strings(&["*.rs"]), strings(&["target/**"])).unwrap();
    assert_eq!(ok.include_patterns, strings(&["*.rs"]));
    assert_eq!(ok.exclude_patterns, strings(&["target/**"]));
    assert!(ok.gitignore_patterns.is_empty());
    assert!(matches!(
        PatternService::new_matcher(strings(&["*.rs"]), strings(&["[z-a]"])),
        Err(GitingestError::PatternError(_))
    ));
    assert!(matches!(
        PatternService::new_matcher(strings(&["a{b"]), vec![]),
        Err(GitingestError::PatternError(_))
    ));
    assert!(PatternService::new_matcher(vec![], vec![]).is_ok());
}

#[test]
fn compiled_matcher_answers_like_the_service() {
    let matcher = PatternMatcher {
        include_patterns: strings(&["*.rs", "*.md"]),
        exclude_patterns: strings(&["target/**", "vendor/"]),
        gitignore_patterns: strings(&["*.tmp.rs"]),
    };
    let compiled = PatternService::compile(&matcher).unwrap();
    for path in ["src/main.rs", "README.md", "target/x.rs", "a.tmp.rs", "notes.txt"] {
        assert_eq!(
            compiled.includes_file(path),
            PatternService::should_include_file(&matcher, path).unwrap()
        );
    }
    for path in ["src", "target", "vendor", "vendor/sub"] {
        assert_eq!(
            compiled.includes_directory(path),
            PatternService::should_include_directory(&matcher, path).unwrap()
        );
    }
    assert!(!compiled.includes_directory("vendor"));
    assert!(compiled.includes_directory("vendor/sub"));
}

#[test]
fn normalize_pattern_examples() {
    assert_eq!(normalize_pattern("src\\lib\\*.rs"), "src/lib/*.rs");
    assert_eq!(normalize_pattern("build/"), "build/**");
    assert_eq!(normalize_pattern("build\\"), "build/**");
    assert_eq!(normalize_pattern("*.log"), "*.log");
    assert_eq!(normalize_pattern(""), "");
    assert_eq!(normalize_pattern("/"), "/**");
}

#[test]
fn gitignore_lines_are_filtered_and_widened() {
    let content = "# build output\n\n  target/  \n!keep.me\n*.log\r\n\t\n docs/generated/\n#x\nlast";
    assert_eq!(
        PatternService::parse_gitignore(content),
        strings(&["target/**", "*.log", "docs/generated/**", "last"])
    );
    assert!(PatternService::parse_gitignore("").is_empty());
    assert!(PatternService::parse_gitignore("\n\n#only comments\n!negated\n").is_empty());
}

#[test]
fn negated_gitignore_lines_do_not_bring_files_back() {
    let mut matcher = PatternMatcher {
        include_patterns: vec![],
        exclude_patterns: vec![],
        gitignore_patterns: strings(&["first"]),
    };
    PatternService::add_gitignore_patterns(&mut matcher, Some("*.log\n!important.log\nbuild/\n"));
    assert_eq!(matcher.gitignore_patterns, strings(&["first", "*.log", "build/**"]));
    assert!(matcher.include_patterns.is_empty());
    assert!(matcher.exclude_patterns.is_empty());
    assert!(!PatternService::should_include_file(&matcher, "important.log").unwrap());
    assert!(!PatternService::should_include_file(&matcher, "build/out/a.o").unwrap());
    assert!(PatternService::should_include_file(&matcher, "src/a.c").unwrap());
}

#[test]
fn a_missing_gitignore_file_leaves_the_matcher_as_it_is() {
    let mut matcher = PatternMatcher {
        include_patterns: strings(&["*.rs"]),
        exclude_patterns: strings(&["target/"]),
        gitignore_patterns: strings(&["first"]),
    };
    PatternService::add_gitignore_patterns(&mut matcher, None);
    assert_eq!(matcher.include_patterns, strings(&["*.rs"]));
    assert_eq!(matcher.exclude_patterns, strings(&["target/"]));
    assert_eq!(matcher.gitignore_patterns, strings(&["first"]));
    // A file that is there and empty adds nothing either.
    PatternService::add_gitignore_patterns(&mut matcher, Some(""));
    assert_eq!(matcher.gitignore_patterns, strings(&["first"]));
}

#[test]
fn default_matcher_has_the_default_exclusions() {
    let matcher = PatternMatcher::default();
    assert!(matcher.include_patterns.is_empty());
    assert!(matcher.gitignore_patterns.is_empty());
    assert_eq!(matcher.exclude_patterns, default_exclude_patterns());
    let defaults = default_exclude_patterns();
    assert_eq!(defaults.len(), 31);
    assert_eq!(defaults[0], ".git");
    assert_eq!(defaults[3], "target/");
    assert_eq!(defaults[30], "*.wav");
    assert!(!PatternService::should_include_directory(&matcher, "target").unwrap());
    assert!(!PatternService::should_include_directory(&matcher, ".git").unwrap());
    assert!(!PatternService::should_include_file(&matcher, "photo.png").unwrap());
    assert!(PatternService::should_include_file(&matcher, "src/main.rs").unwrap());
}

#[test]
fn split_keeps_empty_pieces() {
    assert_eq!(split("a/b/c", '/'), strings(&["a", "b", "c"]));
    assert_eq!(split("/a//b/", '/'), strings(&["", "a", "", "b", ""]));
    assert_eq!(split("", '/'), strings(&[""]));
    assert_eq!(split("no separator", '/'), strings(&["no separator"]));
}
