use gitingest::{
    AppConfig, DownloadFormat, FileNode, FileNodeType, FileSystemStats, GitService,
    GitingestError, IngestRequest, IngestService, IngestStatus, PatternType, Repository,
};

fn repository() -> Repository {
    Repository {
        url: "https://github.com/owner/repo".to_string(),
        host: "github.com".to_string(),
        owner: "owner".to_string(),
        name: "repo".to_string(),
        branch: Some("main".to_string()),
        commit: None,
        subpath: String::new(),
    }
}

fn request() -> IngestRequest {
    IngestRequest {
        input_text: "owner/repo".to_string(),
        max_file_size: None,
        max_files: None,
        pattern_type: None,
        pattern: None,
        include_patterns: None,
        exclude_patterns: None,
        token: None,
        branch: None,
        include_submodules: None,
        download_format: Some(DownloadFormat::Text),
    }
}

fn file(name: &str, size: u64) -> FileNode {
    FileNode {
        name: name.to_string(),
        path: name.to_string(),
        relative_path: name.to_string(),
        node_type: FileNodeType::File,
        size,
        has_content: true,
        children: vec![],
        depth: 1,
    }
}

fn tree() -> FileNode {
    FileNode {
        name: "repo".to_string(),
        path: "/tmp/repo".to_string(),
        relative_path: String::new(),
        node_type: FileNodeType::Directory,
        size: 0,
        has_content: false,
        children: vec![file("a.txt", 1000), file("b.txt", 536)],
        depth: 0,
    }
}

#[test]
fn summary_text() {
    assert_eq!(
        IngestService::generate_summary(&repository(), 12, 1536),
        "Repository: owner/repo\nFiles processed: 12\nTotal size: 1.5 KB\nHost: github.com"
    );
    assert_eq!(IngestService::create_short_url(&repository()), "owner/repo");
}

#[test]
fn tokens_are_a_quarter_of_the_bytes() {
    assert_eq!(IngestService::estimate_tokens(""), Some(0));
    assert_eq!(IngestService::estimate_tokens("abc"), Some(0));
    assert_eq!(IngestService::estimate_tokens("abcd"), Some(1));
    assert_eq!(IngestService::estimate_tokens("abcdefghi"), Some(2));
    // Bytes are counted, not characters.
    assert_eq!(IngestService::estimate_tokens("\u{e4}\u{f6}\u{fc}\u{df}"), Some(2));
}

#[test]
fn result_and_response() {
    let result = IngestService::build_result(&repository(), &tree(), "12345678".to_string(), 42);
    assert_eq!(result.tree, "└── repo/\n    ├── a.txt\n    └── b.txt\n");
    assert_eq!(result.content, "12345678");
    assert_eq!(result.stats.files_analyzed, 2);
    assert_eq!(result.stats.total_size_bytes, 1536);
    assert_eq!(result.stats.estimated_tokens, Some(2));
    assert_eq!(result.stats.processing_time_ms, 42);
    assert_eq!(
        result.summary,
        "Repository: owner/repo\nFiles processed: 2\nTotal size: 1.5 KB\nHost: github.com"
    );
    let id = uuid::Uuid::from_u128(7);
    let response = IngestService::build_response(id, &repository(), result.clone());
    assert_eq!(response.id, id);
    assert_eq!(response.repo_url, "https://github.com/owner/repo");
    assert_eq!(response.short_repo_url, "owner/repo");
    assert_eq!(response.summary, result.summary);
    assert_eq!(response.digest_url, None);
    assert_eq!(response.tree, result.tree);
    assert_eq!(response.content, "12345678");
    assert_eq!(response.status, IngestStatus::Completed);
    let copy = response.clone();
    assert_eq!(copy.id, id);
    assert_eq!(copy.tree, response.tree);
}

#[test]
fn matcher_of_a_request() {
    let defaults = gitingest::default_exclude_patterns();
    let plain = IngestService::build_matcher(&request(), None).unwrap();
    assert!(plain.include_patterns.is_empty());
    assert_eq!(plain.exclude_patterns, defaults);
    assert!(plain.gitignore_patterns.is_empty());

    let mut selecting = request();
    selecting.pattern = Some("*.rs".to_string());
    selecting.pattern_type = Some(PatternType::Include);
    selecting.include_patterns = Some(vec!["*.md".to_string()]);
    selecting.exclude_patterns = Some(vec!["docs/**".to_string()]);
    let matcher = IngestService::build_matcher(&selecting, Some("out/\n# c\n!x\n")).unwrap();
    assert_eq!(matcher.include_patterns, vec!["*.rs".to_string(), "*.md".to_string()]);
    let mut expected = defaults.clone();
    expected.push("docs/**".to_string());
    assert_eq!(matcher.exclude_patterns, expected);
    assert_eq!(matcher.gitignore_patterns, vec!["out/**".to_string()]);

    let mut rejecting = request();
    rejecting.pattern = Some("*.lock".to_string());
    for pattern_type in [None, Some(PatternType::Exclude)] {
        rejecting.pattern_type = pattern_type;
        let matcher = IngestService::build_matcher(&rejecting, None).unwrap();
        assert!(matcher.include_patterns.is_empty());
        let mut expected = defaults.clone();
        expected.push("*.lock".to_string());
        assert_eq!(matcher.exclude_patterns, expected);
    }

    let mut broken = request();
    broken.pattern = Some("[a".to_string());
    assert!(matches!(
        IngestService::build_matcher(&broken, None),
        Err(GitingestError::PatternError(_))
    ));
    assert!(matches!(
        IngestService::build_matcher(&request(), Some("ok\n{broken\n")),
        Err(GitingestError::PatternError(_))
    ));
}

#[test]
fn limits_and_clone_settings() {
    let config = AppConfig::default();
    assert_eq!(config.host, "0.0.0.0");
    assert_eq!(config.port, 8080);
    assert_eq!(config.max_file_size, u64::MAX);
    assert_eq!(config.max_files, usize::MAX);
    assert_eq!(config.max_total_size, u64::MAX);
    assert_eq!(config.max_directory_depth, u32::MAX);
    assert_eq!(config.default_timeout, 60);
    assert_eq!(config.temp_dir, "/tmp/fast-gitingest");
    assert_eq!(config.github_token, None);
    assert_eq!(config.allowed_hosts, vec!["github.com", "gitlab.com", "bitbucket.org"]);
    assert_eq!(config.concurrent_file_limit, 1000);
    assert_eq!(config.batch_size, 500);

    let mut asked = request();
    assert_eq!(IngestService::effective_max_file_size(&asked, &config), u64::MAX);
    asked.max_file_size = Some(2048);
    assert_eq!(IngestService::effective_max_file_size(&asked, &config), 2048);

    let clone = IngestService::clone_config(&asked, &repository(), "/tmp/x/repo".to_string());
    assert_eq!(clone.url, "https://github.com/owner/repo");
    assert_eq!(clone.local_path, "/tmp/x/repo");
    assert_eq!(clone.branch, Some("main".to_string()));
    assert_eq!(clone.commit, None);
    assert!(!clone.include_submodules);
    assert_eq!(clone.token, None);
    asked.branch = Some("dev".to_string());
    asked.include_submodules = Some(true);
    asked.token = Some("t".to_string());
    let clone = IngestService::clone_config(&asked, &repository(), "p".to_string());
    assert_eq!(clone.branch, Some("dev".to_string()));
    assert!(clone.include_submodules);
    assert_eq!(clone.token, Some("t".to_string()));

    let stats = FileSystemStats::default();
    assert_eq!(
        (stats.total_files, stats.total_size, stats.processed_files, stats.skipped_files),
        (0, 0, 0, 0)
    );
}

#[test]
fn github_token_forms() {
    let classic = format!("ghp_{}", "a".repeat(36));
    let fine_grained = format!("github_pat_{}", "b".repeat(82));
    assert!(GitService::validate_github_token(&classic).is_ok());
    assert!(GitService::validate_github_token(&fine_grained).is_ok());
    for bad in [
        "",
        "ghp_",
        "ghp_short",
        &format!("ghp_{}", "a".repeat(37)),
        &format!("gho_{}", "a".repeat(36)),
        &format!("github_pat_{}", "b".repeat(81)),
        &format!("xghp_{}", "a".repeat(35)),
        &format!("ghp_{}", "\u{e4}".repeat(36)),
    ] {
        match GitService::validate_github_token(bad) {
            Err(GitingestError::TokenValidationError(message)) => {
                assert_eq!(message, "Invalid GitHub token format")
            }
            other => panic!("{:?} accepted: {:?}", bad, other),
        }
    }
    // Eighteen two-byte letters make 36 bytes.
    assert!(GitService::validate_github_token(&format!("ghp_{}", "\u{e4}".repeat(18))).is_ok());
}

#[test]
fn error_messages() {
    assert_eq!(
        GitingestError::PatternError("bad".to_string()).message(),
        "Pattern matching error: bad"
    );
    assert_eq!(
        GitingestError::TimeoutError(60).message(),
        "Timeout error: operation timed out after 60 seconds"
    );
    assert_eq!(
        GitingestError::RepositoryNotFound("x/y".to_string()).message(),
        "Repository not found: x/y"
    );
    assert_eq!(
        GitingestError::InvalidRepositoryUrl("u".to_string()).message(),
        "Invalid repository URL: u"
    );
    assert_eq!(GitingestError::GitOperationFailed("g".to_string()).message(), "Git operation failed: g");
    assert_eq!(GitingestError::FileSystemError("f".to_string()).message(), "File system error: f");
    assert_eq!(GitingestError::IoError("i".to_string()).message(), "IO error: i");
    assert_eq!(GitingestError::HttpError("h".to_string()).message(), "HTTP client error: h");
    assert_eq!(GitingestError::JsonError("j".to_string()).message(), "JSON parsing error: j");
    assert_eq!(GitingestError::UrlParseError("p".to_string()).message(), "URL parsing error: p");
    assert_eq!(
        GitingestError::TokenValidationError("t".to_string()).message(),
        "Token validation error: t"
    );
    assert_eq!(GitingestError::ConfigError("c".to_string()).message(), "Configuration error: c");
    assert_eq!(GitingestError::ValidationError("v".to_string()).message(), "Validation error: v");
    assert_eq!(GitingestError::InternalError("e".to_string()).message(), "Internal server error: e");
}
