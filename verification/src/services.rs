//! The orchestrator's own decisions: the matcher of a request, the figures
//! and the summary of a digest, and the response that carries them.

use crate::config::AppConfig;
use crate::error::GitingestError;
use crate::models::{
    default_excludes, CloneConfig, FileNode, IngestRequest, IngestResponse, IngestStatus,
    MatcherView, PatternMatcher, PatternType, ProcessingResult, ProcessingStats, Repository,
};
use crate::text::{byte_len, decimal, push_decimal, texts};
use crate::utils::files::{
    capped, file_count, format_file_size, formatted_size, rendered, total_size, FileService,
};
use crate::utils::patterns::{
    matcher_compiles, optional_content, optional_gitignore_patterns, PatternService,
};
use crate::utils::scan::clone_strings;
use vstd::prelude::*;
use vstd::string::*;

verus! {

/// The texts of an optional list of patterns; none if the list is absent.
pub open spec fn optional_texts(list: Option<Vec<String>>) -> Seq<Seq<char>> {
    match list {
        Some(patterns) => texts(patterns@),
        None => Seq::empty(),
    }
}

/// The matcher that a request asks for, before it is checked: the default
/// exclusions, then the request's single pattern on the side that its type
/// names (the exclude side if it names none), then the request's two lists,
/// then the patterns of the root's gitignore file, if there is one.
pub open spec fn requested_matcher(request: IngestRequest, gitignore: Option<Seq<char>>) -> MatcherView {
    let single = match request.pattern {
        Some(pattern) => seq![pattern@],
        None => Seq::empty(),
    };
    let selects = request.pattern_type == Some(PatternType::Include);
    MatcherView {
        include_patterns: (if selects {
            single
        } else {
            Seq::empty()
        }) + optional_texts(request.include_patterns),
        exclude_patterns: default_excludes() + (if selects {
            Seq::empty()
        } else {
            single
        }) + optional_texts(request.exclude_patterns),
        gitignore_patterns: optional_gitignore_patterns(gitignore),
    }
}

/// The summary of a digest.
pub open spec fn summary_text(
    owner: Seq<char>,
    name: Seq<char>,
    files_count: nat,
    total_size: nat,
    host: Seq<char>,
) -> Seq<char> {
    "Repository: "@ + owner + "/"@ + name + "\nFiles processed: "@ + decimal(files_count)
        + "\nTotal size: "@ + formatted_size(total_size) + "\nHost: "@ + host
}

/// The orchestrator.
pub struct IngestService;

impl IngestService {
    /// Builds the matcher of a request and checks that its patterns are
    /// well formed. `gitignore` is the text of the gitignore file at the
    /// root of the scan, if there is such a file.
    pub fn build_matcher(request: &IngestRequest, gitignore: Option<&str>) -> (r: Result<
        PatternMatcher,
        GitingestError,
    >)
        ensures
            r is Ok <==> matcher_compiles(
                requested_matcher(*request, optional_content(gitignore)),
            ),
            r matches Ok(matcher) ==> matcher@ == requested_matcher(
                *request,
                optional_content(gitignore),
            ),
            r matches Err(e) ==> e is PatternError,
    {
        let mut matcher = PatternMatcher::default();
        let ghost defaults = matcher@;
        if let Some(pattern) = &request.pattern {
            let ghost before = matcher@;
            match request.pattern_type {
                Some(PatternType::Include) => {
                    matcher.include_patterns.push(pattern.clone());
                    assert(matcher@.include_patterns =~= before.include_patterns + seq![pattern@]);
                },
                Some(PatternType::Exclude) | None => {
                    matcher.exclude_patterns.push(pattern.clone());
                    assert(matcher@.exclude_patterns =~= before.exclude_patterns + seq![pattern@]);
                },
            }
        }
        if let Some(patterns) = &request.include_patterns {
            let ghost before = matcher.include_patterns@;
            let mut copies = clone_strings(patterns, patterns.len());
            let ghost added = copies@;
            assert(texts(patterns@).take(patterns.len() as int) =~= texts(patterns@));
            matcher.include_patterns.append(&mut copies);
            assert(texts(before + added) =~= texts(before) + texts(added));
        }
        if let Some(patterns) = &request.exclude_patterns {
            let ghost before = matcher.exclude_patterns@;
            let mut copies = clone_strings(patterns, patterns.len());
            let ghost added = copies@;
            assert(texts(patterns@).take(patterns.len() as int) =~= texts(patterns@));
            matcher.exclude_patterns.append(&mut copies);
            assert(texts(before + added) =~= texts(before) + texts(added));
        }
        PatternService::add_gitignore_patterns(&mut matcher, gitignore);
        proof {
            let wanted = requested_matcher(*request, optional_content(gitignore));
            assert(matcher@.include_patterns =~= wanted.include_patterns);
            assert(matcher@.exclude_patterns =~= wanted.exclude_patterns);
            assert(matcher@.gitignore_patterns =~= wanted.gitignore_patterns);
        }
        match PatternService::compile(&matcher) {
            Ok(_) => Ok(matcher),
            Err(e) => Err(e),
        }
    }

    /// The largest file whose content belongs in the digest: what the
    /// request says, else what the configuration says.
    pub fn effective_max_file_size(request: &IngestRequest, config: &AppConfig) -> (limit: u64)
        ensures
            limit == match request.max_file_size {
                Some(size) => size,
                None => config.max_file_size,
            },
    {
        match request.max_file_size {
            Some(size) => size,
            None => config.max_file_size,
        }
    }

    /// What the clone step is asked to do for a request.
    pub fn clone_config(request: &IngestRequest, repository: &Repository, local_path: String) -> (config:
        CloneConfig)
        ensures
            config.url@ == repository.url@,
            config.local_path@ == local_path@,
            config.branch == (match request.branch {
                Some(branch) => Some(branch),
                None => repository.branch,
            }),
            config.commit == repository.commit,
            config.subpath@ == repository.subpath@,
            config.include_submodules == (request.include_submodules == Some(true)),
            config.token == request.token,
    {
        CloneConfig {
            url: repository.url.clone(),
            local_path,
            branch: match &request.branch {
                Some(branch) => Some(branch.clone()),
                None => repository.branch.clone(),
            },
            commit: repository.commit.clone(),
            subpath: repository.subpath.clone(),
            include_submodules: match request.include_submodules {
                Some(flag) => flag,
                None => false,
            },
            token: request.token.clone(),
        }
    }

    /// Writes the summary of a digest.
    pub fn generate_summary(repository: &Repository, files_count: usize, total_size: u64) -> (text:
        String)
        ensures
            text@ == summary_text(
                repository.owner@,
                repository.name@,
                files_count as nat,
                total_size as nat,
                repository.host@,
            ),
    {
        let mut text = String::from_str("Repository: ");
        text.append(repository.owner.as_str());
        text.append("/");
        text.append(repository.name.as_str());
        text.append("\nFiles processed: ");
        push_decimal(&mut text, files_count as u64);
        text.append("\nTotal size: ");
        text.append(format_file_size(total_size).as_str());
        text.append("\nHost: ");
        text.append(repository.host.as_str());
        text
    }

    /// The short name of a repository: its owner and its name.
    pub fn create_short_url(repository: &Repository) -> (text: String)
        ensures
            text@ == repository.owner@ + "/"@ + repository.name@,
    {
        let mut text = repository.owner.clone();
        text.append("/");
        text.append(repository.name.as_str());
        text
    }

    /// A rough count of the tokens of a text: a quarter of its length in
    /// bytes.
    pub fn estimate_tokens(content: &str) -> (tokens: Option<usize>)
        ensures
            tokens == Some((byte_len(content@) / 4) as usize),
    {
        Some(content.len() / 4)
    }

    /// Counts the files of a tree.
    pub fn count_files_lazy(node: &FileNode) -> (count: usize)
        ensures
            count == capped(file_count(node@), usize::MAX as nat),
    {
        FileService::count_files(node)
    }

    /// Adds up the sizes of the files of a tree.
    pub fn calculate_total_size_lazy(node: &FileNode) -> (size: u64)
        ensures
            size == capped(total_size(node@), u64::MAX as nat),
    {
        FileService::calculate_total_size(node)
    }

    /// Puts a digest together: the rendered tree, the content as it was
    /// read back, the figures of the tree and the summary.
    pub fn build_result(
        repository: &Repository,
        tree: &FileNode,
        content: String,
        processing_time_ms: u64,
    ) -> (result: ProcessingResult)
        ensures
            result.tree@ == rendered(tree@, Seq::empty(), true),
            result.content@ == content@,
            result.stats.files_analyzed == capped(file_count(tree@), usize::MAX as nat),
            result.stats.total_size_bytes == capped(total_size(tree@), u64::MAX as nat),
            result.stats.estimated_tokens == Some((byte_len(content@) / 4) as usize),
            result.stats.processing_time_ms == processing_time_ms,
            result.summary@ == summary_text(
                repository.owner@,
                repository.name@,
                result.stats.files_analyzed as nat,
                result.stats.total_size_bytes as nat,
                repository.host@,
            ),
    {
        let empty = String::new();
        let tree_text = FileService::generate_tree_string_lazy(tree, empty.as_str(), true);
        let files_analyzed = Self::count_files_lazy(tree);
        let total_size_bytes = Self::calculate_total_size_lazy(tree);
        let estimated_tokens = Self::estimate_tokens(content.as_str());
        ProcessingResult {
            summary: Self::generate_summary(repository, files_analyzed, total_size_bytes),
            tree: tree_text,
            content,
            stats: ProcessingStats {
                files_analyzed,
                total_size_bytes,
                estimated_tokens,
                processing_time_ms,
            },
        }
    }

    /// The response of a run that came to its end.
    pub fn build_response(id: uuid::Uuid, repository: &Repository, result: ProcessingResult) -> (response:
        IngestResponse)
        ensures
            response.id == id,
            response.repo_url@ == repository.url@,
            response.short_repo_url@ == repository.owner@ + "/"@ + repository.name@,
            response.summary@ == result.summary@,
            response.digest_url is None,
            response.tree@ == result.tree@,
            response.content@ == result.content@,
            response.status == IngestStatus::Completed,
    {
        IngestResponse {
            id,
            repo_url: repository.url.clone(),
            short_repo_url: Self::create_short_url(repository),
            summary: result.summary,
            digest_url: None,
            tree: result.tree,
            content: result.content,
            status: IngestStatus::Completed,
        }
    }
}

} // verus!
