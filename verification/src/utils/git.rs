//! What the crate itself decides about the clone step.

use crate::error::GitingestError;
use crate::models::{optional_text, CloneConfig, Repository, RepositoryView};
use crate::text::{byte_len, chars_of, replace_all, replaced, texts};
use crate::utils::url_parser::{
    is_result, parse_url_text, repository_from, repository_of, url_parsing,
};
use vstd::prelude::*;
use vstd::string::*;

verus! {

/// Whether `text` begins with `prefix`.
pub open spec fn starts_with(text: Seq<char>, prefix: Seq<char>) -> bool {
    prefix.len() <= text.len() && text.take(prefix.len() as int) == prefix
}

/// Whether a text has the form of a GitHub token: a classic token begins
/// with `ghp_` and is 40 bytes long, a fine-grained one begins with
/// `github_pat_` and is 93 bytes long.
pub open spec fn is_github_token(token: Seq<char>) -> bool {
    ||| starts_with(token, "ghp_"@) && byte_len(token) == 40
    ||| starts_with(token, "github_pat_"@) && byte_len(token) == 93
}

/// Whether `text` begins with `prefix`.
pub fn has_prefix(text: &str, prefix: &str) -> (r: bool)
    ensures
        r == starts_with(text@, prefix@),
{
    let chars = chars_of(text);
    let wanted = chars_of(prefix);
    if wanted.len() > chars.len() {
        return false;
    }
    let mut i: usize = 0;
    while i < wanted.len()
        invariant
            i <= wanted.len() <= chars.len(),
            chars@ == text@,
            wanted@ == prefix@,
            forall|k: int| 0 <= k < i ==> chars@[k] == wanted@[k],
        decreases wanted.len() - i,
    {
        if chars[i] != wanted[i] {
            assert(text@.take(prefix@.len() as int)[i as int] != prefix@[i as int]);
            return false;
        }
        i = i + 1;
    }
    assert(text@.take(prefix@.len() as int) =~= prefix@);
    true
}

/// The URL that is handed to git: with a token, every `https://` of the
/// repository's URL is followed by the token and an `@`.
pub open spec fn clone_url(url: Seq<char>, token: Option<Seq<char>>) -> Seq<char> {
    match token {
        Some(token) => replaced(url, "https://"@, "https://"@ + token + "@"@),
        None => url,
    }
}

/// The arguments of the git command that makes a shallow clone: depth one,
/// a single branch, quiet; the branch if one is asked for; the URL and the
/// place to clone into.
pub open spec fn clone_arguments_of(config: CloneConfig) -> Seq<Seq<char>> {
    seq!["clone"@, "--depth=1"@, "--single-branch"@, "--quiet"@] + (match config.branch {
        Some(branch) => seq!["--branch"@, branch@],
        None => Seq::empty(),
    }) + seq![clone_url(config.url@, optional_text(config.token)), config.local_path@]
}

/// What `parse_repository_url` makes of a text: the repository that the
/// parsed URL names, where only `tree` leads on to a branch; a text that is
/// no URL is refused under its own name.
pub open spec fn repository_url_reading(url: Seq<char>) -> Result<RepositoryView, Seq<char>> {
    match url_parsing(url) {
        Some(parsed) => repository_of(parsed, false),
        None => Err(url),
    }
}

/// The crate's part in the work with git.
pub struct GitService;

impl GitService {
    /// The arguments for `git` that clone the repository of `config`.
    pub fn clone_arguments(config: &CloneConfig) -> (arguments: Vec<String>)
        ensures
            texts(arguments@) == clone_arguments_of(*config),
    {
        let mut arguments: Vec<String> = Vec::new();
        arguments.push(String::from_str("clone"));
        // Only the latest commit of the one branch.
        arguments.push(String::from_str("--depth=1"));
        arguments.push(String::from_str("--single-branch"));
        arguments.push(String::from_str("--quiet"));
        if let Some(branch) = &config.branch {
            arguments.push(String::from_str("--branch"));
            arguments.push(branch.clone());
        }
        let url = match &config.token {
            Some(token) => {
                let mut with_token = String::from_str("https://");
                with_token.append(token.as_str());
                with_token.append("@");
                replace_all(config.url.as_str(), "https://", with_token.as_str())
            },
            None => config.url.clone(),
        };
        arguments.push(url);
        arguments.push(config.local_path.clone());
        assert(texts(arguments@) =~= clone_arguments_of(*config));
        arguments
    }

    /// Reads the repository off a URL.
    pub fn parse_repository_url(url: &str) -> (r: Result<Repository, GitingestError>)
        ensures
            is_result(r, repository_url_reading(url@)),
    {
        match parse_url_text(url) {
            Some(parsed) => repository_from(&parsed, false),
            None => Err(GitingestError::InvalidRepositoryUrl(String::from_str(url))),
        }
    }

    /// Checks the form of a GitHub token.
    pub fn validate_github_token(token: &str) -> (r: Result<(), GitingestError>)
        ensures
            r is Ok <==> is_github_token(token@),
            r matches Err(e) ==> e matches GitingestError::TokenValidationError(message)
                && message@ == "Invalid GitHub token format"@,
    {
        if has_prefix(token, "ghp_") && token.len() == 40 {
            return Ok(());
        }
        if has_prefix(token, "github_pat_") && token.len() == 93 {
            return Ok(());
        }
        Err(GitingestError::TokenValidationError(String::from_str("Invalid GitHub token format")))
    }
}

} // verus!
