//! From what a caller typed to a repository: a full URL, or the short form
//! `owner/repo`, which stands for a repository on GitHub.

use crate::error::GitingestError;
use crate::models::{Repository, RepositoryView};
use crate::text::{
    chars_of, contains, contains_text, join, joined, str_eq, string_of, texts, trim_bounds,
    trimmed,
};
use vstd::prelude::*;
use vstd::string::*;

verus! {

/// What is read of a parsed URL: its scheme, its host if it has one, and the
/// segments of its path if it has a path that is made of segments.
#[derive(Debug, Clone)]
pub struct ParsedUrl {
    pub scheme: String,
    pub host: Option<String>,
    pub path_segments: Option<Vec<String>>,
}

/// The mathematical value of a [`ParsedUrl`].
pub struct ParsedUrlView {
    pub scheme: Seq<char>,
    pub host: Option<Seq<char>>,
    pub path_segments: Option<Seq<Seq<char>>>,
}

impl View for ParsedUrl {
    type V = ParsedUrlView;

    open spec fn view(&self) -> ParsedUrlView {
        ParsedUrlView {
            scheme: self.scheme@,
            host: match self.host {
                Some(host) => Some(host@),
                None => None,
            },
            path_segments: match self.path_segments {
                Some(segments) => Some(texts(segments@)),
                None => None,
            },
        }
    }
}

/// The value of a parsed URL that may be missing.
pub open spec fn optional_url(url: Option<ParsedUrl>) -> Option<ParsedUrlView> {
    match url {
        Some(url) => Some(url@),
        None => None,
    }
}

/// What `url::Url::parse` makes of a text: nothing if it is not an absolute
/// URL, else what `Url::scheme`, `Url::host_str` and `Url::path_segments`
/// return for the parsed URL.
pub uninterp spec fn url_parsing(input: Seq<char>) -> Option<ParsedUrlView>;

/// `url::Url::parse`, followed by `Url::scheme`, `Url::host_str` and
/// `Url::path_segments` on its result. What comes back depends on the text
/// alone.
#[verifier::external_body]
pub(crate) fn parse_url_text(input: &str) -> (r: Option<ParsedUrl>)
    ensures
        optional_url(r) == url_parsing(input@),
{
    let url = url::Url::parse(input).ok()?;
    Some(
        ParsedUrl {
            scheme: url.scheme().to_string(),
            host: url.host_str().map(|host| host.to_string()),
            path_segments: url.path_segments().map(|s| s.map(|p| p.to_string()).collect()),
        },
    )
}

/// `name` without `.git` at its end, however often it stands there.
pub open spec fn without_git_suffix(name: Seq<char>) -> Seq<char>
    decreases name.len(),
{
    if name.len() >= 4 && name.skip(name.len() - 4) == seq!['.', 'g', 'i', 't'] {
        without_git_suffix(name.take(name.len() - 4))
    } else {
        name
    }
}

/// The repository that a parsed URL names, or why it names none. The first
/// two segments of the path are the owner and the name; after `tree`, and
/// after `blob` if `blob_too` is set, come a branch and a path below it.
pub open spec fn repository_of(url: ParsedUrlView, blob_too: bool) -> Result<
    RepositoryView,
    Seq<char>,
> {
    if url.host is None {
        Err("No host found"@)
    } else if url.path_segments is None {
        Err("Invalid path"@)
    } else if url.path_segments->0.len() < 2 {
        Err("URL must contain owner and repository name"@)
    } else {
        let host = url.host->0;
        let segments = url.path_segments->0;
        let owner = segments[0];
        let name = without_git_suffix(segments[1]);
        let browsing = segments.len() > 3 && (segments[2] == "tree"@ || (blob_too && segments[2]
            == "blob"@));
        Ok(
            RepositoryView {
                url: "https://"@ + host + "/"@ + owner + "/"@ + name,
                host,
                owner,
                name,
                branch: if browsing {
                    Some(segments[3])
                } else {
                    None
                },
                commit: None,
                subpath: if browsing && segments.len() > 4 {
                    joined(segments.skip(4), "/"@)
                } else {
                    Seq::empty()
                },
            },
        )
    }
}

/// Whether a result is what a specification asks for: the repository of
/// that value, or the error that says the URL is invalid, with that message.
pub open spec fn is_result(
    r: Result<Repository, GitingestError>,
    wanted: Result<RepositoryView, Seq<char>>,
) -> bool {
    match wanted {
        Ok(repository) => r matches Ok(found) && found@ == repository,
        Err(message) => r matches Err(GitingestError::InvalidRepositoryUrl(text)) && text@
            == message,
    }
}

/// The characters that the short form allows in an owner and in a name.
pub open spec fn is_name_char(c: char) -> bool {
    ('a' <= c && c <= 'z') || ('A' <= c && c <= 'Z') || ('0' <= c && c <= '9') || c == '_' || c
        == '.' || c == '-'
}

/// Whether `text` is not empty and made of name characters only.
pub open spec fn is_short_name(text: Seq<char>) -> bool {
    text.len() > 0 && forall|i: int| 0 <= i < text.len() ==> is_name_char(#[trigger] text[i])
}

/// Where `c` first stands in `text`; the length of `text` if it does not.
pub open spec fn first_index_of(text: Seq<char>, c: char) -> int
    decreases text.len(),
{
    if text.len() == 0 || text[0] == c {
        0
    } else {
        1 + first_index_of(text.drop_first(), c)
    }
}

/// The owner and the name of the short form `owner/repo`, if `text` has
/// that form: two short names with one slash between them.
pub open spec fn short_form(text: Seq<char>) -> Option<(Seq<char>, Seq<char>)> {
    let slash = first_index_of(text, '/');
    if slash < text.len() && is_short_name(text.take(slash)) && is_short_name(
        text.skip(slash + 1),
    ) {
        Some((text.take(slash), text.skip(slash + 1)))
    } else {
        None
    }
}

/// The message for an input that no reading makes sense of.
pub open spec fn unparsable(text: Seq<char>) -> Seq<char> {
    "Unable to parse repository URL: "@ + text
}

/// What `parse_git_url` makes of an input. The input is trimmed. If it
/// parses as a URL, that URL is read. Else, if it has the short form, it
/// names a repository on GitHub. Else, if it does not hold `://`, it is read
/// as a path on GitHub. Else it is refused.
pub open spec fn git_url_reading(input: Seq<char>) -> Result<RepositoryView, Seq<char>> {
    let text = trimmed(input);
    match url_parsing(text) {
        Some(url) => repository_of(url, true),
        None => match short_form(text) {
            Some((owner, name)) => Ok(
                RepositoryView {
                    url: "https://github.com/"@ + owner + "/"@ + name,
                    host: "github.com"@,
                    owner,
                    name,
                    branch: None,
                    commit: None,
                    subpath: Seq::empty(),
                },
            ),
            None => if contains_text(text, "://"@) {
                Err(unparsable(text))
            } else {
                match url_parsing("https://github.com/"@ + text) {
                    Some(url) => repository_of(url, true),
                    None => Err(unparsable(text)),
                }
            },
        },
    }
}

fn invalid_url(message: &str) -> (r: Result<Repository, GitingestError>)
    ensures
        is_result(r, Err(message@)),
{
    Err(GitingestError::InvalidRepositoryUrl(String::from_str(message)))
}

fn is_short_name_char(c: char) -> (r: bool)
    ensures
        r == is_name_char(c),
{
    ('a' <= c && c <= 'z') || ('A' <= c && c <= 'Z') || ('0' <= c && c <= '9') || c == '_' || c
        == '.' || c == '-'
}

fn short_name(chars: &Vec<char>, from: usize, to: usize) -> (r: bool)
    requires
        from <= to <= chars.len(),
    ensures
        r == is_short_name(chars@.subrange(from as int, to as int)),
{
    if from == to {
        return false;
    }
    let mut i: usize = from;
    while i < to
        invariant
            from <= i <= to <= chars.len(),
            forall|k: int| from <= k < i ==> is_name_char(#[trigger] chars@[k]),
        decreases to - i,
    {
        if !is_short_name_char(chars[i]) {
            assert(!is_name_char(chars@.subrange(from as int, to as int)[i - from]));
            return false;
        }
        i = i + 1;
    }
    assert forall|k: int| 0 <= k < to - from implies is_name_char(
        #[trigger] chars@.subrange(from as int, to as int)[k],
    ) by {
        assert(is_name_char(chars@[from + k]));
    }
    true
}

/// Reads the repository off a URL that was parsed already.
#[verifier::rlimit(50)]
pub fn repository_from(url: &ParsedUrl, blob_too: bool) -> (r: Result<Repository, GitingestError>)
    ensures
        is_result(r, repository_of(url@, blob_too)),
{
    let host = match &url.host {
        Some(host) => host.clone(),
        None => {
            return invalid_url("No host found");
        },
    };
    let segments = match &url.path_segments {
        Some(segments) => segments,
        None => {
            return invalid_url("Invalid path");
        },
    };
    if segments.len() < 2 {
        return invalid_url("URL must contain owner and repository name");
    }
    let ghost parts = texts(segments@);
    let owner = segments[0].clone();
    let raw_name = chars_of(segments[1].as_str());
    let mut end: usize = raw_name.len();
    assert(raw_name@.take(end as int) =~= raw_name@);
    while end >= 4 && raw_name[end - 4] == '.' && raw_name[end - 3] == 'g' && raw_name[end - 2]
        == 'i' && raw_name[end - 1] == 't'
        invariant
            end <= raw_name.len(),
            without_git_suffix(raw_name@) == without_git_suffix(raw_name@.take(end as int)),
        decreases end,
    {
        let ghost current = raw_name@.take(end as int);
        assert(current.skip(current.len() - 4) =~= seq!['.', 'g', 'i', 't']);
        assert(current.take(current.len() - 4) =~= raw_name@.take(end as int - 4));
        end = end - 4;
    }
    proof {
        let current = raw_name@.take(end as int);
        if end >= 4 {
            let tail = current.skip(current.len() - 4);
            assert(tail[0] == raw_name@[end - 4]);
            assert(tail[1] == raw_name@[end - 3]);
            assert(tail[2] == raw_name@[end - 2]);
            assert(tail[3] == raw_name@[end - 1]);
            assert(seq!['.', 'g', 'i', 't'][0] == '.');
            assert(seq!['.', 'g', 'i', 't'][1] == 'g');
            assert(seq!['.', 'g', 'i', 't'][2] == 'i');
            assert(seq!['.', 'g', 'i', 't'][3] == 't');
        }
        assert(without_git_suffix(current) == current);
        assert(raw_name@.subrange(0, end as int) =~= current);
    }
    let name = string_of(&raw_name, 0, end);
    // URLs that browse a branch name the branch, and perhaps a path below it.
    let browsing = segments.len() > 3 && (str_eq(segments[2].as_str(), "tree") || (blob_too
        && str_eq(segments[2].as_str(), "blob")));
    let branch = if browsing {
        Some(segments[3].clone())
    } else {
        None
    };
    let subpath = if browsing && segments.len() > 4 {
        let mut below: Vec<String> = Vec::new();
        let mut i: usize = 4;
        assert(texts(below@) =~= parts.subrange(4, 4));
        while i < segments.len()
            invariant
                4 <= i <= segments.len(),
                parts == texts(segments@),
                texts(below@) == parts.subrange(4, i as int),
            decreases segments.len() - i,
        {
            let ghost before = below@;
            let copy = segments[i].clone();
            below.push(copy);
            assert(texts(below@) =~= texts(before).push(copy@));
            assert(parts.subrange(4, i as int + 1) =~= parts.subrange(4, i as int).push(
                parts[i as int],
            ));
            i = i + 1;
        }
        assert(parts.subrange(4, i as int) =~= parts.skip(4));
        assert(texts(below@).take(below.len() as int) =~= texts(below@));
        join(&below, below.len(), "/")
    } else {
        String::new()
    };
    // The clean URL leaves out whatever follows the name.
    let mut clean_url = String::from_str("https://");
    clean_url.append(host.as_str());
    clean_url.append("/");
    clean_url.append(owner.as_str());
    clean_url.append("/");
    clean_url.append(name.as_str());
    Ok(Repository { url: clean_url, host, owner, name, branch, commit: None, subpath })
}

/// The reader of what a caller typed.
pub struct UrlParser;

impl UrlParser {
    /// Reads a repository off an input: a URL, the short form `owner/repo`,
    /// or a path on GitHub.
    #[verifier::rlimit(50)]
    pub fn parse_git_url(input: &str) -> (r: Result<Repository, GitingestError>)
        ensures
            is_result(r, git_url_reading(input@)),
    {
        let all = chars_of(input);
        let (from, to) = trim_bounds(&all);
        let text = string_of(&all, from, to);
        // A direct URL comes first.
        if let Some(url) = parse_url_text(text.as_str()) {
            return repository_from(&url, true);
        }
        // Then the short form.
        let chars = chars_of(text.as_str());
        let mut slash: usize = 0;
        assert(chars@.skip(0) =~= chars@);
        while slash < chars.len() && chars[slash] != '/'
            invariant
                slash <= chars.len(),
                first_index_of(chars@, '/') == slash + first_index_of(
                    chars@.skip(slash as int),
                    '/',
                ),
            decreases chars.len() - slash,
        {
            assert(chars@.skip(slash as int).drop_first() =~= chars@.skip(slash as int + 1));
            slash = slash + 1;
        }
        assert(first_index_of(chars@, '/') == slash);
        if slash < chars.len() && short_name(&chars, 0, slash) && short_name(
            &chars,
            slash + 1,
            chars.len(),
        ) {
            assert(chars@.subrange(0, slash as int) =~= chars@.take(slash as int));
            assert(chars@.subrange(slash as int + 1, chars.len() as int) =~= chars@.skip(
                slash as int + 1,
            ));
            let owner = string_of(&chars, 0, slash);
            let name = string_of(&chars, slash + 1, chars.len());
            let mut url = String::from_str("https://github.com/");
            url.append(owner.as_str());
            url.append("/");
            url.append(name.as_str());
            return Ok(
                Repository {
                    url,
                    host: String::from_str("github.com"),
                    owner,
                    name,
                    branch: None,
                    commit: None,
                    subpath: String::new(),
                },
            );
        }
        proof {
            if slash < chars.len() {
                assert(chars@.subrange(0, slash as int) =~= chars@.take(slash as int));
                assert(chars@.subrange(slash as int + 1, chars.len() as int) =~= chars@.skip(
                    slash as int + 1,
                ));
            }
            assert(short_form(text@) is None);
        }
        // Then a path on GitHub.
        if !contains(text.as_str(), "://") {
            let mut github_url = String::from_str("https://github.com/");
            github_url.append(text.as_str());
            if let Some(url) = parse_url_text(github_url.as_str()) {
                return repository_from(&url, true);
            }
        }
        let mut message = String::from_str("Unable to parse repository URL: ");
        message.append(text.as_str());
        Err(GitingestError::InvalidRepositoryUrl(message))
    }

    /// Reads the repository off a URL that was parsed already. A path that
    /// goes on with `tree` or `blob` names a branch.
    pub fn parse_url(url: &ParsedUrl) -> (r: Result<Repository, GitingestError>)
        ensures
            is_result(r, repository_of(url@, true)),
    {
        repository_from(url, true)
    }

    /// Whether a text is a URL on GitHub.
    pub fn is_valid_github_url(url: &str) -> (valid: bool)
        ensures
            valid == match url_parsing(url@) {
                Some(parsed) => parsed.host == Some("github.com"@) || parsed.host == Some(
                    "www.github.com"@,
                ),
                None => false,
            },
    {
        match parse_url_text(url) {
            Some(parsed) => Self::is_github_host(&parsed),
            None => false,
        }
    }

    /// Whether a parsed URL has GitHub for its host.
    pub fn is_github_host(url: &ParsedUrl) -> (r: bool)
        ensures
            r == (url@.host == Some("github.com"@) || url@.host == Some("www.github.com"@)),
    {
        match &url.host {
            Some(host) => str_eq(host.as_str(), "github.com") || str_eq(
                host.as_str(),
                "www.github.com",
            ),
            None => false,
        }
    }

    /// Whether a text is a URL with one of the schemes that git speaks.
    pub fn is_valid_git_url(url: &str) -> (valid: bool)
        ensures
            valid == match url_parsing(url@) {
                Some(parsed) => parsed.scheme == "https"@ || parsed.scheme == "http"@
                    || parsed.scheme == "git"@ || parsed.scheme == "ssh"@,
                None => false,
            },
    {
        match parse_url_text(url) {
            Some(parsed) => Self::has_git_scheme(&parsed),
            None => false,
        }
    }

    /// Whether a parsed URL has one of the schemes that git speaks.
    pub fn has_git_scheme(url: &ParsedUrl) -> (r: bool)
        ensures
            r == (url@.scheme == "https"@ || url@.scheme == "http"@ || url@.scheme == "git"@
                || url@.scheme == "ssh"@),
    {
        let scheme = url.scheme.as_str();
        str_eq(scheme, "https") || str_eq(scheme, "http") || str_eq(scheme, "git") || str_eq(
            scheme,
            "ssh",
        )
    }
}

} // verus!
