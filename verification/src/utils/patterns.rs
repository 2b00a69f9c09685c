//! The pattern engine: which paths a matcher lets through.

use crate::error::GitingestError;
use crate::models::{MatcherView, PatternMatcher};
use crate::text::{
    ascii_lowered, chars_of, lowered_equals, split, split_text, string_of, texts, trim_bounds,
    trimmed,
};
use crate::utils::glob::{
    any_glob_matches, builder_add, builder_patterns, glob_error_text, glob_parses,
    glob_set_builds, set_is_match, set_patterns,
};
use globset::{Glob, GlobSet, GlobSetBuilder};
use vstd::prelude::*;
use vstd::string::*;

verus! {

/// Whether every pattern of the list parses and the list compiles as a set.
pub open spec fn patterns_compile(patterns: Seq<Seq<char>>) -> bool {
    &&& forall|i: int| 0 <= i < patterns.len() ==> glob_parses(#[trigger] patterns[i])
    &&& glob_set_builds(patterns)
}

/// Whether each non-empty list of the matcher compiles.
pub open spec fn matcher_compiles(m: MatcherView) -> bool {
    &&& m.include_patterns.len() > 0 ==> patterns_compile(m.include_patterns)
    &&& m.exclude_patterns.len() > 0 ==> patterns_compile(m.exclude_patterns)
    &&& m.gitignore_patterns.len() > 0 ==> patterns_compile(m.gitignore_patterns)
}

/// Whether the matcher lets the file at `path` through: it matches an
/// include pattern, unless there is none, and it matches neither an exclude
/// pattern nor a gitignore pattern.
pub open spec fn includes_file(m: MatcherView, path: Seq<char>) -> bool {
    &&& m.include_patterns.len() > 0 ==> any_glob_matches(m.include_patterns, path)
    &&& !any_glob_matches(m.exclude_patterns, path)
    &&& !any_glob_matches(m.gitignore_patterns, path)
}

/// Whether the matcher lets a walk descend into the directory at `path`: no
/// exclude pattern matches the path, with or without a slash at its end.
/// Include patterns play no part.
pub open spec fn includes_directory(m: MatcherView, path: Seq<char>) -> bool {
    &&& !any_glob_matches(m.exclude_patterns, path)
    &&& !any_glob_matches(m.exclude_patterns, path + "/"@)
}

/// What `should_include_file` answers: the lists are compiled one after the
/// other, each only when the ones before it let the path through, and a list
/// that does not compile ends the query with `None`.
pub open spec fn file_decision(m: MatcherView, path: Seq<char>) -> Option<bool> {
    if m.include_patterns.len() > 0 && !patterns_compile(m.include_patterns) {
        None
    } else if m.include_patterns.len() > 0 && !any_glob_matches(m.include_patterns, path) {
        Some(false)
    } else if m.exclude_patterns.len() > 0 && !patterns_compile(m.exclude_patterns) {
        None
    } else if any_glob_matches(m.exclude_patterns, path) {
        Some(false)
    } else if m.gitignore_patterns.len() > 0 && !patterns_compile(m.gitignore_patterns) {
        None
    } else if any_glob_matches(m.gitignore_patterns, path) {
        Some(false)
    } else {
        Some(true)
    }
}

/// What `should_include_directory` answers; `None` when the exclude list
/// does not compile.
pub open spec fn directory_decision(m: MatcherView, path: Seq<char>) -> Option<bool> {
    if m.exclude_patterns.len() > 0 && !patterns_compile(m.exclude_patterns) {
        None
    } else {
        Some(includes_directory(m, path))
    }
}

/// With a matcher that compiles, the two queries never fail and answer what
/// `includes_file` and `includes_directory` say.
pub proof fn lemma_decisions_of_compiling_matcher(m: MatcherView, path: Seq<char>)
    requires
        matcher_compiles(m),
    ensures
        file_decision(m, path) == Some(includes_file(m, path)),
        directory_decision(m, path) == Some(includes_directory(m, path)),
{
}

/// Exclusion has precedence: whatever the include patterns are, a path that
/// an exclude pattern or a gitignore pattern matches is not let through.
pub proof fn lemma_exclusion_has_precedence(m: MatcherView, path: Seq<char>)
    requires
        any_glob_matches(m.exclude_patterns, path) || any_glob_matches(
            m.gitignore_patterns,
            path,
        ),
    ensures
        !includes_file(m, path),
        file_decision(m, path) != Some(true),
{
}

/// With include patterns present, a file is let through only if one of them
/// matches it.
pub proof fn lemma_included_file_matches_include(m: MatcherView, path: Seq<char>)
    requires
        m.include_patterns.len() > 0,
        includes_file(m, path) || file_decision(m, path) == Some(true),
    ensures
        any_glob_matches(m.include_patterns, path),
{
}

/// The three lists of a matcher, each compiled once. An empty list has no
/// set.
pub struct CompiledMatcher {
    include_set: Option<GlobSet>,
    exclude_set: Option<GlobSet>,
    gitignore_set: Option<GlobSet>,
}

/// The patterns that an optional set stands for.
pub closed spec fn patterns_of(set: Option<GlobSet>) -> Seq<Seq<char>> {
    match set {
        Some(s) => set_patterns(s),
        None => Seq::empty(),
    }
}

impl View for CompiledMatcher {
    type V = MatcherView;

    closed spec fn view(&self) -> MatcherView {
        MatcherView {
            include_patterns: patterns_of(self.include_set),
            exclude_patterns: patterns_of(self.exclude_set),
            gitignore_patterns: patterns_of(self.gitignore_set),
        }
    }
}

impl CompiledMatcher {
    /// A set is kept only for a list that has patterns.
    #[verifier::type_invariant]
    spec fn well_formed(&self) -> bool {
        &&& self.include_set matches Some(set) ==> set_patterns(set).len() > 0
        &&& self.exclude_set matches Some(set) ==> set_patterns(set).len() > 0
        &&& self.gitignore_set matches Some(set) ==> set_patterns(set).len() > 0
    }

    /// Whether the file at `path` is let through.
    pub fn includes_file(&self, path: &str) -> (r: bool)
        ensures
            r == includes_file(self@, path@),
    {
        proof {
            use_type_invariant(self);
        }
        if let Some(set) = &self.include_set {
            if !set_is_match(set, path) {
                return false;
            }
        }
        if let Some(set) = &self.exclude_set {
            if set_is_match(set, path) {
                return false;
            }
        }
        if let Some(set) = &self.gitignore_set {
            if set_is_match(set, path) {
                return false;
            }
        }
        true
    }

    /// Whether a walk may descend into the directory at `path`.
    pub fn includes_directory(&self, path: &str) -> (r: bool)
        ensures
            r == includes_directory(self@, path@),
    {
        if let Some(set) = &self.exclude_set {
            if set_is_match(set, path) {
                return false;
            }
            let mut with_slash = String::from_str(path);
            with_slash.append("/");
            if set_is_match(set, with_slash.as_str()) {
                return false;
            }
        }
        true
    }
}

/// The pattern engine.
pub struct PatternService;

impl PatternService {
    /// Makes a matcher of two pattern lists, and refuses lists that do not
    /// compile.
    pub fn new_matcher(include_patterns: Vec<String>, exclude_patterns: Vec<String>) -> (r: Result<
        PatternMatcher,
        GitingestError,
    >)
        ensures
            r is Ok <==> {
                &&& include_patterns@.len() > 0 ==> patterns_compile(texts(include_patterns@))
                &&& exclude_patterns@.len() > 0 ==> patterns_compile(texts(exclude_patterns@))
            },
            r matches Ok(matcher) ==> {
                &&& matcher@.include_patterns == texts(include_patterns@)
                &&& matcher@.exclude_patterns == texts(exclude_patterns@)
                &&& matcher@.gitignore_patterns.len() == 0
                &&& matcher_compiles(matcher@)
            },
            r matches Err(e) ==> e is PatternError,
    {
        let matcher = PatternMatcher {
            include_patterns,
            exclude_patterns,
            gitignore_patterns: Vec::new(),
        };
        match Self::compile(&matcher) {
            Ok(_) => Ok(matcher),
            Err(e) => Err(e),
        }
    }

    /// Compiles the three lists of a matcher, each once.
    pub fn compile(matcher: &PatternMatcher) -> (r: Result<CompiledMatcher, GitingestError>)
        ensures
            r is Ok <==> matcher_compiles(matcher@),
            r matches Ok(compiled) ==> compiled@ == matcher@,
            r matches Err(e) ==> e is PatternError,
    {
        let include_set = match Self::build_optional_set(&matcher.include_patterns) {
            Ok(set) => set,
            Err(e) => {
                return Err(e);
            },
        };
        let exclude_set = match Self::build_optional_set(&matcher.exclude_patterns) {
            Ok(set) => set,
            Err(e) => {
                return Err(e);
            },
        };
        let gitignore_set = match Self::build_optional_set(&matcher.gitignore_patterns) {
            Ok(set) => set,
            Err(e) => {
                return Err(e);
            },
        };
        Ok(CompiledMatcher { include_set, exclude_set, gitignore_set })
    }

    fn build_optional_set(patterns: &Vec<String>) -> (r: Result<Option<GlobSet>, GitingestError>)
        ensures
            r is Ok <==> (patterns@.len() > 0 ==> patterns_compile(texts(patterns@))),
            r matches Ok(set) ==> patterns_of(set) == texts(patterns@),
            r matches Ok(Some(set)) ==> set_patterns(set).len() > 0,
            r matches Err(e) ==> e is PatternError,
    {
        if patterns.len() == 0 {
            assert(texts(patterns@) =~= Seq::<Seq<char>>::empty());
            Ok(None)
        } else {
            match Self::build_glob_set(patterns) {
                Ok(set) => Ok(Some(set)),
                Err(e) => Err(e),
            }
        }
    }

    /// Whether the file at `path` is let through.
    pub fn should_include_file(matcher: &PatternMatcher, file_path: &str) -> (r: Result<
        bool,
        GitingestError,
    >)
        ensures
            match r {
                Ok(included) => file_decision(matcher@, file_path@) == Some(included),
                Err(e) => file_decision(matcher@, file_path@) is None && e is PatternError,
            },
    {
        // With include patterns present, the file must match at least one.
        if matcher.include_patterns.len() > 0 {
            let include_set = match Self::build_glob_set(&matcher.include_patterns) {
                Ok(set) => set,
                Err(e) => {
                    return Err(e);
                },
            };
            if !set_is_match(&include_set, file_path) {
                return Ok(false);
            }
        }
        if matcher.exclude_patterns.len() > 0 {
            let exclude_set = match Self::build_glob_set(&matcher.exclude_patterns) {
                Ok(set) => set,
                Err(e) => {
                    return Err(e);
                },
            };
            if set_is_match(&exclude_set, file_path) {
                return Ok(false);
            }
        }
        if matcher.gitignore_patterns.len() > 0 {
            let gitignore_set = match Self::build_glob_set(&matcher.gitignore_patterns) {
                Ok(set) => set,
                Err(e) => {
                    return Err(e);
                },
            };
            if set_is_match(&gitignore_set, file_path) {
                return Ok(false);
            }
        }
        Ok(true)
    }

    /// Whether a walk may descend into the directory at `path`. Directories
    /// are always descended into unless an exclude pattern names them.
    pub fn should_include_directory(matcher: &PatternMatcher, dir_path: &str) -> (r: Result<
        bool,
        GitingestError,
    >)
        ensures
            match r {
                Ok(included) => directory_decision(matcher@, dir_path@) == Some(included),
                Err(e) => directory_decision(matcher@, dir_path@) is None && e is PatternError,
            },
    {
        if matcher.exclude_patterns.len() > 0 {
            let exclude_set = match Self::build_glob_set(&matcher.exclude_patterns) {
                Ok(set) => set,
                Err(e) => {
                    return Err(e);
                },
            };
            if set_is_match(&exclude_set, dir_path) {
                return Ok(false);
            }
            let mut with_slash = String::from_str(dir_path);
            with_slash.append("/");
            if set_is_match(&exclude_set, with_slash.as_str()) {
                return Ok(false);
            }
        }
        Ok(true)
    }

    /// The patterns that the text of a gitignore file contributes.
    pub fn parse_gitignore(content: &str) -> (patterns: Vec<String>)
        ensures
            texts(patterns@) == gitignore_patterns(content@),
    {
        let lines = split(content, '\n');
        let mut patterns: Vec<String> = Vec::new();
        let mut i: usize = 0;
        assert(texts(lines@).take(0) =~= Seq::<Seq<char>>::empty());
        assert(texts(patterns@) =~= Seq::<Seq<char>>::empty());
        while i < lines.len()
            invariant
                i <= lines.len(),
                texts(patterns@) == patterns_of_lines(texts(lines@).take(i as int)),
            decreases lines.len() - i,
        {
            assert(texts(lines@).take(i as int + 1).drop_last() =~= texts(lines@).take(i as int));
            assert(texts(lines@).take(i as int + 1).last() == lines@[i as int]@);
            let chars = chars_of(lines[i].as_str());
            let (from, to) = trim_bounds(&chars);
            // Blank lines, comments and negated lines contribute nothing.
            if from < to && chars[from] != '#' && chars[from] != '!' {
                let line = string_of(&chars, from, to);
                let pattern = normalize_pattern(line.as_str());
                let ghost before = patterns@;
                patterns.push(pattern);
                assert(texts(patterns@) =~= texts(before).push(pattern@));
            }
            i = i + 1;
        }
        assert(texts(lines@).take(i as int) =~= texts(lines@));
        patterns
    }

    /// Appends the patterns of a gitignore file to the matcher. `content` is
    /// the text of the file, or `None` if there is no such file; without a
    /// file the matcher stays as it is.
    pub fn add_gitignore_patterns(matcher: &mut PatternMatcher, content: Option<&str>)
        ensures
            final(matcher)@.include_patterns == old(matcher)@.include_patterns,
            final(matcher)@.exclude_patterns == old(matcher)@.exclude_patterns,
            final(matcher)@.gitignore_patterns == old(matcher)@.gitignore_patterns
                + optional_gitignore_patterns(optional_content(content)),
            content is None ==> final(matcher)@ == old(matcher)@,
    {
        match content {
            Some(text) => {
                let mut patterns = Self::parse_gitignore(text);
                let ghost added = patterns@;
                let ghost before = matcher.gitignore_patterns@;
                matcher.gitignore_patterns.append(&mut patterns);
                assert(texts(before + added) =~= texts(before) + texts(added));
            },
            None => {
                assert(matcher@.gitignore_patterns + Seq::<Seq<char>>::empty()
                    =~= matcher@.gitignore_patterns);
            },
        }
    }

    /// Parses every pattern and compiles them into one set.
    pub fn build_glob_set(patterns: &Vec<String>) -> (r: Result<GlobSet, GitingestError>)
        ensures
            r is Ok <==> patterns_compile(texts(patterns@)),
            r matches Ok(set) ==> set_patterns(set) == texts(patterns@),
            r matches Err(e) ==> e is PatternError,
    {
        let mut builder = GlobSetBuilder::new();
        let mut i: usize = 0;
        while i < patterns.len()
            invariant
                i <= patterns.len(),
                builder_patterns(builder) == texts(patterns@).take(i as int),
                forall|k: int| 0 <= k < i ==> glob_parses(#[trigger] texts(patterns@)[k]),
            decreases patterns.len() - i,
        {
            let pattern = patterns[i].as_str();
            match Glob::new(pattern) {
                Ok(glob) => {
                    builder_add(&mut builder, glob);
                    assert(texts(patterns@).take(i as int + 1) =~= texts(patterns@).take(
                        i as int,
                    ).push(pattern@));
                },
                Err(e) => {
                    assert(!glob_parses(texts(patterns@)[i as int]));
                    let mut message = String::from_str("Invalid glob pattern '");
                    message.append(pattern);
                    message.append("': ");
                    message.append(glob_error_text(&e).as_str());
                    return Err(GitingestError::PatternError(message));
                },
            }
            i = i + 1;
        }
        assert(texts(patterns@).take(i as int) =~= texts(patterns@));
        match builder.build() {
            Ok(set) => Ok(set),
            Err(e) => {
                let mut message = String::from_str("Failed to build glob set: ");
                message.append(glob_error_text(&e).as_str());
                Err(GitingestError::PatternError(message))
            },
        }
    }
}

/// `pattern` with every backslash turned into a slash.
pub open spec fn with_forward_slashes(pattern: Seq<char>) -> Seq<char> {
    pattern.map_values(
        |c: char|
            if c == '\\' {
                '/'
            } else {
                c
            },
    )
}

/// The normal form of a pattern: slashes for backslashes, and a pattern that
/// ends in a slash, which names a directory, widened to all that lies below.
pub open spec fn normalized_pattern(pattern: Seq<char>) -> Seq<char> {
    let unix = with_forward_slashes(pattern);
    if unix.len() > 0 && unix.last() == '/' {
        unix + "**"@
    } else {
        unix
    }
}

/// What one line of a gitignore file contributes: nothing if it is blank, a
/// comment (`#`) or a negation (`!`), else its trimmed text in normal form.
pub open spec fn gitignore_line_pattern(line: Seq<char>) -> Option<Seq<char>> {
    let text = trimmed(line);
    if text.len() == 0 || text[0] == '#' || text[0] == '!' {
        None
    } else {
        Some(normalized_pattern(text))
    }
}

/// What a list of lines contributes, in order.
pub open spec fn patterns_of_lines(lines: Seq<Seq<char>>) -> Seq<Seq<char>>
    decreases lines.len(),
{
    if lines.len() == 0 {
        Seq::empty()
    } else {
        match gitignore_line_pattern(lines.last()) {
            Some(pattern) => patterns_of_lines(lines.drop_last()).push(pattern),
            None => patterns_of_lines(lines.drop_last()),
        }
    }
}

/// The patterns of a gitignore file with the given text.
pub open spec fn gitignore_patterns(content: Seq<char>) -> Seq<Seq<char>> {
    patterns_of_lines(split_text(content, '\n'))
}

/// The text of a file that may be missing.
pub open spec fn optional_content(content: Option<&str>) -> Option<Seq<char>> {
    match content {
        Some(text) => Some(text@),
        None => None,
    }
}

/// The patterns of a gitignore file that may be missing: none without a
/// file.
pub open spec fn optional_gitignore_patterns(content: Option<Seq<char>>) -> Seq<Seq<char>> {
    match content {
        Some(text) => gitignore_patterns(text),
        None => Seq::empty(),
    }
}

/// Puts a pattern in normal form.
pub fn normalize_pattern(pattern: &str) -> (normalized: String)
    ensures
        normalized@ == normalized_pattern(pattern@),
{
    let chars = chars_of(pattern);
    let mut normalized = String::new();
    let mut i: usize = 0;
    while i < chars.len()
        invariant
            i <= chars.len(),
            normalized@ == with_forward_slashes(chars@.take(i as int)),
        decreases chars.len() - i,
    {
        let c = chars[i];
        // Windows-style separators become Unix-style ones.
        let unix = if c == '\\' {
            '/'
        } else {
            c
        };
        normalized.push(unix);
        assert(with_forward_slashes(chars@.take(i as int + 1)) =~= with_forward_slashes(
            chars@.take(i as int),
        ).push(unix));
        i = i + 1;
    }
    assert(chars@.take(i as int) =~= chars@);
    if chars.len() > 0 && (chars[chars.len() - 1] == '/' || chars[chars.len() - 1] == '\\') {
        normalized.append("**");
    }
    normalized
}

/// The last piece of a path that is neither empty nor `.`, if there is one.
pub open spec fn last_component(pieces: Seq<Seq<char>>) -> Option<Seq<char>>
    decreases pieces.len(),
{
    if pieces.len() == 0 {
        None
    } else if pieces.last().len() > 0 && pieces.last() != seq!['.'] {
        Some(pieces.last())
    } else {
        last_component(pieces.drop_last())
    }
}

/// The name of the file that a path leads to. A path that ends in `..`
/// leads to none.
pub open spec fn file_name_of(path: Seq<char>) -> Option<Seq<char>> {
    match last_component(split_text(path, '/')) {
        Some(name) => if name == seq!['.', '.'] {
            None
        } else {
            Some(name)
        },
        None => None,
    }
}

/// Where the last `.` of `name` stands; -1 if there is none.
pub open spec fn last_dot(name: Seq<char>) -> int
    decreases name.len(),
{
    if name.len() == 0 {
        -1
    } else if name.last() == '.' {
        name.len() - 1
    } else {
        last_dot(name.drop_last())
    }
}

/// The extension of a file name: what follows its last `.`, unless that dot
/// is the first character or there is no dot.
pub open spec fn extension_of(name: Seq<char>) -> Option<Seq<char>> {
    let dot = last_dot(name);
    if dot <= 0 {
        None
    } else {
        Some(name.skip(dot + 1))
    }
}

/// Whether an extension, whatever the case of its ASCII letters, is one of
/// those taken to mean binary content.
pub open spec fn is_binary_extension(extension: Seq<char>) -> bool {
    let ext = ascii_lowered(extension);
    ||| ext == "exe"@
    ||| ext == "dll"@
    ||| ext == "so"@
    ||| ext == "dylib"@
    ||| ext == "a"@
    ||| ext == "lib"@
    ||| ext == "o"@
    ||| ext == "obj"@
    ||| ext == "bin"@
    ||| ext == "png"@
    ||| ext == "jpg"@
    ||| ext == "jpeg"@
    ||| ext == "gif"@
    ||| ext == "bmp"@
    ||| ext == "ico"@
    ||| ext == "svg"@
    ||| ext == "pdf"@
    ||| ext == "doc"@
    ||| ext == "docx"@
    ||| ext == "xls"@
    ||| ext == "xlsx"@
    ||| ext == "ppt"@
    ||| ext == "pptx"@
    ||| ext == "zip"@
    ||| ext == "tar"@
    ||| ext == "gz"@
    ||| ext == "bz2"@
    ||| ext == "7z"@
    ||| ext == "rar"@
    ||| ext == "mp3"@
    ||| ext == "mp4"@
    ||| ext == "avi"@
    ||| ext == "mov"@
    ||| ext == "wmv"@
    ||| ext == "flv"@
}

/// Whether a path is taken to lead to a binary file. Only the extension of
/// the file name is looked at, never the content.
pub open spec fn is_binary_path(path: Seq<char>) -> bool {
    match file_name_of(path) {
        Some(name) => match extension_of(name) {
            Some(extension) => is_binary_extension(extension),
            None => false,
        },
        None => false,
    }
}

/// The name of the file that a path leads to, if it leads to one.
#[verifier::rlimit(50)]
pub fn file_name(path: &str) -> (name: Option<String>)
    ensures
        match name {
            Some(text) => file_name_of(path@) == Some(text@),
            None => file_name_of(path@) is None,
        },
{
    let pieces = split(path, '/');
    // The file name is the last piece that names something.
    let mut k: usize = pieces.len();
    let mut found: Option<usize> = None;
    assert(texts(pieces@).take(k as int) =~= texts(pieces@));
    while k > 0 && found.is_none()
        invariant
            k <= pieces.len(),
            found matches Some(at) ==> at < pieces.len() && last_component(texts(pieces@))
                == Some(pieces@[at as int]@),
            found is None ==> last_component(texts(pieces@)) == last_component(
                texts(pieces@).take(k as int),
            ),
        decreases k + (if found is None { 1int } else { 0int }),
    {
        let piece = chars_of(pieces[k - 1].as_str());
        assert(texts(pieces@).take(k as int).last() == piece@);
        assert(texts(pieces@).take(k as int).drop_last() =~= texts(pieces@).take(k as int - 1));
        if piece.len() > 0 && !(piece.len() == 1 && piece[0] == '.') {
            assert(piece@ != seq!['.']) by {
                if piece@.len() == 1 {
                    assert(seq!['.'][0] == '.');
                }
            }
            found = Some(k - 1);
        } else {
            assert(piece@.len() > 0 ==> piece@ =~= seq!['.']);
            k = k - 1;
        }
    }
    let at = match found {
        Some(at) => at,
        None => {
            return None;
        },
    };
    let name = chars_of(pieces[at].as_str());
    if name.len() == 2 && name[0] == '.' && name[1] == '.' {
        assert(name@ =~= seq!['.', '.']);
        return None;
    }
    assert(name@ != seq!['.', '.']) by {
        if name@ == seq!['.', '.'] {
            assert(seq!['.', '.'].len() == 2);
            assert(seq!['.', '.'][0] == '.');
            assert(seq!['.', '.'][1] == '.');
        }
    }
    Some(pieces[at].clone())
}

/// Tells binary files from text files by the extension of the file name.
#[verifier::rlimit(50)]
pub fn is_binary_file(path: &str) -> (binary: bool)
    ensures
        binary == is_binary_path(path@),
{
    let name = match file_name(path) {
        Some(name) => chars_of(name.as_str()),
        None => {
            return false;
        },
    };
    let mut d: usize = name.len();
    assert(name@.take(d as int) =~= name@);
    while d > 0 && name[d - 1] != '.'
        invariant
            d <= name.len(),
            last_dot(name@) == last_dot(name@.take(d as int)),
        decreases d,
    {
        assert(name@.take(d as int).drop_last() =~= name@.take(d as int - 1));
        d = d - 1;
    }
    if d <= 1 {
        // No dot at all, or only the one that starts a hidden file's name.
        return false;
    }
    assert(last_dot(name@) == d - 1);
    assert(name@.skip(d as int) =~= name@.subrange(d as int, name.len() as int));
    let from = d;
    let to = name.len();
    lowered_equals(&name, from, to, "exe") || lowered_equals(&name, from, to, "dll")
        || lowered_equals(&name, from, to, "so") || lowered_equals(&name, from, to, "dylib")
        || lowered_equals(&name, from, to, "a") || lowered_equals(&name, from, to, "lib")
        || lowered_equals(&name, from, to, "o") || lowered_equals(&name, from, to, "obj")
        || lowered_equals(&name, from, to, "bin")
        || lowered_equals(&name, from, to, "png") || lowered_equals(&name, from, to, "jpg")
        || lowered_equals(&name, from, to, "jpeg") || lowered_equals(&name, from, to, "gif")
        || lowered_equals(&name, from, to, "bmp") || lowered_equals(&name, from, to, "ico")
        || lowered_equals(&name, from, to, "svg") || lowered_equals(&name, from, to, "pdf")
        || lowered_equals(&name, from, to, "doc") || lowered_equals(&name, from, to, "docx")
        || lowered_equals(&name, from, to, "xls") || lowered_equals(&name, from, to, "xlsx")
        || lowered_equals(&name, from, to, "ppt") || lowered_equals(&name, from, to, "pptx")
        || lowered_equals(&name, from, to, "zip") || lowered_equals(&name, from, to, "tar")
        || lowered_equals(&name, from, to, "gz") || lowered_equals(&name, from, to, "bz2")
        || lowered_equals(&name, from, to, "7z") || lowered_equals(&name, from, to, "rar")
        || lowered_equals(&name, from, to, "mp3") || lowered_equals(&name, from, to, "mp4")
        || lowered_equals(&name, from, to, "avi") || lowered_equals(&name, from, to, "mov")
        || lowered_equals(&name, from, to, "wmv") || lowered_equals(&name, from, to, "flv")
}

} // verus!
