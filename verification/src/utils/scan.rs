//! Discovery: which entries of a walk become nodes of the tree, and under
//! which directories they are registered.

use crate::error::GitingestError;
use crate::models::{node_views, FileNode, FileNodeType, MatcherView, NodeView};
use crate::text::{join, joined, str_eq, texts};
use crate::utils::files::FileService;
use crate::utils::patterns::{
    includes_directory, includes_file, is_binary_file, is_binary_path, CompiledMatcher,
};
use vstd::prelude::*;
use vstd::string::*;

verus! {

/// One entry that a walk of the root found: its path below the root, one
/// name for each level, and its kind.
#[derive(Debug)]
pub struct WalkEntry {
    pub components: Vec<String>,
    pub kind: FileNodeType,
}

/// The mathematical value of a [`WalkEntry`].
pub struct EntryView {
    pub components: Seq<Seq<char>>,
    pub kind: FileNodeType,
}

impl View for WalkEntry {
    type V = EntryView;

    open spec fn view(&self) -> EntryView {
        EntryView { components: texts(self.components@), kind: self.kind }
    }
}

/// The values of a list of entries.
pub open spec fn entry_views(entries: Seq<WalkEntry>) -> Seq<EntryView> {
    entries.map_values(|e: WalkEntry| e@)
}

/// Copies of the first `count` strings of `strings`.
pub fn clone_strings(strings: &Vec<String>, count: usize) -> (copies: Vec<String>)
    requires
        count <= strings.len(),
    ensures
        texts(copies@) == texts(strings@).take(count as int),
{
    let mut copies: Vec<String> = Vec::new();
    let mut i: usize = 0;
    while i < count
        invariant
            i <= count <= strings.len(),
            texts(copies@) == texts(strings@).take(i as int),
        decreases count - i,
    {
        let ghost before = copies@;
        let copy = strings[i].clone();
        copies.push(copy);
        assert(texts(copies@) =~= texts(before).push(copy@));
        assert(texts(strings@).take(i as int + 1) =~= texts(strings@).take(i as int).push(
            strings@[i as int]@,
        ));
        i = i + 1;
    }
    copies
}

impl Clone for WalkEntry {
    fn clone(&self) -> (copy: Self)
        ensures
            copy@ == self@,
    {
        let components = clone_strings(&self.components, self.components.len());
        assert(texts(self.components@).take(self.components.len() as int) =~= texts(
            self.components@,
        ));
        WalkEntry { components, kind: self.kind }
    }
}

/// The path below the root as one text, its names joined by slashes. This is
/// the text that patterns are matched against.
pub open spec fn relative_text(components: Seq<Seq<char>>) -> Seq<char> {
    joined(components, "/"@)
}

/// Whether a walk descends into an entry: the root always, any other
/// directory if the matcher lets a walk descend into it, nothing else.
pub open spec fn is_descended_into(entry: EntryView, m: MatcherView) -> bool {
    entry.kind == FileNodeType::Directory && (entry.components.len() == 0 || includes_directory(
        m,
        relative_text(entry.components),
    ))
}

/// Whether an entry becomes a node: it is not a directory, it lies below the
/// root and no deeper than `max_depth`, the matcher lets it through as a
/// file, and the matcher lets a walk descend into every directory above it.
pub open spec fn is_candidate(entry: EntryView, m: MatcherView, max_depth: nat) -> bool {
    &&& entry.kind != FileNodeType::Directory
    &&& 1 <= entry.components.len() <= max_depth
    &&& forall|k: int|
        1 <= k < entry.components.len() ==> includes_directory(
            m,
            relative_text(#[trigger] entry.components.take(k)),
        )
    &&& includes_file(m, relative_text(entry.components))
}

/// Nothing below a directory that a walk does not descend into becomes a
/// node, so a walk that leaves such directories out loses no candidate.
pub proof fn lemma_nothing_below_a_pruned_directory(
    directory: EntryView,
    entry: EntryView,
    m: MatcherView,
    max_depth: nat,
)
    requires
        directory.kind == FileNodeType::Directory,
        !is_descended_into(directory, m),
        directory.components.len() < entry.components.len(),
        entry.components.take(directory.components.len() as int) == directory.components,
    ensures
        !is_candidate(entry, m, max_depth),
{
}

/// The entries that become nodes: the first `max_files` candidates, in the
/// order of the walk.
pub open spec fn candidates_of(
    entries: Seq<EntryView>,
    m: MatcherView,
    max_files: nat,
    max_depth: nat,
) -> Seq<EntryView>
    decreases entries.len(),
{
    if entries.len() == 0 {
        Seq::empty()
    } else {
        let before = candidates_of(entries.drop_last(), m, max_files, max_depth);
        if before.len() < max_files && is_candidate(entries.last(), m, max_depth) {
            before.push(entries.last())
        } else {
            before
        }
    }
}

/// Never more than `max_files` entries are chosen, and each of them is a
/// candidate among the entries.
#[verifier::rlimit(50)]
pub proof fn lemma_candidates_of(
    entries: Seq<EntryView>,
    m: MatcherView,
    max_files: nat,
    max_depth: nat,
)
    ensures
        candidates_of(entries, m, max_files, max_depth).len() <= max_files,
        candidates_of(entries, m, max_files, max_depth).len() <= entries.len(),
        forall|i: int|
            0 <= i < candidates_of(entries, m, max_files, max_depth).len() ==> {
                &&& is_candidate(
                    #[trigger] candidates_of(entries, m, max_files, max_depth)[i],
                    m,
                    max_depth,
                )
                &&& entries.contains(candidates_of(entries, m, max_files, max_depth)[i])
            },
    decreases entries.len(),
{
    if entries.len() > 0 {
        let rest = entries.drop_last();
        lemma_candidates_of(rest, m, max_files, max_depth);
        let before = candidates_of(rest, m, max_files, max_depth);
        let chosen = candidates_of(entries, m, max_files, max_depth);
        assert forall|i: int| 0 <= i < chosen.len() implies entries.contains(
            #[trigger] chosen[i],
        ) by {
            if i < before.len() {
                assert(rest.contains(before[i]));
                let k = choose|k: int| 0 <= k < rest.len() && rest[k] == before[i];
                assert(entries[k] == before[i]);
            } else {
                assert(entries[entries.len() - 1] == chosen[i]);
            }
        }
    }
}

/// The children of one directory: the directory's path below the root and
/// the candidates that lie directly in it, each by its place in the list of
/// candidates.
#[derive(Debug)]
pub struct DirectoryRecord {
    pub components: Vec<String>,
    pub files: Vec<usize>,
}

/// The mathematical value of a [`DirectoryRecord`].
pub struct RecordView {
    pub components: Seq<Seq<char>>,
    pub files: Seq<usize>,
}

impl View for DirectoryRecord {
    type V = RecordView;

    open spec fn view(&self) -> RecordView {
        RecordView { components: texts(self.components@), files: self.files@ }
    }
}

/// The values of a list of records.
pub open spec fn record_views(records: Seq<DirectoryRecord>) -> Seq<RecordView> {
    records.map_values(|r: DirectoryRecord| r@)
}

/// The place of the first record of the directory `path`; the length of the
/// list if there is none.
pub open spec fn record_index(records: Seq<RecordView>, path: Seq<Seq<char>>) -> int
    decreases records.len(),
{
    if records.len() == 0 || records[0].components == path {
        0
    } else {
        1 + record_index(records.drop_first(), path)
    }
}

/// Where `record_index` points.
pub proof fn lemma_record_index(records: Seq<RecordView>, path: Seq<Seq<char>>)
    ensures
        0 <= record_index(records, path) <= records.len(),
        record_index(records, path) < records.len() ==> records[record_index(
            records,
            path,
        )].components == path,
        forall|i: int|
            0 <= i < record_index(records, path) ==> (#[trigger] records[i]).components != path,
    decreases records.len(),
{
    if !(records.len() == 0 || records[0].components == path) {
        let rest = records.drop_first();
        lemma_record_index(rest, path);
        assert forall|i: int| 0 <= i < record_index(records, path) implies (
        #[trigger] records[i]).components != path by {
            if i > 0 {
                assert(records[i] == rest[i - 1]);
            }
        }
    }
}

/// The records, with one for `path` at the end if there was none.
pub open spec fn with_directory(records: Seq<RecordView>, path: Seq<Seq<char>>) -> Seq<
    RecordView,
> {
    if record_index(records, path) < records.len() {
        records
    } else {
        records.push(RecordView { components: path, files: Seq::empty() })
    }
}

/// The records, with one for each of the `count` shortest prefixes of
/// `components`: the root, the directory below it, and so on.
pub open spec fn with_ancestors(
    records: Seq<RecordView>,
    components: Seq<Seq<char>>,
    count: nat,
) -> Seq<RecordView>
    decreases count,
{
    if count == 0 {
        records
    } else {
        with_directory(
            with_ancestors(records, components, (count - 1) as nat),
            components.take(count - 1),
        )
    }
}

/// The records, with `index` added to the files of the directory `path`.
pub open spec fn with_file(records: Seq<RecordView>, path: Seq<Seq<char>>, index: usize) -> Seq<
    RecordView,
> {
    let at = record_index(records, path);
    if at < records.len() {
        records.update(
            at,
            RecordView { components: records[at].components, files: records[at].files.push(index) },
        )
    } else {
        records
    }
}

/// The adjacency of the first `count` candidates: each of them registers
/// every directory above it, up to the root, and then itself under the
/// directory it lies in.
pub open spec fn adjacency_of(candidates: Seq<EntryView>, count: nat) -> Seq<RecordView>
    decreases count,
{
    if count == 0 || count > candidates.len() {
        Seq::empty()
    } else {
        let components = candidates[count - 1].components;
        let registered = with_ancestors(
            adjacency_of(candidates, (count - 1) as nat),
            components,
            components.len(),
        );
        if components.len() == 0 {
            registered
        } else {
            with_file(registered, components.drop_last(), (count - 1) as usize)
        }
    }
}

/// The full path of a node: the root's path, and below the root a slash and
/// the path relative to it.
pub open spec fn node_path(root_path: Seq<char>, components: Seq<Seq<char>>) -> Seq<char> {
    if components.len() == 0 {
        root_path
    } else {
        root_path + "/"@ + relative_text(components)
    }
}

/// The depth of a node as its `depth` field holds it: the number of names
/// in its path, or `u32::MAX` if that is more.
pub open spec fn depth_of(levels: nat) -> u32 {
    if levels <= u32::MAX {
        levels as u32
    } else {
        u32::MAX
    }
}

/// Whether the content of an entry belongs in the digest: a file, no larger
/// than `max_file_size`, let through by the matcher, and not binary by its
/// extension.
pub open spec fn has_content(entry: EntryView, size: u64, m: MatcherView, max_file_size: u64) -> bool {
    &&& entry.kind == FileNodeType::File
    &&& size <= max_file_size
    &&& includes_file(m, relative_text(entry.components))
    &&& !is_binary_path(relative_text(entry.components))
}

/// The node that stands for an entry of the given size.
pub open spec fn leaf_node(
    entry: EntryView,
    root_path: Seq<char>,
    size: u64,
    m: MatcherView,
    max_file_size: u64,
) -> NodeView {
    NodeView {
        name: if entry.components.len() > 0 {
            entry.components.last()
        } else {
            Seq::empty()
        },
        path: node_path(root_path, entry.components),
        relative_path: relative_text(entry.components),
        node_type: entry.kind,
        size,
        has_content: has_content(entry, size, m, max_file_size),
        children: Seq::empty(),
        depth: depth_of(entry.components.len()),
    }
}

/// What becomes of the content of a file when the content is gathered with
/// the node.
#[derive(Debug, Clone, Copy, PartialEq, Eq, Structural)]
pub enum ContentDecision {
    /// The file is larger than the largest file that is processed.
    TooLarge,
    /// The matcher does not let the file through.
    Excluded,
    /// The file is binary by its extension.
    Binary,
    /// The file is processed, but larger than what is kept in memory.
    LargeNotIncluded,
    /// The content is to be read.
    Read,
}

/// A file above this size is processed without its content being read.
pub const EAGER_CONTENT_LIMIT: u64 = 1024 * 1024;

/// What becomes of the content of an entry of the given size. The checks
/// are made in this order: the size limit, the patterns, the extension, the
/// limit on content kept in memory.
pub open spec fn content_decision(
    entry: EntryView,
    size: u64,
    m: MatcherView,
    max_file_size: u64,
) -> ContentDecision {
    if size > max_file_size {
        ContentDecision::TooLarge
    } else if !includes_file(m, relative_text(entry.components)) {
        ContentDecision::Excluded
    } else if is_binary_path(relative_text(entry.components)) {
        ContentDecision::Binary
    } else if size > EAGER_CONTENT_LIMIT {
        ContentDecision::LargeNotIncluded
    } else {
        ContentDecision::Read
    }
}

impl ContentDecision {
    /// What stands in place of the content, if the content is not read.
    pub open spec fn placeholder_text(self) -> Option<Seq<char>> {
        match self {
            ContentDecision::TooLarge => Some("File too large to process"@),
            ContentDecision::Excluded => Some("File excluded by patterns"@),
            ContentDecision::Binary => Some("Binary file"@),
            ContentDecision::LargeNotIncluded => Some("Large file - content not included"@),
            ContentDecision::Read => None,
        }
    }

    /// What stands in place of the content, if the content is not read.
    pub fn placeholder(&self) -> (text: Option<String>)
        ensures
            match text {
                Some(text) => self.placeholder_text() == Some(text@),
                None => self.placeholder_text() is None,
            },
    {
        match self {
            ContentDecision::TooLarge => Some(String::from_str("File too large to process")),
            ContentDecision::Excluded => Some(String::from_str("File excluded by patterns")),
            ContentDecision::Binary => Some(String::from_str("Binary file")),
            ContentDecision::LargeNotIncluded => Some(
                String::from_str("Large file - content not included"),
            ),
            ContentDecision::Read => None,
        }
    }
}

/// The size limit is inclusive. Of a file that the matcher lets through and
/// that is not binary, the content belongs in the digest exactly when the
/// file is no larger than the limit: at the limit it does, one byte above
/// it does not.
pub proof fn lemma_size_limit_is_inclusive(
    entry: EntryView,
    size: u64,
    m: MatcherView,
    max_file_size: u64,
)
    requires
        entry.kind == FileNodeType::File,
        includes_file(m, relative_text(entry.components)),
        !is_binary_path(relative_text(entry.components)),
    ensures
        has_content(entry, size, m, max_file_size) <==> size <= max_file_size,
        has_content(entry, max_file_size, m, max_file_size),
        max_file_size < u64::MAX ==> !has_content(
            entry,
            (max_file_size + 1) as u64,
            m,
            max_file_size,
        ),
{
}

/// Whether `a` holds the same texts as the first `count` strings of `b`.
pub fn prefix_equals(a: &Vec<String>, b: &Vec<String>, count: usize) -> (r: bool)
    requires
        count <= b.len(),
    ensures
        r == (texts(a@) == texts(b@).take(count as int)),
{
    if a.len() != count {
        assert(texts(a@).len() != texts(b@).take(count as int).len());
        return false;
    }
    let mut i: usize = 0;
    while i < count
        invariant
            i <= count <= b.len(),
            a.len() == count,
            forall|k: int| 0 <= k < i ==> a@[k]@ == b@[k]@,
        decreases count - i,
    {
        if !str_eq(a[i].as_str(), b[i].as_str()) {
            assert(texts(a@)[i as int] != texts(b@).take(count as int)[i as int]);
            return false;
        }
        i = i + 1;
    }
    assert(texts(a@) =~= texts(b@).take(count as int));
    true
}

/// The full path of the node at `components[..count]` below `root_path`.
pub fn full_path(root_path: &str, components: &Vec<String>, count: usize) -> (path: String)
    requires
        count <= components.len(),
    ensures
        path@ == node_path(root_path@, texts(components@).take(count as int)),
{
    let mut path = String::from_str(root_path);
    if count > 0 {
        path.append("/");
        let relative = join(components, count, "/");
        path.append(relative.as_str());
    }
    path
}

/// The number of levels as a node's `depth` field holds it.
pub fn depth_field(levels: usize) -> (depth: u32)
    ensures
        depth == depth_of(levels as nat),
{
    if levels > u32::MAX as usize {
        u32::MAX
    } else {
        levels as u32
    }
}

impl FileService {
    /// What a failure of the walk means. At the root, at depth 0, it ends
    /// the run with a file system error that carries the detail; below the
    /// root the entry that failed is passed over and the walk goes on.
    pub fn walk_failure(depth: usize, detail: String) -> (fatal: Option<GitingestError>)
        ensures
            depth == 0 ==> (fatal matches Some(GitingestError::FileSystemError(message))
                && message@ == detail@),
            depth > 0 ==> fatal is None,
    {
        if depth == 0 {
            Some(GitingestError::FileSystemError(detail))
        } else {
            None
        }
    }

    /// Whether the walk is to descend into an entry. What lies below a
    /// directory that is not descended into is never looked at.
    pub fn descends_into(entry: &WalkEntry, matcher: &CompiledMatcher) -> (r: bool)
        ensures
            r == is_descended_into(entry@, matcher@),
    {
        if entry.kind != FileNodeType::Directory {
            return false;
        }
        let levels = entry.components.len();
        if levels == 0 {
            return true;
        }
        let path = join(&entry.components, levels, "/");
        assert(texts(entry.components@).take(levels as int) =~= texts(entry.components@));
        matcher.includes_directory(path.as_str())
    }

    /// Whether an entry of the walk becomes a node.
    pub fn is_candidate_entry(entry: &WalkEntry, matcher: &CompiledMatcher, max_depth: u32) -> (r:
        bool)
        ensures
            r == is_candidate(entry@, matcher@, max_depth as nat),
    {
        if entry.kind == FileNodeType::Directory {
            return false;
        }
        let levels = entry.components.len();
        if levels == 0 || levels > max_depth as usize {
            return false;
        }
        // A directory that the walk does not descend into hides all below it.
        let mut k: usize = 1;
        while k < levels
            invariant
                1 <= k <= levels,
                levels == entry.components.len(),
                forall|j: int|
                    1 <= j < k ==> includes_directory(
                        matcher@,
                        relative_text(#[trigger] entry@.components.take(j)),
                    ),
            decreases levels - k,
        {
            let directory = join(&entry.components, k, "/");
            if !matcher.includes_directory(directory.as_str()) {
                assert(!includes_directory(
                    matcher@,
                    relative_text(entry@.components.take(k as int)),
                ));
                return false;
            }
            k = k + 1;
        }
        let path = join(&entry.components, levels, "/");
        assert(texts(entry.components@).take(levels as int) =~= texts(entry.components@));
        matcher.includes_file(path.as_str())
    }

    /// Chooses, among the entries of a walk, those that become nodes.
    /// Once `max_files` are chosen the rest is left out, silently.
    pub fn select_candidates(
        entries: &Vec<WalkEntry>,
        matcher: &CompiledMatcher,
        max_files: usize,
        max_depth: u32,
    ) -> (candidates: Vec<WalkEntry>)
        ensures
            entry_views(candidates@) == candidates_of(
                entry_views(entries@),
                matcher@,
                max_files as nat,
                max_depth as nat,
            ),
    {
        let mut candidates: Vec<WalkEntry> = Vec::new();
        let mut i: usize = 0;
        assert(entry_views(entries@).take(0) =~= Seq::<EntryView>::empty());
        assert(entry_views(candidates@) =~= Seq::<EntryView>::empty());
        while i < entries.len()
            invariant
                i <= entries.len(),
                entry_views(candidates@) == candidates_of(
                    entry_views(entries@).take(i as int),
                    matcher@,
                    max_files as nat,
                    max_depth as nat,
                ),
            decreases entries.len() - i,
        {
            let ghost seen = entry_views(entries@).take(i as int + 1);
            assert(seen.drop_last() =~= entry_views(entries@).take(i as int));
            assert(seen.last() == entries@[i as int]@);
            if candidates.len() < max_files && Self::is_candidate_entry(
                &entries[i],
                matcher,
                max_depth,
            ) {
                let ghost before = candidates@;
                let chosen = entries[i].clone();
                candidates.push(chosen);
                assert(entry_views(candidates@) =~= entry_views(before).push(chosen@));
            }
            i = i + 1;
        }
        assert(entry_views(entries@).take(i as int) =~= entry_views(entries@));
        candidates
    }

    /// The place of the first record of the directory `components[..count]`.
    pub fn find_record(records: &Vec<DirectoryRecord>, components: &Vec<String>, count: usize) -> (at:
        usize)
        requires
            count <= components.len(),
        ensures
            at == record_index(record_views(records@), texts(components@).take(count as int)),
            at <= records.len(),
    {
        let ghost all = record_views(records@);
        let ghost path = texts(components@).take(count as int);
        let mut at: usize = 0;
        assert(all.skip(0) =~= all);
        while at < records.len() && !prefix_equals(&records[at].components, components, count)
            invariant
                at <= records.len(),
                all == record_views(records@),
                path == texts(components@).take(count as int),
                count <= components.len(),
                record_index(all, path) == at + record_index(all.skip(at as int), path),
            decreases records.len() - at,
        {
            assert(all.skip(at as int)[0] == records@[at as int]@);
            assert(all.skip(at as int).drop_first() =~= all.skip(at as int + 1));
            at = at + 1;
        }
        proof {
            if at < records.len() {
                assert(all.skip(at as int)[0] == records@[at as int]@);
            } else {
                assert(all.skip(at as int).len() == 0);
            }
        }
        at
    }

    /// The place of the record of the directory `components[..count]`, looked
    /// for at `hint` first. Candidates come in the order of a walk, so the
    /// directory of one is most often the directory of the one before.
    pub fn find_record_near(
        records: &Vec<DirectoryRecord>,
        components: &Vec<String>,
        count: usize,
        hint: usize,
    ) -> (at: usize)
        requires
            count <= components.len(),
            distinct_directories(record_views(records@)),
        ensures
            at == record_index(record_views(records@), texts(components@).take(count as int)),
            at <= records.len(),
    {
        if hint < records.len() && prefix_equals(&records[hint].components, components, count) {
            proof {
                let all = record_views(records@);
                let path = texts(components@).take(count as int);
                lemma_record_index(all, path);
                assert(all[hint as int].components == path);
            }
            hint
        } else {
            Self::find_record(records, components, count)
        }
    }

    /// Builds the adjacency of the candidates: one record for each
    /// directory that lies above a candidate, the root among them, and in
    /// each record the candidates that lie directly in that directory.
    #[verifier::rlimit(50)]
    pub fn build_adjacency(candidates: &Vec<WalkEntry>) -> (records: Vec<DirectoryRecord>)
        ensures
            record_views(records@) == adjacency_of(
                entry_views(candidates@),
                candidates.len() as nat,
            ),
    {
        let ghost all = entry_views(candidates@);
        let mut records: Vec<DirectoryRecord> = Vec::new();
        // Where the directory of each level was found for the last candidate.
        let mut hints: Vec<usize> = Vec::new();
        let mut i: usize = 0;
        assert(record_views(records@) =~= Seq::<RecordView>::empty());
        while i < candidates.len()
            invariant
                i <= candidates.len(),
                all == entry_views(candidates@),
                record_views(records@) == adjacency_of(all, i as nat),
                distinct_directories(record_views(records@)),
            decreases candidates.len() - i,
        {
            let components = &candidates[i].components;
            let levels = components.len();
            assert(all[i as int].components == texts(components@));
            let ghost start = record_views(records@);
            let mut k: usize = 0;
            while k < levels
                invariant
                    k <= levels,
                    levels == components.len(),
                    record_views(records@) == with_ancestors(start, texts(components@), k as nat),
                    distinct_directories(record_views(records@)),
                decreases levels - k,
            {
                let hint = if k < hints.len() {
                    hints[k]
                } else {
                    0
                };
                let at = Self::find_record_near(&records, components, k, hint);
                proof {
                    lemma_with_directory(
                        record_views(records@),
                        texts(components@).take(k as int),
                    );
                }
                if at == records.len() {
                    let ghost before = records@;
                    let record = DirectoryRecord {
                        components: clone_strings(components, k),
                        files: Vec::new(),
                    };
                    records.push(record);
                    assert(record_views(records@) =~= record_views(before).push(record@));
                    assert(record@.files =~= Seq::<usize>::empty());
                }
                if k < hints.len() {
                    hints.set(k, at);
                } else {
                    hints.push(at);
                }
                k = k + 1;
            }
            if levels > 0 {
                let hint = if levels - 1 < hints.len() {
                    hints[levels - 1]
                } else {
                    0
                };
                let at = Self::find_record_near(&records, components, levels - 1, hint);
                assert(texts(components@).take(levels as int - 1) =~= texts(
                    components@,
                ).drop_last());
                proof {
                    lemma_with_file(record_views(records@), texts(components@).drop_last(), i);
                }
                if at < records.len() {
                    let ghost before = records@;
                    records[at].files.push(i);
                    assert(record_views(records@) =~= with_file(
                        record_views(before),
                        texts(components@).drop_last(),
                        i,
                    ));
                }
            }
            i = i + 1;
        }
        records
    }

    /// Makes the node of an entry whose size is known, and decides what
    /// becomes of its content when content is gathered with the node.
    pub fn process_file(
        entry: &WalkEntry,
        root_path: &str,
        size: u64,
        matcher: &CompiledMatcher,
        max_file_size: u64,
    ) -> (r: (FileNode, ContentDecision))
        ensures
            r.0@ == leaf_node(entry@, root_path@, size, matcher@, max_file_size),
            r.1 == content_decision(entry@, size, matcher@, max_file_size),
    {
        let node = Self::process_file_lazy(entry, root_path, size, matcher, max_file_size);
        proof {
            node.lemma_view();
        }
        // Quick checks first.
        let decision = if size > max_file_size {
            ContentDecision::TooLarge
        } else if !matcher.includes_file(node.relative_path.as_str()) {
            ContentDecision::Excluded
        } else if is_binary_file(node.relative_path.as_str()) {
            ContentDecision::Binary
        } else if size > EAGER_CONTENT_LIMIT {
            ContentDecision::LargeNotIncluded
        } else {
            ContentDecision::Read
        };
        (node, decision)
    }

    /// Makes the node of an entry whose size is known. The content of a
    /// file belongs in the digest if the file is no larger than
    /// `max_file_size`, the matcher lets it through and it is not binary.
    pub fn process_file_lazy(
        entry: &WalkEntry,
        root_path: &str,
        size: u64,
        matcher: &CompiledMatcher,
        max_file_size: u64,
    ) -> (node: FileNode)
        ensures
            node@ == leaf_node(entry@, root_path@, size, matcher@, max_file_size),
    {
        let levels = entry.components.len();
        assert(texts(entry.components@).take(levels as int) =~= texts(entry.components@));
        let name = if levels > 0 {
            entry.components[levels - 1].clone()
        } else {
            String::new()
        };
        let relative_path = join(&entry.components, levels, "/");
        let has_content = entry.kind == FileNodeType::File && size <= max_file_size
            && matcher.includes_file(relative_path.as_str()) && !is_binary_file(
            relative_path.as_str(),
        );
        let node = FileNode {
            name,
            path: full_path(root_path, &entry.components, levels),
            relative_path,
            node_type: entry.kind,
            size,
            has_content,
            children: Vec::new(),
            depth: depth_field(levels),
        };
        proof {
            node.lemma_view();
            assert(node@.children =~= Seq::<NodeView>::empty());
        }
        node
    }
}

/// Whether no directory has two records.
pub open spec fn distinct_directories(records: Seq<RecordView>) -> bool {
    forall|r: int, s: int|
        0 <= r < s < records.len() ==> (#[trigger] records[r]).components != (
        #[trigger] records[s]).components
}

/// Whether `after` holds the records of `before` at the same places, each
/// with the same directory and at least the same files.
pub open spec fn extends(before: Seq<RecordView>, after: Seq<RecordView>) -> bool {
    &&& before.len() <= after.len()
    &&& forall|r: int|
        0 <= r < before.len() ==> (#[trigger] after[r]).components == before[r].components
    &&& forall|r: int, x: usize|
        0 <= r < before.len() && #[trigger] before[r].files.contains(x) ==> after[r].files.contains(
            x,
        )
}

/// A file that a record lists is still listed when the records are extended.
pub proof fn lemma_extends_keeps_file(
    before: Seq<RecordView>,
    after: Seq<RecordView>,
    r: int,
    x: usize,
)
    requires
        extends(before, after),
        0 <= r < before.len(),
        before[r].files.contains(x),
    ensures
        after[r].files.contains(x),
{
}

/// The first record of a directory is at `at` if that record is of the
/// directory and none before it is.
pub proof fn lemma_record_index_is(records: Seq<RecordView>, path: Seq<Seq<char>>, at: int)
    requires
        0 <= at < records.len(),
        records[at].components == path,
        forall|i: int| 0 <= i < at ==> (#[trigger] records[i]).components != path,
    ensures
        record_index(records, path) == at,
    decreases at,
{
    if at > 0 {
        let rest = records.drop_first();
        assert(records[0].components != path);
        assert forall|i: int| 0 <= i < at - 1 implies (#[trigger] rest[i]).components != path by {
            assert(rest[i] == records[i + 1]);
        }
        lemma_record_index_is(rest, path, at - 1);
    }
}

/// A directory that has a record keeps the place of its first record when
/// the records are extended.
pub proof fn lemma_extends_keeps_index(
    before: Seq<RecordView>,
    after: Seq<RecordView>,
    path: Seq<Seq<char>>,
)
    requires
        extends(before, after),
        record_index(before, path) < before.len(),
    ensures
        record_index(after, path) == record_index(before, path),
{
    lemma_record_index(before, path);
    let at = record_index(before, path);
    assert forall|i: int| 0 <= i < at implies (#[trigger] after[i]).components != path by {
        assert(before[i].components != path);
    }
    lemma_record_index_is(after, path, at);
}

/// Extending is transitive.
pub proof fn lemma_extends_transitive(
    a: Seq<RecordView>,
    b: Seq<RecordView>,
    c: Seq<RecordView>,
)
    requires
        extends(a, b),
        extends(b, c),
    ensures
        extends(a, c),
{
    assert forall|r: int| 0 <= r < a.len() implies (#[trigger] c[r]).components
        == a[r].components by {
        assert(b[r].components == a[r].components);
    }
    assert forall|r: int, x: usize|
        0 <= r < a.len() && #[trigger] a[r].files.contains(x) implies c[r].files.contains(x) by {
        assert(b[r].files.contains(x));
    }
}

/// What `with_directory` does: it extends the records, the directory has a
/// record afterwards, and no other directory was added.
pub proof fn lemma_with_directory(records: Seq<RecordView>, path: Seq<Seq<char>>)
    ensures
        extends(records, with_directory(records, path)),
        distinct_directories(records) ==> distinct_directories(with_directory(records, path)),
        record_index(with_directory(records, path), path) < with_directory(records, path).len(),
        forall|r: int|
            records.len() <= r < with_directory(records, path).len() ==> (#[trigger] with_directory(
                records,
                path,
            )[r]).components == path,
{
    lemma_record_index(records, path);
    let after = with_directory(records, path);
    if record_index(records, path) >= records.len() {
        assert forall|i: int| 0 <= i < records.len() implies (#[trigger] after[i]).components
            != path by {
            assert(records[i].components != path);
        }
        lemma_record_index_is(after, path, records.len() as int);
        if distinct_directories(records) {
            assert forall|r: int, s: int| 0 <= r < s < after.len() implies (
            #[trigger] after[r]).components != (#[trigger] after[s]).components by {
                if s < records.len() {
                    assert(records[r].components != records[s].components);
                }
            }
        }
    }
}

/// What `with_ancestors` does: it extends the records, each of the `count`
/// shortest prefixes has a record afterwards, and only such prefixes were
/// added.
#[verifier::rlimit(50)]
pub proof fn lemma_with_ancestors(
    records: Seq<RecordView>,
    components: Seq<Seq<char>>,
    count: nat,
)
    requires
        count <= components.len(),
    ensures
        extends(records, with_ancestors(records, components, count)),
        distinct_directories(records) ==> distinct_directories(
            with_ancestors(records, components, count),
        ),
        forall|k: int|
            0 <= k < count ==> record_index(
                with_ancestors(records, components, count),
                #[trigger] components.take(k),
            ) < with_ancestors(records, components, count).len(),
        forall|r: int|
            records.len() <= r < with_ancestors(records, components, count).len() ==> exists|
                k: int,
            |
                0 <= k < count && (#[trigger] with_ancestors(
                    records,
                    components,
                    count,
                )[r]).components == #[trigger] components.take(k),
    decreases count,
{
    if count > 0 {
        let before = with_ancestors(records, components, (count - 1) as nat);
        let path = components.take(count - 1);
        let after = with_ancestors(records, components, count);
        lemma_with_ancestors(records, components, (count - 1) as nat);
        lemma_with_directory(before, path);
        lemma_extends_transitive(records, before, after);
        assert forall|k: int| 0 <= k < count implies record_index(
            after,
            #[trigger] components.take(k),
        ) < after.len() by {
            if k < count - 1 {
                lemma_extends_keeps_index(before, after, components.take(k));
            }
        }
        assert forall|r: int| records.len() <= r < after.len() implies exists|k: int|
            0 <= k < count && (#[trigger] after[r]).components == #[trigger] components.take(
                k,
            ) by {
            if r < before.len() {
                let k = choose|k: int|
                    0 <= k < count - 1 && (#[trigger] before[r]).components
                        == #[trigger] components.take(k);
                assert(after[r].components == components.take(k));
            } else {
                assert(after[r].components == components.take(count - 1));
            }
        }
    }
}

/// What `with_file` does: it extends the records without adding any, and
/// the directory, if it has a record, lists the file afterwards.
pub proof fn lemma_with_file(records: Seq<RecordView>, path: Seq<Seq<char>>, index: usize)
    ensures
        extends(records, with_file(records, path, index)),
        distinct_directories(records) ==> distinct_directories(with_file(records, path, index)),
        with_file(records, path, index).len() == records.len(),
        record_index(records, path) < records.len() ==> {
            &&& record_index(with_file(records, path, index), path) == record_index(records, path)
            &&& with_file(records, path, index)[record_index(records, path)].files.contains(index)
        },
{
    lemma_record_index(records, path);
    let at = record_index(records, path);
    let after = with_file(records, path, index);
    if at < records.len() {
        assert forall|r: int, x: usize|
            0 <= r < records.len() && #[trigger] records[r].files.contains(
                x,
            ) implies after[r].files.contains(x) by {
            if r == at {
                let j = choose|j: int| 0 <= j < records[r].files.len() && records[r].files[j] == x;
                assert(after[r].files[j] == x);
            }
        }
        assert(after[at].files[records[at].files.len() as int] == index);
        lemma_extends_keeps_index(records, after, path);
        if distinct_directories(records) {
            assert forall|r: int, s: int| 0 <= r < s < after.len() implies (
            #[trigger] after[r]).components != (#[trigger] after[s]).components by {
                assert(records[r].components != records[s].components);
            }
        }
    }
}

/// Whether `path` is the path of a directory above one of the first `count`
/// candidates.
pub open spec fn lies_above_candidate(
    path: Seq<Seq<char>>,
    candidates: Seq<EntryView>,
    count: nat,
) -> bool {
    exists|i: int, k: int|
        0 <= i < count && i < candidates.len() && 0 <= k < candidates[i].components.len() && path
            == #[trigger] candidates[i].components.take(k)
}

/// What the adjacency holds: a record for every directory above a
/// candidate, the root among them; no record for any other directory and no
/// two records for one directory; and each candidate among the files of the
/// record of the directory it lies in.
#[verifier::rlimit(50)]
pub proof fn lemma_adjacency_of(candidates: Seq<EntryView>, count: nat)
    requires
        count <= candidates.len(),
        count <= usize::MAX,
    ensures
        distinct_directories(adjacency_of(candidates, count)),
        forall|i: int, k: int|
            0 <= i < count && 0 <= k < candidates[i].components.len() ==> record_index(
                adjacency_of(candidates, count),
                #[trigger] candidates[i].components.take(k),
            ) < adjacency_of(candidates, count).len(),
        forall|r: int|
            0 <= r < adjacency_of(candidates, count).len() ==> lies_above_candidate(
                (#[trigger] adjacency_of(candidates, count)[r]).components,
                candidates,
                count,
            ),
        forall|i: int|
            0 <= i < count && candidates[i].components.len() > 0 ==> adjacency_of(
                candidates,
                count,
            )[record_index(
                adjacency_of(candidates, count),
                #[trigger] candidates[i].components.drop_last(),
            )].files.contains(i as usize),
    decreases count,
{
    if count > 0 {
        let last = (count - 1) as nat;
        let components = candidates[last as int].components;
        let before = adjacency_of(candidates, last);
        let registered = with_ancestors(before, components, components.len());
        let after = adjacency_of(candidates, count);
        lemma_adjacency_of(candidates, last);
        lemma_with_ancestors(before, components, components.len());
        if components.len() > 0 {
            lemma_with_file(registered, components.drop_last(), last as usize);
            assert(components.drop_last() =~= components.take(components.len() - 1));
        }
        assert(extends(registered, after));
        lemma_extends_transitive(before, registered, after);
        assert forall|i: int, k: int|
            0 <= i < count && 0 <= k < candidates[i].components.len() implies record_index(
            after,
            #[trigger] candidates[i].components.take(k),
        ) < after.len() by {
            let path = candidates[i].components.take(k);
            if i < last {
                lemma_extends_keeps_index(before, after, path);
            } else {
                lemma_extends_keeps_index(registered, after, path);
            }
        }
        assert forall|r: int| 0 <= r < after.len() implies lies_above_candidate(
            (#[trigger] after[r]).components,
            candidates,
            count,
        ) by {
            assert(after[r].components == registered[r].components);
            if r < before.len() {
                assert(lies_above_candidate(before[r].components, candidates, last));
                let (i, k) = choose|i: int, k: int|
                    0 <= i < last && i < candidates.len() && 0 <= k
                        < candidates[i].components.len() && before[r].components
                        == #[trigger] candidates[i].components.take(k);
                assert(after[r].components == candidates[i].components.take(k));
            } else {
                let k = choose|k: int|
                    0 <= k < components.len() && (#[trigger] registered[r]).components
                        == #[trigger] components.take(k);
                assert(after[r].components == candidates[last as int].components.take(k));
            }
        }
        assert forall|i: int|
            0 <= i < count && candidates[i].components.len() > 0 implies after[record_index(
            after,
            #[trigger] candidates[i].components.drop_last(),
        )].files.contains(i as usize) by {
            let path = candidates[i].components.drop_last();
            assert(path =~= candidates[i].components.take(candidates[i].components.len() - 1));
            if i < last {
                assert(record_index(before, candidates[i].components.take(
                    candidates[i].components.len() - 1,
                )) < before.len());
                lemma_extends_keeps_index(before, after, path);
                let at = record_index(before, path);
                assert(before[at].files.contains(i as usize));
                lemma_record_index(before, path);
                lemma_extends_keeps_file(before, after, at, i as usize);
            } else {
                lemma_record_index(registered, path);
            }
        }
    }
}

/// Whether every file that a record lists is one of the first `count`
/// candidates and lies directly in the record's directory.
pub open spec fn files_lie_in(
    records: Seq<RecordView>,
    candidates: Seq<EntryView>,
    count: nat,
) -> bool {
    forall|r: int, j: int|
        0 <= r < records.len() && 0 <= j < records[r].files.len() ==> {
            let index = #[trigger] records[r].files[j] as int;
            &&& index < count
            &&& index < candidates.len()
            &&& candidates[index].components.len() > 0
            &&& candidates[index].components.drop_last() == records[r].components
        }
}

/// Registering directories adds no file to any record.
proof fn lemma_with_ancestors_keeps_files(
    records: Seq<RecordView>,
    components: Seq<Seq<char>>,
    levels: nat,
    candidates: Seq<EntryView>,
    count: nat,
)
    requires
        files_lie_in(records, candidates, count),
    ensures
        files_lie_in(with_ancestors(records, components, levels), candidates, count),
    decreases levels,
{
    if levels > 0 {
        let before = with_ancestors(records, components, (levels - 1) as nat);
        let after = with_ancestors(records, components, levels);
        lemma_with_ancestors_keeps_files(
            records,
            components,
            (levels - 1) as nat,
            candidates,
            count,
        );
        assert forall|r: int, j: int|
            0 <= r < after.len() && 0 <= j < after[r].files.len() implies {
            let index = #[trigger] after[r].files[j] as int;
            &&& index < count
            &&& index < candidates.len()
            &&& candidates[index].components.len() > 0
            &&& candidates[index].components.drop_last() == after[r].components
        } by {
            if r < before.len() {
                assert(after[r] == before[r]);
                assert(before[r].files[j] == after[r].files[j]);
            }
        }
    }
}

/// The adjacency lists a candidate only under the directory it lies in.
#[verifier::rlimit(50)]
pub proof fn lemma_adjacency_files(candidates: Seq<EntryView>, count: nat)
    requires
        count <= candidates.len(),
        count <= usize::MAX,
    ensures
        files_lie_in(adjacency_of(candidates, count), candidates, count),
    decreases count,
{
    if count > 0 {
        let last = (count - 1) as nat;
        let components = candidates[last as int].components;
        let before = adjacency_of(candidates, last);
        let registered = with_ancestors(before, components, components.len());
        let after = adjacency_of(candidates, count);
        lemma_adjacency_files(candidates, last);
        assert(files_lie_in(before, candidates, count)) by {
            assert forall|r: int, j: int|
                0 <= r < before.len() && 0 <= j < before[r].files.len() implies {
                let index = #[trigger] before[r].files[j] as int;
                &&& index < count
                &&& index < candidates.len()
                &&& candidates[index].components.len() > 0
                &&& candidates[index].components.drop_last() == before[r].components
            } by {
                let index = before[r].files[j] as int;
                assert(index < last);
            }
        }
        lemma_with_ancestors_keeps_files(before, components, components.len(), candidates, count);
        if components.len() > 0 {
            let path = components.drop_last();
            let at = record_index(registered, path);
            lemma_record_index(registered, path);
            if at < registered.len() {
                assert forall|r: int, j: int|
                    0 <= r < after.len() && 0 <= j < after[r].files.len() implies {
                    let index = #[trigger] after[r].files[j] as int;
                    &&& index < count
                    &&& index < candidates.len()
                    &&& candidates[index].components.len() > 0
                    &&& candidates[index].components.drop_last() == after[r].components
                } by {
                    if r == at && j == registered[at].files.len() {
                        assert(after[r].files[j] == last as usize);
                    } else {
                        assert(after[r].files[j] == registered[r].files[j]);
                    }
                }
            }
        }
    }
}

/// Whether no two entries have the same path.
pub open spec fn distinct_paths(entries: Seq<EntryView>) -> bool {
    forall|i: int, j: int|
        0 <= i < j < entries.len() ==> (#[trigger] entries[i]).components != (
        #[trigger] entries[j]).components
}

/// Among entries with different paths, the candidates have different paths.
#[verifier::rlimit(50)]
pub proof fn lemma_candidates_are_distinct(
    entries: Seq<EntryView>,
    m: MatcherView,
    max_files: nat,
    max_depth: nat,
)
    requires
        distinct_paths(entries),
    ensures
        distinct_paths(candidates_of(entries, m, max_files, max_depth)),
    decreases entries.len(),
{
    if entries.len() > 0 {
        let rest = entries.drop_last();
        let before = candidates_of(rest, m, max_files, max_depth);
        let chosen = candidates_of(entries, m, max_files, max_depth);
        assert forall|i: int, j: int| 0 <= i < j < rest.len() implies (
        #[trigger] rest[i]).components != (#[trigger] rest[j]).components by {
            assert(rest[i] == entries[i] && rest[j] == entries[j]);
        }
        lemma_candidates_are_distinct(rest, m, max_files, max_depth);
        lemma_candidates_of(rest, m, max_files, max_depth);
        assert forall|i: int, j: int| 0 <= i < j < chosen.len() implies (
        #[trigger] chosen[i]).components != (#[trigger] chosen[j]).components by {
            if j < before.len() {
                assert(before[i].components != before[j].components);
            } else {
                assert(rest.contains(before[i]));
                let k = choose|k: int| 0 <= k < rest.len() && rest[k] == before[i];
                assert(entries[k].components != entries[entries.len() - 1].components);
            }
        }
    }
}

} // verus!
