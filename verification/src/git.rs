//! The files that a revision changed, as a version-control diff reports them.

use crate::path_map::{as_map, collected, distinct_keys, pairs_of, PathMap};
use crate::text::{
    chars_of, ends_in, ends_with, pieces, same_chars, split_pieces, string_of, strings_of, texts,
    Separator,
};
use vstd::prelude::*;

verus! {

/// What happened to a file.
#[derive(Debug, Clone, Copy, PartialEq, Eq, Structural)]
pub enum ChangeType {
    Added,
    Modified,
    Deleted,
}

/// The kind of change that a status word of a name-status listing stands
/// for: `A` an addition, `D` a deletion, anything else a modification.
pub open spec fn status_change_type(status: Seq<char>) -> ChangeType {
    if status == seq!['A'] {
        ChangeType::Added
    } else if status == seq!['D'] {
        ChangeType::Deleted
    } else {
        ChangeType::Modified
    }
}

impl ChangeType {
    /// Reads the status word of a name-status listing.
    pub fn from_status(status: &str) -> (change_type: ChangeType)
        ensures
            change_type == status_change_type(status@),
    {
        let word = chars_of(status);
        if word.len() == 1 && word[0] == 'A' {
            assert(word@ == seq!['A']);
            ChangeType::Added
        } else if word.len() == 1 && word[0] == 'D' {
            assert(word@ == seq!['D']);
            ChangeType::Deleted
        } else {
            assert(word@ != seq!['A']);
            assert(word@ != seq!['D']);
            ChangeType::Modified
        }
    }

    /// Whether a file changed in this way had content before the change:
    /// every file but an added one.
    pub fn has_base_content(self) -> (has: bool)
        ensures
            has == (self != ChangeType::Added),
    {
        match self {
            ChangeType::Added => false,
            _ => true,
        }
    }

    /// Whether a file changed in this way has content after the change:
    /// every file but a deleted one.
    pub fn has_current_content(self) -> (has: bool)
        ensures
            has == (self != ChangeType::Deleted),
    {
        match self {
            ChangeType::Deleted => false,
            _ => true,
        }
    }
}

/// One changed file: its content before and after, as far as it could be
/// had, and the kind of the change.
#[derive(Debug)]
pub struct FileChange {
    pub base_content: Option<String>,
    pub current_content: Option<String>,
    pub change_type: ChangeType,
}

/// The mathematical content of a [`FileChange`].
pub struct FileChangeView {
    pub base_content: Option<Seq<char>>,
    pub current_content: Option<Seq<char>>,
    pub change_type: ChangeType,
}

/// The text of a string that may be absent.
pub open spec fn text_of(content: Option<String>) -> Option<Seq<char>> {
    match content {
        Some(text) => Some(text@),
        None => None,
    }
}

impl View for FileChange {
    type V = FileChangeView;

    open spec fn view(&self) -> FileChangeView {
        FileChangeView {
            base_content: text_of(self.base_content),
            current_content: text_of(self.current_content),
            change_type: self.change_type,
        }
    }
}

impl Clone for FileChange {
    fn clone(&self) -> (copy: Self)
        ensures
            copy@ == self@,
    {
        FileChange {
            base_content: match &self.base_content {
                Some(text) => Some(text.clone()),
                None => None,
            },
            current_content: match &self.current_content {
                Some(text) => Some(text.clone()),
                None => None,
            },
            change_type: self.change_type,
        }
    }
}

/// Whether a path passes the suffix filter: there is no filter, or the path
/// ends with one of the suffixes.
pub open spec fn suffix_allowed(path: Seq<char>, suffixes: Seq<Seq<char>>) -> bool {
    suffixes.len() == 0 || exists|i: int|
        0 <= i < suffixes.len() && ends_with(path, #[trigger] suffixes[i])
}

/// What one line of a name-status listing reports: the path in its second
/// word with the kind of change in its first, where the line has two words
/// and the path passes the suffix filter.
pub open spec fn line_entry(line: Seq<char>, suffixes: Seq<Seq<char>>) -> Option<
    (Seq<char>, ChangeType),
> {
    let words = pieces(line, Separator::WhiteSpace);
    if words.len() >= 2 && suffix_allowed(words[1], suffixes) {
        Some((words[1], status_change_type(words[0])))
    } else {
        None
    }
}

/// What the lines of a name-status listing report, line by line.
pub open spec fn lines_entries(lines: Seq<Seq<char>>, suffixes: Seq<Seq<char>>) -> Seq<
    (Seq<char>, ChangeType),
>
    decreases lines.len(),
{
    if lines.len() == 0 {
        Seq::empty()
    } else {
        match line_entry(lines.last(), suffixes) {
            Some(entry) => lines_entries(lines.drop_last(), suffixes).push(entry),
            None => lines_entries(lines.drop_last(), suffixes),
        }
    }
}

/// What a name-status listing reports: one entry for each of its lines that
/// names a file which passes the suffix filter.
pub open spec fn name_status_entries(output: Seq<char>, suffixes: Seq<Seq<char>>) -> Seq<
    (Seq<char>, ChangeType),
> {
    lines_entries(pieces(output, Separator::LineFeed), suffixes)
}

/// The contents of a list of paths with their kinds of change.
pub open spec fn entries_of(entries: Seq<(String, ChangeType)>) -> Seq<(Seq<char>, ChangeType)> {
    entries.map_values(|e: (String, ChangeType)| (e.0@, e.1))
}

/// Whether `path` passes the suffix filter.
pub fn passes_suffix_filter(path: &Vec<char>, only_suffixes: &[String]) -> (passes: bool)
    ensures
        passes == suffix_allowed(path@, strings_of(only_suffixes@)),
{
    if only_suffixes.len() == 0 {
        return true;
    }
    let mut i: usize = 0;
    while i < only_suffixes.len()
        invariant
            i <= only_suffixes.len(),
            only_suffixes.len() > 0,
            forall|j: int| 0 <= j < i ==> !ends_with(path@, #[trigger] strings_of(only_suffixes@)[j]),
        decreases only_suffixes.len() - i,
    {
        assert(strings_of(only_suffixes@)[i as int] == only_suffixes@[i as int]@);
        if ends_in(path, &chars_of(only_suffixes[i].as_str())) {
            return true;
        }
        i = i + 1;
    }
    false
}

/// Reads a name-status listing: for each line, the kind of change in its
/// first word and the path in its second. Lines with fewer than two words
/// are passed over, and so are paths that the suffix filter turns away.
pub fn parse_name_status(output: &str, only_suffixes: &[String]) -> (entries: Vec<
    (String, ChangeType),
>)
    ensures
        entries_of(entries@) == name_status_entries(output@, strings_of(only_suffixes@)),
{
    let lines = split_pieces(&chars_of(output), Separator::LineFeed);
    let mut entries: Vec<(String, ChangeType)> = Vec::new();
    let mut i: usize = 0;
    while i < lines.len()
        invariant
            i <= lines.len(),
            entries_of(entries@) == lines_entries(
                texts(lines@).take(i as int),
                strings_of(only_suffixes@),
            ),
        decreases lines.len() - i,
    {
        let ghost read = texts(lines@).take(i + 1);
        assert(read.drop_last() == texts(lines@).take(i as int));
        let parts = split_pieces(&lines[i], Separator::WhiteSpace);
        if parts.len() >= 2 {
            if passes_suffix_filter(&parts[1], only_suffixes) {
                let status = string_of(&parts[0]);
                let file_path = string_of(&parts[1]);
                let change_type = ChangeType::from_status(status.as_str());
                entries.push((file_path, change_type));
            }
        }
        i = i + 1;
    }
    assert(texts(lines@).take(lines@.len() as int) == texts(lines@));
    entries
}

/// The changed files of a revision, each under its path.
#[derive(Debug)]
pub struct GitDiff {
    pub changed_files: PathMap<FileChange>,
}

/// The contents of the entries of a diff.
pub open spec fn files_of(pairs: Seq<(Seq<char>, FileChange)>) -> Seq<(Seq<char>, FileChangeView)> {
    pairs.map_values(|p: (Seq<char>, FileChange)| (p.0, p.1@))
}

impl Clone for GitDiff {
    fn clone(&self) -> (copy: Self)
        ensures
            files_of(copy.changed_files.pairs()) == files_of(self.changed_files.pairs()),
    {
        let copy = GitDiff { changed_files: self.changed_files.clone() };
        copy
    }
}

impl GitDiff {
    /// The diff that a list of changed files makes. Where a path is listed
    /// twice, the later change stays.
    pub fn new(changes: Vec<(String, FileChange)>) -> (diff: GitDiff)
        ensures
            diff.changed_files.pairs() == collected(pairs_of(changes@)),
            distinct_keys(diff.changed_files.pairs()),
    {
        GitDiff { changed_files: PathMap::from_entries(changes) }
    }

    /// The change recorded for `path`.
    pub fn get_file_change(&self, path: &str) -> (change: Option<&FileChange>)
        ensures
            match change {
                Some(c) => as_map(self.changed_files.pairs()).contains_key(path@) && as_map(
                    self.changed_files.pairs(),
                )[path@] == *c,
                None => !as_map(self.changed_files.pairs()).contains_key(path@),
            },
    {
        self.changed_files.get(path)
    }

    /// The paths of the changed files, in the order in which they are held.
    pub fn changed_file_paths(&self) -> (paths: Vec<&String>)
        ensures
            paths@.len() == self.changed_files.pairs().len(),
            forall|i: int|
                0 <= i < paths@.len() ==> (#[trigger] paths@[i])@
                    == self.changed_files.pairs()[i].0,
    {
        self.changed_files.keys()
    }
}

} // verus!
