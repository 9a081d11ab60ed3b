//! What a directory listing looks like once it has left the file system:
//! plain values, one per entry, and how the listing ended.

use crate::error::CountError;
use crate::filter::FilterRule;
use std::path::PathBuf;
use vstd::prelude::*;

verus! {

/// What an entry of a directory is, by its metadata.
#[derive(Debug, Clone, Copy, PartialEq, Eq, Structural)]
pub enum EntryKind {
    /// A regular file.
    File,
    /// A directory.
    Directory,
    /// Anything else: a symbolic link, a device, a socket.
    Other,
}

/// One entry of a directory.
#[derive(Debug)]
pub struct DirEntry {
    /// Where the entry is.
    pub path: PathBuf,
    /// The entry's own name, as text; `None` where the name is no valid
    /// UTF-8.
    pub name: Option<String>,
    /// What the entry is.
    pub kind: EntryKind,
}

/// How the reading of a directory ended.
#[derive(Debug)]
pub enum Ending {
    /// Every entry was read.
    Complete,
    /// The directory could not be opened, or the entry after the last one
    /// read could not be retrieved.
    ReadFailed(std::io::Error),
    /// The metadata of the entry at this path, the one after the last one
    /// read, could not be retrieved.
    MetadataFailed(PathBuf, std::io::Error),
}

/// The entries of one directory, in the order in which they were read, up to
/// the first that could not be read.
#[derive(Debug)]
pub struct Listing {
    /// The entries that were read.
    pub entries: Vec<DirEntry>,
    /// Whether these are all, or what stopped the reading.
    pub ending: Ending,
}

impl DirEntry {
    /// The entry is a regular file whose name the rule lets through.
    pub open spec fn kept(self, rule: FilterRule) -> bool {
        self.kind is File && self.name is Some && rule.accepts(self.name->0@)
    }

    /// The entry is a directory.
    pub open spec fn is_directory(self) -> bool {
        self.kind is Directory
    }

    /// The failure that this entry causes in a scan: a name that cannot be
    /// held against the pattern, unless the entry is a directory, or an
    /// entry that is neither file nor directory and that the rule lets
    /// through. The filter is consulted first: what it turns down is passed
    /// over, whatever its kind.
    pub open spec fn fault(self, rule: FilterRule) -> Option<CountError> {
        match self.kind {
            EntryKind::Directory => None,
            EntryKind::File => if self.name is None {
                Some(CountError::NameDecode(self.path))
            } else {
                None
            },
            EntryKind::Other => if self.name is None {
                Some(CountError::NameDecode(self.path))
            } else if rule.accepts(self.name->0@) {
                Some(CountError::UnsupportedEntryKind(self.path))
            } else {
                None
            },
        }
    }
}

impl Ending {
    /// The failure that this ending stands for, in the directory `dir`.
    pub open spec fn fault(self, dir: PathBuf) -> Option<CountError> {
        match self {
            Ending::Complete => None,
            Ending::ReadFailed(cause) => Some(CountError::DirectoryRead(dir, cause)),
            Ending::MetadataFailed(path, cause) => Some(CountError::Metadata(path, cause)),
        }
    }
}

/// The paths of the regular files among `entries` whose names the rule lets
/// through, in listing order.
pub open spec fn kept_files(entries: Seq<DirEntry>, rule: FilterRule) -> Seq<PathBuf> {
    entries.filter(|e: DirEntry| e.kept(rule)).map_values(|e: DirEntry| e.path)
}

/// The paths of the directories among `entries`, in listing order.
pub open spec fn subdirectories(entries: Seq<DirEntry>) -> Seq<PathBuf> {
    entries.filter(|e: DirEntry| e.is_directory()).map_values(|e: DirEntry| e.path)
}

/// The paths of all of `entries`, in listing order.
pub open spec fn entry_paths(entries: Seq<DirEntry>) -> Seq<PathBuf> {
    entries.map_values(|e: DirEntry| e.path)
}

/// The paths of the regular files among `entries`, in listing order.
pub open spec fn file_paths(entries: Seq<DirEntry>) -> Seq<PathBuf> {
    entries.filter(|e: DirEntry| e.kind is File).map_values(|e: DirEntry| e.path)
}

/// One more entry adds its path to the kept files exactly when it is kept.
pub proof fn lemma_kept_files_push(entries: Seq<DirEntry>, e: DirEntry, rule: FilterRule)
    ensures
        kept_files(entries.push(e), rule) == if e.kept(rule) {
            kept_files(entries, rule).push(e.path)
        } else {
            kept_files(entries, rule)
        },
{
    let pred = |e: DirEntry| e.kept(rule);
    entries.lemma_filter_push(e, pred);
    if e.kept(rule) {
        assert(entries.filter(pred).push(e).map_values(|e: DirEntry| e.path)
            =~= entries.filter(pred).map_values(|e: DirEntry| e.path).push(e.path));
    }
}

/// One more entry adds its path to the subdirectories exactly when it is a
/// directory.
pub proof fn lemma_subdirectories_push(entries: Seq<DirEntry>, e: DirEntry)
    ensures
        subdirectories(entries.push(e)) == if e.is_directory() {
            subdirectories(entries).push(e.path)
        } else {
            subdirectories(entries)
        },
{
    let pred = |e: DirEntry| e.is_directory();
    entries.lemma_filter_push(e, pred);
    if e.is_directory() {
        assert(entries.filter(pred).push(e).map_values(|e: DirEntry| e.path)
            =~= entries.filter(pred).map_values(|e: DirEntry| e.path).push(e.path));
    }
}

/// One more entry adds its path to the regular files exactly when it is
/// one.
pub proof fn lemma_file_paths_push(entries: Seq<DirEntry>, e: DirEntry)
    ensures
        file_paths(entries.push(e)) == if e.kind is File {
            file_paths(entries).push(e.path)
        } else {
            file_paths(entries)
        },
{
    let pred = |e: DirEntry| e.kind is File;
    entries.lemma_filter_push(e, pred);
    if e.kind is File {
        assert(entries.filter(pred).push(e).map_values(|e: DirEntry| e.path)
            =~= entries.filter(pred).map_values(|e: DirEntry| e.path).push(e.path));
    }
}

/// Where every entry is kept, the kept files are all the entries.
pub proof fn lemma_all_kept(entries: Seq<DirEntry>, rule: FilterRule)
    requires
        forall|i: int| 0 <= i < entries.len() ==> (#[trigger] entries[i]).kept(rule),
    ensures
        kept_files(entries, rule) == entry_paths(entries),
    decreases entries.len(),
{
    if entries.len() == 0 {
        reveal(Seq::filter);
        assert(kept_files(entries, rule) =~= entry_paths(entries));
    } else {
        let before = entries.drop_last();
        let last = entries.last();
        assert forall|i: int| 0 <= i < before.len() implies (#[trigger] before[i]).kept(rule) by {
            assert(before[i] == entries[i]);
        }
        lemma_all_kept(before, rule);
        assert(entries =~= before.push(last));
        lemma_kept_files_push(before, last, rule);
        assert(entry_paths(entries) =~= entry_paths(before).push(last.path));
    }
}

/// A rule that lets every name through keeps every regular file.
pub proof fn lemma_every_file_kept(entries: Seq<DirEntry>, rule: FilterRule)
    requires
        forall|name: Seq<char>| rule.accepts(name),
        forall|i: int|
            0 <= i < entries.len() && (#[trigger] entries[i]).kind is File ==> entries[i].name
                is Some,
    ensures
        kept_files(entries, rule) == file_paths(entries),
    decreases entries.len(),
{
    if entries.len() == 0 {
        reveal(Seq::filter);
        assert(kept_files(entries, rule) =~= file_paths(entries));
    } else {
        let before = entries.drop_last();
        let last = entries.last();
        assert forall|i: int|
            0 <= i < before.len() && (#[trigger] before[i]).kind is File implies before[i].name
            is Some by {
            assert(before[i] == entries[i]);
        }
        lemma_every_file_kept(before, rule);
        assert(entries =~= before.push(last));
        lemma_kept_files_push(before, last, rule);
        lemma_file_paths_push(before, last);
    }
}

/// Every regular file is kept by exactly one of a rule and its inverse:
/// what the two keep, taken together, is each regular file once.
pub proof fn lemma_kept_either_way(entries: Seq<DirEntry>, rule: FilterRule)
    requires
        forall|i: int|
            0 <= i < entries.len() && (#[trigger] entries[i]).kind is File ==> entries[i].name
                is Some,
    ensures
        kept_files(entries, rule).to_multiset().add(
            kept_files(entries, rule.inverted()).to_multiset(),
        ) == file_paths(entries).to_multiset(),
    decreases entries.len(),
{
    broadcast use vstd::multiset::group_multiset_axioms;

    let inverse = rule.inverted();
    if entries.len() == 0 {
        reveal(Seq::filter);
        assert(kept_files(entries, rule) =~= Seq::<PathBuf>::empty());
        assert(kept_files(entries, inverse) =~= Seq::<PathBuf>::empty());
        assert(file_paths(entries) =~= Seq::<PathBuf>::empty());
        let none = Seq::<PathBuf>::empty().to_multiset();
        vstd::seq_lib::to_multiset_len(Seq::<PathBuf>::empty());
        vstd::multiset::lemma_multiset_empty_len(none);
        assert(kept_files(entries, rule).to_multiset().add(
            kept_files(entries, inverse).to_multiset(),
        ) =~= file_paths(entries).to_multiset());
    } else {
        let before = entries.drop_last();
        let last = entries.last();
        assert forall|i: int|
            0 <= i < before.len() && (#[trigger] before[i]).kind is File implies before[i].name
            is Some by {
            assert(before[i] == entries[i]);
        }
        lemma_kept_either_way(before, rule);
        assert(entries =~= before.push(last));
        lemma_kept_files_push(before, last, rule);
        lemma_kept_files_push(before, last, inverse);
        lemma_file_paths_push(before, last);
        vstd::seq_lib::to_multiset_build(kept_files(before, rule), last.path);
        vstd::seq_lib::to_multiset_build(kept_files(before, inverse), last.path);
        vstd::seq_lib::to_multiset_build(file_paths(before), last.path);
        let a = kept_files(before, rule).to_multiset();
        let b = kept_files(before, inverse).to_multiset();
        if last.kind is File {
            assert(last.kept(rule) != last.kept(inverse));
            assert(a.insert(last.path).add(b) =~= a.add(b).insert(last.path));
            assert(a.add(b.insert(last.path)) =~= a.add(b).insert(last.path));
        }
    }
}

/// Filtering goes by the name alone: two entries of one kind and one name
/// fare alike, wherever they are.
pub proof fn lemma_decided_by_name(a: DirEntry, b: DirEntry, rule: FilterRule)
    requires
        a.kind == b.kind,
        a.name is Some <==> b.name is Some,
        a.name is Some ==> a.name->0@ == b.name->0@,
    ensures
        a.kept(rule) == b.kept(rule),
        a.fault(rule) is Some <==> b.fault(rule) is Some,
{
}

} // verus!
