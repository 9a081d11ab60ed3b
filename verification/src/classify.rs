//! The directory classifier: which entries of one listing are files to
//! count, which are directories to descend into, and which stop the scan.

use crate::entry::{
    kept_files, lemma_kept_files_push, lemma_subdirectories_push, subdirectories, DirEntry,
    EntryKind, Ending, Listing,
};
use crate::error::CountError;
use crate::seqs::{first_some, lemma_first_some_at, lemma_first_some_none};
use crate::filter::{FilterRule, NameFilter};
use crate::paths::clone_path;
use std::path::PathBuf;
use vstd::prelude::*;

verus! {

/// What a scan for files and directories makes of the listing of `dir`:
/// the first failure among its entries, else the failure that ended the
/// listing, else the files kept and the directories found. Directories are
/// never held against the filter.
pub open spec fn deep_scan(dir: PathBuf, listing: Listing, rule: FilterRule) -> Result<
    (Seq<PathBuf>, Seq<PathBuf>),
    CountError,
> {
    let faults = listing.entries@.map_values(|e: DirEntry| e.fault(rule));
    if first_some(faults) is Some {
        Err(first_some(faults)->0)
    } else if listing.ending.fault(dir) is Some {
        Err(listing.ending.fault(dir)->0)
    } else {
        Ok((kept_files(listing.entries@, rule), subdirectories(listing.entries@)))
    }
}

/// What a scan for files alone makes of the listing of `dir`: what the scan
/// for files and directories makes of it, with the directories left out.
pub open spec fn flat_scan(dir: PathBuf, listing: Listing, rule: FilterRule) -> Result<
    Seq<PathBuf>,
    CountError,
> {
    match deep_scan(dir, listing, rule) {
        Ok((files, _)) => Ok(files),
        Err(e) => Err(e),
    }
}

/// The failure that `ending` stands for in `dir`, if it is one.
fn ending_fault(dir: &PathBuf, ending: Ending) -> (r: Option<CountError>)
    ensures
        r == ending.fault(*dir),
{
    match ending {
        Ending::Complete => None,
        Ending::ReadFailed(cause) => Some(CountError::DirectoryRead(clone_path(dir), cause)),
        Ending::MetadataFailed(path, cause) => Some(CountError::Metadata(path, cause)),
    }
}

/// The files of one directory that the filter keeps, and the directories
/// in it, from its listing.
pub fn glob_split(dir: &PathBuf, listing: Listing, filter: &NameFilter) -> (r: Result<
    (Vec<PathBuf>, Vec<PathBuf>),
    CountError,
>)
    ensures
        match r {
            Ok((files, directories)) => deep_scan(*dir, listing, filter@) == Ok::<
                (Seq<PathBuf>, Seq<PathBuf>),
                CountError,
            >((files@, directories@)),
            Err(e) => deep_scan(*dir, listing, filter@) == Err::<
                (Seq<PathBuf>, Seq<PathBuf>),
                CountError,
            >(e),
        },
{
    let Listing { entries, ending } = listing;
    let ghost all = entries@;
    let ghost faults = all.map_values(|e: DirEntry| e.fault(filter@));
    let mut files: Vec<PathBuf> = Vec::new();
    let mut directories: Vec<PathBuf> = Vec::new();
    proof {
        assert(all.take(0) =~= Seq::<DirEntry>::empty());
        assert(kept_files(Seq::<DirEntry>::empty(), filter@) =~= Seq::<PathBuf>::empty()) by {
            reveal(Seq::filter);
        }
        assert(subdirectories(Seq::<DirEntry>::empty()) =~= Seq::<PathBuf>::empty()) by {
            reveal(Seq::filter);
        }
    }
    for entry in it: entries
        invariant
            it.seq() == all,
            all == listing.entries@,
            faults == all.map_values(|e: DirEntry| e.fault(filter@)),
            files@ == kept_files(all.take(it.index() as int), filter@),
            directories@ == subdirectories(all.take(it.index() as int)),
            forall|j: int| 0 <= j < it.index() ==> faults[j] is None,
    {
        let ghost i = it.index() as int;
        proof {
            assert(all.take(i + 1) =~= all.take(i).push(all[i]));
            lemma_kept_files_push(all.take(i), all[i], filter@);
            lemma_subdirectories_push(all.take(i), all[i]);
        }
        let DirEntry { path, name, kind } = entry;
        match kind {
            EntryKind::Directory => {
                directories.push(path);
            },
            EntryKind::File => match name {
                None => {
                    proof {
                        lemma_first_some_at(faults, i);
                    }
                    return Err(CountError::NameDecode(path));
                },
                Some(name) => {
                    if filter.accepts(name.as_str()) {
                        files.push(path);
                    }
                },
            },
            EntryKind::Other => match name {
                None => {
                    proof {
                        lemma_first_some_at(faults, i);
                    }
                    return Err(CountError::NameDecode(path));
                },
                Some(name) => {
                    if filter.accepts(name.as_str()) {
                        proof {
                            lemma_first_some_at(faults, i);
                        }
                        return Err(CountError::UnsupportedEntryKind(path));
                    }
                },
            },
        }
    }
    proof {
        assert(all.take(all.len() as int) =~= all);
        lemma_first_some_none(faults);
    }
    match ending_fault(dir, ending) {
        Some(e) => Err(e),
        None => Ok((files, directories)),
    }
}

/// The files of one directory that the filter keeps, from its listing: the
/// classifier's files, its directories left aside.
pub fn glob(dir: &PathBuf, listing: Listing, filter: &NameFilter) -> (r: Result<
    Vec<PathBuf>,
    CountError,
>)
    ensures
        match r {
            Ok(files) => flat_scan(*dir, listing, filter@) == Ok::<Seq<PathBuf>, CountError>(
                files@,
            ),
            Err(e) => flat_scan(*dir, listing, filter@) == Err::<Seq<PathBuf>, CountError>(e),
        },
{
    match glob_split(dir, listing, filter) {
        Ok((files, _)) => Ok(files),
        Err(e) => Err(e),
    }
}

} // verus!
