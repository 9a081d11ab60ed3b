//! The tree walker, one level at a time: the directories of a frontier are
//! scanned in order, their files gathered and their subdirectories made the
//! next frontier.

use crate::classify::{deep_scan, flat_scan, glob, glob_split};
use crate::entry::{subdirectories, DirEntry, Listing};
use crate::error::CountError;
use crate::filter::{FilterRule, NameFilter};
use std::path::PathBuf;
use vstd::prelude::*;

verus! {

/// What the scan of one directory yields: in a recursive walk its kept files
/// and its subdirectories, in a flat one its kept files alone.
pub open spec fn scan(dir: PathBuf, listing: Listing, rule: FilterRule, recursive: bool) -> Result<
    (Seq<PathBuf>, Seq<PathBuf>),
    CountError,
> {
    if recursive {
        deep_scan(dir, listing, rule)
    } else {
        match flat_scan(dir, listing, rule) {
            Ok(files) => Ok((files, Seq::empty())),
            Err(e) => Err(e),
        }
    }
}

/// What the scans of the directories `frontier`, whose listings are
/// `listings`, yield together: the first failure in the frontier's order,
/// else all kept files and all subdirectories, in that order.
pub open spec fn scan_all(
    frontier: Seq<PathBuf>,
    listings: Seq<Listing>,
    rule: FilterRule,
    recursive: bool,
) -> Result<(Seq<PathBuf>, Seq<PathBuf>), CountError>
    decreases listings.len(),
{
    if listings.len() == 0 {
        Ok((Seq::empty(), Seq::empty()))
    } else {
        match scan_all(frontier.drop_last(), listings.drop_last(), rule, recursive) {
            Err(e) => Err(e),
            Ok((files, directories)) => match scan(
                frontier.last(),
                listings.last(),
                rule,
                recursive,
            ) {
                Err(e) => Err(e),
                Ok((more_files, more_directories)) => Ok(
                    (files + more_files, directories + more_directories),
                ),
            },
        }
    }
}

/// What one level of the walk yields: an answer that does not hold one
/// listing for each directory of the frontier is unexpected; else what the
/// scans yield together.
pub open spec fn level(
    frontier: Seq<PathBuf>,
    listings: Seq<Listing>,
    rule: FilterRule,
    recursive: bool,
) -> Result<(Seq<PathBuf>, Seq<PathBuf>), CountError> {
    if frontier.len() != listings.len() {
        Err(CountError::UnexpectedEvent)
    } else {
        scan_all(frontier, listings, rule, recursive)
    }
}

/// Scans one level of the walk: the files that the filter keeps in the
/// directories of `frontier`, and the directories found in them, which a
/// flat walk leaves out.
pub fn scan_level(
    frontier: &Vec<PathBuf>,
    listings: Vec<Listing>,
    filter: &NameFilter,
    recursive: bool,
) -> (r: Result<(Vec<PathBuf>, Vec<PathBuf>), CountError>)
    ensures
        match r {
            Ok((files, directories)) => level(frontier@, listings@, filter@, recursive) == Ok::<
                (Seq<PathBuf>, Seq<PathBuf>),
                CountError,
            >((files@, directories@)),
            Err(e) => level(frontier@, listings@, filter@, recursive) == Err::<
                (Seq<PathBuf>, Seq<PathBuf>),
                CountError,
            >(e),
        },
{
    if frontier.len() != listings.len() {
        return Err(CountError::UnexpectedEvent);
    }
    let ghost all = listings@;
    let mut files: Vec<PathBuf> = Vec::new();
    let mut directories: Vec<PathBuf> = Vec::new();
    let mut index: usize = 0;
    proof {
        assert(all.take(0) =~= Seq::<Listing>::empty());
    }
    for listing in it: listings
        invariant
            it.seq() == all,
            all == listings@,
            frontier.len() == all.len(),
            index == it.index(),
            scan_all(
                frontier@.take(it.index() as int),
                all.take(it.index() as int),
                filter@,
                recursive,
            ) == Ok::<(Seq<PathBuf>, Seq<PathBuf>), CountError>((files@, directories@)),
    {
        let ghost i = it.index() as int;
        proof {
            assert(all.take(i + 1).drop_last() =~= all.take(i));
            assert(frontier@.take(i + 1).drop_last() =~= frontier@.take(i));
            assert(all.take(i + 1).last() == all[i]);
            assert(frontier@.take(i + 1).last() == frontier@[i]);
        }
        let dir = &frontier[index];
        if recursive {
            match glob_split(dir, listing, filter) {
                Err(e) => {
                    proof {
                        lemma_scan_all_stops(frontier@, all, filter@, recursive, i + 1);
                    }
                    return Err(e);
                },
                Ok((mut more_files, mut more_directories)) => {
                    files.append(&mut more_files);
                    directories.append(&mut more_directories);
                },
            }
        } else {
            match glob(dir, listing, filter) {
                Err(e) => {
                    proof {
                        lemma_scan_all_stops(frontier@, all, filter@, recursive, i + 1);
                    }
                    return Err(e);
                },
                Ok(mut more_files) => {
                    files.append(&mut more_files);
                    proof {
                        assert(directories@ + Seq::<PathBuf>::empty() =~= directories@);
                    }
                },
            }
        }
        index += 1;
    }
    proof {
        assert(all.take(all.len() as int) =~= all);
        assert(frontier@.take(all.len() as int) =~= frontier@);
    }
    Ok((files, directories))
}

/// A failure among the first `n` directories is the failure of the whole
/// level.
pub proof fn lemma_scan_all_stops(
    frontier: Seq<PathBuf>,
    listings: Seq<Listing>,
    rule: FilterRule,
    recursive: bool,
    n: int,
)
    requires
        frontier.len() == listings.len(),
        0 <= n <= listings.len(),
        scan_all(frontier.take(n), listings.take(n), rule, recursive) is Err,
    ensures
        scan_all(frontier, listings, rule, recursive) == scan_all(
            frontier.take(n),
            listings.take(n),
            rule,
            recursive,
        ),
    decreases listings.len() - n,
{
    if n == listings.len() {
        assert(listings.take(n) =~= listings);
        assert(frontier.take(n) =~= frontier);
    } else {
        assert(listings.take(n + 1).drop_last() =~= listings.take(n));
        assert(frontier.take(n + 1).drop_last() =~= frontier.take(n));
        lemma_scan_all_stops(frontier, listings, rule, recursive, n + 1);
    }
}

/// The listing holds no directory.
pub open spec fn no_directories(listing: Listing) -> bool {
    forall|i: int|
        0 <= i < listing.entries@.len() ==> !(#[trigger] listing.entries@[i]).is_directory()
}

/// A listing without a directory yields no directory to descend into.
pub proof fn lemma_no_subdirectories(listing: Listing)
    requires
        no_directories(listing),
    ensures
        subdirectories(listing.entries@).len() == 0,
{
    let entries = listing.entries@;
    let is_directory = |e: DirEntry| e.is_directory();
    if entries.filter(is_directory).len() > 0 {
        let found = entries.filter(is_directory)[0];
        entries.lemma_filter_pred(is_directory, 0);
        entries.lemma_filter_contains_rev(is_directory, found);
    }
}

/// In a directory that holds no directory, a flat scan and a recursive one
/// come to the same: the same files or the same failure, and nothing to
/// descend into.
pub proof fn lemma_flat_and_recursive_agree(dir: PathBuf, listing: Listing, rule: FilterRule)
    requires
        no_directories(listing),
    ensures
        scan(dir, listing, rule, true) == scan(dir, listing, rule, false),
        scan(dir, listing, rule, true) matches Ok((_, directories)) ==> directories.len() == 0,
{
    lemma_no_subdirectories(listing);
    assert(subdirectories(listing.entries@) =~= Seq::<PathBuf>::empty());
}

} // verus!
