//! A recursive walk as a whole: what the session gathers from a directory
//! tree whose listings it is given level by level.

use crate::classify::deep_scan;
use crate::entry::{
    file_paths, kept_files, lemma_every_file_kept, lemma_kept_either_way, subdirectories,
    DirEntry, Listing,
};
use crate::error::CountError;
use crate::filter::FilterRule;
use crate::replay::replay;
use crate::seqs::{lemma_first_some_none, lemma_flatten_parts};
use crate::session::{ActionView, Event, Phase, Progress};
use crate::walk::scan_all;
use std::path::PathBuf;
use vstd::prelude::*;

verus! {

/// One directory of a tree: where it is, and its listing.
pub struct Visited {
    /// Where the directory is.
    pub dir: PathBuf,
    /// What reading it gives.
    pub listing: Listing,
}

/// The directories of `level`, in order.
pub open spec fn level_paths(level: Seq<Visited>) -> Seq<PathBuf> {
    level.map_values(|v: Visited| v.dir)
}

/// The listings of `level`, in order.
pub open spec fn level_listings(level: Seq<Visited>) -> Seq<Listing> {
    level.map_values(|v: Visited| v.listing)
}

/// The files that the rule keeps in the directories of `level`, directory
/// by directory.
pub open spec fn level_files(level: Seq<Visited>, rule: FilterRule) -> Seq<PathBuf> {
    level.map_values(|v: Visited| kept_files(v.listing.entries@, rule)).flatten()
}

/// The directories found in the directories of `level`, directory by
/// directory.
pub open spec fn level_directories(level: Seq<Visited>) -> Seq<PathBuf> {
    level.map_values(|v: Visited| subdirectories(v.listing.entries@)).flatten()
}

/// No directory of `level` makes the scan fail.
pub open spec fn level_scans(level: Seq<Visited>, rule: FilterRule) -> bool {
    forall|i: int| 0 <= i < level.len() ==> (#[trigger] deep_scan(
        level[i].dir,
        level[i].listing,
        rule,
    )) is Ok
}

/// `levels` are the levels of the trees below the directories `frontier`:
/// the first level holds those directories, each further level holds the
/// directories found in the level before it, the last level holds no
/// directory, and no directory makes the scan fail.
pub open spec fn levels_below(
    frontier: Seq<PathBuf>,
    levels: Seq<Seq<Visited>>,
    rule: FilterRule,
) -> bool {
    &&& levels.len() > 0
    &&& level_paths(levels[0]) == frontier
    &&& forall|k: int| 0 <= k < levels.len() ==> level_scans(#[trigger] levels[k], rule)
    &&& forall|k: int|
        0 <= k < levels.len() - 1 ==> level_paths(#[trigger] levels[k + 1]) == level_directories(
            levels[k],
        ) && levels[k + 1].len() > 0
    &&& level_directories(levels.last()).len() == 0
}

/// The files that the rule keeps anywhere in `levels`, level by level.
pub open spec fn tree_files(levels: Seq<Seq<Visited>>, rule: FilterRule) -> Seq<PathBuf> {
    levels.map_values(|level: Seq<Visited>| level_files(level, rule)).flatten()
}

/// `answers` are the listings of `levels`, one event for each level.
pub open spec fn lists(answers: Seq<Event>, levels: Seq<Seq<Visited>>) -> bool {
    &&& answers.len() == levels.len()
    &&& forall|k: int|
        0 <= k < levels.len() ==> ((#[trigger] answers[k]) matches Event::Listed(listings)
            && listings@ == level_listings(levels[k]))
}

/// Where no directory of a level fails, the level's scan yields its files
/// and its directories.
pub proof fn lemma_level_scan(level: Seq<Visited>, rule: FilterRule)
    requires
        level_scans(level, rule),
    ensures
        scan_all(level_paths(level), level_listings(level), rule, true) == Ok::<
            (Seq<PathBuf>, Seq<PathBuf>),
            CountError,
        >((level_files(level, rule), level_directories(level))),
    decreases level.len(),
{
    let kept = |v: Visited| kept_files(v.listing.entries@, rule);
    let found = |v: Visited| subdirectories(v.listing.entries@);
    if level.len() == 0 {
        assert(level_files(level, rule) =~= Seq::<PathBuf>::empty());
        assert(level_directories(level) =~= Seq::<PathBuf>::empty());
    } else {
        let before = level.drop_last();
        let last = level.last();
        assert(level_scans(before, rule)) by {
            assert forall|i: int| 0 <= i < before.len() implies (#[trigger] deep_scan(
                before[i].dir,
                before[i].listing,
                rule,
            )) is Ok by {
                assert(before[i] == level[i]);
            }
        }
        lemma_level_scan(before, rule);
        assert(level_paths(level).drop_last() =~= level_paths(before));
        assert(level_listings(level).drop_last() =~= level_listings(before));
        assert(deep_scan(last.dir, last.listing, rule) is Ok);
        assert(level.map_values(kept) =~= before.map_values(kept).push(kept(last)));
        assert(level.map_values(found) =~= before.map_values(found).push(found(last)));
        before.map_values(kept).lemma_flatten_push(kept(last));
        before.map_values(found).lemma_flatten_push(found(last));
    }
}

/// A recursive walk that is given the listings of a tree, level by level,
/// ends with the request to count the files gathered before and, after
/// them, every file that the rule keeps anywhere in the tree.
pub proof fn lemma_walk_gathers(
    p: Progress,
    files: Seq<PathBuf>,
    frontier: Seq<PathBuf>,
    levels: Seq<Seq<Visited>>,
    answers: Seq<Event>,
)
    requires
        p.recursive,
        p.phase == (Phase::Scan { files, frontier }),
        levels_below(frontier, levels, p.filter),
        lists(answers, levels),
    ensures
        ({
            let all = files + tree_files(levels, p.filter);
            replay((Some(p), ActionView::List(frontier)), answers) == (
                Some(Progress { phase: Phase::Count { files: all }, ..p }),
                ActionView::Count(all),
            )
        }),
    decreases levels.len(),
{
    let rule = p.filter;
    let by_level = |level: Seq<Visited>| level_files(level, rule);
    let first = levels[0];
    let rest = levels.drop_first();
    lemma_level_scan(first, rule);
    assert(level_paths(first).len() == level_listings(first).len());
    assert(levels.map_values(by_level).drop_first() =~= rest.map_values(by_level));
    assert(tree_files(levels, rule) == level_files(first, rule) + tree_files(rest, rule));
    if levels.len() == 1 {
        assert(tree_files(rest, rule) =~= Seq::<PathBuf>::empty());
        assert(files + tree_files(levels, rule) =~= files + level_files(first, rule));
        assert(answers.drop_first().len() == 0);
        reveal_with_fuel(replay, 2);
    } else {
        let q = Progress {
            phase: Phase::Scan {
                files: files + level_files(first, rule),
                frontier: level_directories(first),
            },
            ..p
        };
        assert(level_paths(levels[1]) == level_directories(first));
        assert(level_directories(first).len() > 0);
        assert(levels_below(level_directories(first), rest, rule)) by {
            assert(rest[0] == levels[1]);
            assert(rest.last() == levels.last());
            assert forall|k: int| 0 <= k < rest.len() implies level_scans(
                #[trigger] rest[k],
                rule,
            ) by {
                assert(rest[k] == levels[k + 1]);
            }
            assert forall|k: int| 0 <= k < rest.len() - 1 implies level_paths(
                #[trigger] rest[k + 1],
            ) == level_directories(rest[k]) && rest[k + 1].len() > 0 by {
                assert(rest[k] == levels[k + 1]);
                assert(rest[k + 1] == levels[k + 2]);
            }
        }
        assert(lists(answers.drop_first(), rest)) by {
            let later = answers.drop_first();
            assert forall|k: int| 0 <= k < rest.len() implies ((
            #[trigger] later[k]) matches Event::Listed(listings) && listings@ == level_listings(
                rest[k],
            )) by {
                assert(later[k] == answers[k + 1]);
                assert(rest[k] == levels[k + 1]);
            }
        }
        lemma_walk_gathers(
            q,
            files + level_files(first, rule),
            level_directories(first),
            rest,
            answers.drop_first(),
        );
        assert(files + level_files(first, rule) + tree_files(rest, rule) =~= files + tree_files(
            levels,
            rule,
        ));
    }
}

/// A recursive walk of the tree below a directory asks for the count of
/// exactly the files that the filter keeps anywhere in the tree: no
/// directory is left out, whatever its name, and no file is taken twice.
pub proof fn lemma_walk_gathers_tree(p: Progress, levels: Seq<Seq<Visited>>, answers: Seq<Event>)
    requires
        p.recursive,
        p.phase == (Phase::Scan { files: Seq::empty(), frontier: seq![p.current] }),
        levels_below(seq![p.current], levels, p.filter),
        lists(answers, levels),
    ensures
        ({
            let all = tree_files(levels, p.filter);
            replay((Some(p), ActionView::List(seq![p.current])), answers) == (
                Some(Progress { phase: Phase::Count { files: all }, ..p }),
                ActionView::Count(all),
            )
        }),
{
    lemma_walk_gathers(p, Seq::empty(), seq![p.current], levels, answers);
    assert(Seq::<PathBuf>::empty() + tree_files(levels, p.filter) =~= tree_files(
        levels,
        p.filter,
    ));
}

/// The listing is complete and holds regular files and directories only,
/// each file under a name that is text.
pub open spec fn plain_listing(listing: Listing) -> bool {
    &&& listing.ending is Complete
    &&& forall|i: int|
        0 <= i < listing.entries@.len() ==> {
            let e = #[trigger] listing.entries@[i];
            e.kind is Directory || (e.kind is File && e.name is Some)
        }
}

/// Every listing of the tree is plain.
pub open spec fn plain_tree(levels: Seq<Seq<Visited>>) -> bool {
    forall|k: int, i: int|
        0 <= k < levels.len() && 0 <= i < levels[k].len() ==> plain_listing(
            (#[trigger] levels[k][i]).listing,
        )
}

/// The regular files in the directories of `level`, directory by directory.
pub open spec fn level_all_files(level: Seq<Visited>) -> Seq<PathBuf> {
    level.map_values(|v: Visited| file_paths(v.listing.entries@)).flatten()
}

/// The regular files anywhere in `levels`, level by level.
pub open spec fn tree_all_files(levels: Seq<Seq<Visited>>) -> Seq<PathBuf> {
    levels.map_values(|level: Seq<Visited>| level_all_files(level)).flatten()
}

/// A plain listing makes no scan fail, whatever the rule.
pub proof fn lemma_plain_listing_scans(dir: PathBuf, listing: Listing, rule: FilterRule)
    requires
        plain_listing(listing),
    ensures
        deep_scan(dir, listing, rule) is Ok,
{
    lemma_first_some_none(listing.entries@.map_values(|e: DirEntry| e.fault(rule)));
}

/// The walks of a plain tree under two rules visit the same directories:
/// the levels of the one walk are the levels of the other.
pub proof fn lemma_same_levels(
    frontier: Seq<PathBuf>,
    levels: Seq<Seq<Visited>>,
    rule: FilterRule,
    other: FilterRule,
)
    requires
        plain_tree(levels),
        levels_below(frontier, levels, rule),
    ensures
        levels_below(frontier, levels, other),
{
    assert forall|k: int| 0 <= k < levels.len() implies level_scans(
        #[trigger] levels[k],
        other,
    ) by {
        let level = levels[k];
        assert forall|i: int| 0 <= i < level.len() implies (#[trigger] deep_scan(
            level[i].dir,
            level[i].listing,
            other,
        )) is Ok by {
            assert(plain_listing(levels[k][i].listing));
            lemma_plain_listing_scans(level[i].dir, level[i].listing, other);
        }
    }
}

/// In a plain tree, every regular file is kept by exactly one of a rule
/// and its inverse: what the two keep, taken together, is each regular file
/// of the tree once.
pub proof fn lemma_tree_parts(levels: Seq<Seq<Visited>>, rule: FilterRule)
    requires
        plain_tree(levels),
    ensures
        tree_files(levels, rule).to_multiset().add(
            tree_files(levels, rule.inverted()).to_multiset(),
        ) == tree_all_files(levels).to_multiset(),
{
    let inverse = rule.inverted();
    let kept = levels.map_values(|level: Seq<Visited>| level_files(level, rule));
    let others = levels.map_values(|level: Seq<Visited>| level_files(level, inverse));
    let all = levels.map_values(|level: Seq<Visited>| level_all_files(level));
    assert forall|k: int| 0 <= k < all.len() implies kept[k].to_multiset().add(
        others[k].to_multiset(),
    ) == (#[trigger] all[k]).to_multiset() by {
        let level = levels[k];
        let x = level.map_values(|v: Visited| kept_files(v.listing.entries@, rule));
        let y = level.map_values(|v: Visited| kept_files(v.listing.entries@, inverse));
        let z = level.map_values(|v: Visited| file_paths(v.listing.entries@));
        assert forall|i: int| 0 <= i < z.len() implies x[i].to_multiset().add(
            y[i].to_multiset(),
        ) == (#[trigger] z[i]).to_multiset() by {
            assert(plain_listing(levels[k][i].listing));
            lemma_kept_either_way(level[i].listing.entries@, rule);
        }
        lemma_flatten_parts(x, y, z);
    }
    lemma_flatten_parts(kept, others, all);
}

/// In a plain tree, a rule that lets every name through keeps every
/// regular file.
pub proof fn lemma_tree_all_kept(levels: Seq<Seq<Visited>>, rule: FilterRule)
    requires
        plain_tree(levels),
        forall|name: Seq<char>| rule.accepts(name),
    ensures
        tree_files(levels, rule) == tree_all_files(levels),
{
    let kept = levels.map_values(|level: Seq<Visited>| level_files(level, rule));
    let all = levels.map_values(|level: Seq<Visited>| level_all_files(level));
    assert forall|k: int| 0 <= k < all.len() implies kept[k] == all[k] by {
        let level = levels[k];
        let x = level.map_values(|v: Visited| kept_files(v.listing.entries@, rule));
        let z = level.map_values(|v: Visited| file_paths(v.listing.entries@));
        assert forall|i: int| 0 <= i < z.len() implies x[i] == z[i] by {
            assert(plain_listing(levels[k][i].listing));
            lemma_every_file_kept(level[i].listing.entries@, rule);
        }
        assert(x =~= z);
    }
    assert(kept =~= all);
}

/// Over a plain tree, the recursive walks under a rule and under its
/// inverse visit the same directories, and every regular file of the tree is
/// gathered by exactly one of them: the two requests to count hold, taken
/// together, each regular file once. That is what a walk gathers whose rule
/// lets every name through.
pub proof fn lemma_walks_part_the_tree(
    p: Progress,
    all: FilterRule,
    levels: Seq<Seq<Visited>>,
    answers: Seq<Event>,
)
    requires
        p.recursive,
        p.phase == (Phase::Scan { files: Seq::empty(), frontier: seq![p.current] }),
        plain_tree(levels),
        levels_below(seq![p.current], levels, p.filter),
        lists(answers, levels),
        forall|name: Seq<char>| all.accepts(name),
    ensures
        ({
            let first = ActionView::List(seq![p.current]);
            let q = Progress { filter: p.filter.inverted(), ..p };
            let r = Progress { filter: all, ..p };
            let kept = tree_files(levels, p.filter);
            let others = tree_files(levels, p.filter.inverted());
            &&& replay((Some(p), first), answers).1 == ActionView::Count(kept)
            &&& replay((Some(q), first), answers).1 == ActionView::Count(others)
            &&& replay((Some(r), first), answers).1 == ActionView::Count(tree_all_files(levels))
            &&& kept.to_multiset().add(others.to_multiset()) == tree_all_files(
                levels,
            ).to_multiset()
        }),
{
    let q = Progress { filter: p.filter.inverted(), ..p };
    let r = Progress { filter: all, ..p };
    lemma_same_levels(seq![p.current], levels, p.filter, q.filter);
    lemma_same_levels(seq![p.current], levels, p.filter, all);
    lemma_walk_gathers_tree(p, levels, answers);
    lemma_walk_gathers_tree(q, levels, answers);
    lemma_walk_gathers_tree(r, levels, answers);
    lemma_tree_parts(levels, p.filter);
    lemma_tree_all_kept(levels, all);
}

} // verus!
