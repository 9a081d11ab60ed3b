//! Whole conversations: what a run comes to when its actions are answered
//! one after the other, and how the totals of two runs add up.

use crate::classify::deep_scan;
use crate::entry::{entry_paths, lemma_all_kept, DirEntry, Listing};
use crate::error::CountError;
use crate::filter::FilterRule;
use crate::seqs::lemma_first_some_none;
use crate::session::{lemma_first_level, react, start, ActionView, Event, Phase, Progress};
use crate::tally::{lemma_tally_ok, sum_lines, tally};
use crate::walk::{lemma_no_subdirectories, no_directories};
use std::path::PathBuf;
use vstd::prelude::*;

verus! {

/// Where a conversation stands after `events` were given in turn, from the
/// state and action `at`. Once the run is over, no more events are taken.
pub open spec fn replay(at: (Option<Progress>, ActionView), events: Seq<Event>) -> (
    Option<Progress>,
    ActionView,
)
    decreases events.len(),
{
    if events.len() == 0 || at.0 is None {
        at
    } else {
        replay(react(at.0->0, events[0]), events.drop_first())
    }
}

/// Every event of `events` answers an action: the run is not over before
/// the last of them is given.
pub open spec fn answered(at: (Option<Progress>, ActionView), events: Seq<Event>) -> bool
    decreases events.len(),
{
    events.len() == 0 || (at.0 is Some && answered(
        react(at.0->0, events[0]),
        events.drop_first(),
    ))
}

/// The run `p` with the paths `more` still to come after its own.
spec fn extended(p: Progress, more: Seq<PathBuf>) -> Progress {
    Progress { paths: p.paths + more, ..p }
}

/// The run `q` with the paths `before` already done, at `done` lines.
spec fn shifted(q: Progress, before: Seq<PathBuf>, done: usize) -> Progress {
    Progress {
        paths: before + q.paths,
        next: before.len() + q.next,
        total: (done + q.total) as usize,
        ..q
    }
}

/// Where a run over `paths` and then `more` stands once `paths` are done,
/// at `done` lines.
spec fn handed_on(p: Progress, more: Seq<PathBuf>, done: usize) -> (
    Option<Progress>,
    ActionView,
) {
    if more.len() == 0 {
        (None, ActionView::Done(done))
    } else {
        (
            Some(
                Progress {
                    paths: p.paths + more,
                    next: p.paths.len() + 1,
                    current: more[0],
                    total: done,
                    phase: Phase::Probe,
                    ..p
                },
            ),
            ActionView::Probe(more[0]),
        )
    }
}

/// Giving two runs of events in turn is giving them all.
pub proof fn lemma_replay_concat(
    at: (Option<Progress>, ActionView),
    first: Seq<Event>,
    second: Seq<Event>,
)
    requires
        answered(at, first),
    ensures
        replay(at, first + second) == replay(replay(at, first), second),
    decreases first.len(),
{
    if first.len() == 0 {
        assert(first + second =~= second);
    } else {
        assert((first + second).drop_first() =~= first.drop_first() + second);
        assert((first + second)[0] == first[0]);
        lemma_replay_concat(react(at.0->0, first[0]), first.drop_first(), second);
    }
}

/// One event takes a run with more paths to come where it takes the run
/// without them, as long as that one goes on.
proof fn lemma_extended_step(p: Progress, e: Event, more: Seq<PathBuf>)
    requires
        react(p, e).0 is Some,
    ensures
        react(extended(p, more), e) == (Some(extended(react(p, e).0->0, more)), react(p, e).1),
{
    if p.phase is Count && e is Counted {
        assert((p.paths + more)[p.next as int] == p.paths[p.next as int]);
    }
}

/// A run with more paths to come goes the way of the run without them,
/// up to the point where that one ends with its total: there the longer run
/// takes up the first of the further paths.
proof fn lemma_extended_run(
    p: Progress,
    action: ActionView,
    events: Seq<Event>,
    more: Seq<PathBuf>,
    done: usize,
)
    requires
        1 <= p.next <= p.paths.len(),
        answered((Some(p), action), events),
        replay((Some(p), action), events) == (None::<Progress>, ActionView::Done(done)),
    ensures
        replay((Some(extended(p, more)), action), events) == handed_on(p, more, done),
    decreases events.len(),
{
    reveal_with_fuel(answered, 2);
    reveal_with_fuel(replay, 2);
    let e = events[0];
    let rest = events.drop_first();
    let after = react(p, e);
    let after_more = react(extended(p, more), e);
    match after.0 {
        None => {
            assert(rest.len() == 0);
            assert(after.1 == ActionView::Done(done));
            assert(p.next == p.paths.len());
            if more.len() > 0 {
                assert((p.paths + more)[p.next as int] == more[0]);
            }
            assert(after_more == handed_on(p, more, done));
        },
        Some(p1) => {
            lemma_extended_step(p, e, more);
            lemma_extended_run(p1, after.1, rest, more, done);
            assert(p1.paths == p.paths);
            assert(handed_on(p1, more, done) == handed_on(p, more, done));
        },
    }
}

/// A run that starts with `before` already done at `done` lines goes the
/// way of the run that starts afresh, with each total higher by `done`,
/// until a total no longer fits.
proof fn lemma_shifted_run(
    q: Progress,
    action: ActionView,
    events: Seq<Event>,
    before: Seq<PathBuf>,
    done: usize,
    sum: usize,
)
    requires
        done + q.total <= usize::MAX,
        answered((Some(q), action), events),
        replay((Some(q), action), events) == (None::<Progress>, ActionView::Done(sum)),
    ensures
        q.total <= sum,
        done + sum <= usize::MAX ==> replay((Some(shifted(q, before, done)), action), events) == (
            None::<Progress>,
            ActionView::Done((done + sum) as usize),
        ),
        done + sum > usize::MAX ==> replay(
            (Some(shifted(q, before, done)), action),
            events,
        ).1 matches ActionView::Fail(CountError::Overflow(_)),
    decreases events.len(),
{
    reveal_with_fuel(answered, 2);
    reveal_with_fuel(replay, 2);
    let e = events[0];
    let rest = events.drop_first();
    let after = react(q, e);
    let after_shift = react(shifted(q, before, done), e);
    match after.0 {
        None => {
            assert(rest.len() == 0);
            assert(after.1 == ActionView::Done(sum));
        },
        Some(q1) => {
            if done + q1.total <= usize::MAX {
                assert(after_shift.1 == after.1);
                assert(after_shift.0 == Some(shifted(q1, before, done))) by {
                    if q.phase is Count && e is Counted {
                        let at = (before.len() + q.next) as int;
                        assert((before + q.paths)[at] == q.paths[q.next as int]);
                    }
                }
                lemma_shifted_run(q1, after.1, rest, before, done, sum);
            } else {
                assert(after_shift.0 is None);
                assert(after_shift.1 matches ActionView::Fail(CountError::Overflow(_)));
                lemma_total_grows(q1, after.1, rest, sum);
            }
        },
    }
}

/// The total at which a run ends is no less than its total so far.
proof fn lemma_total_grows(q: Progress, action: ActionView, events: Seq<Event>, sum: usize)
    requires
        answered((Some(q), action), events),
        replay((Some(q), action), events) == (None::<Progress>, ActionView::Done(sum)),
    ensures
        q.total <= sum,
    decreases events.len(),
{
    reveal_with_fuel(answered, 2);
    reveal_with_fuel(replay, 2);
    let after = react(q, events[0]);
    match after.0 {
        None => {},
        Some(q1) => {
            lemma_total_grows(q1, after.1, events.drop_first(), sum);
        },
    }
}

/// The total over two sets of paths taken together is the sum of the totals
/// over each: where a run over `first` ends with `a` lines and a run over
/// `second` with `b`, the run over both, given the same answers, ends with
/// `a + b`; where that sum does not fit, it fails with an overflow.
pub proof fn lemma_total_over_paths(
    first: Seq<PathBuf>,
    second: Seq<PathBuf>,
    recursive: bool,
    filter: Result<FilterRule, CountError>,
    answers_first: Seq<Event>,
    answers_second: Seq<Event>,
    a: usize,
    b: usize,
)
    requires
        answered(start(first, recursive, filter), answers_first),
        replay(start(first, recursive, filter), answers_first).1 == ActionView::Done(a),
        answered(start(second, recursive, filter), answers_second),
        replay(start(second, recursive, filter), answers_second).1 == ActionView::Done(b),
    ensures
        ({
            let both = replay(
                start(first + second, recursive, filter),
                answers_first + answers_second,
            );
            if a + b <= usize::MAX {
                both.1 == ActionView::Done((a + b) as usize)
            } else {
                both.1 matches ActionView::Fail(CountError::Overflow(_))
            }
        }),
{
    let at_first = start(first, recursive, filter);
    let at_second = start(second, recursive, filter);
    let at_both = start(first + second, recursive, filter);
    lemma_ends_closed(at_first, answers_first);
    lemma_ends_closed(at_second, answers_second);
    if first.len() == 0 {
        assert(first + second =~= second);
        assert(answers_first.len() == 0);
        assert(answers_first + answers_second =~= answers_second);
    } else {
        let p = at_first.0->0;
        assert(at_both.0 == Some(extended(p, second)));
        lemma_extended_run(p, at_first.1, answers_first, second, a);
        lemma_still_answered(p, at_first.1, answers_first, second);
        lemma_replay_concat(at_both, answers_first, answers_second);
        if second.len() == 0 {
            assert(answers_second.len() == 0);
        } else {
            let q = at_second.0->0;
            assert(handed_on(p, second, a).0 == Some(shifted(q, first, a)));
            lemma_shifted_run(q, at_second.1, answers_second, first, a, b);
        }
    }
}

/// A state and action as `start` and `react` give them: the run is under
/// way exactly when the action is a question.
spec fn in_step(at: (Option<Progress>, ActionView)) -> bool {
    at.0 is None <==> (at.1 is Done || at.1 is Fail)
}

/// A conversation that ends on a total ends with the run over.
proof fn lemma_ends_closed(at: (Option<Progress>, ActionView), events: Seq<Event>)
    requires
        in_step(at),
    ensures
        in_step(replay(at, events)),
    decreases events.len(),
{
    if events.len() > 0 && at.0 is Some {
        lemma_ends_closed(react(at.0->0, events[0]), events.drop_first());
    }
}

/// The events that answer a run answer the run with more paths to come.
proof fn lemma_still_answered(
    p: Progress,
    action: ActionView,
    events: Seq<Event>,
    more: Seq<PathBuf>,
)
    requires
        1 <= p.next <= p.paths.len(),
        answered((Some(p), action), events),
    ensures
        answered((Some(extended(p, more)), action), events),
    decreases events.len(),
{
    reveal_with_fuel(answered, 2);
    reveal_with_fuel(replay, 2);
    if events.len() > 0 {
        let e = events[0];
        let after = react(p, e);
        match after.0 {
            None => {
                assert(events.drop_first().len() == 0);
            },
            Some(p1) => {
                lemma_extended_step(p, e, more);
                lemma_still_answered(p1, after.1, events.drop_first(), more);
            },
        }
    }
}

/// What a listing comes to whose entries are all kept: all of them, and
/// nothing to descend into.
pub proof fn lemma_scan_keeps_all(dir: PathBuf, listing: Listing, rule: FilterRule)
    requires
        listing.ending is Complete,
        forall|i: int|
            0 <= i < listing.entries@.len() ==> (#[trigger] listing.entries@[i]).kept(rule),
    ensures
        deep_scan(dir, listing, rule) == Ok::<(Seq<PathBuf>, Seq<PathBuf>), CountError>(
            (entry_paths(listing.entries@), Seq::empty()),
        ),
{
    let entries = listing.entries@;
    lemma_first_some_none(entries.map_values(|e: DirEntry| e.fault(rule)));
    lemma_all_kept(entries, rule);
    assert(no_directories(listing));
    lemma_no_subdirectories(listing);
    assert(crate::entry::subdirectories(entries) =~= Seq::<PathBuf>::empty());
}

/// Over a directory whose entries are all regular files that the filter
/// keeps, as every name is kept where the pattern matches every name, a flat
/// run and a recursive one come to the same total: the sum of the line counts
/// of all the entries. Where the tally of those counts fails, both runs fail
/// with its failure.
pub proof fn lemma_directory_of_files(
    dir: PathBuf,
    recursive: bool,
    rule: FilterRule,
    listings: Vec<Listing>,
    counts: Vec<Result<usize, std::io::Error>>,
)
    requires
        listings@.len() == 1,
        listings@[0].ending is Complete,
        forall|i: int|
            0 <= i < listings@[0].entries@.len() ==> (#[trigger] listings@[0].entries@[i]).kept(
                rule,
            ),
    ensures
        ({
            let children = entry_paths(listings@[0].entries@);
            let answers =
                seq![Event::Probed(false), Event::Listed(listings), Event::Counted(counts)];
            let end = replay(start(seq![dir], recursive, Ok(rule)), answers);
            &&& end.0 is None
            &&& match tally(children, counts@) {
                Ok(total) => end.1 == ActionView::Done(total as usize),
                Err(e) => end.1 == ActionView::Fail(e),
            }
            &&& counts@.len() == children.len() && sum_lines(counts@) <= usize::MAX && (forall|
                i: int,
            |
                0 <= i < counts@.len() ==> counts@[i] is Ok) ==> end.1 == ActionView::Done(
                sum_lines(counts@) as usize,
            )
        }),
{
    let listing = listings@[0];
    let children = entry_paths(listing.entries@);
    let answers = seq![Event::Probed(false), Event::Listed(listings), Event::Counted(counts)];
    let at0 = start(seq![dir], recursive, Ok(rule));
    let at1 = react(at0.0->0, answers[0]);
    lemma_scan_keeps_all(dir, listing, rule);
    assert(listings@ =~= seq![listing]);
    lemma_first_level(dir, listing, rule, recursive);
    assert(Seq::<PathBuf>::empty() + children =~= children);
    let at2 = react(at1.0->0, answers[1]);
    assert(at2.1 == ActionView::Count(children));
    let at3 = react(at2.0->0, answers[2]);
    if children.len() == counts@.len() {
        lemma_tally_ok(children, counts@);
    }
    assert(replay(at0, answers) == at3) by {
        reveal_with_fuel(replay, 4);
        let rest1 = answers.drop_first();
        let rest2 = rest1.drop_first();
        assert(rest1[0] == answers[1]);
        assert(rest2[0] == answers[2]);
        assert(rest2.drop_first().len() == 0);
    }
}

} // verus!
