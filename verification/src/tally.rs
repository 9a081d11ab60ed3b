//! The aggregator: adding up the line counts of a set of files, and giving
//! up where a file could not be read or the total no longer fits.

use crate::error::CountError;
use crate::seqs::{first_some, lemma_first_some_at, lemma_first_some_found, lemma_first_some_none};
use crate::paths::clone_path;
use std::path::PathBuf;
use vstd::prelude::*;

verus! {

/// The lines that one file contributes: its count, or nothing where it could
/// not be read.
pub open spec fn lines_of(count: Result<usize, std::io::Error>) -> nat {
    match count {
        Ok(n) => n as nat,
        Err(_) => 0,
    }
}

/// The sum of the counts in `counts`.
pub open spec fn sum_lines(counts: Seq<Result<usize, std::io::Error>>) -> nat
    decreases counts.len(),
{
    if counts.len() == 0 {
        0
    } else {
        sum_lines(counts.drop_last()) + lines_of(counts.last())
    }
}

/// What goes wrong at the `i`-th file, if anything: it could not be read, or
/// with its count the sum so far is more than a `usize` holds.
pub open spec fn problem_at(
    files: Seq<PathBuf>,
    counts: Seq<Result<usize, std::io::Error>>,
    i: int,
) -> Option<CountError> {
    match counts[i] {
        Err(cause) => Some(CountError::FileOpen(files[i], cause)),
        Ok(_) => if sum_lines(counts.take(i + 1)) > usize::MAX {
            Some(CountError::Overflow(files[i]))
        } else {
            None
        },
    }
}

/// What goes wrong at each file, in order.
pub open spec fn problems(
    files: Seq<PathBuf>,
    counts: Seq<Result<usize, std::io::Error>>,
) -> Seq<Option<CountError>> {
    Seq::new(counts.len(), |i: int| problem_at(files, counts, i))
}

/// The total over `files`, whose counts are `counts`: an answer that does
/// not hold one count for each file is unexpected; else the first problem in
/// the files' order; else the sum.
pub open spec fn tally(files: Seq<PathBuf>, counts: Seq<Result<usize, std::io::Error>>) -> Result<
    nat,
    CountError,
> {
    if files.len() != counts.len() {
        Err(CountError::UnexpectedEvent)
    } else if first_some(problems(files, counts)) is Some {
        Err(first_some(problems(files, counts))->0)
    } else {
        Ok(sum_lines(counts))
    }
}

/// Adds up the counts of `files`. Fails with `FileOpen` at the first file
/// that could not be read and with `Overflow` at the first file whose count
/// takes the sum beyond `usize::MAX`, whichever comes first.
pub fn total_lines(files: &Vec<PathBuf>, counts: Vec<Result<usize, std::io::Error>>) -> (r: Result<
    usize,
    CountError,
>)
    ensures
        match r {
            Ok(total) => tally(files@, counts@) == Ok::<nat, CountError>(total as nat),
            Err(e) => tally(files@, counts@) == Err::<nat, CountError>(e),
        },
{
    if files.len() != counts.len() {
        return Err(CountError::UnexpectedEvent);
    }
    let ghost all = counts@;
    let ghost faults = problems(files@, all);
    let mut total: usize = 0;
    let mut index: usize = 0;
    proof {
        assert(all.take(0) =~= Seq::<Result<usize, std::io::Error>>::empty());
    }
    for count in it: counts
        invariant
            it.seq() == all,
            all == counts@,
            files.len() == all.len(),
            faults == problems(files@, all),
            total == sum_lines(all.take(it.index() as int)),
            index == it.index(),
            forall|j: int| 0 <= j < it.index() ==> faults[j] is None,
    {
        let ghost i = it.index() as int;
        proof {
            assert(all.take(i + 1).drop_last() =~= all.take(i));
            assert(all.take(i + 1).last() == all[i]);
        }
        match count {
            Err(cause) => {
                proof {
                    lemma_first_some_at(faults, i);
                }
                return Err(CountError::FileOpen(clone_path(&files[index]), cause));
            },
            Ok(n) => match total.checked_add(n) {
                None => {
                    proof {
                        lemma_first_some_at(faults, i);
                    }
                    return Err(CountError::Overflow(clone_path(&files[index])));
                },
                Some(sum) => {
                    total = sum;
                },
            },
        }
        index += 1;
    }
    proof {
        assert(all.take(all.len() as int) =~= all);
        lemma_first_some_none(faults);
    }
    Ok(total)
}

/// The sum over two runs of counts, one after the other, is the sum of
/// their sums.
pub proof fn lemma_sum_lines_concat(
    a: Seq<Result<usize, std::io::Error>>,
    b: Seq<Result<usize, std::io::Error>>,
)
    ensures
        sum_lines(a + b) == sum_lines(a) + sum_lines(b),
    decreases b.len(),
{
    if b.len() == 0 {
        assert(a + b =~= a);
    } else {
        assert((a + b).drop_last() =~= a + b.drop_last());
        assert((a + b).last() == b.last());
        lemma_sum_lines_concat(a, b.drop_last());
    }
}

/// The sum over the first `n` counts is no more than the sum over all.
pub proof fn lemma_sum_lines_prefix(counts: Seq<Result<usize, std::io::Error>>, n: int)
    requires
        0 <= n <= counts.len(),
    ensures
        sum_lines(counts.take(n)) <= sum_lines(counts),
{
    assert(counts =~= counts.take(n) + counts.skip(n));
    lemma_sum_lines_concat(counts.take(n), counts.skip(n));
}

/// When a tally succeeds, and with what: exactly when every file was read
/// and the sum of the counts fits; the total is then that sum.
pub proof fn lemma_tally_ok(files: Seq<PathBuf>, counts: Seq<Result<usize, std::io::Error>>)
    requires
        files.len() == counts.len(),
    ensures
        tally(files, counts) is Ok <==> (forall|i: int| 0 <= i < counts.len() ==> counts[i] is Ok)
            && sum_lines(counts) <= usize::MAX,
        tally(files, counts) is Ok ==> tally(files, counts) == Ok::<nat, CountError>(
            sum_lines(counts),
        ),
{
    let faults = problems(files, counts);
    if (forall|i: int| 0 <= i < counts.len() ==> counts[i] is Ok) && sum_lines(counts)
        <= usize::MAX {
        assert forall|i: int| 0 <= i < faults.len() implies faults[i] is None by {
            lemma_sum_lines_prefix(counts, i + 1);
        }
        lemma_first_some_none(faults);
    } else {
        if exists|i: int| 0 <= i < counts.len() && counts[i] is Err {
            let i = choose|i: int| 0 <= i < counts.len() && counts[i] is Err;
            assert(faults[i] is Some);
        } else {
            let last = counts.len() - 1;
            assert(counts.take(last + 1) =~= counts);
            assert(faults[last] is Some);
        }
        let k = lemma_first_some_found(faults);
    }
}

/// A sum that does not fit is reported as an overflow; it is never wrapped
/// or cut short.
pub proof fn lemma_overflow_is_reported(
    files: Seq<PathBuf>,
    counts: Seq<Result<usize, std::io::Error>>,
)
    requires
        files.len() == counts.len(),
        forall|i: int| 0 <= i < counts.len() ==> counts[i] is Ok,
        sum_lines(counts) > usize::MAX,
    ensures
        tally(files, counts) matches Err(CountError::Overflow(_)),
{
    let faults = problems(files, counts);
    let last = counts.len() - 1;
    assert(counts.take(last + 1) =~= counts);
    assert(faults[last] is Some);
    let k = lemma_first_some_found(faults);
    assert(faults[k] == problem_at(files, counts, k));
}

/// The total over two sets of files taken together is the sum of their
/// totals, whichever set comes first; where that sum does not fit, taking
/// them together fails with an overflow.
pub proof fn lemma_total_of_parts(
    files_a: Seq<PathBuf>,
    counts_a: Seq<Result<usize, std::io::Error>>,
    files_b: Seq<PathBuf>,
    counts_b: Seq<Result<usize, std::io::Error>>,
)
    requires
        tally(files_a, counts_a) is Ok,
        tally(files_b, counts_b) is Ok,
    ensures
        ({
            let a = tally(files_a, counts_a)->Ok_0;
            let b = tally(files_b, counts_b)->Ok_0;
            let both = tally(files_a + files_b, counts_a + counts_b);
            let swapped = tally(files_b + files_a, counts_b + counts_a);
            if a + b <= usize::MAX {
                both == Ok::<nat, CountError>(a + b) && swapped == both
            } else {
                both matches Err(CountError::Overflow(_)) && swapped matches Err(
                    CountError::Overflow(_),
                )
            }
        }),
{
    lemma_tally_ok(files_a, counts_a);
    lemma_tally_ok(files_b, counts_b);
    lemma_sum_lines_concat(counts_a, counts_b);
    lemma_sum_lines_concat(counts_b, counts_a);
    let a = sum_lines(counts_a);
    let b = sum_lines(counts_b);
    if a + b <= usize::MAX {
        lemma_tally_ok(files_a + files_b, counts_a + counts_b);
        lemma_tally_ok(files_b + files_a, counts_b + counts_a);
    } else {
        lemma_overflow_is_reported(files_a + files_b, counts_a + counts_b);
        lemma_overflow_is_reported(files_b + files_a, counts_b + counts_a);
    }
}

} // verus!
