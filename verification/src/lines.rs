//! The line counter: how many lines a file's bytes hold.

use vstd::prelude::*;

verus! {

/// The byte that ends a line.
pub const LINE_FEED: u8 = 10;

/// How many line feeds `bytes` holds.
pub open spec fn line_feeds(bytes: Seq<u8>) -> nat {
    bytes.filter(|b: u8| b == LINE_FEED).len()
}

/// How many lines `bytes` holds: one for each line feed, and one more for
/// what follows the last line feed, if anything does.
pub open spec fn line_count(bytes: Seq<u8>) -> nat {
    if bytes.len() > 0 && bytes.last() != LINE_FEED {
        line_feeds(bytes) + 1
    } else {
        line_feeds(bytes)
    }
}

/// Counts the lines of a file from its bytes. An empty file has none; a last
/// line counts whether or not a line feed ends it.
pub fn count_lines(bytes: &[u8]) -> (n: usize)
    ensures
        n == line_count(bytes@),
{
    let mut feeds: usize = 0;
    let mut i: usize = 0;
    proof {
        assert(bytes@.take(0) =~= Seq::<u8>::empty());
        assert(line_feeds(Seq::<u8>::empty()) == 0) by {
            reveal(Seq::filter);
        }
    }
    while i < bytes.len()
        invariant
            i <= bytes.len(),
            feeds == line_feeds(bytes@.take(i as int)),
            feeds <= i,
        decreases bytes.len() - i,
    {
        proof {
            assert(bytes@.take(i + 1) =~= bytes@.take(i as int).push(bytes@[i as int]));
            bytes@.take(i as int).lemma_filter_push(bytes@[i as int], |b: u8| b == LINE_FEED);
        }
        if bytes[i] == LINE_FEED {
            feeds += 1;
        }
        i += 1;
    }
    proof {
        assert(bytes@.take(bytes.len() as int) =~= bytes@);
    }
    if bytes.len() > 0 && bytes[bytes.len() - 1] != LINE_FEED {
        // at least one byte is no line feed, so `feeds` is below the length
        proof {
            let all = bytes@;
            let body = all.drop_last();
            assert(all =~= body.push(all.last()));
            body.lemma_filter_push(all.last(), |b: u8| b == LINE_FEED);
            body.lemma_filter_len(|b: u8| b == LINE_FEED);
        }
        feeds + 1
    } else {
        feeds
    }
}

} // verus!
