//! Facts about the model that the executable code and the laws build on.

use vstd::prelude::*;
use vstd::arithmetic::div_mod::lemma_div_is_ordered;
use crate::model::{bin_count, bin_of, count_in_bin, match_count, max_of, selected_prefix};

verus! {

/// `max_of` bounds every position and, on a non-empty sequence, is one of them.
pub proof fn lemma_max_of_is_max(ps: Seq<u32>)
    ensures
        forall|i: int| 0 <= i < ps.len() ==> ps[i] <= max_of(ps),
        ps.len() > 0 ==> exists|i: int| 0 <= i < ps.len() && ps[i] == max_of(ps),
    decreases ps.len(),
{
    if ps.len() > 0 {
        let front = ps.drop_last();
        lemma_max_of_is_max(front);
        if front.len() > 0 && ps.last() <= max_of(front) {
            let i = choose|i: int| 0 <= i < front.len() && front[i] == max_of(front);
            assert(ps[i] == max_of(ps));
        } else {
            assert(ps[ps.len() - 1] == max_of(ps));
        }
        assert forall|i: int| 0 <= i < ps.len() implies ps[i] <= max_of(ps) by {
            if i < ps.len() - 1 {
                assert(ps[i] == front[i]);
            }
        }
    }
}

/// Every position of a non-empty sequence falls into one of its
/// `bin_count` bins.
pub proof fn lemma_bins_cover(ps: Seq<u32>, bin_size: u32)
    requires
        bin_size > 0,
    ensures
        forall|i: int|
            0 <= i < ps.len() ==> 0 <= #[trigger] bin_of(ps[i], bin_size) < bin_count(ps, bin_size),
{
    lemma_max_of_is_max(ps);
    assert forall|i: int| 0 <= i < ps.len() implies 0 <= #[trigger] bin_of(ps[i], bin_size)
        < bin_count(ps, bin_size) by {
        lemma_div_is_ordered(ps[i] as int, max_of(ps) as int, bin_size as int);
        lemma_div_is_ordered(0, ps[i] as int, bin_size as int);
    }
}

/// No bin holds more positions than the sequence has.
pub proof fn lemma_count_in_bin_bounded(ps: Seq<u32>, bin_size: u32, k: int)
    ensures
        count_in_bin(ps, bin_size, k) <= ps.len(),
    decreases ps.len(),
{
    if ps.len() > 0 {
        lemma_count_in_bin_bounded(ps.drop_last(), bin_size, k);
    }
}

/// The positions selected among the first `n` records are as many as the
/// records among them that carry the label.
pub proof fn lemma_selected_prefix_len(
    labels: Seq<Seq<char>>,
    positions: Seq<u32>,
    selected: Seq<char>,
    n: nat,
)
    requires
        n <= labels.len(),
    ensures
        selected_prefix(labels, positions, selected, n).len() == match_count(
            labels.take(n as int),
            selected,
        ),
        selected_prefix(labels, positions, selected, n).len() <= n,
    decreases n,
{
    reveal(Seq::filter);
    if n > 0 {
        lemma_selected_prefix_len(labels, positions, selected, (n - 1) as nat);
        assert(labels.take(n as int).drop_last() =~= labels.take(n - 1));
    }
}

} // verus!
