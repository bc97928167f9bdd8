//! Properties of binning that relate the model's parts to one another and
//! to repeated calls.

use vstd::prelude::*;
use crate::lemmas::{lemma_bins_cover, lemma_selected_prefix_len};
use crate::model::{
    bin_count, bin_counts, bin_of, binning, count_in_bin, counts_view, histogram, match_count, outcome_view,
    selected_positions, sum_of, BinError,
};

verus! {

/// Adding one position to a sequence adds one to the total of the first `m`
/// bins exactly when the position falls into one of them.
proof fn lemma_sum_bin_counts_step(ps: Seq<u32>, bin_size: u32, m: nat)
    requires
        ps.len() > 0,
    ensures
        sum_of(bin_counts(ps, bin_size, m)) == sum_of(bin_counts(ps.drop_last(), bin_size, m)) + if 0
            <= bin_of(ps.last(), bin_size) < m {
            1nat
        } else {
            0nat
        },
    decreases m,
{
    if m > 0 {
        let k = (m - 1) as nat;
        lemma_sum_bin_counts_step(ps, bin_size, k);
        assert(bin_counts(ps, bin_size, m).drop_last() =~= bin_counts(ps, bin_size, k));
        assert(bin_counts(ps.drop_last(), bin_size, m).drop_last() =~= bin_counts(
            ps.drop_last(),
            bin_size,
            k,
        ));
    }
}

/// When every position falls into one of the first `m` bins, those bins
/// together count every position once.
pub proof fn lemma_sum_bin_counts(ps: Seq<u32>, bin_size: u32, m: nat)
    requires
        forall|i: int| 0 <= i < ps.len() ==> 0 <= #[trigger] bin_of(ps[i], bin_size) < m,
    ensures
        sum_of(bin_counts(ps, bin_size, m)) == ps.len(),
    decreases ps.len(),
{
    if ps.len() == 0 {
        assert forall|k: int| 0 <= k < m implies #[trigger] bin_counts(ps, bin_size, m)[k] == 0 by {
        }
        lemma_sum_of_zeros(bin_counts(ps, bin_size, m));
    } else {
        let front = ps.drop_last();
        assert forall|i: int| 0 <= i < front.len() implies 0 <= #[trigger] bin_of(front[i], bin_size)
            < m by {
            assert(front[i] == ps[i]);
        }
        lemma_sum_bin_counts(front, bin_size, m);
        lemma_sum_bin_counts_step(ps, bin_size, m);
        assert(bin_of(ps[ps.len() - 1], bin_size) < m);
    }
}

/// A sequence of zero counts sums to zero.
proof fn lemma_sum_of_zeros(s: Seq<nat>)
    requires
        forall|k: int| 0 <= k < s.len() ==> s[k] == 0,
    ensures
        sum_of(s) == 0,
    decreases s.len(),
{
    if s.len() > 0 {
        lemma_sum_of_zeros(s.drop_last());
    }
}

/// The histogram counts every selected record exactly once: its bins sum to
/// the number of records that carry the selected label.
pub proof fn lemma_histogram_total(
    labels: Seq<Seq<char>>,
    positions: Seq<u32>,
    selected: Seq<char>,
    bin_size: u32,
)
    requires
        labels.len() == positions.len(),
        bin_size > 0,
    ensures
        sum_of(histogram(selected_positions(labels, positions, selected), bin_size))
            == match_count(labels, selected),
{
    let ps = selected_positions(labels, positions, selected);
    lemma_selected_prefix_len(labels, positions, selected, positions.len());
    assert(labels.take(labels.len() as int) =~= labels);
    if ps.len() > 0 {
        lemma_bins_cover(ps, bin_size);
        lemma_sum_bin_counts(ps, bin_size, bin_count(ps, bin_size));
    }
}

/// No position falls outside the histogram's bins: a bin index before the
/// first bin or past the last one counts no position.
pub proof fn lemma_no_position_past_last_bin(ps: Seq<u32>, bin_size: u32, k: int)
    requires
        bin_size > 0,
        k < 0 || k >= histogram(ps, bin_size).len(),
    ensures
        count_in_bin(ps, bin_size, k) == 0,
{
    if ps.len() > 0 {
        lemma_bins_cover(ps, bin_size);
        lemma_count_zero_outside(ps, bin_size, k, bin_count(ps, bin_size));
    }
}

/// A bin index outside `[0, m)` counts nothing when every position falls
/// into `[0, m)`.
proof fn lemma_count_zero_outside(ps: Seq<u32>, bin_size: u32, k: int, m: nat)
    requires
        forall|i: int| 0 <= i < ps.len() ==> 0 <= #[trigger] bin_of(ps[i], bin_size) < m,
        k < 0 || k >= m,
    ensures
        count_in_bin(ps, bin_size, k) == 0,
    decreases ps.len(),
{
    if ps.len() > 0 {
        let front = ps.drop_last();
        assert forall|i: int| 0 <= i < front.len() implies 0 <= #[trigger] bin_of(front[i], bin_size)
            < m by {
            assert(front[i] == ps[i]);
        }
        lemma_count_zero_outside(front, bin_size, k, m);
        assert(0 <= bin_of(ps[ps.len() - 1], bin_size) < m);
    }
}

/// Binning is a function of its inputs: two outcomes of the same inputs are
/// the same outcome, with equal histograms or equal errors.
pub proof fn lemma_same_inputs_same_outcome(
    labels: Seq<Seq<char>>,
    positions: Seq<u32>,
    selected: Seq<char>,
    bin_size: u32,
    first: Result<Vec<u32>, BinError>,
    second: Result<Vec<u32>, BinError>,
)
    requires
        outcome_view(first) == binning(labels, positions, selected, bin_size),
        outcome_view(second) == binning(labels, positions, selected, bin_size),
    ensures
        match (first, second) {
            (Ok(a), Ok(b)) => a@ == b@,
            (Err(e), Err(f)) => e == f,
            _ => false,
        },
{
    match (first, second) {
        (Ok(a), Ok(b)) => {
            let ca = counts_view(a@);
            let cb = counts_view(b@);
            assert(ca == cb);
            assert(a@.len() == ca.len() && b@.len() == cb.len());
            assert forall|i: int| 0 <= i < a@.len() implies a@[i] == b@[i] by {
                assert(ca[i] == a@[i] as nat && cb[i] == b@[i] as nat);
            }
            assert(a@ =~= b@);
        },
        _ => {},
    }
}

} // verus!
