//! Filtering records by chromosome and counting their positions into bins.

use vstd::prelude::*;
use crate::laws::lemma_histogram_total;
use crate::lemmas::{
    lemma_bins_cover, lemma_count_in_bin_bounded, lemma_max_of_is_max, lemma_selected_prefix_len,
};
use crate::model::{
    bin_count, bin_counts, bin_of, binning, count_in_bin, counts_view, histogram, labels_view,
    match_count, max_of, outcome_view, selected_positions, selected_prefix, sum_of, BinError,
    MAX_BINS,
};

verus! {

/// The positions of the records labelled `selected_chr`, in input order.
fn select_positions(chromosomes: &Vec<String>, positions: &Vec<u32>, selected_chr: &String) -> (r:
    Vec<u32>)
    requires
        chromosomes.len() == positions.len(),
    ensures
        r@ == selected_positions(labels_view(chromosomes@), positions@, selected_chr@),
{
    let ghost labels = labels_view(chromosomes@);
    let mut filtered: Vec<u32> = Vec::new();
    let mut i: usize = 0;
    while i < positions.len()
        invariant
            chromosomes.len() == positions.len(),
            labels == labels_view(chromosomes@),
            i <= positions.len(),
            filtered@ == selected_prefix(labels, positions@, selected_chr@, i as nat),
        decreases positions.len() - i,
    {
        if chromosomes[i] == *selected_chr {
            filtered.push(positions[i]);
        }
        i = i + 1;
    }
    filtered
}

/// The largest of `ps` (zero when `ps` is empty).
fn max_position(ps: &Vec<u32>) -> (m: u32)
    ensures
        m == max_of(ps@),
{
    let mut m: u32 = 0;
    let mut i: usize = 0;
    while i < ps.len()
        invariant
            i <= ps.len(),
            m == max_of(ps@.take(i as int)),
        decreases ps.len() - i,
    {
        assert(ps@.take(i + 1).drop_last() =~= ps@.take(i as int));
        if ps[i] > m {
            m = ps[i];
        }
        i = i + 1;
    }
    assert(ps@.take(ps.len() as int) =~= ps@);
    m
}

/// Counts `ps` into `num_bins` bins of width `bin_size`.
fn count_into_bins(ps: &Vec<u32>, bin_size: u32, num_bins: usize) -> (r: Vec<u32>)
    requires
        bin_size > 0,
        ps.len() <= u32::MAX,
        forall|i: int| 0 <= i < ps.len() ==> 0 <= #[trigger] bin_of(ps[i], bin_size) < num_bins,
    ensures
        counts_view(r@) == bin_counts(ps@, bin_size, num_bins as nat),
{
    let mut bins: Vec<u32> = vec![0; num_bins];
    let mut j: usize = 0;
    while j < ps.len()
        invariant
            bin_size > 0,
            ps.len() <= u32::MAX,
            forall|i: int| 0 <= i < ps.len() ==> 0 <= #[trigger] bin_of(ps[i], bin_size) < num_bins,
            j <= ps.len(),
            bins.len() == num_bins,
            forall|k: int|
                0 <= k < num_bins ==> #[trigger] bins@[k] == count_in_bin(
                    ps@.take(j as int),
                    bin_size,
                    k,
                ),
        decreases ps.len() - j,
    {
        let pos = ps[j];
        let index = (pos / bin_size) as usize;
        assert(bin_of(ps[j as int], bin_size) == index);
        assert(ps@.take(j + 1).drop_last() =~= ps@.take(j as int));
        proof {
            lemma_count_in_bin_bounded(ps@.take(j as int), bin_size, index as int);
        }
        let c = bins[index];
        bins.set(index, c + 1);
        j = j + 1;
    }
    assert(ps@.take(ps.len() as int) =~= ps@);
    assert(counts_view(bins@) =~= bin_counts(ps@, bin_size, num_bins as nat));
    bins
}

/// The histogram of the positions whose chromosome label is exactly
/// `selected_chr`, in bins of width `bin_size`: bin `k` counts the selected
/// positions in `[k * bin_size, (k + 1) * bin_size)`, and there are just
/// enough bins to cover the largest of them. No selected position gives an
/// empty histogram.
pub fn bin_variants_by_chromosome(
    chromosomes: Vec<String>,
    positions: Vec<u32>,
    selected_chr: String,
    bin_size: u32,
) -> (r: Result<Vec<u32>, BinError>)
    requires
        positions.len() <= u32::MAX,
    ensures
        outcome_view(r) == binning(
            labels_view(chromosomes@),
            positions@,
            selected_chr@,
            bin_size,
        ),
        chromosomes.len() != positions.len() ==> r matches Err(BinError::MismatchedLengths),
        chromosomes.len() == positions.len() && bin_size == 0 ==> r matches Err(
            BinError::InvalidBinSize,
        ),
        chromosomes.len() == positions.len() && bin_size > 0 && match_count(
            labels_view(chromosomes@),
            selected_chr@,
        ) == 0 ==> (r matches Ok(v) && v@.len() == 0),
        r matches Ok(v) ==> sum_of(counts_view(v@)) == match_count(
            labels_view(chromosomes@),
            selected_chr@,
        ),
        r matches Ok(v) ==> (match_count(labels_view(chromosomes@), selected_chr@) > 0 ==> v@.len()
            == bin_of(
            max_of(selected_positions(labels_view(chromosomes@), positions@, selected_chr@)),
            bin_size,
        ) + 1),
        r matches Ok(v) ==> forall|k: int|
            0 <= k < v@.len() ==> #[trigger] v@[k] == count_in_bin(
                selected_positions(labels_view(chromosomes@), positions@, selected_chr@),
                bin_size,
                k,
            ),
{
    if chromosomes.len() != positions.len() {
        return Err(BinError::MismatchedLengths);
    }
    if bin_size == 0 {
        return Err(BinError::InvalidBinSize);
    }
    let filtered = select_positions(&chromosomes, &positions, &selected_chr);
    proof {
        lemma_selected_prefix_len(
            labels_view(chromosomes@),
            positions@,
            selected_chr@,
            positions.len() as nat,
        );
        assert(labels_view(chromosomes@).take(positions.len() as int) =~= labels_view(
            chromosomes@,
        ));
        lemma_histogram_total(labels_view(chromosomes@), positions@, selected_chr@, bin_size);
    }
    if filtered.len() == 0 {
        let empty: Vec<u32> = Vec::new();
        assert(counts_view(empty@) =~= histogram(filtered@, bin_size));
        return Ok(empty);
    }
    let max_pos = max_position(&filtered);
    let num_bins: u64 = (max_pos / bin_size) as u64 + 1;
    assert(num_bins == bin_count(filtered@, bin_size));
    if num_bins > MAX_BINS {
        return Err(BinError::BinCountOverflow(num_bins));
    }
    proof {
        lemma_bins_cover(filtered@, bin_size);
    }
    let bins = count_into_bins(&filtered, bin_size, num_bins as usize);
    proof {
        assert forall|k: int| 0 <= k < bins@.len() implies #[trigger] bins@[k] == count_in_bin(
            filtered@,
            bin_size,
            k,
        ) by {
            assert(counts_view(bins@)[k] == bins@[k] as nat);
        }
    }
    Ok(bins)
}

} // verus!
