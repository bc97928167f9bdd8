//! The mathematical model of a binning: which positions are selected, how
//! many bins cover them, and how many positions fall into each bin.

use vstd::prelude::*;

verus! {

/// The widest histogram that a call may ask for (2^28 bins, 1 GiB of
/// counters). Wider requests fail with `BinError::BinCountOverflow`.
pub const MAX_BINS: u64 = 0x1000_0000;

/// Why a binning was refused. Every error is reported before any histogram
/// is built.
#[derive(Debug, Clone, Copy, PartialEq, Eq, Structural)]
pub enum BinError {
    /// The label and position sequences differ in length.
    MismatchedLengths,
    /// The bin size is zero.
    InvalidBinSize,
    /// The histogram would need this many bins, more than `MAX_BINS`.
    BinCountOverflow(u64),
}

/// The labels as character sequences.
pub open spec fn labels_view(chromosomes: Seq<String>) -> Seq<Seq<char>> {
    chromosomes.map_values(|c: String| c@)
}

/// The positions among the first `n` records whose label is `selected`,
/// in input order.
pub open spec fn selected_prefix(
    labels: Seq<Seq<char>>,
    positions: Seq<u32>,
    selected: Seq<char>,
    n: nat,
) -> Seq<u32>
    decreases n,
{
    if n == 0 {
        Seq::empty()
    } else {
        let earlier = selected_prefix(labels, positions, selected, (n - 1) as nat);
        if labels[n - 1] == selected {
            earlier.push(positions[n - 1])
        } else {
            earlier
        }
    }
}

/// The positions of all records whose label is `selected`, in input order.
pub open spec fn selected_positions(
    labels: Seq<Seq<char>>,
    positions: Seq<u32>,
    selected: Seq<char>,
) -> Seq<u32> {
    selected_prefix(labels, positions, selected, positions.len())
}

/// How many records carry the label `selected`.
pub open spec fn match_count(labels: Seq<Seq<char>>, selected: Seq<char>) -> nat {
    labels.filter(|l: Seq<char>| l == selected).len()
}

/// The largest position of `ps` (zero for an empty sequence).
pub open spec fn max_of(ps: Seq<u32>) -> u32
    decreases ps.len(),
{
    if ps.len() == 0 {
        0
    } else {
        let m = max_of(ps.drop_last());
        if ps.last() > m {
            ps.last()
        } else {
            m
        }
    }
}

/// The bin that position `p` falls into: bin `k` covers
/// `[k * bin_size, (k + 1) * bin_size)`.
pub open spec fn bin_of(p: u32, bin_size: u32) -> int {
    p as int / bin_size as int
}

/// How many positions of `ps` fall into bin `k`.
pub open spec fn count_in_bin(ps: Seq<u32>, bin_size: u32, k: int) -> nat
    decreases ps.len(),
{
    if ps.len() == 0 {
        0
    } else {
        count_in_bin(ps.drop_last(), bin_size, k) + if bin_of(ps.last(), bin_size) == k {
            1nat
        } else {
            0nat
        }
    }
}

/// The counts of the first `n` bins.
pub open spec fn bin_counts(ps: Seq<u32>, bin_size: u32, n: nat) -> Seq<nat> {
    Seq::new(n, |k: int| count_in_bin(ps, bin_size, k))
}

/// The number of bins needed to cover the largest position of `ps`.
pub open spec fn bin_count(ps: Seq<u32>, bin_size: u32) -> nat {
    (bin_of(max_of(ps), bin_size) + 1) as nat
}

/// The histogram of `ps`: empty when `ps` is, otherwise exactly enough bins
/// to cover its largest position.
pub open spec fn histogram(ps: Seq<u32>, bin_size: u32) -> Seq<nat> {
    if ps.len() == 0 {
        Seq::empty()
    } else {
        bin_counts(ps, bin_size, bin_count(ps, bin_size))
    }
}

/// The outcome of binning the records labelled `selected`.
pub open spec fn binning(
    labels: Seq<Seq<char>>,
    positions: Seq<u32>,
    selected: Seq<char>,
    bin_size: u32,
) -> Result<Seq<nat>, BinError> {
    if labels.len() != positions.len() {
        Err(BinError::MismatchedLengths)
    } else if bin_size == 0 {
        Err(BinError::InvalidBinSize)
    } else {
        let ps = selected_positions(labels, positions, selected);
        if ps.len() > 0 && bin_count(ps, bin_size) > MAX_BINS {
            Err(BinError::BinCountOverflow(bin_count(ps, bin_size) as u64))
        } else {
            Ok(histogram(ps, bin_size))
        }
    }
}

/// The sum of a sequence of counts.
pub open spec fn sum_of(s: Seq<nat>) -> nat
    decreases s.len(),
{
    if s.len() == 0 {
        0
    } else {
        sum_of(s.drop_last()) + s.last()
    }
}

/// Machine counters as natural numbers.
pub open spec fn counts_view(v: Seq<u32>) -> Seq<nat> {
    v.map_values(|c: u32| c as nat)
}

/// An outcome with its histogram as natural numbers.
pub open spec fn outcome_view(r: Result<Vec<u32>, BinError>) -> Result<Seq<nat>, BinError> {
    match r {
        Ok(v) => Ok(counts_view(v@)),
        Err(e) => Err(e),
    }
}

} // verus!
