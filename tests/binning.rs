use variant_binning::{bin_variants_by_chromosome, BinError, MAX_BINS};

fn labels(names: &[&str]) -> Vec<String> {
    names.iter().map(|n| n.to_string()).collect()
}

#[test]
fn three_chromosome_one_bins() {
    let r = bin_variants_by_chromosome(
        labels(&["chr1", "chr1", "chr2", "chr1"]),
        vec![5, 15, 100, 25],
        "chr1".to_string(),
        10,
    );
    assert_eq!(r, Ok(vec![1, 1, 1]));
}

#[test]
fn absent_chromosome_gives_empty_histogram() {
    let r = bin_variants_by_chromosome(
        labels(&["chr1", "chr1", "chr2", "chr1"]),
        vec![5, 15, 100, 25],
        "chr3".to_string(),
        10,
    );
    assert_eq!(r, Ok(vec![]));
}

#[test]
fn all_positions_in_first_bin() {
    let r = bin_variants_by_chromosome(
        labels(&["chrX", "chrX", "chrX"]),
        vec![0, 0, 9],
        "chrX".to_string(),
        10,
    );
    assert_eq!(r, Ok(vec![3]));
}

#[test]
fn zero_bin_size_is_rejected() {
    let r = bin_variants_by_chromosome(labels(&["chr1", "chr2"]), vec![1, 2], "chr1".to_string(), 0);
    assert_eq!(r, Err(BinError::InvalidBinSize));
}

#[test]
fn zero_bin_size_is_rejected_without_matches() {
    let r = bin_variants_by_chromosome(labels(&["chr1"]), vec![1], "chr9".to_string(), 0);
    assert_eq!(r, Err(BinError::InvalidBinSize));
    let r = bin_variants_by_chromosome(vec![], vec![], "chr1".to_string(), 0);
    assert_eq!(r, Err(BinError::InvalidBinSize));
}

#[test]
fn mismatched_lengths_are_rejected() {
    let r = bin_variants_by_chromosome(labels(&["chr1", "chr1"]), vec![1], "chr1".to_string(), 10);
    assert_eq!(r, Err(BinError::MismatchedLengths));
    let r = bin_variants_by_chromosome(labels(&["chr1"]), vec![1, 2, 3], "chr1".to_string(), 10);
    assert_eq!(r, Err(BinError::MismatchedLengths));
}

#[test]
fn mismatched_lengths_come_before_bin_size() {
    let r = bin_variants_by_chromosome(labels(&[]), vec![4], "chr1".to_string(), 0);
    assert_eq!(r, Err(BinError::MismatchedLengths));
}

#[test]
fn too_many_bins_are_rejected_with_their_number() {
    let r = bin_variants_by_chromosome(labels(&["chr1"]), vec![u32::MAX], "chr1".to_string(), 1);
    assert_eq!(r, Err(BinError::BinCountOverflow(1u64 << 32)));
    let r = bin_variants_by_chromosome(
        labels(&["chr1", "chr1"]),
        vec![3, MAX_BINS as u32],
        "chr1".to_string(),
        1,
    );
    assert_eq!(r, Err(BinError::BinCountOverflow(MAX_BINS + 1)));
}

#[test]
fn unmatched_overflowing_position_is_ignored() {
    let r = bin_variants_by_chromosome(
        labels(&["chr1", "chr2"]),
        vec![7, u32::MAX],
        "chr1".to_string(),
        1,
    );
    assert_eq!(r, Ok(vec![0, 0, 0, 0, 0, 0, 0, 1]));
}

#[test]
fn empty_input_gives_empty_histogram() {
    let r = bin_variants_by_chromosome(vec![], vec![], "chr1".to_string(), 5);
    assert_eq!(r, Ok(vec![]));
}

#[test]
fn labels_match_exactly() {
    let r = bin_variants_by_chromosome(
        labels(&["Chr1", "chr1", "chr1 ", "chr10"]),
        vec![1, 2, 3, 4],
        "chr1".to_string(),
        100,
    );
    assert_eq!(r, Ok(vec![1]));
}

#[test]
fn bin_edges_are_half_open() {
    let r = bin_variants_by_chromosome(
        labels(&["a", "a", "a", "a"]),
        vec![9, 10, 19, 30],
        "a".to_string(),
        10,
    );
    assert_eq!(r, Ok(vec![1, 2, 0, 1]));
}

#[test]
fn largest_position_with_largest_bin_size() {
    let r = bin_variants_by_chromosome(
        labels(&["a", "a"]),
        vec![u32::MAX, 0],
        "a".to_string(),
        u32::MAX,
    );
    assert_eq!(r, Ok(vec![1, 1]));
}

#[test]
fn counts_sum_to_matching_records() {
    let chromosomes = labels(&["c", "d", "c", "c", "d", "c", "c"]);
    let positions = vec![3, 40, 17, 3, 2, 58, 31];
    let r = bin_variants_by_chromosome(chromosomes, positions, "c".to_string(), 7).unwrap();
    assert_eq!(r.iter().sum::<u32>(), 5);
}

#[test]
fn width_covers_largest_matching_position() {
    let chromosomes = labels(&["c", "d", "c", "c", "d"]);
    let positions = vec![3, 400, 17, 64, 2];
    let r = bin_variants_by_chromosome(chromosomes, positions, "c".to_string(), 8).unwrap();
    assert_eq!(r.len(), 64 / 8 + 1);
}

#[test]
fn each_bin_counts_its_positions() {
    let chromosomes = labels(&["c", "c", "c", "d", "c", "c"]);
    let positions = vec![12, 5, 14, 6, 27, 10];
    let r = bin_variants_by_chromosome(chromosomes, positions, "c".to_string(), 5).unwrap();
    assert_eq!(r, vec![0, 1, 3, 0, 0, 1]);
}

#[test]
fn repeated_calls_agree() {
    let chromosomes = labels(&["chr2", "chr1", "chr2", "chr2"]);
    let positions = vec![100, 7, 250, 101];
    let first =
        bin_variants_by_chromosome(chromosomes.clone(), positions.clone(), "chr2".to_string(), 50);
    let second = bin_variants_by_chromosome(chromosomes, positions, "chr2".to_string(), 50);
    assert_eq!(first, second);
    assert_eq!(first, Ok(vec![0, 0, 2, 0, 0, 1]));
}
