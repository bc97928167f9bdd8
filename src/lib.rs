//! Per-chromosome histograms of variant positions: the records of one
//! chromosome are counted into fixed-width, non-overlapping coordinate bins.

pub mod binning;
pub mod laws;
pub mod lemmas;
pub mod model;

pub use binning::bin_variants_by_chromosome;
pub use model::{BinError, MAX_BINS};
