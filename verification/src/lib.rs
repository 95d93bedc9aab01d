//! Heart-rate-variability statistics over an RR-interval series.
//!
//! The crate has two independent engines.  The run-classification engine
//! scans a beat-to-beat series, splits it into maximal runs of one trend
//! (acceleration, deceleration, neutral) while skipping beats that the
//! annotation channel marks as unusable, and accumulates per-length counts
//! together with a chronological list of run records.  The sample-entropy
//! core counts template-vector matches over a triangular closeness matrix,
//! the combinatorial heart of the correlation-sum estimator.
//!
//! Both engines work on plain discrete data: the run engine on the per-pair
//! trend of the series and the annotation codes, the entropy core on the
//! boolean "within radius" matrix.  Callers that start from raw real-valued
//! intervals compute those inputs with two elementwise comparisons and keep
//! all remaining arithmetic outside this crate.

pub mod laws;
pub mod runs;
pub mod samp_en;
