//! Discovers recurring structural patterns in a stream of log lines.
//!
//! Lines are tokenized, compared under a token-wise distance measure, and
//! clustered online: each incoming line either joins the first existing
//! cluster whose founding representative is within the distance threshold,
//! or founds a new cluster.  A cluster's running template absorbs each new
//! member by global sequence alignment, collapsing the positions that vary
//! into placeholders.  Per-worker cluster lists can afterwards be reduced
//! into a single list with the same matching and merging rules.

pub mod align;
pub mod clusterer;
pub mod pattern;
pub mod pool;
pub mod ratio;
pub mod reduce;
pub mod scorer;
pub mod scoring;
pub mod tokenize;
