//! Guess-selection core of a five-letter word-guessing solver: word encodings,
//! the two-pass feedback rule, feedback parsing and pattern buckets, the
//! candidate-set session, calibration-curve grouping, worker partitioning and
//! shard naming.
pub mod calibration;
pub mod encoding;
pub mod feedback;
pub mod session;
pub mod shards;
pub mod workers;
