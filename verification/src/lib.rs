//! Builds a compensation report over internship openings: collects opening
//! ids from a paginated listing, turns per-opening detail records into rows,
//! normalizes daily pay to monthly pay, drops rows without a compensation
//! amount, sorts by amount, derives a public link for each row, and renders
//! the rows as pretty-printed JSON.

pub mod listing;
pub mod model;
pub mod text;
pub mod transform;
pub mod export;
