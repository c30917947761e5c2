//! Node importance evaluation on a discretised grid.
//!
//! A candidate node is judged against the nodes already known in its segment: the nodes
//! recorded as important and the recently visited ones. Space is cut into grid cells, and
//! a candidate counts as important when it lands in a cell that nothing occupies yet, or,
//! in a segment that is short of coverage, when it helps an adjacent segment that is short
//! of coverage too or refreshes a cell whose last visit is not the latest.
//!
//! All lengths are integers that count a unit of the caller's choosing; coordinates and
//! grid steps share that unit. Ratios and scores are integers that count millionths.
//!
//! - [`model`]: nodes, segments and adjacency, each with its mathematical model.
//! - [`grid`]: the cell of a point.
//! - [`coverage`]: the cells that a segment's nodes occupy, and their share of the
//!   bounding box; [`bounds`] shows that the share is at most one.
//! - [`evaluator`]: the judgement; [`laws`] states what holds of every judgement, and
//!   [`warnings`] finds the segments that only the adjacency names.
//! - [`validate`], [`payload`], [`executable`]: the JSON texts of a request, checked and
//!   framed for the remote service or the local helper executable; [`json`] holds what is
//!   taken on trust from `serde_json`, and [`decimal`] writes numbers.
//! - [`error`]: the refusals.

pub mod bounds;
pub mod coverage;
pub mod decimal;
pub mod error;
pub mod evaluator;
pub mod executable;
pub mod grid;
pub mod json;
pub mod laws;
pub mod model;
pub mod payload;
pub mod validate;
pub mod warnings;
