//! Point-in-time snapshots of a metrics store that keeps its records under
//! three lifetimes.
//!
//! A [`Database`] holds the records of every store under the lifetimes
//! [`Lifetime::Ping`], [`Lifetime::Application`] and [`Lifetime::User`]. The
//! [`StorageManager`] reads one store across the three lifetimes, in that
//! order, and merges what it visits: a later visit replaces an earlier one
//! with the same category and name. The merged view comes out as a JSON
//! object of categories, as its pretty-printed text, or as the single metric
//! last visited under a given name.
//!
//! The functions are verified with Verus. What is taken on trust from
//! `serde_json` and from `std` stands in `json` and in `names`.

pub mod database;
pub mod json;
pub mod last;
pub mod laws;
pub mod lifetime;
pub mod lookup;
pub mod merge;
pub mod metric;
pub mod names;
pub mod snapshot;
pub mod storage;

pub use database::{Database, DatabaseView, Record, RecordView};
pub use lifetime::Lifetime;
pub use lookup::Lookup;
pub use metric::{Metric, MetricView};
pub use names::decode_name;
pub use snapshot::Snapshot;
pub use storage::StorageManager;
