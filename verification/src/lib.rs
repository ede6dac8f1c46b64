//! Grouped extraction of per-series descriptors from tabular time-series data.
//!
//! A table is split by an id column, every partition is put in order by a sort
//! column, a feature capability is run on each remaining column of each
//! partition, and the named results are assembled into one wide table with a
//! row per group and a column per `{column}__{feature}` name.
//!
//! The library is generic in the type `V` of an observation. It moves
//! observations about and never computes with one: the statistics themselves
//! come from the caller, as an implementation of
//! [`features::common::FeatureFunction`]. Everything else is verified with
//! Verus: which rows a group holds and in what order, which series a
//! capability is handed, under which names its results appear, and where each
//! value ends up in the output.
//!
//! ```ignore
//! let table = Table::new(vec![
//!     Column::new("id", ColumnData::Text(ids)),
//!     Column::new("time", ColumnData::Int(times)),
//!     Column::new("value", ColumnData::numbers(values)),
//! ])
//! .expect("columns of equal length");
//! let features = extract_features(&table, "id", "time", &catalog, f64::NAN)?;
//! ```

pub mod assemble;
pub mod error;
pub mod extractor;
pub mod features;
pub mod group;
pub mod names;
pub mod order;
pub mod partition;
pub mod pipeline;
pub mod sorted;
pub mod table;
pub mod text;
pub mod validate;

pub use pipeline::extract_features;
