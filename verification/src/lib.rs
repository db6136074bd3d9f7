//! Verified core of a disk-usage analyzer: the file model, filtering and
//! sorting, folder aggregation, duplicate grouping, cleanup safety checks and
//! the decisions of the application's state machine.

pub mod text;
pub mod winpath;
pub mod models;
pub mod clock;
pub mod analyzer;
pub mod order;
pub mod treemap;
pub mod sizes;
pub mod cleanup;
pub mod duplicates;
pub mod digest;
pub mod scan;
pub mod app_state;
pub mod elevation;
pub mod disk;
pub mod timefmt;
pub mod zoom;
