//! Core logic of the coffee shop finder: choosing the distance metric,
//! reading shop rows out of CSV data, ranking shops by distance, the
//! decisions of the CSV download, and the command-line invocation.

pub mod metric;
pub mod records;
pub mod nearest;
pub mod download;
pub mod invocation;
