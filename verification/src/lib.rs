//! Local metrics storage with an upload-enabled lifecycle.
//!
//! The crate keeps application metrics in a store partitioned by retention
//! lifetime, manages the client identifier and the first-run date across
//! privacy toggles, bounds experiment annotations, and builds the path under
//! which a ping is submitted.

use vstd::prelude::*;

pub mod error;
pub mod assoc;
pub mod text;
pub mod date;
pub mod persist;
pub mod experiments;
pub mod storage;
pub mod serialize;
pub mod identity;
pub mod glean;
pub mod metrics;
pub mod path;

pub use crate::date::Date;
pub use crate::error::Error;
pub use crate::experiments::RecordedExperimentData;
pub use crate::glean::Glean;
pub use crate::identity::{FreshId, KNOWN_CLIENT_ID};
pub use crate::metrics::{CommonMetricData, StringMetric};
pub use crate::storage::{Lifetime, Metric, StorageKey, Store};
