//! Log-file monitoring engine: line decoding, metric extraction, multi-granularity
//! time-bucket histories, checkpoint encoding and the monitor coordinator.
use vstd::prelude::*;

pub mod app_timelines;
pub mod codec;
pub mod dash;
pub mod decode;
pub mod logfiles_manager;
pub mod metrics;
pub mod monitor;
pub mod stat;
pub mod text;
pub mod timelines;

pub use timelines::{get_max_buckets_value, get_min_buckets_value};

verus! {

} // verus!
