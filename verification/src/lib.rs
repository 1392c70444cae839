//! Turn a memtrace heap-profiler log into a time-series document for
//! charting: recognize snapshot timestamps, in-use summaries and
//! memory-context blocks, give each distinct callstack a stable uid, and
//! accumulate per-series samples of elapsed seconds and bytes in use.
//!
//! The scan is specified against a mathematical model (`model`): every line
//! is one application of the model's `step`, and a whole run is its fold
//! over the file, so the output is a function of the input lines alone.
use vstd::prelude::*;

verus! {

pub mod dates;
pub mod laws;
pub mod model;
pub mod scanner;
pub mod series;
pub mod text;
pub mod viewer;

} // verus!
