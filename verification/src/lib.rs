//! The core of a resumable, parallel-segmented file downloader: planning
//! disjoint byte ranges for concurrent workers, resolving fresh runs against
//! persisted resume state, aggregating the workers' outcomes, and
//! deterministically reassembling the downloaded parts, with each step's
//! behaviour stated in its contract.

pub mod config;
pub mod download;
pub mod error;
pub mod network;
pub mod output;
pub mod partial;
pub mod protocol;
pub mod ui;
pub mod util;

pub use config::Config;
pub use error::RgetError;
pub use network::Rget;
pub use output::OutputManager;
