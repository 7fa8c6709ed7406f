//! A multi-connection HTTP downloader: the verified part.
//!
//! The library plans how a file of known size is split into byte ranges that
//! are fetched in parallel, reads the HTTP headers that decide the plan, keeps
//! the progress book of the running transfers, throttles to a speed limit,
//! decides when a failed range is retried, and checksums the finished file.
//! Network and disk I/O live in the program around it.

pub mod config;
pub mod task;
pub mod plan;
pub mod headers;
pub mod progress;
pub mod reporter;
pub mod checksum;
pub mod speed_limit;
pub mod retry;
pub mod transfer;

pub use config::Config;
pub use task::DownloadTask;
pub use checksum::{ChecksumError, ChecksumExtension};
pub use plan::{DownloadError, DownloadPlan};
pub use progress::{ChunkProgress, ProgressTracker};
pub use reporter::ConsoleProgressReporter;
pub use speed_limit::{SpeedDecision, SpeedLimitExtension};
