use std::path::PathBuf;
use vstd::prelude::*;

verus! {

/// `std::path::PathBuf`, declared so that configurations and tasks can carry
/// a path. The library never looks inside one; it only passes it on.
#[verifier::external_type_specification]
#[verifier::external_body]
pub struct ExPathBuf(std::path::PathBuf);

/// `<PathBuf as Clone>::clone` of std. Claimed: the copy is the same path as
/// the original (std's `PathBuf` clone copies the underlying `OsString`).
pub assume_specification[ <std::path::PathBuf as Clone>::clone ](p: &std::path::PathBuf) -> (r: std::path::PathBuf)
    ensures
        r == *p,
;

/// Number of parallel connections when none is given.
pub const DEFAULT_THREAD_COUNT: usize = 4;

/// Size of the write buffer when none is given.
pub const DEFAULT_BUFFER_SIZE: usize = 8192;

/// How many times a failed range is retried when nothing else is said.
pub const DEFAULT_MAX_RETRIES: usize = 3;

/// What to download, where to, and how.
#[derive(Debug, Clone)]
pub struct Config {
    pub url: String,
    pub output_path: PathBuf,
    pub thread_count: usize,
    pub buffer_size: usize,
    pub resume: bool,
    pub max_retries: usize,
}

impl Config {
    /// A configuration for `url` written to `output_path`, with the default
    /// number of connections, buffer size and retries, and resuming on.
    pub fn new(url: String, output_path: PathBuf) -> (c: Self)
        ensures
            c.url == url,
            c.output_path == output_path,
            c.thread_count == DEFAULT_THREAD_COUNT,
            c.buffer_size == DEFAULT_BUFFER_SIZE,
            c.resume,
            c.max_retries == DEFAULT_MAX_RETRIES,
    {
        Config {
            url,
            output_path,
            thread_count: DEFAULT_THREAD_COUNT,
            buffer_size: DEFAULT_BUFFER_SIZE,
            resume: true,
            max_retries: DEFAULT_MAX_RETRIES,
        }
    }
}

} // verus!
