use std::path::PathBuf;
use vstd::prelude::*;

verus! {

/// One byte range of the file, fetched by one connection.
///
/// The range is inclusive at both ends, as in an HTTP `Range` header.
#[derive(Debug, Clone)]
pub struct DownloadTask {
    pub url: String,
    pub output_path: PathBuf,
    pub start_byte: u64,
    pub end_byte: u64,
    pub thread_id: usize,
}

impl DownloadTask {
    pub fn new(url: String, output_path: PathBuf, start: u64, end: u64, thread_id: usize) -> (t: Self)
        ensures
            t.url == url,
            t.output_path == output_path,
            t.start_byte == start,
            t.end_byte == end,
            t.thread_id == thread_id,
    {
        DownloadTask { url, output_path, start_byte: start, end_byte: end, thread_id }
    }

    /// The first and the last byte of the range.
    pub fn range(&self) -> (r: (u64, u64))
        ensures
            r == (self.start_byte, self.end_byte),
    {
        (self.start_byte, self.end_byte)
    }

    /// The number of bytes in the range.
    pub fn size(&self) -> (n: u64)
        requires
            self.start_byte <= self.end_byte,
            self.end_byte - self.start_byte < u64::MAX,
        ensures
            n == self.end_byte - self.start_byte + 1,
    {
        self.end_byte - self.start_byte + 1
    }
}

} // verus!
