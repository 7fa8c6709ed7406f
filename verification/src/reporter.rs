//! When the console progress line is redrawn.

use vstd::prelude::*;

verus! {

/// Reports progress on the console, one line that is redrawn in place.
pub struct ConsoleProgressReporter;

impl ConsoleProgressReporter {
    /// Whether to redraw the line for a download at `percent` percent when it
    /// was last drawn at `last_printed` percent: where the whole percentage
    /// moved, and always at 100.
    pub fn should_refresh(&self, last_printed: u64, percent: u64) -> (b: bool)
        ensures
            b == (last_printed != percent || percent == 100),
    {
        last_printed != percent || percent == 100
    }
}

} // verus!
