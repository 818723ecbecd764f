//! What the viewer is asked for.

use crate::scan::{fits, scan_trace, FsNode, Shr, ShrRx};
use vstd::prelude::*;

verus! {

/// What the viewer is asked for.
#[derive(Debug)]
pub struct Args {
    /// The directory to scan.
    pub dir: String,
}

impl Args {
    /// Builds the `shr` instance: runs the scan on `root`, which is what the
    /// file system answered about the directory, with every level reported.
    pub fn build(self, root: &FsNode) -> (rx: ShrRx)
        requires
            fits(*root, true),
        ensures
            rx.pending() == scan_trace(self.dir@, *root, usize::MAX).events,
            rx.paths() == scan_trace(self.dir@, *root, usize::MAX).paths,
    {
        Shr::new(self.dir).with_max_depth(usize::MAX).run(root)
    }
}

} // verus!
