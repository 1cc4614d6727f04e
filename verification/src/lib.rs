//! Renders fenced `d2` diagram blocks of a book's chapters as PNG images.
//!
//! The library scans a chapter's markdown token stream for fenced code
//! blocks tagged `d2`, turns each into a render job, computes a stable
//! output filename and the relative link from the chapter to it, builds
//! the argument list for the external `d2` compiler, interprets the
//! outcome of running it, and stitches the resulting image events back
//! into the token stream in the original order — one rendered result per
//! region, in the region's place, however the parallel workers finish.

use vstd::prelude::*;

pub mod backend;
pub mod config;
pub mod extract;
pub mod naming;
pub mod path;
pub mod stitch;
pub mod text;

verus! {

/// How many compiler processes may run at once. The compiler is
/// CPU-heavy per invocation, so the pool is capped independently of the
/// job count.
pub const MAX_CONCURRENT_D2_PROCESSES: usize = 8;

/// The diagram preprocessor: a stateless marker. Its work is done by the
/// extractor, the naming resolver, the render backend and the stitcher.
#[derive(Default, Clone, Copy, Debug)]
pub struct D2;

impl D2 {
    /// The preprocessor's name, as the host framework addresses it.
    pub fn name(&self) -> (r: &'static str)
        ensures
            r@ == "d2-png"@,
    {
        "d2-png"
    }
}

/// The language tag that marks a fenced code block as a diagram.
pub fn diagram_lang() -> (r: &'static str)
    ensures
        r@ == "d2"@,
{
    "d2"
}

} // verus!
