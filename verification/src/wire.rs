//! Wire parsing primitives: byte scanners, the stream framers built on them, and the tag
//! extractor.

use vstd::prelude::*;

pub mod ndjson;
pub mod scan;
pub mod sse;
pub mod tag;

pub use ndjson::NdjsonSplitter;
pub use scan::{scan_for_byte, scan_for_pair};
pub use sse::SseFramer;
pub use tag::find_tag;

verus! {

} // verus!
