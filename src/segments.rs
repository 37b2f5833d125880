//! The segments that the bridge backs with files, and the numeric contract of
//! the mapping size.

use vstd::prelude::*;
use crate::text::same_chars;

verus! {

/// The segment whose size differs from the common one.
pub const CREW_CHIEF_SEGMENT: &'static str = "acpmf_crewchief";

/// Size in bytes of the crew chief segment.
pub const CREW_CHIEF_SIZE: usize = 15660;

/// Size in bytes of every other segment.
pub const DEFAULT_SEGMENT_SIZE: usize = 2048;

/// The size in bytes that the consumer expects of the segment `name`.
pub open spec fn segment_size(name: Seq<char>) -> usize {
    if name == CREW_CHIEF_SEGMENT@ {
        CREW_CHIEF_SIZE
    } else {
        DEFAULT_SEGMENT_SIZE
    }
}

/// The size in bytes of the segment with the given name.
pub fn file_size(name: &str) -> (r: usize)
    ensures
        r == segment_size(name@),
{
    if same_chars(name, CREW_CHIEF_SEGMENT) {
        CREW_CHIEF_SIZE
    } else {
        DEFAULT_SEGMENT_SIZE
    }
}

/// Splits a 64-bit size into the high and low 32-bit halves that the native
/// mapping call takes.
pub fn split_size(size: u64) -> (r: (u32, u32))
    ensures
        r.0 as int * 0x1_0000_0000 + r.1 as int == size as int,
{
    let high: u32 = ((size & 0xFFFF_FFFF_0000_0000u64) >> 32u64) as u32;
    let low: u32 = (size & 0xFFFF_FFFFu64) as u32;
    assert(((size & 0xFFFF_FFFF_0000_0000u64) >> 32u64) as u32 as u64 * 0x1_0000_0000u64
        + (size & 0xFFFF_FFFFu64) as u32 as u64 == size) by (bit_vector);
    (high, low)
}

} // verus!
