use vstd::prelude::*;

verus! {

/// Whether a file of the given reported length may be hashed through a
/// read-only memory map: only a non-empty file whose length fits the
/// platform's addressable range qualifies. The map must then be fixed
/// to exactly this length, so a concurrent truncation or extension
/// cannot silently leak into or out of the hash; an empty or oversized
/// file takes the buffered fallback instead.
pub open spec fn use_memory_map_spec(size: u64) -> bool {
    0 < size <= isize::MAX as u64
}

pub fn use_memory_map(size: u64) -> (mapped: bool)
    ensures
        mapped == use_memory_map_spec(size),
{
    0 < size && size <= isize::MAX as u64
}

} // verus!
