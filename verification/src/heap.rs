//! Kernel heap interface; no kernel heap is implemented yet.

use vstd::prelude::*;

verus! {

/// Heap usage statistics.
pub struct HeapStats {
    pub total: usize,
    pub used: usize,
}

/// Allocator interface a kernel heap would implement; allocations are
/// addressed by plain values.
pub trait Heap {
    fn allocate(&mut self, size: usize, align: usize) -> Option<usize>;

    fn deallocate(&mut self, addr: usize, size: usize, align: usize);

    fn stats(&self) -> HeapStats;
}

} // verus!
