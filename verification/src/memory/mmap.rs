use vstd::prelude::*;

verus! {

/// Kind of a physical memory region reported by firmware.
#[derive(Clone, Copy, Debug, PartialEq, Eq, Structural)]
pub enum RegionKind {
    Usable,
    Reserved,
}

/// One physical memory region: `size` bytes starting at `base`.
#[derive(Clone, Copy, Debug, PartialEq, Eq, Structural)]
pub struct MemRegion {
    pub base: u64,
    pub size: u64,
    pub kind: RegionKind,
}

/// The physical memory map handed to the frame allocator, in the order the
/// firmware reported its regions.
pub struct MemoryMap {
    pub regions: Vec<MemRegion>,
}

impl View for MemoryMap {
    type V = Seq<MemRegion>;

    open spec fn view(&self) -> Seq<MemRegion> {
        self.regions@
    }
}

pub open spec fn region(base: u64, size: u64, kind: RegionKind) -> MemRegion {
    MemRegion { base, size, kind }
}

impl MemoryMap {
    pub fn empty() -> (map: MemoryMap)
        ensures
            map@ == Seq::<MemRegion>::empty(),
    {
        MemoryMap { regions: Vec::new() }
    }

    /// Append a region.
    pub fn add(&mut self, base: u64, size: u64, kind: RegionKind)
        ensures
            final(self)@ == old(self)@.push(region(base, size, kind)),
    {
        self.regions.push(MemRegion { base, size, kind });
    }

    /// Number of regions recorded so far.
    pub fn count(&self) -> (n: usize)
        ensures
            n == self@.len(),
    {
        self.regions.len()
    }
}

} // verus!
