use vstd::prelude::*;

use core::marker::PhantomData;

verus! {

/// A physical region mapped by an `AcpiHandler`, viewed as a `T`. The region mapped must be at
/// least the size of `T`, but may be bigger. The mapping owns its handler and hands itself back
/// to it through `unmap`.
pub struct PhysicalMapping<H: AcpiHandler, T> {
    pub physical_start: usize,
    /// The virtual address at which the region is mapped.
    pub virtual_start: usize,
    /// Equal to or larger than the size of `T`.
    pub region_length: usize,
    /// Differs from `region_length` where padding was added for alignment.
    pub mapped_length: usize,
    /// The handler that made the mapping and unmaps it.
    pub handler: H,
    /// The type the region is viewed as.
    pub target: PhantomData<T>,
}

impl<H: AcpiHandler, T> PhysicalMapping<H, T> {
    pub fn new(
        physical_start: usize,
        virtual_start: usize,
        region_length: usize,
        mapped_length: usize,
        handler: H,
    ) -> (r: PhysicalMapping<H, T>)
        ensures
            r.physical_start == physical_start,
            r.virtual_start == virtual_start,
            r.region_length == region_length,
            r.mapped_length == mapped_length,
            r.handler == handler,
    {
        PhysicalMapping {
            physical_start,
            virtual_start,
            region_length,
            mapped_length,
            handler,
            target: PhantomData,
        }
    }

    /// The handler that made the mapping.
    pub fn handler(&self) -> (r: &H)
        ensures
            *r == self.handler,
    {
        &self.handler
    }

    /// The same mapping viewed as an `N`; its address must be aligned for `N`.
    pub fn coerce_type<N>(self) -> (r: PhysicalMapping<H, N>)
        requires
            self.virtual_start as nat % vstd::layout::align_of::<N>() == 0,
        ensures
            r.physical_start == self.physical_start,
            r.virtual_start == self.virtual_start,
            r.region_length == self.region_length,
            r.mapped_length == self.mapped_length,
            r.handler == self.handler,
    {
        PhysicalMapping {
            physical_start: self.physical_start,
            virtual_start: self.virtual_start,
            region_length: self.region_length,
            mapped_length: self.mapped_length,
            handler: self.handler,
            target: PhantomData,
        }
    }

    /// Releases the mapping: its handler unmaps it, and the mapping is consumed so it cannot be
    /// used or released again.
    pub fn unmap(self) {
        self.handler.unmap_physical_region(&self);
    }
}

/// Platform services the library needs, chiefly mapping regions of physical memory. The
/// handler is stored in every `PhysicalMapping`, so it should be cheap to move about (a
/// reference, a wrapper over a shared pointer, a marker type).
pub trait AcpiHandler: Sized {
    /// Maps a region of physical memory that holds a `T`, starting at `physical_address` and at
    /// least `size` bytes long (which may exceed the size of `T`). The address need not be
    /// page-aligned, so more than `size` bytes may be mapped.
    fn map_physical_region<T>(&self, physical_address: usize, size: usize) -> PhysicalMapping<
        Self,
        T,
    >;

    /// Unmaps a region that `map_physical_region` mapped.
    fn unmap_physical_region<T>(&self, region: &PhysicalMapping<Self, T>);
}

} // verus!
