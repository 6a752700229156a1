use std::cell::Cell;

use acpi::handler::{AcpiHandler, PhysicalMapping};

struct CountingHandler<'a> {
    unmapped: &'a Cell<usize>,
}

impl<'a> AcpiHandler for CountingHandler<'a> {
    fn map_physical_region<T>(&self, physical_address: usize, size: usize) -> PhysicalMapping<Self, T> {
        PhysicalMapping::new(
            physical_address,
            physical_address + 0x1000,
            size,
            size,
            CountingHandler { unmapped: self.unmapped },
        )
    }

    fn unmap_physical_region<T>(&self, _region: &PhysicalMapping<Self, T>) {
        self.unmapped.set(self.unmapped.get() + 1);
    }
}

#[test]
fn mapping_keeps_its_fields() {
    let count = Cell::new(0);
    let handler = CountingHandler { unmapped: &count };
    let m: PhysicalMapping<_, u32> = handler.map_physical_region(0x2000, 16);
    assert_eq!(m.physical_start, 0x2000);
    assert_eq!(m.virtual_start, 0x3000);
    assert_eq!(m.region_length, 16);
    assert_eq!(m.mapped_length, 16);
    let m: PhysicalMapping<_, u64> = m.coerce_type();
    assert_eq!(m.physical_start, 0x2000);
    assert_eq!(m.region_length, 16);
    assert_eq!(count.get(), 0);
    m.unmap();
    assert_eq!(count.get(), 1);
}
