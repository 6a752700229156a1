use vstd::prelude::*;

verus! {

/// The address space that an operation region opens onto.
#[derive(Debug, Clone, Copy, PartialEq, Eq, Structural)]
pub enum RegionSpace {
    SystemMemory,
    SystemIo,
    PciConfig,
    EmbeddedControl,
    SMBus,
    SystemCmos,
    PciBarTarget,
    IPMI,
    GeneralPurposeIo,
    GenericSerialBus,
    /// A space the platform vendor defines, numbered from 0x80 up to 0xff.
    OemDefined(u8),
}

/// The region space that a tag byte names, or `None` for a byte outside the enumeration.
pub open spec fn region_space_of(byte: u8) -> Option<RegionSpace> {
    if byte == 0x00 {
        Some(RegionSpace::SystemMemory)
    } else if byte == 0x01 {
        Some(RegionSpace::SystemIo)
    } else if byte == 0x02 {
        Some(RegionSpace::PciConfig)
    } else if byte == 0x03 {
        Some(RegionSpace::EmbeddedControl)
    } else if byte == 0x04 {
        Some(RegionSpace::SMBus)
    } else if byte == 0x05 {
        Some(RegionSpace::SystemCmos)
    } else if byte == 0x06 {
        Some(RegionSpace::PciBarTarget)
    } else if byte == 0x07 {
        Some(RegionSpace::IPMI)
    } else if byte == 0x08 {
        Some(RegionSpace::GeneralPurposeIo)
    } else if byte == 0x09 {
        Some(RegionSpace::GenericSerialBus)
    } else if byte >= 0x80 {
        Some(RegionSpace::OemDefined(byte))
    } else {
        None
    }
}

/// Decodes a region-space tag byte.
pub fn decode_region_space(byte: u8) -> (r: Option<RegionSpace>)
    ensures
        r == region_space_of(byte),
{
    match byte {
        0x00 => Some(RegionSpace::SystemMemory),
        0x01 => Some(RegionSpace::SystemIo),
        0x02 => Some(RegionSpace::PciConfig),
        0x03 => Some(RegionSpace::EmbeddedControl),
        0x04 => Some(RegionSpace::SMBus),
        0x05 => Some(RegionSpace::SystemCmos),
        0x06 => Some(RegionSpace::PciBarTarget),
        0x07 => Some(RegionSpace::IPMI),
        0x08 => Some(RegionSpace::GeneralPurposeIo),
        0x09 => Some(RegionSpace::GenericSerialBus),
        0x80..=0xff => Some(RegionSpace::OemDefined(byte)),
        _ => None,
    }
}

/// A value decoded from AML and stored in the namespace.
#[derive(Debug, Clone, Copy, PartialEq, Eq, Structural)]
pub enum AmlValue {
    /// An integer; narrower constants are widened to 64 bits.
    Integer(u64),
    /// An operation region: its space, and its byte offset and length in that space.
    OpRegion { region: RegionSpace, offset: u64, length: u64 },
}

impl AmlValue {
    /// The integer this value holds, if it is one.
    pub fn as_integer(&self) -> (r: Option<u64>)
        ensures
            r == (match *self {
                AmlValue::Integer(i) => Some(i),
                _ => None::<u64>,
            }),
    {
        match *self {
            AmlValue::Integer(i) => Some(i),
            _ => None,
        }
    }
}

} // verus!
