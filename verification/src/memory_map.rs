//! Firmware memory map handed over at boot.
//!
//! The map is a list of descriptors, each naming a typed region of physical
//! memory by start address and page count. Only three region types count as
//! available for allocation; everything else, and every undocumented gap, is
//! reserved conservatively during bootstrap.

use vstd::prelude::*;

verus! {

/// Bytes covered by one firmware-reported page.
pub const UEFI_PAGE_SIZE: usize = 4 * 1024;

/// One region of the firmware memory map.
#[derive(Clone, Copy, Debug, PartialEq, Eq, Structural)]
pub struct MemoryDescriptor {
    pub memory_type: u32,
    pub physical_start: usize,
    pub virtual_start: usize,
    pub number_of_pages: u64,
    pub attribute: u64,
}

/// The firmware memory map, owned by copy after boot.
pub struct MemoryMap {
    pub descriptors: Vec<MemoryDescriptor>,
}

impl MemoryMap {
    /// Wraps the descriptor list in map order.
    pub fn new(descriptors: Vec<MemoryDescriptor>) -> (m: MemoryMap)
        ensures
            m.descriptors@ == descriptors@,
    {
        MemoryMap { descriptors }
    }

    /// The descriptors in map order.
    pub fn iter(&self) -> (r: &Vec<MemoryDescriptor>)
        ensures
            r@ == self.descriptors@,
    {
        &self.descriptors
    }
}

/// Region type codes defined by the firmware interface.
#[derive(Clone, Copy, Debug, PartialEq, Eq, Structural)]
pub enum EfiMemoryType {
    ReservedMemoryType,
    LoaderCode,
    LoaderData,
    BootServicesCode,
    BootServicesData,
    RuntimeServicesCode,
    RuntimeServicesData,
    ConventionalMemory,
    UnusableMemory,
    AcpiReclaimMemory,
    AcpiMemoryNvs,
    MemoryMappedIo,
    MemoryMappedIoPortSpace,
    PalCode,
    PersistentMemory,
    MaxMemoryType,
}

/// The region type encoded by a raw type code, if the code is in range.
pub open spec fn efi_memory_type_of(value: u32) -> Option<EfiMemoryType> {
    if value == 0 {
        Some(EfiMemoryType::ReservedMemoryType)
    } else if value == 1 {
        Some(EfiMemoryType::LoaderCode)
    } else if value == 2 {
        Some(EfiMemoryType::LoaderData)
    } else if value == 3 {
        Some(EfiMemoryType::BootServicesCode)
    } else if value == 4 {
        Some(EfiMemoryType::BootServicesData)
    } else if value == 5 {
        Some(EfiMemoryType::RuntimeServicesCode)
    } else if value == 6 {
        Some(EfiMemoryType::RuntimeServicesData)
    } else if value == 7 {
        Some(EfiMemoryType::ConventionalMemory)
    } else if value == 8 {
        Some(EfiMemoryType::UnusableMemory)
    } else if value == 9 {
        Some(EfiMemoryType::AcpiReclaimMemory)
    } else if value == 10 {
        Some(EfiMemoryType::AcpiMemoryNvs)
    } else if value == 11 {
        Some(EfiMemoryType::MemoryMappedIo)
    } else if value == 12 {
        Some(EfiMemoryType::MemoryMappedIoPortSpace)
    } else if value == 13 {
        Some(EfiMemoryType::PalCode)
    } else if value == 14 {
        Some(EfiMemoryType::PersistentMemory)
    } else {
        None
    }
}

/// Decodes a raw firmware type code; codes at or past the sentinel count are
/// rejected.
pub fn efi_memory_type_from_u32(value: u32) -> (r: Option<EfiMemoryType>)
    ensures
        r == efi_memory_type_of(value),
{
    match value {
        0 => Some(EfiMemoryType::ReservedMemoryType),
        1 => Some(EfiMemoryType::LoaderCode),
        2 => Some(EfiMemoryType::LoaderData),
        3 => Some(EfiMemoryType::BootServicesCode),
        4 => Some(EfiMemoryType::BootServicesData),
        5 => Some(EfiMemoryType::RuntimeServicesCode),
        6 => Some(EfiMemoryType::RuntimeServicesData),
        7 => Some(EfiMemoryType::ConventionalMemory),
        8 => Some(EfiMemoryType::UnusableMemory),
        9 => Some(EfiMemoryType::AcpiReclaimMemory),
        10 => Some(EfiMemoryType::AcpiMemoryNvs),
        11 => Some(EfiMemoryType::MemoryMappedIo),
        12 => Some(EfiMemoryType::MemoryMappedIoPortSpace),
        13 => Some(EfiMemoryType::PalCode),
        14 => Some(EfiMemoryType::PersistentMemory),
        _ => None,
    }
}

/// Whether a region of this type may be handed to the allocator.
pub open spec fn is_available_spec(memory_type: EfiMemoryType) -> bool {
    ||| memory_type == EfiMemoryType::BootServicesCode
    ||| memory_type == EfiMemoryType::BootServicesData
    ||| memory_type == EfiMemoryType::ConventionalMemory
}

/// Whether a region of this type may be handed to the allocator: only memory
/// released by boot services and conventional memory qualify.
pub fn is_available(memory_type: EfiMemoryType) -> (r: bool)
    ensures
        r == is_available_spec(memory_type),
{
    memory_type == EfiMemoryType::BootServicesData || memory_type
        == EfiMemoryType::BootServicesCode || memory_type == EfiMemoryType::ConventionalMemory
}

/// Whether a raw type code names an available region type.
pub open spec fn code_is_available(value: u32) -> bool {
    match efi_memory_type_of(value) {
        Some(t) => is_available_spec(t),
        None => false,
    }
}

} // verus!
