//! Segment-table construction: packed 8-byte segment descriptors and the
//! fixed 3-entry table (null, kernel code, kernel data).
//!
//! Loading the table and reloading the segment registers — the code segment
//! through a far transfer — are CPU operations the embedding program
//! performs once, before interrupts are enabled.

use vstd::prelude::*;

use crate::x86_descriptor::{
    SegmentDescriptorType, segment_descriptor_type_value, segment_descriptor_type_value_spec,
};

verus! {

/// Packed 64-bit code-segment descriptor: base and limit split over their
/// fields, the type code, the descriptor (non-system) bit, the privilege
/// level, the present bit, and the long-mode and granularity flags.
pub open spec fn code_segment_spec(
    ty: SegmentDescriptorType,
    descriptor_privilege_level: u8,
    base: u32,
    limit: u32,
) -> u64 {
    ((limit as u64) & 0xffffu64) | (((base as u64) & 0xffffu64) << 16u64) | ((((base as u64)
        >> 16u64) & 0xffu64) << 32u64) | (((segment_descriptor_type_value_spec(ty) as u64)
        & 0xfu64) << 40u64) | (1u64 << 44u64) | ((((descriptor_privilege_level as u64) & 0x3u64))
        << 45u64) | (1u64 << 47u64) | ((((limit as u64) >> 16u64) & 0xfu64) << 48u64) | (1u64
        << 53u64) | (1u64 << 55u64) | ((((base as u64) >> 24u64) & 0xffu64) << 56u64)
}

/// Packed 64-bit data-segment descriptor: the code-segment layout with the
/// long-mode flag cleared and the default-operation-size flag set.
pub open spec fn data_segment_spec(
    ty: SegmentDescriptorType,
    descriptor_privilege_level: u8,
    base: u32,
    limit: u32,
) -> u64 {
    (code_segment_spec(ty, descriptor_privilege_level, base, limit) & !(0x3u64 << 53u64)) | (1u64
        << 54u64)
}

/// Packs a code-segment descriptor.
pub fn make_code_segment(
    ty: SegmentDescriptorType,
    descriptor_privilege_level: u8,
    base: u32,
    limit: u32,
) -> (d: u64)
    ensures
        d == code_segment_spec(ty, descriptor_privilege_level, base, limit),
{
    ((limit as u64) & 0xffff) | (((base as u64) & 0xffff) << 16) | ((((base as u64) >> 16) & 0xff)
        << 32) | (((segment_descriptor_type_value(ty) as u64) & 0xf) << 40) | (1u64 << 44) | ((((
    descriptor_privilege_level as u64) & 0x3)) << 45) | (1u64 << 47) | ((((limit as u64) >> 16)
        & 0xf) << 48) | (1u64 << 53) | (1u64 << 55) | ((((base as u64) >> 24) & 0xff) << 56)
}

/// Packs a data-segment descriptor.
pub fn make_data_segment(
    ty: SegmentDescriptorType,
    descriptor_privilege_level: u8,
    base: u32,
    limit: u32,
) -> (d: u64)
    ensures
        d == data_segment_spec(ty, descriptor_privilege_level, base, limit),
{
    let code = make_code_segment(ty, descriptor_privilege_level, base, limit);
    (code & !(0x3u64 << 53)) | (1u64 << 54)
}

/// Builds the fixed 3-entry segment table: the null descriptor, a 64-bit
/// kernel code segment and a kernel data segment, both with privilege
/// level 0 and full limit.
pub fn build_gdt() -> (g: Vec<u64>)
    ensures
        g@.len() == 3,
        g@[0] == 0u64,
        g@[1] == code_segment_spec(SegmentDescriptorType::ExecuteRead, 0, 0, 0xfffff),
        g@[2] == data_segment_spec(SegmentDescriptorType::ReadWrite, 0, 0, 0xfffff),
{
    let mut gdt: Vec<u64> = Vec::new();
    gdt.push(0);
    gdt.push(make_code_segment(SegmentDescriptorType::ExecuteRead, 0, 0, 0x000fffff));
    gdt.push(make_data_segment(SegmentDescriptorType::ReadWrite, 0, 0, 0x000fffff));
    gdt
}

} // verus!
