//! Descriptor type codes consumed by the segment and interrupt tables.

use vstd::prelude::*;

verus! {

/// System and gate descriptor types of the interrupt table.
#[derive(Clone, Copy, Debug, PartialEq, Eq, Structural)]
pub enum DescriptorType {
    Upper8Bytes,
    Ldt,
    TssAvailable,
    TssBusy,
    CallGate,
    InterruptGate,
    TrapGate,
}

/// The 4-bit type code the hardware assigns to each descriptor type.
pub open spec fn descriptor_type_value_spec(ty: DescriptorType) -> u16 {
    match ty {
        DescriptorType::Upper8Bytes => 0u16,
        DescriptorType::Ldt => 2u16,
        DescriptorType::TssAvailable => 9u16,
        DescriptorType::TssBusy => 11u16,
        DescriptorType::CallGate => 12u16,
        DescriptorType::InterruptGate => 14u16,
        DescriptorType::TrapGate => 15u16,
    }
}

/// Encodes a descriptor type as its hardware type code.
pub fn descriptor_type_value(ty: DescriptorType) -> (r: u16)
    ensures
        r == descriptor_type_value_spec(ty),
{
    match ty {
        DescriptorType::Upper8Bytes => 0,
        DescriptorType::Ldt => 2,
        DescriptorType::TssAvailable => 9,
        DescriptorType::TssBusy => 11,
        DescriptorType::CallGate => 12,
        DescriptorType::InterruptGate => 14,
        DescriptorType::TrapGate => 15,
    }
}

/// Code and data segment types of the segment table.
#[derive(Clone, Copy, Debug, PartialEq, Eq, Structural)]
pub enum SegmentDescriptorType {
    ReadWrite,
    ExecuteRead,
}

/// The 4-bit type code the hardware assigns to each segment type.
pub open spec fn segment_descriptor_type_value_spec(ty: SegmentDescriptorType) -> u8 {
    match ty {
        SegmentDescriptorType::ReadWrite => 2u8,
        SegmentDescriptorType::ExecuteRead => 10u8,
    }
}

/// Encodes a segment type as its hardware type code.
pub fn segment_descriptor_type_value(ty: SegmentDescriptorType) -> (r: u8)
    ensures
        r == segment_descriptor_type_value_spec(ty),
{
    match ty {
        SegmentDescriptorType::ReadWrite => 2,
        SegmentDescriptorType::ExecuteRead => 10,
    }
}

} // verus!
