//! Interrupt-table entries: packed gate descriptors and their attribute
//! word.
//!
//! The interrupt table itself is 256 such entries, default-empty, populated
//! individually on demand; loading it and acknowledging interrupts are CPU
//! operations the embedding program performs.

use vstd::prelude::*;

use crate::x86_descriptor::{DescriptorType, descriptor_type_value, descriptor_type_value_spec};

verus! {

/// Number of entries in the interrupt table.
pub const IDT_ENTRY_COUNT: usize = 256;

/// Interrupt vectors this kernel assigns.
#[derive(Clone, Copy, Debug, PartialEq, Eq, Structural)]
pub enum InterruptVector {
    Xhci,
}

/// The vector number behind each assigned vector.
pub open spec fn interrupt_vector_number_spec(v: InterruptVector) -> u8 {
    match v {
        InterruptVector::Xhci => 0x40u8,
    }
}

/// Encodes an interrupt vector as its vector number.
pub fn interrupt_vector_number(v: InterruptVector) -> (r: u8)
    ensures
        r == interrupt_vector_number_spec(v),
{
    match v {
        InterruptVector::Xhci => 0x40,
    }
}

/// Packed 16-byte gate descriptor: handler offset split over three fields,
/// code-segment selector, and the attribute word.
#[derive(Clone, Copy, Debug, PartialEq, Eq, Structural)]
pub struct InterruptDescriptor {
    pub offset_low: u16,
    pub segment_selector: u16,
    pub attr: u16,
    pub offset_middle: u16,
    pub offset_high: u32,
    pub reserved: u32,
}

impl InterruptDescriptor {
    /// The all-zero descriptor every table entry starts as.
    pub fn empty() -> (d: InterruptDescriptor)
        ensures
            d == (InterruptDescriptor {
                offset_low: 0,
                segment_selector: 0,
                attr: 0,
                offset_middle: 0,
                offset_high: 0,
                reserved: 0,
            }),
    {
        InterruptDescriptor {
            offset_low: 0,
            segment_selector: 0,
            attr: 0,
            offset_middle: 0,
            offset_high: 0,
            reserved: 0,
        }
    }
}

/// The attribute word of a gate descriptor: interrupt-stack-table index in
/// the low bits, gate type in bits 8 to 11, privilege level in bits 13 and
/// 14, and the present bit on top.
pub open spec fn id_attr_spec(
    ty: DescriptorType,
    descriptor_privilege_level: u16,
    present: bool,
    interrupt_stack_table: u16,
) -> u16 {
    (interrupt_stack_table & 0x0007u16) | ((descriptor_type_value_spec(ty) << 8u16) & 0x0f00u16)
        | ((descriptor_privilege_level << 13u16) & 0x6000u16) | (
    if present {
        0x8000u16
    } else {
        0u16
    })
}

/// Packs gate type, privilege level, present bit and stack-table index into
/// one attribute word.
fn make_id_attr_internal(
    ty: DescriptorType,
    descriptor_privilege_level: u16,
    present: bool,
    interrupt_stack_table: u16,
) -> (r: u16)
    ensures
        r == id_attr_spec(ty, descriptor_privilege_level, present, interrupt_stack_table),
{
    let mut attr: u16 = 0;
    attr = attr | (interrupt_stack_table & 0x0007);
    attr = attr | ((descriptor_type_value(ty) << 8) & 0x0f00);
    attr = attr | ((descriptor_privilege_level << 13) & 0x6000);
    if present {
        attr = attr | 0x8000;
    }
    proof {
        let ist = interrupt_stack_table & 0x0007u16;
        let tyv = (descriptor_type_value_spec(ty) << 8u16) & 0x0f00u16;
        let dpl = (descriptor_privilege_level << 13u16) & 0x6000u16;
        assert((((0u16 | ist) | tyv) | dpl) == (ist | tyv | dpl) && (ist | tyv | dpl) | 0u16 == (
        ist | tyv | dpl)) by (bit_vector);
    }
    attr
}

/// Packs gate type and privilege level into an attribute word for a
/// present gate using the primary stack.
pub fn make_id_attr(ty: DescriptorType, descriptor_privilege_level: u16) -> (r: u16)
    ensures
        r == id_attr_spec(ty, descriptor_privilege_level, true, 0),
{
    make_id_attr_internal(ty, descriptor_privilege_level, true, 0)
}

/// Fills one interrupt-table entry with a handler: the offset is split over
/// its three fields, the attribute and selector stored, and the reserved
/// field left alone.
pub fn set_idt_entry(
    desc: &mut InterruptDescriptor,
    attr: u16,
    offset: u64,
    segment_selector: u16,
)
    ensures
        final(desc).attr == attr,
        final(desc).offset_low == (offset & 0xffffu64) as u16,
        final(desc).offset_middle == ((offset >> 16u64) & 0xffffu64) as u16,
        final(desc).offset_high == ((offset >> 32u64) & 0xffff_ffffu64) as u32,
        final(desc).segment_selector == segment_selector,
        final(desc).reserved == old(desc).reserved,
{
    proof {
        assert(offset & 0xffffu64 < 0x10000u64) by (bit_vector);
        assert((offset >> 16u64) & 0xffffu64 < 0x10000u64) by (bit_vector);
        assert((offset >> 32u64) & 0xffff_ffffu64 < 0x1_0000_0000u64) by (bit_vector);
    }
    desc.attr = attr;
    desc.offset_low = (offset & 0x0000_0000_0000_ffff) as u16;
    desc.offset_middle = ((offset >> 16) & 0x0000_0000_0000_ffff) as u16;
    desc.offset_high = ((offset >> 32) & 0x0000_0000_ffff_ffff) as u32;
    desc.segment_selector = segment_selector;
}

/// What the processor pushes for the handler: return address, code segment,
/// flags, stack pointer and stack segment.
#[derive(Clone, Copy, Debug, PartialEq, Eq, Structural)]
pub struct ExceptionStackFrame {
    pub rip: u64,
    pub cs: u64,
    pub rflags: u64,
    pub rsp: u64,
    pub ss: u64,
}

} // verus!
