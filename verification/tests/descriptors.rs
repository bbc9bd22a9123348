use kernel_core::interrupt::{
    InterruptDescriptor, InterruptVector, interrupt_vector_number, make_id_attr, set_idt_entry,
};
use kernel_core::memory_map::{EfiMemoryType, efi_memory_type_from_u32, is_available};
use kernel_core::paging::{
    PAGE_DIRECTORY_COUNT, PAGE_TABLE_ENTRY_COUNT, make_page_directory, make_pdp_table,
    make_pml4_table,
};
use kernel_core::segment::{build_gdt, make_code_segment, make_data_segment};
use kernel_core::x86_descriptor::{
    DescriptorType, SegmentDescriptorType, descriptor_type_value, segment_descriptor_type_value,
};

#[test]
fn descriptor_type_codes() {
    assert_eq!(descriptor_type_value(DescriptorType::InterruptGate), 14);
    assert_eq!(descriptor_type_value(DescriptorType::TrapGate), 15);
    assert_eq!(descriptor_type_value(DescriptorType::Upper8Bytes), 0);
    assert_eq!(segment_descriptor_type_value(SegmentDescriptorType::ReadWrite), 2);
    assert_eq!(segment_descriptor_type_value(SegmentDescriptorType::ExecuteRead), 10);
}

#[test]
fn interrupt_gate_attribute_word() {
    // Present interrupt gate, privilege level 0, primary stack.
    assert_eq!(make_id_attr(DescriptorType::InterruptGate, 0), 0x8e00);
    assert_eq!(make_id_attr(DescriptorType::TrapGate, 3), 0xef00);
}

#[test]
fn idt_entry_splits_handler_offset() {
    let mut desc = InterruptDescriptor::empty();
    assert_eq!(desc.offset_low, 0);
    assert_eq!(desc.attr, 0);
    let attr = make_id_attr(DescriptorType::InterruptGate, 0);
    set_idt_entry(&mut desc, attr, 0x1234_5678_9abc_def0, 1 << 3);
    assert_eq!(desc.offset_low, 0xdef0);
    assert_eq!(desc.offset_middle, 0x9abc);
    assert_eq!(desc.offset_high, 0x1234_5678);
    assert_eq!(desc.segment_selector, 1 << 3);
    assert_eq!(desc.attr, 0x8e00);
    assert_eq!(desc.reserved, 0);
}

#[test]
fn xhci_vector_number() {
    assert_eq!(interrupt_vector_number(InterruptVector::Xhci), 0x40);
}

#[test]
fn kernel_segment_descriptors() {
    let code = make_code_segment(SegmentDescriptorType::ExecuteRead, 0, 0, 0x000fffff);
    assert_eq!(code, 0x00af_9a00_0000_ffff);
    let data = make_data_segment(SegmentDescriptorType::ReadWrite, 0, 0, 0x000fffff);
    assert_eq!(data, 0x00cf_9200_0000_ffff);
}

#[test]
fn gdt_holds_null_code_and_data() {
    let gdt = build_gdt();
    assert_eq!(gdt.len(), 3);
    assert_eq!(gdt[0], 0);
    assert_eq!(gdt[1], 0x00af_9a00_0000_ffff);
    assert_eq!(gdt[2], 0x00cf_9200_0000_ffff);
}

#[test]
fn segment_descriptor_carries_base_and_limit() {
    let code = make_code_segment(SegmentDescriptorType::ExecuteRead, 0, 0xaabb_ccdd, 0x000f_1234);
    assert_eq!(code & 0xffff, 0x1234);
    assert_eq!((code >> 16) & 0xffff, 0xccdd);
    assert_eq!((code >> 32) & 0xff, 0xbb);
    assert_eq!((code >> 48) & 0xf, 0xf);
    assert_eq!((code >> 56) & 0xff, 0xaa);
}

#[test]
fn page_directories_identity_map_with_2m_pages() {
    let pd0 = make_page_directory(0);
    assert_eq!(pd0.len(), PAGE_TABLE_ENTRY_COUNT);
    assert_eq!(pd0[0], 0x083);
    assert_eq!(pd0[1], 0x0020_0083);
    assert_eq!(pd0[511], 511 * 0x0020_0000 + 0x083);
    let pd3 = make_page_directory(3);
    assert_eq!(pd3[0], 3 * 0x4000_0000 + 0x083);
    assert_eq!(pd3[7], 3 * 0x4000_0000 + 7 * 0x0020_0000 + 0x083);
}

#[test]
fn pointer_tables_link_the_hierarchy() {
    let mut addrs = Vec::new();
    for i in 0..PAGE_DIRECTORY_COUNT {
        addrs.push((0x10_0000 + i * 0x1000) as u64);
    }
    let pdp = make_pdp_table(&addrs);
    assert_eq!(pdp.len(), PAGE_TABLE_ENTRY_COUNT);
    assert_eq!(pdp[0], 0x10_0000 | 0x003);
    assert_eq!(pdp[63], (0x10_0000 + 63 * 0x1000) as u64 | 0x003);
    assert_eq!(pdp[64], 0);
    assert_eq!(pdp[511], 0);

    let pml4 = make_pml4_table(0x20_0000);
    assert_eq!(pml4.len(), PAGE_TABLE_ENTRY_COUNT);
    assert_eq!(pml4[0], 0x20_0000 | 0x003);
    assert_eq!(pml4[1], 0);
    assert_eq!(pml4[511], 0);
}

#[test]
fn efi_memory_type_codes_decode() {
    assert_eq!(efi_memory_type_from_u32(0), Some(EfiMemoryType::ReservedMemoryType));
    assert_eq!(efi_memory_type_from_u32(7), Some(EfiMemoryType::ConventionalMemory));
    assert_eq!(efi_memory_type_from_u32(14), Some(EfiMemoryType::PersistentMemory));
    assert_eq!(efi_memory_type_from_u32(15), None);
    assert_eq!(efi_memory_type_from_u32(99), None);
}

#[test]
fn only_boot_services_and_conventional_memory_are_available() {
    assert!(is_available(EfiMemoryType::BootServicesCode));
    assert!(is_available(EfiMemoryType::BootServicesData));
    assert!(is_available(EfiMemoryType::ConventionalMemory));
    assert!(!is_available(EfiMemoryType::ReservedMemoryType));
    assert!(!is_available(EfiMemoryType::RuntimeServicesData));
    assert!(!is_available(EfiMemoryType::MemoryMappedIo));
}
