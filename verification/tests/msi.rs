use kernel_core::error::OsErrorCode;
use kernel_core::interrupt::{InterruptVector, interrupt_vector_number};
use kernel_core::pci::{
    BusScanner, MsiDeliveryMode, MsiTriggerMode, PciConfigSpace, configure_msi_fixed_destination,
    read_conf_reg, write_conf_reg,
};

/// Installs an xHC at (0, 5, 0) whose capability list is the given chain of
/// (offset, header-word) pairs rooted at the first offset.
fn xhc_with_capabilities(caps: &[(u8, u32)]) -> (PciConfigSpace, BusScanner) {
    let mut cfg = PciConfigSpace::new();
    write_conf_reg(&mut cfg, 0, 0, 0, 0x0c, 0);
    write_conf_reg(&mut cfg, 0, 5, 0, 0x00, 0x8086_8086);
    write_conf_reg(&mut cfg, 0, 5, 0, 0x0c, 0);
    write_conf_reg(&mut cfg, 0, 5, 0, 0x08, 0x0c03_3000);
    let root = if caps.is_empty() { 0 } else { caps[0].0 as u32 };
    write_conf_reg(&mut cfg, 0, 5, 0, 0x34, root);
    for &(offset, header) in caps {
        write_conf_reg(&mut cfg, 0, 5, 0, offset, header);
    }
    let mut scanner = BusScanner::new();
    assert!(scanner.scan_all_bus(&cfg).is_ok());
    assert_eq!(scanner.num_device(), 1);
    (cfg, scanner)
}

#[test]
fn msi_writes_address_and_data_for_level_trigger() {
    let (mut cfg, scanner) = xhc_with_capabilities(&[(0x50, 0x0005)]);
    let device = scanner.devices()[0];
    let vector = interrupt_vector_number(InterruptVector::Xhci) as u32;
    let apic_id = 0xab;
    configure_msi_fixed_destination(
        &mut cfg,
        &device,
        apic_id,
        MsiTriggerMode::Level,
        MsiDeliveryMode::Fixed,
        vector,
        0,
    )
    .unwrap();

    // Message address: the fixed window with the APIC id in bits 12..20.
    assert_eq!(read_conf_reg(&cfg, 0, 5, 0, 0x54), 0xfee0_0000 | (apic_id << 12));
    // Message data: vector in the low byte, level bits set.
    let data = read_conf_reg(&cfg, 0, 5, 0, 0x58);
    assert_eq!(data & 0xff, vector);
    assert_eq!(data & 0xc000, 0xc000);
    assert_eq!(data, 0xc040);
    // Header: the enable bit is set.
    assert_eq!(read_conf_reg(&cfg, 0, 5, 0, 0x50) & (1 << 16), 1 << 16);
}

#[test]
fn msi_edge_trigger_leaves_level_bits_clear() {
    let (mut cfg, scanner) = xhc_with_capabilities(&[(0x50, 0x0005)]);
    let device = scanner.devices()[0];
    configure_msi_fixed_destination(
        &mut cfg,
        &device,
        1,
        MsiTriggerMode::Edge,
        MsiDeliveryMode::Fixed,
        0x40,
        0,
    )
    .unwrap();
    let data = read_conf_reg(&cfg, 0, 5, 0, 0x58);
    assert_eq!(data, 0x40);
    assert_eq!(data & 0x8000, 0);
}

#[test]
fn msi_64_bit_layout_shifts_data_register() {
    // Bit 23 of the capability header marks 64-bit message addresses.
    let (mut cfg, scanner) = xhc_with_capabilities(&[(0x50, 0x0080_0005)]);
    let device = scanner.devices()[0];
    configure_msi_fixed_destination(
        &mut cfg,
        &device,
        2,
        MsiTriggerMode::Level,
        MsiDeliveryMode::Fixed,
        0x41,
        0,
    )
    .unwrap();
    assert_eq!(read_conf_reg(&cfg, 0, 5, 0, 0x54), 0xfee0_2000);
    // The upper address half is zeroed and the data lands one register up.
    assert_eq!(read_conf_reg(&cfg, 0, 5, 0, 0x58), 0);
    assert_eq!(read_conf_reg(&cfg, 0, 5, 0, 0x5c), 0xc041);
}

#[test]
fn msi_capability_found_behind_other_capability() {
    // A power-management capability at 0x40 links to the MSI one at 0x50.
    let (mut cfg, scanner) = xhc_with_capabilities(&[(0x40, 0x5001), (0x50, 0x0005)]);
    let device = scanner.devices()[0];
    configure_msi_fixed_destination(
        &mut cfg,
        &device,
        3,
        MsiTriggerMode::Level,
        MsiDeliveryMode::Fixed,
        0x42,
        0,
    )
    .unwrap();
    assert_eq!(read_conf_reg(&cfg, 0, 5, 0, 0x54), 0xfee0_3000);
    assert_eq!(read_conf_reg(&cfg, 0, 5, 0, 0x58), 0xc042);
    // The unrelated capability is untouched.
    assert_eq!(read_conf_reg(&cfg, 0, 5, 0, 0x40), 0x5001);
}

#[test]
fn msix_only_device_is_not_implemented() {
    let (mut cfg, scanner) = xhc_with_capabilities(&[(0x50, 0x0011)]);
    let device = scanner.devices()[0];
    let err = configure_msi_fixed_destination(
        &mut cfg,
        &device,
        0,
        MsiTriggerMode::Level,
        MsiDeliveryMode::Fixed,
        0x40,
        0,
    )
    .unwrap_err();
    assert_eq!(err.code, OsErrorCode::NotImplemented);
    // Nothing was written.
    assert_eq!(read_conf_reg(&cfg, 0, 5, 0, 0x54), 0xffff_ffff);
}

#[test]
fn device_without_capabilities_has_no_msi() {
    let (mut cfg, scanner) = xhc_with_capabilities(&[]);
    let device = scanner.devices()[0];
    let err = configure_msi_fixed_destination(
        &mut cfg,
        &device,
        0,
        MsiTriggerMode::Level,
        MsiDeliveryMode::Fixed,
        0x40,
        0,
    )
    .unwrap_err();
    assert_eq!(err.code, OsErrorCode::NoPciMsi);
}

#[test]
fn msi_multiple_message_count_is_capped_by_device() {
    // The device advertises 2^2 vectors (bits 17..20 = 2); requesting 5
    // enables only 2, requesting 1 enables 1.
    let (mut cfg, scanner) = xhc_with_capabilities(&[(0x50, 0x0004_0005)]);
    let device = scanner.devices()[0];
    configure_msi_fixed_destination(
        &mut cfg,
        &device,
        0,
        MsiTriggerMode::Edge,
        MsiDeliveryMode::Fixed,
        0x40,
        5,
    )
    .unwrap();
    let header = read_conf_reg(&cfg, 0, 5, 0, 0x50);
    assert_eq!((header >> 20) & 0x7, 2);
    assert_eq!(header & (1 << 16), 1 << 16);

    let (mut cfg, scanner) = xhc_with_capabilities(&[(0x50, 0x0004_0005)]);
    let device = scanner.devices()[0];
    configure_msi_fixed_destination(
        &mut cfg,
        &device,
        0,
        MsiTriggerMode::Edge,
        MsiDeliveryMode::Fixed,
        0x40,
        1,
    )
    .unwrap();
    assert_eq!((read_conf_reg(&cfg, 0, 5, 0, 0x50) >> 20) & 0x7, 1);
}
