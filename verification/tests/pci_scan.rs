use kernel_core::error::OsErrorCode;
use kernel_core::pci::{
    BusScanner, PciConfigSpace, find_xhc_device, is_single_function_device, read_bar,
    read_class_code, read_conf_reg, read_device_id, read_header_type, read_vendor_id,
    read_vendor_id_from_device, write_conf_reg,
};

/// Installs one function: vendor/device ids, header type and class code.
fn add_function(
    cfg: &mut PciConfigSpace,
    bus: u8,
    device: u8,
    function: u8,
    vendor_id: u16,
    header_type: u8,
    class: (u8, u8, u8),
) {
    write_conf_reg(cfg, bus, device, function, 0x00, 0x1111_0000 | vendor_id as u32);
    write_conf_reg(cfg, bus, device, function, 0x0c, (header_type as u32) << 16);
    let class_dword =
        ((class.0 as u32) << 24) | ((class.1 as u32) << 16) | ((class.2 as u32) << 8);
    write_conf_reg(cfg, bus, device, function, 0x08, class_dword);
}

/// Makes a function a PCI-to-PCI bridge routing to `secondary_bus`.
fn make_bridge(cfg: &mut PciConfigSpace, bus: u8, device: u8, function: u8, secondary_bus: u8) {
    write_conf_reg(cfg, bus, device, function, 0x08, 0x0604_0000);
    write_conf_reg(cfg, bus, device, function, 0x18, (secondary_bus as u32) << 8);
}

#[test]
fn register_readers_decode_fields() {
    let mut cfg = PciConfigSpace::new();
    add_function(&mut cfg, 0, 3, 1, 0x8086, 0x80, (0x0c, 0x03, 0x30));
    assert_eq!(read_vendor_id(&cfg, 0, 3, 1), 0x8086);
    assert_eq!(read_device_id(&cfg, 0, 3, 1), 0x1111);
    assert_eq!(read_header_type(&cfg, 0, 3, 1), 0x80);
    let class = read_class_code(&cfg, 0, 3, 1);
    assert!(class.is_matched(0x0c, 0x03, 0x30));
    assert!(class.is_matched_base_and_sub(0x0c, 0x03));
    assert!(class.is_matched_base(0x0c));
    assert!(!class.is_matched(0x0c, 0x03, 0x20));
    assert!(!is_single_function_device(0x80));
    assert!(is_single_function_device(0x00));
}

#[test]
fn absent_function_reads_all_ones() {
    let cfg = PciConfigSpace::new();
    assert_eq!(read_vendor_id(&cfg, 4, 7, 2), 0xffff);
    assert_eq!(read_conf_reg(&cfg, 4, 7, 2, 0x08), 0xffff_ffff);
}

#[test]
fn scanning_absent_bus_yields_empty_table() {
    let cfg = PciConfigSpace::new();
    let mut scanner = BusScanner::new();
    assert!(scanner.scan_all_bus(&cfg).is_ok());
    assert_eq!(scanner.num_device(), 0);
    assert!(scanner.devices().is_empty());
}

#[test]
fn single_device_is_recorded() {
    let mut cfg = PciConfigSpace::new();
    add_function(&mut cfg, 0, 0, 0, 0x1234, 0x00, (0x02, 0x00, 0x00));
    add_function(&mut cfg, 0, 5, 0, 0x5678, 0x00, (0x01, 0x06, 0x01));
    let mut scanner = BusScanner::new();
    assert!(scanner.scan_all_bus(&cfg).is_ok());
    assert_eq!(scanner.num_device(), 2);
    let devices = scanner.devices();
    assert_eq!((devices[0].bus, devices[0].device, devices[0].function), (0, 0, 0));
    assert_eq!((devices[1].bus, devices[1].device, devices[1].function), (0, 5, 0));
    assert_eq!(read_vendor_id_from_device(&cfg, &devices[1]), 0x5678);
    assert!(devices[1].class_code.is_matched(0x01, 0x06, 0x01));
}

#[test]
fn multi_function_device_scans_extra_functions() {
    let mut cfg = PciConfigSpace::new();
    add_function(&mut cfg, 0, 0, 0, 0x1234, 0x00, (0x02, 0x00, 0x00));
    add_function(&mut cfg, 0, 2, 0, 0x2222, 0x80, (0x02, 0x00, 0x00));
    add_function(&mut cfg, 0, 2, 3, 0x2223, 0x00, (0x02, 0x80, 0x00));
    let mut scanner = BusScanner::new();
    assert!(scanner.scan_all_bus(&cfg).is_ok());
    assert_eq!(scanner.num_device(), 3);
    let devices = scanner.devices();
    assert_eq!((devices[1].device, devices[1].function), (2, 0));
    assert_eq!((devices[2].device, devices[2].function), (2, 3));
}

#[test]
fn bridge_triggers_scan_of_secondary_bus() {
    let mut cfg = PciConfigSpace::new();
    add_function(&mut cfg, 0, 0, 0, 0x1234, 0x00, (0x06, 0x04, 0x00));
    make_bridge(&mut cfg, 0, 0, 0, 5);
    add_function(&mut cfg, 5, 3, 0, 0x8086, 0x00, (0x0c, 0x03, 0x30));
    let mut scanner = BusScanner::new();
    assert!(scanner.scan_all_bus(&cfg).is_ok());
    assert_eq!(scanner.num_device(), 2);
    let devices = scanner.devices();
    assert!(devices[0].class_code.is_matched_base_and_sub(0x06, 0x04));
    assert_eq!((devices[1].bus, devices[1].device, devices[1].function), (5, 3, 0));
    assert!(devices[1].class_code.is_matched(0x0c, 0x03, 0x30));
}

#[test]
fn overfull_topology_fails_with_full_and_keeps_partial_table() {
    let mut cfg = PciConfigSpace::new();
    // A bridge into bus 1 holding two devices, then 31 more devices on bus
    // 0: 34 functions in all, two more than the table holds.
    add_function(&mut cfg, 0, 0, 0, 0x1234, 0x00, (0x06, 0x04, 0x00));
    make_bridge(&mut cfg, 0, 0, 0, 1);
    add_function(&mut cfg, 1, 0, 0, 0x4444, 0x00, (0x02, 0x00, 0x00));
    add_function(&mut cfg, 1, 1, 0, 0x4445, 0x00, (0x02, 0x00, 0x00));
    for slot in 1..32 {
        add_function(&mut cfg, 0, slot, 0, 0x3000 + slot as u16, 0x00, (0x02, 0x00, 0x00));
    }
    let mut scanner = BusScanner::new();
    let err = scanner.scan_all_bus(&cfg).unwrap_err();
    assert_eq!(err.code, OsErrorCode::Full);
    assert_eq!(scanner.num_device(), 32);
}

#[test]
fn multi_function_host_bridge_scans_each_root() {
    let mut cfg = PciConfigSpace::new();
    // Bus 0 device 0 is multi-function, so each of its eight functions is
    // a separate host-bridge root: function 0 roots bus 0 itself, and the
    // present function 2 roots bus 2.
    add_function(&mut cfg, 0, 0, 0, 0x1234, 0x80, (0x06, 0x00, 0x00));
    add_function(&mut cfg, 0, 0, 2, 0x1234, 0x00, (0x06, 0x00, 0x00));
    add_function(&mut cfg, 2, 7, 0, 0x9999, 0x00, (0x03, 0x00, 0x00));
    let mut scanner = BusScanner::new();
    assert!(scanner.scan_all_bus(&cfg).is_ok());
    let devices = scanner.devices();
    assert_eq!(scanner.num_device(), 3);
    assert_eq!((devices[0].bus, devices[0].device, devices[0].function), (0, 0, 0));
    assert_eq!((devices[1].bus, devices[1].device, devices[1].function), (0, 0, 2));
    assert_eq!((devices[2].bus, devices[2].device, devices[2].function), (2, 7, 0));
}

#[test]
fn xhc_selection_prefers_intel() {
    let mut cfg = PciConfigSpace::new();
    add_function(&mut cfg, 0, 0, 0, 0x1234, 0x00, (0x02, 0x00, 0x00));
    add_function(&mut cfg, 0, 1, 0, 0x1b36, 0x00, (0x0c, 0x03, 0x30));
    add_function(&mut cfg, 0, 2, 0, 0x8086, 0x00, (0x0c, 0x03, 0x30));
    add_function(&mut cfg, 0, 3, 0, 0x1b37, 0x00, (0x0c, 0x03, 0x30));
    let mut scanner = BusScanner::new();
    assert!(scanner.scan_all_bus(&cfg).is_ok());
    let index = find_xhc_device(&cfg, scanner.devices()).unwrap();
    assert_eq!(scanner.devices()[index].device, 2);
}

#[test]
fn xhc_selection_without_intel_takes_last() {
    let mut cfg = PciConfigSpace::new();
    write_conf_reg(&mut cfg, 0, 0, 0, 0x0c, 0);
    add_function(&mut cfg, 0, 1, 0, 0x1b36, 0x00, (0x0c, 0x03, 0x30));
    add_function(&mut cfg, 0, 3, 0, 0x1b37, 0x00, (0x0c, 0x03, 0x30));
    let mut scanner = BusScanner::new();
    assert!(scanner.scan_all_bus(&cfg).is_ok());
    let index = find_xhc_device(&cfg, scanner.devices()).unwrap();
    assert_eq!(scanner.devices()[index].device, 3);

    let empty = PciConfigSpace::new();
    let mut scanner = BusScanner::new();
    assert!(scanner.scan_all_bus(&empty).is_ok());
    assert!(find_xhc_device(&empty, scanner.devices()).is_none());
}

#[test]
fn ehci_handoff_copies_port_registers() {
    let mut cfg = PciConfigSpace::new();
    write_conf_reg(&mut cfg, 0, 0, 0, 0x0c, 0);
    add_function(&mut cfg, 0, 1, 0, 0x8086, 0x00, (0x0c, 0x03, 0x20));
    add_function(&mut cfg, 0, 2, 0, 0x8086, 0x00, (0x0c, 0x03, 0x30));
    let mut scanner = BusScanner::new();
    assert!(scanner.scan_all_bus(&cfg).is_ok());
    let xhc = scanner.devices()[1];
    write_conf_reg(&mut cfg, 0, 2, 0, 0xdc, 0x0f);
    write_conf_reg(&mut cfg, 0, 2, 0, 0xd4, 0x07);
    scanner.switch_ehci_to_xhci(&mut cfg, &xhc);
    assert_eq!(read_conf_reg(&cfg, 0, 2, 0, 0xd8), 0x0f);
    assert_eq!(read_conf_reg(&cfg, 0, 2, 0, 0xd0), 0x07);
}

#[test]
fn ehci_handoff_without_intel_ehci_writes_nothing() {
    let mut cfg = PciConfigSpace::new();
    write_conf_reg(&mut cfg, 0, 0, 0, 0x0c, 0);
    add_function(&mut cfg, 0, 2, 0, 0x8086, 0x00, (0x0c, 0x03, 0x30));
    let mut scanner = BusScanner::new();
    assert!(scanner.scan_all_bus(&cfg).is_ok());
    let xhc = scanner.devices()[0];
    write_conf_reg(&mut cfg, 0, 2, 0, 0xdc, 0x0f);
    scanner.switch_ehci_to_xhci(&mut cfg, &xhc);
    assert_eq!(read_conf_reg(&cfg, 0, 2, 0, 0xd8), 0xffff_ffff);
    assert_eq!(read_conf_reg(&cfg, 0, 2, 0, 0xd0), 0xffff_ffff);
}

#[test]
fn bar_reads_decode_widths_and_bounds() {
    let mut cfg = PciConfigSpace::new();
    write_conf_reg(&mut cfg, 0, 0, 0, 0x0c, 0);
    add_function(&mut cfg, 0, 4, 0, 0x8086, 0x00, (0x0c, 0x03, 0x30));
    let mut scanner = BusScanner::new();
    assert!(scanner.scan_all_bus(&cfg).is_ok());
    let device = scanner.devices()[0];

    // 32-bit register.
    write_conf_reg(&mut cfg, 0, 4, 0, 0x10, 0xfebf_0000);
    assert_eq!(read_bar(&cfg, &device, 0).unwrap(), 0xfebf_0000);

    // 64-bit pair: bit 2 of the low half marks the wide layout.
    write_conf_reg(&mut cfg, 0, 4, 0, 0x18, 0x8000_0004);
    write_conf_reg(&mut cfg, 0, 4, 0, 0x1c, 0x0000_00ab);
    assert_eq!(read_bar(&cfg, &device, 2).unwrap(), 0x0000_00ab_8000_0004);

    // Index out of range, and a wide read past the register file.
    assert_eq!(read_bar(&cfg, &device, 6).unwrap_err().code, OsErrorCode::IndexOutOfRange);
    write_conf_reg(&mut cfg, 0, 4, 0, 0x24, 0x0000_0004);
    assert_eq!(read_bar(&cfg, &device, 5).unwrap_err().code, OsErrorCode::IndexOutOfRange);
}
