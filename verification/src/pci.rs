//! PCI configuration-space access, bus enumeration, and message-signaled
//! interrupt configuration.
//!
//! All register access in the running kernel funnels through one 32-bit
//! address port and one 32-bit data port; that pair is an implicit shared
//! resource, so this module makes it explicit as an owned value,
//! [`PciConfigSpace`]: a table from configuration addresses to register
//! words, where an address nobody answers reads as all ones (the hardware's
//! "absent" answer). The embedding program performs the actual port I/O; the
//! enumeration and routing decisions over the read values live here and are
//! verified.

use vstd::prelude::*;

use crate::error::{OsError, OsErrorCode};

verus! {

/// Vendor-id value that marks an absent function.
pub const INVALID_VENDOR_ID: u16 = 0xffff;

/// Register word answered for an address no device backs.
pub const ABSENT_REGISTER: u32 = 0xffff_ffff;

/// First match of `addr` in the table, oldest entry first; all ones when no
/// entry matches.
pub open spec fn lookup(entries: Seq<(u32, u32)>, addr: u32) -> u32
    decreases entries.len(),
{
    if entries.len() == 0 {
        ABSENT_REGISTER
    } else if entries[0].0 == addr {
        entries[0].1
    } else {
        lookup(entries.drop_first(), addr)
    }
}

/// Updating the first entry holding `addr` changes that address and no
/// other.
proof fn lemma_lookup_update(s: Seq<(u32, u32)>, i: int, addr: u32, value: u32)
    requires
        0 <= i < s.len(),
        s[i].0 == addr,
        forall|j: int| 0 <= j < i ==> (#[trigger] s[j]).0 != addr,
    ensures
        forall|a: u32|
            lookup(s.update(i, (addr, value)), a) == if a == addr {
                value
            } else {
                lookup(s, a)
            },
    decreases i,
{
    let s2 = s.update(i, (addr, value));
    if i == 0 {
        assert(s2.drop_first() =~= s.drop_first());
        assert forall|a: u32|
            lookup(s2, a) == (if a == addr {
                value
            } else {
                lookup(s, a)
            }) by {
            assert(s2[0] == (addr, value));
            if a != addr {
                assert(lookup(s2, a) == lookup(s2.drop_first(), a));
                assert(lookup(s, a) == lookup(s.drop_first(), a));
            }
        }
    } else {
        assert(s2.drop_first() =~= s.drop_first().update(i - 1, (addr, value)));
        lemma_lookup_update(s.drop_first(), i - 1, addr, value);
        assert forall|a: u32|
            lookup(s2, a) == (if a == addr {
                value
            } else {
                lookup(s, a)
            }) by {
            assert(s2[0] == s[0]);
            assert(s[0].0 != addr);
            if s[0].0 != a {
                assert(lookup(s2, a) == lookup(s2.drop_first(), a));
                assert(lookup(s, a) == lookup(s.drop_first(), a));
            }
        }
    }
}

/// Appending an entry for an address the table does not hold changes that
/// address and no other.
proof fn lemma_lookup_push(s: Seq<(u32, u32)>, addr: u32, value: u32)
    requires
        forall|j: int| 0 <= j < s.len() ==> (#[trigger] s[j]).0 != addr,
    ensures
        forall|a: u32|
            lookup(s.push((addr, value)), a) == if a == addr {
                value
            } else {
                lookup(s, a)
            },
    decreases s.len(),
{
    let s2 = s.push((addr, value));
    if s.len() == 0 {
        assert(s2.drop_first() =~= Seq::<(u32, u32)>::empty());
        assert forall|a: u32|
            lookup(s2, a) == (if a == addr {
                value
            } else {
                lookup(s, a)
            }) by {
            assert(s2[0] == (addr, value));
            if a != addr {
                assert(lookup(s2, a) == lookup(s2.drop_first(), a));
            }
        }
    } else {
        assert(s2.drop_first() =~= s.drop_first().push((addr, value)));
        assert forall|j: int| 0 <= j < s.drop_first().len() implies (#[trigger] s.drop_first()[j]).0
            != addr by {
            assert(s.drop_first()[j] == s[j + 1]);
        }
        lemma_lookup_push(s.drop_first(), addr, value);
        assert forall|a: u32|
            lookup(s2, a) == (if a == addr {
                value
            } else {
                lookup(s, a)
            }) by {
            assert(s2[0] == s[0]);
            assert(s[0].0 != addr);
            if s[0].0 != a {
                assert(lookup(s2, a) == lookup(s2.drop_first(), a));
                assert(lookup(s, a) == lookup(s.drop_first(), a));
            }
        }
    }
}

/// The PCI configuration space as the address-port/data-port pair exposes
/// it: a mutable table from configuration addresses to register words.
/// Addresses no entry backs read as all ones.
pub struct PciConfigSpace {
    pub entries: Vec<(u32, u32)>,
}

impl PciConfigSpace {
    /// The register word visible at a configuration address.
    pub open spec fn read_spec(self, addr: u32) -> u32 {
        lookup(self.entries@, addr)
    }

    /// A configuration space with no device behind any address.
    pub fn new() -> (r: PciConfigSpace)
        ensures
            forall|a: u32| r.read_spec(a) == ABSENT_REGISTER,
    {
        PciConfigSpace { entries: Vec::new() }
    }

    /// Reads the register word at a configuration address.
    pub fn read_raw(&self, addr: u32) -> (r: u32)
        ensures
            r == self.read_spec(addr),
    {
        let ghost entries = self.entries@;
        proof {
            assert(entries.skip(0) =~= entries);
        }
        let mut i: usize = 0;
        while i < self.entries.len()
            invariant
                i <= entries.len(),
                entries == self.entries@,
                lookup(entries, addr) == lookup(entries.skip(i as int), addr),
            decreases entries.len() - i,
        {
            let (key, value) = self.entries[i];
            proof {
                assert(entries.skip(i as int)[0] == entries[i as int]);
                assert(entries.skip(i as int).drop_first() =~= entries.skip(i as int + 1));
            }
            if key == addr {
                return value;
            }
            i = i + 1;
        }
        proof {
            assert(entries.skip(entries.len() as int).len() == 0);
        }
        ABSENT_REGISTER
    }

    /// Writes the register word at a configuration address, leaving every
    /// other address unchanged.
    pub fn write_raw(&mut self, addr: u32, value: u32)
        ensures
            forall|a: u32|
                final(self).read_spec(a) == if a == addr {
                    value
                } else {
                    old(self).read_spec(a)
                },
    {
        let mut i: usize = 0;
        while i < self.entries.len()
            invariant
                i <= self.entries@.len(),
                self.entries@ == old(self).entries@,
                forall|j: int| 0 <= j < i ==> (#[trigger] self.entries@[j]).0 != addr,
            decreases self.entries@.len() - i,
        {
            let (key, _value) = self.entries[i];
            if key == addr {
                self.entries.set(i, (addr, value));
                proof {
                    lemma_lookup_update(old(self).entries@, i as int, addr, value);
                }
                return ;
            }
            i = i + 1;
        }
        self.entries.push((addr, value));
        proof {
            lemma_lookup_push(old(self).entries@, addr, value);
        }
    }
}

/// The word written to the address port to select one register: an enable
/// bit, the bus, device and function numbers, and the register offset with
/// its low two bits cleared.
pub open spec fn make_address_spec(bus: u8, device: u8, function: u8, reg_addr: u8) -> u32 {
    (1u32 << 31) | ((bus as u32) << 16) | ((device as u32) << 11) | ((function as u32) << 8) | (
    (reg_addr as u32) & 0xfcu32)
}

/// Packs a configuration address from bus, device, function and register
/// offset.
fn make_address(bus: u8, device: u8, function: u8, reg_addr: u8) -> (r: u32)
    ensures
        r == make_address_spec(bus, device, function, reg_addr),
{
    (1u32 << 31) | ((bus as u32) << 16) | ((device as u32) << 11) | ((function as u32) << 8) | (
    (reg_addr as u32) & 0xfcu32)
}

/// Vendor id of a function: the low half of its first register word.
pub open spec fn vendor_id_spec(cfg: PciConfigSpace, bus: u8, device: u8, function: u8) -> u16 {
    (cfg.read_spec(make_address_spec(bus, device, function, 0x00)) & 0xffffu32) as u16
}

/// Whether a function answers the vendor-id probe with the absent sentinel.
pub open spec fn vendor_absent(cfg: PciConfigSpace, bus: u8, device: u8, function: u8) -> bool {
    vendor_id_spec(cfg, bus, device, function) == INVALID_VENDOR_ID
}

/// Reads the vendor id of a function; `INVALID_VENDOR_ID` means the function
/// is absent.
pub fn read_vendor_id(cfg: &PciConfigSpace, bus: u8, device: u8, function: u8) -> (r: u16)
    ensures
        r == vendor_id_spec(*cfg, bus, device, function),
{
    let data = cfg.read_raw(make_address(bus, device, function, 0x00));
    proof {
        assert(data & 0xffffu32 < 0x10000u32) by (bit_vector);
    }
    (data & 0xffff) as u16
}

/// Device id of a function: the high half of its first register word.
pub open spec fn device_id_spec(cfg: PciConfigSpace, bus: u8, device: u8, function: u8) -> u16 {
    (cfg.read_spec(make_address_spec(bus, device, function, 0x00)) >> 16u32) as u16
}

/// Reads the device id of a function.
pub fn read_device_id(cfg: &PciConfigSpace, bus: u8, device: u8, function: u8) -> (r: u16)
    ensures
        r == device_id_spec(*cfg, bus, device, function),
{
    let data = cfg.read_raw(make_address(bus, device, function, 0x00));
    proof {
        assert(data >> 16u32 < 0x10000u32) by (bit_vector);
    }
    (data >> 16) as u16
}

/// Header type of a function: byte 2 of its fourth register word.
pub open spec fn header_type_spec(cfg: PciConfigSpace, bus: u8, device: u8, function: u8) -> u8 {
    ((cfg.read_spec(make_address_spec(bus, device, function, 0x0c)) >> 16u32) & 0xffu32) as u8
}

/// Reads the header type of a function.
pub fn read_header_type(cfg: &PciConfigSpace, bus: u8, device: u8, function: u8) -> (r: u8)
    ensures
        r == header_type_spec(*cfg, bus, device, function),
{
    let data = cfg.read_raw(make_address(bus, device, function, 0x0c));
    proof {
        assert((data >> 16u32) & 0xffu32 < 0x100u32) by (bit_vector);
    }
    ((data >> 16) & 0xff) as u8
}

/// Class code of a function (base, sub, interface), decoded from its third
/// register word.
pub open spec fn class_code_spec(cfg: PciConfigSpace, bus: u8, device: u8, function: u8)
    -> ClassCode {
    let data = cfg.read_spec(make_address_spec(bus, device, function, 0x08));
    ClassCode {
        base: ((data >> 24u32) & 0xffu32) as u8,
        sub: ((data >> 16u32) & 0xffu32) as u8,
        interface: ((data >> 8u32) & 0xffu32) as u8,
    }
}

/// Reads the class code of a function.
pub fn read_class_code(cfg: &PciConfigSpace, bus: u8, device: u8, function: u8) -> (r: ClassCode)
    ensures
        r == class_code_spec(*cfg, bus, device, function),
{
    let data = cfg.read_raw(make_address(bus, device, function, 0x08));
    proof {
        assert((data >> 24u32) & 0xffu32 < 0x100u32) by (bit_vector);
        assert((data >> 16u32) & 0xffu32 < 0x100u32) by (bit_vector);
        assert((data >> 8u32) & 0xffu32 < 0x100u32) by (bit_vector);
    }
    let base = ((data >> 24) & 0xff) as u8;
    let sub = ((data >> 16) & 0xff) as u8;
    let interface = ((data >> 8) & 0xff) as u8;
    ClassCode { base, sub, interface }
}

/// Bus-numbers register word of a bridge function.
pub open spec fn bus_numbers_spec(cfg: PciConfigSpace, bus: u8, device: u8, function: u8) -> u32 {
    cfg.read_spec(make_address_spec(bus, device, function, 0x18))
}

/// Reads the bus-numbers register of a bridge function; its second byte is
/// the secondary bus number.
pub fn read_bus_numbers(cfg: &PciConfigSpace, bus: u8, device: u8, function: u8) -> (r: u32)
    ensures
        r == bus_numbers_spec(*cfg, bus, device, function),
{
    cfg.read_raw(make_address(bus, device, function, 0x18))
}

/// Secondary bus number reported by a bridge function.
pub open spec fn secondary_bus_spec(cfg: PciConfigSpace, bus: u8, device: u8, function: u8) -> u8 {
    ((bus_numbers_spec(cfg, bus, device, function) >> 8u32) & 0xffu32) as u8
}

/// Reads an arbitrary register word of a function.
pub fn read_conf_reg(cfg: &PciConfigSpace, bus: u8, device: u8, function: u8, reg_addr: u8) -> (r:
    u32)
    ensures
        r == cfg.read_spec(make_address_spec(bus, device, function, reg_addr)),
{
    cfg.read_raw(make_address(bus, device, function, reg_addr))
}

/// Writes an arbitrary register word of a function, leaving every other
/// configuration address unchanged.
pub fn write_conf_reg(
    cfg: &mut PciConfigSpace,
    bus: u8,
    device: u8,
    function: u8,
    reg_addr: u8,
    value: u32,
)
    ensures
        forall|a: u32|
            final(cfg).read_spec(a) == if a == make_address_spec(bus, device, function, reg_addr) {
                value
            } else {
                old(cfg).read_spec(a)
            },
{
    cfg.write_raw(make_address(bus, device, function, reg_addr), value);
}

/// Whether a header type names a single-function device.
pub open spec fn single_function_spec(header_type: u8) -> bool {
    header_type & 0x80u8 == 0x00u8
}

/// Whether a device with this header type implements only function 0.
pub fn is_single_function_device(header_type: u8) -> (r: bool)
    ensures
        r == single_function_spec(header_type),
{
    header_type & 0x80 == 0x00
}

/// Class code of a PCI function: base class, sub class and interface byte.
#[derive(Clone, Copy, Debug, PartialEq, Eq, Structural)]
pub struct ClassCode {
    pub base: u8,
    pub sub: u8,
    pub interface: u8,
}

impl ClassCode {
    /// Whether base, sub and interface all match.
    pub fn is_matched(&self, base: u8, sub: u8, interface: u8) -> (r: bool)
        ensures
            r == (self.base == base && self.sub == sub && self.interface == interface),
    {
        self.is_matched_base_and_sub(base, sub) && self.interface == interface
    }

    /// Whether base and sub class match.
    pub fn is_matched_base_and_sub(&self, base: u8, sub: u8) -> (r: bool)
        ensures
            r == (self.base == base && self.sub == sub),
    {
        self.is_matched_base(base) && self.sub == sub
    }

    /// Whether the base class matches.
    pub fn is_matched_base(&self, base: u8) -> (r: bool)
        ensures
            r == (self.base == base),
    {
        self.base == base
    }
}

/// One discovered PCI function: its location, header type and class code.
#[derive(Clone, Copy, Debug, PartialEq, Eq, Structural)]
pub struct Device {
    pub bus: u8,
    pub device: u8,
    pub function: u8,
    pub header_type: u8,
    pub class_code: ClassCode,
}

/// Reads the vendor id at a discovered device's location.
pub fn read_vendor_id_from_device(cfg: &PciConfigSpace, device: &Device) -> (r: u16)
    ensures
        r == vendor_id_spec(*cfg, device.bus, device.device, device.function),
{
    read_vendor_id(cfg, device.bus, device.device, device.function)
}

/// Reads an arbitrary register word at a discovered device's location.
pub fn read_conf_reg_from_device(cfg: &PciConfigSpace, device: &Device, reg_addr: u8) -> (r: u32)
    ensures
        r == cfg.read_spec(device_address(*device, reg_addr)),
{
    read_conf_reg(cfg, device.bus, device.device, device.function, reg_addr)
}

/// Writes an arbitrary register word at a discovered device's location.
pub fn write_conf_reg_from_device(
    cfg: &mut PciConfigSpace,
    device: &Device,
    reg_addr: u8,
    value: u32,
)
    ensures
        forall|a: u32|
            final(cfg).read_spec(a) == if a == device_address(*device, reg_addr) {
                value
            } else {
                old(cfg).read_spec(a)
            },
{
    write_conf_reg(cfg, device.bus, device.device, device.function, reg_addr, value);
}

/// Configuration address of one register of a discovered device.
pub open spec fn device_address(d: Device, reg_addr: u8) -> u32 {
    make_address_spec(d.bus, d.device, d.function, reg_addr)
}

/// Register offset of one base-address register.
fn calc_bar_address(bar_index: usize) -> (r: u8)
    requires
        bar_index < 6,
    ensures
        r == 0x10 + 4 * bar_index,
{
    0x10 + 4 * (bar_index as u8)
}

/// The base-address register value `read_bar` assembles, if the index is
/// valid: a 32-bit value as read, or a 64-bit value joined from the
/// register pair.
pub open spec fn bar_spec(cfg: PciConfigSpace, d: Device, bar_index: int) -> Option<u64> {
    if bar_index >= 6 {
        None
    } else {
        let lower = cfg.read_spec(device_address(d, (0x10 + 4 * bar_index) as u8)) as u64;
        if lower & 0x4u64 == 0u64 {
            Some(lower)
        } else if bar_index >= 5 {
            None
        } else {
            let upper = cfg.read_spec(device_address(d, (0x14 + 4 * bar_index) as u8)) as u64;
            Some(lower | (upper << 32u64))
        }
    }
}

/// Reads one base-address register of a device: 32-bit values come from one
/// register, 64-bit values join the adjacent pair; an index past the
/// register file fails with `IndexOutOfRange`.
pub fn read_bar(cfg: &PciConfigSpace, device: &Device, bar_index: usize) -> (r: Result<
    u64,
    OsError,
>)
    ensures
        match r {
            Ok(bar) => bar_spec(*cfg, *device, bar_index as int) == Some(bar),
            Err(e) => bar_spec(*cfg, *device, bar_index as int) is None && e.code
                == OsErrorCode::IndexOutOfRange,
        },
{
    if bar_index >= 6 {
        return Err(OsError::new(OsErrorCode::IndexOutOfRange));
    }
    let addr = calc_bar_address(bar_index);
    let bar_lower = read_conf_reg(cfg, device.bus, device.device, device.function, addr) as u64;

    // 32-bit address
    if (bar_lower & 0x4) == 0x0 {
        return Ok(bar_lower);
    }
    // 64-bit address
    if bar_index >= 5 {
        return Err(OsError::new(OsErrorCode::IndexOutOfRange));
    }
    let bar_upper = read_conf_reg(cfg, device.bus, device.device, device.function, addr + 4) as u64;
    Ok(bar_lower | (bar_upper << 32))
}

/// Capacity of the device table.
pub const MAX_DEVICES: usize = 32;

/// State of a depth-first scan: the devices recorded so far, and whether the
/// scan is still running (`ok` turns false when the table fills up, and the
/// scan then aborts, retaining partial results).
pub struct ScanState {
    pub devs: Seq<Device>,
    pub ok: bool,
}

/// Room left in the device table; the quantity every scan step consumes
/// before it may recurse into a bridge, so it bounds the recursion.
pub open spec fn table_room(st: ScanState) -> int {
    if st.devs.len() <= MAX_DEVICES {
        MAX_DEVICES - st.devs.len()
    } else {
        0
    }
}

/// Of two scan states, the one with the larger table. A scan step never
/// removes recorded devices (`lemma_scan_function_extends` and its
/// companions); chaining steps through this selection makes that visible to
/// the termination checker, which needs the table never to shrink along a
/// chain.
pub open spec fn scan_step(prev: ScanState, next: ScanState) -> ScanState {
    if next.devs.len() >= prev.devs.len() {
        next
    } else {
        prev
    }
}

/// The record the scan stores for one function.
pub open spec fn device_record(cfg: PciConfigSpace, bus: u8, device: u8, function: u8) -> Device {
    Device {
        bus,
        device,
        function,
        header_type: header_type_spec(cfg, bus, device, function),
        class_code: class_code_spec(cfg, bus, device, function),
    }
}

/// Whether a class code names a PCI-to-PCI bridge.
pub open spec fn is_bridge(c: ClassCode) -> bool {
    c.base == 0x06u8 && c.sub == 0x04u8
}

/// Effect of scanning one function: record it, and when its class code
/// names a bridge, continue with a scan of the bridge's reported secondary
/// bus. Recording fails when the table is full, which aborts the scan.
pub open spec fn scan_function_spec(
    cfg: PciConfigSpace,
    st: ScanState,
    bus: u8,
    device: u8,
    function: u8,
) -> ScanState
    decreases table_room(st), 1int, 0int,
{
    if !st.ok {
        st
    } else if st.devs.len() >= MAX_DEVICES {
        ScanState { devs: st.devs, ok: false }
    } else {
        let dev = device_record(cfg, bus, device, function);
        let st2 = ScanState { devs: st.devs.push(dev), ok: true };
        if is_bridge(dev.class_code) {
            scan_bus_spec(cfg, st2, secondary_bus_spec(cfg, bus, device, function))
        } else {
            st2
        }
    }
}

/// Effect of probing functions `function .. 8` of one device: absent
/// functions are skipped, present ones scanned.
pub open spec fn scan_device_functions_spec(
    cfg: PciConfigSpace,
    st: ScanState,
    bus: u8,
    device: u8,
    function: u8,
) -> ScanState
    decreases table_room(st), 3int, 8 - function,
{
    if function >= 8 {
        st
    } else {
        let st2 = if vendor_absent(cfg, bus, device, function) {
            st
        } else {
            scan_function_spec(cfg, st, bus, device, function)
        };
        scan_device_functions_spec(cfg, scan_step(st, st2), bus, device, (function + 1) as u8)
    }
}

/// Effect of scanning one device: function 0 always, functions 1 to 7 only
/// when the header type says the device is multi-function.
pub open spec fn scan_device_spec(
    cfg: PciConfigSpace,
    st: ScanState,
    bus: u8,
    device: u8,
) -> ScanState
    decreases table_room(st), 4int, 0int,
{
    let st1 = scan_step(st, scan_function_spec(cfg, st, bus, device, 0));
    if !st1.ok {
        st1
    } else if single_function_spec(header_type_spec(cfg, bus, device, 0)) {
        st1
    } else {
        scan_device_functions_spec(cfg, st1, bus, device, 1)
    }
}

/// Effect of probing device slots `device .. 32` of one bus: slots whose
/// function 0 answers the vendor probe with the absent sentinel are skipped.
pub open spec fn scan_bus_devices_spec(
    cfg: PciConfigSpace,
    st: ScanState,
    bus: u8,
    device: u8,
) -> ScanState
    decreases table_room(st), 5int, 32 - device,
{
    if device >= 32 {
        st
    } else {
        let st2 = if vendor_absent(cfg, bus, device, 0) {
            st
        } else {
            scan_device_spec(cfg, st, bus, device)
        };
        scan_bus_devices_spec(cfg, scan_step(st, st2), bus, (device + 1) as u8)
    }
}

/// Effect of scanning one whole bus: its 32 device slots in order.
pub open spec fn scan_bus_spec(cfg: PciConfigSpace, st: ScanState, bus: u8) -> ScanState
    decreases table_room(st), 6int, 0int,
{
    scan_bus_devices_spec(cfg, st, bus, 0)
}

/// Effect of treating host-bridge functions `function .. 8` as separate
/// roots, scanning the bus numbered like each present function.
pub open spec fn scan_all_roots_spec(cfg: PciConfigSpace, st: ScanState, function: u8) -> ScanState
    decreases table_room(st), 7int, 8 - function,
{
    if function >= 8 {
        st
    } else {
        let st2 = if vendor_absent(cfg, 0, 0, function) {
            st
        } else {
            scan_bus_spec(cfg, st, function)
        };
        scan_all_roots_spec(cfg, scan_step(st, st2), (function + 1) as u8)
    }
}

/// Effect of the whole discovery: when bus 0 device 0 is single-function,
/// scan bus 0 directly; otherwise treat each of its eight possible
/// functions as a separate host-bridge root.
pub open spec fn scan_all_bus_spec(cfg: PciConfigSpace) -> ScanState {
    let st0 = ScanState { devs: Seq::empty(), ok: true };
    if single_function_spec(header_type_spec(cfg, 0, 0, 0)) {
        scan_bus_spec(cfg, st0, 0)
    } else {
        scan_all_roots_spec(cfg, st0, 0)
    }
}

/// Scanning one function only appends records.
pub proof fn lemma_scan_function_extends(
    cfg: PciConfigSpace,
    st: ScanState,
    bus: u8,
    device: u8,
    function: u8,
)
    ensures
        ({
            let r = scan_function_spec(cfg, st, bus, device, function);
            r.devs.len() >= st.devs.len() && r.devs.take(st.devs.len() as int) == st.devs
        }),
    decreases table_room(st), 1int, 0int,
{
    let r = scan_function_spec(cfg, st, bus, device, function);
    if !st.ok || st.devs.len() >= MAX_DEVICES {
        assert(r.devs.take(st.devs.len() as int) =~= st.devs);
    } else {
        let dev = device_record(cfg, bus, device, function);
        let st2 = ScanState { devs: st.devs.push(dev), ok: true };
        if is_bridge(dev.class_code) {
            lemma_scan_bus_extends(cfg, st2, secondary_bus_spec(cfg, bus, device, function));
            assert(r.devs.take(st2.devs.len() as int) == st2.devs);
            assert forall|k: int| 0 <= k < st.devs.len() implies r.devs[k] == st.devs[k] by {
                assert(r.devs.take(st2.devs.len() as int)[k] == st2.devs[k]);
            }
            assert(r.devs.take(st.devs.len() as int) =~= st.devs);
        } else {
            assert(r.devs.take(st.devs.len() as int) =~= st.devs);
        }
    }
}

/// Probing the remaining functions of a device only appends records.
pub proof fn lemma_scan_device_functions_extends(
    cfg: PciConfigSpace,
    st: ScanState,
    bus: u8,
    device: u8,
    function: u8,
)
    ensures
        ({
            let r = scan_device_functions_spec(cfg, st, bus, device, function);
            r.devs.len() >= st.devs.len() && r.devs.take(st.devs.len() as int) == st.devs
        }),
    decreases table_room(st), 3int, 8 - function,
{
    let r = scan_device_functions_spec(cfg, st, bus, device, function);
    if function >= 8 {
        assert(r.devs.take(st.devs.len() as int) =~= st.devs);
    } else {
        let st2 = if vendor_absent(cfg, bus, device, function) {
            st
        } else {
            scan_function_spec(cfg, st, bus, device, function)
        };
        if !vendor_absent(cfg, bus, device, function) {
            lemma_scan_function_extends(cfg, st, bus, device, function);
        }
        let st3 = scan_step(st, st2);
        lemma_scan_device_functions_extends(cfg, st3, bus, device, (function + 1) as u8);
        assert forall|k: int| 0 <= k < st.devs.len() implies r.devs[k] == st.devs[k] by {
            assert(r.devs.take(st3.devs.len() as int)[k] == st3.devs[k]);
            assert(st3.devs.take(st.devs.len() as int)[k] == st.devs[k]);
        }
        assert(r.devs.take(st.devs.len() as int) =~= st.devs);
    }
}

/// Scanning one device only appends records.
pub proof fn lemma_scan_device_extends(cfg: PciConfigSpace, st: ScanState, bus: u8, device: u8)
    ensures
        ({
            let r = scan_device_spec(cfg, st, bus, device);
            r.devs.len() >= st.devs.len() && r.devs.take(st.devs.len() as int) == st.devs
        }),
    decreases table_room(st), 4int, 0int,
{
    let r = scan_device_spec(cfg, st, bus, device);
    lemma_scan_function_extends(cfg, st, bus, device, 0);
    let st1 = scan_step(st, scan_function_spec(cfg, st, bus, device, 0));
    if !st1.ok || single_function_spec(header_type_spec(cfg, bus, device, 0)) {
        assert(r.devs.take(st.devs.len() as int) =~= st.devs);
    } else {
        lemma_scan_device_functions_extends(cfg, st1, bus, device, 1);
        assert forall|k: int| 0 <= k < st.devs.len() implies r.devs[k] == st.devs[k] by {
            assert(r.devs.take(st1.devs.len() as int)[k] == st1.devs[k]);
            assert(st1.devs.take(st.devs.len() as int)[k] == st.devs[k]);
        }
        assert(r.devs.take(st.devs.len() as int) =~= st.devs);
    }
}

/// Probing the remaining device slots of a bus only appends records.
pub proof fn lemma_scan_bus_devices_extends(
    cfg: PciConfigSpace,
    st: ScanState,
    bus: u8,
    device: u8,
)
    ensures
        ({
            let r = scan_bus_devices_spec(cfg, st, bus, device);
            r.devs.len() >= st.devs.len() && r.devs.take(st.devs.len() as int) == st.devs
        }),
    decreases table_room(st), 5int, 32 - device,
{
    let r = scan_bus_devices_spec(cfg, st, bus, device);
    if device >= 32 {
        assert(r.devs.take(st.devs.len() as int) =~= st.devs);
    } else {
        let st2 = if vendor_absent(cfg, bus, device, 0) {
            st
        } else {
            scan_device_spec(cfg, st, bus, device)
        };
        if !vendor_absent(cfg, bus, device, 0) {
            lemma_scan_device_extends(cfg, st, bus, device);
        }
        let st3 = scan_step(st, st2);
        lemma_scan_bus_devices_extends(cfg, st3, bus, (device + 1) as u8);
        assert forall|k: int| 0 <= k < st.devs.len() implies r.devs[k] == st.devs[k] by {
            assert(r.devs.take(st3.devs.len() as int)[k] == st3.devs[k]);
            assert(st3.devs.take(st.devs.len() as int)[k] == st.devs[k]);
        }
        assert(r.devs.take(st.devs.len() as int) =~= st.devs);
    }
}

/// Scanning one bus only appends records.
pub proof fn lemma_scan_bus_extends(cfg: PciConfigSpace, st: ScanState, bus: u8)
    ensures
        ({
            let r = scan_bus_spec(cfg, st, bus);
            r.devs.len() >= st.devs.len() && r.devs.take(st.devs.len() as int) == st.devs
        }),
    decreases table_room(st), 6int, 0int,
{
    lemma_scan_bus_devices_extends(cfg, st, bus, 0);
}

/// An aborted scan state passes through the remaining device slots of a bus
/// unchanged.
pub proof fn lemma_scan_bus_devices_noop(cfg: PciConfigSpace, st: ScanState, bus: u8, device: u8)
    requires
        !st.ok,
    ensures
        scan_bus_devices_spec(cfg, st, bus, device) == st,
    decreases 32 - device,
{
    if device < 32 {
        assert(scan_function_spec(cfg, st, bus, device, 0) == st);
        assert(scan_device_spec(cfg, st, bus, device) == st);
        lemma_scan_bus_devices_noop(cfg, st, bus, (device + 1) as u8);
    }
}

/// An aborted scan state passes through the remaining functions of a device
/// unchanged.
pub proof fn lemma_scan_device_functions_noop(
    cfg: PciConfigSpace,
    st: ScanState,
    bus: u8,
    device: u8,
    function: u8,
)
    requires
        !st.ok,
    ensures
        scan_device_functions_spec(cfg, st, bus, device, function) == st,
    decreases 8 - function,
{
    if function < 8 {
        assert(scan_function_spec(cfg, st, bus, device, function) == st);
        lemma_scan_device_functions_noop(cfg, st, bus, device, (function + 1) as u8);
    }
}

/// Depth-first discovery of every function on every bus reachable from bus
/// 0, recorded in a fixed-capacity device table that each scan rebuilds
/// fresh.
pub struct BusScanner {
    pub devices: Vec<Device>,
    pub num_device: usize,
}

impl BusScanner {
    /// Structural invariant: the count matches the table and stays within
    /// capacity.
    pub open spec fn wf(self) -> bool {
        &&& self.num_device == self.devices@.len()
        &&& self.devices@.len() <= MAX_DEVICES
    }

    /// An empty device table.
    pub fn new() -> (r: BusScanner)
        ensures
            r.wf(),
            r.devices@ == Seq::<Device>::empty(),
    {
        BusScanner { devices: Vec::new(), num_device: 0 }
    }

    /// The devices recorded by the last scan, in discovery order.
    pub fn devices(&self) -> (r: &Vec<Device>)
        ensures
            r@ == self.devices@,
    {
        &self.devices
    }

    /// Number of devices recorded by the last scan.
    pub fn num_device(&self) -> (r: usize)
        ensures
            r == self.num_device,
    {
        self.num_device
    }

    /// Appends one record to the device table; fails with `Full` at
    /// capacity, leaving the table unchanged.
    fn add_device(
        &mut self,
        bus: u8,
        device: u8,
        function: u8,
        header_type: u8,
        class_code: ClassCode,
    ) -> (r: Result<(), OsError>)
        requires
            old(self).wf(),
        ensures
            final(self).wf(),
            match r {
                Ok(()) => old(self).devices@.len() < MAX_DEVICES && final(self).devices@ == old(
                    self,
                ).devices@.push(Device { bus, device, function, header_type, class_code }),
                Err(e) => e.code == OsErrorCode::Full && old(self).devices@.len() == MAX_DEVICES
                    && final(self).devices@ == old(self).devices@,
            },
    {
        if self.num_device == MAX_DEVICES {
            return Err(OsError::new(OsErrorCode::Full));
        }
        self.devices.push(Device { bus, device, function, header_type, class_code });
        self.num_device = self.num_device + 1;
        Ok(())
    }

    /// Records one function and, when its class code names a PCI-to-PCI
    /// bridge, recursively scans the bridge's reported secondary bus.
    fn scan_function(&mut self, cfg: &PciConfigSpace, bus: u8, device: u8, function: u8) -> (r:
        Result<(), OsError>)
        requires
            old(self).wf(),
        ensures
            final(self).wf(),
            ({
                let st = scan_function_spec(
                    *cfg,
                    ScanState { devs: old(self).devices@, ok: true },
                    bus,
                    device,
                    function,
                );
                &&& final(self).devices@ == st.devs
                &&& (r is Ok <==> st.ok)
                &&& (r matches Err(e) ==> e.code == OsErrorCode::Full)
            }),
        decreases MAX_DEVICES - old(self).num_device, 1int, 0int,
    {
        let header_type = read_header_type(cfg, bus, device, function);
        let class_code = read_class_code(cfg, bus, device, function);

        match self.add_device(bus, device, function, header_type, class_code) {
            Ok(()) => {},
            Err(e) => {
                return Err(e);
            },
        }

        if class_code.is_matched_base_and_sub(0x06, 0x04) {
            let bus_numbers = read_bus_numbers(cfg, bus, device, function);
            let secondary_bus = ((bus_numbers >> 8) & 0x000000ff) as u8;
            proof {
                assert((bus_numbers >> 8u32) & 0xffu32 < 0x100u32) by (bit_vector);
            }
            return self.scan_bus(cfg, secondary_bus);
        }

        Ok(())
    }

    /// Probes functions 1 to 7 of one device, scanning each present one.
    fn scan_device_functions(&mut self, cfg: &PciConfigSpace, bus: u8, device: u8) -> (r: Result<
        (),
        OsError,
    >)
        requires
            old(self).wf(),
        ensures
            final(self).wf(),
            ({
                let st = scan_device_functions_spec(
                    *cfg,
                    ScanState { devs: old(self).devices@, ok: true },
                    bus,
                    device,
                    1,
                );
                &&& final(self).devices@ == st.devs
                &&& (r is Ok <==> st.ok)
                &&& (r matches Err(e) ==> e.code == OsErrorCode::Full)
            }),
        decreases MAX_DEVICES - old(self).num_device, 2int, 0int,
    {
        let ghost cfg0 = *cfg;
        let ghost target = scan_device_functions_spec(
            *cfg,
            ScanState { devs: old(self).devices@, ok: true },
            bus,
            device,
            1,
        );
        let mut function: u8 = 1;
        while function < 8
            invariant
                1 <= function <= 8,
                old(self).wf(),
                self.wf(),
                cfg0 == *cfg,
                old(self).devices@.len() <= self.devices@.len(),
                target == scan_device_functions_spec(
                    cfg0,
                    ScanState { devs: old(self).devices@, ok: true },
                    bus,
                    device,
                    1,
                ),
                scan_device_functions_spec(
                    cfg0,
                    ScanState { devs: self.devices@, ok: true },
                    bus,
                    device,
                    function,
                ) == target,
            decreases 8 - function,
        {
            let ghost st_i = ScanState { devs: self.devices@, ok: true };
            if read_vendor_id(cfg, bus, device, function) != INVALID_VENDOR_ID {
                let ghost st2 = scan_function_spec(cfg0, st_i, bus, device, function);
                proof {
                    lemma_scan_function_extends(cfg0, st_i, bus, device, function);
                    assert(scan_step(st_i, st2) == st2);
                }
                match self.scan_function(cfg, bus, device, function) {
                    Ok(()) => {
                        proof {
                            assert(st2 == ScanState { devs: self.devices@, ok: true });
                            assert(scan_device_functions_spec(cfg0, st_i, bus, device, function)
                                == scan_device_functions_spec(
                                cfg0,
                                st2,
                                bus,
                                device,
                                (function + 1) as u8,
                            ));
                        }
                    },
                    Err(e) => {
                        proof {
                            assert(scan_device_functions_spec(cfg0, st_i, bus, device, function)
                                == scan_device_functions_spec(
                                cfg0,
                                st2,
                                bus,
                                device,
                                (function + 1) as u8,
                            ));
                            lemma_scan_device_functions_noop(
                                cfg0,
                                st2,
                                bus,
                                device,
                                (function + 1) as u8,
                            );
                            assert(target == st2);
                        }
                        return Err(e);
                    },
                }
            } else {
                proof {
                    assert(scan_step(st_i, st_i) == st_i);
                }
            }
            function = function + 1;
        }
        Ok(())
    }

    /// Scans one device: function 0 always; when the device is
    /// multi-function, also its functions 1 to 7, skipping absent ones.
    fn scan_device(&mut self, cfg: &PciConfigSpace, bus: u8, device: u8) -> (r: Result<
        (),
        OsError,
    >)
        requires
            old(self).wf(),
        ensures
            final(self).wf(),
            ({
                let st = scan_device_spec(
                    *cfg,
                    ScanState { devs: old(self).devices@, ok: true },
                    bus,
                    device,
                );
                &&& final(self).devices@ == st.devs
                &&& (r is Ok <==> st.ok)
                &&& (r matches Err(e) ==> e.code == OsErrorCode::Full)
            }),
        decreases MAX_DEVICES - old(self).num_device, 4int, 0int,
    {
        let ghost st0 = ScanState { devs: old(self).devices@, ok: true };
        let ghost st1 = scan_function_spec(*cfg, st0, bus, device, 0);
        proof {
            lemma_scan_function_extends(*cfg, st0, bus, device, 0);
            assert(scan_step(st0, st1) == st1);
        }
        match self.scan_function(cfg, bus, device, 0) {
            Ok(()) => {},
            Err(e) => {
                return Err(e);
            },
        }

        if is_single_function_device(read_header_type(cfg, bus, device, 0)) {
            return Ok(());
        }
        proof {
            assert(st1 == ScanState { devs: self.devices@, ok: true });
        }
        self.scan_device_functions(cfg, bus, device)
    }

    /// Scans one bus: probes its 32 device slots, skipping slots whose
    /// function 0 is absent.
    fn scan_bus(&mut self, cfg: &PciConfigSpace, bus: u8) -> (r: Result<(), OsError>)
        requires
            old(self).wf(),
        ensures
            final(self).wf(),
            ({
                let st = scan_bus_spec(
                    *cfg,
                    ScanState { devs: old(self).devices@, ok: true },
                    bus,
                );
                &&& final(self).devices@ == st.devs
                &&& (r is Ok <==> st.ok)
                &&& (r matches Err(e) ==> e.code == OsErrorCode::Full)
            }),
        decreases MAX_DEVICES - old(self).num_device, 6int, 0int,
    {
        let ghost cfg0 = *cfg;
        let ghost target = scan_bus_spec(
            *cfg,
            ScanState { devs: old(self).devices@, ok: true },
            bus,
        );
        let mut device: u8 = 0;
        while device < 32
            invariant
                device <= 32,
                old(self).wf(),
                self.wf(),
                cfg0 == *cfg,
                old(self).devices@.len() <= self.devices@.len(),
                target == scan_bus_spec(
                    cfg0,
                    ScanState { devs: old(self).devices@, ok: true },
                    bus,
                ),
                scan_bus_devices_spec(
                    cfg0,
                    ScanState { devs: self.devices@, ok: true },
                    bus,
                    device,
                ) == target,
            decreases 32 - device,
        {
            let ghost st_i = ScanState { devs: self.devices@, ok: true };
            if read_vendor_id(cfg, bus, device, 0) != INVALID_VENDOR_ID {
                let ghost st2 = scan_device_spec(cfg0, st_i, bus, device);
                proof {
                    lemma_scan_device_extends(cfg0, st_i, bus, device);
                    assert(scan_step(st_i, st2) == st2);
                }
                match self.scan_device(cfg, bus, device) {
                    Ok(()) => {
                        proof {
                            assert(st2 == ScanState { devs: self.devices@, ok: true });
                            assert(scan_bus_devices_spec(cfg0, st_i, bus, device)
                                == scan_bus_devices_spec(cfg0, st2, bus, (device + 1) as u8));
                        }
                    },
                    Err(e) => {
                        proof {
                            assert(scan_bus_devices_spec(cfg0, st_i, bus, device)
                                == scan_bus_devices_spec(cfg0, st2, bus, (device + 1) as u8));
                            lemma_scan_bus_devices_noop(cfg0, st2, bus, (device + 1) as u8);
                            assert(target == st2);
                        }
                        return Err(e);
                    },
                }
            } else {
                proof {
                    assert(scan_step(st_i, st_i) == st_i);
                }
            }
            device = device + 1;
        }
        Ok(())
    }

    /// Rebuilds the device table by scanning every reachable bus: when bus 0
    /// device 0 is single-function, bus 0 alone is the root; otherwise each
    /// present function of it is treated as a separate host-bridge root. A
    /// full table fails with `Full` and aborts the scan, retaining partial
    /// results.
    pub fn scan_all_bus(&mut self, cfg: &PciConfigSpace) -> (r: Result<(), OsError>)
        requires
            old(self).wf(),
        ensures
            final(self).wf(),
            ({
                let st = scan_all_bus_spec(*cfg);
                &&& final(self).devices@ == st.devs
                &&& (r is Ok <==> st.ok)
                &&& (r matches Err(e) ==> e.code == OsErrorCode::Full)
            }),
    {
        let ghost cfg0 = *cfg;
        self.devices = Vec::new();
        self.num_device = 0;

        let header_type = read_header_type(cfg, 0, 0, 0);
        if is_single_function_device(header_type) {
            return self.scan_bus(cfg, 0);
        }

        let ghost target = scan_all_roots_spec(*cfg, ScanState { devs: Seq::empty(), ok: true }, 0);
        let mut function: u8 = 0;
        while function < 8
            invariant
                function <= 8,
                self.wf(),
                cfg0 == *cfg,
                target == scan_all_bus_spec(cfg0),
                scan_all_roots_spec(
                    cfg0,
                    ScanState { devs: self.devices@, ok: true },
                    function,
                ) == target,
            decreases 8 - function,
        {
            let ghost st_i = ScanState { devs: self.devices@, ok: true };
            if read_vendor_id(cfg, 0, 0, function) != INVALID_VENDOR_ID {
                let ghost st2 = scan_bus_spec(cfg0, st_i, function);
                proof {
                    lemma_scan_bus_extends(cfg0, st_i, function);
                    assert(scan_step(st_i, st2) == st2);
                }
                match self.scan_bus(cfg, function) {
                    Ok(()) => {
                        proof {
                            assert(st2 == ScanState { devs: self.devices@, ok: true });
                            assert(scan_all_roots_spec(cfg0, st_i, function)
                                == scan_all_roots_spec(cfg0, st2, (function + 1) as u8));
                        }
                    },
                    Err(e) => {
                        proof {
                            assert(scan_all_roots_spec(cfg0, st_i, function)
                                == scan_all_roots_spec(cfg0, st2, (function + 1) as u8));
                            lemma_scan_all_roots_noop(cfg0, st2, (function + 1) as u8);
                            assert(target == st2);
                        }
                        return Err(e);
                    },
                }
            } else {
                proof {
                    assert(scan_step(st_i, st_i) == st_i);
                }
            }
            function = function + 1;
        }
        Ok(())
    }
}

/// An aborted scan state passes through the remaining host-bridge roots
/// unchanged.
pub proof fn lemma_scan_all_roots_noop(cfg: PciConfigSpace, st: ScanState, function: u8)
    requires
        !st.ok,
    ensures
        scan_all_roots_spec(cfg, st, function) == st,
    decreases 8 - function,
{
    if function < 8 {
        lemma_scan_bus_devices_noop(cfg, st, function, 0);
        assert(scan_bus_spec(cfg, st, function) == st);
        lemma_scan_all_roots_noop(cfg, st, (function + 1) as u8);
    }
}

/// Whether every vendor-id probe of the whole configuration space answers
/// with the absent sentinel.
pub open spec fn all_absent(cfg: PciConfigSpace) -> bool {
    forall|bus: u8, device: u8, function: u8| vendor_absent(cfg, bus, device, function)
}

/// On an all-absent bus, probing the remaining device slots records nothing.
proof fn lemma_scan_bus_devices_absent(cfg: PciConfigSpace, st: ScanState, bus: u8, device: u8)
    requires
        all_absent(cfg),
    ensures
        scan_bus_devices_spec(cfg, st, bus, device) == st,
    decreases 32 - device,
{
    if device < 32 {
        assert(vendor_absent(cfg, bus, device, 0));
        assert(scan_step(st, st) == st);
        lemma_scan_bus_devices_absent(cfg, st, bus, (device + 1) as u8);
    }
}

/// On an all-absent configuration space, probing the remaining host-bridge
/// roots records nothing.
proof fn lemma_scan_all_roots_absent(cfg: PciConfigSpace, st: ScanState, function: u8)
    requires
        all_absent(cfg),
    ensures
        scan_all_roots_spec(cfg, st, function) == st,
    decreases 8 - function,
{
    if function < 8 {
        assert(vendor_absent(cfg, 0, 0, function));
        assert(scan_step(st, st) == st);
        lemma_scan_all_roots_absent(cfg, st, (function + 1) as u8);
    }
}

/// Scanning a configuration space where every vendor-id probe answers with
/// the absent sentinel yields an empty device table and a non-error result.
pub proof fn lemma_scan_absent_is_empty(cfg: PciConfigSpace)
    requires
        all_absent(cfg),
    ensures
        scan_all_bus_spec(cfg).devs == Seq::<Device>::empty(),
        scan_all_bus_spec(cfg).ok,
{
    let st0 = ScanState { devs: Seq::empty(), ok: true };
    if single_function_spec(header_type_spec(cfg, 0, 0, 0)) {
        lemma_scan_bus_devices_absent(cfg, st0, 0, 0);
    } else {
        lemma_scan_all_roots_absent(cfg, st0, 0);
    }
}

/// Scanning a function whose class code names a PCI-to-PCI bridge records
/// the function and then continues with a scan of the bridge's reported
/// secondary bus.
pub proof fn lemma_bridge_function_scans_secondary_bus(
    cfg: PciConfigSpace,
    st: ScanState,
    bus: u8,
    device: u8,
    function: u8,
)
    requires
        st.ok,
        st.devs.len() < MAX_DEVICES,
        is_bridge(class_code_spec(cfg, bus, device, function)),
    ensures
        scan_function_spec(cfg, st, bus, device, function) == scan_bus_spec(
            cfg,
            ScanState {
                devs: st.devs.push(device_record(cfg, bus, device, function)),
                ok: true,
            },
            secondary_bus_spec(cfg, bus, device, function),
        ),
{
}

/// Whether a recorded device is an Intel EHCI (USB 2.0) host controller.
pub open spec fn is_intel_ehci(cfg: PciConfigSpace, d: Device) -> bool {
    &&& d.class_code == (ClassCode { base: 0x0c, sub: 0x03, interface: 0x20 })
    &&& vendor_id_spec(cfg, d.bus, d.device, d.function) == 0x8086
}

/// Whether the device table holds an Intel EHCI controller.
pub open spec fn has_intel_ehci(devs: Seq<Device>, cfg: PciConfigSpace) -> bool {
    exists|i: int| 0 <= i < devs.len() && is_intel_ehci(cfg, #[trigger] devs[i])
}

impl BusScanner {
    /// When the table holds an Intel EHCI (USB 2.0) controller, hands the
    /// ports it owns over to the xHC: the xHC's supported-superspeed-ports
    /// mask is written into its superspeed-enable register, and its USB 2
    /// routing mask into its routing register. With no Intel EHCI recorded
    /// nothing is written.
    pub fn switch_ehci_to_xhci(&self, cfg: &mut PciConfigSpace, xhc_device: &Device)
        ensures
            if has_intel_ehci(self.devices@, *old(cfg)) {
                forall|a: u32|
                    final(cfg).read_spec(a) == if a == device_address(*xhc_device, 0xd0) {
                        old(cfg).read_spec(device_address(*xhc_device, 0xd4))
                    } else if a == device_address(*xhc_device, 0xd8) {
                        old(cfg).read_spec(device_address(*xhc_device, 0xdc))
                    } else {
                        old(cfg).read_spec(a)
                    }
            } else {
                forall|a: u32| final(cfg).read_spec(a) == old(cfg).read_spec(a)
            },
    {
        let ghost cfg0 = *cfg;
        let mut intel_ehc_exist = false;
        let mut i: usize = 0;
        while i < self.devices.len() && !intel_ehc_exist
            invariant
                i <= self.devices@.len(),
                cfg0 == *cfg,
                intel_ehc_exist ==> has_intel_ehci(self.devices@, cfg0),
                !intel_ehc_exist ==> forall|j: int|
                    0 <= j < i ==> !is_intel_ehci(cfg0, #[trigger] self.devices@[j]),
            decreases self.devices@.len() - i,
        {
            let device = self.devices[i];
            if device.class_code.is_matched(0x0c, 0x03, 0x20) && read_vendor_id_from_device(
                cfg,
                &device,
            ) == 0x8086 {
                intel_ehc_exist = true;
                proof {
                    assert(is_intel_ehci(cfg0, self.devices@[i as int]));
                }
            }
            i = i + 1;
        }
        if !intel_ehc_exist {
            return ;
        }

        let superspeed_port = read_conf_reg_from_device(cfg, xhc_device, 0xdc);
        write_conf_reg_from_device(cfg, xhc_device, 0xd8, superspeed_port);
        let ehci_to_xhci_port = read_conf_reg_from_device(cfg, xhc_device, 0xd4);
        write_conf_reg_from_device(cfg, xhc_device, 0xd0, ehci_to_xhci_port);
        proof {
            let b = xhc_device.bus;
            let d = xhc_device.device;
            let f = xhc_device.function;
            assert(make_address_spec(b, d, f, 0xd4u8) != make_address_spec(b, d, f, 0xd8u8))
                by (bit_vector);
        }
    }
}

/// Whether a recorded device is an xHC (USB 3) host controller.
pub open spec fn is_xhc(d: Device) -> bool {
    d.class_code == (ClassCode { base: 0x0c, sub: 0x03, interface: 0x30 })
}

/// The controller the boot sequence drives, walking the table from index
/// `i` with `acc` holding the latest xHC seen so far: the first
/// Intel-vendor xHC wins outright, otherwise the last xHC recorded.
pub open spec fn pick_xhc_spec(
    cfg: PciConfigSpace,
    devs: Seq<Device>,
    i: int,
    acc: Option<int>,
) -> Option<int>
    decreases devs.len() - i,
{
    if i >= devs.len() {
        acc
    } else if is_xhc(devs[i]) {
        if vendor_id_spec(cfg, devs[i].bus, devs[i].device, devs[i].function) == 0x8086 {
            Some(i)
        } else {
            pick_xhc_spec(cfg, devs, i + 1, Some(i))
        }
    } else {
        pick_xhc_spec(cfg, devs, i + 1, acc)
    }
}

/// Picks the xHC to drive from the device table: the first Intel xHC if
/// one is recorded, otherwise the last xHC, and nothing when the table
/// holds no xHC.
pub fn find_xhc_device(cfg: &PciConfigSpace, devices: &Vec<Device>) -> (r: Option<usize>)
    ensures
        match r {
            Some(i) => i < devices@.len() && pick_xhc_spec(*cfg, devices@, 0, None) == Some(
                i as int,
            ),
            None => pick_xhc_spec(*cfg, devices@, 0, None) is None,
        },
{
    let ghost target = pick_xhc_spec(*cfg, devices@, 0, None);
    let mut result: Option<usize> = None;
    let mut i: usize = 0;
    while i < devices.len()
        invariant
            i <= devices@.len(),
            target == pick_xhc_spec(*cfg, devices@, 0, None),
            match result {
                Some(k) => k < i && pick_xhc_spec(*cfg, devices@, i as int, Some(k as int))
                    == target,
                None => pick_xhc_spec(*cfg, devices@, i as int, None) == target,
            },
        decreases devices@.len() - i,
    {
        let device = devices[i];
        if device.class_code.is_matched(0x0c, 0x03, 0x30) {
            result = Some(i);
            if read_vendor_id_from_device(cfg, &device) == 0x8086 {
                return result;
            }
        }
        i = i + 1;
    }
    result
}

/// Capability id of the message-signaled-interrupt capability.
pub const CAPABILITY_MSI: u8 = 0x05;

/// Capability id of the MSI-X capability.
pub const CAPABILITY_MSIX: u8 = 0x11;

/// Capability id carried in a capability header word.
pub open spec fn cap_id_of(header: u32) -> u32 {
    header & 0xffu32
}

/// Offset of the next capability header in the list; zero terminates it.
pub open spec fn next_ptr_of(header: u32) -> u8 {
    ((header >> 8u32) & 0xffu32) as u8
}

/// Register offset of the first capability header, read from the capability
/// pointer register.
pub open spec fn capability_root_spec(cfg: PciConfigSpace, dev: Device) -> u8 {
    (cfg.read_spec(device_address(dev, 0x34)) & 0xffu32) as u8
}

/// The MSI and MSI-X capability offsets found along the capability list
/// rooted at `cap_addr`, following at most `fuel` links; for each id the
/// deepest match wins, and zero means no match. A zero offset or exhausted
/// fuel ends the walk.
pub open spec fn find_caps_spec(cfg: PciConfigSpace, dev: Device, cap_addr: u8, fuel: nat) -> (
    u8,
    u8,
)
    decreases fuel,
{
    if cap_addr == 0 || fuel == 0 {
        (0u8, 0u8)
    } else {
        let header = cfg.read_spec(device_address(dev, cap_addr));
        let rest = find_caps_spec(cfg, dev, next_ptr_of(header), (fuel - 1) as nat);
        merge_caps(
            (
                if cap_id_of(header) == CAPABILITY_MSI {
                    cap_addr
                } else {
                    0u8
                },
                if cap_id_of(header) == CAPABILITY_MSIX {
                    cap_addr
                } else {
                    0u8
                },
            ),
            rest,
        )
    }
}

/// Combines capability findings; what the deeper part of the list found
/// overrides what was found earlier.
pub open spec fn merge_caps(acc: (u8, u8), rest: (u8, u8)) -> (u8, u8) {
    (
        if rest.0 != 0 {
            rest.0
        } else {
            acc.0
        },
        if rest.1 != 0 {
            rest.1
        } else {
            acc.1
        },
    )
}

/// Walks a device's capability list and reports the offsets of its MSI and
/// MSI-X capabilities, zero standing for absence. The walk follows at most
/// 256 links, more than any well-formed list can hold, so a malformed
/// cyclic list ends the walk instead of hanging it.
fn find_msi_caps(cfg: &PciConfigSpace, dev: &Device) -> (r: (u8, u8))
    ensures
        r == find_caps_spec(*cfg, *dev, capability_root_spec(*cfg, *dev), 256),
{
    let ghost target = find_caps_spec(*cfg, *dev, capability_root_spec(*cfg, *dev), 256);
    let root_word = read_conf_reg_from_device(cfg, dev, 0x34);
    proof {
        assert(root_word & 0xffu32 < 0x100u32) by (bit_vector);
    }
    let mut cap_addr = (root_word & 0xff) as u8;
    let mut msi_cap_addr: u8 = 0;
    let mut msix_cap_addr: u8 = 0;
    let mut fuel: u32 = 256;
    while cap_addr != 0 && fuel > 0
        invariant
            fuel <= 256,
            target == find_caps_spec(*cfg, *dev, capability_root_spec(*cfg, *dev), 256),
            merge_caps(
                (msi_cap_addr, msix_cap_addr),
                find_caps_spec(*cfg, *dev, cap_addr, fuel as nat),
            ) == target,
        decreases fuel,
    {
        let header = read_conf_reg_from_device(cfg, dev, cap_addr);
        proof {
            assert(header & 0xffu32 < 0x100u32) by (bit_vector);
            assert((header >> 8u32) & 0xffu32 < 0x100u32) by (bit_vector);
        }
        let id = (header & 0xff) as u8;
        let next = ((header >> 8) & 0xff) as u8;
        let ghost acc0 = (msi_cap_addr, msix_cap_addr);
        if id == CAPABILITY_MSI {
            msi_cap_addr = cap_addr;
        } else if id == CAPABILITY_MSIX {
            msix_cap_addr = cap_addr;
        }
        proof {
            let found_here = (
                if cap_id_of(header) == CAPABILITY_MSI {
                    cap_addr
                } else {
                    0u8
                },
                if cap_id_of(header) == CAPABILITY_MSIX {
                    cap_addr
                } else {
                    0u8
                },
            );
            let rest = find_caps_spec(*cfg, *dev, next_ptr_of(header), (fuel - 1) as nat);
            assert((msi_cap_addr, msix_cap_addr) == merge_caps(acc0, found_here));
            assert(merge_caps(acc0, merge_caps(found_here, rest)) == merge_caps(
                merge_caps(acc0, found_here),
                rest,
            ));
        }
        cap_addr = next;
        fuel = fuel - 1;
    }
    (msi_cap_addr, msix_cap_addr)
}

/// Register offset `base + offset`, wrapped to the 256-byte configuration
/// header the address packing can reach.
pub open spec fn reg_offset_spec(base: u8, offset: u8) -> u8 {
    (((base as u32 + offset as u32) as u32) & 0xffu32) as u8
}

/// Adds a field offset to a capability offset within the configuration
/// header.
fn reg_offset(base: u8, offset: u8) -> (r: u8)
    ensures
        r == reg_offset_spec(base, offset),
{
    proof {
        let b = base as u32;
        let o = offset as u32;
        assert(((b + o) as u32) & 0xffu32 < 0x100u32 && ((b + o) as u32) & 0xffu32 == (((b
            as u32 + o as u32) as u32) & 0xffu32)) by (bit_vector)
            requires
                b < 0x100u32 && o < 0x100u32,
        ;
    }
    (((base as u32) + (offset as u32)) & 0xff) as u8
}

/// Whether an MSI capability header advertises 64-bit message addresses,
/// which shifts the message-data field by one register.
pub open spec fn msi_addr64_spec(header: u32) -> bool {
    header & (1u32 << 23u32) != 0u32
}

/// The MSI capability header after enabling: the enabled multiple-message
/// count becomes the minimum of the advertised count and the requested
/// exponent, and the enable bit is set; every other field is kept.
pub open spec fn msi_new_header_spec(header: u32, num_vector_exponent: u32) -> u32 {
    let capable = (header >> 17u32) & 0x7u32;
    let enable = if capable <= num_vector_exponent {
        capable
    } else {
        num_vector_exponent
    };
    (header & !(0x7u32 << 20u32)) | (enable << 20u32) | (1u32 << 16u32)
}

/// Register offset of the message-data field of an MSI capability, which
/// depends on whether the capability uses the 64-bit-address layout.
pub open spec fn msi_data_reg_spec(header: u32, cap_addr: u8) -> u8 {
    if msi_addr64_spec(header) {
        reg_offset_spec(cap_addr, 12)
    } else {
        reg_offset_spec(cap_addr, 8)
    }
}

/// Programs the MSI capability at `cap_addr`: writes the updated header,
/// the message address, a zero upper address half when the capability uses
/// the 64-bit layout, and the message data, in that order.
fn configure_msi_register(
    cfg: &mut PciConfigSpace,
    dev: &Device,
    cap_addr: u8,
    msg_addr: u32,
    msg_data: u32,
    num_vector_exponent: u32,
)
    ensures
        ({
            let header = old(cfg).read_spec(device_address(*dev, cap_addr));
            forall|a: u32|
                final(cfg).read_spec(a) == if a == device_address(
                    *dev,
                    msi_data_reg_spec(header, cap_addr),
                ) {
                    msg_data
                } else if msi_addr64_spec(header) && a == device_address(
                    *dev,
                    reg_offset_spec(cap_addr, 8),
                ) {
                    0u32
                } else if a == device_address(*dev, reg_offset_spec(cap_addr, 4)) {
                    msg_addr
                } else if a == device_address(*dev, cap_addr) {
                    msi_new_header_spec(header, num_vector_exponent)
                } else {
                    old(cfg).read_spec(a)
                }
        }),
{
    let header = read_conf_reg_from_device(cfg, dev, cap_addr);
    let capable = (header >> 17) & 0x7;
    let enable = if capable <= num_vector_exponent {
        capable
    } else {
        num_vector_exponent
    };
    let new_header = (header & !(0x7u32 << 20)) | (enable << 20) | (1u32 << 16);
    write_conf_reg_from_device(cfg, dev, cap_addr, new_header);
    write_conf_reg_from_device(cfg, dev, reg_offset(cap_addr, 4), msg_addr);
    if header & (1u32 << 23) != 0 {
        write_conf_reg_from_device(cfg, dev, reg_offset(cap_addr, 8), 0);
        write_conf_reg_from_device(cfg, dev, reg_offset(cap_addr, 12), msg_data);
    } else {
        write_conf_reg_from_device(cfg, dev, reg_offset(cap_addr, 8), msg_data);
    }
}

/// Targets a device's message-signaled interrupt: locates its MSI
/// capability along the capability list and programs it with the given
/// message address and data. A device advertising only MSI-X fails with
/// `NotImplemented`, one advertising neither fails with `NoPciMsi`; both
/// failures leave the configuration space unchanged.
pub fn configure_msi(
    cfg: &mut PciConfigSpace,
    dev: &Device,
    msg_addr: u32,
    msg_data: u32,
    num_vector_exponent: u32,
) -> (r: Result<(), OsError>)
    ensures
        ({
            let caps = find_caps_spec(
                *old(cfg),
                *dev,
                capability_root_spec(*old(cfg), *dev),
                256,
            );
            if caps.0 != 0 {
                let header = old(cfg).read_spec(device_address(*dev, caps.0));
                &&& r == Ok::<(), OsError>(())
                &&& forall|a: u32|
                    final(cfg).read_spec(a) == if a == device_address(
                        *dev,
                        msi_data_reg_spec(header, caps.0),
                    ) {
                        msg_data
                    } else if msi_addr64_spec(header) && a == device_address(
                        *dev,
                        reg_offset_spec(caps.0, 8),
                    ) {
                        0u32
                    } else if a == device_address(*dev, reg_offset_spec(caps.0, 4)) {
                        msg_addr
                    } else if a == device_address(*dev, caps.0) {
                        msi_new_header_spec(header, num_vector_exponent)
                    } else {
                        old(cfg).read_spec(a)
                    }
            } else {
                &&& (r matches Err(e) && e.code == if caps.1 != 0 {
                    OsErrorCode::NotImplemented
                } else {
                    OsErrorCode::NoPciMsi
                })
                &&& forall|a: u32| final(cfg).read_spec(a) == old(cfg).read_spec(a)
            }
        }),
{
    let (msi_cap_addr, msix_cap_addr) = find_msi_caps(cfg, dev);
    if msi_cap_addr != 0 {
        configure_msi_register(cfg, dev, msi_cap_addr, msg_addr, msg_data, num_vector_exponent);
        Ok(())
    } else if msix_cap_addr != 0 {
        Err(OsError::new(OsErrorCode::NotImplemented))
    } else {
        Err(OsError::new(OsErrorCode::NoPciMsi))
    }
}

/// How a message-signaled interrupt is delivered to the local APIC.
#[derive(Clone, Copy, Debug, PartialEq, Eq, Structural)]
pub enum MsiDeliveryMode {
    Fixed,
    LowestPriority,
    Smi,
    Nmi,
    Init,
    ExtInt,
}

/// Delivery-mode field value placed in bits 8 to 10 of the message data.
pub open spec fn delivery_mode_bits_spec(mode: MsiDeliveryMode) -> u32 {
    match mode {
        MsiDeliveryMode::Fixed => 0u32,
        MsiDeliveryMode::LowestPriority => 1u32,
        MsiDeliveryMode::Smi => 2u32,
        MsiDeliveryMode::Nmi => 4u32,
        MsiDeliveryMode::Init => 5u32,
        MsiDeliveryMode::ExtInt => 7u32,
    }
}

/// Encodes a delivery mode for the message-data word.
pub fn delivery_mode_bits(mode: MsiDeliveryMode) -> (r: u32)
    ensures
        r == delivery_mode_bits_spec(mode),
{
    match mode {
        MsiDeliveryMode::Fixed => 0,
        MsiDeliveryMode::LowestPriority => 1,
        MsiDeliveryMode::Smi => 2,
        MsiDeliveryMode::Nmi => 4,
        MsiDeliveryMode::Init => 5,
        MsiDeliveryMode::ExtInt => 7,
    }
}

/// Whether the interrupt is edge- or level-triggered.
#[derive(Clone, Copy, Debug, PartialEq, Eq, Structural)]
pub enum MsiTriggerMode {
    Edge,
    Level,
}

/// Message address targeting one local APIC: the fixed interrupt-message
/// window with the APIC id in bits 12 to 19.
pub open spec fn msi_message_address_spec(apic_id: u32) -> u32 {
    0xfee00000u32 | (apic_id << 12u32)
}

/// Message data carrying the delivery mode in bits 8 to 10, the vector in
/// the low byte, and the trigger-mode and level-assert bits when the
/// trigger mode is level.
pub open spec fn msi_message_data_spec(
    trigger_mode: MsiTriggerMode,
    delivery_mode: MsiDeliveryMode,
    vector: u32,
) -> u32 {
    (delivery_mode_bits_spec(delivery_mode) << 8u32) | vector | (
    if trigger_mode == MsiTriggerMode::Level {
        0xc000u32
    } else {
        0u32
    })
}

/// The message data always carries the vector in its low 8 bits, and its
/// trigger-mode bit is set exactly when the trigger mode is level.
pub proof fn lemma_msi_message_data_fields(
    trigger_mode: MsiTriggerMode,
    delivery_mode: MsiDeliveryMode,
    vector: u32,
)
    requires
        vector < 256,
    ensures
        msi_message_data_spec(trigger_mode, delivery_mode, vector) & 0xffu32 == vector,
        (msi_message_data_spec(trigger_mode, delivery_mode, vector) & 0x8000u32 != 0u32) == (
        trigger_mode == MsiTriggerMode::Level),
{
    let dm = delivery_mode_bits_spec(delivery_mode);
    let extra: u32 = if trigger_mode == MsiTriggerMode::Level {
        0xc000u32
    } else {
        0u32
    };
    assert(((dm << 8u32) | vector | extra) & 0xffu32 == vector && (((dm << 8u32) | vector | extra)
        & 0x8000u32 != 0u32) == (extra == 0xc000u32)) by (bit_vector)
        requires
            vector < 256u32 && dm < 8u32 && (extra == 0u32 || extra == 0xc000u32),
    ;
}

/// Targets a device's message-signaled interrupt at a fixed local-APIC
/// destination: the message address encodes the APIC id, the message data
/// the delivery mode, trigger mode and vector. Failures are those of
/// `configure_msi` and leave the configuration space unchanged.
pub fn configure_msi_fixed_destination(
    cfg: &mut PciConfigSpace,
    dev: &Device,
    apic_id: u32,
    trigger_mode: MsiTriggerMode,
    delivery_mode: MsiDeliveryMode,
    vector: u32,
    num_vector_exponent: u32,
) -> (r: Result<(), OsError>)
    requires
        apic_id < 256,
        vector < 256,
    ensures
        ({
            let msg_addr = msi_message_address_spec(apic_id);
            let msg_data = msi_message_data_spec(trigger_mode, delivery_mode, vector);
            let caps = find_caps_spec(
                *old(cfg),
                *dev,
                capability_root_spec(*old(cfg), *dev),
                256,
            );
            if caps.0 != 0 {
                let header = old(cfg).read_spec(device_address(*dev, caps.0));
                &&& r == Ok::<(), OsError>(())
                &&& forall|a: u32|
                    final(cfg).read_spec(a) == if a == device_address(
                        *dev,
                        msi_data_reg_spec(header, caps.0),
                    ) {
                        msg_data
                    } else if msi_addr64_spec(header) && a == device_address(
                        *dev,
                        reg_offset_spec(caps.0, 8),
                    ) {
                        0u32
                    } else if a == device_address(*dev, reg_offset_spec(caps.0, 4)) {
                        msg_addr
                    } else if a == device_address(*dev, caps.0) {
                        msi_new_header_spec(header, num_vector_exponent)
                    } else {
                        old(cfg).read_spec(a)
                    }
            } else {
                &&& (r matches Err(e) && e.code == if caps.1 != 0 {
                    OsErrorCode::NotImplemented
                } else {
                    OsErrorCode::NoPciMsi
                })
                &&& forall|a: u32| final(cfg).read_spec(a) == old(cfg).read_spec(a)
            }
        }),
{
    let msg_addr = 0xfee00000u32 | (apic_id << 12);
    let mut msg_data = (delivery_mode_bits(delivery_mode) << 8) | vector;
    if matches!(trigger_mode, MsiTriggerMode::Level) {
        msg_data = msg_data | 0xc000;
    }
    proof {
        let x = (delivery_mode_bits_spec(delivery_mode) << 8u32) | vector;
        assert(x | 0u32 == x) by (bit_vector);
    }
    configure_msi(cfg, dev, msg_addr, msg_data, num_vector_exponent)
}

} // verus!
