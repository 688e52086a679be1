//! PCI: the addresses of configuration registers, and the headers of PCI
//! functions decoded from their configuration space.

use vstd::prelude::*;

use crate::pci_class::ClassCode;

verus! {

/// The low 16 bits of the 4-byte configuration register that holds `offset`:
/// what reading the word at `offset` gives, whatever the low bits of the offset.
pub open spec fn word(space: Seq<u16>, offset: int) -> u16 {
    space[offset / 4]
}

/// Reads the word at `offset` from a configuration space of 32 registers.
pub fn config_read_word(space: &[u16], offset: u8) -> (r: u16)
    requires
        space@.len() == 32,
        offset < 128,
    ensures
        r == word(space@, offset as int),
{
    space[(offset / 4) as usize]
}

/// The value that selects a configuration register: the enable bit, the
/// bus, slot and function, and the offset rounded down to a register.
pub open spec fn config_address_of(bus: u8, slot: u8, func: u8, offset: u8) -> u32 {
    0x80000000u32 | ((bus as u32) << 16u32) | ((slot as u32) << 11u32) | ((func as u32) << 8u32) | ((offset as u32) & 0xfcu32)
}

/// The value to write to the configuration address port to read a register.
pub fn config_address(bus: u8, slot: u8, func: u8, offset: u8) -> (r: u32)
    ensures
        r == config_address_of(bus, slot, func, offset),
{
    0x80000000u32 | ((bus as u32) << 16u32) | ((slot as u32) << 11u32) | ((func as u32) << 8u32) | ((offset as u32) & 0xfcu32)
}

/// The part of a header that depends on its layout.
#[derive(Debug, Clone, Copy)]
#[allow(inconsistent_fields)]
pub enum HeaderType {
    Normal {
        bar0: u32,
        bar1: u32,
        bar2: u32,
        bar3: u32,
        bar4: u32,
        bar5: u32,
        cardbus_cis_pointer: u32,
        subsystem_vendor_id: u16,
        subsystem_id: u16,
        expansion_rom_base_address: u32,
        capabilities_pointer: u8,
        reserved: [u8; 7],
        interrupt_line: u8,
        interrupt_pin: u8,
        min_grant: u8,
        max_latency: u8,
    },
    Bridge {
        bar0: u32,
        bar1: u32,
        primary_bus_number: u8,
        secondary_bus_number: u8,
        subordinate_bus_number: u8,
        secondary_latency_timer: u8,
        io_base: u8,
        io_limit: u8,
        secondary_status: u16,
        memory_base: u16,
        memory_limit: u16,
        prefetchable_memory_base: u16,
        prefetchable_memory_limit: u16,
        prefetchable_base_upper_32_bits: u32,
        prefetchable_limit_upper_32_bits: u32,
        io_base_upper_16_bits: u16,
        io_limit_upper_16_bits: u16,
        capabilities_pointer: u8,
        reserved: [u8; 3],
        expansion_rom_base_address: u32,
        interrupt_line: u8,
        interrupt_pin: u8,
        bridge_control: u16,
    },
    Cardbus {
        cardbus_socket_exca_base_address: u32,
        capabilities_pointer: u8,
        reserved: [u8; 3],
        secondary_status: u16,
        pci_bus_number: u8,
        cardbus_bus_number: u8,
        subordinate_bus_number: u8,
        cardbus_latency_timer: u8,
        memory_base_0: u32,
        memory_limit_0: u32,
        memory_base_1: u32,
        memory_limit_1: u32,
        io_base_0: u32,
        io_limit_0: u32,
        io_base_1: u32,
        io_limit_1: u32,
        interrupt_line: u8,
        interrupt_pin: u8,
        bridge_control: u16,
        subsystem_device_id: u16,
        subsystem_vendor_id: u16,
        legacy_base_address: u32,
    },
}

/// Why a header could not be read.
#[derive(Debug, Clone, Copy, PartialEq, Eq, Structural)]
pub enum PciError {
    /// The header type register holds a layout that does not exist.
    UnknownHeaderType(u8),
}

/// The header of a bridge between PCI buses, from the registers `f`.
pub open spec fn bridge_header(f: Seq<u16>) -> HeaderType {
    HeaderType::Bridge {
        bar0: word(f, 16) as u32,
        bar1: word(f, 18) as u32,
        primary_bus_number: word(f, 20) as u8,
        secondary_bus_number: word(f, 21) as u8,
        subordinate_bus_number: word(f, 22) as u8,
        secondary_latency_timer: word(f, 23) as u8,
        io_base: word(f, 24) as u8,
        io_limit: word(f, 25) as u8,
        secondary_status: word(f, 26),
        memory_base: word(f, 28),
        memory_limit: word(f, 30),
        prefetchable_memory_base: word(f, 32),
        prefetchable_memory_limit: word(f, 34),
        prefetchable_base_upper_32_bits: word(f, 36) as u32,
        prefetchable_limit_upper_32_bits: word(f, 40) as u32,
        io_base_upper_16_bits: word(f, 48),
        io_limit_upper_16_bits: word(f, 50),
        capabilities_pointer: word(f, 52) as u8,
        reserved: [word(f, 53) as u8, word(f, 54) as u8, word(f, 55) as u8],
        expansion_rom_base_address: word(f, 56) as u32,
        interrupt_line: word(f, 60) as u8,
        interrupt_pin: word(f, 61) as u8,
        bridge_control: word(f, 62),
    }
}

/// The header of a CardBus bridge, from the registers `f`.
pub open spec fn cardbus_header(f: Seq<u16>) -> HeaderType {
    HeaderType::Cardbus {
        cardbus_socket_exca_base_address: word(f, 16) as u32,
        capabilities_pointer: word(f, 52) as u8,
        reserved: [word(f, 53) as u8, word(f, 54) as u8, word(f, 55) as u8],
        secondary_status: word(f, 56),
        pci_bus_number: word(f, 58) as u8,
        cardbus_bus_number: word(f, 59) as u8,
        subordinate_bus_number: word(f, 60) as u8,
        cardbus_latency_timer: word(f, 61) as u8,
        memory_base_0: word(f, 64) as u32,
        memory_limit_0: word(f, 68) as u32,
        memory_base_1: word(f, 72) as u32,
        memory_limit_1: word(f, 76) as u32,
        io_base_0: word(f, 80) as u32,
        io_limit_0: word(f, 84) as u32,
        io_base_1: word(f, 88) as u32,
        io_limit_1: word(f, 92) as u32,
        interrupt_line: word(f, 96) as u8,
        interrupt_pin: word(f, 97) as u8,
        bridge_control: word(f, 98),
        subsystem_device_id: word(f, 106),
        subsystem_vendor_id: word(f, 108),
        legacy_base_address: word(f, 112) as u32,
    }
}

/// The layout part of a header: the register at offset 14 of `kind`, its
/// top bit left out, says which layout the registers of `fields` have.
pub open spec fn header_type_of(kind: Seq<u16>, fields: Seq<u16>) -> Result<HeaderType, PciError> {
    let t = word(kind, 14) as u8;
    if t & 0x7f == 0 {
        Ok(normal_header(fields))
    } else if t & 0x7f == 1 {
        Ok(bridge_header(fields))
    } else if t & 0x7f == 2 {
        Ok(cardbus_header(fields))
    } else {
        Err(PciError::UnknownHeaderType(t))
    }
}

/// The normal header.
pub open spec fn normal_header(f: Seq<u16>) -> HeaderType {
    HeaderType::Normal {
        bar0: word(f, 16) as u32,
        bar1: word(f, 18) as u32,
        bar2: word(f, 20) as u32,
        bar3: word(f, 22) as u32,
        bar4: word(f, 24) as u32,
        bar5: word(f, 26) as u32,
        cardbus_cis_pointer: word(f, 28) as u32,
        subsystem_vendor_id: word(f, 44),
        subsystem_id: word(f, 46),
        expansion_rom_base_address: word(f, 48) as u32,
        capabilities_pointer: word(f, 52) as u8,
        reserved: [word(f, 53) as u8, word(f, 54) as u8, word(f, 55) as u8, word(f, 56) as u8, word(f, 57) as u8, word(f, 58) as u8, word(f, 59) as u8],
        interrupt_line: word(f, 60) as u8,
        interrupt_pin: word(f, 61) as u8,
        min_grant: word(f, 62) as u8,
        max_latency: word(f, 63) as u8,
    }
}

impl HeaderType {
    /// The layout part of a header, from the configuration space `kind`
    /// that holds the header type and the one `fields` that holds the
    /// registers of the layout.
    pub fn from_bus_device(kind: &[u16], fields: &[u16]) -> (r: Result<HeaderType, PciError>)
        requires
            kind@.len() == 32,
            fields@.len() == 32,
        ensures
            r == header_type_of(kind@, fields@),
    {
        let header_type = config_read_word(kind, 14) as u8;
        let f = fields;
        if header_type & 0x7f == 0 {
            Ok(HeaderType::Normal {
                bar0: config_read_word(f, 16) as u32,
                bar1: config_read_word(f, 18) as u32,
                bar2: config_read_word(f, 20) as u32,
                bar3: config_read_word(f, 22) as u32,
                bar4: config_read_word(f, 24) as u32,
                bar5: config_read_word(f, 26) as u32,
                cardbus_cis_pointer: config_read_word(f, 28) as u32,
                subsystem_vendor_id: config_read_word(f, 44),
                subsystem_id: config_read_word(f, 46),
                expansion_rom_base_address: config_read_word(f, 48) as u32,
                capabilities_pointer: config_read_word(f, 52) as u8,
                reserved: [
                    config_read_word(f, 53) as u8,
                    config_read_word(f, 54) as u8,
                    config_read_word(f, 55) as u8,
                    config_read_word(f, 56) as u8,
                    config_read_word(f, 57) as u8,
                    config_read_word(f, 58) as u8,
                    config_read_word(f, 59) as u8,
                ],
                interrupt_line: config_read_word(f, 60) as u8,
                interrupt_pin: config_read_word(f, 61) as u8,
                min_grant: config_read_word(f, 62) as u8,
                max_latency: config_read_word(f, 63) as u8,
            })
        } else if header_type & 0x7f == 1 {
            Ok(HeaderType::Bridge {
                bar0: config_read_word(f, 16) as u32,
                bar1: config_read_word(f, 18) as u32,
                primary_bus_number: config_read_word(f, 20) as u8,
                secondary_bus_number: config_read_word(f, 21) as u8,
                subordinate_bus_number: config_read_word(f, 22) as u8,
                secondary_latency_timer: config_read_word(f, 23) as u8,
                io_base: config_read_word(f, 24) as u8,
                io_limit: config_read_word(f, 25) as u8,
                secondary_status: config_read_word(f, 26),
                memory_base: config_read_word(f, 28),
                memory_limit: config_read_word(f, 30),
                prefetchable_memory_base: config_read_word(f, 32),
                prefetchable_memory_limit: config_read_word(f, 34),
                prefetchable_base_upper_32_bits: config_read_word(f, 36) as u32,
                prefetchable_limit_upper_32_bits: config_read_word(f, 40) as u32,
                io_base_upper_16_bits: config_read_word(f, 48),
                io_limit_upper_16_bits: config_read_word(f, 50),
                capabilities_pointer: config_read_word(f, 52) as u8,
                reserved: [config_read_word(f, 53) as u8, config_read_word(f, 54) as u8, config_read_word(f, 55) as u8],
                expansion_rom_base_address: config_read_word(f, 56) as u32,
                interrupt_line: config_read_word(f, 60) as u8,
                interrupt_pin: config_read_word(f, 61) as u8,
                bridge_control: config_read_word(f, 62),
            })
        } else if header_type & 0x7f == 2 {
            Ok(HeaderType::Cardbus {
                cardbus_socket_exca_base_address: config_read_word(f, 16) as u32,
                capabilities_pointer: config_read_word(f, 52) as u8,
                reserved: [config_read_word(f, 53) as u8, config_read_word(f, 54) as u8, config_read_word(f, 55) as u8],
                secondary_status: config_read_word(f, 56),
                pci_bus_number: config_read_word(f, 58) as u8,
                cardbus_bus_number: config_read_word(f, 59) as u8,
                subordinate_bus_number: config_read_word(f, 60) as u8,
                cardbus_latency_timer: config_read_word(f, 61) as u8,
                memory_base_0: config_read_word(f, 64) as u32,
                memory_limit_0: config_read_word(f, 68) as u32,
                memory_base_1: config_read_word(f, 72) as u32,
                memory_limit_1: config_read_word(f, 76) as u32,
                io_base_0: config_read_word(f, 80) as u32,
                io_limit_0: config_read_word(f, 84) as u32,
                io_base_1: config_read_word(f, 88) as u32,
                io_limit_1: config_read_word(f, 92) as u32,
                interrupt_line: config_read_word(f, 96) as u8,
                interrupt_pin: config_read_word(f, 97) as u8,
                bridge_control: config_read_word(f, 98),
                subsystem_device_id: config_read_word(f, 106),
                subsystem_vendor_id: config_read_word(f, 108),
                legacy_base_address: config_read_word(f, 112) as u32,
            })
        } else {
            Err(PciError::UnknownHeaderType(header_type))
        }
    }
}

/// The header of a PCI function.
#[derive(Debug, Clone, Copy)]
pub struct PCIHeader {
    pub vendor_id: u16,
    pub device_id: u16,
    pub command: u16,
    pub status: u16,
    pub revision_id: u8,
    pub prog_if: u8,
    pub class: ClassCode,
    pub cache_line_size: u8,
    pub latency_timer: u8,
    pub header_type: HeaderType,
    pub bist: u8,
}

/// Whether `c` is what the class byte `class` and the subclass byte
/// `subclass` decode to.
pub open spec fn decodes_to(c: ClassCode, class: u8, subclass: u8) -> bool {
    &&& c.class_code() == class
    &&& c.is_canonical()
    &&& class <= 0x11 ==> c.subclass_code() == Some(subclass)
    &&& class > 0x11 ==> c.subclass_code() is None
}

/// The class that a class byte and a subclass byte decode to.
pub open spec fn class_of(class: u8, subclass: u8) -> ClassCode {
    choose|c: ClassCode| decodes_to(c, class, subclass)
}

/// `ClassCode::from_u8` gives the class that the bytes decode to.
proof fn lemma_class_of(c: ClassCode, class: u8, subclass: u8)
    requires
        decodes_to(c, class, subclass),
    ensures
        class_of(class, subclass) == c,
{
    let d = class_of(class, subclass);
    assert(decodes_to(d, class, subclass));
    ClassCode::lemma_codes_determine_value(c, d);
}

/// The header read from the configuration space `own` of the function,
/// with the layout part from `kind` and `fields`; nothing when the vendor
/// register reads all ones, so that no function is there.
pub open spec fn header_of(own: Seq<u16>, kind: Seq<u16>, fields: Seq<u16>) -> Result<Option<PCIHeader>, PciError> {
    if word(own, 0) == 0xffff {
        Ok(None)
    } else {
        match header_type_of(kind, fields) {
            Err(e) => Err(e),
            Ok(header_type) => Ok(Some(PCIHeader {
                vendor_id: word(own, 0),
                device_id: word(own, 2),
                command: word(own, 4),
                status: word(own, 6),
                revision_id: word(own, 8) as u8,
                prog_if: word(own, 9) as u8,
                class: class_of(word(own, 11) as u8, word(own, 10) as u8),
                cache_line_size: word(own, 12) as u8,
                latency_timer: word(own, 13) as u8,
                header_type,
                bist: word(own, 15) as u8,
            })),
        }
    }
}

impl PCIHeader {
    /// The header of the function whose configuration space is `own`; the
    /// layout part comes from the configuration spaces `kind` and `fields`,
    /// which the kernel reads at other addresses.
    pub fn from_bus_device(own: &[u16], kind: &[u16], fields: &[u16]) -> (r: Result<Option<PCIHeader>, PciError>)
        requires
            own@.len() == 32,
            kind@.len() == 32,
            fields@.len() == 32,
        ensures
            r == header_of(own@, kind@, fields@),
    {
        let vendor_id = config_read_word(own, 0);
        if vendor_id == 0xffff {
            return Ok(None);
        }
        let device_id = config_read_word(own, 2);
        let command = config_read_word(own, 4);
        let status = config_read_word(own, 6);
        let revision_id = config_read_word(own, 8) as u8;
        let prog_if = config_read_word(own, 9) as u8;
        let subclass = config_read_word(own, 10) as u8;
        let class = ClassCode::from_u8(config_read_word(own, 11) as u8, subclass);
        proof {
            lemma_class_of(class, word(own@, 11) as u8, subclass);
        }
        let cache_line_size = config_read_word(own, 12) as u8;
        let latency_timer = config_read_word(own, 13) as u8;
        let header_type = match HeaderType::from_bus_device(kind, fields) {
            Ok(t) => t,
            Err(e) => {
                return Err(e);
            },
        };
        let bist = config_read_word(own, 15) as u8;
        Ok(Some(PCIHeader {
            vendor_id,
            device_id,
            command,
            status,
            revision_id,
            prog_if,
            class,
            cache_line_size,
            latency_timer,
            header_type,
            bist,
        }))
    }
}

/// A PCI function that answered, with where it is.
#[derive(Debug, Clone, Copy)]
pub struct PCIDevice {
    pub bus: u8,
    pub device: u8,
    pub function: u8,
    pub header: PCIHeader,
}

impl PCIDevice {
    /// The function `function` of the device `device` on the bus `bus`, when
    /// one is there, from its configuration space `own`; the layout part of
    /// its header comes from the configuration spaces `kind` and `fields`.
    pub fn from_bus_device(bus: u8, device: u8, function: u8, own: &[u16], kind: &[u16], fields: &[u16]) -> (r: Result<Option<PCIDevice>, PciError>)
        requires
            own@.len() == 32,
            kind@.len() == 32,
            fields@.len() == 32,
        ensures
            match header_of(own@, kind@, fields@) {
                Err(e) => r == Err::<Option<PCIDevice>, PciError>(e),
                Ok(None) => r == Ok::<Option<PCIDevice>, PciError>(None),
                Ok(Some(header)) => r == Ok::<Option<PCIDevice>, PciError>(Some(PCIDevice { bus, device, function, header })),
            },
    {
        match PCIHeader::from_bus_device(own, kind, fields) {
            Err(e) => Err(e),
            Ok(None) => Ok(None),
            Ok(Some(header)) => Ok(Some(PCIDevice { bus, device, function, header })),
        }
    }
}

/// The bus, device and function that the scan visits at step `index`:
/// the functions of a device in turn, the devices of a bus in turn, then the buses.
pub open spec fn scan_position(index: int) -> (u8, u8, u8) {
    ((index / 256) as u8, ((index / 8) % 32) as u8, (index % 8) as u8)
}

/// The bus, device and function of step `index` of a scan.
pub fn scan_step(index: u32) -> (r: (u8, u8, u8))
    requires
        index < 0x10000,
    ensures
        r == scan_position(index as int),
{
    ((index / 256) as u8, ((index / 8) % 32) as u8, (index % 8) as u8)
}

/// The number of steps of a scan: 256 buses of 32 devices of 8 functions.
pub const SCAN_STEPS: u32 = 0x10000;

/// The devices of `found`, in order; the first error when there is one.
pub open spec fn scan_result(found: Seq<Result<Option<PCIDevice>, PciError>>) -> Result<Seq<PCIDevice>, PciError>
    decreases found.len(),
{
    if found.len() == 0 {
        Ok(Seq::empty())
    } else {
        match found[0] {
            Err(e) => Err(e),
            Ok(d) => match scan_result(found.skip(1)) {
                Err(e) => Err(e),
                Ok(rest) => Ok(match d {
                    Some(dev) => seq![dev] + rest,
                    None => rest,
                }),
            },
        }
    }
}

/// Gathers what a scan found at each step: the devices in the order of the
/// steps, or the first error.
pub fn scan(found: Vec<Result<Option<PCIDevice>, PciError>>) -> (r: Result<Vec<PCIDevice>, PciError>)
    ensures
        match scan_result(found@) {
            Ok(devices) => r matches Ok(v) && v@ == devices,
            Err(e) => r == Err::<Vec<PCIDevice>, PciError>(e),
        },
{
    let mut devices: Vec<PCIDevice> = Vec::new();
    let mut i: usize = 0;
    proof {
        assert(found@.skip(0) =~= found@);
        match scan_result(found@) {
            Ok(rest) => {
                assert(devices@ + rest =~= rest);
            },
            Err(_) => {},
        }
    }
    while i < found.len()
        invariant
            i <= found@.len(),
            forall|j: int| 0 <= j < i ==> (#[trigger] found@[j]) is Ok,
            scan_result(found@) == match scan_result(found@.skip(i as int)) {
                Err(e) => Err::<Seq<PCIDevice>, PciError>(e),
                Ok(rest) => Ok(devices@ + rest),
            },
        decreases found@.len() - i,
    {
        proof {
            assert(found@.skip(i as int).skip(1) =~= found@.skip(i + 1));
            assert(found@.skip(i as int)[0] == found@[i as int]);
        }
        match found[i] {
            Err(e) => {
                return Err(e);
            },
            Ok(Some(dev)) => {
                let ghost before = devices@;
                devices.push(dev);
                proof {
                    match scan_result(found@.skip(i + 1)) {
                        Ok(rest) => {
                            assert(before + (seq![dev] + rest) =~= devices@ + rest);
                        },
                        Err(_) => {},
                    }
                }
            },
            Ok(None) => {},
        }
        i = i + 1;
    }
    proof {
        assert(found@.skip(i as int) =~= Seq::<Result<Option<PCIDevice>, PciError>>::empty());
        assert(devices@ + Seq::<PCIDevice>::empty() =~= devices@);
    }
    Ok(devices)
}

} // verus!
