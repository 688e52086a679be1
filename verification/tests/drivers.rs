use soos::elf::{check_program_headers_aligned, load, mapped_pages, NO_EXECUTE, PRESENT, STACK_PAGES, USER_ACCESSIBLE, WRITABLE};
use soos::input::{
    decode_mouse_packet, key_press, mouse_has_data, KeyPress, Keyboard, LayoutKey, ModifierKey, MouseEvent, KEY_LALT,
    KEY_LCONTROL, KEY_LSHIFT,
};
use soos::pci::{config_address, config_read_word, scan, scan_step, HeaderType, PCIDevice, PCIHeader, PciError};
use soos::pci_class::{BridgeDeviceSubclass, ClassCode, MassStorageControllerSubclass, NetworkControllerSubclass, SerialBusControllerSubclass};

#[test]
fn pci_config_address_layout() {
    assert_eq!(config_address(0, 0, 0, 0), 0x8000_0000);
    assert_eq!(config_address(1, 2, 3, 0x13), 0x8001_1310);
    assert_eq!(config_address(255, 31, 7, 0xFF), 0x80FF_FFFC);
}

#[test]
fn pci_word_reads_take_the_register_of_the_offset() {
    let mut space = [0u16; 32];
    space[2] = 0x1234;
    assert_eq!(config_read_word(&space, 8), 0x1234);
    assert_eq!(config_read_word(&space, 11), 0x1234);
    assert_eq!(config_read_word(&space, 12), 0);
}

#[test]
fn pci_class_codes() {
    assert_eq!(ClassCode::from_u8(0x01, 0x06), ClassCode::MassStorageController(MassStorageControllerSubclass::SATA));
    assert_eq!(ClassCode::from_u8(0x02, 0x00), ClassCode::NetworkController(NetworkControllerSubclass::Ethernet));
    assert_eq!(ClassCode::from_u8(0x06, 0x04), ClassCode::BridgeDevice(BridgeDeviceSubclass::PCItoPCI));
    assert_eq!(ClassCode::from_u8(0x0c, 0x03), ClassCode::SerialBusController(SerialBusControllerSubclass::USB));
    assert_eq!(ClassCode::from_u8(0x01, 0x42), ClassCode::MassStorageController(MassStorageControllerSubclass::Unknown(0x42)));
    assert_eq!(ClassCode::from_u8(0x12, 0x00), ClassCode::ProcessingAccelerator);
    assert_eq!(ClassCode::from_u8(0x14, 0x99), ClassCode::Reserved);
    assert_eq!(ClassCode::from_u8(0x40, 0x00), ClassCode::Unknown(0x40));
}

fn normal_space() -> [u16; 32] {
    let mut space = [0u16; 32];
    space[0] = 0x8086; // vendor
    space[1] = 0x0002; // status/command low half: the command register
    space[2] = 0x0106; // revision/prog-if/subclass/class all read the same low half
    space[3] = 0x0010; // header type 0 in register 3's low half: cache line size etc.
    space[4] = 0xF000; // bar0
    space[11] = 0x1AF4; // subsystem vendor
    space[15] = 0x010B; // interrupt line
    space
}

#[test]
fn pci_header_of_a_normal_function() {
    let own = normal_space();
    let mut kind = [0u16; 32];
    kind[3] = 0x0000; // header type 0
    let fields = normal_space();
    let header = PCIHeader::from_bus_device(&own, &kind, &fields).unwrap().expect("a function is there");
    assert_eq!(header.vendor_id, 0x8086);
    assert_eq!(header.device_id, 0x8086);
    assert_eq!(header.revision_id, 0x06);
    assert_eq!(header.prog_if, 0x06);
    // class and subclass both come from the low byte of register 2
    assert_eq!(header.class, ClassCode::BridgeDevice(BridgeDeviceSubclass::NuBus));
    match header.header_type {
        HeaderType::Normal { bar0, subsystem_vendor_id, interrupt_line, .. } => {
            assert_eq!(bar0, 0xF000);
            assert_eq!(subsystem_vendor_id, 0x1AF4);
            assert_eq!(interrupt_line, 0x0B);
        }
        _ => panic!("a normal header"),
    }
}

#[test]
fn pci_missing_function_and_bad_header_type() {
    let mut absent = [0u16; 32];
    absent[0] = 0xFFFF;
    let zero = [0u16; 32];
    assert!(matches!(PCIHeader::from_bus_device(&absent, &zero, &zero), Ok(None)));
    let mut bad = [0u16; 32];
    bad[3] = 0x0003; // header type 3 does not exist
    let err = PCIHeader::from_bus_device(&normal_space(), &bad, &zero).unwrap_err();
    assert_eq!(err, PciError::UnknownHeaderType(3));
    let mut multi_bridge = [0u16; 32];
    multi_bridge[3] = 0x0081; // multifunction bit set, layout 1
    assert!(matches!(HeaderType::from_bus_device(&multi_bridge, &zero), Ok(HeaderType::Bridge { .. })));
    let mut cardbus = [0u16; 32];
    cardbus[3] = 0x0002;
    assert!(matches!(HeaderType::from_bus_device(&cardbus, &zero), Ok(HeaderType::Cardbus { .. })));
}

#[test]
fn pci_scan_order_and_errors() {
    assert_eq!(scan_step(0), (0, 0, 0));
    assert_eq!(scan_step(9), (0, 1, 1));
    assert_eq!(scan_step(0x1234), (0x12, 6, 4));
    let zero = [0u16; 32];
    let own = normal_space();
    let device = PCIDevice::from_bus_device(0, 3, 1, &own, &zero, &zero).unwrap().unwrap();
    assert_eq!((device.bus, device.device, device.function), (0, 3, 1));
    let found = vec![Ok(None), Ok(Some(device)), Ok(None), Ok(Some(device))];
    assert_eq!(scan(found).unwrap().len(), 2);
    let failed = vec![Ok(Some(device)), Err(PciError::UnknownHeaderType(5)), Err(PciError::UnknownHeaderType(7))];
    assert_eq!(scan(failed).unwrap_err(), PciError::UnknownHeaderType(5));
    assert!(scan(vec![]).unwrap().is_empty());
}

fn put_u16(b: &mut [u8], at: usize, v: u16) {
    b[at..at + 2].copy_from_slice(&v.to_le_bytes());
}

fn put_u32(b: &mut [u8], at: usize, v: u32) {
    b[at..at + 4].copy_from_slice(&v.to_le_bytes());
}

fn put_u64(b: &mut [u8], at: usize, v: u64) {
    b[at..at + 8].copy_from_slice(&v.to_le_bytes());
}

/// An ELF64 executable with a loadable code segment and a note.
fn tiny_elf(elf_type: u16) -> Vec<u8> {
    let mut b = vec![0u8; 64 + 2 * 56 + 16];
    b[0..4].copy_from_slice(b"\x7fELF");
    b[4] = 2; // 64-bit
    b[5] = 1; // little endian
    b[6] = 1; // version
    put_u16(&mut b, 16, elf_type);
    put_u16(&mut b, 18, 0x3E);
    put_u32(&mut b, 20, 1);
    put_u64(&mut b, 24, 0x40_00B0); // entry
    put_u64(&mut b, 32, 64); // program headers
    put_u16(&mut b, 52, 64);
    put_u16(&mut b, 54, 56);
    put_u16(&mut b, 56, 2);
    // a loadable, executable segment of 0x1800 bytes, 0xC0 of them in the file
    let ph = 64;
    put_u32(&mut b, ph, 1);
    put_u32(&mut b, ph + 4, 5);
    put_u64(&mut b, ph + 8, 0);
    put_u64(&mut b, ph + 16, 0x40_0000);
    put_u64(&mut b, ph + 24, 0x40_0000);
    put_u64(&mut b, ph + 32, 0xC0);
    put_u64(&mut b, ph + 40, 0x1800);
    put_u64(&mut b, ph + 48, 0x1000);
    // a note
    let ph = 64 + 56;
    put_u32(&mut b, ph, 4);
    put_u32(&mut b, ph + 4, 4);
    b
}

#[test]
fn elf_load_plan() {
    let bytes = tiny_elf(2);
    let plan = load(&bytes, &["init", "ab"]).expect("a loadable executable");
    assert_eq!(plan.entry_point, 0x40_00B0);
    assert_eq!(plan.segments.len(), 1);
    let s = &plan.segments[0];
    assert_eq!((s.first_page, s.page_count), (0x40_0000, 2));
    assert_eq!(s.flags, PRESENT | USER_ACCESSIBLE);
    assert_eq!((s.offset, s.vaddr, s.filesz, s.zero_len), (0, 0x40_0000, 0xC0, 0x1800 - 0xC0));
    let top = 0x0000_1000_0000_0000u64 + 100 * 0x1000;
    assert_eq!(plan.args.strings, top - 6);
    assert_eq!(plan.args.offsets, vec![0, 4]);
    assert_eq!(plan.args.records, (top - 6 - 32) & !7);
    assert_eq!(plan.args.entry, (plan.args.records - 16) & !7);
    assert_eq!(plan.args.entry_pointer, plan.args.entry - 8);
    let pages = mapped_pages(&plan);
    assert_eq!(pages.len(), 2 + STACK_PAGES as usize);
    assert_eq!((pages[0].name, pages[0].page, pages[1].page), ("elf", 0x40_0000, 0x40_1000));
    assert_eq!(pages[2].name, "stack");
    assert_eq!(pages[2].page, 0x0000_1000_0000_0000);
    assert_eq!(pages[2].flags, PRESENT | WRITABLE | USER_ACCESSIBLE | NO_EXECUTE);
}

#[test]
fn elf_loads_from_bytes_at_any_address() {
    let mut shifted = vec![0u8];
    shifted.extend(tiny_elf(2));
    let bytes = &shifted[1..];
    assert!(check_program_headers_aligned(bytes));
    let plan = load(bytes, &["init"]).expect("a loadable executable");
    assert_eq!(plan.entry_point, 0x40_00B0);
    assert_eq!(plan.segments.len(), 1);
    assert_eq!(plan.segments[0].first_page, 0x40_0000);
}

#[test]
fn elf_program_header_alignment() {
    assert!(check_program_headers_aligned(&tiny_elf(2)));
    assert!(check_program_headers_aligned(b"#!/bin/sh\n"));
    // program headers at an odd offset within the file
    let mut b = tiny_elf(2);
    put_u64(&mut b, 32, 65);
    assert!(!check_program_headers_aligned(&b));
    // an odd offset past the end of the file is never read
    put_u64(&mut b, 32, 0x1_0001);
    assert!(check_program_headers_aligned(&b));
    // a 32-bit file takes 4-byte alignment
    b[4] = 1;
    put_u32(&mut b, 28, 52);
    put_u16(&mut b, 44, 1);
    assert!(check_program_headers_aligned(&b));
    put_u32(&mut b, 28, 54);
    assert!(!check_program_headers_aligned(&b));
}

#[test]
fn elf_loads_a_32_bit_executable() {
    let mut b = vec![0u8; 52 + 32];
    b[0..4].copy_from_slice(b"\x7fELF");
    b[4] = 1; // 32-bit
    b[5] = 1;
    put_u16(&mut b, 16, 2);
    put_u32(&mut b, 24, 0x40_0010); // entry
    put_u32(&mut b, 28, 52); // program headers
    put_u16(&mut b, 40, 52);
    put_u16(&mut b, 42, 32);
    put_u16(&mut b, 44, 1);
    put_u32(&mut b, 52, 1); // LOAD
    put_u32(&mut b, 52 + 4, 0);
    put_u32(&mut b, 52 + 8, 0x40_0000);
    put_u32(&mut b, 52 + 16, 0x10);
    put_u32(&mut b, 52 + 20, 0x2000);
    put_u32(&mut b, 52 + 24, 6); // read and write
    assert!(check_program_headers_aligned(&b));
    let plan = load(&b, &[]).expect("a loadable executable");
    assert_eq!(plan.entry_point, 0x40_0010);
    assert_eq!(plan.segments.len(), 1);
    let s = &plan.segments[0];
    // the page that holds the end address is mapped too
    assert_eq!((s.first_page, s.page_count), (0x40_0000, 3));
    assert_eq!(s.flags, PRESENT | USER_ACCESSIBLE | WRITABLE | NO_EXECUTE);
    assert_eq!((s.vaddr, s.filesz, s.zero_len), (0x40_0000, 0x10, 0x2000 - 0x10));
    // a header that claims more bytes than there are is refused
    put_u16(&mut b, 40, 200);
    assert!(load(&b, &[]).is_none());
}

#[test]
fn elf_refuses_what_it_cannot_load() {
    // a shared object is no executable
    assert!(load(&tiny_elf(3), &[]).is_none());
    // not an ELF file at all
    assert!(load(b"#!/bin/sh\n", &[]).is_none());
    // arguments that do not fit in the top page of the stack
    let long = "x".repeat(4096);
    assert!(load(&tiny_elf(2), &[long.as_str()]).is_none());
}

#[test]
fn mouse_packets() {
    assert_eq!(
        decode_mouse_packet(0b0000_1001, 5, 3),
        MouseEvent { x_movement: 5, y_movement: -3, left_button_pressed: 1, right_button_pressed: 0 }
    );
    assert_eq!(
        decode_mouse_packet(0b0000_0110, 0x7F, 0),
        MouseEvent { x_movement: -127, y_movement: 0, left_button_pressed: 0, right_button_pressed: 1 }
    );
    let event = decode_mouse_packet(0b0000_0100, 2, 1);
    assert_eq!(event.to_bytes(), vec![0xFE, 1, 0, 0]);
    assert!(mouse_has_data(0x21));
    assert!(!mouse_has_data(0x01));
}

#[test]
fn keyboard_modifiers_and_characters() {
    let mut keyboard = Keyboard::new();
    assert_eq!(keyboard.apply_key(KeyPress::Char('a'), true), Some(b'a'));
    assert_eq!(keyboard.apply_key(KeyPress::Char('a'), false), None);
    assert_eq!(keyboard.apply_key(KeyPress::Char('ü'), true), None);
    assert_eq!(keyboard.apply_key(KeyPress::Modifier(ModifierKey::LControl), true), None);
    assert!(keyboard.lctrl);
    assert_eq!(keyboard.apply_key(KeyPress::Char('c'), true), None);
    keyboard.apply_key(KeyPress::Modifier(ModifierKey::LControl), false);
    assert_eq!(keyboard.apply_key(KeyPress::OtherRawKey, true), None);
    assert_eq!(keyboard.apply_key(KeyPress::Char('c'), true), Some(b'c'));
}

#[test]
fn key_numbers_match_the_key_codes() {
    assert_eq!(pc_keyboard::KeyCode::LShift as u8, KEY_LSHIFT);
    assert_eq!(pc_keyboard::KeyCode::LControl as u8, KEY_LCONTROL);
    assert_eq!(pc_keyboard::KeyCode::LAlt as u8, KEY_LALT);
    assert_eq!(key_press(LayoutKey::RawKey(KEY_LSHIFT)), KeyPress::Modifier(ModifierKey::LShift));
    assert_eq!(key_press(LayoutKey::RawKey(KEY_LCONTROL)), KeyPress::Modifier(ModifierKey::LControl));
    assert_eq!(key_press(LayoutKey::RawKey(KEY_LALT)), KeyPress::Modifier(ModifierKey::LAlt));
    assert_eq!(key_press(LayoutKey::RawKey(pc_keyboard::KeyCode::RShift as u8)), KeyPress::OtherRawKey);
    assert_eq!(key_press(LayoutKey::Unicode('q')), KeyPress::Char('q'));
}

#[test]
fn keyboard_key_events_with_the_german_layout() {
    let mut keyboard = Keyboard::new();
    assert_eq!(keyboard.handle_key_event(pc_keyboard::KeyCode::A, true), Some(b'a'));
    assert_eq!(keyboard.handle_key_event(pc_keyboard::KeyCode::Y, true), Some(b'z'));
    assert_eq!(keyboard.handle_key_event(pc_keyboard::KeyCode::LShift, true), None);
    assert!(keyboard.lshift && !keyboard.lalt && !keyboard.lctrl);
    assert_eq!(keyboard.handle_key_event(pc_keyboard::KeyCode::Key7, true), Some(b'/'));
    assert_eq!(keyboard.handle_key_event(pc_keyboard::KeyCode::LShift, false), None);
    assert!(!keyboard.lshift);
    assert_eq!(keyboard.handle_key_event(pc_keyboard::KeyCode::LAlt, true), None);
    assert!(keyboard.lalt && !keyboard.lshift);
    assert_eq!(keyboard.handle_key_event(pc_keyboard::KeyCode::LAlt, false), None);
    // right shift is not followed
    assert_eq!(keyboard.handle_key_event(pc_keyboard::KeyCode::RShift, true), None);
    assert_eq!(keyboard.handle_key_event(pc_keyboard::KeyCode::A, true), Some(b'a'));
    assert_eq!(keyboard.handle_key_event(pc_keyboard::KeyCode::LControl, true), None);
    assert!(keyboard.lctrl);
    assert_eq!(keyboard.handle_key_event(pc_keyboard::KeyCode::A, true), None);
}

#[test]
fn keyboard_extended_scancodes_take_two_bytes() {
    let mut keyboard = Keyboard::new();
    // right control: 0xE0 then 0x1D; it is no followed modifier
    assert_eq!(keyboard.handle_scancode(0xE0), None);
    assert_eq!(keyboard.handle_scancode(0x1D), None);
    assert!(!keyboard.lctrl);
    // the decoder is back at its start: a plain make code gives its key
    assert_eq!(keyboard.handle_scancode(0x1E), Some(b'a'));
    // left control alone is followed
    assert_eq!(keyboard.handle_scancode(0x1D), None);
    assert!(keyboard.lctrl);
    assert_eq!(keyboard.handle_scancode(0x1E), None);
    assert_eq!(keyboard.handle_scancode(0x9D), None);
    assert!(!keyboard.lctrl);
    // a code that no key has gives nothing and changes nothing
    assert_eq!(keyboard.handle_scancode(0x00), None);
    assert_eq!(keyboard.handle_scancode(0x1E), Some(b'a'));
}

#[test]
fn keyboard_scancodes_with_the_german_layout() {
    let mut keyboard = Keyboard::new();
    assert_eq!(keyboard.handle_scancode(0x1E), Some(b'a'));
    assert_eq!(keyboard.handle_scancode(0x9E), None);
    // the key right of T gives z on a German keyboard
    assert_eq!(keyboard.handle_scancode(0x15), Some(b'z'));
    assert_eq!(keyboard.handle_scancode(0x2A), None);
    assert!(keyboard.lshift);
    assert_eq!(keyboard.handle_scancode(0x1E), Some(b'A'));
    assert_eq!(keyboard.handle_scancode(0xAA), None);
    assert!(!keyboard.lshift);
    assert_eq!(keyboard.handle_scancode(0x1E), Some(b'a'));
}
