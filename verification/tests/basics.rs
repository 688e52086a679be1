use soos::color::Color;
use soos::fifo::BoundedAtomicFifo;
use soos::io::{Cursor, Ignorer, Write, WriterError};
use chrono::{Datelike, Timelike};
use soos::rtc::{decode, get_time, timestamp, DateTime, RtcRegisters, LAST_SECOND_OF_9999};
use soos::serial::{com1, Error, SerialPort, LOOPBACK_TEST_BYTE};
use soos::spinlock::Spinlock;
use soos::term::{char_kind, glyph_pixel, glyph_pixel_index, CharKind, Framebuffer, TextCursor};
use soos::timer::{AccessMode, BCDMode, Channel, OperatingMode, Timer};

#[test]
fn color_packs_red_green_blue() {
    assert_eq!(Color::rgb(0x12, 0x34, 0x56).as_u32(), 0x0012_3456);
    assert_eq!(Color::white().as_u32(), 0x00FF_FFFF);
    assert_eq!(Color::black().as_u32(), 0);
    assert_eq!(Color::red(), Color::rgb(255, 0, 0));
    assert_eq!(Color::blue().as_u32(), 0x0000_00FF);
    assert_eq!(Color::yellow(), Color::rgb(255, 255, 0));
}

#[test]
fn blend_at_the_extremes_and_halfway() {
    let top = Color::rgb(200, 100, 0);
    let bottom = Color::rgb(0, 100, 200);
    assert_eq!(top.blend(bottom, 255), top);
    assert_eq!(top.blend(bottom, 0), bottom);
    // (0 * 127 + 200 * 128) / 255 = 100, (200 * 127 + 0) / 255 = 99
    assert_eq!(top.blend(bottom, 128), Color::rgb(100, 100, 99));
}

#[test]
fn fifo_keeps_order_and_refuses_when_full() {
    let mut fifo: BoundedAtomicFifo<u32, 4> = BoundedAtomicFifo::new();
    assert_eq!(fifo.pop(), None);
    assert_eq!(fifo.push(1), Ok(()));
    assert_eq!(fifo.push(2), Ok(()));
    assert_eq!(fifo.push(3), Ok(()));
    assert_eq!(fifo.push(4), Err("FIFO is full!"));
    assert_eq!(fifo.pop(), Some(1));
    assert_eq!(fifo.push(5), Ok(()));
    assert_eq!(fifo.pop(), Some(2));
    assert_eq!(fifo.pop(), Some(3));
    assert_eq!(fifo.pop(), Some(5));
    assert_eq!(fifo.pop(), None);
}

#[test]
fn cursor_writes_what_fits() {
    let mut cursor = Cursor::new(vec![0; 5]);
    assert_eq!(cursor.write(b""), Ok(0));
    assert_eq!(cursor.write(b"abc"), Ok(3));
    assert_eq!(cursor.write(b"defg"), Ok(2));
    assert_eq!(cursor.position(), 5);
    assert_eq!(cursor.write(b"h"), Ok(0));
    assert_eq!(cursor.into_inner(), b"abcde".to_vec());
}

#[test]
fn fifo_of_one_slot_takes_nothing_and_order_survives_interleaving() {
    let mut one: BoundedAtomicFifo<u32, 1> = BoundedAtomicFifo::new();
    assert_eq!(one.push(7), Err("FIFO is full!"));
    assert_eq!(one.pop(), None);
    let mut fifo: BoundedAtomicFifo<u32, 3> = BoundedAtomicFifo::new();
    assert_eq!(fifo.push(1), Ok(()));
    assert_eq!(fifo.push(2), Ok(()));
    assert_eq!(fifo.pop(), Some(1));
    assert_eq!(fifo.push(3), Ok(()));
    assert_eq!(fifo.push(4), Err("FIFO is full!"));
    assert_eq!(fifo.pop(), Some(2));
    assert_eq!(fifo.pop(), Some(3));
    assert_eq!(fifo.pop(), None);
    assert_eq!(fifo.pop(), None);
}

#[test]
fn ignorer_drops_the_first_bytes() {
    let mut ignorer = Ignorer::ignoring(4, Cursor::new(vec![0; 8]));
    assert_eq!(ignorer.write(b"ab"), Ok(0));
    assert_eq!(ignorer.write(b"cdef"), Ok(2));
    assert_eq!(ignorer.write(b"gh"), Ok(2));
    let cursor = ignorer.into_inner();
    assert_eq!(cursor.position(), 4);
    assert_eq!(cursor.into_inner(), b"efgh\0\0\0\0".to_vec());
    assert_eq!(WriterError::InvalidOffset.message(), "Write operation failed due to an invalid offset");
}

#[test]
fn ignorer_output_does_not_depend_on_how_the_bytes_are_split() {
    let splits: [&[&[u8]]; 4] = [
        &[b"abcdefgh"],
        &[b"a", b"bcd", b"efgh"],
        &[b"abcde", b"", b"fgh"],
        &[b"ab", b"cd", b"ef", b"gh"],
    ];
    for chunks in splits {
        let mut ignorer = Ignorer::ignoring(3, Cursor::new(vec![0; 8]));
        for chunk in chunks {
            ignorer.write(chunk).unwrap();
        }
        let cursor = ignorer.into_inner();
        assert_eq!(cursor.position(), 5);
        assert_eq!(cursor.into_inner(), b"defgh\0\0\0".to_vec());
    }
    // fewer bytes than are to be ignored reach nothing
    let mut ignorer = Ignorer::ignoring(10, Cursor::new(vec![0; 4]));
    assert_eq!(ignorer.write(b"abc"), Ok(0));
    assert_eq!(ignorer.write(b"defg"), Ok(0));
    assert_eq!(ignorer.into_inner().position(), 0);
}

#[test]
fn spinlock_hands_out_the_value_once() {
    let mut lock = Spinlock::new(7u32);
    *lock.lock_spin() += 1;
    assert!(lock.try_lock().is_none());
    lock.unlock();
    let v = lock.try_lock().expect("lock is free");
    assert_eq!(*v, 8);
}

#[test]
fn serial_port_setup_and_test() {
    let port = SerialPort::com1();
    assert_eq!(port.port, 0x3F8);
    let steps = port.setup();
    assert_eq!(steps.len(), 9);
    assert_eq!(steps[0], (0x3F9, 0x00));
    assert_eq!(steps[1], (0x3FB, 0x80));
    assert_eq!(steps[5], (0x3FA, 0xC7));
    assert_eq!(steps[8], (0x3F8, LOOPBACK_TEST_BYTE));
    assert_eq!(port.finish(), vec![(0x3FC, 0x0F), (0x3F9, 0x01)]);
    assert_eq!(port.init_result(0xAE), Ok(()));
    assert_eq!(port.init_result(0x00), Err(Error::InitializationFailed));
    assert_eq!(port.line_status_port(), 0x3FD);
    assert!(SerialPort::transmit_ready(0x20));
    assert!(!SerialPort::transmit_ready(0x01));
    assert!(SerialPort::data_ready(0x01));
    assert_eq!(Error::InitializationFailed.message(), "Serial port initialization failed");
}

#[test]
fn com1_is_usable_only_after_a_passed_test() {
    assert_eq!(com1(0xAE), Ok(SerialPort { port: 0x3F8 }));
    assert_eq!(com1(0xFF), Err(Error::InitializationFailed));
}

#[test]
fn serial_writer_sends_crlf() {
    let writer = SerialPort::com1().writer();
    assert_eq!(writer.encode("a\nb"), b"a\r\nb".to_vec());
    assert_eq!(writer.encode(""), Vec::<u8>::new());
}

#[test]
fn timer_program_for_100_hz() {
    let mut timer = Timer::unprogrammed(Channel::CH0);
    let program = timer.init(100, Channel::CH0, AccessMode::LoHiByte, OperatingMode::SquareWaveGenerator, BCDMode::Binary);
    // 1193180 / 100 = 11931 = 0x2E9B
    assert_eq!(program.command, 0b0011_0110);
    assert_eq!(program.data_port, 0x40);
    assert_eq!(program.divisor_low, 0x9B);
    assert_eq!(program.divisor_high, 0x2E);
    assert_eq!(timer.frequency(), 100);
    assert_eq!(timer.ticks(), 0);
    timer.tick();
    timer.tick();
    assert_eq!(timer.ticks(), 2);
    assert_eq!(timer.sleep_until(1000), 102);
    assert_eq!(timer.sleep_until(15), 3);
    // the product of milliseconds and frequency may pass the range of u64
    assert_eq!(timer.sleep_until(u64::MAX / 10), 2 + u64::MAX / 10 / 1000 * 100 + (u64::MAX / 10 % 1000) * 100 / 1000);
    assert_eq!(timer.counter_reads(), 2);
    assert_eq!(timer.counter(&[0x34, 0x12]), 0x1234);
    assert_eq!(timer.data_port(), 0x40);
}

#[test]
fn timer_on_channel_two_reads_one_byte() {
    let mut timer = Timer::unprogrammed(Channel::CH2);
    let program = timer.init(1000, Channel::CH2, AccessMode::HiByte, OperatingMode::RateGenerator, BCDMode::BCD);
    assert_eq!(program.command, 0b1010_0101);
    assert_eq!(program.data_port, 0x42);
    // 1193180 / 1000 = 1193 = 0x04A9
    assert_eq!((program.divisor_high, program.divisor_low), (0x04, 0xA9));
    assert_eq!(timer.counter_reads(), 1);
    assert_eq!(timer.counter(&[0x12]), 0x1200);
}

fn bcd_registers(second: u8, minute: u8, hour: u8, day: u8, month: u8, year: u8, register_b: u8) -> RtcRegisters {
    RtcRegisters { second, minute, hour, day, month, year, register_b }
}

#[test]
fn rtc_bcd_in_24_hour_mode() {
    let regs = bcd_registers(0x56, 0x34, 0x12, 0x15, 0x03, 0x23, 0x02);
    assert_eq!(decode(regs), (56, 34, 12, 15, 3, 23));
    assert_eq!(timestamp(regs), 1678883696);
    assert_eq!(
        get_time(regs),
        Some(DateTime { year: 2023, month: 3, day: 15, hour: 12, minute: 34, second: 56 })
    );
}

#[test]
fn rtc_pm_hour_in_12_hour_mode() {
    let regs = bcd_registers(0x00, 0x00, 0x81, 0x01, 0x01, 0x00, 0x00);
    assert_eq!(decode(regs).2, 13);
    assert_eq!(
        get_time(regs),
        Some(DateTime { year: 2000, month: 1, day: 1, hour: 13, minute: 0, second: 0 })
    );
}

#[test]
fn rtc_binary_mode_takes_values_as_they_are() {
    let regs = bcd_registers(5, 6, 7, 8, 9, 10, 0x06);
    assert_eq!(decode(regs), (5, 6, 7, 8, 9, 10));
}

#[test]
fn rtc_month_offsets_ignore_leap_years() {
    // 2024 is a leap year, but the offset of March counts 28 days for February.
    let regs = bcd_registers(0x00, 0x00, 0x00, 0x01, 0x03, 0x24, 0x02);
    assert_eq!(
        get_time(regs),
        Some(DateTime { year: 2024, month: 2, day: 29, hour: 0, minute: 0, second: 0 })
    );
}

#[test]
fn rtc_day_zero_gives_no_time() {
    let regs = bcd_registers(0, 0, 0, 0, 1, 0, 0x06);
    assert_eq!(get_time(regs), None);
}

#[test]
fn text_cursor_control_characters() {
    let mut cursor = TextCursor::new();
    cursor.advance();
    cursor.advance();
    assert_eq!((cursor.x, cursor.y), (2, 0));
    cursor.execute(8);
    assert_eq!((cursor.x, cursor.y), (1, 0));
    cursor.execute(b'\n');
    assert_eq!((cursor.x, cursor.y), (0, 1));
    cursor.execute(8);
    assert_eq!(cursor.x, 0);
    cursor.advance();
    cursor.execute(b'\r');
    assert_eq!((cursor.x, cursor.y), (0, 1));
}

#[test]
fn text_cursor_control_sequences() {
    let mut cursor = TextCursor::new();
    assert_eq!(cursor.csi_dispatch('m', &[vec![31]]), Some(false));
    assert_eq!(cursor.fg, Color::red());
    assert_eq!(cursor.csi_dispatch('m', &[vec![46]]), Some(false));
    assert_eq!(cursor.bg, Color::cyan());
    assert_eq!(cursor.csi_dispatch('m', &[vec![0]]), Some(false));
    assert_eq!((cursor.fg, cursor.bg), (Color::white(), Color::black()));
    assert_eq!(cursor.csi_dispatch('H', &[vec![3], vec![7]]), Some(false));
    assert_eq!((cursor.x, cursor.y), (6, 2));
    assert_eq!(cursor.csi_dispatch('J', &[vec![2]]), Some(true));
    assert_eq!((cursor.x, cursor.y), (0, 0));
    let before = cursor;
    assert_eq!(cursor.csi_dispatch('m', &[vec![99]]), None);
    assert_eq!(cursor, before);
    assert_eq!(cursor.csi_dispatch('K', &[]), None);
}

#[test]
fn text_cursor_wraps_and_scrolls() {
    let mut cursor = TextCursor::new();
    cursor.x = 80;
    cursor.y = 24;
    assert_eq!(cursor.place_char(80, 25), 1);
    assert_eq!((cursor.x, cursor.y), (0, 24));
    cursor.x = 3;
    assert_eq!(cursor.place_char(80, 25), 0);
    assert_eq!((cursor.x, cursor.y), (3, 24));
}

#[test]
fn characters_and_glyphs() {
    assert_eq!(char_kind(' '), Some(CharKind::Blank));
    assert_eq!(char_kind('\u{2588}'), Some(CharKind::Block));
    assert_eq!(char_kind('A'), Some(CharKind::Glyph));
    assert_eq!(char_kind('\u{7f}'), None);
    assert_eq!(char_kind('é'), None);
    // glyph 'A' - ' ' = 33: row 1, column 13 of the font image
    assert_eq!(glyph_pixel_index(33, 2, 3), (20 + 3) * 220 + 13 * 11 + 2);
    assert_eq!(glyph_pixel(0, Color::white(), Color::black()), None);
    assert_eq!(glyph_pixel(255, Color::white(), Color::black()), Some(Color::white()));
}

#[test]
fn framebuffer_pixel_bounds() {
    let fb = Framebuffer { width: 640, height: 480, pitch: 80, address: 0x1000_0000 };
    assert_eq!(fb.pixel_index(0, 0), Some(0));
    assert_eq!(fb.pixel_index(10, 2), Some(1290));
    assert_eq!(fb.pixel_index(639, 479), Some(640 * 480 - 1));
    assert_eq!(fb.pixel_index(0, 480), None);
    // a column past the edge lands in the next row, which is still in bounds
    assert_eq!(fb.pixel_index(640, 0), Some(640));
}

/// The calendar date and time of `secs` seconds after the start of 1970,
/// counted in eras of 400 years from 0000-03-01.
fn civil_time(secs: i64) -> (i32, u32, u32, u32, u32, u32) {
    let days = secs / 86400;
    let rest = secs % 86400;
    let z = days + 719468;
    let era = z / 146097;
    let doe = z - era * 146097;
    let yoe = (doe - doe / 1460 + doe / 36524 - doe / 146096) / 365;
    let doy = doe - (365 * yoe + yoe / 4 - yoe / 100);
    let mp = (5 * doy + 2) / 153;
    let day = doy - (153 * mp + 2) / 5 + 1;
    let month = if mp < 10 { mp + 3 } else { mp - 9 };
    let year = yoe + era * 400 + if month <= 2 { 1 } else { 0 };
    (year as i32, month as u32, day as u32, (rest / 3600) as u32, (rest % 3600 / 60) as u32, (rest % 60) as u32)
}

#[test]
#[allow(deprecated)]
fn calendar_dates_agree_with_chrono_up_to_the_year_9999() {
    let mut secs: i64 = 0;
    let mut checked = 0;
    while secs <= LAST_SECOND_OF_9999 {
        let t = chrono::NaiveDateTime::from_timestamp_opt(secs, 0).expect("representable");
        assert_eq!(civil_time(secs), (t.year(), t.month(), t.day(), t.hour(), t.minute(), t.second()), "at {secs}");
        secs += 1_000_003_457;
        checked += 1;
    }
    for secs in [0, 68_169_599, 951_782_400, 951_868_799, 4_107_542_399, LAST_SECOND_OF_9999] {
        let t = chrono::NaiveDateTime::from_timestamp_opt(secs, 0).expect("representable");
        assert_eq!(civil_time(secs), (t.year(), t.month(), t.day(), t.hour(), t.minute(), t.second()), "at {secs}");
    }
    assert!(checked > 200);
    // every day of a leap year and the years around a century
    let mut day: i64 = 10_957;
    while day < 10_957 + 3 * 366 {
        let secs = day * 86400 + 45_296;
        let t = chrono::NaiveDateTime::from_timestamp_opt(secs, 0).expect("representable");
        assert_eq!(civil_time(secs), (t.year(), t.month(), t.day(), t.hour(), t.minute(), t.second()), "at {secs}");
        day += 1;
    }
    let regs = bcd_registers(0x59, 0x59, 0x23, 0x31, 0x12, 0x99, 0x02);
    let t = get_time(regs).unwrap();
    assert_eq!((t.year, t.month, t.day, t.hour, t.minute, t.second), civil_time(timestamp(regs) as i64));
}
