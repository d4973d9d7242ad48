//! Behavioural tests run against the recording backends: every byte the
//! driver puts on the bus is recorded and compared with the frames the
//! controller protocol demands.

use st7920::{
    clamp_region, compute_address, CountingDelay, Error, FailingBus, FailingDelay, FailingPin,
    RecordingBus, RecordingPin, ST7920,
};

type Driver = ST7920<RecordingBus, RecordingPin, RecordingPin>;

fn new_driver(flip: bool, with_cs: bool) -> Driver {
    let cs = if with_cs { Some(RecordingPin::new()) } else { None };
    ST7920::new(RecordingBus::new(), RecordingPin::new(), cs, flip)
}

fn cmd(v: u8) -> [u8; 3] {
    [0xF8, v & 0xF0, (v << 4) & 0xF0]
}

fn dat(v: u8) -> [u8; 3] {
    [0xFA, v & 0xF0, (v << 4) & 0xF0]
}

fn addr_frames(x: u8, y: u8) -> Vec<u8> {
    let (row, col) = compute_address(x, y);
    let mut out = Vec::new();
    out.extend_from_slice(&cmd(0x80 | row));
    out.extend_from_slice(&cmd(0x80 | col));
    out
}

fn snapshot(d: &Driver) -> Vec<u8> {
    let mut out = Vec::new();
    let mut i = 0;
    while i < 1024 {
        out.push(d.buffer_byte(i));
        i += 1;
    }
    out
}

#[test]
fn compute_address_top_row() {
    for x in [0u8, 15, 16, 20, 127] {
        assert_eq!(compute_address(x, 0), (0, x / 16));
    }
}

#[test]
fn compute_address_bottom_half_offset() {
    for x in [0u8, 15, 16, 20, 127] {
        assert_eq!(compute_address(x, 32), (0, x / 16 + 8));
    }
}

#[test]
fn compute_address_half_boundary() {
    assert_eq!(compute_address(0, 31), (31, 0));
    assert_eq!(compute_address(0, 32), (0, 8));
    assert_eq!(compute_address(127, 31), (31, 7));
    assert_eq!(compute_address(127, 32), (0, 15));
}

#[test]
fn set_pixel_sets_expected_bit() {
    let mut d = new_driver(false, false);
    d.set_pixel(20, 20, 1);
    assert_eq!(d.buffer_byte(20 * 16 + 2), 0x08);
    for i in 0..1024 {
        if i != 322 {
            assert_eq!(d.buffer_byte(i), 0);
        }
    }
}

#[test]
fn set_pixel_flip_mirrors_both_axes() {
    let mut d = new_driver(true, false);
    d.set_pixel(0, 0, 1);
    assert_eq!(d.buffer_byte(63 * 16 + 15), 0x01);
    d.set_pixel(127, 63, 1);
    assert_eq!(d.buffer_byte(0), 0x80);
}

#[test]
fn set_pixel_off_canvas_is_noop() {
    let mut d = new_driver(false, false);
    d.set_pixel(5, 7, 1);
    let before = snapshot(&d);
    d.set_pixel(128, 0, 1);
    d.set_pixel(0, 64, 1);
    d.set_pixel(255, 255, 1);
    assert_eq!(snapshot(&d), before);
}

#[test]
fn set_then_clear_restores_byte() {
    let mut d = new_driver(false, false);
    d.set_pixel(17, 20, 1);
    let before = d.buffer_byte(20 * 16 + 2);
    d.set_pixel(20, 20, 1);
    d.set_pixel(20, 20, 0);
    assert_eq!(d.buffer_byte(20 * 16 + 2), before);
}

#[test]
fn set_pixel_any_nonzero_value_sets() {
    let mut d = new_driver(false, false);
    d.set_pixel_unchecked(9, 3, 0xC7);
    assert_eq!(d.buffer_byte(3 * 16 + 1), 0x40);
    d.set_pixel_unchecked(9, 3, 0);
    assert_eq!(d.buffer_byte(3 * 16 + 1), 0);
}

#[test]
fn clear_buffer_zeroes_all() {
    let mut d = new_driver(false, false);
    d.set_pixel(1, 1, 1);
    d.set_pixel(100, 55, 1);
    d.clear_buffer();
    for i in 0..1024 {
        assert_eq!(d.buffer_byte(i), 0);
    }
    assert!(d.bus().bytes().is_empty());
}

#[test]
fn modify_buffer_applies_pattern() {
    let mut d = new_driver(false, false);
    d.modify_buffer(|x, y, v| if x % 2 == y % 2 { v | 0b1010_1010 } else { v });
    for i in 0..1024usize {
        let col = (i % 16) as u8;
        let row = (i / 16) as u8;
        let expect = if col % 2 == row % 2 { 0b1010_1010 } else { 0 };
        assert_eq!(d.buffer_byte(i), expect);
    }
}

#[test]
fn flush_full_transmits_whole_buffer() {
    let mut d = new_driver(false, false);
    let mut delay = CountingDelay::new();
    d.set_pixel(20, 20, 1);
    d.set_pixel(0, 63, 1);
    d.flush(&mut delay).unwrap();

    let mut expected: Vec<u8> = Vec::new();
    for y in 0u8..32 {
        expected.extend_from_slice(&addr_frames(0, y));
        for x in 0u8..16 {
            expected.extend_from_slice(&dat(d.buffer_byte(y as usize * 16 + x as usize)));
        }
        for x in 0u8..16 {
            expected.extend_from_slice(&dat(d.buffer_byte((y as usize + 32) * 16 + x as usize)));
        }
    }
    assert_eq!(d.bus().bytes(), &expected);
}

#[test]
fn flush_full_twice_identical() {
    let mut d = new_driver(false, false);
    let mut delay = CountingDelay::new();
    d.set_pixel(77, 13, 1);
    d.set_pixel(3, 60, 1);
    d.flush(&mut delay).unwrap();
    let first = d.bus().bytes().clone();
    d.flush(&mut delay).unwrap();
    let both = d.bus().bytes().clone();
    assert_eq!(both.len(), 2 * first.len());
    assert_eq!(&both[..first.len()], &first[..]);
    assert_eq!(&both[first.len()..], &first[..]);
}

#[test]
fn clear_then_flush_sends_all_zero_data() {
    let mut d = new_driver(false, false);
    let mut delay = CountingDelay::new();
    d.set_pixel(50, 33, 1);
    d.clear_buffer();
    d.flush(&mut delay).unwrap();
    let bytes = d.bus().bytes();
    // 32 rows, each 2 addressing frames + 32 data frames of 3 bytes.
    assert_eq!(bytes.len(), 32 * (2 + 32) * 3);
    let mut data_bytes = 0;
    for row in 0..32 {
        let start = row * 34 * 3;
        for frame in 2..34 {
            let f = &bytes[start + frame * 3..start + frame * 3 + 3];
            assert_eq!(f, &[0xFA, 0x00, 0x00][..]);
            data_bytes += 2;
        }
    }
    assert_eq!(data_bytes, 2048);
}

#[test]
fn clear_transmits_cleared_buffer() {
    let mut d = new_driver(false, false);
    let mut delay = CountingDelay::new();
    d.set_pixel(50, 33, 1);
    d.clear(&mut delay).unwrap();
    for i in 0..1024 {
        assert_eq!(d.buffer_byte(i), 0);
    }
    let bytes = d.bus().bytes();
    assert_eq!(bytes.len(), 32 * 34 * 3);
    for row in 0..32 {
        let start = row * 34 * 3;
        for frame in 2..34 {
            assert_eq!(&bytes[start + frame * 3..start + frame * 3 + 3], &[0xFA, 0x00, 0x00][..]);
        }
    }
}

#[test]
fn flush_region_zero_width_noop() {
    let mut d = new_driver(false, true);
    let mut delay = CountingDelay::new();
    assert!(d.flush_region(10, 10, 0, 5, &mut delay).is_ok());
    assert!(d.bus().bytes().is_empty());
    assert_eq!(delay.total_us(), 0);
}

#[test]
fn flush_region_zero_height_noop() {
    let mut d = new_driver(false, true);
    let mut delay = CountingDelay::new();
    assert!(d.flush_region(10, 10, 5, 0, &mut delay).is_ok());
    assert!(d.bus().bytes().is_empty());
    assert_eq!(delay.total_us(), 0);
}

#[test]
fn flush_region_offscreen_noop() {
    let mut d = new_driver(false, false);
    let mut delay = CountingDelay::new();
    assert!(d.flush_region(128, 0, 4, 4, &mut delay).is_ok());
    assert!(d.flush_region(0, 64, 4, 4, &mut delay).is_ok());
    assert!(d.bus().bytes().is_empty());
}

#[test]
fn flush_region_trims_to_edges() {
    let mut d = new_driver(false, false);
    let mut delay = CountingDelay::new();
    d.flush_region(120, 60, 20, 20, &mut delay).unwrap();
    // Trimmed to w = 8, h = 4: rows 60..64, strip 112..128, bytes 14..16.
    let mut expected: Vec<u8> = Vec::new();
    for row in 60u8..64 {
        expected.extend_from_slice(&addr_frames(120, row));
        expected.extend_from_slice(&dat(0));
        expected.extend_from_slice(&dat(0));
    }
    assert_eq!(d.bus().bytes(), &expected);
}

#[test]
fn flush_region_flip_matches_reflected() {
    let pattern = |x: u8, y: u8, v: u8| if (x ^ y) % 3 == 0 { v | 0x5C } else { v ^ 0x21 };
    let mut flipped = new_driver(true, false);
    let mut plain = new_driver(false, false);
    flipped.modify_buffer(pattern);
    plain.modify_buffer(pattern);
    let mut delay = CountingDelay::new();
    flipped.flush_region(10, 5, 30, 20, &mut delay).unwrap();
    // Point reflection of (10, 5, 30, 20): (128-40, 64-25) = (88, 39).
    plain.flush_region(88, 39, 30, 20, &mut delay).unwrap();
    assert_eq!(d_bytes(&flipped), d_bytes(&plain));
}

fn d_bytes(d: &Driver) -> Vec<u8> {
    d.bus().bytes().clone()
}

#[test]
fn flush_region_single_strip_scenario() {
    let mut d = new_driver(false, false);
    let mut delay = CountingDelay::new();
    d.set_pixel(20, 20, 1);
    d.flush_region(16, 16, 16, 16, &mut delay).unwrap();
    let bytes = d.bus().bytes();
    // Rows 16..32, strip 16..32 rounded from x=20: bytes 2..4 per row.
    assert_eq!(bytes.len(), 16 * (2 + 2) * 3);
    // The row-20 stretch: one addressing command (row 20, column address
    // 1), then the data pair for buffer byte 20*16 + 2 = 0x08.
    let start = (20 - 16) * 12;
    assert_eq!(
        &bytes[start..start + 12],
        &[0xF8, 0x90, 0x40, 0xF8, 0x80, 0x10, 0xFA, 0x00, 0x80, 0xFA, 0x00, 0x00][..]
    );
    // Every other data frame carries zero.
    for row in 0..16 {
        if row != 4 {
            let s = row * 12;
            assert_eq!(&bytes[s + 6..s + 12], &[0xFA, 0x00, 0x00, 0xFA, 0x00, 0x00][..]);
        }
    }
}

#[test]
fn init_transmits_mandated_sequence() {
    let mut d = new_driver(false, false);
    let mut delay = CountingDelay::new();
    d.init(&mut delay).unwrap();
    let mut expected: Vec<u8> = Vec::new();
    for op in [0x30u8, 0x0C, 0x01, 0x06, 0x34, 0x36] {
        expected.extend_from_slice(&cmd(op));
    }
    assert_eq!(d.bus().bytes(), &expected);
}

#[test]
fn init_counts_settle_delays() {
    let mut d = new_driver(false, false);
    let mut delay = CountingDelay::new();
    d.init(&mut delay).unwrap();
    assert_eq!(delay.total_us(), 200_400);

    let mut with_cs = new_driver(false, true);
    let mut delay2 = CountingDelay::new();
    with_cs.init(&mut delay2).unwrap();
    assert_eq!(delay2.total_us(), 200_402);
}

#[test]
fn flush_comm_failure_reports_comm() {
    let mut d: ST7920<FailingBus, RecordingPin, RecordingPin> =
        ST7920::new(FailingBus::new(), RecordingPin::new(), None, false);
    let mut delay = CountingDelay::new();
    let r = d.flush(&mut delay);
    assert!(matches!(r, Err(Error::Comm(()))));
}

#[test]
fn init_pin_failure_reports_pin() {
    let mut d: ST7920<RecordingBus, FailingPin, FailingPin> =
        ST7920::new(RecordingBus::new(), FailingPin::new(), None, false);
    let mut delay = CountingDelay::new();
    let r = d.init(&mut delay);
    assert!(matches!(r, Err(Error::Pin(()))));
    assert!(d.bus().bytes().is_empty());
}

#[test]
fn init_delay_failure_reports_delay() {
    let mut d = new_driver(false, false);
    let mut delay = FailingDelay::new();
    let r = d.init(&mut delay);
    assert!(matches!(r, Err(Error::Delay(()))));
}

#[test]
fn clear_buffer_region_clears_inside_only() {
    let mut d = new_driver(false, false);
    let mut delay = CountingDelay::new();
    d.modify_buffer(|_, _, _| 0xFF);
    d.clear_buffer_region(10, 3, 13, 5, &mut delay).unwrap();
    for y in 0u8..64 {
        for x in 0u8..128 {
            let byte = d.buffer_byte(y as usize * 16 + x as usize / 8);
            let on = byte & (0x80 >> (x % 8)) != 0;
            let inside = (10..23).contains(&x) && (3..8).contains(&y);
            assert_eq!(on, !inside, "pixel ({x}, {y})");
        }
    }
    assert!(d.bus().bytes().is_empty());
}

#[test]
fn clear_buffer_region_flip_reflects_rectangle() {
    let mut d = new_driver(true, false);
    let mut delay = CountingDelay::new();
    d.modify_buffer(|_, _, _| 0xFF);
    d.clear_buffer_region(0, 0, 2, 1, &mut delay).unwrap();
    // Point-reflected: raw pixels (126..128, 63).
    for y in 0u8..64 {
        for x in 0u8..128 {
            let byte = d.buffer_byte(y as usize * 16 + x as usize / 8);
            let on = byte & (0x80 >> (x % 8)) != 0;
            let inside = y == 63 && x >= 126;
            assert_eq!(on, !inside, "pixel ({x}, {y})");
        }
    }
}

#[test]
fn clear_buffer_region_offscreen_noop() {
    let mut d = new_driver(false, false);
    let mut delay = CountingDelay::new();
    d.modify_buffer(|_, _, _| 0xFF);
    let before = snapshot(&d);
    d.clear_buffer_region(128, 0, 4, 4, &mut delay).unwrap();
    d.clear_buffer_region(0, 64, 4, 4, &mut delay).unwrap();
    d.clear_buffer_region(5, 5, 0, 4, &mut delay).unwrap();
    d.clear_buffer_region(5, 5, 4, 0, &mut delay).unwrap();
    assert_eq!(snapshot(&d), before);
}

#[test]
fn clamp_region_negative_origin() {
    assert_eq!(clamp_region(-5, -3, 20, 10), (0, 0, 15, 7));
    assert_eq!(clamp_region(-30, 0, 20, 10), (0, 0, 0, 10));
}

#[test]
fn clamp_region_caps_extents() {
    assert_eq!(clamp_region(300, 2, 500, 9), (255, 2, 255, 9));
    assert_eq!(clamp_region(i32::MIN, i32::MAX, u32::MAX, 0), (0, 255, 255, 0));
}

#[test]
fn flush_region_graphics_trims_and_flushes() {
    let mut d = new_driver(false, false);
    let mut delay = CountingDelay::new();
    d.set_pixel(0, 0, 1);
    d.flush_region_graphics(-8, -1, 10, 3, &mut delay).unwrap();
    // Trimmed to (0, 0, 2, 2): strip 0..16, rows 0..2.
    let mut expected: Vec<u8> = Vec::new();
    for row in 0u8..2 {
        expected.extend_from_slice(&addr_frames(0, row));
        expected.extend_from_slice(&dat(if row == 0 { 0x80 } else { 0 }));
        expected.extend_from_slice(&dat(0));
    }
    assert_eq!(d.bus().bytes(), &expected);
}

#[test]
fn flush_uses_chip_select_delays() {
    let mut d = new_driver(false, true);
    let mut delay = CountingDelay::new();
    d.flush(&mut delay).unwrap();
    assert_eq!(delay.total_us(), 2);
}
