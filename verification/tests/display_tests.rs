use chip8::display::Display;

fn lit(d: &Display, x: usize, y: usize) -> bool {
    d.get_dis_buf()[Display::get_ind_from_pos(x, y)] == 1
}

#[test]
fn fresh_display_is_blank() {
    let d = Display::new();
    let buf = d.get_dis_buf();
    assert_eq!(buf.len(), 2048);
    assert!(buf.iter().all(|&p| p == 0));
}

#[test]
fn index_is_row_major() {
    assert_eq!(Display::get_ind_from_pos(0, 0), 0);
    assert_eq!(Display::get_ind_from_pos(63, 0), 63);
    assert_eq!(Display::get_ind_from_pos(0, 1), 64);
    assert_eq!(Display::get_ind_from_pos(63, 31), 2047);
}

#[test]
fn draw_byte_sets_bits_msb_first() {
    let mut d = Display::new();
    let erased = d.draw_byte(0b1010_0000, 4, 2);
    assert!(!erased);
    assert!(lit(&d, 4, 2));
    assert!(!lit(&d, 5, 2));
    assert!(lit(&d, 6, 2));
    assert!(!lit(&d, 7, 2));
    for i in 8..12 {
        assert!(!lit(&d, i, 2));
    }
}

#[test]
fn draw_byte_wraps_columns_at_64() {
    // an 8-bit-wide sprite at x=60: bits 0-3 at columns 60-63,
    // bits 4-7 at columns 0-3 of the same row
    let mut d = Display::new();
    let erased = d.draw_byte(0xFF, 60, 5);
    assert!(!erased);
    for x in 60..64 {
        assert!(lit(&d, x, 5));
    }
    for x in 0..4 {
        assert!(lit(&d, x, 5));
    }
    for x in 4..60 {
        assert!(!lit(&d, x, 5));
    }
    for y in 0..32 {
        if y != 5 {
            for x in 0..64 {
                assert!(!lit(&d, x, y));
            }
        }
    }
}

#[test]
fn draw_byte_wraps_row_at_32() {
    let mut d = Display::new();
    d.draw_byte(0x80, 3, 33);
    assert!(lit(&d, 3, 1));
}

#[test]
fn draw_byte_twice_restores_and_reports_erasure() {
    let mut d = Display::new();
    let first = d.draw_byte(0xA5, 10, 7);
    assert!(!first);
    let second = d.draw_byte(0xA5, 10, 7);
    assert!(second);
    assert!(d.get_dis_buf().iter().all(|&p| p == 0));
}

#[test]
fn overlapping_draw_erases_only_common_bits() {
    let mut d = Display::new();
    d.draw_byte(0b1100_0000, 0, 0);
    let erased = d.draw_byte(0b0110_0000, 0, 0);
    assert!(erased);
    assert!(lit(&d, 0, 0));
    assert!(!lit(&d, 1, 0));
    assert!(lit(&d, 2, 0));
}

#[test]
fn clear_blanks_everything() {
    let mut d = Display::new();
    d.draw_byte(0xFF, 0, 0);
    d.draw_byte(0xFF, 30, 20);
    d.clear();
    assert!(d.get_dis_buf().iter().all(|&p| p == 0));
}
