use chip8::display::Display;
use chip8::screen::Screen;

fn lit_pixels(screen: &Screen) -> Vec<(usize, usize)> {
    let mut lit = Vec::new();
    for y in 0..32 {
        for x in 0..64 {
            if screen.pixels[y][x] == 1 {
                lit.push((x, y));
            }
        }
    }
    lit
}

#[test]
fn draw_byte_sets_eight_pixels() {
    let mut screen = Screen::new();
    let erased = screen.draw_byte(8, 3, 0xFF).unwrap();
    assert!(!erased);
    assert_eq!(
        lit_pixels(&screen),
        (8..16).map(|x| (x, 3)).collect::<Vec<_>>()
    );
}

#[test]
fn draw_byte_leftmost_bit_lands_leftmost() {
    let mut screen = Screen::new();
    screen.draw_byte(0, 0, 0b1000_0001).unwrap();
    assert_eq!(lit_pixels(&screen), vec![(0, 0), (7, 0)]);
}

#[test]
fn sprite_wraps_at_right_edge() {
    let mut screen = Screen::new();
    screen.draw_byte(60, 0, 0xFF).unwrap();
    let mut expected = vec![(0, 0), (1, 0), (2, 0), (3, 0)];
    expected.extend([(60, 0), (61, 0), (62, 0), (63, 0)]);
    assert_eq!(lit_pixels(&screen), expected);
}

#[test]
fn coordinates_wrap_before_drawing() {
    let mut screen = Screen::new();
    // Column 64 is column 0, row 32 is row 0.
    screen.draw_byte(64, 32, 0x80).unwrap();
    assert_eq!(lit_pixels(&screen), vec![(0, 0)]);
}

#[test]
fn double_draw_restores_screen_and_reports_erasure() {
    let mut screen = Screen::new();
    screen.draw_byte(5, 7, 0xA5).unwrap();
    let lit_before = lit_pixels(&screen);
    assert!(!lit_before.is_empty());
    // Drawing the same byte again erases exactly what the first draw lit.
    let erased = screen.draw_byte(5, 7, 0xA5).unwrap();
    assert!(erased);
    assert_eq!(lit_pixels(&screen), vec![]);
}

#[test]
fn collision_only_where_set_bits_overlap() {
    let mut screen = Screen::new();
    screen.draw_byte(0, 0, 0b1111_0000).unwrap();
    // Disjoint bits: no erasure.
    let erased = screen.draw_byte(0, 0, 0b0000_1111).unwrap();
    assert!(!erased);
    // Overlapping bit: erasure reported.
    let erased = screen.draw_byte(0, 0, 0b1000_0000).unwrap();
    assert!(erased);
}

#[test]
fn clear_darkens_every_pixel() {
    let mut screen = Screen::new();
    screen.draw_byte(10, 10, 0xFF).unwrap();
    screen.clear();
    assert_eq!(lit_pixels(&screen), vec![]);
}

#[test]
fn display_draw_byte_and_clear() {
    let mut d = Display::new();
    let erased = d.draw_byte(60, 0, 0xFF).unwrap();
    assert!(!erased);
    for c in [60usize, 61, 62, 63, 0, 1, 2, 3] {
        assert_eq!(d.screen[c], 1, "column {c}");
    }
    assert_eq!(d.screen[4], 0);
    let erased = d.draw_byte(60, 0, 0xFF).unwrap();
    assert!(erased);
    assert!(d.screen.iter().all(|&p| p == 0));
    d.draw_byte(0, 31, 0x80).unwrap();
    assert_eq!(d.screen[31 * 64], 1);
    d.clear();
    assert!(d.screen.iter().all(|&p| p == 0));
}

#[test]
fn display_index_is_row_major() {
    assert_eq!(Display::get_index_from_coords(0, 0), 0);
    assert_eq!(Display::get_index_from_coords(63, 0), 63);
    assert_eq!(Display::get_index_from_coords(0, 1), 64);
    assert_eq!(Display::get_index_from_coords(63, 31), 2047);
}

#[test]
fn color_screen_maps_lit_to_white() {
    let mut d = Display::new();
    d.draw_byte(0, 0, 0x80).unwrap();
    let colors = d.color_screen();
    assert_eq!(colors.len(), 2048);
    assert_eq!(colors[0], 0xffffff);
    assert!(colors[1..].iter().all(|&c| c == 0));
}
