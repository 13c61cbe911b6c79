use iced::Color;
use rime::bit_grid::{band_color, band_of, bit_slots, cell_tint, BitBand, BitSlot};
use BitSlot::{Bit, Gap};
use rime::theme::Palette;

#[test]
fn band_of_finds_the_containing_range() {
    let bands = [
        BitBand::new("lo", 0, 4), // bits 0..=3
        BitBand::new("hi", 4, 4), // bits 4..=7
    ];
    assert_eq!(band_of(&bands, 0), Some(0));
    assert_eq!(band_of(&bands, 3), Some(0));
    assert_eq!(band_of(&bands, 4), Some(1));
    assert_eq!(band_of(&bands, 7), Some(1));
}

#[test]
fn band_of_is_none_outside_every_range() {
    let bands = [BitBand::new("mid", 2, 3)]; // bits 2..=4
    assert_eq!(band_of(&bands, 1), None);
    assert_eq!(band_of(&bands, 5), None);
    assert_eq!(band_of(&[], 0), None);
}

#[test]
fn band_of_takes_the_first_overlapping_range() {
    let bands = [BitBand::new("a", 0, 8), BitBand::new("b", 4, 4)];
    // Bit 5 is in both; the first wins.
    assert_eq!(band_of(&bands, 5), Some(0));
}

#[test]
fn high_low_reports_inclusive_bounds() {
    assert_eq!(BitBand::new("byte", 0, 8).high_low(), (7, 0));
    assert_eq!(BitBand::new("nibble", 4, 4).high_low(), (7, 4));
    // A one-bit field is [n:n].
    assert_eq!(BitBand::new("flag", 6, 1).high_low(), (6, 6));
    // A zero-length field degrades to [start:start].
    assert_eq!(BitBand::new("empty", 3, 0).high_low(), (3, 3));
}

fn palette() -> Palette {
    let c = iced::Color::from_rgb8;
    Palette {
        bg: c(1, 1, 1),
        surface: c(2, 2, 2),
        ink: c(3, 3, 3),
        muted: c(4, 4, 4),
        hairline: c(5, 5, 5),
        accent: c(6, 6, 6),
        success: c(7, 7, 7),
        warn: c(8, 8, 8),
        danger: c(9, 9, 9),
    }
}

#[test]
fn band_colors_rotate_through_the_palette_unless_set() {
    let p = palette();
    let red = iced::Color::from_rgb8(255, 0, 0);
    let bands = vec![
        BitBand::new("a", 0, 1),
        BitBand::new("b", 1, 1),
        BitBand::new("c", 2, 1).color(red),
        BitBand::new("d", 3, 1),
        BitBand::new("e", 4, 1),
    ];
    assert_eq!(band_color(&bands, 0, &p), p.accent);
    assert_eq!(band_color(&bands, 1, &p), p.success);
    assert_eq!(band_color(&bands, 2, &p), red);
    assert_eq!(band_color(&bands, 3, &p), p.danger);
    assert_eq!(band_color(&bands, 4, &p), p.accent);
}

#[test]
fn the_row_runs_high_to_low_with_nibble_gaps() {
    assert_eq!(bit_slots(0), vec![]);
    assert_eq!(bit_slots(3), vec![Bit(2), Bit(1), Bit(0)]);
    assert_eq!(
        bit_slots(8),
        vec![Bit(7), Bit(6), Bit(5), Bit(4), Gap, Bit(3), Bit(2), Bit(1), Bit(0)]
    );
    assert_eq!(
        bit_slots(6),
        vec![Bit(5), Bit(4), Gap, Bit(3), Bit(2), Bit(1), Bit(0)]
    );
}

#[test]
fn a_set_bit_lights_in_its_band_tint_or_the_accent() {
    let p = palette();
    let red = Color::from_rgb(1.0, 0.0, 0.0);
    let bands = vec![BitBand::new("lo", 0, 4).color(red), BitBand::new("hi", 4, 4)];
    assert_eq!(cell_tint(&bands, 2, &p), red);
    assert_eq!(cell_tint(&bands, 5, &p), p.success);
    assert_eq!(cell_tint(&bands, 9, &p), p.accent);
}
