use iced::Color;
use rime::theme::{hex_string, parse_hex, str_eq, HexColor, Palette, ThemeChoice, PALETTE_KEYS};

fn dracula() -> Palette {
    Palette {
        bg: Color::from_rgb(0.157, 0.165, 0.212),
        surface: Color::from_rgb(0.227, 0.235, 0.31),
        ink: Color::from_rgb(0.973, 0.973, 0.949),
        muted: Color::from_rgb(0.541, 0.6, 0.769),
        hairline: Color::from_rgb(0.30, 0.31, 0.40),
        accent: Color::from_rgb(0.741, 0.576, 0.976),
        success: Color::from_rgb(0.314, 0.98, 0.482),
        warn: Color::from_rgb(1.0, 0.722, 0.424),
        danger: Color::from_rgb(1.0, 0.333, 0.333),
    }
}

fn round_trip(hex: &str) -> String {
    let c = parse_hex(hex).expect("valid hex parses");
    hex_string(c.r, c.g, c.b, c.a.unwrap_or(255))
}

#[test]
fn mod_theme_choice_toggles() {
    assert_eq!(ThemeChoice::Dark.toggled(), ThemeChoice::Light);
    assert_eq!(ThemeChoice::Light.toggled(), ThemeChoice::Dark);
    assert_eq!(ThemeChoice::default(), ThemeChoice::Dark);
}

#[test]
fn mod_tests_theme_choice_toggles() {
    assert_eq!(ThemeChoice::Dark.toggled(), ThemeChoice::Light);
    assert_eq!(ThemeChoice::Light.toggled(), ThemeChoice::Dark);
    assert_eq!(ThemeChoice::default(), ThemeChoice::Dark);
}

#[test]
fn color_round_trips_through_hex() {
    for hex in ["#000000", "#ffffff", "#3b4252", "#ff8800", "#12345678"] {
        assert_eq!(round_trip(hex), hex, "{hex} should round-trip");
    }
    assert_eq!(round_trip("#ABCDEF"), "#abcdef");
    assert_eq!(round_trip("#11223344"), "#11223344");
    for bad in ["abcdef", "#fff", "#gggggg", "#12345", "", "#"] {
        assert!(parse_hex(bad).is_none(), "{bad:?} should not parse");
    }
}

#[test]
fn palette_tokens_read_and_write_by_key() {
    assert_eq!(PALETTE_KEYS.len(), 9);
    let unique: std::collections::HashSet<_> = PALETTE_KEYS.iter().collect();
    assert_eq!(unique.len(), 9, "palette keys must be unique");

    let palette = dracula();
    for &key in PALETTE_KEYS.iter() {
        assert!(palette.color(key).is_some(), "{key} should resolve");
    }
    assert!(palette.color("nope").is_none());

    let mut p = dracula();
    let marker = Color::from_rgb8(0xab, 0xcd, 0xef);
    for &key in PALETTE_KEYS.iter() {
        p.set(key, marker);
        assert_eq!(p.color(key), Some(marker), "{key} should read back what was set");
    }
    let before = p;
    p.set("nope", Color::BLACK);
    assert_eq!(p.color("bg"), before.color("bg"), "unknown key must not write");
}

#[test]
fn palette_reads_each_field_by_its_key() {
    let p = dracula();
    assert_eq!(p.color("bg"), Some(p.bg));
    assert_eq!(p.color("surface"), Some(p.surface));
    assert_eq!(p.color("ink"), Some(p.ink));
    assert_eq!(p.color("muted"), Some(p.muted));
    assert_eq!(p.color("hairline"), Some(p.hairline));
    assert_eq!(p.color("accent"), Some(p.accent));
    assert_eq!(p.color("success"), Some(p.success));
    assert_eq!(p.color("warn"), Some(p.warn));
    assert_eq!(p.color("danger"), Some(p.danger));
    assert!(p.color("BG").is_none());
    assert!(p.color("").is_none());
}

#[test]
fn setting_one_token_leaves_the_others() {
    let mut p = dracula();
    p.set("accent", Color::BLACK);
    assert_eq!(p.accent, Color::BLACK);
    assert_eq!(p.bg, dracula().bg);
    assert_eq!(p.danger, dracula().danger);
}

#[test]
fn saved_choice_reads_back() {
    assert_eq!(ThemeChoice::Dark.saved_text(), "dark");
    assert_eq!(ThemeChoice::Light.saved_text(), "light");
    for c in [ThemeChoice::Dark, ThemeChoice::Light] {
        assert_eq!(ThemeChoice::from_saved(c.saved_text()), c);
    }
}

#[test]
fn saved_text_other_than_light_reads_as_dark() {
    assert_eq!(ThemeChoice::from_saved(""), ThemeChoice::Dark);
    assert_eq!(ThemeChoice::from_saved("  light\n"), ThemeChoice::Light);
    assert_eq!(ThemeChoice::from_saved("\tlight"), ThemeChoice::Light);
    assert_eq!(ThemeChoice::from_saved("Light"), ThemeChoice::Dark);
    assert_eq!(ThemeChoice::from_saved("lights"), ThemeChoice::Dark);
    assert_eq!(ThemeChoice::from_saved("li ght"), ThemeChoice::Dark);
    assert_eq!(ThemeChoice::from_saved("garbage"), ThemeChoice::Dark);
}

#[test]
fn hex_parses_the_channel_bytes() {
    assert_eq!(
        parse_hex("#3b4252"),
        Some(HexColor { r: 0x3b, g: 0x42, b: 0x52, a: None })
    );
    assert_eq!(
        parse_hex("#12345678"),
        Some(HexColor { r: 0x12, g: 0x34, b: 0x56, a: Some(0x78) })
    );
    assert_eq!(
        parse_hex("#AbCdEf"),
        Some(HexColor { r: 0xab, g: 0xcd, b: 0xef, a: None })
    );
    // A sign is not a hex digit: such a field is rejected, not guessed.
    assert!(parse_hex("#+f0000").is_none());
    assert!(parse_hex("#+f+f+f").is_none());
    assert!(parse_hex("#-f0000").is_none());
    assert!(parse_hex("#f+0000").is_none());
    assert!(parse_hex("#ffffffff0").is_none());
    assert!(parse_hex("#ffé000").is_none());
}

#[test]
fn hex_formats_opaque_without_alpha() {
    assert_eq!(hex_string(0, 0, 0, 255), "#000000");
    assert_eq!(hex_string(0xab, 0xcd, 0xef, 255), "#abcdef");
    assert_eq!(hex_string(0x11, 0x22, 0x33, 0x44), "#11223344");
    assert_eq!(hex_string(1, 2, 3, 0), "#01020300");
}

#[test]
fn strings_compare_by_their_characters() {
    assert!(str_eq("bg", "bg"));
    assert!(!str_eq("bg", "b"));
    assert!(!str_eq("bg", "BG"));
    assert!(str_eq("", ""));
}

#[test]
fn upper_case_hex_formats_back_in_lower_case() {
    assert_eq!(round_trip("#ABCDEF"), "#abcdef");
    assert_eq!(round_trip("#AbCdEf80"), "#abcdef80");
    assert_eq!(round_trip("#123456FF"), "#123456");
}
