use thoth_cli::ColorKind;
use thoth_cli::StyleAttributes;
use thoth_cli::style::RawHighlightStyle;
use thoth_cli::style::map_raw_style;

fn raw(red: u8, green: u8, blue: u8, font_bits: u8) -> RawHighlightStyle {
    RawHighlightStyle { red, green, blue, font_bits }
}

#[test]
fn test_map_raw_style_rgb_passthrough() {
    let s = map_raw_style(&raw(10, 20, 30, 0));
    assert_eq!(s.fg, ColorKind::Rgb(10, 20, 30));
    assert_eq!(s.bg, ColorKind::Unset);
    assert!(!s.bold && !s.italic && !s.underline);
}

#[test]
fn test_map_raw_style_font_flags() {
    assert!(map_raw_style(&raw(0, 0, 0, 1)).bold);
    assert!(map_raw_style(&raw(0, 0, 0, 2)).underline);
    assert!(map_raw_style(&raw(0, 0, 0, 4)).italic);
    let all = map_raw_style(&raw(0, 0, 0, 7));
    assert!(all.bold && all.italic && all.underline);
}

#[test]
fn test_plain_style_is_unset() {
    let s = StyleAttributes::plain();
    assert_eq!(s.fg, ColorKind::Unset);
    assert_eq!(s.bg, ColorKind::Unset);
    assert!(!s.bold && !s.italic && !s.underline);
}
