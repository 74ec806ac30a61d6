use zavora_slide::layout::Color;
use zavora_slide::scheme_color::SchemeColor;
use zavora_slide::theme_resolver::{ColorMap, ThemeColorScheme, ThemeFontScheme};

#[test]
fn office_default_dk1_is_black() {
    let scheme = ThemeColorScheme::office_default();
    assert_eq!(scheme.resolve(SchemeColor::Dk1), Color::black());
}

#[test]
fn office_default_lt1_is_white() {
    let scheme = ThemeColorScheme::office_default();
    assert_eq!(scheme.resolve(SchemeColor::Lt1), Color::white());
}

#[test]
fn office_default_accents_match_theme_xml() {
    let scheme = ThemeColorScheme::office_default();
    assert_eq!(scheme.resolve(SchemeColor::Accent1), Color::from_hex("4F81BD").unwrap());
    assert_eq!(scheme.resolve(SchemeColor::Accent2), Color::from_hex("C0504D").unwrap());
    assert_eq!(scheme.resolve(SchemeColor::Accent3), Color::from_hex("9BBB59").unwrap());
    assert_eq!(scheme.resolve(SchemeColor::Accent4), Color::from_hex("8064A2").unwrap());
    assert_eq!(scheme.resolve(SchemeColor::Accent5), Color::from_hex("4BACC6").unwrap());
    assert_eq!(scheme.resolve(SchemeColor::Accent6), Color::from_hex("F79646").unwrap());
}

#[test]
fn office_default_hlink_colors() {
    let scheme = ThemeColorScheme::office_default();
    assert_eq!(scheme.resolve(SchemeColor::Hlink), Color::from_hex("0000FF").unwrap());
    assert_eq!(scheme.resolve(SchemeColor::FolHlink), Color::from_hex("800080").unwrap());
}

#[test]
fn resolve_all_variants_does_not_panic() {
    let scheme = ThemeColorScheme::office_default();
    for sc in SchemeColor::ALL {
        let _color = scheme.resolve(sc);
    }
}

#[test]
fn from_hex_constructs_custom_scheme() {
    let scheme = ThemeColorScheme::from_hex(
        "111111", "222222", "333333", "444444", "555555", "666666", "777777", "888888", "999999",
        "AAAAAA", "BBBBBB", "CCCCCC",
    )
    .unwrap();
    assert_eq!(scheme.resolve(SchemeColor::Dk1), Color::from_hex("111111").unwrap());
    assert_eq!(scheme.resolve(SchemeColor::FolHlink), Color::from_hex("CCCCCC").unwrap());
}

#[test]
fn from_hex_returns_none_on_invalid() {
    let result = ThemeColorScheme::from_hex(
        "ZZZZZZ", "222222", "333333", "444444", "555555", "666666", "777777", "888888", "999999",
        "AAAAAA", "BBBBBB", "CCCCCC",
    );
    assert!(result.is_none());
}

#[test]
fn resolve_by_name_valid() {
    let scheme = ThemeColorScheme::office_default();
    assert_eq!(scheme.resolve_by_name("accent1"), Some(Color::from_hex("4F81BD").unwrap()));
    assert_eq!(scheme.resolve_by_name("dk1"), Some(Color::black()));
    assert_eq!(scheme.resolve_by_name("folHlink"), Some(Color::from_hex("800080").unwrap()));
}

#[test]
fn resolve_by_name_invalid() {
    let scheme = ThemeColorScheme::office_default();
    assert_eq!(scheme.resolve_by_name("unknown"), None);
    assert_eq!(scheme.resolve_by_name(""), None);
}

#[test]
fn custom_scheme_overrides_defaults() {
    let scheme = ThemeColorScheme::from_hex(
        "000000", "1F497D", "FFFFFF", "EEECE1", "FF0000", "C0504D", "9BBB59", "8064A2", "4BACC6",
        "F79646", "0000FF", "800080",
    )
    .unwrap();
    assert_eq!(scheme.resolve(SchemeColor::Accent1), Color { r: 255, g: 0, b: 0 });
}

#[test]
fn font_scheme_office_default() {
    let fonts = ThemeFontScheme::office_default();
    assert_eq!(fonts.major_latin, "Calibri");
    assert_eq!(fonts.minor_latin, "Calibri");
}

#[test]
fn font_scheme_custom() {
    let fonts = ThemeFontScheme::new("Calibri Light", "Calibri");
    assert_eq!(fonts.major_latin, "Calibri Light");
    assert_eq!(fonts.minor_latin, "Calibri");
}

#[test]
fn resolve_font_ref_major() {
    let fonts = ThemeFontScheme::new("Calibri Light", "Calibri");
    assert_eq!(fonts.resolve_font_ref("+mj-lt"), Some("Calibri Light"));
}

#[test]
fn resolve_font_ref_minor() {
    let fonts = ThemeFontScheme::new("Calibri Light", "Calibri");
    assert_eq!(fonts.resolve_font_ref("+mn-lt"), Some("Calibri"));
}

#[test]
fn resolve_font_ref_unknown_returns_none() {
    let fonts = ThemeFontScheme::office_default();
    assert_eq!(fonts.resolve_font_ref("Arial"), None);
    assert_eq!(fonts.resolve_font_ref("+mj-ea"), None);
    assert_eq!(fonts.resolve_font_ref(""), None);
}

#[test]
fn color_map_identity_is_passthrough() {
    let map = ColorMap::identity();
    for sc in SchemeColor::ALL {
        assert_eq!(map.remap(sc), sc);
    }
}

#[test]
fn color_map_override_dk1_to_dk2() {
    let mut map = ColorMap::identity();
    assert!(map.set("dk1", SchemeColor::Dk2));
    assert_eq!(map.remap(SchemeColor::Dk1), SchemeColor::Dk2);
    assert_eq!(map.remap(SchemeColor::Lt1), SchemeColor::Lt1);
    assert_eq!(map.remap(SchemeColor::Accent1), SchemeColor::Accent1);
}

#[test]
fn color_map_set_unknown_returns_false() {
    let mut map = ColorMap::identity();
    assert!(!map.set("unknown", SchemeColor::Dk1));
    assert!(!map.set("", SchemeColor::Dk1));
}

#[test]
fn color_map_multiple_overrides() {
    let mut map = ColorMap::identity();
    map.set("dk1", SchemeColor::Dk2);
    map.set("lt1", SchemeColor::Lt2);
    map.set("accent1", SchemeColor::Accent6);
    assert_eq!(map.remap(SchemeColor::Dk1), SchemeColor::Dk2);
    assert_eq!(map.remap(SchemeColor::Lt1), SchemeColor::Lt2);
    assert_eq!(map.remap(SchemeColor::Accent1), SchemeColor::Accent6);
}

#[test]
fn color_map_with_scheme_resolution() {
    let scheme = ThemeColorScheme::office_default();
    let mut map = ColorMap::identity();
    map.set("dk1", SchemeColor::Dk2);
    let remapped = map.remap(SchemeColor::Dk1);
    let color = scheme.resolve(remapped);
    assert_eq!(color, Color::from_hex("1F497D").unwrap());
}

#[test]
fn color_map_set_all_slots() {
    let mut map = ColorMap::identity();
    assert!(map.set("dk1", SchemeColor::Lt1));
    assert!(map.set("dk2", SchemeColor::Lt2));
    assert!(map.set("lt1", SchemeColor::Dk1));
    assert!(map.set("lt2", SchemeColor::Dk2));
    assert!(map.set("accent1", SchemeColor::Accent2));
    assert!(map.set("accent2", SchemeColor::Accent3));
    assert!(map.set("accent3", SchemeColor::Accent4));
    assert!(map.set("accent4", SchemeColor::Accent5));
    assert!(map.set("accent5", SchemeColor::Accent6));
    assert!(map.set("accent6", SchemeColor::Accent1));
    assert!(map.set("hlink", SchemeColor::FolHlink));
    assert!(map.set("folHlink", SchemeColor::Hlink));
    assert_eq!(map.remap(SchemeColor::Dk1), SchemeColor::Lt1);
    assert_eq!(map.remap(SchemeColor::Hlink), SchemeColor::FolHlink);
}
