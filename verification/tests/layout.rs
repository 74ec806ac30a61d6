use zavora_slide::layout::{Color, DashStyle};
use zavora_slide::preset_geometry::unit_path_for;

#[test]
fn hex_parsing() {
    assert_eq!(Color::from_hex("#FF0000"), Some(Color { r: 255, g: 0, b: 0 }));
    assert_eq!(Color::from_hex("00ff00"), Some(Color { r: 0, g: 255, b: 0 }));
    assert_eq!(Color::from_hex("xyz"), None);
}

#[test]
fn dash_style_mapping_all_variants() {
    let styles = [
        (DashStyle::Solid, None),
        (DashStyle::Dot, Some("1 1")),
        (DashStyle::Dash, Some("4 3")),
        (DashStyle::LgDash, Some("8 3")),
        (DashStyle::DashDot, Some("4 3 1 3")),
        (DashStyle::LgDashDot, Some("8 3 1 3")),
        (DashStyle::LgDashDotDot, Some("8 3 1 3 1 3")),
        (DashStyle::SysDot, Some("1 1")),
        (DashStyle::SysDash, Some("3 1")),
        (DashStyle::SysDashDot, Some("3 1 1 1")),
        (DashStyle::SysDashDotDot, Some("3 1 1 1 1 1")),
    ];
    for (style, expected) in &styles {
        assert_eq!(style.to_svg_dasharray(), *expected, "mismatch for {style:?}");
    }
}

#[test]
fn hex_parsing_edge_cases() {
    assert_eq!(Color::from_hex("##0a0B0c"), Some(Color { r: 10, g: 11, b: 12 }));
    assert_eq!(Color::from_hex("+F+F+F"), None);
    assert_eq!(Color::from_hex("+1+2+3"), None);
    assert_eq!(Color::from_hex("#FF0000"), Some(Color { r: 255, g: 0, b: 0 }));
    assert_eq!(Color::from_hex("00ff00"), Some(Color { r: 0, g: 255, b: 0 }));
    assert_eq!(Color::from_hex("xyz"), None);
    assert_eq!(Color::from_hex("é12345"), None);
    assert_eq!(Color::from_hex("12é345"), None);
    assert_eq!(Color::from_hex("-00000"), None);
    assert_eq!(Color::from_hex("1234567"), None);
    assert_eq!(Color::from_hex(""), None);
    assert_eq!(Color::black(), Color { r: 0, g: 0, b: 0 });
    assert_eq!(Color::white(), Color { r: 255, g: 255, b: 255 });
}

#[test]
fn dash_style_parses_names_and_defaults_to_solid() {
    assert_eq!(DashStyle::from_prstml("sysDashDotDot"), DashStyle::SysDashDotDot);
    assert_eq!(DashStyle::from_prstml("lgDash"), DashStyle::LgDash);
    assert_eq!(DashStyle::from_prstml("dot"), DashStyle::Dot);
    assert_eq!(DashStyle::from_prstml("wavy"), DashStyle::Solid);
    assert_eq!(DashStyle::from_prstml(""), DashStyle::Solid);
}

#[test]
fn unit_outlines_of_presets() {
    assert_eq!(unit_path_for("rect"), Some("M0,0 L1,0 L1,1 L0,1 Z"));
    assert_eq!(unit_path_for("isosTriangle"), unit_path_for("triangle"));
    assert_eq!(unit_path_for("rightArrow"), unit_path_for("arrow"));
    assert_eq!(unit_path_for("bogusShape"), None);
    for name in zavora_slide::preset_geometry::common_presets() {
        assert!(unit_path_for(name).is_some(), "{name}");
    }
}
