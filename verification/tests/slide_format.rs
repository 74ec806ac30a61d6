use zavora_slide::scheme_color::SchemeColor;
use zavora_slide::slide_dom::{ColorSpec, FillSpec, RunFormat, SlideDom};

const FILL_SLIDE: &[u8] = br#"<?xml version="1.0" encoding="UTF-8" standalone="yes"?>
<p:sld xmlns:a="http://schemas.openxmlformats.org/drawingml/2006/main" xmlns:r="http://schemas.openxmlformats.org/officeDocument/2006/relationships" xmlns:p="http://schemas.openxmlformats.org/presentationml/2006/main"><p:cSld><p:spTree><p:sp><p:nvSpPr><p:cNvPr id="2" name="Shape 1"/><p:cNvSpPr/><p:nvPr/></p:nvSpPr><p:spPr><a:xfrm><a:off x="0" y="0"/><a:ext cx="100" cy="100"/></a:xfrm><a:prstGeom prst="rect"><a:avLst/></a:prstGeom><a:solidFill><a:srgbClr val="0000FF"/></a:solidFill></p:spPr><p:txBody><a:bodyPr/><a:lstStyle/><a:p><a:r><a:t>Hello</a:t></a:r></a:p></p:txBody></p:sp><p:sp><p:nvSpPr><p:cNvPr id="3" name="Shape 2"/><p:cNvSpPr/><p:nvPr/></p:nvSpPr><p:spPr><a:xfrm><a:off x="200" y="200"/><a:ext cx="300" cy="300"/></a:xfrm><a:prstGeom prst="ellipse"><a:avLst/></a:prstGeom></p:spPr><p:txBody><a:bodyPr/><a:lstStyle/><a:p><a:r><a:t>World</a:t></a:r></a:p></p:txBody></p:sp></p:spTree></p:cSld></p:sld>"#;

const MULTI_RUN_SLIDE: &[u8] = br#"<?xml version="1.0" encoding="UTF-8" standalone="yes"?>
<p:sld xmlns:a="http://schemas.openxmlformats.org/drawingml/2006/main" xmlns:p="http://schemas.openxmlformats.org/presentationml/2006/main"><p:cSld><p:spTree><p:sp><p:nvSpPr><p:cNvPr id="2" name="Shape 1"/><p:cNvSpPr/><p:nvPr/></p:nvSpPr><p:spPr/><p:txBody><a:bodyPr/><a:lstStyle/><a:p><a:r><a:rPr lang="en-US" b="1" sz="2400"/><a:t>Hello</a:t></a:r><a:r><a:rPr lang="en-US" i="1" sz="1800"/><a:t> World</a:t></a:r></a:p></p:txBody></p:sp></p:spTree></p:cSld></p:sld>"#;

const SLIDE: &[u8] = br#"<?xml version="1.0" encoding="UTF-8" standalone="yes"?>
<p:sld xmlns:a="http://schemas.openxmlformats.org/drawingml/2006/main" xmlns:p="http://schemas.openxmlformats.org/presentationml/2006/main"><p:cSld><p:spTree><p:sp><p:nvSpPr><p:cNvPr id="2" name="Title 1"/><p:cNvSpPr><a:spLocks noGrp="1"/></p:cNvSpPr><p:nvPr><p:ph type="title"/></p:nvPr></p:nvSpPr><p:spPr/><p:txBody><a:bodyPr/><a:lstStyle/><a:p><a:r><a:rPr lang="en-US" b="1"/><a:t>Old Title</a:t></a:r></a:p></p:txBody></p:sp><p:sp><p:nvSpPr><p:cNvPr id="3" name="Body 2"/><p:cNvSpPr><a:spLocks noGrp="1"/></p:cNvSpPr><p:nvPr><p:ph type="body" idx="1"/></p:nvPr></p:nvSpPr><p:spPr/><p:txBody><a:bodyPr/><a:lstStyle/><a:p><a:r><a:t>Bullet one</a:t></a:r></a:p><a:p><a:r><a:t>Bullet two</a:t></a:r></a:p></p:txBody></p:sp></p:spTree></p:cSld></p:sld>"#;

const TABLE_SLIDE: &[u8] = br#"<?xml version="1.0" encoding="UTF-8" standalone="yes"?>
<p:sld xmlns:a="http://schemas.openxmlformats.org/drawingml/2006/main" xmlns:p="http://schemas.openxmlformats.org/presentationml/2006/main"><p:cSld><p:spTree><p:sp><p:nvSpPr><p:cNvPr id="2" name="Title 1"/><p:cNvSpPr/><p:nvPr><p:ph type="title"/></p:nvPr></p:nvSpPr><p:spPr/><p:txBody><a:bodyPr/><a:lstStyle/><a:p><a:r><a:t>Slide Title</a:t></a:r></a:p></p:txBody></p:sp><p:graphicFrame><p:nvGraphicFramePr><p:cNvPr id="4" name="Table 3"/><p:cNvGraphicFramePr/><p:nvPr/></p:nvGraphicFramePr><p:xfrm><a:off x="100" y="200"/><a:ext cx="5000" cy="3000"/></p:xfrm><a:graphic><a:graphicData uri="http://schemas.openxmlformats.org/drawingml/2006/table"><a:tbl><a:tblPr/><a:tblGrid><a:gridCol w="2500"/><a:gridCol w="2500"/></a:tblGrid><a:tr h="370840"><a:tc><a:txBody><a:bodyPr/><a:lstStyle/><a:p><a:r><a:t>A1</a:t></a:r></a:p></a:txBody></a:tc><a:tc><a:txBody><a:bodyPr/><a:lstStyle/><a:p><a:r><a:t>B1</a:t></a:r></a:p></a:txBody></a:tc></a:tr><a:tr h="370840"><a:tc><a:txBody><a:bodyPr/><a:lstStyle/><a:p><a:r><a:t>A2</a:t></a:r></a:p></a:txBody></a:tc><a:tc><a:txBody><a:bodyPr/><a:lstStyle/><a:p><a:r><a:t>B2</a:t></a:r></a:p></a:txBody></a:tc></a:tr></a:tbl></a:graphicData></a:graphic></p:graphicFrame></p:spTree></p:cSld></p:sld>"#;

#[test]
fn format_placeholder_mutates_existing_rpr_in_place() {
    // Title run already has b="1"; bolding off + italic on must mutate that
    // rPr, not duplicate it, and leave the body shape byte-identical.
    let mut dom = SlideDom::parse(SLIDE).unwrap();
    dom.format_placeholder(
        "title",
        &RunFormat {
            bold: Some(false),
            italic: Some(true),
            ..Default::default()
        },
    )
    .unwrap();
    let s = String::from_utf8(dom.to_bytes()).unwrap();
    // The single title rPr now carries b="0" i="1" (order: existing b first).
    assert!(
        s.contains(r#"<a:rPr lang="en-US" b="0" i="1"/>"#),
        "title rPr mutated: {s}"
    );
    // Body shape untouched.
    assert!(
        s.contains("<a:r><a:t>Bullet one</a:t></a:r>"),
        "body verbatim: {s}"
    );
}

#[test]
fn format_placeholder_creates_rpr_when_missing() {
    // Body runs have no rPr; setting size must insert one as the first child
    // of each run (before a:t), preserving the text.
    let mut dom = SlideDom::parse(SLIDE).unwrap();
    dom.format_placeholder(
        "body",
        &RunFormat {
            size: Some(2000),
            ..Default::default()
        },
    )
    .unwrap();
    let s = String::from_utf8(dom.to_bytes()).unwrap();
    assert!(
        s.contains(r#"<a:r><a:rPr sz="2000"/><a:t>Bullet one</a:t></a:r>"#),
        "rPr inserted: {s}"
    );
    assert!(s.contains(r#"<a:r><a:rPr sz="2000"/><a:t>Bullet two</a:t></a:r>"#));
    // Title shape untouched.
    assert!(
        s.contains(r#"<a:rPr lang="en-US" b="1"/>"#),
        "title verbatim: {s}"
    );
}

#[test]
fn format_placeholder_sets_color_and_font() {
    // Title run has rPr b="1"; add color + font → solidFill then latin children.
    let mut dom = SlideDom::parse(SLIDE).unwrap();
    dom.format_placeholder(
        "title",
        &RunFormat {
            color: Some("FF0000".into()),
            font: Some("Calibri".into()),
            ..Default::default()
        },
    )
    .unwrap();
    let s = String::from_utf8(dom.to_bytes()).unwrap();
    // rPr opened (was self-closing) and carries both children in schema order.
    assert!(s.contains(r#"<a:solidFill><a:srgbClr val="FF0000"/></a:solidFill><a:latin typeface="Calibri"/></a:rPr>"#), "{s}");
    // Body shape still untouched.
    assert!(s.contains("<a:r><a:t>Bullet one</a:t></a:r>"));
}

#[test]
fn strikethrough_attribute_emission() {
    let mut dom = SlideDom::parse(MULTI_RUN_SLIDE).unwrap();
    dom.format_run(
        0,
        0,
        0,
        &RunFormat {
            strikethrough: Some("sngStrike".into()),
            ..Default::default()
        },
    )
    .unwrap();
    let s = String::from_utf8(dom.to_bytes()).unwrap();
    assert!(s.contains(r#"strike="sngStrike""#), "strike attr set: {s}");
}

#[test]
fn strikethrough_double_strike() {
    let mut dom = SlideDom::parse(MULTI_RUN_SLIDE).unwrap();
    dom.format_run(
        0,
        0,
        0,
        &RunFormat {
            strikethrough: Some("dblStrike".into()),
            ..Default::default()
        },
    )
    .unwrap();
    let s = String::from_utf8(dom.to_bytes()).unwrap();
    assert!(s.contains(r#"strike="dblStrike""#), "dblStrike: {s}");
}

#[test]
fn strikethrough_no_strike() {
    let mut dom = SlideDom::parse(MULTI_RUN_SLIDE).unwrap();
    dom.format_run(
        0,
        0,
        0,
        &RunFormat {
            strikethrough: Some("noStrike".into()),
            ..Default::default()
        },
    )
    .unwrap();
    let s = String::from_utf8(dom.to_bytes()).unwrap();
    assert!(s.contains(r#"strike="noStrike""#), "noStrike: {s}");
}

#[test]
fn baseline_superscript_emission() {
    let mut dom = SlideDom::parse(MULTI_RUN_SLIDE).unwrap();
    dom.format_run(
        0,
        0,
        0,
        &RunFormat {
            baseline: Some(30000),
            ..Default::default()
        },
    )
    .unwrap();
    let s = String::from_utf8(dom.to_bytes()).unwrap();
    assert!(
        s.contains(r#"baseline="30000""#),
        "superscript baseline: {s}"
    );
}

#[test]
fn baseline_subscript_emission() {
    let mut dom = SlideDom::parse(MULTI_RUN_SLIDE).unwrap();
    dom.format_run(
        0,
        0,
        0,
        &RunFormat {
            baseline: Some(-25000),
            ..Default::default()
        },
    )
    .unwrap();
    let s = String::from_utf8(dom.to_bytes()).unwrap();
    assert!(
        s.contains(r#"baseline="-25000""#),
        "subscript baseline: {s}"
    );
}

#[test]
fn lang_tag_emission() {
    let mut dom = SlideDom::parse(MULTI_RUN_SLIDE).unwrap();
    dom.format_run(
        0,
        0,
        1,
        &RunFormat {
            lang: Some("fr-FR".into()),
            ..Default::default()
        },
    )
    .unwrap();
    let s = String::from_utf8(dom.to_bytes()).unwrap();
    assert!(s.contains(r#"lang="fr-FR""#), "lang tag set: {s}");
}

#[test]
fn underline_style_sng() {
    let mut dom = SlideDom::parse(MULTI_RUN_SLIDE).unwrap();
    dom.format_run(
        0,
        0,
        0,
        &RunFormat {
            underline_style: Some("sng".into()),
            ..Default::default()
        },
    )
    .unwrap();
    let s = String::from_utf8(dom.to_bytes()).unwrap();
    assert!(s.contains(r#"u="sng""#), "underline sng: {s}");
}

#[test]
fn underline_style_wavy_heavy() {
    let mut dom = SlideDom::parse(MULTI_RUN_SLIDE).unwrap();
    dom.format_run(
        0,
        0,
        0,
        &RunFormat {
            underline_style: Some("wavyHeavy".into()),
            ..Default::default()
        },
    )
    .unwrap();
    let s = String::from_utf8(dom.to_bytes()).unwrap();
    assert!(s.contains(r#"u="wavyHeavy""#), "underline wavyHeavy: {s}");
}

#[test]
fn underline_style_dotted() {
    let mut dom = SlideDom::parse(MULTI_RUN_SLIDE).unwrap();
    dom.format_run(
        0,
        0,
        0,
        &RunFormat {
            underline_style: Some("dotted".into()),
            ..Default::default()
        },
    )
    .unwrap();
    let s = String::from_utf8(dom.to_bytes()).unwrap();
    assert!(s.contains(r#"u="dotted""#), "underline dotted: {s}");
}

#[test]
fn underline_style_overrides_boolean_underline() {
    let mut dom = SlideDom::parse(MULTI_RUN_SLIDE).unwrap();
    // Both underline (bool) and underline_style set — style wins.
    dom.format_run(
        0,
        0,
        0,
        &RunFormat {
            underline: Some(true),
            underline_style: Some("dbl".into()),
            ..Default::default()
        },
    )
    .unwrap();
    let s = String::from_utf8(dom.to_bytes()).unwrap();
    assert!(s.contains(r#"u="dbl""#), "style overrides bool: {s}");
    // Should NOT contain u="sng" from the boolean path.
    assert!(!s.contains(r#"u="sng""#), "no sng from bool: {s}");
}

#[test]
fn theme_color_emits_scheme_clr_not_srgb_clr() {
    let mut dom = SlideDom::parse(MULTI_RUN_SLIDE).unwrap();
    dom.format_run(
        0,
        0,
        0,
        &RunFormat {
            theme_color: Some(SchemeColor::Accent1),
            ..Default::default()
        },
    )
    .unwrap();
    let s = String::from_utf8(dom.to_bytes()).unwrap();
    assert!(
        s.contains(r#"<a:solidFill><a:schemeClr val="accent1"/></a:solidFill>"#),
        "schemeClr emitted: {s}"
    );
    // Must NOT contain srgbClr.
    assert!(!s.contains("srgbClr"), "no srgbClr: {s}");
}

#[test]
fn theme_color_replaces_existing_rgb_color() {
    let mut dom = SlideDom::parse(MULTI_RUN_SLIDE).unwrap();
    // First set an RGB color.
    dom.format_run(
        0,
        0,
        0,
        &RunFormat {
            color: Some("FF0000".into()),
            ..Default::default()
        },
    )
    .unwrap();
    let s = String::from_utf8(dom.to_bytes()).unwrap();
    assert!(s.contains("srgbClr"), "RGB set first: {s}");
    // Now set a theme color — should replace the RGB fill.
    dom.format_run(
        0,
        0,
        0,
        &RunFormat {
            theme_color: Some(SchemeColor::Dk2),
            ..Default::default()
        },
    )
    .unwrap();
    let s = String::from_utf8(dom.to_bytes()).unwrap();
    assert!(
        s.contains(r#"<a:solidFill><a:schemeClr val="dk2"/></a:solidFill>"#),
        "theme color replaced RGB: {s}"
    );
    assert!(!s.contains("srgbClr"), "srgbClr removed: {s}");
}

#[test]
fn theme_color_takes_precedence_over_color_in_same_format() {
    let mut dom = SlideDom::parse(MULTI_RUN_SLIDE).unwrap();
    // Both color and theme_color set — theme_color wins (Req 2.4).
    dom.format_run(
        0,
        0,
        0,
        &RunFormat {
            color: Some("00FF00".into()),
            theme_color: Some(SchemeColor::Accent3),
            ..Default::default()
        },
    )
    .unwrap();
    let s = String::from_utf8(dom.to_bytes()).unwrap();
    assert!(
        s.contains(r#"<a:schemeClr val="accent3"/>"#),
        "theme_color wins: {s}"
    );
    assert!(!s.contains("srgbClr"), "no srgbClr when theme set: {s}");
}

#[test]
fn format_run_preserves_sibling_runs_byte_for_byte() {
    let mut dom = SlideDom::parse(MULTI_RUN_SLIDE).unwrap();
    // Format only the first run with multiple new properties.
    dom.format_run(
        0,
        0,
        0,
        &RunFormat {
            strikethrough: Some("sngStrike".into()),
            baseline: Some(30000),
            lang: Some("de-DE".into()),
            underline_style: Some("heavy".into()),
            theme_color: Some(SchemeColor::Accent6),
            ..Default::default()
        },
    )
    .unwrap();
    let s = String::from_utf8(dom.to_bytes()).unwrap();
    // The second run must be byte-identical to the source.
    assert!(
        s.contains(r#"<a:r><a:rPr lang="en-US" i="1" sz="1800"/><a:t> World</a:t></a:r>"#),
        "sibling run byte-identical: {s}"
    );
}

#[test]
fn format_run_error_on_invalid_run_index() {
    let mut dom = SlideDom::parse(MULTI_RUN_SLIDE).unwrap();
    let err = dom.format_run(
        0,
        0,
        99,
        &RunFormat {
            bold: Some(true),
            ..Default::default()
        },
    );
    assert!(err.is_err());
}

#[test]
fn format_run_error_on_line_break() {
    let mut dom = SlideDom::parse(MULTI_RUN_SLIDE).unwrap();
    dom.insert_line_break(0, 0, 1).unwrap();
    // Run index 1 is now a line break — format_run should error.
    let err = dom.format_run(
        0,
        0,
        1,
        &RunFormat {
            bold: Some(true),
            ..Default::default()
        },
    );
    assert!(err.is_err());
}

#[test]
fn set_shape_fill_solid_rgb() {
    let mut dom = SlideDom::parse(FILL_SLIDE).unwrap();
    dom.set_shape_fill(
        0,
        &FillSpec::Solid {
            color: ColorSpec::Rgb("FF0000".into()),
        },
    )
    .unwrap();
    let s = String::from_utf8(dom.to_bytes()).unwrap();
    assert!(
        s.contains(r#"<a:solidFill><a:srgbClr val="FF0000"/></a:solidFill>"#),
        "solid RGB fill: {s}"
    );
    // Old fill removed.
    assert!(!s.contains(r#"val="0000FF""#), "old fill gone: {s}");
}

#[test]
fn set_shape_fill_solid_theme_color() {
    let mut dom = SlideDom::parse(FILL_SLIDE).unwrap();
    dom.set_shape_fill(
        0,
        &FillSpec::Solid {
            color: ColorSpec::Theme(SchemeColor::Accent1),
        },
    )
    .unwrap();
    let s = String::from_utf8(dom.to_bytes()).unwrap();
    assert!(
        s.contains(r#"<a:solidFill><a:schemeClr val="accent1"/></a:solidFill>"#),
        "theme color fill: {s}"
    );
    // Old fill removed.
    assert!(!s.contains(r#"val="0000FF""#), "old fill gone: {s}");
}

#[test]
fn set_shape_fill_gradient() {
    let mut dom = SlideDom::parse(FILL_SLIDE).unwrap();
    dom.set_shape_fill(
        0,
        &FillSpec::Gradient {
            stops: vec![
                (0, ColorSpec::Rgb("FF0000".into())),
                (100000, ColorSpec::Rgb("0000FF".into())),
            ],
            angle: 5400000,
        },
    )
    .unwrap();
    let s = String::from_utf8(dom.to_bytes()).unwrap();
    assert!(s.contains("<a:gradFill>"), "gradFill present: {s}");
    assert!(s.contains("<a:gsLst>"), "gsLst present: {s}");
    assert!(s.contains(r#"<a:gs pos="0">"#), "first stop: {s}");
    assert!(s.contains(r#"<a:gs pos="100000">"#), "second stop: {s}");
    assert!(s.contains(r#"val="FF0000""#), "first color: {s}");
    assert!(s.contains(r#"val="0000FF""#), "second color: {s}");
    assert!(s.contains(r#"ang="5400000""#), "angle 90deg: {s}");
    // Old solidFill removed.
    assert!(!s.contains("<a:solidFill>"), "old fill gone: {s}");
}

#[test]
fn set_shape_fill_pattern() {
    let mut dom = SlideDom::parse(FILL_SLIDE).unwrap();
    dom.set_shape_fill(
        0,
        &FillSpec::Pattern {
            preset: "ltDnDiag".into(),
            fg: ColorSpec::Rgb("000000".into()),
            bg: ColorSpec::Rgb("FFFFFF".into()),
        },
    )
    .unwrap();
    let s = String::from_utf8(dom.to_bytes()).unwrap();
    assert!(
        s.contains(r#"<a:pattFill prst="ltDnDiag">"#),
        "pattFill: {s}"
    );
    assert!(s.contains("<a:fgClr>"), "fgClr: {s}");
    assert!(s.contains("<a:bgClr>"), "bgClr: {s}");
    assert!(s.contains(r#"val="000000""#), "fg color: {s}");
    assert!(s.contains(r#"val="FFFFFF""#), "bg color: {s}");
}

#[test]
fn set_shape_fill_no_fill() {
    let mut dom = SlideDom::parse(FILL_SLIDE).unwrap();
    dom.set_shape_fill(0, &FillSpec::NoFill).unwrap();
    let s = String::from_utf8(dom.to_bytes()).unwrap();
    assert!(s.contains("<a:noFill/>"), "noFill: {s}");
    // Old solidFill removed.
    assert!(!s.contains("<a:solidFill>"), "old fill gone: {s}");
}

#[test]
fn set_shape_fill_replaces_existing_fill_type() {
    let mut dom = SlideDom::parse(FILL_SLIDE).unwrap();
    // First set a gradient.
    dom.set_shape_fill(
        0,
        &FillSpec::Gradient {
            stops: vec![
                (0, ColorSpec::Rgb("AABBCC".into())),
                (100000, ColorSpec::Rgb("DDEEFF".into())),
            ],
            angle: 2700000,
        },
    )
    .unwrap();
    let s = String::from_utf8(dom.to_bytes()).unwrap();
    assert!(s.contains("<a:gradFill>"), "gradient set: {s}");
    assert!(!s.contains("<a:solidFill>"), "solid removed: {s}");

    // Now replace with solid.
    dom.set_shape_fill(
        0,
        &FillSpec::Solid {
            color: ColorSpec::Rgb("112233".into()),
        },
    )
    .unwrap();
    let s = String::from_utf8(dom.to_bytes()).unwrap();
    assert!(s.contains("<a:solidFill>"), "solid set: {s}");
    assert!(!s.contains("<a:gradFill>"), "gradient removed: {s}");
}

#[test]
fn set_shape_fill_preserves_sibling_shapes() {
    let mut dom = SlideDom::parse(FILL_SLIDE).unwrap();
    let before = String::from_utf8(dom.to_bytes()).unwrap();
    // Extract the second shape's XML from the source.
    let shape2_anchor = r#"<p:sp><p:nvSpPr><p:cNvPr id="3""#;
    let shape2_before = &before[before.find(shape2_anchor).unwrap()..];

    // Modify the first shape's fill.
    dom.set_shape_fill(
        0,
        &FillSpec::Solid {
            color: ColorSpec::Rgb("AABBCC".into()),
        },
    )
    .unwrap();
    let after = String::from_utf8(dom.to_bytes()).unwrap();
    let shape2_after = &after[after.find(shape2_anchor).unwrap()..];

    // The second shape is byte-for-byte identical.
    assert_eq!(shape2_before, shape2_after, "sibling shape preserved");
}

#[test]
fn set_shape_fill_picture() {
    let mut dom = SlideDom::parse(FILL_SLIDE).unwrap();
    dom.set_shape_fill(
        0,
        &FillSpec::Picture {
            r_id: "rId5".into(),
        },
    )
    .unwrap();
    let s = String::from_utf8(dom.to_bytes()).unwrap();
    assert!(s.contains("<a:blipFill>"), "blipFill: {s}");
    assert!(s.contains(r#"r:embed="rId5""#), "r:embed: {s}");
    assert!(s.contains("<a:stretch>"), "stretch: {s}");
    assert!(s.contains("<a:fillRect/>"), "fillRect: {s}");
}

#[test]
fn set_shape_fill_on_shape_without_existing_fill() {
    let mut dom = SlideDom::parse(FILL_SLIDE).unwrap();
    // Shape at index 1 has no fill element.
    dom.set_shape_fill(
        1,
        &FillSpec::Solid {
            color: ColorSpec::Theme(SchemeColor::Dk1),
        },
    )
    .unwrap();
    let s = String::from_utf8(dom.to_bytes()).unwrap();
    assert!(
        s.contains(r#"<a:solidFill><a:schemeClr val="dk1"/></a:solidFill>"#),
        "fill on shape 2: {s}"
    );
    // Shape 1's text still present.
    assert!(
        s.contains("<a:t>World</a:t>"),
        "shape 2 text preserved: {s}"
    );
}

#[test]
fn set_shape_fill_schema_order_fill_after_geometry() {
    let mut dom = SlideDom::parse(FILL_SLIDE).unwrap();
    dom.set_shape_fill(
        0,
        &FillSpec::Solid {
            color: ColorSpec::Rgb("AABBCC".into()),
        },
    )
    .unwrap();
    let s = String::from_utf8(dom.to_bytes()).unwrap();
    // In the SPPR_ORDER table: xfrm < prstGeom < solidFill.
    // So solidFill must come after prstGeom.
    let geom_pos = s.find("a:prstGeom").unwrap();
    let fill_pos = s.find("a:solidFill").unwrap();
    assert!(
        fill_pos > geom_pos,
        "fill after geometry in schema order: {s}"
    );
}

#[test]
fn set_cell_fill_adds_solid_fill_to_tcpr() {
    let mut dom = SlideDom::parse(TABLE_SLIDE).unwrap();
    let fill = FillSpec::Solid {
        color: ColorSpec::Rgb("FF0000".into()),
    };
    dom.set_cell_fill(1, 0, 0, &fill).unwrap();
    let s = String::from_utf8(dom.to_bytes()).unwrap();
    assert!(s.contains("a:tcPr"), "tcPr created: {s}");
    assert!(
        s.contains(r#"<a:solidFill><a:srgbClr val="FF0000"/></a:solidFill>"#),
        "fill set: {s}"
    );
    // Other cells preserved.
    assert!(s.contains("<a:t>B1</a:t>"), "B1 preserved: {s}");
}

#[test]
fn set_cell_fill_no_fill() {
    let mut dom = SlideDom::parse(TABLE_SLIDE).unwrap();
    dom.set_cell_fill(1, 0, 0, &FillSpec::NoFill).unwrap();
    let s = String::from_utf8(dom.to_bytes()).unwrap();
    assert!(s.contains("a:noFill"), "noFill set: {s}");
}

#[test]
fn set_cell_margins_preserves_existing_tcpr_attrs() {
    let mut dom = SlideDom::parse(TABLE_SLIDE).unwrap();
    // First set fill (which creates tcPr), then set margins.
    let fill = FillSpec::Solid {
        color: ColorSpec::Rgb("00FF00".into()),
    };
    dom.set_cell_fill(1, 0, 0, &fill).unwrap();
    dom.set_cell_margins(1, 0, 0, 100, 200, 300, 400).unwrap();
    let s = String::from_utf8(dom.to_bytes()).unwrap();
    // Both fill and margins present.
    assert!(s.contains(r#"val="00FF00""#), "fill preserved: {s}");
    assert!(s.contains(r#"marL="100""#), "marL set: {s}");
    assert!(s.contains(r#"marB="400""#), "marB set: {s}");
}

#[test]
fn format_run_bold_only_appends_attribute() {
    let mut dom = SlideDom::parse(MULTI_RUN_SLIDE).unwrap();
    let before = String::from_utf8(dom.to_bytes()).unwrap();
    dom.format_run(0, 0, 1, &RunFormat { bold: Some(true), ..Default::default() }).unwrap();
    let s = String::from_utf8(dom.to_bytes()).unwrap();
    assert!(s.contains(r#"<a:rPr lang="en-US" i="1" sz="1800" b="1"/>"#), "{s}");
    assert_eq!(s.len(), before.len() + r#" b="1""#.len());
}

#[test]
fn format_run_with_empty_format_changes_nothing() {
    let mut dom = SlideDom::parse(MULTI_RUN_SLIDE).unwrap();
    let before = dom.to_bytes();
    dom.format_run(0, 0, 1, &RunFormat::default()).unwrap();
    assert_eq!(dom.to_bytes(), before);
}

#[test]
fn format_run_escapes_typeface() {
    let mut dom = SlideDom::parse(MULTI_RUN_SLIDE).unwrap();
    dom.format_run(0, 0, 0, &RunFormat { font: Some("A&B \"x\"".into()), ..Default::default() }).unwrap();
    let s = String::from_utf8(dom.to_bytes()).unwrap();
    assert!(s.contains(r#"<a:latin typeface="A&amp;B &quot;x&quot;"/>"#), "{s}");
}

#[test]
fn format_run_size_and_hash_color() {
    let mut dom = SlideDom::parse(MULTI_RUN_SLIDE).unwrap();
    dom.format_run(0, 0, 0, &RunFormat { size: Some(2450), color: Some("#ab12cd".into()), ..Default::default() })
        .unwrap();
    let s = String::from_utf8(dom.to_bytes()).unwrap();
    assert!(s.contains(r#"sz="2450""#), "{s}");
    assert!(s.contains(r#"<a:solidFill><a:srgbClr val="AB12CD"/></a:solidFill>"#), "{s}");
}

#[test]
fn format_placeholder_missing_placeholder_is_error() {
    let mut dom = SlideDom::parse(SLIDE).unwrap();
    let before = dom.to_bytes();
    let err = dom.format_placeholder("chart", &RunFormat { bold: Some(true), ..Default::default() });
    assert_eq!(err.unwrap_err().to_string(), "parse error: no chart placeholder on slide");
    assert_eq!(dom.to_bytes(), before);
}

#[test]
fn format_placeholder_without_runs_is_error() {
    let xml = br#"<p:sld xmlns:a="a" xmlns:p="p"><p:cSld><p:spTree><p:sp><p:nvSpPr><p:cNvPr id="2" name="T"/><p:cNvSpPr/><p:nvPr><p:ph type="title"/></p:nvPr></p:nvSpPr><p:spPr/><p:txBody><a:bodyPr/><a:p/></p:txBody></p:sp></p:spTree></p:cSld></p:sld>"#;
    let mut dom = SlideDom::parse(xml).unwrap();
    let err = dom.format_placeholder("title", &RunFormat { bold: Some(true), ..Default::default() });
    assert_eq!(err.unwrap_err().to_string(), "parse error: placeholder has no runs to format");
    assert_eq!(dom.to_bytes(), xml.to_vec());
}

#[test]
fn set_shape_fill_picture_escapes_relationship_id() {
    let mut dom = SlideDom::parse(FILL_SLIDE).unwrap();
    dom.set_shape_fill(1, &FillSpec::Picture { r_id: "a&b<c".into() }).unwrap();
    let s = String::from_utf8(dom.to_bytes()).unwrap();
    assert!(
        s.contains(r#"<a:blipFill><a:blip r:embed="a&amp;b&lt;c"/><a:stretch><a:fillRect/></a:stretch></a:blipFill>"#),
        "{s}"
    );
}

#[test]
fn set_shape_fill_gradient_without_stops() {
    let mut dom = SlideDom::parse(FILL_SLIDE).unwrap();
    dom.set_shape_fill(1, &FillSpec::Gradient { stops: vec![], angle: -60000 }).unwrap();
    let s = String::from_utf8(dom.to_bytes()).unwrap();
    assert!(
        s.contains(r#"<a:gradFill><a:gsLst></a:gsLst><a:lin ang="-60000" scaled="0"/></a:gradFill>"#),
        "{s}"
    );
}

#[test]
fn set_shape_fill_missing_shape_is_error() {
    let mut dom = SlideDom::parse(FILL_SLIDE).unwrap();
    let before = dom.to_bytes();
    assert!(dom.set_shape_fill(7, &FillSpec::NoFill).is_err());
    assert_eq!(dom.to_bytes(), before);
}

#[test]
fn set_cell_fill_replaces_previous_fill() {
    let mut dom = SlideDom::parse(TABLE_SLIDE).unwrap();
    dom.set_cell_fill(1, 0, 0, &FillSpec::Solid { color: ColorSpec::Rgb("FF0000".into()) }).unwrap();
    dom.set_cell_fill(1, 0, 0, &FillSpec::Pattern {
        preset: "pct5".into(),
        fg: ColorSpec::Theme(SchemeColor::Accent1),
        bg: ColorSpec::Rgb("ffffff".into()),
    })
    .unwrap();
    let s = String::from_utf8(dom.to_bytes()).unwrap();
    assert!(!s.contains("FF0000"), "{s}");
    assert!(
        s.contains(r#"<a:tcPr><a:pattFill prst="pct5"><a:fgClr><a:schemeClr val="accent1"/></a:fgClr><a:bgClr><a:srgbClr val="FFFFFF"/></a:bgClr></a:pattFill></a:tcPr>"#),
        "{s}"
    );
}

#[test]
fn set_cell_fill_missing_cell_is_error() {
    let mut dom = SlideDom::parse(TABLE_SLIDE).unwrap();
    let before = dom.to_bytes();
    assert!(dom.set_cell_fill(1, 9, 0, &FillSpec::NoFill).is_err());
    assert_eq!(dom.to_bytes(), before);
}
