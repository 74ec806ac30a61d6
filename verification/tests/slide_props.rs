use zavora_slide::slide_dom::{AutoFit, ClickAction, ColorSpec, LineSpec, SlideDom};
use zavora_slide::scheme_color::SchemeColor;

const AUTOFIT_SLIDE: &[u8] = br#"<?xml version="1.0" encoding="UTF-8" standalone="yes"?>
<p:sld xmlns:a="http://schemas.openxmlformats.org/drawingml/2006/main" xmlns:p="http://schemas.openxmlformats.org/presentationml/2006/main"><p:cSld><p:spTree><p:sp><p:nvSpPr><p:cNvPr id="2" name="Shape 1"/><p:cNvSpPr/><p:nvPr/></p:nvSpPr><p:spPr/><p:txBody><a:bodyPr wrap="square" anchor="ctr"/><a:lstStyle/><a:p><a:r><a:t>Text</a:t></a:r></a:p></p:txBody></p:sp></p:spTree></p:cSld></p:sld>"#;

const GEOM_SLIDE: &[u8] = br#"<?xml version="1.0" encoding="UTF-8" standalone="yes"?>
<p:sld xmlns:a="http://schemas.openxmlformats.org/drawingml/2006/main" xmlns:p="http://schemas.openxmlformats.org/presentationml/2006/main"><p:cSld><p:spTree><p:sp><p:nvSpPr><p:cNvPr id="2" name="Shape 1"/><p:cNvSpPr/><p:nvPr/></p:nvSpPr><p:spPr><a:xfrm><a:off x="100" y="200"/><a:ext cx="3000" cy="4000"/></a:xfrm><a:prstGeom prst="rect"><a:avLst/></a:prstGeom></p:spPr><p:txBody><a:bodyPr/><a:lstStyle/><a:p><a:r><a:t>Hello</a:t></a:r></a:p></p:txBody></p:sp><p:sp><p:nvSpPr><p:cNvPr id="3" name="Shape 2"/><p:cNvSpPr/><p:nvPr/></p:nvSpPr><p:spPr><a:xfrm><a:off x="500" y="600"/><a:ext cx="700" cy="800"/></a:xfrm></p:spPr><p:txBody><a:bodyPr/><a:lstStyle/><a:p><a:r><a:t>World</a:t></a:r></a:p></p:txBody></p:sp></p:spTree></p:cSld></p:sld>"#;

const FILL_SLIDE: &[u8] = br#"<?xml version="1.0" encoding="UTF-8" standalone="yes"?>
<p:sld xmlns:a="http://schemas.openxmlformats.org/drawingml/2006/main" xmlns:r="http://schemas.openxmlformats.org/officeDocument/2006/relationships" xmlns:p="http://schemas.openxmlformats.org/presentationml/2006/main"><p:cSld><p:spTree><p:sp><p:nvSpPr><p:cNvPr id="2" name="Shape 1"/><p:cNvSpPr/><p:nvPr/></p:nvSpPr><p:spPr><a:xfrm><a:off x="0" y="0"/><a:ext cx="100" cy="100"/></a:xfrm><a:prstGeom prst="rect"><a:avLst/></a:prstGeom><a:solidFill><a:srgbClr val="0000FF"/></a:solidFill></p:spPr><p:txBody><a:bodyPr/><a:lstStyle/><a:p><a:r><a:t>Hello</a:t></a:r></a:p></p:txBody></p:sp><p:sp><p:nvSpPr><p:cNvPr id="3" name="Shape 2"/><p:cNvSpPr/><p:nvPr/></p:nvSpPr><p:spPr><a:xfrm><a:off x="200" y="200"/><a:ext cx="300" cy="300"/></a:xfrm><a:prstGeom prst="ellipse"><a:avLst/></a:prstGeom></p:spPr><p:txBody><a:bodyPr/><a:lstStyle/><a:p><a:r><a:t>World</a:t></a:r></a:p></p:txBody></p:sp></p:spTree></p:cSld></p:sld>"#;

const PIC_SLIDE: &[u8] = br#"<?xml version="1.0" encoding="UTF-8" standalone="yes"?>
<p:sld xmlns:a="http://schemas.openxmlformats.org/drawingml/2006/main" xmlns:p="http://schemas.openxmlformats.org/presentationml/2006/main" xmlns:r="http://schemas.openxmlformats.org/officeDocument/2006/relationships"><p:cSld><p:spTree><p:sp><p:nvSpPr><p:cNvPr id="2" name="Title 1"/><p:cNvSpPr/><p:nvPr/></p:nvSpPr><p:spPr><a:xfrm><a:off x="100" y="200"/><a:ext cx="3000" cy="4000"/></a:xfrm></p:spPr><p:txBody><a:bodyPr/><a:lstStyle/><a:p><a:r><a:t>Hello</a:t></a:r></a:p></p:txBody></p:sp><p:pic><p:nvPicPr><p:cNvPr id="3" name="Picture 2"/><p:cNvPicPr/><p:nvPr/></p:nvPicPr><p:blipFill><a:blip r:embed="rId2"/><a:stretch><a:fillRect/></a:stretch></p:blipFill><p:spPr><a:xfrm><a:off x="500" y="600"/><a:ext cx="700" cy="800"/></a:xfrm></p:spPr></p:pic><p:sp><p:nvSpPr><p:cNvPr id="4" name="TextBox 3"/><p:cNvSpPr/><p:nvPr/></p:nvSpPr><p:spPr><a:xfrm><a:off x="900" y="1000"/><a:ext cx="1100" cy="1200"/></a:xfrm></p:spPr><p:txBody><a:bodyPr/><a:lstStyle/><a:p><a:r><a:t>World</a:t></a:r></a:p></p:txBody></p:sp></p:spTree></p:cSld></p:sld>"#;

const HLINK_SLIDE: &[u8] = br#"<?xml version="1.0" encoding="UTF-8" standalone="yes"?>
<p:sld xmlns:a="http://schemas.openxmlformats.org/drawingml/2006/main" xmlns:p="http://schemas.openxmlformats.org/presentationml/2006/main" xmlns:r="http://schemas.openxmlformats.org/officeDocument/2006/relationships"><p:cSld><p:spTree><p:sp><p:nvSpPr><p:cNvPr id="2" name="Title 1"/><p:cNvSpPr/><p:nvPr/></p:nvSpPr><p:spPr/><p:txBody><a:bodyPr/><a:lstStyle/><a:p><a:r><a:rPr lang="en-US" b="1"/><a:t>Click here</a:t></a:r><a:r><a:rPr lang="en-US"/><a:t> for more</a:t></a:r></a:p></p:txBody></p:sp><p:sp><p:nvSpPr><p:cNvPr id="3" name="Body 2"/><p:cNvSpPr/><p:nvPr/></p:nvSpPr><p:spPr/><p:txBody><a:bodyPr/><a:lstStyle/><a:p><a:r><a:t>No link</a:t></a:r></a:p></p:txBody></p:sp></p:spTree></p:cSld></p:sld>"#;

const CLICK_ACTION_SLIDE: &[u8] = br#"<?xml version="1.0" encoding="UTF-8" standalone="yes"?>
<p:sld xmlns:a="http://schemas.openxmlformats.org/drawingml/2006/main" xmlns:p="http://schemas.openxmlformats.org/presentationml/2006/main" xmlns:r="http://schemas.openxmlformats.org/officeDocument/2006/relationships"><p:cSld><p:spTree><p:sp><p:nvSpPr><p:cNvPr id="2" name="Shape 1"/><p:cNvSpPr/><p:nvPr/></p:nvSpPr><p:spPr/><p:txBody><a:bodyPr/><a:lstStyle/><a:p><a:r><a:t>First</a:t></a:r></a:p></p:txBody></p:sp><p:sp><p:nvSpPr><p:cNvPr id="3" name="Shape 2"/><p:cNvSpPr/><p:nvPr/></p:nvSpPr><p:spPr/><p:txBody><a:bodyPr/><a:lstStyle/><a:p><a:r><a:t>Second</a:t></a:r></a:p></p:txBody></p:sp></p:spTree></p:cSld></p:sld>"#;

#[test]
fn set_autofit_shrink_to_fit_with_font_scale() {
    let mut dom = SlideDom::parse(AUTOFIT_SLIDE).unwrap();
    dom.set_autofit(
        0,
        &AutoFit::ShrinkToFit {
            font_scale: Some(90000),
        },
    )
    .unwrap();
    let s = String::from_utf8(dom.to_bytes()).unwrap();
    assert!(
        s.contains(r#"<a:normAutofit fontScale="90000"/>"#),
        "normAutofit emitted: {s}"
    );
    // bodyPr attributes preserved.
    assert!(s.contains(r#"wrap="square""#), "wrap preserved: {s}");
    assert!(s.contains(r#"anchor="ctr""#), "anchor preserved: {s}");
}

#[test]
fn set_autofit_resize_shape() {
    let mut dom = SlideDom::parse(AUTOFIT_SLIDE).unwrap();
    dom.set_autofit(0, &AutoFit::ResizeShape).unwrap();
    let s = String::from_utf8(dom.to_bytes()).unwrap();
    assert!(s.contains("<a:spAutoFit/>"), "spAutoFit emitted: {s}");
    // bodyPr attributes preserved.
    assert!(s.contains(r#"wrap="square""#), "wrap preserved: {s}");
    assert!(s.contains(r#"anchor="ctr""#), "anchor preserved: {s}");
}

#[test]
fn set_autofit_none_removes_existing() {
    // Start with normAutofit, then set None to remove it.
    let mut dom = SlideDom::parse(AUTOFIT_SLIDE).unwrap();
    dom.set_autofit(
        0,
        &AutoFit::ShrinkToFit {
            font_scale: Some(80000),
        },
    )
    .unwrap();
    // Verify it was set.
    let s = String::from_utf8(dom.to_bytes()).unwrap();
    assert!(s.contains("normAutofit"), "normAutofit present: {s}");
    // Now remove it.
    dom.set_autofit(0, &AutoFit::Off).unwrap();
    let s = String::from_utf8(dom.to_bytes()).unwrap();
    assert!(!s.contains("normAutofit"), "normAutofit removed: {s}");
    assert!(!s.contains("spAutoFit"), "spAutoFit absent: {s}");
    assert!(!s.contains("noAutofit"), "noAutofit absent: {s}");
    // bodyPr attributes still preserved.
    assert!(s.contains(r#"wrap="square""#), "wrap preserved: {s}");
    assert!(s.contains(r#"anchor="ctr""#), "anchor preserved: {s}");
}

#[test]
fn set_autofit_replaces_one_mode_with_another() {
    let mut dom = SlideDom::parse(AUTOFIT_SLIDE).unwrap();
    // Set shrink-to-fit first.
    dom.set_autofit(
        0,
        &AutoFit::ShrinkToFit {
            font_scale: Some(75000),
        },
    )
    .unwrap();
    let s = String::from_utf8(dom.to_bytes()).unwrap();
    assert!(s.contains("normAutofit"), "normAutofit set: {s}");
    // Replace with resize-shape.
    dom.set_autofit(0, &AutoFit::ResizeShape).unwrap();
    let s = String::from_utf8(dom.to_bytes()).unwrap();
    assert!(s.contains("<a:spAutoFit/>"), "spAutoFit now: {s}");
    assert!(!s.contains("normAutofit"), "normAutofit gone: {s}");
}

#[test]
fn set_autofit_preserves_other_bodypr_children() {
    // bodyPr with an existing child (e.g. noAutofit) and attributes.
    let xml = br#"<?xml version="1.0" encoding="UTF-8" standalone="yes"?>
<p:sld xmlns:a="http://schemas.openxmlformats.org/drawingml/2006/main" xmlns:p="http://schemas.openxmlformats.org/presentationml/2006/main"><p:cSld><p:spTree><p:sp><p:nvSpPr><p:cNvPr id="2" name="Shape 1"/><p:cNvSpPr/><p:nvPr/></p:nvSpPr><p:spPr/><p:txBody><a:bodyPr wrap="square"><a:noAutofit/><a:prstTxWarp prst="textNoShape"><a:avLst/></a:prstTxWarp></a:bodyPr><a:lstStyle/><a:p><a:r><a:t>Hi</a:t></a:r></a:p></p:txBody></p:sp></p:spTree></p:cSld></p:sld>"#;
    let mut dom = SlideDom::parse(xml).unwrap();
    dom.set_autofit(
        0,
        &AutoFit::ShrinkToFit {
            font_scale: Some(62500),
        },
    )
    .unwrap();
    let s = String::from_utf8(dom.to_bytes()).unwrap();
    // noAutofit removed, normAutofit inserted.
    assert!(!s.contains("noAutofit"), "noAutofit removed: {s}");
    assert!(
        s.contains(r#"<a:normAutofit fontScale="62500"/>"#),
        "normAutofit: {s}"
    );
    // Other bodyPr child (prstTxWarp) preserved.
    assert!(s.contains("prstTxWarp"), "prstTxWarp preserved: {s}");
    // bodyPr attribute preserved.
    assert!(s.contains(r#"wrap="square""#), "wrap preserved: {s}");
}

#[test]
fn set_autofit_error_on_no_text_body() {
    let xml = br#"<?xml version="1.0" encoding="UTF-8" standalone="yes"?>
<p:sld xmlns:a="http://schemas.openxmlformats.org/drawingml/2006/main" xmlns:p="http://schemas.openxmlformats.org/presentationml/2006/main"><p:cSld><p:spTree><p:sp><p:nvSpPr><p:cNvPr id="2" name="Shape 1"/><p:cNvSpPr/><p:nvPr/></p:nvSpPr><p:spPr/></p:sp></p:spTree></p:cSld></p:sld>"#;
    let mut dom = SlideDom::parse(xml).unwrap();
    let err = dom.set_autofit(0, &AutoFit::ResizeShape);
    assert!(err.is_err());
    let msg = err.unwrap_err().to_string();
    assert!(msg.contains("no text body"), "got: {msg}");
}

#[test]
fn set_autofit_shrink_to_fit_omits_font_scale_when_none() {
    let mut dom = SlideDom::parse(AUTOFIT_SLIDE).unwrap();
    dom.set_autofit(0, &AutoFit::ShrinkToFit { font_scale: None })
        .unwrap();
    let s = String::from_utf8(dom.to_bytes()).unwrap();
    assert!(
        s.contains("<a:normAutofit/>"),
        "normAutofit without fontScale: {s}"
    );
    assert!(!s.contains("fontScale"), "no fontScale attr: {s}");
}

#[test]
fn set_autofit_shrink_to_fit_omits_font_scale_when_100000() {
    let mut dom = SlideDom::parse(AUTOFIT_SLIDE).unwrap();
    dom.set_autofit(
        0,
        &AutoFit::ShrinkToFit {
            font_scale: Some(100_000),
        },
    )
    .unwrap();
    let s = String::from_utf8(dom.to_bytes()).unwrap();
    assert!(
        s.contains("<a:normAutofit/>"),
        "normAutofit without fontScale at 100%: {s}"
    );
    assert!(!s.contains("fontScale"), "no fontScale attr at 100%: {s}");
}

#[test]
fn set_shape_position_updates_existing_xfrm() {
    let mut dom = SlideDom::parse(GEOM_SLIDE).unwrap();
    dom.set_shape_position(0, 1000, 2000).unwrap();
    let s = String::from_utf8(dom.to_bytes()).unwrap();
    assert!(s.contains(r#"x="1000""#), "x updated: {s}");
    assert!(s.contains(r#"y="2000""#), "y updated: {s}");
    // ext preserved.
    assert!(s.contains(r#"cx="3000""#), "cx preserved: {s}");
    assert!(s.contains(r#"cy="4000""#), "cy preserved: {s}");
}

#[test]
fn set_shape_size_updates_existing_xfrm() {
    let mut dom = SlideDom::parse(GEOM_SLIDE).unwrap();
    dom.set_shape_size(0, 5000, 6000).unwrap();
    let s = String::from_utf8(dom.to_bytes()).unwrap();
    assert!(s.contains(r#"cx="5000""#), "cx updated: {s}");
    assert!(s.contains(r#"cy="6000""#), "cy updated: {s}");
    // off preserved.
    assert!(s.contains(r#"x="100""#), "x preserved: {s}");
    assert!(s.contains(r#"y="200""#), "y preserved: {s}");
}

#[test]
fn set_shape_rotation_sets_rot_attr() {
    let mut dom = SlideDom::parse(GEOM_SLIDE).unwrap();
    dom.set_shape_rotation(0, 5400000).unwrap();
    let s = String::from_utf8(dom.to_bytes()).unwrap();
    assert!(s.contains(r#"rot="5400000""#), "rot set: {s}");
    // off and ext preserved.
    assert!(s.contains(r#"x="100""#), "x preserved: {s}");
    assert!(s.contains(r#"cx="3000""#), "cx preserved: {s}");
}

#[test]
fn set_shape_geometry_sets_all_at_once() {
    let mut dom = SlideDom::parse(GEOM_SLIDE).unwrap();
    dom.set_shape_geometry(0, 111, 222, 333, 444, Some(900000))
        .unwrap();
    let s = String::from_utf8(dom.to_bytes()).unwrap();
    assert!(s.contains(r#"x="111""#), "x: {s}");
    assert!(s.contains(r#"y="222""#), "y: {s}");
    assert!(s.contains(r#"cx="333""#), "cx: {s}");
    assert!(s.contains(r#"cy="444""#), "cy: {s}");
    assert!(s.contains(r#"rot="900000""#), "rot: {s}");
}

#[test]
fn set_shape_geometry_without_rotation() {
    let mut dom = SlideDom::parse(GEOM_SLIDE).unwrap();
    dom.set_shape_geometry(0, 10, 20, 30, 40, None).unwrap();
    let s = String::from_utf8(dom.to_bytes()).unwrap();
    assert!(s.contains(r#"x="10""#), "x: {s}");
    assert!(s.contains(r#"y="20""#), "y: {s}");
    assert!(s.contains(r#"cx="30""#), "cx: {s}");
    assert!(s.contains(r#"cy="40""#), "cy: {s}");
    // No rot attribute should be added.
    assert!(!s.contains("rot="), "no rot: {s}");
}

#[test]
fn geometry_creates_xfrm_when_absent() {
    // Shape with spPr but no xfrm.
    let xml = br#"<?xml version="1.0" encoding="UTF-8" standalone="yes"?>
<p:sld xmlns:a="http://schemas.openxmlformats.org/drawingml/2006/main" xmlns:p="http://schemas.openxmlformats.org/presentationml/2006/main"><p:cSld><p:spTree><p:sp><p:nvSpPr><p:cNvPr id="2" name="Shape 1"/><p:cNvSpPr/><p:nvPr/></p:nvSpPr><p:spPr><a:prstGeom prst="rect"><a:avLst/></a:prstGeom></p:spPr><p:txBody><a:bodyPr/><a:lstStyle/><a:p><a:r><a:t>Hi</a:t></a:r></a:p></p:txBody></p:sp></p:spTree></p:cSld></p:sld>"#;
    let mut dom = SlideDom::parse(xml).unwrap();
    dom.set_shape_position(0, 999, 888).unwrap();
    let s = String::from_utf8(dom.to_bytes()).unwrap();
    assert!(s.contains("a:xfrm"), "xfrm created: {s}");
    assert!(s.contains(r#"x="999""#), "x set: {s}");
    assert!(s.contains(r#"y="888""#), "y set: {s}");
    // prstGeom still present (xfrm inserted before it per schema order).
    assert!(s.contains("prstGeom"), "prstGeom preserved: {s}");
}

#[test]
fn geometry_creates_sppr_and_xfrm_when_both_absent() {
    // Shape with no spPr at all.
    let xml = br#"<?xml version="1.0" encoding="UTF-8" standalone="yes"?>
<p:sld xmlns:a="http://schemas.openxmlformats.org/drawingml/2006/main" xmlns:p="http://schemas.openxmlformats.org/presentationml/2006/main"><p:cSld><p:spTree><p:sp><p:nvSpPr><p:cNvPr id="2" name="Shape 1"/><p:cNvSpPr/><p:nvPr/></p:nvSpPr><p:txBody><a:bodyPr/><a:lstStyle/><a:p><a:r><a:t>Hi</a:t></a:r></a:p></p:txBody></p:sp></p:spTree></p:cSld></p:sld>"#;
    let mut dom = SlideDom::parse(xml).unwrap();
    dom.set_shape_size(0, 1234, 5678).unwrap();
    let s = String::from_utf8(dom.to_bytes()).unwrap();
    assert!(s.contains("p:spPr"), "spPr created: {s}");
    assert!(s.contains("a:xfrm"), "xfrm created: {s}");
    assert!(s.contains(r#"cx="1234""#), "cx set: {s}");
    assert!(s.contains(r#"cy="5678""#), "cy set: {s}");
}

#[test]
fn geometry_preserves_sibling_shapes_byte_for_byte() {
    let mut dom = SlideDom::parse(GEOM_SLIDE).unwrap();
    let src = String::from_utf8(GEOM_SLIDE.to_vec()).unwrap();
    // Edit only shape 0.
    dom.set_shape_position(0, 9999, 8888).unwrap();
    let out = String::from_utf8(dom.to_bytes()).unwrap();
    // Shape 2 (id="3") must be byte-identical to the source.
    let anchor = r#"<p:sp><p:nvSpPr><p:cNvPr id="3""#;
    let src_shape2 = &src[src.find(anchor).unwrap()..];
    let out_shape2 = &out[out.find(anchor).unwrap()..];
    assert_eq!(out_shape2, src_shape2, "sibling shape byte-identical");
}

#[test]
fn geometry_error_on_invalid_shape_index() {
    let mut dom = SlideDom::parse(GEOM_SLIDE).unwrap();
    let err = dom.set_shape_position(99, 0, 0);
    assert!(err.is_err());
    let msg = err.unwrap_err().to_string();
    assert!(msg.contains("no shape at index"), "got: {msg}");
}

#[test]
fn set_shape_line_rgb_color_and_width() {
    let mut dom = SlideDom::parse(FILL_SLIDE).unwrap();
    dom.set_shape_line(
        0,
        &LineSpec::Styled {
            color: ColorSpec::Rgb("FF0000".into()),
            width_emu: 12700,
            dash: None,
        },
    )
    .unwrap();
    let s = String::from_utf8(dom.to_bytes()).unwrap();
    assert!(s.contains(r#"<a:ln w="12700">"#), "ln with width: {s}");
    assert!(
        s.contains(r#"<a:solidFill><a:srgbClr val="FF0000"/></a:solidFill>"#),
        "solid fill in ln: {s}"
    );
    // No dash element when dash is None.
    assert!(!s.contains("a:prstDash"), "no dash: {s}");
}

#[test]
fn set_shape_line_theme_color() {
    let mut dom = SlideDom::parse(FILL_SLIDE).unwrap();
    dom.set_shape_line(
        0,
        &LineSpec::Styled {
            color: ColorSpec::Theme(SchemeColor::Accent2),
            width_emu: 25400,
            dash: None,
        },
    )
    .unwrap();
    let s = String::from_utf8(dom.to_bytes()).unwrap();
    assert!(s.contains(r#"<a:ln w="25400">"#), "ln with width: {s}");
    assert!(
        s.contains(r#"<a:solidFill><a:schemeClr val="accent2"/></a:solidFill>"#),
        "theme color in ln: {s}"
    );
}

#[test]
fn set_shape_line_with_dash_style() {
    let mut dom = SlideDom::parse(FILL_SLIDE).unwrap();
    dom.set_shape_line(
        0,
        &LineSpec::Styled {
            color: ColorSpec::Rgb("00FF00".into()),
            width_emu: 9525,
            dash: Some("dash".into()),
        },
    )
    .unwrap();
    let s = String::from_utf8(dom.to_bytes()).unwrap();
    assert!(s.contains(r#"<a:ln w="9525">"#), "ln with width: {s}");
    assert!(s.contains(r#"<a:prstDash val="dash"/>"#), "dash style: {s}");
}

#[test]
fn set_shape_line_no_line() {
    let mut dom = SlideDom::parse(FILL_SLIDE).unwrap();
    dom.set_shape_line(0, &LineSpec::NoLine).unwrap();
    let s = String::from_utf8(dom.to_bytes()).unwrap();
    assert!(s.contains("<a:ln><a:noFill/></a:ln>"), "no-line: {s}");
}

#[test]
fn set_shape_line_replaces_existing_line() {
    let mut dom = SlideDom::parse(FILL_SLIDE).unwrap();
    // First set a styled line.
    dom.set_shape_line(
        0,
        &LineSpec::Styled {
            color: ColorSpec::Rgb("AABBCC".into()),
            width_emu: 12700,
            dash: Some("dot".into()),
        },
    )
    .unwrap();
    let s = String::from_utf8(dom.to_bytes()).unwrap();
    assert!(s.contains(r#"val="AABBCC""#), "first line set: {s}");

    // Now replace with no-line.
    dom.set_shape_line(0, &LineSpec::NoLine).unwrap();
    let s = String::from_utf8(dom.to_bytes()).unwrap();
    assert!(
        s.contains("<a:ln><a:noFill/></a:ln>"),
        "replaced with no-line: {s}"
    );
    // Old line gone.
    assert!(!s.contains(r#"val="AABBCC""#), "old line removed: {s}");
    assert!(!s.contains("a:prstDash"), "old dash removed: {s}");
}

#[test]
fn set_shape_line_preserves_sibling_shapes() {
    let mut dom = SlideDom::parse(FILL_SLIDE).unwrap();
    let before = String::from_utf8(dom.to_bytes()).unwrap();
    // Extract the second shape's XML (Shape 2).
    let shape2_start = before.find(r#"id="3""#).unwrap();
    let shape2_before = &before[shape2_start..];

    // Modify the first shape's line.
    dom.set_shape_line(
        0,
        &LineSpec::Styled {
            color: ColorSpec::Rgb("112233".into()),
            width_emu: 19050,
            dash: None,
        },
    )
    .unwrap();

    let after = String::from_utf8(dom.to_bytes()).unwrap();
    let shape2_after_start = after.find(r#"id="3""#).unwrap();
    let shape2_after = &after[shape2_after_start..];
    assert_eq!(
        shape2_before, shape2_after,
        "sibling shape preserved byte-for-byte"
    );
}

#[test]
fn set_image_crop_creates_src_rect() {
    let mut dom = SlideDom::parse(PIC_SLIDE).unwrap();
    // Shape index 1 is the picture.
    dom.set_image_crop(1, 10000, 20000, 30000, 40000).unwrap();
    let s = String::from_utf8(dom.to_bytes()).unwrap();
    assert!(s.contains(r#"l="10000""#), "left crop: {s}");
    assert!(s.contains(r#"t="20000""#), "top crop: {s}");
    assert!(s.contains(r#"r="30000""#), "right crop: {s}");
    assert!(s.contains(r#"b="40000""#), "bottom crop: {s}");
    assert!(s.contains("srcRect"), "srcRect element present: {s}");
}

#[test]
fn set_image_crop_updates_existing_src_rect() {
    let mut dom = SlideDom::parse(PIC_SLIDE).unwrap();
    // Set crop twice — second call should update, not duplicate.
    dom.set_image_crop(1, 5000, 5000, 5000, 5000).unwrap();
    dom.set_image_crop(1, 25000, 15000, 25000, 15000).unwrap();
    let s = String::from_utf8(dom.to_bytes()).unwrap();
    assert!(s.contains(r#"l="25000""#), "updated left: {s}");
    assert!(s.contains(r#"t="15000""#), "updated top: {s}");
    assert!(s.contains(r#"r="25000""#), "updated right: {s}");
    assert!(s.contains(r#"b="15000""#), "updated bottom: {s}");
    // Only one srcRect element.
    let count = s.matches("srcRect").count();
    assert_eq!(count, 1, "only one srcRect: {s}");
}

#[test]
fn set_image_crop_zero_values() {
    let mut dom = SlideDom::parse(PIC_SLIDE).unwrap();
    dom.set_image_crop(1, 0, 0, 0, 0).unwrap();
    let s = String::from_utf8(dom.to_bytes()).unwrap();
    assert!(s.contains(r#"l="0""#), "zero left: {s}");
    assert!(s.contains(r#"t="0""#), "zero top: {s}");
    assert!(s.contains(r#"r="0""#), "zero right: {s}");
    assert!(s.contains(r#"b="0""#), "zero bottom: {s}");
}

#[test]
fn set_image_crop_error_on_non_picture() {
    let mut dom = SlideDom::parse(PIC_SLIDE).unwrap();
    // Shape index 0 is a regular sp, not a pic.
    let err = dom.set_image_crop(0, 10000, 10000, 10000, 10000);
    assert!(err.is_err());
    let msg = err.unwrap_err().to_string();
    assert!(msg.contains("not a picture"), "got: {msg}");
}

#[test]
fn set_shape_rotation_on_picture() {
    let mut dom = SlideDom::parse(PIC_SLIDE).unwrap();
    // Shape index 1 is the picture — set_shape_rotation works on all types.
    dom.set_shape_rotation(1, 5400000).unwrap(); // 90 degrees
    let s = String::from_utf8(dom.to_bytes()).unwrap();
    assert!(s.contains(r#"rot="5400000""#), "rotation set: {s}");
}

#[test]
fn set_image_crop_preserves_sibling_shapes() {
    let src = String::from_utf8(PIC_SLIDE.to_vec()).unwrap();
    let mut dom = SlideDom::parse(PIC_SLIDE).unwrap();
    dom.set_image_crop(1, 10000, 20000, 30000, 40000).unwrap();
    let out = String::from_utf8(dom.to_bytes()).unwrap();
    // Title shape (shape 0) preserved byte-for-byte.
    let title_anchor = r#"<p:sp><p:nvSpPr><p:cNvPr id="2" name="Title 1"/>"#;
    let pic_anchor = "<p:pic>";
    let src_title = &src[src.find(title_anchor).unwrap()..src.find(pic_anchor).unwrap()];
    let out_title = &out[out.find(title_anchor).unwrap()..out.find(pic_anchor).unwrap()];
    assert_eq!(src_title, out_title, "title shape preserved");
    // TextBox shape (shape 2) preserved byte-for-byte.
    assert!(
        out.contains("<a:t>World</a:t>"),
        "textbox text preserved: {out}"
    );
    let tb_anchor = r#"<p:sp><p:nvSpPr><p:cNvPr id="4" name="TextBox 3"/>"#;
    let src_tb = &src[src.find(tb_anchor).unwrap()..];
    let out_tb = &out[out.find(tb_anchor).unwrap()..];
    assert_eq!(src_tb, out_tb, "textbox shape preserved");
}

#[test]
fn set_run_hyperlink_creates_hlinkclick_with_correct_rid() {
    let mut dom = SlideDom::parse(HLINK_SLIDE).unwrap();
    dom.set_run_hyperlink(0, 0, 0, "https://example.com", "rId5")
        .unwrap();
    let s = String::from_utf8(dom.to_bytes()).unwrap();
    // hlinkClick with the correct r:id is present inside the first run's rPr.
    assert!(
        s.contains(r#"<a:hlinkClick r:id="rId5"/>"#),
        "hlinkClick present: {s}"
    );
    // The run text is preserved.
    assert!(
        s.contains("<a:t>Click here</a:t>"),
        "run text preserved: {s}"
    );
    // The rPr attributes (lang, b) are preserved.
    assert!(s.contains(r#"lang="en-US""#), "lang preserved: {s}");
    assert!(s.contains(r#"b="1""#), "bold preserved: {s}");
}

#[test]
fn set_run_hyperlink_replaces_existing() {
    let mut dom = SlideDom::parse(HLINK_SLIDE).unwrap();
    // Set a hyperlink, then replace it with a different one.
    dom.set_run_hyperlink(0, 0, 0, "https://old.com", "rId3")
        .unwrap();
    dom.set_run_hyperlink(0, 0, 0, "https://new.com", "rId7")
        .unwrap();
    let s = String::from_utf8(dom.to_bytes()).unwrap();
    // Only the new r:id should be present.
    assert!(
        s.contains(r#"<a:hlinkClick r:id="rId7"/>"#),
        "new hlinkClick: {s}"
    );
    assert!(!s.contains(r#"r:id="rId3""#), "old hlinkClick removed: {s}");
    // Only one hlinkClick element in the entire document.
    assert_eq!(
        s.matches("hlinkClick").count(),
        1,
        "exactly one hlinkClick element: {s}"
    );
}

#[test]
fn set_run_hyperlink_preserves_sibling_runs_byte_for_byte() {
    let src = String::from_utf8(HLINK_SLIDE.to_vec()).unwrap();
    let mut dom = SlideDom::parse(HLINK_SLIDE).unwrap();
    dom.set_run_hyperlink(0, 0, 0, "https://example.com", "rId5")
        .unwrap();
    let out = String::from_utf8(dom.to_bytes()).unwrap();
    // The second run in the same paragraph is byte-identical.
    let sibling_run = r#"<a:r><a:rPr lang="en-US"/><a:t> for more</a:t></a:r>"#;
    assert!(out.contains(sibling_run), "sibling run preserved: {out}");
    // The second shape is byte-identical.
    let body_anchor = r#"<p:sp><p:nvSpPr><p:cNvPr id="3" name="Body 2"/>"#;
    let src_body = &src[src.find(body_anchor).unwrap()..];
    let out_body = &out[out.find(body_anchor).unwrap()..];
    assert_eq!(src_body, out_body, "second shape preserved byte-for-byte");
}

#[test]
fn set_run_hyperlink_error_on_invalid_shape_index() {
    let mut dom = SlideDom::parse(HLINK_SLIDE).unwrap();
    let err = dom.set_run_hyperlink(99, 0, 0, "https://example.com", "rId1");
    assert!(err.is_err());
}

#[test]
fn set_run_hyperlink_error_on_invalid_para_index() {
    let mut dom = SlideDom::parse(HLINK_SLIDE).unwrap();
    let err = dom.set_run_hyperlink(0, 99, 0, "https://example.com", "rId1");
    assert!(err.is_err());
}

#[test]
fn set_run_hyperlink_error_on_invalid_run_index() {
    let mut dom = SlideDom::parse(HLINK_SLIDE).unwrap();
    let err = dom.set_run_hyperlink(0, 0, 99, "https://example.com", "rId1");
    assert!(err.is_err());
}

#[test]
fn set_run_hyperlink_creates_rpr_when_missing() {
    // The second shape's run has no rPr — setting a hyperlink should create one.
    let mut dom = SlideDom::parse(HLINK_SLIDE).unwrap();
    dom.set_run_hyperlink(1, 0, 0, "https://example.com", "rId2")
        .unwrap();
    let s = String::from_utf8(dom.to_bytes()).unwrap();
    // The run now has an rPr with hlinkClick.
    assert!(
        s.contains(r#"<a:rPr><a:hlinkClick r:id="rId2"/></a:rPr><a:t>No link</a:t>"#),
        "rPr created with hlinkClick: {s}"
    );
}

#[test]
fn set_shape_click_action_external_url() {
    let mut dom = SlideDom::parse(CLICK_ACTION_SLIDE).unwrap();
    dom.set_shape_click_action(
        0,
        &ClickAction::ExternalUrl {
            r_id: "rId4".to_string(),
        },
    )
    .unwrap();
    let s = String::from_utf8(dom.to_bytes()).unwrap();
    assert!(
        s.contains(r#"<a:hlinkClick r:id="rId4"/>"#),
        "hlinkClick with r:id present: {s}"
    );
    // It should be inside the cNvPr of the first shape.
    let cnvpr_pos = s.find(r#"<p:cNvPr id="2" name="Shape 1">"#).unwrap();
    let hlink_pos = s.find(r#"<a:hlinkClick r:id="rId4"/>"#).unwrap();
    assert!(hlink_pos > cnvpr_pos, "hlinkClick is inside cNvPr: {s}");
}

#[test]
fn set_shape_click_action_jump_to_slide() {
    let mut dom = SlideDom::parse(CLICK_ACTION_SLIDE).unwrap();
    dom.set_shape_click_action(
        0,
        &ClickAction::JumpToSlide {
            r_id: "rId6".to_string(),
            action: "ppaction://hlinksldjump".to_string(),
        },
    )
    .unwrap();
    let s = String::from_utf8(dom.to_bytes()).unwrap();
    assert!(
        s.contains(r#"<a:hlinkClick r:id="rId6" action="ppaction://hlinksldjump"/>"#),
        "hlinkClick with r:id and action present: {s}"
    );
}

#[test]
fn set_shape_click_action_replaces_existing() {
    let mut dom = SlideDom::parse(CLICK_ACTION_SLIDE).unwrap();
    // Set an external URL first.
    dom.set_shape_click_action(
        0,
        &ClickAction::ExternalUrl {
            r_id: "rId3".to_string(),
        },
    )
    .unwrap();
    // Replace with a jump-to-slide action.
    dom.set_shape_click_action(
        0,
        &ClickAction::JumpToSlide {
            r_id: "rId8".to_string(),
            action: "ppaction://hlinksldjump".to_string(),
        },
    )
    .unwrap();
    let s = String::from_utf8(dom.to_bytes()).unwrap();
    // Only the new action should be present.
    assert!(
        s.contains(r#"<a:hlinkClick r:id="rId8" action="ppaction://hlinksldjump"/>"#),
        "new hlinkClick present: {s}"
    );
    assert!(!s.contains(r#"r:id="rId3""#), "old hlinkClick removed: {s}");
    // Only one hlinkClick in the first shape's cNvPr.
    assert_eq!(
        s.matches("hlinkClick").count(),
        1,
        "exactly one hlinkClick element: {s}"
    );
}

#[test]
fn set_shape_click_action_preserves_sibling_shapes() {
    let src = String::from_utf8(CLICK_ACTION_SLIDE.to_vec()).unwrap();
    let mut dom = SlideDom::parse(CLICK_ACTION_SLIDE).unwrap();
    dom.set_shape_click_action(
        0,
        &ClickAction::ExternalUrl {
            r_id: "rId5".to_string(),
        },
    )
    .unwrap();
    let out = String::from_utf8(dom.to_bytes()).unwrap();
    // The second shape should be byte-identical to the source.
    let anchor = r#"<p:sp><p:nvSpPr><p:cNvPr id="3" name="Shape 2"/>"#;
    assert_eq!(
        &out[out.find(anchor).unwrap()..],
        &src[src.find(anchor).unwrap()..],
        "sibling shape preserved byte-for-byte"
    );
}

#[test]
fn set_shape_click_action_error_on_invalid_shape_index() {
    let mut dom = SlideDom::parse(CLICK_ACTION_SLIDE).unwrap();
    let err = dom.set_shape_click_action(
        99,
        &ClickAction::ExternalUrl {
            r_id: "rId1".to_string(),
        },
    );
    assert!(err.is_err());
}
