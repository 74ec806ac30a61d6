use zavora_slide::slide_dom::{ConnectorAnchor, ConnectorType, FreeformPath, SlideDom};
use zavora_slide::xml::{Element, Node};

const SLIDE: &[u8] = br#"<?xml version="1.0" encoding="UTF-8" standalone="yes"?>
<p:sld xmlns:a="http://schemas.openxmlformats.org/drawingml/2006/main" xmlns:p="http://schemas.openxmlformats.org/presentationml/2006/main"><p:cSld><p:spTree><p:sp><p:nvSpPr><p:cNvPr id="2" name="Title 1"/><p:cNvSpPr><a:spLocks noGrp="1"/></p:cNvSpPr><p:nvPr><p:ph type="title"/></p:nvPr></p:nvSpPr><p:spPr/><p:txBody><a:bodyPr/><a:lstStyle/><a:p><a:r><a:rPr lang="en-US" b="1"/><a:t>Old Title</a:t></a:r></a:p></p:txBody></p:sp><p:sp><p:nvSpPr><p:cNvPr id="3" name="Body 2"/><p:cNvSpPr><a:spLocks noGrp="1"/></p:cNvSpPr><p:nvPr><p:ph type="body" idx="1"/></p:nvPr></p:nvSpPr><p:spPr/><p:txBody><a:bodyPr/><a:lstStyle/><a:p><a:r><a:t>Bullet one</a:t></a:r></a:p><a:p><a:r><a:t>Bullet two</a:t></a:r></a:p></p:txBody></p:sp></p:spTree></p:cSld></p:sld>"#;

const MULTI_SHAPE_SLIDE: &[u8] = br#"<?xml version="1.0" encoding="UTF-8" standalone="yes"?>
<p:sld xmlns:a="http://schemas.openxmlformats.org/drawingml/2006/main" xmlns:p="http://schemas.openxmlformats.org/presentationml/2006/main" xmlns:r="http://schemas.openxmlformats.org/officeDocument/2006/relationships"><p:cSld><p:spTree><p:sp><p:nvSpPr><p:cNvPr id="2" name="Title 1"/><p:cNvSpPr/><p:nvPr/></p:nvSpPr><p:spPr><a:xfrm><a:off x="100" y="200"/><a:ext cx="3000" cy="4000"/></a:xfrm></p:spPr><p:txBody><a:bodyPr/><a:lstStyle/><a:p><a:r><a:t>Hello</a:t></a:r></a:p></p:txBody></p:sp><p:pic><p:nvPicPr><p:cNvPr id="3" name="Picture 2"/><p:cNvPicPr/><p:nvPr/></p:nvPicPr><p:blipFill><a:blip r:embed="rId2"/></p:blipFill><p:spPr><a:xfrm><a:off x="500" y="600"/><a:ext cx="700" cy="800"/></a:xfrm></p:spPr></p:pic><p:sp><p:nvSpPr><p:cNvPr id="4" name="TextBox 3"/><p:cNvSpPr/><p:nvPr/></p:nvSpPr><p:spPr><a:xfrm><a:off x="900" y="1000"/><a:ext cx="1100" cy="1200"/></a:xfrm></p:spPr><p:txBody><a:bodyPr/><a:lstStyle/><a:p><a:r><a:t>World</a:t></a:r></a:p></p:txBody></p:sp></p:spTree></p:cSld></p:sld>"#;

const SLIDE_WITH_GROUP: &[u8] = br#"<?xml version="1.0" encoding="UTF-8" standalone="yes"?>
<p:sld xmlns:a="http://schemas.openxmlformats.org/drawingml/2006/main" xmlns:p="http://schemas.openxmlformats.org/presentationml/2006/main"><p:cSld><p:spTree><p:grpSp><p:nvGrpSpPr><p:cNvPr id="2" name="Group 1"/><p:cNvGrpSpPr/><p:nvPr/></p:nvGrpSpPr><p:grpSpPr><a:xfrm><a:off x="0" y="0"/><a:ext cx="5000000" cy="3000000"/><a:chOff x="0" y="0"/><a:chExt cx="5000000" cy="3000000"/></a:xfrm></p:grpSpPr><p:sp><p:nvSpPr><p:cNvPr id="3" name="Rect 1"/><p:cNvSpPr/><p:nvPr/></p:nvSpPr><p:spPr><a:xfrm><a:off x="100" y="200"/><a:ext cx="1000" cy="800"/></a:xfrm><a:prstGeom prst="rect"><a:avLst/></a:prstGeom></p:spPr><p:txBody><a:bodyPr/><a:lstStyle/><a:p/></p:txBody></p:sp><p:sp><p:nvSpPr><p:cNvPr id="4" name="Ellipse 1"/><p:cNvSpPr/><p:nvPr/></p:nvSpPr><p:spPr><a:xfrm><a:off x="2000" y="500"/><a:ext cx="1500" cy="1500"/></a:xfrm><a:prstGeom prst="ellipse"><a:avLst/></a:prstGeom></p:spPr><p:txBody><a:bodyPr/><a:lstStyle/><a:p/></p:txBody></p:sp></p:grpSp><p:sp><p:nvSpPr><p:cNvPr id="5" name="Outside Shape"/><p:cNvSpPr/><p:nvPr/></p:nvSpPr><p:spPr><a:xfrm><a:off x="6000000" y="0"/><a:ext cx="2000000" cy="1000000"/></a:xfrm><a:prstGeom prst="rect"><a:avLst/></a:prstGeom></p:spPr><p:txBody><a:bodyPr/><a:lstStyle/><a:p><a:r><a:t>Outside</a:t></a:r></a:p></p:txBody></p:sp></p:spTree></p:cSld></p:sld>"#;

const SLIDE_WITH_NESTED_GROUP: &[u8] = br#"<?xml version="1.0" encoding="UTF-8" standalone="yes"?>
<p:sld xmlns:a="http://schemas.openxmlformats.org/drawingml/2006/main" xmlns:p="http://schemas.openxmlformats.org/presentationml/2006/main"><p:cSld><p:spTree><p:grpSp><p:nvGrpSpPr><p:cNvPr id="2" name="Outer Group"/><p:cNvGrpSpPr/><p:nvPr/></p:nvGrpSpPr><p:grpSpPr><a:xfrm><a:off x="0" y="0"/><a:ext cx="8000000" cy="5000000"/><a:chOff x="0" y="0"/><a:chExt cx="8000000" cy="5000000"/></a:xfrm></p:grpSpPr><p:grpSp><p:nvGrpSpPr><p:cNvPr id="3" name="Inner Group"/><p:cNvGrpSpPr/><p:nvPr/></p:nvGrpSpPr><p:grpSpPr><a:xfrm><a:off x="0" y="0"/><a:ext cx="4000000" cy="3000000"/><a:chOff x="0" y="0"/><a:chExt cx="4000000" cy="3000000"/></a:xfrm></p:grpSpPr><p:sp><p:nvSpPr><p:cNvPr id="4" name="Nested Rect"/><p:cNvSpPr/><p:nvPr/></p:nvSpPr><p:spPr><a:xfrm><a:off x="100" y="100"/><a:ext cx="500" cy="500"/></a:xfrm><a:prstGeom prst="rect"><a:avLst/></a:prstGeom></p:spPr><p:txBody><a:bodyPr/><a:lstStyle/><a:p/></p:txBody></p:sp></p:grpSp><p:sp><p:nvSpPr><p:cNvPr id="5" name="Sibling in Outer"/><p:cNvSpPr/><p:nvPr/></p:nvSpPr><p:spPr><a:xfrm><a:off x="5000000" y="0"/><a:ext cx="2000000" cy="1000000"/></a:xfrm><a:prstGeom prst="ellipse"><a:avLst/></a:prstGeom></p:spPr><p:txBody><a:bodyPr/><a:lstStyle/><a:p/></p:txBody></p:sp></p:grpSp></p:spTree></p:cSld></p:sld>"#;

#[test]
fn reads_text_and_counts() {
    let dom = SlideDom::parse(SLIDE).unwrap();
    assert_eq!(dom.text(), "Old Title\nBullet one\nBullet two");
    assert_eq!(dom.body_paragraph_count(), 2);
}

#[test]
fn set_title_is_surgical() {
    let mut dom = SlideDom::parse(SLIDE).unwrap();
    dom.set_title("New Title").unwrap();
    let s = String::from_utf8(dom.to_bytes()).unwrap();
    // New text present; old gone.
    assert!(s.contains("<a:t>New Title</a:t>"), "{s}");
    assert!(!s.contains("Old Title"));
    // Preserved the title run's formatting (b="1") and the whole body shape.
    assert!(
        s.contains(r#"<a:rPr lang="en-US" b="1"/>"#),
        "rPr preserved: {s}"
    );
    assert!(s.contains("<a:t>Bullet one</a:t>"), "body untouched: {s}");
    assert!(s.contains("<a:t>Bullet two</a:t>"));
    // Title shape's spPr/placeholder binding intact.
    assert!(s.contains(r#"<p:ph type="title"/>"#));
}

#[test]
fn set_body_bullets_preserves_title_and_formatting() {
    let mut dom = SlideDom::parse(SLIDE).unwrap();
    dom.set_body_bullets(&[("New A".into(), 0), ("New B".into(), 1)])
        .unwrap();
    let s = String::from_utf8(dom.to_bytes()).unwrap();
    // New bullets present; old body text gone.
    assert!(s.contains("<a:t>New A</a:t>"), "{s}");
    assert!(s.contains("<a:t>New B</a:t>"));
    assert!(!s.contains("Bullet one"));
    assert!(!s.contains("Bullet two"));
    // Level applied on the nested bullet.
    assert!(s.contains(r#"lvl="1""#), "level set: {s}");
    // Title shape untouched (text + formatting preserved).
    assert!(s.contains("<a:t>Old Title</a:t>"), "title preserved: {s}");
    assert!(s.contains(r#"<a:rPr lang="en-US" b="1"/>"#));
}

#[test]
fn add_text_box_appends_with_unique_id_preserving_existing() {
    let mut dom = SlideDom::parse(SLIDE).unwrap();
    let id = dom.add_text_box("Hello box", 100, 200, 300, 400).unwrap();
    // Existing shapes use ids 2 and 3 → new id is 4.
    assert_eq!(id, 4);
    let s = String::from_utf8(dom.to_bytes()).unwrap();
    assert!(s.contains(r#"<p:cNvPr id="4" name="TextBox 4"/>"#), "{s}");
    assert!(s.contains("<a:t>Hello box</a:t>"));
    assert!(s.contains(r#"txBox="1""#));
    // Both original shapes preserved verbatim.
    assert!(s.contains("<a:t>Old Title</a:t>"));
    assert!(s.contains("<a:t>Bullet one</a:t>"));
    // New shape sits inside the spTree.
    assert!(dom.shapes().len() == 3, "now three p:sp shapes");
}

#[test]
fn set_title_preserves_body_shape_byte_for_byte() {
    let mut dom = SlideDom::parse(SLIDE).unwrap();
    dom.set_title("X").unwrap();
    let out = String::from_utf8(dom.to_bytes()).unwrap();
    let src = String::from_utf8(SLIDE.to_vec()).unwrap();
    // Everything from the body shape onward is byte-identical to the source.
    let anchor = "<p:sp><p:nvSpPr><p:cNvPr id=\"3\"";
    assert_eq!(
        &out[out.find(anchor).unwrap()..],
        &src[src.find(anchor).unwrap()..]
    );
}

#[test]
fn delete_shape_removes_and_preserves_siblings() {
    let mut dom = SlideDom::parse(MULTI_SHAPE_SLIDE).unwrap();
    let src = String::from_utf8(MULTI_SHAPE_SLIDE.to_vec()).unwrap();
    // Delete the picture (index 1).
    dom.delete_shape(1).unwrap();
    let out = String::from_utf8(dom.to_bytes()).unwrap();
    // Picture is gone.
    assert!(!out.contains("Picture 2"), "pic removed: {out}");
    assert!(!out.contains("p:pic"), "p:pic tag removed: {out}");
    // Remaining shapes preserved byte-for-byte.
    let anchor0 = r#"<p:sp><p:nvSpPr><p:cNvPr id="2""#;
    let anchor2 = r#"<p:sp><p:nvSpPr><p:cNvPr id="4""#;
    // Shape 0 (Title 1) preserved.
    let src_s0_start = src.find(anchor0).unwrap();
    let src_s0_end = src.find("<p:pic>").unwrap();
    let out_s0_start = out.find(anchor0).unwrap();
    let out_s0_end = out.find(anchor2).unwrap();
    assert_eq!(
        &out[out_s0_start..out_s0_end],
        &src[src_s0_start..src_s0_end],
        "shape 0 preserved"
    );
    // Shape 2 (TextBox 3) preserved.
    assert!(out.contains("<a:t>World</a:t>"), "shape 2 text preserved");
}

#[test]
fn delete_shape_error_on_invalid_index() {
    let mut dom = SlideDom::parse(MULTI_SHAPE_SLIDE).unwrap();
    let err = dom.delete_shape(99);
    assert!(err.is_err());
    let msg = err.unwrap_err().to_string();
    assert!(msg.contains("out of range"), "got: {msg}");
}

#[test]
fn reorder_shape_moves_to_front() {
    let mut dom = SlideDom::parse(MULTI_SHAPE_SLIDE).unwrap();
    // Move shape 2 (TextBox 3) to position 0.
    dom.reorder_shape(2, 0).unwrap();
    let inv = dom.shape_inventory();
    assert_eq!(inv[0].name, "TextBox 3");
    assert_eq!(inv[1].name, "Title 1");
    assert_eq!(inv[2].name, "Picture 2");
}

#[test]
fn reorder_shape_moves_to_back() {
    let mut dom = SlideDom::parse(MULTI_SHAPE_SLIDE).unwrap();
    // Move shape 0 (Title 1) to position 2.
    dom.reorder_shape(0, 2).unwrap();
    let inv = dom.shape_inventory();
    assert_eq!(inv[0].name, "Picture 2");
    assert_eq!(inv[1].name, "TextBox 3");
    assert_eq!(inv[2].name, "Title 1");
}

#[test]
fn reorder_shape_noop_same_index() {
    let dom_before = SlideDom::parse(MULTI_SHAPE_SLIDE).unwrap();
    let mut dom = SlideDom::parse(MULTI_SHAPE_SLIDE).unwrap();
    dom.reorder_shape(1, 1).unwrap();
    // Byte-identical when from == to.
    assert_eq!(dom.to_bytes(), dom_before.to_bytes());
}

#[test]
fn reorder_shape_preserves_siblings_byte_for_byte() {
    let mut dom = SlideDom::parse(MULTI_SHAPE_SLIDE).unwrap();
    let src = String::from_utf8(MULTI_SHAPE_SLIDE.to_vec()).unwrap();
    // Move shape 0 to position 1 — shape 2 (TextBox 3) should be untouched.
    dom.reorder_shape(0, 1).unwrap();
    let out = String::from_utf8(dom.to_bytes()).unwrap();
    // TextBox 3 content preserved.
    let anchor = r#"<p:sp><p:nvSpPr><p:cNvPr id="4" name="TextBox 3"/>"#;
    let src_frag = &src[src.find(anchor).unwrap()..src.rfind("</p:spTree>").unwrap()];
    let out_frag = &out[out.find(anchor).unwrap()..out.rfind("</p:spTree>").unwrap()];
    assert_eq!(out_frag, src_frag, "sibling shape byte-identical");
}

#[test]
fn reorder_shape_error_on_invalid_from() {
    let mut dom = SlideDom::parse(MULTI_SHAPE_SLIDE).unwrap();
    let err = dom.reorder_shape(99, 0);
    assert!(err.is_err());
    let msg = err.unwrap_err().to_string();
    assert!(msg.contains("from_idx"), "got: {msg}");
}

#[test]
fn reorder_shape_error_on_invalid_to() {
    let mut dom = SlideDom::parse(MULTI_SHAPE_SLIDE).unwrap();
    let err = dom.reorder_shape(0, 99);
    assert!(err.is_err());
    let msg = err.unwrap_err().to_string();
    assert!(msg.contains("to_idx"), "got: {msg}");
}

#[test]
fn shape_inventory_returns_correct_info() {
    let dom = SlideDom::parse(MULTI_SHAPE_SLIDE).unwrap();
    let inv = dom.shape_inventory();
    assert_eq!(inv.len(), 3);

    // Shape 0: sp with text.
    assert_eq!(inv[0].id, 2);
    assert_eq!(inv[0].name, "Title 1");
    assert_eq!(inv[0].shape_type, "sp");
    assert_eq!(inv[0].geometry, Some((100, 200, 3000, 4000)));
    assert_eq!(inv[0].text, Some("Hello".to_string()));

    // Shape 1: pic (no text body).
    assert_eq!(inv[1].id, 3);
    assert_eq!(inv[1].name, "Picture 2");
    assert_eq!(inv[1].shape_type, "pic");
    assert_eq!(inv[1].geometry, Some((500, 600, 700, 800)));
    assert_eq!(inv[1].text, None);

    // Shape 2: sp with text.
    assert_eq!(inv[2].id, 4);
    assert_eq!(inv[2].name, "TextBox 3");
    assert_eq!(inv[2].shape_type, "sp");
    assert_eq!(inv[2].geometry, Some((900, 1000, 1100, 1200)));
    assert_eq!(inv[2].text, Some("World".to_string()));
}

#[test]
fn shape_inventory_empty_on_no_shapes() {
    let xml = br#"<?xml version="1.0" encoding="UTF-8" standalone="yes"?>
<p:sld xmlns:a="http://schemas.openxmlformats.org/drawingml/2006/main" xmlns:p="http://schemas.openxmlformats.org/presentationml/2006/main"><p:cSld><p:spTree></p:spTree></p:cSld></p:sld>"#;
    let dom = SlideDom::parse(xml).unwrap();
    assert_eq!(dom.shape_inventory().len(), 0);
}

#[test]
fn add_autoshape_emits_prst_geom() {
    let mut dom = SlideDom::parse(SLIDE).unwrap();
    let id = dom
        .add_autoshape("star5", 100000, 200000, 300000, 400000)
        .unwrap();
    assert!(id > 0);
    let s = String::from_utf8(dom.to_bytes()).unwrap();
    assert!(
        s.contains(r#"<a:prstGeom prst="star5"><a:avLst/></a:prstGeom>"#),
        "prstGeom with star5 present: {s}"
    );
    assert!(
        s.contains(r#"<a:off x="100000" y="200000"/>"#),
        "position correct: {s}"
    );
    assert!(
        s.contains(r#"<a:ext cx="300000" cy="400000"/>"#),
        "size correct: {s}"
    );
    // Original shapes preserved.
    assert!(s.contains("<a:t>Old Title</a:t>"), "title preserved: {s}");
    assert!(s.contains("<a:t>Bullet one</a:t>"), "body preserved: {s}");
}

#[test]
fn add_autoshape_various_presets() {
    let mut dom = SlideDom::parse(SLIDE).unwrap();
    for prst in &[
        "rect",
        "ellipse",
        "roundRect",
        "flowChartDecision",
        "actionButtonHome",
    ] {
        let id = dom.add_autoshape(prst, 0, 0, 100000, 100000).unwrap();
        assert!(id > 0);
        let s = String::from_utf8(dom.to_bytes()).unwrap();
        assert!(
            s.contains(&format!(
                r#"<a:prstGeom prst="{prst}"><a:avLst/></a:prstGeom>"#
            )),
            "prstGeom with {prst} present: {s}"
        );
    }
}

#[test]
fn add_straight_connector_creates_correct_xml() {
    let mut dom = SlideDom::parse(SLIDE).unwrap();
    let id = dom
        .add_connector(ConnectorType::Straight, None, None, 100, 200, 5000, 0)
        .unwrap();
    assert_eq!(id, 4); // existing shapes use ids 2 and 3
    let s = String::from_utf8(dom.to_bytes()).unwrap();
    // Verify the cxnSp element structure.
    assert!(s.contains("<p:cxnSp>"), "cxnSp present: {s}");
    assert!(
        s.contains(&format!(r#"<p:cNvPr id="{id}" name="Connector {id}"/>"#)),
        "cNvPr with correct id/name: {s}"
    );
    assert!(
        s.contains("<p:cNvCxnSpPr/>"),
        "self-closing cNvCxnSpPr (no anchors): {s}"
    );
    assert!(
        s.contains(r#"<a:prstGeom prst="straightConnector1"><a:avLst/></a:prstGeom>"#),
        "straight preset: {s}"
    );
    assert!(s.contains(r#"<a:off x="100" y="200"/>"#), "position: {s}");
    assert!(s.contains(r#"<a:ext cx="5000" cy="0"/>"#), "size: {s}");
}

#[test]
fn add_elbow_connector_with_anchors() {
    let mut dom = SlideDom::parse(SLIDE).unwrap();
    let start = ConnectorAnchor {
        shape_id: 2,
        connection_idx: 1,
    };
    let end = ConnectorAnchor {
        shape_id: 3,
        connection_idx: 3,
    };
    let id = dom
        .add_connector(
            ConnectorType::Elbow,
            Some(start),
            Some(end),
            0,
            0,
            3000,
            2000,
        )
        .unwrap();
    assert_eq!(id, 4);
    let s = String::from_utf8(dom.to_bytes()).unwrap();
    assert!(
        s.contains(r#"<a:prstGeom prst="bentConnector3"><a:avLst/></a:prstGeom>"#),
        "elbow preset: {s}"
    );
    assert!(
        s.contains(r#"<a:stCxn id="2" idx="1"/>"#),
        "start anchor: {s}"
    );
    assert!(
        s.contains(r#"<a:endCxn id="3" idx="3"/>"#),
        "end anchor: {s}"
    );
}

#[test]
fn add_curved_connector() {
    let mut dom = SlideDom::parse(SLIDE).unwrap();
    let id = dom
        .add_connector(ConnectorType::Curved, None, None, 500, 600, 4000, 3000)
        .unwrap();
    assert_eq!(id, 4);
    let s = String::from_utf8(dom.to_bytes()).unwrap();
    assert!(
        s.contains(r#"<a:prstGeom prst="curvedConnector3"><a:avLst/></a:prstGeom>"#),
        "curved preset: {s}"
    );
    assert!(s.contains(r#"<a:off x="500" y="600"/>"#), "position: {s}");
    assert!(s.contains(r#"<a:ext cx="4000" cy="3000"/>"#), "size: {s}");
}

#[test]
fn connector_without_anchors_free_floating() {
    let mut dom = SlideDom::parse(SLIDE).unwrap();
    let id = dom
        .add_connector(ConnectorType::Straight, None, None, 0, 0, 1000, 1000)
        .unwrap();
    assert_eq!(id, 4);
    let s = String::from_utf8(dom.to_bytes()).unwrap();
    // No stCxn or endCxn elements.
    assert!(!s.contains("a:stCxn"), "no start anchor: {s}");
    assert!(!s.contains("a:endCxn"), "no end anchor: {s}");
    // cNvCxnSpPr is self-closing (empty).
    assert!(s.contains("<p:cNvCxnSpPr/>"), "empty cNvCxnSpPr: {s}");
}

#[test]
fn connector_preserves_sibling_shapes() {
    let mut dom = SlideDom::parse(SLIDE).unwrap();
    dom.add_connector(ConnectorType::Elbow, None, None, 0, 0, 1000, 1000)
        .unwrap();
    let s = String::from_utf8(dom.to_bytes()).unwrap();
    // Both original shapes preserved verbatim.
    assert!(s.contains("<a:t>Old Title</a:t>"), "title preserved: {s}");
    assert!(s.contains("<a:t>Bullet one</a:t>"), "body preserved: {s}");
    assert!(s.contains("<a:t>Bullet two</a:t>"), "body preserved: {s}");
    assert!(
        s.contains(r#"<a:rPr lang="en-US" b="1"/>"#),
        "title rPr preserved: {s}"
    );
}

#[test]
fn add_freeform_inserts_shape_into_sptree() {
    let mut dom = SlideDom::parse(SLIDE).unwrap();
    let mut path = FreeformPath::new(500, 500);
    path.move_to(0, 0).line_to(500, 0).line_to(250, 500).close();
    let id = dom
        .add_freeform(&path, 100000, 200000, 300000, 400000)
        .unwrap();
    assert_eq!(id, 4); // existing shapes use ids 2 and 3
    let s = String::from_utf8(dom.to_bytes()).unwrap();
    // Verify the shape is present with correct structure.
    assert!(s.contains("<p:sp>"), "sp element present");
    assert!(
        s.contains(&format!(r#"<p:cNvPr id="{id}" name="Freeform {id}"/>"#)),
        "cNvPr with correct id/name: {s}"
    );
    assert!(
        s.contains(r#"<a:off x="100000" y="200000"/>"#),
        "position: {s}"
    );
    assert!(
        s.contains(r#"<a:ext cx="300000" cy="400000"/>"#),
        "size: {s}"
    );
    // Verify custGeom is present (not prstGeom).
    assert!(s.contains("<a:custGeom>"), "custGeom present: {s}");
    assert!(
        s.contains(r#"<a:path w="500" h="500">"#),
        "path dimensions: {s}"
    );
    assert!(
        s.contains(r#"<a:moveTo><a:pt x="0" y="0"/></a:moveTo>"#),
        "moveTo in shape: {s}"
    );
    assert!(
        s.contains(r#"<a:lnTo><a:pt x="500" y="0"/></a:lnTo>"#),
        "lineTo in shape: {s}"
    );
    assert!(s.contains("<a:close/>"), "close in shape: {s}");
}

#[test]
fn add_freeform_preserves_sibling_shapes() {
    let mut dom = SlideDom::parse(SLIDE).unwrap();
    let mut path = FreeformPath::new(100, 100);
    path.move_to(0, 0).line_to(100, 100);
    dom.add_freeform(&path, 0, 0, 100, 100).unwrap();
    let s = String::from_utf8(dom.to_bytes()).unwrap();
    // Both original shapes preserved verbatim.
    assert!(s.contains("<a:t>Old Title</a:t>"), "title preserved: {s}");
    assert!(s.contains("<a:t>Bullet one</a:t>"), "body preserved: {s}");
    assert!(s.contains("<a:t>Bullet two</a:t>"), "body preserved: {s}");
    assert!(
        s.contains(r#"<a:rPr lang="en-US" b="1"/>"#),
        "title rPr preserved: {s}"
    );
}

#[test]
fn group_shapes_returns_child_shapes() {
    let dom = SlideDom::parse(SLIDE_WITH_GROUP).unwrap();
    // Shape 0 is the group (grpSp), shape 1 is the outside shape.
    let children = dom.group_shapes(0).unwrap();
    assert_eq!(children.len(), 2, "group has 2 child shapes");
    // First child is the rectangle.
    assert_eq!(children[0].local_name(), b"sp");
    let cnvpr0 = children[0].find_descendant(b"cNvPr").unwrap();
    assert_eq!(cnvpr0.attr(b"name").unwrap(), b"Rect 1");
    // Second child is the ellipse.
    assert_eq!(children[1].local_name(), b"sp");
    let cnvpr1 = children[1].find_descendant(b"cNvPr").unwrap();
    assert_eq!(cnvpr1.attr(b"name").unwrap(), b"Ellipse 1");
}

#[test]
fn group_shapes_error_when_not_a_group() {
    let dom = SlideDom::parse(SLIDE_WITH_GROUP).unwrap();
    // Shape 1 is a regular sp, not a group.
    let result = dom.group_shapes(1);
    assert!(result.is_err());
    let err_msg = result.unwrap_err().to_string();
    assert!(
        err_msg.contains("not a group"),
        "error mentions not a group: {err_msg}"
    );
}

#[test]
fn group_shapes_error_on_out_of_range() {
    let dom = SlideDom::parse(SLIDE_WITH_GROUP).unwrap();
    let result = dom.group_shapes(99);
    assert!(result.is_err());
}

#[test]
fn nested_groups_can_be_traversed() {
    let dom = SlideDom::parse(SLIDE_WITH_NESTED_GROUP).unwrap();
    // Shape 0 is the outer group.
    let outer_children = dom.group_shapes(0).unwrap();
    assert_eq!(
        outer_children.len(),
        2,
        "outer group has 2 children (inner group + shape)"
    );
    // First child is the inner group.
    assert_eq!(outer_children[0].local_name(), b"grpSp");
    let inner_cnvpr = outer_children[0].find_descendant(b"cNvPr").unwrap();
    assert_eq!(inner_cnvpr.attr(b"name").unwrap(), b"Inner Group");
    // Second child is a sibling shape in the outer group.
    assert_eq!(outer_children[1].local_name(), b"sp");
    let sibling_cnvpr = outer_children[1].find_descendant(b"cNvPr").unwrap();
    assert_eq!(sibling_cnvpr.attr(b"name").unwrap(), b"Sibling in Outer");

    // We can also traverse the inner group's children by finding it in the
    // outer group's child list. The inner group contains one shape.
    let inner_grp = outer_children[0];
    let child_shape_locals: &[&[u8]] = &[b"sp", b"pic", b"graphicFrame", b"cxnSp", b"grpSp"];
    let inner_children: Vec<&Element> = inner_grp
        .children
        .iter()
        .filter_map(|n| match n {
            Node::Element(e) if child_shape_locals.contains(&e.local_name()) => Some(e),
            _ => None,
        })
        .collect();
    assert_eq!(inner_children.len(), 1, "inner group has 1 child shape");
    let nested_cnvpr = inner_children[0].find_descendant(b"cNvPr").unwrap();
    assert_eq!(nested_cnvpr.attr(b"name").unwrap(), b"Nested Rect");
}

#[test]
fn add_shape_to_group_inserts_correctly() {
    let mut dom = SlideDom::parse(SLIDE_WITH_GROUP).unwrap();
    let id = dom
        .add_shape_to_group(0, "roundRect", 500, 600, 2000, 1000)
        .unwrap();
    // Existing shapes use ids 2..5, so new id is 6.
    assert_eq!(id, 6);
    let s = String::from_utf8(dom.to_bytes()).unwrap();
    // The new shape is inside the group.
    assert!(
        s.contains(&format!(r#"<p:cNvPr id="{id}" name="Shape {id}"/>"#)),
        "new shape has correct id/name: {s}"
    );
    assert!(
        s.contains(r#"<a:prstGeom prst="roundRect"><a:avLst/></a:prstGeom>"#),
        "preset geometry correct: {s}"
    );
    // Verify the new shape is inside the grpSp (before the closing </p:grpSp>).
    let grp_end = s.find("</p:grpSp>").expect("grpSp closing tag");
    let new_shape_pos = s
        .find(&format!(r#"id="{id}""#))
        .expect("new shape in output");
    assert!(
        new_shape_pos < grp_end,
        "new shape is inside the group element"
    );
    // Group now has 3 child shapes.
    let children = dom.group_shapes(0).unwrap();
    assert_eq!(children.len(), 3, "group now has 3 children");
}

#[test]
fn add_shape_to_group_error_when_not_a_group() {
    let mut dom = SlideDom::parse(SLIDE_WITH_GROUP).unwrap();
    // Shape 1 is a regular sp, not a group.
    let result = dom.add_shape_to_group(1, "rect", 0, 0, 100, 100);
    assert!(result.is_err());
    let err_msg = result.unwrap_err().to_string();
    assert!(
        err_msg.contains("not a group"),
        "error mentions not a group: {err_msg}"
    );
}

#[test]
fn add_shape_to_group_preserves_sibling_shapes_outside() {
    let mut dom = SlideDom::parse(SLIDE_WITH_GROUP).unwrap();
    dom.add_shape_to_group(0, "rect", 0, 0, 100, 100).unwrap();
    let s = String::from_utf8(dom.to_bytes()).unwrap();
    // The outside shape is preserved verbatim.
    assert!(
        s.contains(r#"<p:cNvPr id="5" name="Outside Shape"/>"#),
        "outside shape preserved: {s}"
    );
    assert!(
        s.contains("<a:t>Outside</a:t>"),
        "outside shape text preserved: {s}"
    );
    // The original group children are preserved.
    assert!(s.contains(r#"name="Rect 1""#), "rect preserved: {s}");
    assert!(s.contains(r#"name="Ellipse 1""#), "ellipse preserved: {s}");
}

#[test]
fn group_slide_round_trips_byte_for_byte_when_unedited() {
    let dom = SlideDom::parse(SLIDE_WITH_GROUP).unwrap();
    assert_eq!(dom.to_bytes(), SLIDE_WITH_GROUP);
}

#[test]
fn reorder_shape_moves_one_drawable_and_keeps_the_rest_in_order() {
    let mut dom = SlideDom::parse(MULTI_SHAPE_SLIDE).unwrap();
    let bytes_of = |dom: &SlideDom| -> Vec<Vec<u8>> {
        dom.drawables()
            .iter()
            .map(|e| {
                let mut out = Vec::new();
                e.write(&mut out);
                out
            })
            .collect()
    };
    let before = bytes_of(&dom);
    dom.reorder_shape(0, 1).unwrap();
    let after = bytes_of(&dom);
    let mut expected = before.clone();
    let moved = expected.remove(0);
    expected.insert(1, moved);
    assert_eq!(after, expected);
}

#[test]
fn reorder_shape_equal_indices_out_of_range_fails() {
    let mut dom = SlideDom::parse(MULTI_SHAPE_SLIDE).unwrap();
    let before = dom.to_bytes();
    assert!(dom.reorder_shape(5, 5).is_err());
    assert_eq!(dom.to_bytes(), before);
}
