use zavora_slide::presentation::{Presentation, SlideSize};

const SAMPLE: &[u8] = br#"<?xml version="1.0" encoding="UTF-8" standalone="yes"?>
<p:presentation xmlns:a="http://schemas.openxmlformats.org/drawingml/2006/main" xmlns:r="http://schemas.openxmlformats.org/officeDocument/2006/relationships" xmlns:p="http://schemas.openxmlformats.org/presentationml/2006/main">
<p:sldMasterIdLst><p:sldMasterId id="2147483648" r:id="rId1"/></p:sldMasterIdLst>
<p:sldIdLst><p:sldId id="256" r:id="rId2"/><p:sldId id="257" r:id="rId3"/></p:sldIdLst>
<p:sldSz cx="12192000" cy="6858000" type="screen16x9"/>
<p:notesSz cx="6858000" cy="9144000"/>
<p:defaultTextStyle><a:defPPr/></p:defaultTextStyle>
</p:presentation>"#;

#[test]
fn parse_fields() {
    let p = Presentation::from_xml(SAMPLE).unwrap();
    assert_eq!(p.master_ids.len(), 1);
    assert_eq!(p.master_ids[0].id, 2147483648);
    assert_eq!(p.master_ids[0].r_id, "rId1");
    assert_eq!(p.slide_ids.len(), 2);
    assert_eq!(p.slide_ids[1].id, 257);
    assert_eq!(p.slide_size.cx, 12192000);
    assert_eq!(p.slide_size.ty.as_deref(), Some("screen16x9"));
    // notesSz is now typed.
    assert_eq!(p.notes_size.cx, 6858000);
    assert_eq!(p.notes_size.cy, 9144000);
    // defaultTextStyle is unmodeled → captured.
    assert_eq!(p.extra_children.len(), 1);
}

#[test]
fn round_trip_preserves_fields_and_extras() {
    let p1 = Presentation::from_xml(SAMPLE).unwrap();
    let xml = p1.to_xml().unwrap();
    let p2 = Presentation::from_xml(&xml).unwrap();
    assert_eq!(p1.master_ids, p2.master_ids);
    assert_eq!(p1.slide_ids, p2.slide_ids);
    assert_eq!(p1.slide_size, p2.slide_size);
    assert_eq!(p1.notes_size, p2.notes_size);
    // notesSz is emitted, and the captured defaultTextStyle survives.
    assert!(String::from_utf8_lossy(&xml).contains("notesSz"));
    assert!(String::from_utf8_lossy(&xml).contains("defaultTextStyle"));
    assert_eq!(p2.extra_children.len(), 1);
}

#[test]
fn new_is_blank_16x9() {
    let p = Presentation::new();
    assert!(p.slide_ids.is_empty());
    assert_eq!(p.slide_size, SlideSize::widescreen());
    let xml = String::from_utf8(p.to_xml().unwrap()).unwrap();
    assert!(xml.contains("screen16x9"));
    assert!(xml.contains("notesSz"));
    assert!(xml.contains("p:presentation"));
}

#[test]
fn blank_presentation_serializes_exactly() {
    let xml = Presentation::new().to_xml().unwrap();
    let expected = [
        r#"<?xml version="1.0" encoding="UTF-8" standalone="yes"?>"#,
        r#"<p:presentation xmlns:a="http://schemas.openxmlformats.org/drawingml/2006/main" xmlns:r="http://schemas.openxmlformats.org/officeDocument/2006/relationships" xmlns:p="http://schemas.openxmlformats.org/presentationml/2006/main">"#,
        r#"<p:sldSz cx="12192000" cy="6858000" type="screen16x9"/><p:notesSz cx="6858000" cy="9144000"/></p:presentation>"#,
    ]
    .join("");
    assert_eq!(String::from_utf8(xml).unwrap(), expected);
}

#[test]
fn id_lists_and_attribute_values_are_escaped_when_written() {
    let mut p = Presentation::from_xml(SAMPLE).unwrap();
    p.slide_ids[0].r_id = "a&\"b".to_string();
    let xml = String::from_utf8(p.to_xml().unwrap()).unwrap();
    assert!(xml.contains(r#"<p:sldIdLst><p:sldId id="256" r:id="a&amp;&quot;b"/><p:sldId id="257" r:id="rId3"/></p:sldIdLst>"#), "{xml}");
    assert!(xml.ends_with("<p:defaultTextStyle><a:defPPr/></p:defaultTextStyle></p:presentation>"), "{xml}");
}

#[test]
fn non_numeric_id_reads_as_zero() {
    let xml = br#"<p:presentation xmlns:p="p" xmlns:r="r"><p:sldIdLst><p:sldId id="x1" r:id="rId9"/></p:sldIdLst><p:sldSz cx="-5" cy="big"/></p:presentation>"#;
    let p = Presentation::from_xml(xml).unwrap();
    assert_eq!(p.slide_ids.len(), 1);
    assert_eq!(p.slide_ids[0].id, 0);
    assert_eq!(p.slide_ids[0].r_id, "rId9");
    assert_eq!(p.slide_size, SlideSize { cx: -5, cy: 0, ty: None });
    assert_eq!(p.root_attrs.len(), 2);
}

#[test]
fn non_utf8_attribute_is_an_error() {
    let mut xml = br#"<p:presentation xmlns:p="p"><p:sldSz cx="1" type=""/></p:presentation>"#.to_vec();
    let t = xml.windows(6).position(|w| w == b"type=\"").unwrap() + 6;
    xml.insert(t, 0xff);
    let err = Presentation::from_xml(&xml);
    assert!(err.unwrap_err().to_string().starts_with("UTF-8 error: "));
}

#[test]
fn missing_root_attributes_get_default_namespaces() {
    let p = Presentation::from_xml(br#"<p:presentation><p:custShowLst/></p:presentation>"#).unwrap();
    assert_eq!(p.root_attrs.len(), 3);
    assert_eq!(p.root_attrs[2].0, "xmlns:p");
    assert_eq!(p.extra_children, vec![b"<p:custShowLst/>".to_vec()]);
    assert_eq!(p.slide_size, SlideSize { cx: 0, cy: 0, ty: None });
}
