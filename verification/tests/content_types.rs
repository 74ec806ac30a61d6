use zavora_slide::content_types::ContentTypes;

#[test]
fn round_trip_content_types() {
    let ct = ContentTypes::new_pptx();
    let xml = ct.to_xml().unwrap();
    let parsed = ContentTypes::from_xml(&xml).unwrap();
    assert_eq!(parsed.defaults.len(), ct.defaults.len());
    assert_eq!(parsed.overrides.len(), ct.overrides.len());
    assert_eq!(
        parsed.content_type_for("/ppt/presentation.xml"),
        Some("application/vnd.openxmlformats-officedocument.presentationml.presentation.main+xml")
    );
}

#[test]
fn lookup_by_extension() {
    let ct = ContentTypes::new_pptx();
    assert_eq!(
        ct.content_type_for("/ppt/_rels/presentation.xml.rels"),
        Some("application/vnd.openxmlformats-package.relationships+xml")
    );
}

#[test]
fn parsed_file_writes_back_verbatim_until_changed() {
    let src = b"<?xml version=\"1.0\"?>\n<Types xmlns=\"x\">\n  <Default Extension=\"png\" ContentType=\"image/png\"/>\n  <Override PartName=\"/a.xml\" ContentType=\"t/a\"/>\n</Types>";
    let mut ct = ContentTypes::from_xml(src).unwrap();
    assert_eq!(ct.to_xml().unwrap(), src.to_vec());
    assert_eq!(ct.content_type_for("/media/image1.png"), Some("image/png"));
    assert_eq!(ct.content_type_for("/a.xml"), Some("t/a"));
    assert_eq!(ct.content_type_for("/noext"), None);
    ct.add_override("/a.xml", "t/a");
    assert_eq!(ct.to_xml().unwrap(), src.to_vec());
    ct.add_default("png", "image/other");
    assert_eq!(ct.content_type_for("/x.png"), Some("image/png"));
    assert_eq!(ct.to_xml().unwrap(), src.to_vec());
    ct.add_default("jpeg", "image/jpeg");
    let out = String::from_utf8(ct.to_xml().unwrap()).unwrap();
    assert!(out.contains("<Default Extension=\"jpeg\" ContentType=\"image/jpeg\"/>"), "{out}");
    let jpeg = out.find("jpeg").unwrap();
    let png = out.find("png").unwrap();
    assert!(jpeg < png, "defaults are written in key order: {out}");
}

#[test]
fn entry_missing_an_attribute_is_rejected() {
    assert!(ContentTypes::from_xml(b"<Types><Default Extension=\"png\"/></Types>").is_err());
    assert!(ContentTypes::from_xml(b"<Types><Override ContentType=\"x\"/></Types>").is_err());
}

#[test]
fn override_reads_back_and_leaves_other_parts() {
    let mut ct = ContentTypes::new_pptx();
    let rels_before = ct.content_type_for("/_rels/.rels").map(|s| s.to_string());
    ct.add_override("/ppt/slides/slide1.xml", "application/slide");
    assert_eq!(ct.content_type_for("/ppt/slides/slide1.xml"), Some("application/slide"));
    ct.add_override("/ppt/slides/slide1.xml", "application/other");
    assert_eq!(ct.content_type_for("/ppt/slides/slide1.xml"), Some("application/other"));
    assert_eq!(ct.content_type_for("/_rels/.rels").map(|s| s.to_string()), rels_before);
    assert_eq!(ct.content_type_for("/ppt/slides/slide2.xml"), Some("application/xml"));
}

#[test]
fn attribute_errors_count_only_on_entries() {
    let ok = ContentTypes::from_xml(b"<Types><Foo a=\"1\" a=\"2\"/><Default Extension=\"png\" ContentType=\"image/png\"/></Types>").unwrap();
    assert_eq!(ok.content_type_for("/x.png"), Some("image/png"));
    assert!(ContentTypes::from_xml(b"<Types><Default Extension=\"png\" Extension=\"png\" ContentType=\"image/png\"/></Types>").is_err());
}

#[test]
fn fresh_table_always_serializes() {
    let mut ct = ContentTypes::new_pptx();
    ct.add_default("png", "image/png");
    let first = ct.to_xml().unwrap();
    ct.add_default("png", "image/other");
    assert_eq!(ct.to_xml().unwrap(), first);
}
