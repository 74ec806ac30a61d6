use zavora_slide::notes_dom::NotesDom;

/// A minimal notes-slide XML matching what PowerPoint emits.
fn sample_notes_xml() -> Vec<u8> {
    br#"<?xml version="1.0" encoding="UTF-8" standalone="yes"?>
<p:notes xmlns:a="http://schemas.openxmlformats.org/drawingml/2006/main" xmlns:r="http://schemas.openxmlformats.org/officeDocument/2006/relationships" xmlns:p="http://schemas.openxmlformats.org/presentationml/2006/main"><p:cSld><p:spTree><p:nvGrpSpPr><p:cNvPr id="1" name=""/><p:cNvGrpSpPr/><p:nvPr/></p:nvGrpSpPr><p:grpSpPr/><p:sp><p:nvSpPr><p:cNvPr id="2" name="Slide Image Placeholder 1"/><p:cNvSpPr><a:spLocks noGrp="1"/></p:cNvSpPr><p:nvPr><p:ph type="sldImg" idx="1"/></p:nvPr></p:nvSpPr><p:spPr/></p:sp><p:sp><p:nvSpPr><p:cNvPr id="3" name="Notes Placeholder 2"/><p:cNvSpPr><a:spLocks noGrp="1"/></p:cNvSpPr><p:nvPr><p:ph type="body" idx="1"/></p:nvPr></p:nvSpPr><p:spPr/><p:txBody><a:bodyPr/><a:lstStyle/><a:p><a:r><a:t>Original notes</a:t></a:r></a:p></p:txBody></p:sp></p:spTree></p:cSld><p:clrMapOvr><a:masterClrMapping/></p:clrMapOvr></p:notes>"#.to_vec()
}

#[test]
fn parse_and_read_notes_text() {
    let dom = NotesDom::parse(&sample_notes_xml()).unwrap();
    assert_eq!(dom.notes_text(), "Original notes");
}

#[test]
fn set_notes_text_single_line() {
    let mut dom = NotesDom::parse(&sample_notes_xml()).unwrap();
    dom.set_notes_text("Updated notes").unwrap();
    assert_eq!(dom.notes_text(), "Updated notes");
}

#[test]
fn set_notes_text_multi_line() {
    let mut dom = NotesDom::parse(&sample_notes_xml()).unwrap();
    dom.set_notes_text("Line one\nLine two\nLine three")
        .unwrap();
    assert_eq!(dom.notes_text(), "Line one\nLine two\nLine three");
}

#[test]
fn notes_edit_is_surgical() {
    let original = sample_notes_xml();
    let mut dom = NotesDom::parse(&original).unwrap();
    dom.set_notes_text("New text").unwrap();
    let output = dom.to_bytes();

    // The slide-image placeholder and other structural elements should be
    // preserved byte-for-byte. Check that the sldImg placeholder is intact.
    let output_str = String::from_utf8_lossy(&output);
    assert!(output_str.contains("Slide Image Placeholder 1"));
    assert!(output_str.contains(r#"<p:ph type="sldImg" idx="1"/>"#));
    // The notes text should be updated.
    assert!(output_str.contains("New text"));
    assert!(!output_str.contains("Original notes"));
}

#[test]
fn round_trip_unedited_is_byte_identical() {
    let original = sample_notes_xml();
    let dom = NotesDom::parse(&original).unwrap();
    assert_eq!(dom.to_bytes(), original);
}

#[test]
fn set_notes_text_copies_run_properties_and_keeps_body_properties() {
    let src = br#"<p:notes><p:cSld><p:spTree><p:sp><p:nvSpPr><p:nvPr><p:ph type="body"/></p:nvPr></p:nvSpPr><p:txBody><a:bodyPr/><a:p><a:r><a:rPr lang="en-US" sz="1200"/><a:t>x</a:t></a:r></a:p></p:txBody></p:sp></p:spTree></p:cSld></p:notes>"#;
    let mut dom = NotesDom::parse(src).unwrap();
    dom.set_notes_text("a & b\r\nc\n").unwrap();
    let out = String::from_utf8(dom.to_bytes()).unwrap();
    assert!(out.contains(r#"<a:bodyPr/><a:p><a:r><a:rPr lang="en-US" sz="1200"/><a:t>a &amp; b</a:t></a:r></a:p><a:p><a:r><a:rPr lang="en-US" sz="1200"/><a:t>c</a:t></a:r></a:p></p:txBody>"#), "{out}");
    assert_eq!(dom.notes_text(), "a & b\nc");
    dom.set_notes_text("").unwrap();
    assert_eq!(dom.notes_text(), "");
}

#[test]
fn set_notes_text_without_body_placeholder_fails_and_changes_nothing() {
    let src = br#"<p:notes><p:cSld><p:spTree><p:sp><p:nvSpPr><p:nvPr><p:ph type="sldImg"/></p:nvPr></p:nvSpPr></p:sp></p:spTree></p:cSld></p:notes>"#;
    let mut dom = NotesDom::parse(src).unwrap();
    assert!(dom.set_notes_text("x").is_err());
    assert_eq!(dom.to_bytes(), src.to_vec());
    assert_eq!(dom.notes_text(), "");
}

#[test]
fn set_notes_text_copies_paragraph_properties() {
    let src = br#"<p:notes><p:cSld><p:spTree><p:sp><p:nvSpPr><p:nvPr><p:ph type="body"/></p:nvPr></p:nvSpPr><p:txBody><a:bodyPr/><a:p><a:pPr algn="ctr"/><a:r><a:rPr b="1"/><a:t>x</a:t></a:r></a:p></p:txBody></p:sp></p:spTree></p:cSld></p:notes>"#;
    let mut dom = NotesDom::parse(src).unwrap();
    dom.set_notes_text("one\ntwo").unwrap();
    let out = String::from_utf8(dom.to_bytes()).unwrap();
    assert!(out.contains(r#"<a:bodyPr/><a:p><a:pPr algn="ctr"/><a:r><a:rPr b="1"/><a:t>one</a:t></a:r></a:p><a:p><a:pPr algn="ctr"/><a:r><a:rPr b="1"/><a:t>two</a:t></a:r></a:p></p:txBody>"#), "{out}");
    assert_eq!(dom.notes_text(), "one\ntwo");
}

#[test]
fn set_notes_text_reads_back_with_mark_after_text_body() {
    let src = br#"<p:notes><p:cSld><p:spTree><p:sp><p:txBody><a:bodyPr/><a:p><a:r><a:t>old</a:t></a:r></a:p></p:txBody><p:nvSpPr><p:nvPr><p:ph type="body"/></p:nvPr></p:nvSpPr></p:sp></p:spTree></p:cSld></p:notes>"#;
    let mut dom = NotesDom::parse(src).unwrap();
    assert_eq!(dom.notes_text(), "old");
    dom.set_notes_text("first\nsecond").unwrap();
    assert_eq!(dom.notes_text(), "first\nsecond");
}
