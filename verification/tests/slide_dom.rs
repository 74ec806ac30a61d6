use zavora_slide::paragraph::paragraph_text;
use zavora_slide::slide_dom::{BulletKind, FreeformPath, SlideDom, SpacingValue};

const SLIDE: &[u8] = br#"<?xml version="1.0" encoding="UTF-8" standalone="yes"?>
<p:sld xmlns:a="http://schemas.openxmlformats.org/drawingml/2006/main" xmlns:p="http://schemas.openxmlformats.org/presentationml/2006/main"><p:cSld><p:spTree><p:sp><p:nvSpPr><p:cNvPr id="2" name="Title 1"/><p:cNvSpPr><a:spLocks noGrp="1"/></p:cNvSpPr><p:nvPr><p:ph type="title"/></p:nvPr></p:nvSpPr><p:spPr/><p:txBody><a:bodyPr/><a:lstStyle/><a:p><a:r><a:rPr lang="en-US" b="1"/><a:t>Old Title</a:t></a:r></a:p></p:txBody></p:sp><p:sp><p:nvSpPr><p:cNvPr id="3" name="Body 2"/><p:cNvSpPr><a:spLocks noGrp="1"/></p:cNvSpPr><p:nvPr><p:ph type="body" idx="1"/></p:nvPr></p:nvSpPr><p:spPr/><p:txBody><a:bodyPr/><a:lstStyle/><a:p><a:r><a:t>Bullet one</a:t></a:r></a:p><a:p><a:r><a:t>Bullet two</a:t></a:r></a:p></p:txBody></p:sp></p:spTree></p:cSld></p:sld>"#;

const MULTI_RUN_SLIDE: &[u8] = br#"<?xml version="1.0" encoding="UTF-8" standalone="yes"?>
<p:sld xmlns:a="http://schemas.openxmlformats.org/drawingml/2006/main" xmlns:p="http://schemas.openxmlformats.org/presentationml/2006/main"><p:cSld><p:spTree><p:sp><p:nvSpPr><p:cNvPr id="2" name="Shape 1"/><p:cNvSpPr/><p:nvPr/></p:nvSpPr><p:spPr/><p:txBody><a:bodyPr/><a:lstStyle/><a:p><a:r><a:rPr lang="en-US" b="1" sz="2400"/><a:t>Hello</a:t></a:r><a:r><a:rPr lang="en-US" i="1" sz="1800"/><a:t> World</a:t></a:r></a:p></p:txBody></p:sp></p:spTree></p:cSld></p:sld>"#;

#[test]
fn unedited_slide_round_trips_byte_for_byte() {
    let dom = SlideDom::parse(SLIDE).unwrap();
    assert_eq!(dom.to_bytes(), SLIDE);
}

#[test]
fn paragraphs_returns_correct_count() {
    let dom = SlideDom::parse(SLIDE).unwrap();
    // Shape 0 = title (1 paragraph), shape 1 = body (2 paragraphs).
    assert_eq!(dom.paragraphs(0).unwrap().len(), 1);
    assert_eq!(dom.paragraphs(1).unwrap().len(), 2);
}

#[test]
fn paragraphs_error_on_missing_shape() {
    let dom = SlideDom::parse(SLIDE).unwrap();
    assert!(dom.paragraphs(99).is_err());
}

#[test]
fn add_paragraph_appends_and_preserves_siblings() {
    let mut dom = SlideDom::parse(SLIDE).unwrap();
    dom.add_paragraph(1, "New para").unwrap();
    let s = String::from_utf8(dom.to_bytes()).unwrap();
    assert!(s.contains("<a:t>New para</a:t>"), "{s}");
    // Existing paragraphs preserved byte-identical.
    assert!(s.contains("<a:r><a:t>Bullet one</a:t></a:r>"));
    assert!(s.contains("<a:r><a:t>Bullet two</a:t></a:r>"));
    // Title shape untouched.
    assert!(s.contains("<a:t>Old Title</a:t>"));
    assert_eq!(dom.paragraphs(1).unwrap().len(), 3);
}

#[test]
fn insert_paragraph_at_beginning() {
    let mut dom = SlideDom::parse(SLIDE).unwrap();
    dom.insert_paragraph(1, 0, "First").unwrap();
    let paras = dom.paragraphs(1).unwrap();
    assert_eq!(paras.len(), 3);
    assert_eq!(paragraph_text(paras[0]), "First");
    assert_eq!(paragraph_text(paras[1]), "Bullet one");
    assert_eq!(paragraph_text(paras[2]), "Bullet two");
}

#[test]
fn insert_paragraph_in_middle() {
    let mut dom = SlideDom::parse(SLIDE).unwrap();
    dom.insert_paragraph(1, 1, "Middle").unwrap();
    let paras = dom.paragraphs(1).unwrap();
    assert_eq!(paras.len(), 3);
    assert_eq!(paragraph_text(paras[0]), "Bullet one");
    assert_eq!(paragraph_text(paras[1]), "Middle");
    assert_eq!(paragraph_text(paras[2]), "Bullet two");
}

#[test]
fn insert_paragraph_preserves_siblings_byte_identical() {
    let mut dom = SlideDom::parse(SLIDE).unwrap();
    dom.insert_paragraph(1, 1, "X").unwrap();
    let s = String::from_utf8(dom.to_bytes()).unwrap();
    // The original paragraphs' raw bytes are still present verbatim.
    assert!(s.contains("<a:p><a:r><a:t>Bullet one</a:t></a:r></a:p>"));
    assert!(s.contains("<a:p><a:r><a:t>Bullet two</a:t></a:r></a:p>"));
    // Title shape is byte-identical.
    assert!(s.contains(r#"<a:rPr lang="en-US" b="1"/>"#));
}

#[test]
fn delete_paragraph_removes_correct_one() {
    let mut dom = SlideDom::parse(SLIDE).unwrap();
    dom.delete_paragraph(1, 0).unwrap();
    let paras = dom.paragraphs(1).unwrap();
    assert_eq!(paras.len(), 1);
    assert_eq!(paragraph_text(paras[0]), "Bullet two");
}

#[test]
fn delete_paragraph_preserves_siblings() {
    let mut dom = SlideDom::parse(SLIDE).unwrap();
    dom.delete_paragraph(1, 0).unwrap();
    let s = String::from_utf8(dom.to_bytes()).unwrap();
    assert!(s.contains("<a:p><a:r><a:t>Bullet two</a:t></a:r></a:p>"));
    assert!(s.contains("<a:t>Old Title</a:t>"));
}

#[test]
fn delete_paragraph_out_of_range_errors() {
    let mut dom = SlideDom::parse(SLIDE).unwrap();
    assert!(dom.delete_paragraph(1, 5).is_err());
}

#[test]
fn reorder_paragraph_moves_forward() {
    let mut dom = SlideDom::parse(SLIDE).unwrap();
    dom.reorder_paragraph(1, 0, 1).unwrap();
    let paras = dom.paragraphs(1).unwrap();
    assert_eq!(paras.len(), 2);
    assert_eq!(paragraph_text(paras[0]), "Bullet two");
    assert_eq!(paragraph_text(paras[1]), "Bullet one");
}

#[test]
fn reorder_paragraph_preserves_content() {
    let mut dom = SlideDom::parse(SLIDE).unwrap();
    dom.reorder_paragraph(1, 1, 0).unwrap();
    let paras = dom.paragraphs(1).unwrap();
    assert_eq!(paragraph_text(paras[0]), "Bullet two");
    assert_eq!(paragraph_text(paras[1]), "Bullet one");
    let s = String::from_utf8(dom.to_bytes()).unwrap();
    assert!(s.contains("<a:t>Old Title</a:t>"));
}

#[test]
fn error_on_missing_text_body() {
    let xml = br#"<?xml version="1.0" encoding="UTF-8" standalone="yes"?>
<p:sld xmlns:a="http://schemas.openxmlformats.org/drawingml/2006/main" xmlns:p="http://schemas.openxmlformats.org/presentationml/2006/main"><p:cSld><p:spTree><p:sp><p:nvSpPr><p:cNvPr id="2" name="Shape 1"/><p:cNvSpPr/><p:nvPr/></p:nvSpPr><p:spPr/></p:sp></p:spTree></p:cSld></p:sld>"#;
    let dom = SlideDom::parse(xml).unwrap();
    let err = dom.paragraphs(0);
    assert!(err.is_err());
    let msg = err.unwrap_err().to_string();
    assert!(msg.contains("no text body"), "got: {msg}");
}

#[test]
fn error_on_nonexistent_shape_index() {
    let dom = SlideDom::parse(SLIDE).unwrap();
    let err = dom.paragraphs(99);
    assert!(err.is_err());
    let msg = err.unwrap_err().to_string();
    assert!(msg.contains("no shape at index"), "got: {msg}");
}

#[test]
fn runs_returns_correct_count() {
    let dom = SlideDom::parse(MULTI_RUN_SLIDE).unwrap();
    let runs = dom.runs(0, 0).unwrap();
    assert_eq!(runs.len(), 2);
    assert_eq!(runs[0].local_name(), b"r");
    assert_eq!(runs[1].local_name(), b"r");
}

#[test]
fn runs_error_on_out_of_range_para() {
    let dom = SlideDom::parse(MULTI_RUN_SLIDE).unwrap();
    assert!(dom.runs(0, 99).is_err());
}

#[test]
fn runs_error_on_missing_shape() {
    let dom = SlideDom::parse(MULTI_RUN_SLIDE).unwrap();
    assert!(dom.runs(99, 0).is_err());
}

#[test]
fn add_run_appends_and_preserves_siblings() {
    let mut dom = SlideDom::parse(MULTI_RUN_SLIDE).unwrap();
    dom.add_run(0, 0, "!").unwrap();
    let s = String::from_utf8(dom.to_bytes()).unwrap();
    // New run appended.
    assert!(s.contains("<a:t>!</a:t>"), "{s}");
    // Existing runs preserved byte-identical (including their rPr).
    assert!(
        s.contains(r#"<a:r><a:rPr lang="en-US" b="1" sz="2400"/><a:t>Hello</a:t></a:r>"#),
        "first run preserved: {s}"
    );
    assert!(
        s.contains(r#"<a:r><a:rPr lang="en-US" i="1" sz="1800"/><a:t> World</a:t></a:r>"#),
        "second run preserved: {s}"
    );
    let runs = dom.runs(0, 0).unwrap();
    assert_eq!(runs.len(), 3);
}

#[test]
fn insert_run_at_beginning() {
    let mut dom = SlideDom::parse(MULTI_RUN_SLIDE).unwrap();
    dom.insert_run(0, 0, 0, "Start ").unwrap();
    let runs = dom.runs(0, 0).unwrap();
    assert_eq!(runs.len(), 3);
    // The inserted run is first.
    assert_eq!(
        runs[0].find_descendant(b"t").unwrap().text_content(),
        "Start "
    );
    // Original runs shifted.
    assert_eq!(
        runs[1].find_descendant(b"t").unwrap().text_content(),
        "Hello"
    );
    assert_eq!(
        runs[2].find_descendant(b"t").unwrap().text_content(),
        " World"
    );
}

#[test]
fn insert_run_in_middle() {
    let mut dom = SlideDom::parse(MULTI_RUN_SLIDE).unwrap();
    dom.insert_run(0, 0, 1, " Middle").unwrap();
    let runs = dom.runs(0, 0).unwrap();
    assert_eq!(runs.len(), 3);
    assert_eq!(
        runs[0].find_descendant(b"t").unwrap().text_content(),
        "Hello"
    );
    assert_eq!(
        runs[1].find_descendant(b"t").unwrap().text_content(),
        " Middle"
    );
    assert_eq!(
        runs[2].find_descendant(b"t").unwrap().text_content(),
        " World"
    );
}

#[test]
fn insert_run_preserves_sibling_rpr_byte_for_byte() {
    let mut dom = SlideDom::parse(MULTI_RUN_SLIDE).unwrap();
    dom.insert_run(0, 0, 1, "X").unwrap();
    let s = String::from_utf8(dom.to_bytes()).unwrap();
    // Both original runs' rPr are byte-identical.
    assert!(
        s.contains(r#"<a:rPr lang="en-US" b="1" sz="2400"/>"#),
        "first rPr preserved: {s}"
    );
    assert!(
        s.contains(r#"<a:rPr lang="en-US" i="1" sz="1800"/>"#),
        "second rPr preserved: {s}"
    );
}

#[test]
fn delete_run_removes_correct_one() {
    let mut dom = SlideDom::parse(MULTI_RUN_SLIDE).unwrap();
    dom.delete_run(0, 0, 0).unwrap();
    let runs = dom.runs(0, 0).unwrap();
    assert_eq!(runs.len(), 1);
    assert_eq!(
        runs[0].find_descendant(b"t").unwrap().text_content(),
        " World"
    );
}

#[test]
fn delete_run_preserves_sibling() {
    let mut dom = SlideDom::parse(MULTI_RUN_SLIDE).unwrap();
    dom.delete_run(0, 0, 0).unwrap();
    let s = String::from_utf8(dom.to_bytes()).unwrap();
    // Second run preserved byte-identical.
    assert!(
        s.contains(r#"<a:r><a:rPr lang="en-US" i="1" sz="1800"/><a:t> World</a:t></a:r>"#),
        "sibling preserved: {s}"
    );
}

#[test]
fn delete_run_out_of_range_errors() {
    let mut dom = SlideDom::parse(MULTI_RUN_SLIDE).unwrap();
    assert!(dom.delete_run(0, 0, 99).is_err());
}

#[test]
fn edit_run_text_changes_only_text_preserves_rpr() {
    let mut dom = SlideDom::parse(MULTI_RUN_SLIDE).unwrap();
    dom.edit_run_text(0, 0, 0, "Goodbye").unwrap();
    let s = String::from_utf8(dom.to_bytes()).unwrap();
    // Text changed.
    assert!(s.contains("<a:t>Goodbye</a:t>"), "text changed: {s}");
    assert!(!s.contains("<a:t>Hello</a:t>"), "old text gone: {s}");
    // The edited run's rPr is preserved byte-for-byte.
    assert!(
        s.contains(r#"<a:rPr lang="en-US" b="1" sz="2400"/>"#),
        "edited run rPr preserved: {s}"
    );
    // The sibling run is completely byte-identical.
    assert!(
        s.contains(r#"<a:r><a:rPr lang="en-US" i="1" sz="1800"/><a:t> World</a:t></a:r>"#),
        "sibling run byte-identical: {s}"
    );
}

#[test]
fn edit_run_text_preserves_all_sibling_runs_byte_for_byte() {
    // Edit the second run; verify the first run is byte-identical to source.
    let mut dom = SlideDom::parse(MULTI_RUN_SLIDE).unwrap();
    dom.edit_run_text(0, 0, 1, " Universe").unwrap();
    let s = String::from_utf8(dom.to_bytes()).unwrap();
    let src = String::from_utf8(MULTI_RUN_SLIDE.to_vec()).unwrap();
    // First run is byte-identical in both.
    let first_run = r#"<a:r><a:rPr lang="en-US" b="1" sz="2400"/><a:t>Hello</a:t></a:r>"#;
    assert!(s.contains(first_run), "first run byte-identical: {s}");
    assert!(src.contains(first_run));
    // Second run text changed, rPr preserved.
    assert!(s.contains("<a:t> Universe</a:t>"), "new text: {s}");
    assert!(
        s.contains(r#"<a:rPr lang="en-US" i="1" sz="1800"/>"#),
        "second rPr preserved: {s}"
    );
}

#[test]
fn edit_run_text_error_on_line_break() {
    // Insert a line break, then try to edit it — should error.
    let mut dom = SlideDom::parse(MULTI_RUN_SLIDE).unwrap();
    dom.insert_line_break(0, 0, 1).unwrap();
    let err = dom.edit_run_text(0, 0, 1, "oops");
    assert!(err.is_err());
}

#[test]
fn add_line_break_appends() {
    let mut dom = SlideDom::parse(MULTI_RUN_SLIDE).unwrap();
    dom.add_line_break(0, 0).unwrap();
    let s = String::from_utf8(dom.to_bytes()).unwrap();
    assert!(s.contains("<a:br/>"), "br appended: {s}");
    let runs = dom.runs(0, 0).unwrap();
    assert_eq!(runs.len(), 3);
    assert_eq!(runs[2].local_name(), b"br");
}

#[test]
fn insert_line_break_at_position() {
    let mut dom = SlideDom::parse(MULTI_RUN_SLIDE).unwrap();
    dom.insert_line_break(0, 0, 1).unwrap();
    let runs = dom.runs(0, 0).unwrap();
    assert_eq!(runs.len(), 3);
    assert_eq!(runs[0].local_name(), b"r");
    assert_eq!(runs[1].local_name(), b"br");
    assert_eq!(runs[2].local_name(), b"r");
}

#[test]
fn insert_line_break_preserves_sibling_runs() {
    let mut dom = SlideDom::parse(MULTI_RUN_SLIDE).unwrap();
    dom.insert_line_break(0, 0, 1).unwrap();
    let s = String::from_utf8(dom.to_bytes()).unwrap();
    assert!(
        s.contains(r#"<a:r><a:rPr lang="en-US" b="1" sz="2400"/><a:t>Hello</a:t></a:r>"#),
        "first run preserved: {s}"
    );
    assert!(
        s.contains(r#"<a:r><a:rPr lang="en-US" i="1" sz="1800"/><a:t> World</a:t></a:r>"#),
        "second run preserved: {s}"
    );
}

#[test]
fn delete_line_break() {
    let mut dom = SlideDom::parse(MULTI_RUN_SLIDE).unwrap();
    dom.insert_line_break(0, 0, 1).unwrap();
    // Now delete the line break (at run index 1).
    dom.delete_run(0, 0, 1).unwrap();
    let runs = dom.runs(0, 0).unwrap();
    assert_eq!(runs.len(), 2);
    assert_eq!(runs[0].local_name(), b"r");
    assert_eq!(runs[1].local_name(), b"r");
}

#[test]
fn run_ops_error_on_missing_text_body() {
    let xml = br#"<?xml version="1.0" encoding="UTF-8" standalone="yes"?>
<p:sld xmlns:a="http://schemas.openxmlformats.org/drawingml/2006/main" xmlns:p="http://schemas.openxmlformats.org/presentationml/2006/main"><p:cSld><p:spTree><p:sp><p:nvSpPr><p:cNvPr id="2" name="Shape 1"/><p:cNvSpPr/><p:nvPr/></p:nvSpPr><p:spPr/></p:sp></p:spTree></p:cSld></p:sld>"#;
    let mut dom = SlideDom::parse(xml).unwrap();
    assert!(dom.runs(0, 0).is_err());
    assert!(dom.add_run(0, 0, "x").is_err());
    assert!(dom.insert_run(0, 0, 0, "x").is_err());
    assert!(dom.delete_run(0, 0, 0).is_err());
    assert!(dom.edit_run_text(0, 0, 0, "x").is_err());
    assert!(dom.add_line_break(0, 0).is_err());
    assert!(dom.insert_line_break(0, 0, 0).is_err());
}

#[test]
fn freeform_triangle_path_produces_correct_xml() {
    let mut path = FreeformPath::new(1000, 1000);
    path.move_to(500, 0)
        .line_to(1000, 1000)
        .line_to(0, 1000)
        .close();
    let xml = path.build_xml();
    assert!(
        xml.contains(r#"<a:path w="1000" h="1000">"#),
        "path dimensions: {xml}"
    );
    assert!(
        xml.contains(r#"<a:moveTo><a:pt x="500" y="0"/></a:moveTo>"#),
        "moveTo: {xml}"
    );
    assert!(
        xml.contains(r#"<a:lnTo><a:pt x="1000" y="1000"/></a:lnTo>"#),
        "first lineTo: {xml}"
    );
    assert!(
        xml.contains(r#"<a:lnTo><a:pt x="0" y="1000"/></a:lnTo>"#),
        "second lineTo: {xml}"
    );
    assert!(xml.contains("<a:close/>"), "close: {xml}");
    // Verify the custGeom wrapper structure.
    assert!(xml.contains("<a:custGeom>"), "custGeom open: {xml}");
    assert!(xml.contains("<a:avLst/>"), "avLst: {xml}");
    assert!(xml.contains("<a:gdLst/>"), "gdLst: {xml}");
    assert!(xml.contains("<a:ahLst/>"), "ahLst: {xml}");
    assert!(xml.contains("<a:cxnLst/>"), "cxnLst: {xml}");
    assert!(
        xml.contains(r#"<a:rect l="0" t="0" r="0" b="0"/>"#),
        "rect: {xml}"
    );
    assert!(xml.contains("<a:pathLst>"), "pathLst: {xml}");
}

#[test]
fn freeform_cubic_path_produces_correct_xml() {
    let mut path = FreeformPath::new(2000, 1500);
    path.move_to(0, 750)
        .cubic_to(500, 0, 1500, 0, 2000, 750)
        .line_to(2000, 1500)
        .line_to(0, 1500)
        .close();
    let xml = path.build_xml();
    assert!(
        xml.contains(r#"<a:path w="2000" h="1500">"#),
        "path dimensions: {xml}"
    );
    assert!(
        xml.contains(r#"<a:moveTo><a:pt x="0" y="750"/></a:moveTo>"#),
        "moveTo: {xml}"
    );
    assert!(
        xml.contains(
            r#"<a:cubicBezTo><a:pt x="500" y="0"/><a:pt x="1500" y="0"/><a:pt x="2000" y="750"/></a:cubicBezTo>"#
        ),
        "cubicBezTo: {xml}"
    );
    assert!(
        xml.contains(r#"<a:lnTo><a:pt x="2000" y="1500"/></a:lnTo>"#),
        "lineTo after cubic: {xml}"
    );
    assert!(xml.contains("<a:close/>"), "close: {xml}");
}

#[test]
fn set_alignment_creates_ppr_if_absent() {
    let mut dom = SlideDom::parse(SLIDE).unwrap();
    dom.set_paragraph_alignment(1, 0, "ctr").unwrap();
    let s = String::from_utf8(dom.to_bytes()).unwrap();
    assert!(s.contains(r#"algn="ctr""#), "alignment set: {s}");
    // Second paragraph untouched.
    assert!(s.contains("<a:p><a:r><a:t>Bullet two</a:t></a:r></a:p>"));
}

#[test]
fn set_alignment_preserves_existing_ppr_attrs() {
    let xml = br#"<?xml version="1.0" encoding="UTF-8" standalone="yes"?>
<p:sld xmlns:a="http://schemas.openxmlformats.org/drawingml/2006/main" xmlns:p="http://schemas.openxmlformats.org/presentationml/2006/main"><p:cSld><p:spTree><p:sp><p:nvSpPr><p:cNvPr id="2" name="S"/><p:cNvSpPr/><p:nvPr><p:ph type="body"/></p:nvPr></p:nvSpPr><p:spPr/><p:txBody><a:bodyPr/><a:p><a:pPr lvl="1"/><a:r><a:t>Hi</a:t></a:r></a:p></p:txBody></p:sp></p:spTree></p:cSld></p:sld>"#;
    let mut dom = SlideDom::parse(xml).unwrap();
    dom.set_paragraph_alignment(0, 0, "r").unwrap();
    let s = String::from_utf8(dom.to_bytes()).unwrap();
    assert!(s.contains(r#"lvl="1""#), "lvl preserved: {s}");
    assert!(s.contains(r#"algn="r""#), "algn set: {s}");
}

#[test]
fn set_indent_level() {
    let mut dom = SlideDom::parse(SLIDE).unwrap();
    dom.set_paragraph_indent_level(1, 0, 2).unwrap();
    let s = String::from_utf8(dom.to_bytes()).unwrap();
    assert!(s.contains(r#"lvl="2""#), "level set: {s}");
}

#[test]
fn set_space_before_points() {
    let mut dom = SlideDom::parse(SLIDE).unwrap();
    dom.set_paragraph_space_before(1, 0, SpacingValue::Points(600))
        .unwrap();
    let s = String::from_utf8(dom.to_bytes()).unwrap();
    assert!(s.contains("a:spcBef"), "spcBef present: {s}");
    assert!(s.contains(r#"<a:spcPts val="600"/>"#), "spcPts: {s}");
}

#[test]
fn set_space_after_percent() {
    let mut dom = SlideDom::parse(SLIDE).unwrap();
    dom.set_paragraph_space_after(1, 0, SpacingValue::Percent(50000))
        .unwrap();
    let s = String::from_utf8(dom.to_bytes()).unwrap();
    assert!(s.contains("a:spcAft"), "spcAft present: {s}");
    assert!(s.contains(r#"<a:spcPct val="50000"/>"#), "spcPct: {s}");
}

#[test]
fn set_line_spacing() {
    let mut dom = SlideDom::parse(SLIDE).unwrap();
    dom.set_paragraph_line_spacing(1, 0, SpacingValue::Percent(150000))
        .unwrap();
    let s = String::from_utf8(dom.to_bytes()).unwrap();
    assert!(s.contains("a:lnSpc"), "lnSpc present: {s}");
    assert!(s.contains(r#"<a:spcPct val="150000"/>"#), "150%: {s}");
}

#[test]
fn set_bullet_char() {
    let mut dom = SlideDom::parse(SLIDE).unwrap();
    dom.set_paragraph_bullet(1, 0, &BulletKind::Char("•".into()))
        .unwrap();
    let s = String::from_utf8(dom.to_bytes()).unwrap();
    assert!(s.contains("a:buChar"), "buChar present: {s}");
}

#[test]
fn set_bullet_auto_num() {
    let mut dom = SlideDom::parse(SLIDE).unwrap();
    dom.set_paragraph_bullet(1, 0, &BulletKind::AutoNum("arabicPeriod".into()))
        .unwrap();
    let s = String::from_utf8(dom.to_bytes()).unwrap();
    assert!(s.contains("a:buAutoNum"), "buAutoNum present: {s}");
    assert!(s.contains(r#"type="arabicPeriod""#), "type attr: {s}");
}

#[test]
fn set_bullet_none() {
    let mut dom = SlideDom::parse(SLIDE).unwrap();
    dom.set_paragraph_bullet(1, 0, &BulletKind::NoBullet).unwrap();
    let s = String::from_utf8(dom.to_bytes()).unwrap();
    assert!(s.contains("a:buNone"), "buNone present: {s}");
}

#[test]
fn set_bullet_replaces_existing() {
    let mut dom = SlideDom::parse(SLIDE).unwrap();
    dom.set_paragraph_bullet(1, 0, &BulletKind::Char("-".into()))
        .unwrap();
    dom.set_paragraph_bullet(1, 0, &BulletKind::NoBullet).unwrap();
    let s = String::from_utf8(dom.to_bytes()).unwrap();
    assert!(s.contains("a:buNone"), "buNone present: {s}");
    assert!(!s.contains("a:buChar"), "buChar removed: {s}");
}

#[test]
fn spacing_in_schema_order() {
    let mut dom = SlideDom::parse(SLIDE).unwrap();
    dom.set_paragraph_space_before(1, 0, SpacingValue::Points(400))
        .unwrap();
    dom.set_paragraph_line_spacing(1, 0, SpacingValue::Percent(120000))
        .unwrap();
    let s = String::from_utf8(dom.to_bytes()).unwrap();
    let ln_pos = s.find("a:lnSpc").unwrap();
    let spc_pos = s.find("a:spcBef").unwrap();
    assert!(ln_pos < spc_pos, "lnSpc before spcBef per schema: {s}");
}

#[test]
fn paragraph_props_preserve_sibling_paragraphs() {
    let mut dom = SlideDom::parse(SLIDE).unwrap();
    dom.set_paragraph_alignment(1, 0, "ctr").unwrap();
    let s = String::from_utf8(dom.to_bytes()).unwrap();
    assert!(s.contains("<a:p><a:r><a:t>Bullet two</a:t></a:r></a:p>"));
    assert!(s.contains(r#"<a:rPr lang="en-US" b="1"/>"#));
}

#[test]
fn added_paragraph_reads_back_after_existing_ones() {
    let mut dom = SlideDom::parse(SLIDE).unwrap();
    let before: Vec<String> = dom.paragraphs(1).unwrap().iter().map(|p| paragraph_text(p)).collect();
    dom.add_paragraph(1, "Appended & kept").unwrap();
    let after: Vec<String> = dom.paragraphs(1).unwrap().iter().map(|p| paragraph_text(p)).collect();
    assert_eq!(after.len(), before.len() + 1);
    assert_eq!(&after[..before.len()], &before[..]);
    assert_eq!(after.last().unwrap(), "Appended & kept");
}
