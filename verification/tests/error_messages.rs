use zavora_slide::error::OxmlError;
use zavora_slide::slide_dom::{AutoFit, SlideDom};

const SHAPES: &[u8] = br#"<p:sld><p:cSld><p:spTree><p:nvGrpSpPr/><p:grpSpPr/><p:sp><p:nvSpPr><p:cNvPr id="2" name="Box"/></p:nvSpPr><p:spPr/></p:sp><p:sp><p:nvSpPr><p:cNvPr id="3" name="Text"/></p:nvSpPr><p:spPr/><p:txBody><a:p><a:r><a:t>x</a:t></a:r></a:p></p:txBody></p:sp></p:spTree></p:cSld></p:sld>"#;

fn message(e: OxmlError) -> String {
    match e {
        OxmlError::Parse(m) => m,
        other => panic!("not a structural error: {other:?}"),
    }
}

#[test]
fn lookup_errors_name_what_is_missing() {
    let dom = SlideDom::parse(SHAPES).unwrap();
    assert_eq!(message(dom.paragraphs(5).unwrap_err()), "no shape at index 5");
    assert_eq!(message(dom.paragraphs(0).unwrap_err()), "shape at index 0 has no text body");
    assert_eq!(message(dom.group_shapes(0).unwrap_err()), "shape at index 0 is not a group (is \"sp\")");
    assert_eq!(message(dom.group_shapes(9).unwrap_err()), "no shape at index 9");
    assert_eq!(message(dom.table_element(1).unwrap_err()), "shape at index 1 is not a graphicFrame (is \"sp\")");
    assert_eq!(message(dom.table_element(2).unwrap_err()), "no shape at index 2");
}

#[test]
fn edit_errors_name_the_bad_index() {
    let mut dom = SlideDom::parse(SHAPES).unwrap();
    assert_eq!(message(dom.delete_shape(4).unwrap_err()), "shape index 4 out of range (have 2 shapes)");
    assert_eq!(message(dom.reorder_shape(7, 0).unwrap_err()), "from_idx 7 out of range (have 2 shapes)");
    assert_eq!(message(dom.reorder_shape(0, 7).unwrap_err()), "to_idx 7 out of range (have 2 shapes)");
    assert_eq!(message(dom.set_autofit(0, &AutoFit::Off).unwrap_err()), "shape at index 0 has no text body");
    assert_eq!(message(dom.set_autofit(1, &AutoFit::Off).unwrap_err()), "shape at index 1 text body has no bodyPr");
    assert_eq!(
        message(dom.merge_table_cells(0, 2, 0, 1, 1).unwrap_err()),
        "invalid merge range: start (2,0) must be <= end (1,1)"
    );
    assert_eq!(message(dom.merge_table_cells(0, 0, 0, 1, 1).unwrap_err()), "shape at index 0 is not a graphicFrame (is \"sp\")");
    assert_eq!(dom.to_bytes(), SHAPES.to_vec());
}
