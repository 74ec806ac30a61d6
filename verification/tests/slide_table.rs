use zavora_slide::slide_dom::SlideDom;

const TABLE_SLIDE: &[u8] = br#"<?xml version="1.0" encoding="UTF-8" standalone="yes"?>
<p:sld xmlns:a="http://schemas.openxmlformats.org/drawingml/2006/main" xmlns:p="http://schemas.openxmlformats.org/presentationml/2006/main"><p:cSld><p:spTree><p:sp><p:nvSpPr><p:cNvPr id="2" name="Title 1"/><p:cNvSpPr/><p:nvPr><p:ph type="title"/></p:nvPr></p:nvSpPr><p:spPr/><p:txBody><a:bodyPr/><a:lstStyle/><a:p><a:r><a:t>Slide Title</a:t></a:r></a:p></p:txBody></p:sp><p:graphicFrame><p:nvGraphicFramePr><p:cNvPr id="4" name="Table 3"/><p:cNvGraphicFramePr/><p:nvPr/></p:nvGraphicFramePr><p:xfrm><a:off x="100" y="200"/><a:ext cx="5000" cy="3000"/></p:xfrm><a:graphic><a:graphicData uri="http://schemas.openxmlformats.org/drawingml/2006/table"><a:tbl><a:tblPr/><a:tblGrid><a:gridCol w="2500"/><a:gridCol w="2500"/></a:tblGrid><a:tr h="370840"><a:tc><a:txBody><a:bodyPr/><a:lstStyle/><a:p><a:r><a:t>A1</a:t></a:r></a:p></a:txBody></a:tc><a:tc><a:txBody><a:bodyPr/><a:lstStyle/><a:p><a:r><a:t>B1</a:t></a:r></a:p></a:txBody></a:tc></a:tr><a:tr h="370840"><a:tc><a:txBody><a:bodyPr/><a:lstStyle/><a:p><a:r><a:t>A2</a:t></a:r></a:p></a:txBody></a:tc><a:tc><a:txBody><a:bodyPr/><a:lstStyle/><a:p><a:r><a:t>B2</a:t></a:r></a:p></a:txBody></a:tc></a:tr></a:tbl></a:graphicData></a:graphic></p:graphicFrame></p:spTree></p:cSld></p:sld>"#;

#[test]
fn table_element_finds_tbl() {
    let dom = SlideDom::parse(TABLE_SLIDE).unwrap();
    // Shape 0 = p:sp (title), shape 1 = p:graphicFrame (table).
    let tbl = dom.table_element(1).unwrap();
    assert_eq!(tbl.local_name(), b"tbl");
}

#[test]
fn table_element_error_on_non_table_shape() {
    let dom = SlideDom::parse(TABLE_SLIDE).unwrap();
    // Shape 0 is a p:sp, not a graphicFrame.
    let err = dom.table_element(0);
    assert!(err.is_err());
    let msg = err.unwrap_err().to_string();
    assert!(msg.contains("not a graphicFrame"), "got: {msg}");
}

#[test]
fn table_element_error_on_invalid_index() {
    let dom = SlideDom::parse(TABLE_SLIDE).unwrap();
    let err = dom.table_element(99);
    assert!(err.is_err());
    let msg = err.unwrap_err().to_string();
    assert!(msg.contains("no shape at index"), "got: {msg}");
}

#[test]
fn add_table_row_increases_row_count() {
    let mut dom = SlideDom::parse(TABLE_SLIDE).unwrap();
    dom.add_table_row(1, 400000).unwrap();
    let tbl = dom.table_element(1).unwrap();
    let rows: Vec<_> = tbl.children_named(b"tr").into_iter().collect();
    assert_eq!(rows.len(), 3);
}

#[test]
fn add_table_row_has_correct_cell_count() {
    let mut dom = SlideDom::parse(TABLE_SLIDE).unwrap();
    dom.add_table_row(1, 400000).unwrap();
    let tbl = dom.table_element(1).unwrap();
    let rows: Vec<_> = tbl.children_named(b"tr").into_iter().collect();
    // New row (last) should have 2 cells matching the 2 gridCols.
    let new_row = rows[2];
    let cells: Vec<_> = new_row.children_named(b"tc").into_iter().collect();
    assert_eq!(cells.len(), 2);
}

#[test]
fn add_table_row_sets_height() {
    let mut dom = SlideDom::parse(TABLE_SLIDE).unwrap();
    dom.add_table_row(1, 500000).unwrap();
    let tbl = dom.table_element(1).unwrap();
    let rows: Vec<_> = tbl.children_named(b"tr").into_iter().collect();
    let new_row = rows[2];
    let h = new_row
        .attr(b"h")
        .map(|v| String::from_utf8_lossy(v).into_owned());
    assert_eq!(h.as_deref(), Some("500000"));
}

#[test]
fn insert_table_row_at_position() {
    let mut dom = SlideDom::parse(TABLE_SLIDE).unwrap();
    dom.insert_table_row(1, 1, 300000).unwrap();
    let tbl = dom.table_element(1).unwrap();
    let rows: Vec<_> = tbl.children_named(b"tr").into_iter().collect();
    assert_eq!(rows.len(), 3);
    // The inserted row is at index 1; original row 1 (with A2/B2) is now at index 2.
    let inserted_row = rows[1];
    let h = inserted_row
        .attr(b"h")
        .map(|v| String::from_utf8_lossy(v).into_owned());
    assert_eq!(h.as_deref(), Some("300000"));
    // Original second row still has its content.
    let last_row = rows[2];
    let cell_text: String = last_row
        .children_named(b"tc").into_iter()
        .flat_map(|tc| tc.find_descendant(b"t"))
        .map(|t| t.text_content())
        .collect::<Vec<_>>()
        .join(",");
    assert_eq!(cell_text, "A2,B2");
}

#[test]
fn remove_table_row_preserves_other_rows() {
    let mut dom = SlideDom::parse(TABLE_SLIDE).unwrap();
    dom.remove_table_row(1, 0).unwrap();
    let tbl = dom.table_element(1).unwrap();
    let rows: Vec<_> = tbl.children_named(b"tr").into_iter().collect();
    assert_eq!(rows.len(), 1);
    // Remaining row should be the original second row (A2, B2).
    let cell_text: String = rows[0]
        .children_named(b"tc").into_iter()
        .flat_map(|tc| tc.find_descendant(b"t"))
        .map(|t| t.text_content())
        .collect::<Vec<_>>()
        .join(",");
    assert_eq!(cell_text, "A2,B2");
}

#[test]
fn remove_table_row_out_of_range_errors() {
    let mut dom = SlideDom::parse(TABLE_SLIDE).unwrap();
    let err = dom.remove_table_row(1, 99);
    assert!(err.is_err());
}

#[test]
fn add_table_column_increases_column_count() {
    let mut dom = SlideDom::parse(TABLE_SLIDE).unwrap();
    dom.add_table_column(1, 1500).unwrap();
    let tbl = dom.table_element(1).unwrap();
    let grid = tbl.children_named(b"tblGrid").into_iter().next().unwrap();
    let cols: Vec<_> = grid.children_named(b"gridCol").into_iter().collect();
    assert_eq!(cols.len(), 3);
}

#[test]
fn add_table_column_adds_cell_to_each_row() {
    let mut dom = SlideDom::parse(TABLE_SLIDE).unwrap();
    dom.add_table_column(1, 1500).unwrap();
    let tbl = dom.table_element(1).unwrap();
    for tr in tbl.children_named(b"tr") {
        let cells: Vec<_> = tr.children_named(b"tc").into_iter().collect();
        assert_eq!(
            cells.len(),
            3,
            "each row should have 3 cells after adding a column"
        );
    }
}

#[test]
fn add_table_column_sets_width() {
    let mut dom = SlideDom::parse(TABLE_SLIDE).unwrap();
    dom.add_table_column(1, 3000).unwrap();
    let tbl = dom.table_element(1).unwrap();
    let grid = tbl.children_named(b"tblGrid").into_iter().next().unwrap();
    let cols: Vec<_> = grid.children_named(b"gridCol").into_iter().collect();
    let w = cols[2]
        .attr(b"w")
        .map(|v| String::from_utf8_lossy(v).into_owned());
    assert_eq!(w.as_deref(), Some("3000"));
}

#[test]
fn remove_table_column_removes_correct_gridcol_and_cells() {
    let mut dom = SlideDom::parse(TABLE_SLIDE).unwrap();
    // Remove column 0 (the first column).
    dom.remove_table_column(1, 0).unwrap();
    let tbl = dom.table_element(1).unwrap();
    // Grid should have 1 column left.
    let grid = tbl.children_named(b"tblGrid").into_iter().next().unwrap();
    let cols: Vec<_> = grid.children_named(b"gridCol").into_iter().collect();
    assert_eq!(cols.len(), 1);
    // Each row should have 1 cell left (the B column).
    let rows: Vec<_> = tbl.children_named(b"tr").into_iter().collect();
    for (i, tr) in rows.iter().enumerate() {
        let cells: Vec<_> = tr.children_named(b"tc").into_iter().collect();
        assert_eq!(cells.len(), 1, "row {i} should have 1 cell");
        // The remaining cell should be the B column.
        let text = cells[0]
            .find_descendant(b"t")
            .map(|t| t.text_content())
            .unwrap_or_default();
        let expected = format!("B{}", i + 1);
        assert_eq!(text, expected);
    }
}

#[test]
fn remove_table_column_out_of_range_errors() {
    let mut dom = SlideDom::parse(TABLE_SLIDE).unwrap();
    let err = dom.remove_table_column(1, 99);
    assert!(err.is_err());
}

#[test]
fn table_operations_preserve_existing_cell_content() {
    let mut dom = SlideDom::parse(TABLE_SLIDE).unwrap();
    // Add a row, then verify original cells are preserved.
    dom.add_table_row(1, 400000).unwrap();
    let s = String::from_utf8(dom.to_bytes()).unwrap();
    assert!(s.contains("<a:t>A1</a:t>"), "A1 preserved: {s}");
    assert!(s.contains("<a:t>B1</a:t>"), "B1 preserved: {s}");
    assert!(s.contains("<a:t>A2</a:t>"), "A2 preserved: {s}");
    assert!(s.contains("<a:t>B2</a:t>"), "B2 preserved: {s}");
}

#[test]
fn table_operations_preserve_title_shape() {
    let mut dom = SlideDom::parse(TABLE_SLIDE).unwrap();
    dom.add_table_row(1, 400000).unwrap();
    dom.add_table_column(1, 1000).unwrap();
    let s = String::from_utf8(dom.to_bytes()).unwrap();
    // Title shape is untouched.
    assert!(s.contains("<a:t>Slide Title</a:t>"), "title preserved: {s}");
    assert!(s.contains(r#"<p:ph type="title"/>"#), "ph preserved: {s}");
}

#[test]
fn table_unedited_round_trips() {
    let dom = SlideDom::parse(TABLE_SLIDE).unwrap();
    assert_eq!(dom.to_bytes(), TABLE_SLIDE);
}

const TABLE_3X3_SLIDE: &[u8] = br#"<?xml version="1.0" encoding="UTF-8" standalone="yes"?>
<p:sld xmlns:a="http://schemas.openxmlformats.org/drawingml/2006/main" xmlns:p="http://schemas.openxmlformats.org/presentationml/2006/main"><p:cSld><p:spTree><p:graphicFrame><p:nvGraphicFramePr><p:cNvPr id="2" name="Table 1"/><p:cNvGraphicFramePr/><p:nvPr/></p:nvGraphicFramePr><p:xfrm><a:off x="0" y="0"/><a:ext cx="9000" cy="6000"/></p:xfrm><a:graphic><a:graphicData uri="http://schemas.openxmlformats.org/drawingml/2006/table"><a:tbl><a:tblPr/><a:tblGrid><a:gridCol w="3000"/><a:gridCol w="3000"/><a:gridCol w="3000"/></a:tblGrid><a:tr h="2000"><a:tc><a:txBody><a:bodyPr/><a:lstStyle/><a:p><a:r><a:t>A1</a:t></a:r></a:p></a:txBody></a:tc><a:tc><a:txBody><a:bodyPr/><a:lstStyle/><a:p><a:r><a:t>B1</a:t></a:r></a:p></a:txBody></a:tc><a:tc><a:txBody><a:bodyPr/><a:lstStyle/><a:p><a:r><a:t>C1</a:t></a:r></a:p></a:txBody></a:tc></a:tr><a:tr h="2000"><a:tc><a:txBody><a:bodyPr/><a:lstStyle/><a:p><a:r><a:t>A2</a:t></a:r></a:p></a:txBody></a:tc><a:tc><a:txBody><a:bodyPr/><a:lstStyle/><a:p><a:r><a:t>B2</a:t></a:r></a:p></a:txBody></a:tc><a:tc><a:txBody><a:bodyPr/><a:lstStyle/><a:p><a:r><a:t>C2</a:t></a:r></a:p></a:txBody></a:tc></a:tr><a:tr h="2000"><a:tc><a:txBody><a:bodyPr/><a:lstStyle/><a:p><a:r><a:t>A3</a:t></a:r></a:p></a:txBody></a:tc><a:tc><a:txBody><a:bodyPr/><a:lstStyle/><a:p><a:r><a:t>B3</a:t></a:r></a:p></a:txBody></a:tc><a:tc><a:txBody><a:bodyPr/><a:lstStyle/><a:p><a:r><a:t>C3</a:t></a:r></a:p></a:txBody></a:tc></a:tr></a:tbl></a:graphicData></a:graphic></p:graphicFrame></p:spTree></p:cSld></p:sld>"#;

#[test]
fn merge_2x2_sets_correct_attributes() {
    let mut dom = SlideDom::parse(TABLE_3X3_SLIDE).unwrap();
    // Merge cells (0,0) to (1,1) — a 2×2 block.
    dom.merge_table_cells(0, 0, 0, 1, 1).unwrap();
    let s = String::from_utf8(dom.to_bytes()).unwrap();
    // Origin cell (A1) gets gridSpan="2" and rowSpan="2".
    assert!(s.contains(r#"gridSpan="2""#), "gridSpan on origin: {s}");
    assert!(s.contains(r#"rowSpan="2""#), "rowSpan on origin: {s}");
    // Origin cell content preserved.
    assert!(s.contains("<a:t>A1</a:t>"), "origin content preserved: {s}");
    // Covered cells get hMerge/vMerge.
    assert!(s.contains(r#"hMerge="1""#), "hMerge on covered: {s}");
    assert!(s.contains(r#"vMerge="1""#), "vMerge on covered: {s}");
    // Cells outside the merge range are untouched.
    assert!(s.contains("<a:t>C1</a:t>"), "C1 preserved: {s}");
    assert!(s.contains("<a:t>C2</a:t>"), "C2 preserved: {s}");
    assert!(s.contains("<a:t>A3</a:t>"), "A3 preserved: {s}");
}

#[test]
fn merge_horizontal_1x3_sets_gridspan_only() {
    let mut dom = SlideDom::parse(TABLE_3X3_SLIDE).unwrap();
    // Merge row 0, cols 0..2 — a 1×3 horizontal merge.
    dom.merge_table_cells(0, 0, 0, 0, 2).unwrap();
    let s = String::from_utf8(dom.to_bytes()).unwrap();
    // Origin cell gets gridSpan="3", no rowSpan (since row_span == 1).
    assert!(s.contains(r#"gridSpan="3""#), "gridSpan=3: {s}");
    assert!(
        !s.contains(r#"rowSpan=""#),
        "no rowSpan for single-row merge: {s}"
    );
    // Covered cells (B1, C1) get hMerge="1".
    // Count occurrences of hMerge="1".
    let h_merge_count = s.matches(r#"hMerge="1""#).count();
    assert_eq!(h_merge_count, 2, "two cells with hMerge: {s}");
    // No vMerge since it's a single-row merge.
    assert!(
        !s.contains(r#"vMerge="1""#),
        "no vMerge for horizontal merge: {s}"
    );
    // Origin content preserved.
    assert!(s.contains("<a:t>A1</a:t>"), "origin preserved: {s}");
}

#[test]
fn merge_vertical_3x1_sets_rowspan_only() {
    let mut dom = SlideDom::parse(TABLE_3X3_SLIDE).unwrap();
    // Merge col 0, rows 0..2 — a 3×1 vertical merge.
    dom.merge_table_cells(0, 0, 0, 2, 0).unwrap();
    let s = String::from_utf8(dom.to_bytes()).unwrap();
    // Origin cell gets rowSpan="3", no gridSpan (since col_span == 1).
    assert!(s.contains(r#"rowSpan="3""#), "rowSpan=3: {s}");
    assert!(
        !s.contains(r#"gridSpan=""#),
        "no gridSpan for single-col merge: {s}"
    );
    // Covered cells (A2, A3) get vMerge="1".
    let v_merge_count = s.matches(r#"vMerge="1""#).count();
    assert_eq!(v_merge_count, 2, "two cells with vMerge: {s}");
    // No hMerge since it's a single-column merge.
    assert!(
        !s.contains(r#"hMerge="1""#),
        "no hMerge for vertical merge: {s}"
    );
    // Origin content preserved.
    assert!(s.contains("<a:t>A1</a:t>"), "origin preserved: {s}");
}

#[test]
fn split_merged_cell_removes_all_merge_attributes() {
    let mut dom = SlideDom::parse(TABLE_3X3_SLIDE).unwrap();
    // First merge a 2×2 block.
    dom.merge_table_cells(0, 0, 0, 1, 1).unwrap();
    // Verify merge attributes are present.
    let s = String::from_utf8(dom.to_bytes()).unwrap();
    assert!(s.contains(r#"gridSpan="2""#));
    assert!(s.contains(r#"rowSpan="2""#));
    // Now split.
    dom.split_table_cell(0, 0, 0).unwrap();
    let s = String::from_utf8(dom.to_bytes()).unwrap();
    // All merge attributes removed.
    assert!(!s.contains("gridSpan"), "gridSpan removed: {s}");
    assert!(!s.contains("rowSpan"), "rowSpan removed: {s}");
    assert!(!s.contains("hMerge"), "hMerge removed: {s}");
    assert!(!s.contains("vMerge"), "vMerge removed: {s}");
}

#[test]
fn merge_error_on_invalid_range_out_of_bounds() {
    let mut dom = SlideDom::parse(TABLE_3X3_SLIDE).unwrap();
    // end_row out of bounds (table has 3 rows, indices 0..2).
    let err = dom.merge_table_cells(0, 0, 0, 5, 0);
    assert!(err.is_err());
    let msg = err.unwrap_err().to_string();
    assert!(msg.contains("out of range"), "got: {msg}");
}

#[test]
fn merge_error_on_invalid_range_start_gt_end() {
    let mut dom = SlideDom::parse(TABLE_3X3_SLIDE).unwrap();
    // start_row > end_row.
    let err = dom.merge_table_cells(0, 2, 0, 0, 0);
    assert!(err.is_err());
    let msg = err.unwrap_err().to_string();
    assert!(msg.contains("invalid merge range"), "got: {msg}");
}

#[test]
fn merge_preserves_origin_cell_content() {
    let mut dom = SlideDom::parse(TABLE_3X3_SLIDE).unwrap();
    dom.merge_table_cells(0, 0, 0, 1, 1).unwrap();
    let tbl = dom.table_element(0).unwrap();
    // Get the origin cell (row 0, col 0).
    let first_row = tbl.children_named(b"tr").into_iter().next().unwrap();
    let origin_cell = first_row.children_named(b"tc").into_iter().next().unwrap();
    // Origin cell should still have its text content.
    let text = origin_cell
        .find_descendant(b"t")
        .map(|t| t.text_content())
        .unwrap_or_default();
    assert_eq!(text, "A1", "origin cell content preserved");
}

#[test]
fn set_column_width_updates_gridcol_attribute() {
    let mut dom = SlideDom::parse(TABLE_SLIDE).unwrap();
    dom.set_column_width(1, 0, 5000).unwrap();
    let s = String::from_utf8(dom.to_bytes()).unwrap();
    // The first gridCol should now have w="5000".
    assert!(s.contains(r#"<a:gridCol w="5000"/>"#), "width updated: {s}");
    // Second gridCol unchanged.
    assert!(
        s.contains(r#"<a:gridCol w="2500"/>"#),
        "other col preserved: {s}"
    );
}

#[test]
fn set_column_width_out_of_range_errors() {
    let mut dom = SlideDom::parse(TABLE_SLIDE).unwrap();
    let err = dom.set_column_width(1, 99, 5000);
    assert!(err.is_err());
}

#[test]
fn set_row_height_updates_tr_attribute() {
    let mut dom = SlideDom::parse(TABLE_SLIDE).unwrap();
    dom.set_row_height(1, 0, 500000).unwrap();
    let s = String::from_utf8(dom.to_bytes()).unwrap();
    // First row should have h="500000".
    assert!(s.contains(r#"h="500000""#), "height updated: {s}");
    // Second row unchanged.
    assert!(s.contains(r#"h="370840""#), "other row preserved: {s}");
}

#[test]
fn set_row_height_out_of_range_errors() {
    let mut dom = SlideDom::parse(TABLE_SLIDE).unwrap();
    let err = dom.set_row_height(1, 99, 500000);
    assert!(err.is_err());
}

#[test]
fn set_cell_text_replaces_content() {
    let mut dom = SlideDom::parse(TABLE_SLIDE).unwrap();
    dom.set_cell_text(1, 0, 0, "New Text").unwrap();
    let s = String::from_utf8(dom.to_bytes()).unwrap();
    assert!(s.contains("<a:t>New Text</a:t>"), "new text present: {s}");
    // Original A1 text gone.
    assert!(!s.contains("<a:t>A1</a:t>"), "old text removed: {s}");
    // Other cells preserved.
    assert!(s.contains("<a:t>B1</a:t>"), "B1 preserved: {s}");
    assert!(s.contains("<a:t>A2</a:t>"), "A2 preserved: {s}");
    assert!(s.contains("<a:t>B2</a:t>"), "B2 preserved: {s}");
}

#[test]
fn set_cell_text_preserves_other_cells() {
    let mut dom = SlideDom::parse(TABLE_SLIDE).unwrap();
    dom.set_cell_text(1, 1, 1, "Changed").unwrap();
    let s = String::from_utf8(dom.to_bytes()).unwrap();
    assert!(s.contains("<a:t>Changed</a:t>"), "new text: {s}");
    // All other cells preserved.
    assert!(s.contains("<a:t>A1</a:t>"), "A1 preserved: {s}");
    assert!(s.contains("<a:t>B1</a:t>"), "B1 preserved: {s}");
    assert!(s.contains("<a:t>A2</a:t>"), "A2 preserved: {s}");
}

#[test]
fn set_cell_alignment_sets_algn_on_ppr() {
    let mut dom = SlideDom::parse(TABLE_SLIDE).unwrap();
    dom.set_cell_alignment(1, 0, 0, "ctr").unwrap();
    let s = String::from_utf8(dom.to_bytes()).unwrap();
    assert!(s.contains(r#"algn="ctr""#), "alignment set: {s}");
    // Other cells preserved.
    assert!(s.contains("<a:t>B1</a:t>"), "B1 preserved: {s}");
}

#[test]
fn set_cell_margins_sets_all_margin_attrs() {
    let mut dom = SlideDom::parse(TABLE_SLIDE).unwrap();
    dom.set_cell_margins(1, 0, 0, 91440, 45720, 91440, 45720)
        .unwrap();
    let s = String::from_utf8(dom.to_bytes()).unwrap();
    assert!(s.contains(r#"marL="91440""#), "marL set: {s}");
    assert!(s.contains(r#"marT="45720""#), "marT set: {s}");
    assert!(s.contains(r#"marR="91440""#), "marR set: {s}");
    assert!(s.contains(r#"marB="45720""#), "marB set: {s}");
    // Other cells preserved.
    assert!(s.contains("<a:t>B1</a:t>"), "B1 preserved: {s}");
}

#[test]
fn table_cell_operations_are_surgical() {
    let mut dom = SlideDom::parse(TABLE_SLIDE).unwrap();
    dom.set_column_width(1, 0, 9999).unwrap();
    dom.set_row_height(1, 1, 888888).unwrap();
    dom.set_cell_text(1, 0, 1, "Modified").unwrap();
    let s = String::from_utf8(dom.to_bytes()).unwrap();
    // Title shape is completely untouched.
    assert!(s.contains("<a:t>Slide Title</a:t>"), "title preserved: {s}");
    assert!(s.contains(r#"<p:ph type="title"/>"#), "ph preserved: {s}");
}
