use zavora_slide::xml::{escape_public, Document, Element, Node};

fn round_trips(src: &[u8]) {
    let doc = Document::parse(src).unwrap();
    assert_eq!(doc.to_bytes(), src, "byte-faithful round-trip");
}

fn leaf(name: &[u8], raw_start: &[u8], dirty: bool) -> Node {
    Node::Element(Element {
        name: name.to_vec(),
        raw_start: raw_start.to_vec(),
        raw_end: Vec::new(),
        self_closing: true,
        dirty,
        attrs: Vec::new(),
        children: Vec::new(),
    })
}

#[test]
fn round_trips_declaration_and_nesting() {
    round_trips(
        br#"<?xml version="1.0" encoding="UTF-8" standalone="yes"?><a><b x="1">hi</b><c/></a>"#,
    );
}

#[test]
fn round_trips_single_quotes_and_whitespace() {
    round_trips(b"<?xml version='1.0' encoding='UTF-8' standalone='yes'?>\n<a>\n  <b/>\n</a>\n");
}

#[test]
fn round_trips_comments_cdata_entities() {
    round_trips(br#"<a><!-- c --><b><![CDATA[x<y]]></b><d>a &amp; b &lt; c</d></a>"#);
}

#[test]
fn round_trips_self_closing_with_spacing() {
    round_trips(br#"<a><b   x="1"  y="2" /><c></c></a>"#);
}

#[test]
fn navigation_and_attrs() {
    let doc = Document::parse(br#"<p:sp><p:nvSpPr><p:ph type="title" idx="1"/></p:nvSpPr></p:sp>"#)
        .unwrap();
    let root = doc.root().unwrap();
    assert_eq!(root.local_name(), b"sp");
    let ph = root.find_descendant(b"ph").unwrap();
    assert_eq!(ph.attr(b"type").unwrap(), b"title");
    assert_eq!(ph.attr(b"idx").unwrap(), b"1");
}

#[test]
fn set_text_preserves_siblings_and_escapes() {
    let src = br#"<a:p><a:r><a:rPr b="1"/><a:t>old</a:t></a:r><a:r><a:t>keep</a:t></a:r></a:p>"#;
    let mut doc = Document::parse(src).unwrap();
    let root = doc.root_mut().unwrap();
    let first_run = root.first_child_named_mut(b"r").unwrap();
    let t = first_run.first_child_named_mut(b"t").unwrap();
    assert_eq!(t.text_content(), "old");
    t.set_text_content("a < b & c");
    let s = String::from_utf8(doc.to_bytes()).unwrap();
    assert!(s.contains("<a:t>a &lt; b &amp; c</a:t>"), "got {s}");
    assert!(s.contains(r#"<a:rPr b="1"/>"#), "rPr verbatim: {s}");
    assert!(s.contains("<a:r><a:t>keep</a:t></a:r>"), "2nd run verbatim: {s}");
}

#[test]
fn set_text_on_self_closing_opens_the_tag() {
    let mut doc = Document::parse(br#"<a:t/>"#).unwrap();
    doc.root_mut().unwrap().set_text_content("hi");
    assert_eq!(doc.to_bytes(), b"<a:t>hi</a:t>");
}

#[test]
fn set_attr_regenerates_only_that_tag() {
    let mut doc = Document::parse(br#"<a><b x="1"/><c y="2"/></a>"#).unwrap();
    let b = doc.root_mut().unwrap().first_child_named_mut(b"b").unwrap();
    b.set_attr(b"x", b"9");
    let s = String::from_utf8(doc.to_bytes()).unwrap();
    assert!(s.contains(r#"<b x="9"/>"#), "got {s}");
    assert!(s.contains(r#"<c y="2"/>"#), "sibling verbatim: {s}");
}

#[test]
fn dirty_element_regenerates_clean_siblings_verbatim() {
    let mut doc = Document::parse(br#"<a><b x="1">keep</b><c>edit</c></a>"#).unwrap();
    if let Some(root) = doc.root_mut() {
        if let Some(e) = root.first_child_named_mut(b"c") {
            e.dirty = true;
            e.name = b"c".to_vec();
        }
    }
    let out = doc.to_bytes();
    assert!(out
        .windows(11)
        .any(|w| w == br#"<b x="1">ke"#.as_slice() || w == br#"<b x="1">keep"#[..11].as_ref()));
    assert_eq!(out, br#"<a><b x="1">keep</b><c>edit</c></a>"#);
}

#[test]
fn insert_child_at_beginning() {
    let mut doc = Document::parse(b"<a><b/><c/></a>").unwrap();
    doc.root_mut().unwrap().insert_child_at(0, leaf(b"z", b"<z/>", false));
    let s = String::from_utf8(doc.to_bytes()).unwrap();
    assert!(s.contains("<a><z/><b/><c/></a>"), "got {s}");
}

#[test]
fn insert_child_at_middle() {
    let mut doc = Document::parse(b"<a><b/><c/></a>").unwrap();
    doc.root_mut().unwrap().insert_child_at(1, leaf(b"z", b"<z/>", false));
    let s = String::from_utf8(doc.to_bytes()).unwrap();
    assert!(s.contains("<a><b/><z/><c/></a>"), "got {s}");
}

#[test]
fn insert_child_at_end_when_index_exceeds_len() {
    let mut doc = Document::parse(b"<a><b/></a>").unwrap();
    doc.root_mut().unwrap().insert_child_at(999, leaf(b"z", b"<z/>", false));
    let s = String::from_utf8(doc.to_bytes()).unwrap();
    assert!(s.contains("<a><b/><z/></a>"), "got {s}");
}

#[test]
fn insert_child_at_opens_self_closing() {
    let mut doc = Document::parse(b"<a/>").unwrap();
    doc.root_mut().unwrap().insert_child_at(0, leaf(b"b", b"<b/>", false));
    let s = String::from_utf8(doc.to_bytes()).unwrap();
    assert_eq!(s, "<a><b/></a>");
}

#[test]
fn remove_children_where_removes_matching() {
    let mut doc = Document::parse(b"<a><b/><c/><b/><d/></a>").unwrap();
    let removed = doc
        .root_mut()
        .unwrap()
        .remove_children_where(|n| matches!(n, Node::Element(e) if e.local_name() == b"b"));
    assert_eq!(removed.len(), 2);
    let s = String::from_utf8(doc.to_bytes()).unwrap();
    assert_eq!(s, "<a><c/><d/></a>");
}

#[test]
fn remove_children_where_no_match() {
    let mut doc = Document::parse(b"<a><b/><c/></a>").unwrap();
    let removed = doc
        .root_mut()
        .unwrap()
        .remove_children_where(|n| matches!(n, Node::Element(e) if e.local_name() == b"z"));
    assert_eq!(removed.len(), 0);
    assert_eq!(doc.to_bytes(), b"<a><b/><c/></a>");
}

#[test]
fn replace_child_swaps_node() {
    let mut doc = Document::parse(b"<a><b/><c/><d/></a>").unwrap();
    let old = doc.root_mut().unwrap().replace_child(1, leaf(b"z", b"<z/>", false));
    if let Node::Element(e) = old {
        assert_eq!(e.local_name(), b"c");
    } else {
        panic!("expected element");
    }
    let s = String::from_utf8(doc.to_bytes()).unwrap();
    assert_eq!(s, "<a><b/><z/><d/></a>");
}

#[test]
fn insert_child_ordered_rpr_latin_before_hlinkclick() {
    let src = br#"<a:rPr><a:solidFill/><a:hlinkClick r:id="rId1"/></a:rPr>"#;
    let mut doc = Document::parse(src).unwrap();
    let rpr = doc.root_mut().unwrap();
    let latin = Node::Element(Element {
        name: b"a:latin".to_vec(),
        raw_start: Vec::new(),
        raw_end: Vec::new(),
        self_closing: true,
        dirty: true,
        attrs: vec![(b"typeface".to_vec(), b"Arial".to_vec())],
        children: Vec::new(),
    });
    rpr.insert_child_ordered(latin);
    let s = String::from_utf8(doc.to_bytes()).unwrap();
    let latin_pos = s.find("a:latin").unwrap();
    let solid_pos = s.find("a:solidFill").unwrap();
    let hlink_pos = s.find("a:hlinkClick").unwrap();
    assert!(solid_pos < latin_pos, "solidFill before latin: {s}");
    assert!(latin_pos < hlink_pos, "latin before hlinkClick: {s}");
}

#[test]
fn insert_child_ordered_ppr_spcbef_before_buchar() {
    let mut doc = Document::parse(b"<a:pPr><a:buChar char=\"-\"/></a:pPr>").unwrap();
    doc.root_mut().unwrap().insert_child_ordered(leaf(b"a:spcBef", b"", true));
    let s = String::from_utf8(doc.to_bytes()).unwrap();
    let spc_pos = s.find("a:spcBef").unwrap();
    let bu_pos = s.find("a:buChar").unwrap();
    assert!(spc_pos < bu_pos, "spcBef before buChar: {s}");
}

#[test]
fn insert_child_ordered_sppr_solidfill_after_xfrm() {
    let mut doc = Document::parse(b"<p:spPr><a:xfrm/></p:spPr>").unwrap();
    doc.root_mut().unwrap().insert_child_ordered(leaf(b"a:solidFill", b"", true));
    let s = String::from_utf8(doc.to_bytes()).unwrap();
    let xfrm_pos = s.find("a:xfrm").unwrap();
    let fill_pos = s.find("a:solidFill").unwrap();
    assert!(xfrm_pos < fill_pos, "xfrm before solidFill: {s}");
}

#[test]
fn insert_child_ordered_txbody_p_after_bodypr() {
    let mut doc = Document::parse(b"<p:txBody><a:bodyPr/></p:txBody>").unwrap();
    doc.root_mut().unwrap().insert_child_ordered(leaf(b"a:p", b"", true));
    let s = String::from_utf8(doc.to_bytes()).unwrap();
    let body_pos = s.find("a:bodyPr").unwrap();
    let p_pos = s.find("a:p").unwrap();
    assert!(body_pos < p_pos, "bodyPr before p: {s}");
}

#[test]
fn insert_child_ordered_unknown_parent_appends() {
    let mut doc = Document::parse(b"<foo><bar/></foo>").unwrap();
    doc.root_mut().unwrap().insert_child_ordered(leaf(b"baz", b"<baz/>", false));
    let s = String::from_utf8(doc.to_bytes()).unwrap();
    assert_eq!(s, "<foo><bar/><baz/></foo>");
}

#[test]
fn insert_child_ordered_unknown_child_appends() {
    let mut doc = Document::parse(b"<a:rPr><a:solidFill/></a:rPr>").unwrap();
    doc.root_mut().unwrap().insert_child_ordered(leaf(b"a:unknownExt", b"", true));
    let s = String::from_utf8(doc.to_bytes()).unwrap();
    assert!(s.ends_with("a:unknownExt/></a:rPr>"), "got {s}");
}

#[test]
fn insert_child_ordered_opens_self_closing_parent() {
    let mut doc = Document::parse(b"<a:pPr/>").unwrap();
    doc.root_mut().unwrap().insert_child_ordered(leaf(b"a:spcBef", b"", true));
    let s = String::from_utf8(doc.to_bytes()).unwrap();
    assert!(s.contains("a:spcBef"), "got {s}");
    assert!(s.starts_with("<a:pPr>"), "should open: {s}");
    assert!(s.ends_with("</a:pPr>"), "should close: {s}");
}

#[test]
fn insert_child_ordered_raw_node_appends() {
    let mut doc = Document::parse(b"<a:rPr><a:solidFill/></a:rPr>").unwrap();
    doc.root_mut().unwrap().insert_child_ordered(Node::Raw(b"<!-- comment -->".to_vec()));
    let s = String::from_utf8(doc.to_bytes()).unwrap();
    assert!(s.ends_with("<!-- comment --></a:rPr>"), "got {s}");
}

// ─── Further scenarios ──────────────────────────────────────────────────────

#[test]
fn parse_rejects_unclosed_element() {
    assert!(Document::parse(b"<a><b>").is_err());
}

#[test]
fn parse_rejects_mismatched_end_tag() {
    assert!(Document::parse(b"<a></b>").is_err());
}

#[test]
fn escape_then_text_content_gives_back_the_text() {
    let text = "x < y & 'q' \"r\" > s";
    let mut doc = Document::parse(b"<a:t>old</a:t>").unwrap();
    doc.root_mut().unwrap().set_text_content(text);
    assert_eq!(doc.root().unwrap().text_content(), text);
    assert_eq!(escape_public("<&>\"'"), "&lt;&amp;&gt;&quot;&apos;");
}

#[test]
fn set_attr_adds_missing_attribute_at_end() {
    let mut doc = Document::parse(br#"<a x="1"/>"#).unwrap();
    doc.root_mut().unwrap().set_attr(b"y", b"2");
    assert_eq!(doc.to_bytes(), br#"<a x="1" y="2"/>"#);
}

#[test]
fn find_descendant_is_depth_first() {
    let doc = Document::parse(br#"<r><a><t n="1"/></a><t n="2"/></r>"#).unwrap();
    let t = doc.root().unwrap().find_descendant(b"t").unwrap();
    assert_eq!(t.attr(b"n").unwrap(), b"1");
    assert!(doc.root().unwrap().find_descendant(b"zz").is_none());
}

#[test]
fn children_named_lists_matches_in_order() {
    let doc = Document::parse(br#"<r><a:x i="1"/><b/><x i="2"/></r>"#).unwrap();
    let root = doc.root().unwrap();
    let xs = root.children_named(b"x");
    assert_eq!(xs.len(), 2);
    assert_eq!(xs[0].attr(b"i").unwrap(), b"1");
    assert_eq!(xs[1].attr(b"i").unwrap(), b"2");
}
