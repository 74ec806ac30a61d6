use zavora_slide::drawing::{Align, Paragraph, Run, RunProps, Shape, TextBody};

#[test]
fn run_props_serialize() {
    let rp = RunProps {
        bold: Some(true),
        size: Some(1800),
        color: Some("FF0000".into()),
        ..Default::default()
    };
    let xml = rp.to_xml();
    assert!(xml.contains("b=\"1\""));
    assert!(xml.contains("sz=\"1800\""));
    assert!(xml.contains("<a:srgbClr val=\"FF0000\"/>"));
}

#[test]
fn text_is_escaped() {
    let r = Run::new("a < b & \"c\"");
    assert!(r.to_xml().contains("a &lt; b &amp; &quot;c&quot;"));
}

#[test]
fn round_trip_text_level_and_props() {
    let body = TextBody {
        paragraphs: vec![
            Paragraph {
                runs: vec![Run {
                    text: "Hello".into(),
                    props: RunProps {
                        bold: Some(true),
                        size: Some(2400),
                        ..Default::default()
                    },
                }],
                align: Some(Align::Center),
                ..Default::default()
            },
            Paragraph {
                runs: vec![Run::new("World")],
                level: Some(2),
                ..Default::default()
            },
        ],
    };
    let parsed = TextBody::from_xml(body.to_xml().as_bytes()).unwrap();
    assert_eq!(parsed.paragraphs.len(), 2);
    assert_eq!(parsed.paragraphs[0].text(), "Hello");
    assert_eq!(parsed.paragraphs[0].align, Some(Align::Center));
    assert_eq!(parsed.paragraphs[0].runs[0].props.bold, Some(true));
    assert_eq!(parsed.paragraphs[0].runs[0].props.size, Some(2400));
    assert_eq!(parsed.paragraphs[1].text(), "World");
    assert_eq!(parsed.paragraphs[1].level, Some(2));
}

#[test]
fn empty_textbody_still_has_paragraph() {
    // CT_TextBody requires >=1 a:p; an auto-shape with no text must still emit one.
    let sp = Shape::auto_shape(2, "ellipse", 0, 0, 100, 100);
    let xml = sp.to_xml();
    assert!(xml.contains("<p:txBody>"));
    assert!(xml.contains("<a:p/>"));
}

#[test]
fn placeholder_and_textbox_shapes() {
    let title = Shape::placeholder(
        2,
        "Title 1",
        "title",
        None,
        TextBody {
            paragraphs: vec![Paragraph {
                runs: vec![Run::new("T")],
                ..Default::default()
            }],
        },
    );
    let tx = title.to_xml();
    assert!(tx.contains("<p:ph type=\"title\"/>"));
    assert!(tx.contains("<a:t>T</a:t>"));

    let tb = Shape::text_box(5, 914400, 914400, 1828800, 457200, TextBody::default());
    let bx = tb.to_xml();
    assert!(bx.contains("txBox=\"1\""));
    assert!(bx.contains("<a:off x=\"914400\" y=\"914400\"/>"));
}

#[test]
fn text_body_reads_entities_and_character_references() {
    let xml = br#"<p:txBody><a:p><a:r><a:t>a &amp; b &#65;&#x42;</a:t></a:r></a:p></p:txBody>"#;
    let b = TextBody::from_xml(xml).unwrap();
    assert_eq!(b.paragraphs.len(), 1);
    assert_eq!(b.paragraphs[0].text(), "a & b AB");
}

#[test]
fn text_body_rejects_unknown_entity() {
    let xml = br#"<p:txBody><a:p><a:r><a:t>x &nope; y</a:t></a:r></a:p></p:txBody>"#;
    assert!(TextBody::from_xml(xml).is_err());
}

#[test]
fn text_body_reads_run_flags_and_ignores_bad_size() {
    let xml = br#"<p:txBody><a:p><a:pPr lvl="300" algn="just"/><a:r><a:rPr b="0" i="1" u="none" sz="x"/><a:t>q</a:t></a:r></a:p><a:p/></p:txBody>"#;
    let b = TextBody::from_xml(xml).unwrap();
    assert_eq!(b.paragraphs.len(), 1);
    let p = &b.paragraphs[0];
    assert_eq!(p.level, None);
    assert_eq!(p.align, Some(Align::Justify));
    let rp = &p.runs[0].props;
    assert_eq!((rp.bold, rp.italic, rp.underline, rp.size), (Some(false), Some(true), Some(false), None));
}

#[test]
fn text_body_markup_is_exact() {
    let body = TextBody {
        paragraphs: vec![Paragraph {
            runs: vec![Run { text: "x<y".into(), props: RunProps { italic: Some(true), font: Some("A\"B".into()), ..Default::default() } }],
            level: Some(1),
            bullet: Some(false),
            ..Default::default()
        }],
    };
    assert_eq!(
        body.to_xml(),
        r#"<p:txBody><a:bodyPr/><a:lstStyle/><a:p><a:pPr lvl="1"><a:buNone/></a:pPr><a:r><a:rPr lang="en-US" i="1"><a:latin typeface="A&quot;B"/></a:rPr><a:t>x&lt;y</a:t></a:r></a:p></p:txBody>"#
    );
}

#[test]
fn shape_fill_outline_and_run_edits() {
    let mut sp = Shape::text_box(7, 1, 2, 3, 4, TextBody { paragraphs: vec![Paragraph { runs: vec![Run::new("Hi")], ..Default::default() }] });
    sp.set_fill("#ff00aa").set_outline("#00ff00", 12700).bold(true).size(2000).color("#123456").align(Align::Right);
    assert_eq!(sp.fill.as_deref(), Some("FF00AA"));
    assert_eq!(sp.line, Some(("00FF00".to_string(), 12700)));
    let rp = &sp.body.paragraphs[0].runs[0].props;
    assert_eq!(rp.bold, Some(true));
    assert_eq!(rp.size, Some(2000));
    assert_eq!(rp.color.as_deref(), Some("123456"));
    assert_eq!(sp.body.paragraphs[0].align, Some(Align::Right));
    assert_eq!(
        sp.to_xml(),
        r#"<p:sp><p:nvSpPr><p:cNvPr id="7" name="TextBox 7"/><p:cNvSpPr txBox="1"/><p:nvPr/></p:nvSpPr><p:spPr><a:xfrm><a:off x="1" y="2"/><a:ext cx="3" cy="4"/></a:xfrm><a:prstGeom prst="rect"><a:avLst/></a:prstGeom><a:solidFill><a:srgbClr val="FF00AA"/></a:solidFill><a:ln w="12700"><a:solidFill><a:srgbClr val="00FF00"/></a:solidFill></a:ln></p:spPr><p:txBody><a:bodyPr/><a:lstStyle/><a:p><a:pPr algn="r"/><a:r><a:rPr lang="en-US" b="1" sz="2000"><a:solidFill><a:srgbClr val="123456"/></a:solidFill></a:rPr><a:t>Hi</a:t></a:r></a:p></p:txBody></p:sp>"#
    );
}

#[test]
fn placeholder_shape_with_index() {
    let sp = Shape::placeholder(3, "Body & more", "body", Some(1), TextBody::default());
    assert!(sp.to_xml().starts_with(r#"<p:sp><p:nvSpPr><p:cNvPr id="3" name="Body &amp; more"/><p:cNvSpPr><a:spLocks noGrp="1"/></p:cNvSpPr><p:nvPr><p:ph type="body" idx="1"/></p:nvPr></p:nvSpPr><p:spPr/>"#));
}

#[test]
fn text_body_reads_unclosed_markup_and_skips_bad_attributes_elsewhere() {
    let xml = br#"<p:txBody><a:bodyPr x="1" x="2"/><a:p><a:r><a:t>kept</a:t></a:r></a:p><a:p><a:r><a:t>open"#;
    let b = TextBody::from_xml(xml).unwrap();
    assert_eq!(b.paragraphs.len(), 1);
    assert_eq!(b.paragraphs[0].text(), "kept");
    let bad = br#"<p:txBody><a:p><a:r><a:rPr b="1" b="0"/><a:t>x</a:t></a:r></a:p></p:txBody>"#;
    assert!(TextBody::from_xml(bad).is_err());
}
