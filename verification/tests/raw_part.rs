use zavora_slide::raw_part::RawPart;

#[test]
fn round_trip_is_byte_identical() {
    let src = br#"<p:sld xmlns:p="..."><p:cSld/></p:sld>"#;
    let part = RawPart::from_xml(src);
    assert_eq!(part.to_xml(), src.to_vec());
}
