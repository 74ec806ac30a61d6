use zavora_slide::scheme_color::SchemeColor;

#[test]
fn val_round_trip() {
    for sc in SchemeColor::ALL {
        let val = sc.val();
        let parsed = SchemeColor::from_val(val).unwrap();
        assert_eq!(parsed, sc, "round-trip failed for {val}");
    }
}

#[test]
fn from_val_unknown_returns_none() {
    assert_eq!(SchemeColor::from_val("unknown"), None);
    assert_eq!(SchemeColor::from_val(""), None);
    assert_eq!(SchemeColor::from_val("Accent1"), None);
}

#[test]
fn to_xml_self_closing() {
    assert_eq!(SchemeColor::Accent1.to_xml(), "<a:schemeClr val=\"accent1\"/>");
    assert_eq!(SchemeColor::FolHlink.to_xml(), "<a:schemeClr val=\"folHlink\"/>");
}

#[test]
fn to_xml_open_tag() {
    assert_eq!(SchemeColor::Dk1.to_xml_open(), "<a:schemeClr val=\"dk1\">");
}

#[test]
fn display_trait() {
    assert_eq!(SchemeColor::Lt2.to_string(), "lt2");
    assert_eq!(SchemeColor::Hlink.to_string(), "hlink");
}

#[test]
fn all_has_twelve_variants() {
    assert_eq!(SchemeColor::ALL.len(), 12);
}
