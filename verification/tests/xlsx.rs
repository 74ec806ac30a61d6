use zavora_slide::xlsx::col_index_to_letter;

#[test]
fn col_letter_a() {
    assert_eq!(col_index_to_letter(0), "A");
}

#[test]
fn col_letter_z() {
    assert_eq!(col_index_to_letter(25), "Z");
}

#[test]
fn col_letter_aa() {
    assert_eq!(col_index_to_letter(26), "AA");
}

#[test]
fn col_letter_az() {
    assert_eq!(col_index_to_letter(51), "AZ");
}

#[test]
fn col_letter_three_letters() {
    assert_eq!(col_index_to_letter(701), "ZZ");
    assert_eq!(col_index_to_letter(702), "AAA");
}

#[test]
fn xml_escape_writes_the_five_entities() {
    assert_eq!(
        zavora_slide::xlsx::xml_escape("A & B <C> \"D\" 'E'"),
        "A &amp; B &lt;C&gt; &quot;D&quot; &apos;E&apos;"
    );
    assert_eq!(zavora_slide::xlsx::xml_escape("plain"), "plain");
}
