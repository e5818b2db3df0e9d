use lab1_chat::messages::read_json_text;

#[test]
fn parses_numbers_by_their_text() {
    let o = read_json_text(r#"{"p":3,"g":4}"#).unwrap();
    assert_eq!(o.text("p"), "3");
    assert_eq!(o.text("g"), "4");
    assert!(!o.is_null("p"));
    assert!(o.is_null("a"));
}

#[test]
fn parses_strings_without_quotes() {
    let o = read_json_text(r#"{"msg":"aGk=","from":"bob"}"#).unwrap();
    assert_eq!(o.text("msg"), "aGk=");
    assert_eq!(o.text("from"), "bob");
}

#[test]
fn parses_a_parameter_request() {
    let o = read_json_text(r#"{"request":"keys"}"#).unwrap();
    assert!(o.is_single_string("request", "keys"));
    let o = read_json_text(r#"{"request":"keys","x":1}"#).unwrap();
    assert!(!o.is_single_string("request", "keys"));
}

#[test]
fn parses_null_as_null() {
    let o = read_json_text(r#"{"encryption":null}"#).unwrap();
    assert!(o.is_null("encryption"));
    assert_eq!(o.text("encryption"), "null");
}

#[test]
fn a_value_that_is_no_object_has_no_entries() {
    let o = read_json_text("[1,2]").unwrap();
    assert!(o.is_null("p"));
    assert_eq!(o.text("p"), "null");
}

#[test]
fn text_that_is_not_json_is_refused() {
    match read_json_text("not json") {
        Err(e) => assert_eq!(e, "Could not parse data into jason"),
        Ok(_) => panic!("parsed text that is not JSON"),
    }
}
