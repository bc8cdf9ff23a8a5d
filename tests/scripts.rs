use browser_use::scripts::{
    hover_script, hover_script_with, select_script, select_script_with, HOVER_HEAD, HOVER_TAIL,
    SELECT_HEAD, SELECT_TAIL,
};

#[test]
fn hover_script_quotes_the_locator() {
    let script = hover_script("#a\"b");
    assert_eq!(script, format!("{}\"#a\\\"b\"{}", HOVER_HEAD, HOVER_TAIL));
    assert!(script.contains("document.querySelector(\"#a\\\"b\")"));
}

#[test]
fn hover_script_with_embeds_as_given() {
    assert_eq!(hover_script_with("'x'"), format!("{}'x'{}", HOVER_HEAD, HOVER_TAIL));
}

#[test]
fn select_script_embeds_configuration() {
    let script = select_script("#country", "us");
    assert_eq!(
        script,
        format!("{}{{\"selector\":\"#country\",\"value\":\"us\"}}{}", SELECT_HEAD, SELECT_TAIL)
    );
    assert!(script.contains("const config = {\"selector\":\"#country\",\"value\":\"us\"};"));
}

#[test]
fn select_script_with_embeds_as_given() {
    assert_eq!(
        select_script_with("1", "2"),
        format!("{}{{\"selector\":1,\"value\":2}}{}", SELECT_HEAD, SELECT_TAIL)
    );
}

#[test]
fn locator_escapes_follow_json() {
    let script = hover_script("a\\\u{1}\n\u{7f}é");
    assert_eq!(
        script,
        format!("{}\"a\\\\\\u0001\\n\u{7f}é\"{}", HOVER_HEAD, HOVER_TAIL)
    );
}
