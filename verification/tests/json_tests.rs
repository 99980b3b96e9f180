use spellbook::codec::{json_to_text, parse_json};
use spellbook::json::Json;

fn reprint(text: &str) -> Option<String> {
    parse_json(text).map(|j| json_to_text(&j))
}

#[test]
fn parses_scalars() {
    assert_eq!(reprint("null").as_deref(), Some("null"));
    assert_eq!(reprint("true").as_deref(), Some("true"));
    assert_eq!(reprint("false").as_deref(), Some("false"));
    assert_eq!(reprint("0").as_deref(), Some("0"));
    assert_eq!(reprint("-12.5e+3").as_deref(), Some("-12.5e+3"));
    assert_eq!(reprint("\"hi\"").as_deref(), Some("\"hi\""));
}

#[test]
fn parses_nested_structures() {
    let text = " { \"a\" : [ 1 , true , { \"b\" : null } ] , \"c\" : \"d\" } ";
    assert_eq!(
        reprint(text).as_deref(),
        Some("{\"a\":[1,true,{\"b\":null}],\"c\":\"d\"}")
    );
}

#[test]
fn rejects_invalid_documents() {
    assert!(parse_json("").is_none());
    assert!(parse_json("{").is_none());
    assert!(parse_json("nul").is_none());
    assert!(parse_json("nullx").is_none());
    assert!(parse_json("01").is_none());
    assert!(parse_json("1.").is_none());
    assert!(parse_json("[1,]").is_none());
    assert!(parse_json("{\"a\":}").is_none());
    assert!(parse_json("{\"a\" 1}").is_none());
    assert!(parse_json("\"open").is_none());
    assert!(parse_json("\"bad\\q\"").is_none());
    assert!(parse_json("[1] [2]").is_none());
}

#[test]
fn string_escapes_round_trip() {
    let tricky = "a\"b\\c\nd\te/";
    let printed = json_to_text(&Json::Str(String::from(tricky)));
    match parse_json(&printed) {
        Some(Json::Str(s)) => assert_eq!(s, tricky),
        other => panic!("expected a string, got {:?}", other),
    }
}

#[test]
fn control_chars_print_as_unicode_escapes() {
    let printed = json_to_text(&Json::Str(String::from("\n")));
    assert_eq!(printed, "\"\\u000a\"");
    let printed2 = json_to_text(&Json::Str(String::from("\u{1f}")));
    assert_eq!(printed2, "\"\\u001f\"");
}

#[test]
fn unicode_escapes_decode() {
    match parse_json("\"\\u0041\\u00e9\"") {
        Some(Json::Str(s)) => assert_eq!(s, "A\u{e9}"),
        other => panic!("expected a string, got {:?}", other),
    }
    // surrogate halves are not characters
    assert!(parse_json("\"\\ud800\"").is_none());
}

#[test]
fn short_escapes_decode() {
    match parse_json("\"\\\"\\\\\\/\\b\\f\\n\\r\\t\"") {
        Some(Json::Str(s)) => assert_eq!(s, "\"\\/\u{8}\u{c}\n\r\t"),
        other => panic!("expected a string, got {:?}", other),
    }
}

#[test]
fn astral_characters_pass_through() {
    let text = "\"smile \u{1F600}\"";
    match parse_json(text) {
        Some(Json::Str(s)) => assert_eq!(s, "smile \u{1F600}"),
        other => panic!("expected a string, got {:?}", other),
    }
}
