use artheris::clock::{nanoseconds, timestamp_ns_at, Moment};
use artheris::json::{parse_bytes, parse_text, put_entry, read_value, Json, JsonNumber};
use artheris::text;

fn strings(list: &[&str]) -> Vec<String> {
    list.iter().map(|s| s.to_string()).collect()
}

#[test]
fn texts_are_ordered_character_by_character() {
    assert!(text::before("abc", "abd"));
    assert!(text::before("ab", "abc"));
    assert!(!text::before("abc", "abc"));
    assert!(text::before("Z", "a"));
    assert!(!text::before("b", "a"));
    assert!(text::before("", "a"));
}

#[test]
fn texts_are_joined() {
    assert_eq!(text::joined(&strings(&["a", "b", "c"]), ", "), "a, b, c");
    assert_eq!(text::joined(&strings(&["a"]), ", "), "a");
    assert_eq!(text::joined(&strings(&[]), ", "), "");
}

#[test]
fn parts_and_ends_are_found() {
    let chars = text::chars_of("http://h/imp?precision=ns");
    assert!(text::is_part(&chars, "precision="));
    assert!(!text::is_part(&chars, "exec"));
    assert!(text::is_suffix(&chars, "=ns"));
    assert!(!text::is_suffix(&chars, "/imp"));
    assert!(text::is_part(&chars, ""));
    assert_eq!(text::text_of(&chars), "http://h/imp?precision=ns");
}

#[test]
fn integers_are_written_in_decimal() {
    assert_eq!(text::int_to_text(0), "0");
    assert_eq!(text::int_to_text(-17), "-17");
    assert_eq!(text::int_to_text(i64::MIN), i64::MIN.to_string());
    assert_eq!(text::int_to_text(i64::MAX), i64::MAX.to_string());
    assert_eq!(text::nat_to_text(u64::MAX), u64::MAX.to_string());
}

#[test]
fn ports_are_read() {
    assert_eq!(text::read_port("8812"), Some(8812));
    assert_eq!(text::read_port("+8812"), Some(8812));
    assert_eq!(text::read_port("00080"), Some(80));
    assert_eq!(text::read_port("65535"), Some(65535));
    assert_eq!(text::read_port("65536"), None);
    assert_eq!(text::read_port("99999999999999999999999"), None);
    assert_eq!(text::read_port(""), None);
    assert_eq!(text::read_port("+"), None);
    assert_eq!(text::read_port("-1"), None);
    assert_eq!(text::read_port("80 "), None);
    for given in ["8812", "+5", "x", "65536", "", "+", "0"] {
        assert_eq!(text::read_port(given), given.parse::<u16>().ok());
    }
}

#[test]
fn white_space_is_trimmed() {
    assert_eq!(text::trim("  exit \n"), "exit");
    assert_eq!(text::trim("\u{2003}a b\u{a0}"), "a b");
    assert_eq!(text::trim(" \t"), "");
    assert_eq!(text::trim_front(" \t{ }"), "{ }");
    assert_eq!(text::trim_front("{ } "), "{ } ");
}

#[test]
fn white_space_is_what_unicode_says() {
    for c in '\0'..=char::MAX {
        assert_eq!(text::is_white(c), c.is_whitespace());
    }
}

#[test]
fn texts_come_apart_as_they_were_joined() {
    let apart = |s: &str| text::pieces_of(&text::chars_of(s), '&');
    assert_eq!(apart("a=1&&b"), strings(&["a=1", "", "b"]));
    assert_eq!(apart(""), strings(&[""]));
    assert_eq!(apart("&"), strings(&["", ""]));
    let list = strings(&["x", "", "y z"]);
    assert_eq!(apart(&text::joined(&list, "&")), list);
    assert_eq!(text::find_char(&text::chars_of("ab?c?"), '?'), 2);
    assert_eq!(text::find_char(&text::chars_of("ab"), '?'), 2);
    assert!(text::is_prefix("precision=ns", "precision="));
    assert!(!text::is_prefix("prec", "precision="));
}

#[test]
fn case_of_letters_is_ignored() {
    assert!(text::alike("AngleRoll", "angleROLL"));
    assert!(!text::alike("AngleRoll", "angle_roll"));
    assert!(!text::alike("\u{c9}", "\u{e9}"));
}

#[test]
fn ascending_lists_hold_each_text_once() {
    let mut list = strings(&[]);
    assert!(text::insert_ascending(&mut list, "b".to_string()));
    assert!(text::insert_ascending(&mut list, "a".to_string()));
    assert!(text::insert_ascending(&mut list, "c".to_string()));
    assert!(!text::insert_ascending(&mut list, "b".to_string()));
    assert_eq!(list, strings(&["a", "b", "c"]));
}

#[test]
fn json_texts_are_read() {
    let j = parse_text(r#"{"b":[1,2.5,true,null],"a":"x"}"#).unwrap();
    assert_eq!(j.get("a").unwrap().as_text(), Some("x"));
    assert!(j.get("missing").is_none());
    let b = j.get("b").unwrap();
    if let Json::Array(items) = b {
        assert_eq!(items.len(), 4);
        assert_eq!(items[0], Json::Number(JsonNumber::Int(1)));
        assert!(items[1].is_number());
        assert_eq!(items[1].as_integer(), None);
        assert_eq!(items[2].as_truth(), Some(true));
        assert_eq!(items[3], Json::Null);
    } else {
        panic!("no array");
    }
    assert!(parse_text("{").is_none());
    assert!(parse_text("").is_none());
    assert!(parse_bytes(b"[1").is_none());
    assert_eq!(parse_bytes(b"[1]"), Some(Json::Array(vec![Json::Number(JsonNumber::Int(1))])));
}

#[test]
fn members_stand_in_the_order_of_their_names() {
    let j = parse_text(r#"{"b":1,"a":2,"c":{"z":1,"y":2}}"#).unwrap();
    assert_eq!(j.to_text(), r#"{"a":2,"b":1,"c":{"y":2,"z":1}}"#);
}

#[test]
fn real_numbers_keep_their_texts() {
    match parse_text("2.5e3") {
        Some(Json::Number(JsonNumber::Real(x))) => {
            assert_eq!(x.json, "2500.0");
            assert_eq!(x.plain, "2500");
            assert_eq!(x.double.round(), 2500);
        }
        other => panic!("{:?}", other),
    }
    match parse_text("-1.5") {
        Some(Json::Number(JsonNumber::Real(x))) => {
            assert_eq!(x.json, "-1.5");
            assert_eq!(x.plain, "-1.5");
            assert_eq!(x.double.round(), -2);
        }
        other => panic!("{:?}", other),
    }
    match parse_text("18446744073709551615") {
        Some(Json::Number(JsonNumber::Real(x))) => {
            assert_eq!(x.json, "18446744073709551615");
            assert_eq!(x.plain, "18446744073709552000");
            assert_eq!(x.double.round(), i64::MAX);
        }
        other => panic!("{:?}", other),
    }
}

#[test]
fn integers_are_held_as_doubles() {
    let x = JsonNumber::Int(1234).as_double();
    assert_eq!(x.json, "1234.0");
    assert_eq!(x.plain, "1234");
    assert_eq!(x.double.round(), 1234);
}

#[test]
fn strings_are_quoted() {
    let j = Json::Text("a\"b\\c\n\r\t\u{8}\u{c}\u{1}\u{1f}\u{7f}\u{e9}".to_string());
    assert_eq!(
        j.to_text(),
        "\"a\\\"b\\\\c\\n\\r\\t\\b\\f\\u0001\\u001f\u{7f}\u{e9}\""
    );
    let all: String = (0u8..128).map(|c| c as char).collect();
    assert_eq!(
        Json::Text(all.clone()).to_text(),
        serde_json::to_string(&all).unwrap()
    );
}

#[test]
fn json_is_written_as_it_was_read() {
    for t in [
        r#"{"a":[],"b":{},"c":[null,true,false,-7,1.25,"x"]}"#,
        r#"[[[1]],{"k":{"k":"v"}}]"#,
        "null",
    ] {
        let value: serde_json::Value = serde_json::from_str(t).unwrap();
        assert_eq!(read_value(&value).to_text(), value.to_string());
        assert_eq!(parse_text(t).unwrap().to_text(), t);
    }
}

#[test]
fn what_is_put_is_found() {
    let whole = |i: i64| Json::Number(JsonNumber::Int(i));
    let mut list: Vec<(String, Json)> = Vec::new();
    put_entry(&mut list, "b".to_string(), whole(1));
    put_entry(&mut list, "a".to_string(), whole(2));
    put_entry(&mut list, "b".to_string(), whole(3));
    assert_eq!(list, vec![("a".to_string(), whole(2)), ("b".to_string(), whole(3))]);
}

#[test]
fn nested_members_are_found() {
    let j = parse_text(r#"{"metadata":{"timeField":"t"}}"#).unwrap();
    assert_eq!(j.get2("metadata", "timeField").unwrap().as_text(), Some("t"));
    assert!(j.get2("metadata", "modeField").is_none());
    assert!(j.get2("nothing", "timeField").is_none());
}

#[test]
fn moments_are_read_as_nanoseconds() {
    let present = Moment { nanos: Some(5), micros: 0 };
    assert_eq!(
        timestamp_ns_at(Some("2024-01-01T00:00:00Z"), present),
        1_704_067_200_000_000_000
    );
    assert_eq!(
        timestamp_ns_at(Some("2024-01-01T01:00:00.000000001+01:00"), present),
        1_704_067_200_000_000_001
    );
    assert_eq!(timestamp_ns_at(Some("yesterday"), present), 5);
    assert_eq!(timestamp_ns_at(None, present), 5);
}

#[test]
fn moments_without_nanoseconds_are_multiplied() {
    assert_eq!(nanoseconds(Moment { nanos: None, micros: 7 }), 7000);
    assert_eq!(
        nanoseconds(Moment { nanos: None, micros: i64::MAX }),
        i64::MAX.wrapping_mul(1000)
    );
}
