use local_agents_ops::json::{parse_json, read_json, Json};
use local_agents_ops::text::{
    chars_of, collapse_white_space, contains_text, decimal_text, parse_u32, signed_decimal_text,
    split_chars, string_of, text_eq, trimmed, white_space,
};

#[test]
fn white_space_is_what_the_standard_says() {
    for code in 0..=0x10ffffu32 {
        if let Some(c) = char::from_u32(code) {
            assert_eq!(white_space(c), c.is_whitespace(), "{code:x}");
        }
    }
}

#[test]
fn trimming_agrees_with_the_standard() {
    for s in ["", " ", "a", " a b ", "\u{3000}日本\t", "\n\r\n", "x\u{a0}"] {
        assert_eq!(trimmed(s), s.trim());
        assert_eq!(trimmed(&trimmed(s)), trimmed(s));
        assert_eq!(
            collapse_white_space(s),
            s.split_whitespace().collect::<Vec<_>>().join(" ")
        );
    }
    assert_eq!(collapse_white_space("  a \n\t b\u{3000}c  "), "a b c");
}

#[test]
fn splitting_agrees_with_the_standard() {
    for s in ["", ".", "a", "a.b", ".a..b."] {
        let parts: Vec<String> = split_chars(&chars_of(s), '.').iter().map(|p| string_of(p)).collect();
        assert_eq!(parts, s.split('.').collect::<Vec<_>>());
    }
}

#[test]
fn numbers_agree_with_the_standard() {
    for s in ["0", "007", "+7", "4294967295", "4294967296", "", "+", "-1", "1 ", "１", "++1"] {
        assert_eq!(parse_u32(&chars_of(s)), s.parse::<u32>().ok(), "{s}");
    }
    for n in [0, 9, 10, 99, 100, u64::MAX] {
        assert_eq!(decimal_text(n), n.to_string());
    }
    for n in [0, 1, -1, 10, -10, i32::MAX, i32::MIN] {
        assert_eq!(signed_decimal_text(n), n.to_string());
    }
}

#[test]
fn texts_are_compared_by_their_characters() {
    assert!(text_eq("日本", "日本"));
    assert!(!text_eq("a", "A"));
    assert!(!text_eq("a", "ab"));
    assert!(text_eq("", ""));
    let texts = vec!["a".to_string(), "b".to_string()];
    assert!(contains_text(&texts, "b"));
    assert!(!contains_text(&texts, "c"));
    assert!(!contains_text(&[], ""));
}

#[test]
fn json_is_read() {
    let value = parse_json(r#"{"a":[null,true,1,-1,1.5,"x",{"b":"y"}],"a2":18446744073709551615}"#)
        .unwrap();
    let items = value.items_field("a").unwrap();
    assert_eq!(items.len(), 7);
    assert!(matches!(items[0], Json::Null));
    assert!(matches!(items[1], Json::Bool(true)));
    assert_eq!(items[2].as_u64(), Some(1));
    assert_eq!(items[3].as_u64(), None);
    assert_eq!(items[4].as_u64(), None);
    assert_eq!(items[5].as_str(), Some("x"));
    assert_eq!(items[6].text_field("b"), Some("y"));
    assert_eq!(value.number_field("a2"), Some(u64::MAX));
    assert!(value.get("c").is_none());
    assert!(value.first().is_none());
    assert!(items[6].get("b").is_some());
    assert_eq!(value.get("a").and_then(|a| a.first()).map(|v| matches!(v, Json::Null)), Some(true));
    // The last of two fields of one name is the one that counts.
    assert_eq!(parse_json(r#"{"a":1,"a":2}"#).unwrap().number_field("a"), Some(2));
}

#[test]
fn json_that_is_none_is_refused() {
    for text in ["", "{", "nope", "{} x"] {
        let expected = serde_json::from_str::<serde_json::Value>(text).unwrap_err().to_string();
        match parse_json(text) {
            Ok(_) => panic!("{text} was read"),
            Err(message) => assert_eq!(message, expected),
        }
    }
}

#[test]
fn values_are_taken_over() {
    let mut map = serde_json::Map::new();
    map.insert("n".to_string(), serde_json::Value::from(3u64));
    map.insert("s".to_string(), serde_json::Value::from("t"));
    let value = read_json(serde_json::Value::Object(map));
    assert_eq!(value.number_field("n"), Some(3));
    assert_eq!(value.text_field("s"), Some("t"));
}
