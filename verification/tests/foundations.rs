use zeroclaw::json;
use zeroclaw::json::Json;
use zeroclaw::sorting;
use zeroclaw::sorting::Descending;
use zeroclaw::text;
use zeroclaw::text_map::TextMap;

#[test]
fn white_space_is_that_of_unicode() {
    for code in 0..0x11_0000u32 {
        if let Some(c) = char::from_u32(code) {
            assert_eq!(text::is_whitespace(c), c.is_whitespace(), "{code:x}");
        }
    }
}

#[test]
fn splitting_agrees_with_std() {
    for s in ["", "a", " a  b ", "a\u{2003}b\n", "\t", "é x\r\ny", "a\n\nb\n", "\r\n", "a\rb"] {
        let words: Vec<&str> = s.split_whitespace().collect();
        assert_eq!(text::split_words(s), words, "{s:?}");
        let lines: Vec<&str> = s.lines().collect();
        assert_eq!(text::split_lines(s), lines, "{s:?}");
        let pieces: Vec<&str> = s.split('\n').collect();
        assert_eq!(text::split_char(s, '\n'), pieces, "{s:?}");
        assert_eq!(text::trimmed(s), s.trim(), "{s:?}");
    }
}

#[test]
fn searching_agrees_with_std() {
    for (hay, needle) in [("", ""), ("abc", ""), ("abc", "bc"), ("abc", "cd"), ("äöü", "öü"), ("aab", "ab")] {
        assert_eq!(text::contains_text(hay, needle), hay.contains(needle));
        assert_eq!(text::starts_with(hay, needle), hay.starts_with(needle));
        assert_eq!(text::ends_with(hay, needle), hay.ends_with(needle));
        assert_eq!(text::strip_prefix(hay, needle), hay.strip_prefix(needle));
        assert_eq!(text::comes_before(hay, needle), hay < needle);
    }
    assert_eq!(text::strip_leading("xxxa", "x"), "a");
    assert_eq!(text::strip_trailing("a``````", "```"), "a");
}

#[test]
fn numbers_and_lengths() {
    assert_eq!(text::decimal_of(0), "0");
    assert_eq!(text::decimal_of(u64::MAX), u64::MAX.to_string());
    assert_eq!(text::decimal_of_signed(i64::MIN), i64::MIN.to_string());
    assert_eq!(text::byte_length("aé🌍"), 7);
    assert_eq!(text::fitting("aé🌍", 3), 2);
    assert_eq!(text::reaching("aé🌍", 4), 3);
    assert_eq!(text::ascii_lower_of("AÉz"), "aÉz");
}

#[test]
fn values_are_read_and_written() {
    let text = r#"{"b":[1,-2,1.5,null,true,"x\n\u0001"],"a":{}}"#;
    let value = json::parse(text).unwrap();
    assert_eq!(json::to_text(&value), r#"{"a":{},"b":[1,-2,1.5,null,true,"x\n\u0001"]}"#);
    assert_eq!(json::parse(&json::to_text(&value)).unwrap(), value);
    let items = value.get("b").unwrap().as_array().unwrap();
    assert_eq!(items[0], Json::UInt(1));
    assert_eq!(items[1], Json::Int(-2));
    assert_eq!(items[2], Json::Real("1.5".to_string()));
    assert_eq!(json::parse("{").is_none(), true);
    assert_eq!(json::to_text_pretty(&json::object0()), "{}");
    assert_eq!(json::quote("a\"\\\u{7}"), "\"a\\\"\\\\\\u0007\"");
    assert_eq!(value.clone(), value);
}

#[test]
fn sorting_is_stable() {
    let keys: Vec<u64> = vec![3, 1, 3, 2, 1];
    assert_eq!(sorting::order_of(&keys), vec![1, 4, 3, 0, 2]);
    let falling: Vec<Descending<u64>> = keys.into_iter().map(Descending).collect();
    assert_eq!(sorting::order_of(&falling), vec![0, 2, 3, 1, 4]);
    let texts = vec!["b".to_string(), "".to_string(), "aé".to_string(), "a".to_string()];
    assert_eq!(sorting::order_of(&texts), vec![1, 3, 2, 0]);
}

#[test]
fn a_text_map_keeps_one_value_per_key() {
    let mut map: TextMap<u32> = TextMap::new();
    map.insert("a".to_string(), 1);
    map.insert("b".to_string(), 2);
    map.insert("a".to_string(), 3);
    assert_eq!(map.len(), 2);
    assert_eq!(map.get("a"), Some(&3));
    assert!(map.contains_key("b"));
    assert!(map.get("c").is_none());
    let mut keys = map.keys();
    keys.sort();
    assert_eq!(keys, vec!["a", "b"]);
    assert_eq!(map.clone().get("b"), Some(&2));
}
