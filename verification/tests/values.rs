use codehelm::json::{encode, from_value, parse, parse_bytes, put, render, to_value, Json};
use codehelm::text::{
    belongs, cat3, decimal, forward_slashes_of, join, lines_of, parse_u64, plain_id, sort,
    split_once_of, text_before, text_bytes, to_chars, trim_both_of, unix_lines_of, words_of, CharSet,
};

fn text(chars: &[char]) -> String {
    chars.iter().collect()
}

#[test]
fn values_survive_the_way_through_text() {
    let source = r#"{"a":[1,-2,1.5,true,null],"b":{"c":"ä\n"}}"#;
    let value = parse(source).unwrap();
    assert_eq!(render(&value), source);
    assert_eq!(encode(&value).unwrap(), source.as_bytes());
    assert_eq!(parse_bytes(source.as_bytes()).unwrap(), value);
    assert_eq!(from_value(to_value(&value)), value);
    assert_eq!(value.clone(), value);
    assert!(parse("{").is_err());
    assert!(parse_bytes(b"\"\xff\"").is_err());
}

#[test]
fn keys_are_kept_in_order() {
    let mut entries = vec![];
    for key in ["b", "a", "c", "a"] {
        put(&mut entries, key, Json::text(key));
    }
    let keys: Vec<&str> = entries.iter().map(|entry| entry.0.as_str()).collect();
    assert_eq!(keys, ["a", "b", "c"]);
    assert_eq!(parse(r#"{"z":1,"y":2,"z":3}"#).unwrap(), parse(r#"{"y":2,"z":3}"#).unwrap());
}

#[test]
fn values_are_looked_into() {
    let value = parse(r#"{"n":18446744073709551615,"m":-1,"t":"x","f":false,"l":[1]}"#).unwrap();
    assert_eq!(value.at("n").as_u64(), Some(u64::MAX));
    assert_eq!(value.at("m").as_u64(), None);
    assert_eq!(value.at("t").as_str(), Some("x"));
    assert!(value.at("t").is_text("x") && value.at("t").is_string());
    assert_eq!(value.at("f").as_bool(), Some(false));
    assert_eq!(value.at("l").as_array().unwrap(), &vec![Json::unsigned(1)]);
    assert_eq!(value.get("none"), None);
    assert_eq!(value.at("none"), &Json::Null);
    assert_eq!(value.at("t").at("x"), &Json::Null);
    assert!(value.is_object() && Json::empty_object().is_object());
}

#[test]
fn texts_are_cut_and_joined() {
    assert_eq!(words_of(&to_chars(" a\u{3000}b\t\nc ")), ["a", "b", "c"]);
    assert_eq!(text(trim_both_of(CharSet::White, &to_chars("\u{2003} a b \n"))), "a b");
    let chars = to_chars("a\r\nb\n\nc");
    let lines: Vec<String> = lines_of(&chars).into_iter().map(text).collect();
    assert_eq!(lines, ["a", "b", "", "c"]);
    let chars = to_chars("k: v: w");
    let (key, value) = split_once_of(&chars, ":").unwrap();
    assert_eq!((text(key), text(value)), ("k".to_owned(), " v: w".to_owned()));
    assert_eq!(join(&vec!["a".to_owned(), "b".to_owned()], ", "), "a, b");
    assert_eq!(cat3("a", "b", "c"), "abc");
    assert_eq!(text(&forward_slashes_of(&to_chars("a\\b/c"))), "a/b/c");
    assert_eq!(text(&unix_lines_of(&to_chars("a\r\nb\rc\r\r\n"))), "a\nb\rc\r\n");
}

#[test]
fn numbers_are_written_and_read() {
    assert_eq!(decimal(0), "0");
    assert_eq!(decimal(u128::MAX), "340282366920938463463374607431768211455");
    assert_eq!(parse_u64(&to_chars("007")), Some(7));
    assert_eq!(parse_u64(&to_chars("18446744073709551615")), Some(u64::MAX));
    assert_eq!(parse_u64(&to_chars("18446744073709551616")), None);
    assert_eq!(parse_u64(&to_chars("+")), None);
    assert_eq!(parse_u64(&to_chars("")), None);
    assert_eq!(parse_u64(&to_chars(" 1")), None);
}

#[test]
fn texts_are_ordered_as_std_orders_them() {
    let words = ["b", "a", "", "ab", "é", "z", "A", "\u{10000}", "\u{ffff}", "a"];
    let mut expected: Vec<String> = words.iter().map(|word| word.to_string()).collect();
    let sorted = sort(expected.clone());
    expected.sort();
    assert_eq!(sorted, expected);
    for left in words {
        for right in words {
            assert_eq!(text_before(left, right), left < right);
        }
        assert_eq!(text_bytes(left), left.len());
    }
    assert!(plain_id("a-1_B") && !plain_id("") && !plain_id("../a") && !plain_id("é"));
}

#[test]
fn white_space_is_what_std_says() {
    for code in 0..=0x10_ffff_u32 {
        if let Some(c) = char::from_u32(code) {
            assert_eq!(belongs(CharSet::White, c), c.is_whitespace());
        }
    }
}

#[test]
fn texts_are_cut_as_std_cuts_them() {
    let samples = ["", "\n", "\r\n", "a\n\n", "a\r", "\r\r\n", " \u{2028}a\u{85}b ", "a\r\nb\n", "+1", "-1", "1_0"];
    for sample in samples {
        let chars = to_chars(sample);
        let lines: Vec<String> = lines_of(&chars).into_iter().map(text).collect();
        assert_eq!(lines, sample.lines().collect::<Vec<&str>>());
        assert_eq!(words_of(&chars), sample.split_whitespace().collect::<Vec<&str>>());
        assert_eq!(text(trim_both_of(CharSet::White, &chars)), sample.trim());
        assert_eq!(text(&unix_lines_of(&chars)), sample.replace("\r\n", "\n"));
        assert_eq!(parse_u64(&chars), sample.parse::<u64>().ok());
    }
}

#[test]
fn the_last_entry_of_a_key_counts() {
    let entry = |key: &str, value: &str| (key.to_owned(), Json::Text(value.to_owned()));
    let twice = Json::Object(vec![
        entry("a", "1"),
        entry("b", "2"),
        entry("a", "3"),
        entry("c", "4"),
        entry("a", "5"),
        entry("b", "6"),
    ]);
    assert_eq!(render(&twice), r#"{"a":"5","b":"6","c":"4"}"#);
    let value = to_value(&twice);
    assert_eq!(value["a"], "5");
    assert_eq!(value.as_object().unwrap().len(), 3);
    assert_eq!(twice.at("b").as_str(), Some("6"));
}
