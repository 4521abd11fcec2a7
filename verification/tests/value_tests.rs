use monkey_json::chars::hex_digit;
use monkey_json::number::is_float_literal;
use monkey_json::utf16::decode;
use monkey_json::value::{rank, Object, Rank, Value};

fn literal(text: &str) -> bool {
    is_float_literal(&text.chars().collect::<Vec<char>>())
}

#[test]
fn float_literals_are_those_that_parse() {
    let texts = [
        "", "0", "3", "+3", "-3", "1e3", "1E3", "0.3", ".3", "3.", "+.3", "-3.", "1.e5", "1e-5",
        "1e+5", "1.5e05", "00012", "123456789012345678901234567890", "1e99999", ".", "+", "-",
        "e", "E", "e5", ".e5", "1e", "1e+", "1e-", "1e5.", "1e5e5", "1..2", "1.2.3", "+-3", "-+3",
        "3-", "3+", "1e++5", "++1", "1 ", " 1", "1a", "٣", "１", "inf", "nan",
    ];
    for text in texts {
        let by_std = text.parse::<f64>().is_ok();
        let named = ["inf", "nan"].contains(&text);
        assert_eq!(literal(text), by_std && !named, "{:?}", text);
    }
}

#[test]
fn hexadecimal_digits() {
    assert_eq!(hex_digit('0'), Some(0));
    assert_eq!(hex_digit('9'), Some(9));
    assert_eq!(hex_digit('a'), Some(10));
    assert_eq!(hex_digit('f'), Some(15));
    assert_eq!(hex_digit('A'), Some(10));
    assert_eq!(hex_digit('F'), Some(15));
    for c in ['g', 'G', '/', ':', '@', '`', ' ', '+', '٣', 'ａ'] {
        assert_eq!(hex_digit(c), None, "{:?}", c);
    }
    for c in "0123456789abcdefABCDEF".chars() {
        assert_eq!(hex_digit(c).map(u32::from), c.to_digit(16));
    }
}

#[test]
fn decoding_code_units() {
    assert_eq!(decode(&vec![]), Some(String::new()));
    assert_eq!(decode(&vec![0x41, 0x3042]), Some("Aあ".to_string()));
    assert_eq!(decode(&vec![0xD83D, 0xDE04]), Some("😄".to_string()));
    assert_eq!(decode(&vec![0xD800, 0xDC00]), Some("\u{10000}".to_string()));
    assert_eq!(decode(&vec![0xDBFF, 0xDFFF]), Some("\u{10FFFF}".to_string()));
    assert_eq!(decode(&vec![0xD7FF, 0xE000, 0xFFFF]), Some("\u{D7FF}\u{E000}\u{FFFF}".to_string()));
    assert_eq!(decode(&vec![0xD83D]), None);
    assert_eq!(decode(&vec![0xDE04]), None);
    assert_eq!(decode(&vec![0xDE04, 0xD83D]), None);
    assert_eq!(decode(&vec![0xD83D, 0x41]), None);
    assert_eq!(decode(&vec![0x41, 0xD83D, 0xDE04, 0xDC00]), None);
}

#[test]
fn decoding_agrees_with_the_standard_library() {
    let samples: [&[u16]; 6] = [
        &[0x68, 0x69],
        &[0xD834, 0xDD1E, 0x6d, 0x75, 0x73, 0x69, 0x63],
        &[0xD834, 0xDD1E, 0x6d, 0x75, 0xD800, 0x69, 0x63],
        &[0xDBFF, 0xDC00],
        &[0xDC00, 0xDBFF],
        &[0xFFFF, 0x0],
    ];
    for units in samples {
        assert_eq!(decode(&units.to_vec()), String::from_utf16(units).ok());
    }
}

#[test]
fn keys_are_ranked_as_strings_compare() {
    assert_eq!(rank("", ""), Rank::Same);
    assert_eq!(rank("", "a"), Rank::Before);
    assert_eq!(rank("a", ""), Rank::After);
    assert_eq!(rank("abc", "abd"), Rank::Before);
    assert_eq!(rank("abd", "abc"), Rank::After);
    assert_eq!(rank("ab", "abc"), Rank::Before);
    assert_eq!(rank("abc", "abc"), Rank::Same);
    assert_eq!(rank("Z", "a"), Rank::Before);
    let texts = ["", "a", "ab", "b", "é", "あ", "😄", "\u{FFFF}", "\u{10000}", "z\u{10FFFF}", "Z"];
    for a in texts {
        for b in texts {
            let expected = if a < b {
                Rank::Before
            } else if a == b {
                Rank::Same
            } else {
                Rank::After
            };
            assert_eq!(rank(a, b), expected, "{:?} {:?}", a, b);
        }
    }
}

#[test]
fn object_keeps_its_members_in_key_order() {
    let mut object = Object::new();
    assert_eq!(object.len(), 0);
    for key in ["delta", "alpha", "charlie", "bravo", "", "alphabet"] {
        object.insert(key.to_string(), Value::String(key.to_uppercase()));
    }
    assert_eq!(object.len(), 6);
    let keys: Vec<&str> = (0..object.len()).map(|i| object.entry(i).0.as_str()).collect();
    assert_eq!(keys, vec!["", "alpha", "alphabet", "bravo", "charlie", "delta"]);
    for i in 0..object.len() {
        let (key, value) = object.entry(i);
        assert_eq!(value, &Value::String(key.to_uppercase()));
        assert_eq!(object.get(key), Some(value));
    }
    assert_eq!(object.get("echo"), None);
}

#[test]
fn object_insert_overwrites() {
    let mut object = Object::new();
    object.insert("b".to_string(), Value::Null);
    object.insert("a".to_string(), Value::Bool(true));
    object.insert("b".to_string(), Value::Bool(false));
    assert_eq!(object.len(), 2);
    assert_eq!(object.get("a"), Some(&Value::Bool(true)));
    assert_eq!(object.get("b"), Some(&Value::Bool(false)));
    assert_eq!(object.entry(0), (&"a".to_string(), &Value::Bool(true)));
    assert_eq!(object.entry(1), (&"b".to_string(), &Value::Bool(false)));
}

#[test]
fn objects_are_equal_whatever_the_order_of_insertion() {
    let mut first = Object::new();
    first.insert("x".to_string(), Value::Null);
    first.insert("y".to_string(), Value::Bool(true));
    let mut second = Object::new();
    second.insert("y".to_string(), Value::Bool(false));
    second.insert("x".to_string(), Value::Null);
    assert_ne!(first, second);
    second.insert("y".to_string(), Value::Bool(true));
    assert_eq!(first, second);
}
