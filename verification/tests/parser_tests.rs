use monkey_json::lexer::{Lexer, Token};
use monkey_json::parser::{Parser, ParserError};
use monkey_json::value::{Object, Value};

fn parse_text(text: &str) -> Result<Value, ParserError> {
    Parser::new(Lexer::new(text).tokenize().unwrap()).parse()
}

fn failure_of(tokens: Vec<Token>) -> String {
    Parser::new(tokens).parse().unwrap_err().msg
}

fn string(text: &str) -> Value {
    Value::String(text.to_string())
}

fn number(text: &str) -> Value {
    Value::Number(text.to_string())
}

/// The number that a value stands for.
fn number_of(value: &Value) -> f64 {
    match value {
        Value::Number(text) => text.parse::<f64>().unwrap(),
        other => panic!("not a number: {:?}", other),
    }
}

#[test]
fn test_parse_object() {
    let json = r#"{"togatoga": "monkey-json", "fugafuga": null}"#;
    let value = Parser::new(Lexer::new(json).tokenize().unwrap())
        .parse()
        .unwrap();
    let mut object = Object::new();
    object.insert(
        "togatoga".to_string(),
        Value::String("monkey-json".to_string()),
    );
    object.insert("fugafuga".to_string(), Value::Null);
    assert_eq!(value, Value::Object(object));

    let json = r#"
        {
            "key": {
                "key": false
            }
        }
        "#;

    let value = Parser::new(Lexer::new(json).tokenize().unwrap())
        .parse()
        .unwrap();
    let mut object = Object::new();
    let mut nested_object = Object::new();
    nested_object.insert("key".to_string(), Value::Bool(false));
    object.insert("key".to_string(), Value::Object(nested_object));
    assert_eq!(value, Value::Object(object));
}

#[test]
fn test_parse_array() {
    let json = r#"[1, null, { "hoge": true }]"#;
    let value = Parser::new(Lexer::new(json).tokenize().unwrap())
        .parse()
        .unwrap();

    let mut object = Object::new();
    object.insert("hoge".to_string(), Value::Bool(true));

    let array = Value::Array(vec![number("1"), Value::Null, Value::Object(object)]);

    assert_eq!(value, array);
    match &value {
        Value::Array(items) => assert_eq!(number_of(&items[0]), 1.0),
        other => panic!("not an array: {:?}", other),
    }
}

#[test]
fn test_parse() {
    let json = r#"{"key" : [1, "value"]}"#;
    let value = Parser::new(Lexer::new(json).tokenize().unwrap())
        .parse()
        .unwrap();
    let mut object = Object::new();
    object.insert(
        "key".to_string(),
        Value::Array(vec![number("1"), Value::String("value".to_string())]),
    );
    assert_eq!(value, Value::Object(object));
    match &value {
        Value::Object(members) => match members.get("key") {
            Some(Value::Array(items)) => assert_eq!(number_of(&items[0]), 1.0),
            other => panic!("not an array: {:?}", other),
        },
        other => panic!("not an object: {:?}", other),
    }

    let json = r#"[{"key": "value"}]"#;
    let value = Parser::new(Lexer::new(json).tokenize().unwrap())
        .parse()
        .unwrap();
    let mut object = Object::new();
    object.insert("key".to_string(), Value::String("value".to_string()));

    let array = Value::Array(vec![Value::Object(object)]);
    assert_eq!(value, array);
}

#[test]
fn object_members_come_in_key_order() {
    let value = parse_text(r#"{"togatoga": "monkey-json", "fugafuga": null}"#).unwrap();
    match value {
        Value::Object(members) => {
            assert_eq!(members.len(), 2);
            assert_eq!(members.entry(0), (&"fugafuga".to_string(), &Value::Null));
            assert_eq!(members.entry(1), (&"togatoga".to_string(), &string("monkey-json")));
        },
        other => panic!("not an object: {:?}", other),
    }
}

#[test]
fn scalars_parse_to_leaves() {
    assert_eq!(parse_text("null").unwrap(), Value::Null);
    assert_eq!(parse_text("true").unwrap(), Value::Bool(true));
    assert_eq!(parse_text("false").unwrap(), Value::Bool(false));
    assert_eq!(parse_text("\"text\"").unwrap(), string("text"));
    assert_eq!(parse_text("-1.5e2").unwrap(), number("-1.5e2"));
    assert_eq!(number_of(&parse_text("-1.5e2").unwrap()), -150.0);
}

#[test]
fn empty_object_and_array() {
    assert_eq!(parse_text("{}").unwrap(), Value::Object(Object::new()));
    assert_eq!(parse_text("[]").unwrap(), Value::Array(vec![]));
    assert_eq!(parse_text("[{}, []]").unwrap(), Value::Array(vec![Value::Object(Object::new()), Value::Array(vec![])]));
}

#[test]
fn nested_objects() {
    let value = parse_text(r#"{"key": {"key": false}}"#).unwrap();
    let mut inner = Object::new();
    inner.insert("key".to_string(), Value::Bool(false));
    let mut outer = Object::new();
    outer.insert("key".to_string(), Value::Object(inner));
    assert_eq!(value, Value::Object(outer));

    let value = parse_text(r#"{"a": {"b": {"c": {}}}, "d": [[{"e": []}]]}"#).unwrap();
    match &value {
        Value::Object(members) => {
            assert_eq!(members.len(), 2);
            assert!(matches!(members.get("a"), Some(Value::Object(_))));
            assert!(matches!(members.get("d"), Some(Value::Array(_))));
            assert!(members.get("b").is_none());
        },
        other => panic!("not an object: {:?}", other),
    }
}

#[test]
fn a_key_that_comes_again_overwrites() {
    let value = parse_text(r#"{"b": 1, "a": 2, "b": 3}"#).unwrap();
    let mut object = Object::new();
    object.insert("a".to_string(), number("2"));
    object.insert("b".to_string(), number("3"));
    assert_eq!(value, Value::Object(object));
    match &value {
        Value::Object(members) => assert_eq!(members.len(), 2),
        other => panic!("not an object: {:?}", other),
    }
}

#[test]
fn missing_colon_fails() {
    let tokens = Lexer::new(r#"{"key" "value"}"#).tokenize().unwrap();
    assert_eq!(
        failure_of(tokens),
        "error: a pair (key(string) and :token) token is expected"
    );
}

#[test]
fn key_that_is_no_string_fails() {
    assert_eq!(
        failure_of(vec![Token::LeftBrace, Token::Null, Token::Colon, Token::Null, Token::RightBrace]),
        "error: a pair (key(string) and :token) token is expected"
    );
}

#[test]
fn missing_separator_in_object_fails() {
    assert_eq!(
        parse_text(r#"{"a": 1 "b": 2}"#).unwrap_err().msg,
        "error: a { or , token is expected String(\"b\")}"
    );
    assert_eq!(
        parse_text(r#"{"a": 1]"#).unwrap_err().msg,
        "error: a { or , token is expected RightBracket}"
    );
}

#[test]
fn missing_separator_in_array_fails() {
    assert_eq!(
        parse_text("[1 2]").unwrap_err().msg,
        "error: a | or, token is expected Number(2)"
    );
    assert_eq!(
        parse_text("[1: 2]").unwrap_err().msg,
        "error: a | or, token is expected Colon"
    );
}

#[test]
fn token_that_starts_no_value_fails() {
    let opening = "error: a token must start { or [ or string or number or bool or null ";
    assert_eq!(failure_of(vec![Token::Comma]), format!("{}Comma", opening));
    assert_eq!(failure_of(vec![Token::Colon]), format!("{}Colon", opening));
    assert_eq!(failure_of(vec![Token::RightBrace]), format!("{}RightBrace", opening));
    assert_eq!(failure_of(vec![Token::RightBracket]), format!("{}RightBracket", opening));
    assert_eq!(failure_of(vec![Token::WhiteSpace]), format!("{}WhiteSpace", opening));
    assert_eq!(parse_text("[1,]").unwrap_err().msg, format!("{}RightBracket", opening));
}

#[test]
fn running_out_of_tokens_fails() {
    let message = "error: a token isn't peekable";
    assert_eq!(failure_of(vec![]), message);
    assert_eq!(failure_of(vec![Token::LeftBracket]), message);
    assert_eq!(failure_of(vec![Token::LeftBrace]), message);
    assert_eq!(parse_text("[1").unwrap_err().msg, message);
    assert_eq!(parse_text("[1,").unwrap_err().msg, message);
    assert_eq!(parse_text(r#"{"a""#).unwrap_err().msg, message);
    assert_eq!(parse_text(r#"{"a":"#).unwrap_err().msg, message);
    assert_eq!(parse_text(r#"{"a":1"#).unwrap_err().msg, message);
    assert_eq!(parse_text(r#"{"a":1,"#).unwrap_err().msg, message);
}

#[test]
fn trailing_comma_in_object_fails() {
    assert_eq!(
        parse_text(r#"{"a": 1,}"#).unwrap_err().msg,
        "error: a token isn't peekable"
    );
    assert_eq!(
        parse_text(r#"{"a": 1,} 2"#).unwrap_err().msg,
        "error: a pair (key(string) and :token) token is expected"
    );
}

#[test]
fn parse_reads_one_value_and_leaves_the_rest() {
    let mut parser = Parser::new(Lexer::new("[1, 2] true {}").tokenize().unwrap());
    assert_eq!(parser.position(), 0);
    assert_eq!(parser.parse().unwrap(), Value::Array(vec![number("1"), number("2")]));
    assert_eq!(parser.position(), 5);
    assert_eq!(parser.parse().unwrap(), Value::Bool(true));
    assert_eq!(parser.position(), 6);
    assert_eq!(parser.parse().unwrap(), Value::Object(Object::new()));
    assert_eq!(parser.position(), 8);
    assert_eq!(parser.parse().unwrap_err().msg, "error: a token isn't peekable");
    assert_eq!(parser.position(), 8);
}

#[test]
fn parser_error_carries_its_message() {
    let e = ParserError::new("error: something");
    assert_eq!(e.msg, "error: something");
    assert_eq!(e.clone().msg, "error: something");
}

#[test]
fn what_follows_a_value_does_not_change_it() {
    let alone = {
        let mut parser = Parser::new(Lexer::new(r#"{"a": [1, {"b": null}]}"#).tokenize().unwrap());
        (parser.parse().unwrap(), parser.position())
    };
    for rest in ["", " 1", " ]", " } , :", " {\"a\": 2}"] {
        let text = format!("{}{}", r#"{"a": [1, {"b": null}]}"#, rest);
        let mut parser = Parser::new(Lexer::new(&text).tokenize().unwrap());
        assert_eq!((parser.parse().unwrap(), parser.position()), alone);
    }
}

#[test]
fn a_value_takes_at_least_one_token() {
    for text in ["null", "[]", "{}", "[[]]", "1", "\"a\"", "[1, 2, 3]", "{\"a\": {}}"] {
        let tokens = Lexer::new(text).tokenize().unwrap();
        let count = tokens.len();
        let mut parser = Parser::new(tokens);
        assert!(parser.parse().is_ok());
        assert!(parser.position() >= 1);
        assert_eq!(parser.position(), count);
    }
}
