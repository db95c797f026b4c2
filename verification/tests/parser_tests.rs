use libsirt::error::ParseError;
use libsirt::parse_input;
use libsirt::{Block, Value};

#[test]
fn test_input_with_empty_blocks() {
    let input = r#"
            Person {}
        "#;
    let input2 = r#"
            One {}
            Two {}
            Three {}
            "#;

    let parser = parse_input(input);
    let parser2 = parse_input(input2);

    assert!(parser.is_ok());
    assert!(parser2.is_ok());

    let mut block1 = parser.unwrap().into_iter();
    let mut block2 = parser2.unwrap().into_iter();

    assert_eq!(
        block1.next(),
        Some(Block::new("Person".to_owned(), Vec::new()))
    );

    assert_eq!(block1.next(), None);

    assert_eq!(block2.next(), Some(Block::new("One".to_owned(), Vec::new())));

    assert_eq!(block2.next(), Some(Block::new("Two".to_owned(), Vec::new())));

    assert_eq!(
        block2.next(),
        Some(Block::new("Three".to_owned(), Vec::new()))
    );

    assert_eq!(block2.next(), None);
}

#[test]
fn test_input_with_fields() {
    let input = "App { isRunning: bool(false) num: int(64) }";
    let parser = parse_input(input);

    assert!(parser.is_ok());

    let mut iter = parser.unwrap().into_iter();

    assert_eq!(
        iter.next(),
        Some(Block::new(
            "App".to_string(),
            vec![
                ("isRunning".to_owned(), Value::Bool(false)),
                ("num".to_string(), Value::Int(64))
            ]
        ))
    );

    assert!(iter.next().is_none());
}

#[test]
fn test_list() {
    let input = r#"NumList { arr: list(int(1), int(2), int(3)) }"#;
    let parser = parse_input(input);

    assert!(parser.is_ok());

    let mut iter = parser.unwrap().into_iter();

    assert_eq!(
        iter.next(),
        Some(Block::new(
            "NumList".to_string(),
            vec![(
                "arr".to_string(),
                Value::List(vec![Value::Int(1), Value::Int(2), Value::Int(3)])
            )]
        ))
    );
}

#[test]
fn test_empty_input_parses_to_no_blocks() {
    let blocks = parse_input("").unwrap();
    assert!(blocks.is_empty());
    let blocks = parse_input("   \n\t  ").unwrap();
    assert!(blocks.is_empty());
}

#[test]
fn test_accessors() {
    let blocks = parse_input("Window { title: text(\"hi\") }").unwrap();
    assert_eq!(blocks[0].get_name(), "Window");
    let fields = blocks[0].get_fields();
    assert_eq!(fields.len(), 1);
    assert_eq!(fields[0].0, "title");
    assert_eq!(fields[0].1, Value::Text("hi".to_string()));
}

#[test]
fn test_bool_spellings_parse_alike() {
    let b1 = parse_input("A { v: bool(true) }").unwrap();
    let b2 = parse_input("A { v: bool(yes) }").unwrap();
    assert_eq!(b1, b2);
    let b3 = parse_input("A { v: bool(false) }").unwrap();
    let b4 = parse_input("A { v: bool(no) }").unwrap();
    assert_eq!(b3, b4);
    assert_ne!(b1, b3);
}

#[test]
fn test_duplicate_field_overwrites() {
    let blocks = parse_input("A { x: int(1) x: int(2) }").unwrap();
    let fields = blocks[0].get_fields();
    assert_eq!(fields.len(), 1);
    assert_eq!(fields[0].1, Value::Int(2));
}

#[test]
fn test_nested_lists() {
    let blocks = parse_input("A { m: list(list(int(1)), list()) }").unwrap();
    let fields = blocks[0].get_fields();
    assert_eq!(
        fields[0].1,
        Value::List(vec![Value::List(vec![Value::Int(1)]), Value::List(vec![])])
    );
}

#[test]
fn test_whitespace_is_insignificant() {
    let compact = parse_input("P { x: int(1) }").unwrap();
    let airy = parse_input("P \n{\n\tx :\n int(1)\r\n}").unwrap();
    assert_eq!(compact, airy);
}

#[test]
fn test_error_classification() {
    // a block missing its leading identifier
    assert_eq!(parse_input("{ }").unwrap_err(), ParseError::Block);
    // a top-level grammar mismatch: no opening brace
    assert_eq!(parse_input("Foo ( )").unwrap_err(), ParseError::Input);
    // an unterminated block runs off the end of the text
    assert_eq!(parse_input("Foo { x: int(1)").unwrap_err(), ParseError::Input);
    // a field missing its separator
    assert_eq!(parse_input("Foo { x int(1) }").unwrap_err(), ParseError::Field);
    // a value that is no literal at all
    assert_eq!(parse_input("Foo { x: what }").unwrap_err(), ParseError::Value);
    // a text literal missing its closing quote
    assert_eq!(
        parse_input("Foo { x: text(\"abc) }").unwrap_err(),
        ParseError::Value
    );
}

#[test]
fn test_int_literal_errors() {
    let err = parse_input("Foo { x: int(12a) }").unwrap_err();
    assert_eq!(err, ParseError::Other("i64 parse error".to_string()));
    assert_eq!(err.message(), "i64 parse error");
    // one past the largest magnitude on either side
    assert_eq!(
        parse_input("Foo { x: int(9223372036854775808) }").unwrap_err(),
        ParseError::Other("i64 parse error".to_string())
    );
    assert_eq!(
        parse_input("Foo { x: int(-9223372036854775809) }").unwrap_err(),
        ParseError::Other("i64 parse error".to_string())
    );
    // the extremes themselves parse
    let blocks = parse_input("Foo { a: int(-9223372036854775808) b: int(9223372036854775807) }")
        .unwrap();
    let fields = blocks[0].get_fields();
    assert_eq!(fields[0].1, Value::Int(i64::MIN));
    assert_eq!(fields[1].1, Value::Int(i64::MAX));
    // leading zeros are digits like any others
    let blocks = parse_input("Foo { a: int(007) }").unwrap();
    assert_eq!(blocks[0].get_fields()[0].1, Value::Int(7));
}

#[test]
fn test_bool_literal_errors() {
    let err = parse_input("Foo { x: bool(maybe) }").unwrap_err();
    assert_eq!(err, ParseError::Other("bool parse error".to_string()));
    assert_eq!(err.message(), "bool parse error");
    assert_eq!(
        parse_input("Foo { x: bool(True) }").unwrap_err(),
        ParseError::Other("bool parse error".to_string())
    );
}

#[test]
fn test_text_is_verbatim() {
    let blocks = parse_input("M { t: text(\"  spaces and {braces} kept  \") }").unwrap();
    assert_eq!(
        blocks[0].get_fields()[0].1,
        Value::Text("  spaces and {braces} kept  ".to_string())
    );
}
