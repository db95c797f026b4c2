use libsirt::de::{BlockDeserializer, SirtDeserialize};
use libsirt::error::{SirtDeserializeError, SirtSerializeError, ValueKind};
use libsirt::se::{SirtSerialize, SirtStructSerializer};
use libsirt::{from_str, from_str_named, from_str_named_iter, to_pretty_string, to_string};

fn missing(field: &str) -> SirtDeserializeError {
    SirtDeserializeError::custom(format!("missing field '{field}'"))
}

#[derive(Debug, PartialEq)]
struct Point {
    x: i64,
    y: i64,
}

impl SirtDeserialize for Point {
    fn deserialize(mut d: BlockDeserializer<'_>) -> Result<Self, SirtDeserializeError> {
        let mut x = None;
        let mut y = None;
        while let Some(key) = d.next_key() {
            let value = d.next_value()?;
            match key {
                "x" => x = Some(value.expect_i64()?),
                "y" => y = Some(value.expect_i64()?),
                _ => {}
            }
        }
        Ok(Point {
            x: x.ok_or_else(|| missing("x"))?,
            y: y.ok_or_else(|| missing("y"))?,
        })
    }
}

impl SirtSerialize for Point {
    fn serialize(&self, s: &mut SirtStructSerializer) -> Result<(), SirtSerializeError> {
        s.serialize_field_i64("x", self.x);
        s.serialize_field_i64("y", self.y);
        Ok(())
    }
}

#[derive(Debug, PartialEq)]
struct Window {
    fullscreen: bool,
    title: String,
}

impl SirtDeserialize for Window {
    fn deserialize(mut d: BlockDeserializer<'_>) -> Result<Self, SirtDeserializeError> {
        let mut fullscreen = None;
        let mut title = None;
        while let Some(key) = d.next_key() {
            let value = d.next_value()?;
            match key {
                "fullscreen" => fullscreen = Some(value.expect_bool()?),
                "title" => title = Some(value.expect_text()?),
                _ => {}
            }
        }
        Ok(Window {
            fullscreen: fullscreen.ok_or_else(|| missing("fullscreen"))?,
            title: title.ok_or_else(|| missing("title"))?,
        })
    }
}

#[derive(Debug, PartialEq)]
struct Config {
    name: String,
    value: bool,
}

impl SirtDeserialize for Config {
    fn deserialize(mut d: BlockDeserializer<'_>) -> Result<Self, SirtDeserializeError> {
        let mut name = None;
        let mut value = None;
        while let Some(key) = d.next_key() {
            let v = d.next_value()?;
            match key {
                "name" => name = Some(v.expect_text()?),
                "value" => value = Some(v.expect_bool()?),
                _ => {}
            }
        }
        Ok(Config {
            name: name.ok_or_else(|| missing("name"))?,
            value: value.ok_or_else(|| missing("value"))?,
        })
    }
}

#[derive(Debug, PartialEq)]
struct NumList {
    arr: Vec<i64>,
}

impl SirtDeserialize for NumList {
    fn deserialize(mut d: BlockDeserializer<'_>) -> Result<Self, SirtDeserializeError> {
        let mut arr = None;
        while let Some(key) = d.next_key() {
            let v = d.next_value()?;
            if key == "arr" {
                let mut access = v.expect_list()?;
                let mut items = Vec::new();
                while let Some(element) = access.next() {
                    items.push(element.expect_i64()?);
                }
                arr = Some(items);
            }
        }
        Ok(NumList {
            arr: arr.ok_or_else(|| missing("arr"))?,
        })
    }
}

#[derive(Debug, PartialEq)]
struct Mixed {
    label: String,
    count: i64,
    active: bool,
}

impl SirtDeserialize for Mixed {
    fn deserialize(mut d: BlockDeserializer<'_>) -> Result<Self, SirtDeserializeError> {
        let mut label = None;
        let mut count = None;
        let mut active = None;
        while let Some(key) = d.next_key() {
            let v = d.next_value()?;
            match key {
                "label" => label = Some(v.expect_text()?),
                "count" => count = Some(v.expect_i64()?),
                "active" => active = Some(v.expect_bool()?),
                _ => {}
            }
        }
        Ok(Mixed {
            label: label.ok_or_else(|| missing("label"))?,
            count: count.ok_or_else(|| missing("count"))?,
            active: active.ok_or_else(|| missing("active"))?,
        })
    }
}

impl SirtSerialize for Mixed {
    fn serialize(&self, s: &mut SirtStructSerializer) -> Result<(), SirtSerializeError> {
        s.serialize_field_str("label", &self.label);
        s.serialize_field_i64("count", self.count);
        s.serialize_field_bool("active", self.active);
        Ok(())
    }
}

#[test]
fn test_from_str() {
    let i = r#"Point { x: int(10) y: int(5) }"#;
    let expected = Point { x: 10, y: 5 };

    assert_eq!(expected, from_str(i).unwrap());
}

#[test]
fn test_from_str_named() {
    // bool can be "true", "false", "yes", or "no"
    let i = r#"Other { color: text("red") }  Window { fullscreen: bool(no) title: text("Sirt Application") }"#;
    let expected = Window {
        fullscreen: false,
        title: "Sirt Application".to_string(),
    };

    assert_eq!(expected, from_str_named(i, "Window").unwrap());
}

#[test]
fn test_from_str_named_iter() {
    let i = r#"
    Person {}
    ABC {}

    Config {
        name: text("enableBlur")
        value: bool(true)
    }

    Config {
        name: text("enableLogging")
        value: bool(false)
    }

    Config {
        name: text("compactMode")
        value: bool(yes)
    }
    "#;

    let blur = Config {
        name: "enableBlur".to_string(),
        value: true,
    };
    let logging = Config {
        name: "enableLogging".to_string(),
        value: false,
    };
    let compact = Config {
        name: "compactMode".to_string(),
        value: true,
    };

    let configs: Result<Vec<Config>, _> = from_str_named_iter::<Config>(i, "Config")
        .unwrap()
        .into_iter()
        .collect();
    let mut iter = configs.unwrap().into_iter();

    assert_eq!(iter.next(), Some(blur));
    assert_eq!(iter.next(), Some(logging));
    assert_eq!(iter.next(), Some(compact));
}

#[test]
fn test_list_into_vec() {
    let parsed: NumList = from_str("NumList { arr: list(int(1), int(2), int(3)) }").unwrap();
    assert_eq!(parsed, NumList { arr: vec![1, 2, 3] });
}

#[test]
fn test_to_string_compact() {
    let point = Point { x: 10, y: 5 };
    assert_eq!(
        to_string("Point", &point).unwrap(),
        "Point { x: int(10) y: int(5) }"
    );
}

#[test]
fn test_to_pretty_string() {
    let point = Point { x: -3, y: 0 };
    assert_eq!(
        to_pretty_string("Point", &point).unwrap(),
        "Point { \n\tx: int(-3)\n \ty: int(0)\n }\n"
    );
}

#[test]
fn test_round_trip() {
    let record = Mixed {
        label: "hello there".to_string(),
        count: -987654321,
        active: true,
    };
    let text = to_string("Mixed", &record).unwrap();
    let back: Mixed = from_str(&text).unwrap();
    assert_eq!(record, back);

    let extremes = Point {
        x: i64::MIN,
        y: i64::MAX,
    };
    let text = to_string("Point", &extremes).unwrap();
    let back: Point = from_str(&text).unwrap();
    assert_eq!(extremes, back);
}

#[test]
fn test_round_trip_pretty() {
    let record = Mixed {
        label: "multi line mode".to_string(),
        count: 42,
        active: false,
    };
    let text = to_pretty_string("Mixed", &record).unwrap();
    let back: Mixed = from_str(&text).unwrap();
    assert_eq!(record, back);
}

#[test]
fn test_empty_document_fails() {
    let r: Result<Point, SirtDeserializeError> = from_str("");
    assert_eq!(
        r.unwrap_err().message(),
        "expected at least one block"
    );
}

#[test]
fn test_parse_failure_is_wrapped() {
    let r: Result<Point, SirtDeserializeError> = from_str("{ }");
    assert_eq!(
        r.unwrap_err().message(),
        "failed to parse sirt format: Block"
    );
}

#[test]
fn test_named_lookup_not_found() {
    let r: Result<Window, SirtDeserializeError> = from_str_named("Other { }", "Window");
    let err = r.unwrap_err();
    assert_eq!(err, SirtDeserializeError::NotFound("Window".to_string()));
    assert_eq!(err.message(), "couldn't find block with name 'Window'");
}

#[test]
fn test_named_lookup_ignores_leading_blocks() {
    let bare = r#"Window { fullscreen: bool(yes) title: text("w") }"#;
    let padded = r#"A {} B { z: int(1) } Window { fullscreen: bool(yes) title: text("w") }"#;
    let w1: Window = from_str_named(bare, "Window").unwrap();
    let w2: Window = from_str_named(padded, "Window").unwrap();
    assert_eq!(w1, w2);
}

#[test]
fn test_iterator_isolation() {
    // the middle block fails to bridge; its neighbours are untouched
    let i = r#"
    Config { name: text("a") value: bool(true) }
    Config { name: int(13) value: bool(true) }
    Config { name: text("b") value: bool(no) }
    "#;
    let items = from_str_named_iter::<Config>(i, "Config").unwrap();
    assert_eq!(items.len(), 3);
    assert_eq!(
        items[0],
        Ok(Config {
            name: "a".to_string(),
            value: true
        })
    );
    assert!(items[1].is_err());
    assert_eq!(
        items[2],
        Ok(Config {
            name: "b".to_string(),
            value: false
        })
    );
}

#[test]
fn test_type_mismatch_error() {
    let r: Result<Point, SirtDeserializeError> = from_str(r#"Point { x: text("ten") y: int(5) }"#);
    let err = r.unwrap_err();
    assert_eq!(
        err,
        SirtDeserializeError::TypeMismatch {
            expected: ValueKind::Int,
            found: ValueKind::Text
        }
    );
    assert_eq!(err.message(), "expected int, found text");
}

#[test]
fn test_map_protocol_error() {
    let blocks = libsirt::parse_input("P { x: int(1) }").unwrap();
    let mut d = BlockDeserializer::new(&blocks[0]);
    // pulling a value before any key is a protocol violation
    let err = d.next_value().unwrap_err();
    assert_eq!(err, SirtDeserializeError::MapProtocol);
    assert_eq!(err.message(), "MapAccess error");
    // after a key, exactly one value may be pulled
    assert_eq!(d.next_key(), Some("x"));
    assert!(d.next_value().is_ok());
    assert!(d.next_value().is_err());
    assert_eq!(d.next_key(), None);
}

#[test]
fn test_bool_synonyms_deserialize_alike() {
    let with_true: Config = from_str(r#"Config { name: text("n") value: bool(true) }"#).unwrap();
    let with_yes: Config = from_str(r#"Config { name: text("n") value: bool(yes) }"#).unwrap();
    assert_eq!(with_true, with_yes);
    let with_false: Config = from_str(r#"Config { name: text("n") value: bool(false) }"#).unwrap();
    let with_no: Config = from_str(r#"Config { name: text("n") value: bool(no) }"#).unwrap();
    assert_eq!(with_false, with_no);
}

#[test]
fn test_extra_fields_are_ignored() {
    let p: Point = from_str("Point { q: text(\"noise\") x: int(1) y: int(2) }").unwrap();
    assert_eq!(p, Point { x: 1, y: 2 });
}

#[test]
fn test_missing_field_is_target_side() {
    let r: Result<Point, SirtDeserializeError> = from_str("Point { x: int(1) }");
    assert_eq!(r.unwrap_err().message(), "missing field 'y'");
}
