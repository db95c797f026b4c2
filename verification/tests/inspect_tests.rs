use libsirt::inspect::{explain_syntax, infer_type_str, list_depth, repr_block, BlockItem};
use libsirt::parse_input;
use libsirt::Value;

#[test]
fn test_infer_type_str() {
    assert_eq!(infer_type_str(&Value::Bool(true)), "bool");
    assert_eq!(infer_type_str(&Value::Int(7)), "i64");
    assert_eq!(infer_type_str(&Value::Text("t".to_string())), "String");
    assert_eq!(
        infer_type_str(&Value::List(vec![Value::Int(1), Value::Int(2)])),
        "Vec<i64>"
    );
    assert_eq!(infer_type_str(&Value::List(vec![])), "Vec<<Unknown>>");
    assert_eq!(
        infer_type_str(&Value::List(vec![Value::List(vec![Value::Bool(false)])])),
        "Vec<Vec<bool>>"
    );
}

#[test]
fn test_list_depth() {
    assert_eq!(list_depth(None, 0), 0);
    assert_eq!(list_depth(Some(&Value::Int(3)), 1), 1);
    assert_eq!(list_depth(Some(&Value::List(vec![])), 1), 2);
    let nested = Value::List(vec![Value::List(vec![Value::Int(1)])]);
    assert_eq!(list_depth(Some(&nested), 1), 3);
}

#[test]
fn test_repr_block() {
    let blocks = parse_input("App { running: bool(true) num: int(64) }").unwrap();
    let repr = repr_block(&blocks[0]);
    assert_eq!(
        repr,
        "#[derive(Debug, Serialize, Deserialize)]\n\
         struct App {\n    running: bool\n    num: i64\n}"
    );
}

#[test]
fn test_explain_syntax() {
    let blocks = parse_input("Ab { n: int(1) }").unwrap();
    let explained = explain_syntax(&blocks[0]);
    assert!(explained.starts_with("Ab\n^^ type: identifier\n\nFIELDS:\n"));
    assert!(explained.contains("n -> i64\n"));
    assert!(explained.contains("depth: 1\n"));
    assert!(!explained.contains("note: cannot infer"));

    let blocks = parse_input("L { e: list() }").unwrap();
    let explained = explain_syntax(&blocks[0]);
    assert!(explained.contains("e -> Vec<<Unknown>>\n"));
    assert!(explained.contains("depth: 2\n"));
    assert!(explained.contains("note: cannot infer type of list,\nas there are no items inside it"));
}

#[test]
fn test_block_item_caches_reports() {
    let mut blocks = parse_input("App { running: bool(true) }").unwrap();
    let mut item = BlockItem {
        block: blocks.remove(0),
        description: None,
        syntax: None,
    };
    let desc = item.item_description();
    assert!(desc.starts_with("// RUST REPRESENTATION\n\n"));
    assert!(desc.contains("struct App {"));
    // the generated report is cached and handed back unchanged
    assert_eq!(item.item_description(), desc);

    let syn = item.item_syntax();
    assert!(syn.starts_with("### SYNTAX BREAKDOWN ###\n\n"));
    assert!(syn.contains("App\n^^^ type: identifier"));
    assert_eq!(item.item_syntax(), syn);
}
