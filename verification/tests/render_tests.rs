use dtfterminal::diff_types::ValueType;
use dtfterminal::dtfterminal_types::DtfError;
use dtfterminal::node::{deep_eq, DocumentNode};
use dtfterminal::render::{render_node, render_value};
use dtfterminal::scalar::{is_number_str, parse_scalar};
use dtfterminal::text::{build_index_path, build_key_path};
use dtfterminal::utils::prettify_data;

fn s(text: &str) -> DocumentNode {
    DocumentNode::String(text.to_owned())
}

fn n(text: &str) -> DocumentNode {
    DocumentNode::Number(text.to_owned())
}

fn entries(pairs: Vec<(&str, DocumentNode)>) -> Vec<(String, DocumentNode)> {
    pairs.into_iter().map(|(k, v)| (k.to_owned(), v)).collect()
}

#[test]
fn renders_composites_as_compact_json() {
    let node = DocumentNode::Object(entries(vec![
        (
            "a",
            DocumentNode::Array(vec![n("1"), s("x"), DocumentNode::Bool(true), DocumentNode::Null]),
        ),
        ("b", DocumentNode::Object(entries(vec![("c", n("2.5"))]))),
    ]));
    assert_eq!(render_node(&node), "{\"a\":[1,\"x\",true,null],\"b\":{\"c\":2.5}}");
}

#[test]
fn renders_string_scalars_unquoted_at_top_level() {
    assert_eq!(render_value(&s("plain text")), "plain text");
    assert_eq!(render_value(&n("42")), "42");
    assert_eq!(render_value(&DocumentNode::Bool(false)), "false");
    assert_eq!(render_value(&DocumentNode::Null), "null");
    assert_eq!(
        render_value(&DocumentNode::Array(vec![n("1"), n("2")])),
        "[1,2]"
    );
}

#[test]
fn escapes_strings_inside_composites() {
    let node = DocumentNode::Array(vec![s("a\"b\\c\nd\te\r"), s("\u{0001}")]);
    assert_eq!(
        render_node(&node),
        "[\"a\\\"b\\\\c\\nd\\te\\r\",\"\\u0001\"]"
    );
}

#[test]
fn builds_paths_with_dots_and_brackets() {
    assert_eq!(build_key_path("", "key"), "key");
    assert_eq!(build_key_path("nested", "key"), "nested.key");
    assert_eq!(build_index_path("nested.array", 2), "nested.array[2]");
    assert_eq!(build_index_path("a", 10), "a[10]");
    assert_eq!(build_index_path("", 0), "[0]");
}

#[test]
fn number_tokens_follow_the_json_shape() {
    for good in ["0", "7", "-7", "12.5", "-0.5", "1e3", "1E3", "12.5e+30", "2e-1", "0.0"] {
        assert!(is_number_str(good), "{}", good);
    }
    for bad in ["", "-", "01", "1.", ".5", "1e", "1e+", "+1", "1.2.3", "null", "x1", "1x"] {
        assert!(!is_number_str(bad), "{}", bad);
    }
}

#[test]
fn scalar_renderings_read_back_as_their_values() {
    for node in [
        DocumentNode::Null,
        DocumentNode::Bool(true),
        DocumentNode::Bool(false),
        n("42"),
        n("-12.5e3"),
        s("plain text"),
        s(""),
    ] {
        let rendered = render_value(&node);
        let reparsed = parse_scalar(rendered.as_str());
        assert!(deep_eq(&node, &reparsed));
    }
}

#[test]
fn scalar_round_trip_boundary_is_the_keyword_shaped_string() {
    // A string whose text is itself a scalar rendering reads back as that
    // scalar, not as the string it came from.
    let node = s("true");
    let reparsed = parse_scalar(render_value(&node).as_str());
    assert!(deep_eq(&reparsed, &DocumentNode::Bool(true)));
}

#[test]
fn deep_eq_distinguishes_structure() {
    let a = DocumentNode::Object(entries(vec![("k", n("1")), ("l", s("x"))]));
    let b = DocumentNode::Object(entries(vec![("k", n("1")), ("l", s("x"))]));
    let c = DocumentNode::Object(entries(vec![("l", s("x")), ("k", n("1"))]));
    assert!(deep_eq(&a, &b));
    assert!(!deep_eq(&a, &c));
    assert!(!deep_eq(&n("1"), &s("1")));
}

#[test]
fn value_type_names_match_the_report_vocabulary() {
    assert_eq!(ValueType::Null.name(), "null");
    assert_eq!(ValueType::Boolean.name(), "bool");
    assert_eq!(ValueType::Number.name(), "number");
    assert_eq!(ValueType::String.name(), "string");
    assert_eq!(ValueType::Array.name(), "array");
    assert_eq!(ValueType::Object.name(), "object");
}

#[test]
fn prettify_reformats_parseable_text() {
    let shown = prettify_data(("a.json", "b.json"), "{\"a\":1}");
    assert_eq!(shown, "{\n  \"a\": 1\n}");
    let unchanged = prettify_data(("a.json", "b.json"), "not json");
    assert_eq!(unchanged, "not json");
    let yaml = prettify_data(("a.yaml", "b.yaml"), "[1, 2]");
    assert_eq!(yaml, "- 1\n- 2\n");
}

#[test]
fn error_messages_name_their_class() {
    assert_eq!(
        DtfError::IoError("gone".to_owned()).message(),
        "IO error: gone"
    );
    assert_eq!(
        DtfError::DiffError("bad".to_owned()).message(),
        "Diff error: bad"
    );
    assert_eq!(
        DtfError::GeneralError(Box::new(DtfError::DiffError("bad".to_owned()))).message(),
        "General error happened Diff error: bad"
    );
}
