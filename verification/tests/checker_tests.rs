use dtfterminal::diff_types::{
    ArrayDiff, ArrayDiffDesc, Config, KeyDiff, TypeDiff, ValueDiff, WorkingContext, WorkingFile,
};
use dtfterminal::key_checker::find_key_diffs;
use dtfterminal::node::DocumentNode;
use dtfterminal::type_checker::find_type_diffs;
use dtfterminal::value_checker::find_value_diffs;
use dtfterminal::array_checker::find_array_diffs;

const FILE_NAME_A: &str = "a.json";
const FILE_NAME_B: &str = "b.json";

fn s(text: &str) -> DocumentNode {
    DocumentNode::String(text.to_owned())
}

fn n(text: &str) -> DocumentNode {
    DocumentNode::Number(text.to_owned())
}

fn b(v: bool) -> DocumentNode {
    DocumentNode::Bool(v)
}

fn arr(items: Vec<DocumentNode>) -> DocumentNode {
    DocumentNode::Array(items)
}

fn entries(pairs: Vec<(&str, DocumentNode)>) -> Vec<(String, DocumentNode)> {
    pairs.into_iter().map(|(k, v)| (k.to_owned(), v)).collect()
}

fn obj(pairs: Vec<(&str, DocumentNode)>) -> DocumentNode {
    DocumentNode::Object(entries(pairs))
}

fn create_test_working_context(array_same_order: bool) -> WorkingContext {
    let config = Config::new(array_same_order);
    let working_file_a = WorkingFile::new(FILE_NAME_A.to_owned());
    let working_file_b = WorkingFile::new(FILE_NAME_B.to_owned());
    WorkingContext::new(working_file_a, working_file_b, config)
}

fn assert_array<T: PartialEq>(expected: &Vec<T>, result: &Vec<T>) {
    assert_eq!(expected.len(), result.len());
    assert!(expected.into_iter().all(|item| result.contains(&item)));
}

#[test]
fn test_find_key_diffs() {
    let a = entries(vec![
        ("a_has", s("a_has")),
        ("both_have", s("both_have")),
        (
            "nested",
            obj(vec![("a_has", s("a_has")), ("both_have", s("both_have"))]),
        ),
    ]);
    let b = entries(vec![
        ("b_has", s("b_has")),
        ("both_have", s("both_have")),
        (
            "nested",
            obj(vec![("b_has", s("b_has")), ("both_have", s("both_have"))]),
        ),
    ]);

    let expected = vec![
        KeyDiff::new(
            "a_has".to_owned(),
            FILE_NAME_A.to_owned(),
            FILE_NAME_B.to_owned(),
        ),
        KeyDiff::new(
            "nested.a_has".to_owned(),
            FILE_NAME_A.to_owned(),
            FILE_NAME_B.to_owned(),
        ),
        KeyDiff::new(
            "b_has".to_owned(),
            FILE_NAME_B.to_owned(),
            FILE_NAME_A.to_owned(),
        ),
        KeyDiff::new(
            "nested.b_has".to_owned(),
            FILE_NAME_B.to_owned(),
            FILE_NAME_A.to_owned(),
        ),
    ];

    let working_context = create_test_working_context(false);

    let result = find_key_diffs("", &a, &b, &working_context);

    assert_array(&expected, &result);
}

fn type_diff_doc_a() -> Vec<(String, DocumentNode)> {
    entries(vec![
        ("a_string_b_int", s("a_string_b_int")),
        ("both_string", s("both_string")),
        (
            "array_3_a_string_b_int",
            arr(vec![
                s("string"),
                s("string2"),
                s("string3"),
                s("string4"),
                n("8"),
                b(true),
            ]),
        ),
        (
            "nested",
            obj(vec![
                ("a_bool_b_string", b(true)),
                ("both_number", n("4")),
                (
                    "array_3_a_int_b_bool",
                    arr(vec![
                        s("string"),
                        s("string2"),
                        s("string3"),
                        n("6"),
                        n("8"),
                        b(true),
                    ]),
                ),
            ]),
        ),
    ])
}

fn type_diff_doc_b() -> Vec<(String, DocumentNode)> {
    entries(vec![
        ("a_string_b_int", n("2")),
        ("both_string", s("both_string")),
        (
            "array_3_a_string_b_int",
            arr(vec![
                s("other_string"),
                s("other_string2"),
                s("other_string3"),
                n("5"),
                n("1"),
                b(false),
            ]),
        ),
        (
            "nested",
            obj(vec![
                ("a_bool_b_string", s("a_bool_b_string")),
                ("both_number", n("1")),
                (
                    "array_3_a_int_b_bool",
                    arr(vec![
                        s("other_string"),
                        s("other_string2"),
                        s("other_string3"),
                        b(false),
                        n("2"),
                        b(false),
                    ]),
                ),
            ]),
        ),
    ])
}

#[test]
fn test_find_type_diffs_no_array_same_order() {
    let a = type_diff_doc_a();
    let b = type_diff_doc_b();

    let expected = vec![
        TypeDiff::new(
            "a_string_b_int".to_owned(),
            "string".to_owned(),
            "number".to_owned(),
        ),
        TypeDiff::new(
            "nested.a_bool_b_string".to_owned(),
            "bool".to_owned(),
            "string".to_owned(),
        ),
    ];

    let working_context = create_test_working_context(false);

    let result = find_type_diffs("", &a, &b, &working_context);

    assert_array(&expected, &result);
}

#[test]
fn test_find_type_diffs_array_same_order() {
    let a = type_diff_doc_a();
    let b = type_diff_doc_b();

    let expected = vec![
        TypeDiff::new(
            "a_string_b_int".to_owned(),
            "string".to_owned(),
            "number".to_owned(),
        ),
        TypeDiff::new(
            "nested.a_bool_b_string".to_owned(),
            "bool".to_owned(),
            "string".to_owned(),
        ),
        TypeDiff::new(
            "array_3_a_string_b_int[3]".to_owned(),
            "string".to_owned(),
            "number".to_owned(),
        ),
        TypeDiff::new(
            "nested.array_3_a_int_b_bool[3]".to_owned(),
            "number".to_owned(),
            "bool".to_owned(),
        ),
    ];

    let working_context = create_test_working_context(true);

    let result = find_type_diffs("", &a, &b, &working_context);

    assert_array(&expected, &result);
}

fn value_diff_doc(
    diff_string: &str,
    diff_number: &str,
    diff_boolean: bool,
    diff_array: Vec<DocumentNode>,
    nested_diff_array: Vec<DocumentNode>,
) -> Vec<(String, DocumentNode)> {
    entries(vec![
        ("no_diff_string", s("no_diff_string")),
        ("diff_string", s(diff_string)),
        ("no_diff_number", s("no_diff_number")),
        ("diff_number", n(diff_number)),
        ("no_diff_boolean", b(true)),
        ("diff_boolean", b(diff_boolean)),
        ("no_diff_array", arr(vec![n("1"), n("2"), n("3"), n("4")])),
        ("diff_array", arr(diff_array)),
        (
            "nested",
            obj(vec![
                ("no_diff_string", s("no_diff_string")),
                ("diff_string", s(diff_string)),
                ("no_diff_number", s("no_diff_number")),
                ("diff_number", n(diff_number)),
                ("no_diff_boolean", b(true)),
                ("diff_boolean", b(diff_boolean)),
                ("no_diff_array", arr(vec![n("1"), n("2"), n("3"), n("4")])),
                ("diff_array", arr(nested_diff_array)),
            ]),
        ),
    ])
}

#[test]
fn test_find_value_diffs_no_array_same_order() {
    let a = value_diff_doc("a", "1", true, vec![n("1"), n("2"), n("3"), n("4")], vec![n("1"), n("2"), n("3"), n("4")]);
    let b = value_diff_doc("b", "2", false, vec![n("5"), n("6"), n("7"), n("8")], vec![n("5"), n("6"), n("7"), n("8")]);

    // Differing arrays are the array checker's concern here, never a value
    // diff, so only the scalar differences are expected.
    let expected = vec![
        ValueDiff::new("diff_string".to_owned(), "a".to_owned(), "b".to_owned()),
        ValueDiff::new("diff_number".to_owned(), "1".to_owned(), "2".to_owned()),
        ValueDiff::new(
            "diff_boolean".to_owned(),
            "true".to_owned(),
            "false".to_owned(),
        ),
        ValueDiff::new(
            "nested.diff_string".to_owned(),
            "a".to_owned(),
            "b".to_owned(),
        ),
        ValueDiff::new(
            "nested.diff_number".to_owned(),
            "1".to_owned(),
            "2".to_owned(),
        ),
        ValueDiff::new(
            "nested.diff_boolean".to_owned(),
            "true".to_owned(),
            "false".to_owned(),
        ),
    ];

    let working_context = create_test_working_context(false);

    let result = find_value_diffs("", &a, &b, &working_context);

    assert_array(&expected, &result);
}

#[test]
fn test_find_value_diffs_array_same_order() {
    let a = value_diff_doc("a", "1", true, vec![n("1"), n("2"), n("3"), n("4")], vec![n("1"), n("2"), n("3"), n("4")]);
    let b = value_diff_doc("b", "2", false, vec![n("1"), n("2"), n("8"), n("4")], vec![n("1"), n("2"), n("8"), n("4")]);

    let expected = vec![
        ValueDiff::new("diff_string".to_owned(), "a".to_owned(), "b".to_owned()),
        ValueDiff::new("diff_number".to_owned(), "1".to_owned(), "2".to_owned()),
        ValueDiff::new(
            "diff_boolean".to_owned(),
            "true".to_owned(),
            "false".to_owned(),
        ),
        ValueDiff::new("diff_array[2]".to_owned(), "3".to_owned(), "8".to_owned()),
        ValueDiff::new(
            "nested.diff_string".to_owned(),
            "a".to_owned(),
            "b".to_owned(),
        ),
        ValueDiff::new(
            "nested.diff_number".to_owned(),
            "1".to_owned(),
            "2".to_owned(),
        ),
        ValueDiff::new(
            "nested.diff_boolean".to_owned(),
            "true".to_owned(),
            "false".to_owned(),
        ),
        ValueDiff::new(
            "nested.diff_array[2]".to_owned(),
            "3".to_owned(),
            "8".to_owned(),
        ),
    ];

    let working_context = create_test_working_context(true);

    let result = find_value_diffs("", &a, &b, &working_context);

    assert_array(&expected, &result);
}

#[test]
fn test_find_array_diffs() {
    let a = entries(vec![
        ("no_diff_array", arr(vec![n("1"), n("2"), n("3"), n("4")])),
        ("diff_array", arr(vec![n("1"), n("2"), n("3"), n("4")])),
        (
            "nested",
            obj(vec![
                ("no_diff_array", arr(vec![n("1"), n("2"), n("3"), n("4")])),
                ("diff_array", arr(vec![n("1"), n("2"), n("3"), n("4")])),
            ]),
        ),
    ]);
    let b = entries(vec![
        ("no_diff_array", arr(vec![n("1"), n("2"), n("3"), n("4")])),
        ("diff_array", arr(vec![n("1"), n("2"), n("8"), n("4")])),
        (
            "nested",
            obj(vec![
                ("no_diff_array", arr(vec![n("1"), n("2"), n("3"), n("4")])),
                ("diff_array", arr(vec![n("1"), n("2"), n("8"), n("4")])),
            ]),
        ),
    ]);

    let expected = vec![
        ArrayDiff::new("diff_array".to_owned(), ArrayDiffDesc::AHas, "3".to_owned()),
        ArrayDiff::new(
            "diff_array".to_owned(),
            ArrayDiffDesc::BMisses,
            "3".to_owned(),
        ),
        ArrayDiff::new("diff_array".to_owned(), ArrayDiffDesc::BHas, "8".to_owned()),
        ArrayDiff::new(
            "diff_array".to_owned(),
            ArrayDiffDesc::AMisses,
            "8".to_owned(),
        ),
        ArrayDiff::new(
            "nested.diff_array".to_owned(),
            ArrayDiffDesc::AHas,
            "3".to_owned(),
        ),
        ArrayDiff::new(
            "nested.diff_array".to_owned(),
            ArrayDiffDesc::BMisses,
            "3".to_owned(),
        ),
        ArrayDiff::new(
            "nested.diff_array".to_owned(),
            ArrayDiffDesc::BHas,
            "8".to_owned(),
        ),
        ArrayDiff::new(
            "nested.diff_array".to_owned(),
            ArrayDiffDesc::AMisses,
            "8".to_owned(),
        ),
    ];

    let working_context = create_test_working_context(false);

    let result = find_array_diffs("", &a, &b, &working_context);

    assert_array(&expected, &result);
}
