use dtfterminal::diff_types::{ArrayDiffDesc, KeyDiff, ValueDiff, WorkingFile};
use dtfterminal::dtfterminal_types::{ConfigBuilder, LibConfig, LibWorkingContext, WorkingContext};
use dtfterminal::engine::check_for_diffs;
use dtfterminal::node::DocumentNode;

fn s(text: &str) -> DocumentNode {
    DocumentNode::String(text.to_owned())
}

fn n(text: &str) -> DocumentNode {
    DocumentNode::Number(text.to_owned())
}

fn entries(pairs: Vec<(&str, DocumentNode)>) -> Vec<(String, DocumentNode)> {
    pairs.into_iter().map(|(k, v)| (k.to_owned(), v)).collect()
}

fn obj(pairs: Vec<(&str, DocumentNode)>) -> DocumentNode {
    DocumentNode::Object(entries(pairs))
}

fn labeled_context(
    label_a: &str,
    label_b: &str,
    key: bool,
    type_: bool,
    value: bool,
    array: bool,
    array_same_order: bool,
) -> WorkingContext {
    let lib = LibWorkingContext::new(
        WorkingFile::new(label_a.to_owned()),
        WorkingFile::new(label_b.to_owned()),
        LibConfig::new(array_same_order),
    );
    WorkingContext::new(
        lib,
        ConfigBuilder::new()
            .check_for_key_diffs(key)
            .check_for_type_diffs(type_)
            .check_for_value_diffs(value)
            .check_for_array_diffs(array)
            .array_same_order(array_same_order)
            .build(),
    )
}

fn context(
    key: bool,
    type_: bool,
    value: bool,
    array: bool,
    array_same_order: bool,
) -> WorkingContext {
    labeled_context("a.json", "b.json", key, type_, value, array, array_same_order)
}

fn sample_doc() -> Vec<(String, DocumentNode)> {
    entries(vec![
        ("x", s("1")),
        (
            "nested",
            obj(vec![
                ("y", DocumentNode::Bool(true)),
                (
                    "list",
                    DocumentNode::Array(vec![n("1"), s("two"), DocumentNode::Null]),
                ),
            ]),
        ),
    ])
}

#[test]
fn self_comparison_yields_empty_categories() {
    let doc_a = sample_doc();
    let doc_b = sample_doc();
    for same_order in [false, true] {
        let ctx = context(true, true, true, true, same_order);
        let (k, t, v, a) = check_for_diffs(&doc_a, &doc_b, &ctx);
        assert_eq!(k.unwrap().len(), 0);
        assert_eq!(t.unwrap().len(), 0);
        assert_eq!(v.unwrap().len(), 0);
        assert_eq!(a.unwrap().len(), 0);
    }
}

#[test]
fn disabled_categories_are_absent() {
    let doc_a = sample_doc();
    let doc_b = sample_doc();
    let ctx = context(true, false, true, false, false);
    let (k, t, v, a) = check_for_diffs(&doc_a, &doc_b, &ctx);
    assert!(k.is_some());
    assert!(t.is_none());
    assert!(v.is_some());
    assert!(a.is_none());
}

#[test]
fn key_diffs_are_antisymmetric() {
    let doc_a = entries(vec![("shared", n("1")), ("only_a", n("2"))]);
    let doc_b = entries(vec![("shared", n("1")), ("only_b", n("3"))]);
    let ctx = context(true, false, false, false, false);
    let ctx_swapped = labeled_context("b.json", "a.json", true, false, false, false, false);
    let (k_ab, _, _, _) = check_for_diffs(&doc_a, &doc_b, &ctx);
    let (k_ba, _, _, _) = check_for_diffs(&doc_b, &doc_a, &ctx_swapped);
    let k_ab = k_ab.unwrap();
    let k_ba = k_ba.unwrap();
    assert_eq!(k_ab.len(), 2);
    assert_eq!(k_ba.len(), 2);
    for kd in &k_ab {
        assert!(k_ba.contains(kd));
    }
    for kd in &k_ba {
        assert!(k_ab.contains(kd));
    }
}

#[test]
fn order_insensitive_arrays_report_multiset_difference() {
    let doc_a = entries(vec![(
        "arr",
        DocumentNode::Array(vec![n("1"), n("2"), n("3"), n("4"), n("5"), n("6"), n("7")]),
    )]);
    let doc_b = entries(vec![(
        "arr",
        DocumentNode::Array(vec![
            n("5"),
            n("7"),
            n("3"),
            n("11"),
            n("5"),
            n("2"),
            n("1"),
        ]),
    )]);
    let ctx = context(false, false, false, true, false);
    let (_, _, _, a) = check_for_diffs(&doc_a, &doc_b, &ctx);
    let diffs = a.unwrap();

    let values_of = |d: ArrayDiffDesc| -> Vec<String> {
        diffs
            .iter()
            .filter(|ad| ad.descriptor == d)
            .map(|ad| ad.value.clone())
            .collect()
    };

    // Side A holds 4 and 6 with no counterpart; side B holds 11 and, by
    // one-to-one matching of duplicates, its second 5.
    assert_eq!(values_of(ArrayDiffDesc::AHas), vec!["4", "6"]);
    assert_eq!(values_of(ArrayDiffDesc::BHas), vec!["11", "5"]);
    assert_eq!(values_of(ArrayDiffDesc::AMisses), vec!["11", "5"]);
    assert_eq!(values_of(ArrayDiffDesc::BMisses), vec!["4", "6"]);
    assert_eq!(diffs.len(), 8);
}

#[test]
fn end_to_end_nested_key_and_value() {
    let doc_a = entries(vec![
        ("x", s("1")),
        ("nested", obj(vec![("y", DocumentNode::Bool(true))])),
    ]);
    let doc_b = entries(vec![("x", s("2"))]);
    let ctx = context(true, true, true, true, false);
    let (k, t, v, _) = check_for_diffs(&doc_a, &doc_b, &ctx);

    let keys = k.unwrap();
    assert_eq!(keys.len(), 1);
    assert_eq!(
        keys[0],
        KeyDiff::new(
            "nested".to_owned(),
            "a.json".to_owned(),
            "b.json".to_owned()
        )
    );

    let values = v.unwrap();
    assert_eq!(values.len(), 1);
    assert_eq!(
        values[0],
        ValueDiff::new("x".to_owned(), "1".to_owned(), "2".to_owned())
    );

    assert_eq!(t.unwrap().len(), 0);
}

#[test]
fn same_order_single_element_difference() {
    let doc_a = entries(vec![(
        "arr",
        DocumentNode::Array(vec![n("1"), n("2"), n("3")]),
    )]);
    let doc_b = entries(vec![(
        "arr",
        DocumentNode::Array(vec![n("1"), n("9"), n("3")]),
    )]);
    let ctx = context(false, false, true, true, true);
    let (_, _, v, a) = check_for_diffs(&doc_a, &doc_b, &ctx);

    let values = v.unwrap();
    assert_eq!(values.len(), 1);
    assert_eq!(
        values[0],
        ValueDiff::new("arr[1]".to_owned(), "2".to_owned(), "9".to_owned())
    );
    assert_eq!(a.unwrap().len(), 0);
}

#[test]
fn same_order_identical_arrays_report_nothing() {
    let doc_a = entries(vec![(
        "arr",
        DocumentNode::Array(vec![n("1"), s("x"), DocumentNode::Bool(false)]),
    )]);
    let doc_b = entries(vec![(
        "arr",
        DocumentNode::Array(vec![n("1"), s("x"), DocumentNode::Bool(false)]),
    )]);
    let ctx = context(false, false, true, true, true);
    let (_, _, v, a) = check_for_diffs(&doc_a, &doc_b, &ctx);
    assert_eq!(v.unwrap().len(), 0);
    assert_eq!(a.unwrap().len(), 0);
}

#[test]
fn same_order_unequal_lengths_fall_to_array_checker() {
    let doc_a = entries(vec![("arr", DocumentNode::Array(vec![n("1"), n("2")]))]);
    let doc_b = entries(vec![(
        "arr",
        DocumentNode::Array(vec![n("1"), n("2"), n("3")]),
    )]);
    let ctx = context(false, false, true, true, true);
    let (_, _, v, a) = check_for_diffs(&doc_a, &doc_b, &ctx);
    assert_eq!(v.unwrap().len(), 0);
    let diffs = a.unwrap();
    assert_eq!(diffs.len(), 2);
    assert_eq!(diffs[0].descriptor, ArrayDiffDesc::AMisses);
    assert_eq!(diffs[0].value, "3");
    assert_eq!(diffs[1].descriptor, ArrayDiffDesc::BHas);
    assert_eq!(diffs[1].value, "3");
}

#[test]
fn type_mismatch_at_shared_key() {
    let doc_a = entries(vec![("v", n("1"))]);
    let doc_b = entries(vec![("v", s("1"))]);
    let ctx = context(true, true, true, false, false);
    let (k, t, v, _) = check_for_diffs(&doc_a, &doc_b, &ctx);
    assert_eq!(k.unwrap().len(), 0);
    let types = t.unwrap();
    assert_eq!(types.len(), 1);
    assert_eq!(types[0].key, "v");
    assert_eq!(types[0].type1, "number");
    assert_eq!(types[0].type2, "string");
    // A pair with differing type tags is the type checker's concern alone:
    // no value diff, even though the two sides render alike.
    assert_eq!(v.unwrap().len(), 0);
}

#[test]
fn container_against_scalar_is_a_type_diff_only() {
    let doc_a = entries(vec![
        ("v", obj(vec![("a", n("1"))])),
        ("w", DocumentNode::Array(vec![n("1")])),
    ]);
    let doc_b = entries(vec![("v", s("x")), ("w", DocumentNode::Null)]);
    let ctx = context(false, true, true, true, false);
    let (_, t, v, a) = check_for_diffs(&doc_a, &doc_b, &ctx);
    let types = t.unwrap();
    assert_eq!(types.len(), 2);
    assert_eq!(types[0].key, "v");
    assert_eq!(types[0].type1, "object");
    assert_eq!(types[0].type2, "string");
    assert_eq!(types[1].key, "w");
    assert_eq!(types[1].type1, "array");
    assert_eq!(types[1].type2, "null");
    assert_eq!(v.unwrap().len(), 0);
    // An array against a non-array is no array diff either.
    assert_eq!(a.unwrap().len(), 0);
}
