use json_merge::args::split_arguments;
use json_merge::fold::{merge_all, MergeState};
use json_merge::merge::{find_key, merge, merge_into};
use json_merge::value::Value;

fn num(n: i64) -> Value {
    Value::Number(serde_json::Number::from(n))
}

fn text(s: &str) -> Value {
    Value::String(s.to_string())
}

fn arr(items: Vec<Value>) -> Value {
    Value::Array(items)
}

fn obj(entries: Vec<(&str, Value)>) -> Value {
    Value::Object(entries.into_iter().map(|(k, v)| (k.to_string(), v)).collect())
}

#[test]
fn scenario_arrays_concatenate_and_keys_are_added() {
    let a = obj(vec![("a", num(1)), ("b", arr(vec![num(1), num(2)]))]);
    let b = obj(vec![("b", arr(vec![num(3)])), ("c", num(4))]);
    let expected = obj(vec![
        ("a", num(1)),
        ("b", arr(vec![num(1), num(2), num(3)])),
        ("c", num(4)),
    ]);
    assert_eq!(merge_all(vec![a, b]), expected);
}

#[test]
fn scenario_nested_objects_merge() {
    let a = obj(vec![("x", obj(vec![("y", num(1))]))]);
    let b = obj(vec![("x", obj(vec![("z", num(2))]))]);
    let expected = obj(vec![("x", obj(vec![("y", num(1)), ("z", num(2))]))]);
    assert_eq!(merge_all(vec![a, b]), expected);
}

#[test]
fn scenario_scalar_is_replaced_with_type_change() {
    let a = obj(vec![("a", num(1))]);
    let b = obj(vec![("a", text("hello"))]);
    assert_eq!(merge_all(vec![a, b]), obj(vec![("a", text("hello"))]));
}

#[test]
fn scenario_one_argument_is_a_usage_error() {
    let args = vec!["prog".to_string(), "in.json".to_string()];
    assert_eq!(split_arguments(args), None);
    assert_eq!(split_arguments(vec!["prog".to_string()]), None);
    assert_eq!(split_arguments(Vec::new()), None);
}

#[test]
fn arguments_split_into_inputs_and_output() {
    let args: Vec<String> = vec!["prog", "a.json", "b.json", "out.json"]
        .into_iter()
        .map(|s| s.to_string())
        .collect();
    let (inputs, output) = split_arguments(args).unwrap();
    assert_eq!(inputs, vec!["a.json".to_string(), "b.json".to_string()]);
    assert_eq!(output, "out.json".to_string());
}

#[test]
fn self_merge_of_scalar_object_is_identity() {
    let make = || obj(vec![("a", num(1)), ("b", text("s")), ("c", Value::Null), ("d", Value::Bool(true))]);
    assert_eq!(merge(make(), make()), make());
}

#[test]
fn self_merge_of_array_object_doubles_arrays() {
    let make = || obj(vec![("a", num(1)), ("b", arr(vec![num(1), num(2)]))]);
    let expected = obj(vec![("a", num(1)), ("b", arr(vec![num(1), num(2), num(1), num(2)]))]);
    let merged = merge(make(), make());
    assert_ne!(merged, make());
    assert_eq!(merged, expected);
}

#[test]
fn arrays_concatenate_in_order() {
    let a = arr(vec![num(1), text("x"), Value::Null]);
    let b = arr(vec![num(2), num(3)]);
    let merged = merge(a, b);
    assert_eq!(merged, arr(vec![num(1), text("x"), Value::Null, num(2), num(3)]));
    if let Value::Array(items) = merged {
        assert_eq!(items.len(), 5);
    }
}

#[test]
fn object_keys_on_one_side_keep_their_values() {
    let a = obj(vec![("only_a", num(1)), ("both", obj(vec![("p", num(1))]))]);
    let b = obj(vec![("both", obj(vec![("q", num(2))])), ("only_b", text("b"))]);
    let expected = obj(vec![
        ("only_a", num(1)),
        ("both", obj(vec![("p", num(1)), ("q", num(2))])),
        ("only_b", text("b")),
    ]);
    assert_eq!(merge(a, b), expected);
}

#[test]
fn number_and_string_pair_gives_the_incoming() {
    assert_eq!(merge(num(5), text("five")), text("five"));
    assert_eq!(merge(text("five"), num(5)), num(5));
}

#[test]
fn mismatched_containers_are_replaced() {
    assert_eq!(merge(arr(vec![num(1)]), obj(vec![("a", num(1))])), obj(vec![("a", num(1))]));
    assert_eq!(merge(obj(vec![("a", num(1))]), arr(vec![num(1)])), arr(vec![num(1)]));
    assert_eq!(merge(arr(vec![num(1)]), num(2)), num(2));
    assert_eq!(merge(Value::Null, arr(vec![])), arr(vec![]));
    assert_eq!(merge(obj(vec![("a", num(1))]), Value::Null), Value::Null);
}

#[test]
fn empty_objects_merge_to_empty_object() {
    assert_eq!(merge(obj(vec![]), obj(vec![])), obj(vec![]));
}

#[test]
fn nested_arrays_concatenate_one_level_down() {
    let a = obj(vec![("k", arr(vec![num(1)]))]);
    let b = obj(vec![("k", arr(vec![num(2)]))]);
    assert_eq!(merge(a, b), obj(vec![("k", arr(vec![num(1), num(2)]))]));
}

#[test]
fn fold_of_nothing_is_null() {
    assert_eq!(merge_all(Vec::new()), Value::Null);
}

#[test]
fn fold_of_one_document_is_unchanged() {
    let make = || obj(vec![("a", arr(vec![num(1)])), ("b", num(2))]);
    assert_eq!(merge_all(vec![make()]), make());
}

#[test]
fn fold_of_three_documents_goes_left_to_right() {
    let docs = vec![
        obj(vec![("a", num(1))]),
        obj(vec![("a", num(2)), ("b", arr(vec![num(1)]))]),
        obj(vec![("b", arr(vec![num(2)])), ("a", num(3))]),
    ];
    let expected = obj(vec![("a", num(3)), ("b", arr(vec![num(1), num(2)]))]);
    assert_eq!(merge_all(docs), expected);
}

#[test]
fn merge_state_adopts_first_and_merges_later() {
    let mut state = MergeState::new();
    state.push(arr(vec![num(1)]));
    state.push(arr(vec![num(2)]));
    assert_eq!(state.finish(), arr(vec![num(1), num(2)]));
    assert_eq!(MergeState::new().finish(), Value::Null);
}

#[test]
fn merge_into_updates_in_place() {
    let mut acc = obj(vec![("a", num(1))]);
    merge_into(&mut acc, obj(vec![("b", num(2))]));
    assert_eq!(acc, obj(vec![("a", num(1)), ("b", num(2))]));
}

#[test]
fn find_key_returns_first_position() {
    let entries = vec![
        ("x".to_string(), num(1)),
        ("y".to_string(), num(2)),
        ("x".to_string(), num(3)),
    ];
    assert_eq!(find_key(&entries, &"x".to_string()), Some(0));
    assert_eq!(find_key(&entries, &"y".to_string()), Some(1));
    assert_eq!(find_key(&entries, &"z".to_string()), None);
}
