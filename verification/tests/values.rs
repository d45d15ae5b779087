use env_overlay::ValueTree;

fn pair(key: &str, value: ValueTree) -> (String, ValueTree) {
    (key.to_string(), value)
}

#[test]
fn field_of_a_table_is_found_by_its_key() {
    let table = ValueTree::Table(vec![
        pair("foo", ValueTree::Integer(1)),
        pair("bar", ValueTree::Boolean(true)),
    ]);
    assert_eq!(table.get("foo"), Some(&ValueTree::Integer(1)));
    assert_eq!(table.get("bar"), Some(&ValueTree::Boolean(true)));
    assert_eq!(table.get("baz"), None);
    assert_eq!(table.get(""), None);
}

#[test]
fn last_field_of_a_key_is_found() {
    let table = ValueTree::Table(vec![
        pair("foo", ValueTree::Integer(1)),
        pair("foo", ValueTree::Integer(2)),
    ]);
    assert_eq!(table.get("foo"), Some(&ValueTree::Integer(2)));
}

#[test]
fn other_values_have_no_fields() {
    assert_eq!(ValueTree::Integer(1).get("foo"), None);
    assert_eq!(ValueTree::String("foo".to_string()).get("foo"), None);
    assert_eq!(ValueTree::Array(vec![ValueTree::Table(vec![])]).get("foo"), None);
    assert_eq!(ValueTree::Table(vec![]).get("foo"), None);
}

#[test]
fn copy_of_a_value_is_equal_to_it() {
    let value = ValueTree::Table(vec![
        pair("text", ValueTree::String("plain".to_string())),
        pair("real", ValueTree::Float(2.5f64.to_bits())),
        pair("day", ValueTree::Datetime("1979-05-27".to_string())),
        pair(
            "list",
            ValueTree::Array(vec![
                ValueTree::Integer(-1),
                ValueTree::Table(vec![pair("flag", ValueTree::Boolean(false))]),
            ]),
        ),
    ]);
    assert_eq!(value.clone(), value);
}
