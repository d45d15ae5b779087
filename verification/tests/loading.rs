use env_overlay::{load_config_from_str, Cause, ConfigError, Environment, ValueTree};

fn field(key: &str, value: ValueTree) -> (String, ValueTree) {
    (key.to_string(), value)
}

fn text(value: &str) -> ValueTree {
    ValueTree::String(value.to_string())
}

#[test]
fn it_works_when_all_defined() {
    let config_str = r#"
            foo = "foo value"
            bar = 1234
            baz = "baz value"
            [more]
            thing1 = "thing1 value"
            thing2 = "thing2 value"
        "#;

    let config = load_config_from_str(config_str, &Environment::new()).unwrap();
    assert_eq!(config.get("foo"), Some(&text("foo value")));
    assert_eq!(config.get("bar"), Some(&ValueTree::Integer(1234)));
    assert_eq!(config.get("baz"), Some(&text("baz value")));
    let more = config.get("more").unwrap();
    assert_eq!(more.get("thing1"), Some(&text("thing1 value")));
    assert_eq!(more.get("thing2"), Some(&text("thing2 value")));
}

#[test]
fn it_works_when_opt_empty() {
    let config_str = r#"
            foo = "foo value"
            bar = 1234
            [more]
            thing1 = "thing1 value"
            thing2 = "thing2 value"
        "#;

    let config = load_config_from_str(config_str, &Environment::new()).unwrap();
    assert_eq!(config.get("foo"), Some(&text("foo value")));
    assert_eq!(config.get("bar"), Some(&ValueTree::Integer(1234)));
    assert_eq!(config.get("baz"), None);
    let more = config.get("more").unwrap();
    assert_eq!(more.get("thing1"), Some(&text("thing1 value")));
    assert_eq!(more.get("thing2"), Some(&text("thing2 value")));
}

#[test]
fn it_works_when_env_var_required() {
    let config_str = r#"
            foo = "<<ENV:FOO1>>"
            bar = 1234
            baz = "baz value"
            [more]
            thing1 = "thing1 value"
            thing2 = "thing2 value"
        "#;

    let mut env = Environment::new();
    env.set("FOO1", "env foo value");

    let config = load_config_from_str(config_str, &env).unwrap();
    assert_eq!(config.get("foo"), Some(&text("env foo value")));
    assert_eq!(config.get("bar"), Some(&ValueTree::Integer(1234)));
    assert_eq!(config.get("baz"), Some(&text("baz value")));
    let more = config.get("more").unwrap();
    assert_eq!(more.get("thing1"), Some(&text("thing1 value")));
    assert_eq!(more.get("thing2"), Some(&text("thing2 value")));
}

#[test]
fn it_fails_when_required_env_var_missing() {
    let config_str = r#"
            foo = "<<ENV:FOO2>>"
            bar = 1234
            baz = "<<ENV:BAZ2>>"
            [more]
            thing1 = "thing1 value"
            thing2 = "thing2 value"
        "#;

    assert!(load_config_from_str(config_str, &Environment::new()).is_err())
}

#[test]
fn it_works_when_env_var_optional() {
    let config_str = r#"
            foo = "foo value"
            bar = 1234
            baz = "<<ENV?:BAZ>>"
            [more]
            thing1 = "thing1 value"
            thing2 = "thing2 value"
        "#;

    let mut env = Environment::new();
    env.set("BAZ", "env baz value");

    let config1 = load_config_from_str(config_str, &env).unwrap();
    assert_eq!(config1.get("foo"), Some(&text("foo value")));
    assert_eq!(config1.get("bar"), Some(&ValueTree::Integer(1234)));
    assert_eq!(config1.get("baz"), Some(&text("env baz value")));
    let more1 = config1.get("more").unwrap();
    assert_eq!(more1.get("thing1"), Some(&text("thing1 value")));
    assert_eq!(more1.get("thing2"), Some(&text("thing2 value")));

    env.remove("BAZ");

    let config2 = load_config_from_str(config_str, &env).unwrap();
    assert_eq!(config2.get("foo"), Some(&text("foo value")));
    assert_eq!(config2.get("bar"), Some(&ValueTree::Integer(1234)));
    assert_eq!(config2.get("baz"), None);
    let more2 = config2.get("more").unwrap();
    assert_eq!(more2.get("thing1"), Some(&text("thing1 value")));
    assert_eq!(more2.get("thing2"), Some(&text("thing2 value")));
}

#[test]
fn missing_required_variables_are_reported_together() {
    let config_str = r#"
            foo = "<<ENV:FOO2>>"
            bar = 1234
            baz = "<<ENV:BAZ2>>"
        "#;

    let error = load_config_from_str(config_str, &Environment::new()).unwrap_err();
    assert_eq!(
        error,
        ConfigError::Multiple(vec![
            Cause::MissingVariable("BAZ2".to_string()),
            Cause::MissingVariable("FOO2".to_string()),
        ])
    );
    assert_eq!(
        error.message(),
        "Errors: Required environment variable 'BAZ2' not set, \
         Required environment variable 'FOO2' not set"
    );
}

#[test]
fn one_missing_required_variable_is_a_single_error() {
    let config_str = r#"
            foo = "<<ENV:FOO2>>"
            bar = 1234
            baz = "baz value"
        "#;

    let error = load_config_from_str(config_str, &Environment::new()).unwrap_err();
    assert_eq!(error, ConfigError::Single(Cause::MissingVariable("FOO2".to_string())));
    assert_eq!(error.message(), "Required environment variable 'FOO2' not set");
}

#[test]
fn document_without_placeholders_is_loaded_as_written() {
    let config_str = r#"
            foo = "foo value"
            bar = 1234
            baz = "baz value"
            [more]
            thing1 = "thing1 value"
            thing2 = "thing2 value"
        "#;

    let mut env = Environment::new();
    env.set("foo", "not asked for");

    let config = load_config_from_str(config_str, &env).unwrap();
    assert_eq!(
        config,
        ValueTree::Table(vec![
            field("bar", ValueTree::Integer(1234)),
            field("baz", text("baz value")),
            field("foo", text("foo value")),
            field(
                "more",
                ValueTree::Table(vec![
                    field("thing1", text("thing1 value")),
                    field("thing2", text("thing2 value")),
                ])
            ),
        ])
    );
}

#[test]
fn required_variable_may_hold_the_empty_string() {
    let mut env = Environment::new();
    env.set("EMPTY", "");

    let config = load_config_from_str(r#"foo = "<<ENV:EMPTY>>""#, &env).unwrap();
    assert_eq!(config, ValueTree::Table(vec![field("foo", text(""))]));
}

#[test]
fn variable_value_is_taken_as_it_is() {
    let mut env = Environment::new();
    env.set("ODD", "<<ENV:OTHER>>");
    env.set("OTHER", "never read");

    let config = load_config_from_str(r#"foo = "<<ENV:ODD>>""#, &env).unwrap();
    assert_eq!(config.get("foo"), Some(&text("<<ENV:OTHER>>")));
}

#[test]
fn optional_placeholder_of_a_set_variable_is_like_a_required_one() {
    let mut env = Environment::new();
    env.set("FOO", "env foo value");

    let required = load_config_from_str(r#"foo = "<<ENV:FOO>>""#, &env).unwrap();
    let optional = load_config_from_str(r#"foo = "<<ENV?:FOO>>""#, &env).unwrap();
    assert_eq!(required, optional);
    assert_eq!(optional.get("foo"), Some(&text("env foo value")));
}

#[test]
fn placeholder_with_a_prefix_is_a_literal() {
    let mut env = Environment::new();
    env.set("FOO", "env foo value");

    let config = load_config_from_str(r#"foo = "prefix<<ENV:FOO>>""#, &env).unwrap();
    assert_eq!(config.get("foo"), Some(&text("prefix<<ENV:FOO>>")));
}

#[test]
fn placeholder_with_a_suffix_is_a_literal() {
    let mut env = Environment::new();
    env.set("FOO", "env foo value");

    let config = load_config_from_str(r#"foo = "<<ENV?:FOO>>suffix""#, &env).unwrap();
    assert_eq!(config.get("foo"), Some(&text("<<ENV?:FOO>>suffix")));
}

#[test]
fn failure_is_reported_beside_valid_fields() {
    let config_str = r#"
            first = "<<ENV:SET>>"
            second = "<<ENV:UNSET>>"
            third = "plain"
        "#;

    let mut env = Environment::new();
    env.set("SET", "value");

    let error = load_config_from_str(config_str, &env).unwrap_err();
    assert_eq!(error, ConfigError::Single(Cause::MissingVariable("UNSET".to_string())));
}

#[test]
fn failures_of_nested_tables_are_collected_in_order() {
    let config_str = r#"
            a = "<<ENV:A>>"
            z = "<<ENV:Z>>"
            [m]
            inner1 = "<<ENV:M1>>"
            inner2 = "<<ENV?:M2>>"
            inner3 = "<<ENV:M3>>"
            [m.deeper]
            last = "<<ENV:DEEP>>"
        "#;

    let error = load_config_from_str(config_str, &Environment::new()).unwrap_err();
    assert_eq!(
        error,
        ConfigError::Multiple(vec![
            Cause::MissingVariable("A".to_string()),
            Cause::MissingVariable("DEEP".to_string()),
            Cause::MissingVariable("M1".to_string()),
            Cause::MissingVariable("M3".to_string()),
            Cause::MissingVariable("Z".to_string()),
        ])
    );
}

#[test]
fn unset_optional_field_of_a_nested_table_is_left_out() {
    let config_str = r#"
            [more]
            thing1 = "<<ENV?:THING1>>"
            thing2 = "thing2 value"
        "#;

    let config = load_config_from_str(config_str, &Environment::new()).unwrap();
    assert_eq!(
        config,
        ValueTree::Table(vec![field(
            "more",
            ValueTree::Table(vec![field("thing2", text("thing2 value"))])
        )])
    );
}

#[test]
fn unreadable_variable_fails_in_both_forms() {
    let mut env = Environment::new();
    env.set_invalid("RAW", "not valid unicode");

    let required = load_config_from_str(r#"foo = "<<ENV:RAW>>""#, &env).unwrap_err();
    assert_eq!(required, ConfigError::Single(Cause::Environment("not valid unicode".to_string())));

    let optional = load_config_from_str(r#"foo = "<<ENV?:RAW>>""#, &env).unwrap_err();
    assert_eq!(optional, ConfigError::Single(Cause::Environment("not valid unicode".to_string())));
    assert_eq!(optional.message(), "not valid unicode");
}

#[test]
fn text_that_is_no_document_is_a_parse_failure() {
    let mut env = Environment::new();
    env.set("FOO", "value");

    let error = load_config_from_str("foo = \"<<ENV:FOO>>\"\nbar = ", &env).unwrap_err();
    match error {
        ConfigError::Single(Cause::Parse(detail)) => assert!(!detail.is_empty()),
        other => panic!("expected a parse failure, got {:?}", other),
    }
}

#[test]
fn empty_text_is_the_empty_document() {
    let config = load_config_from_str("", &Environment::new()).unwrap();
    assert_eq!(config, ValueTree::Table(vec![]));
}

#[test]
fn every_kind_of_value_is_read() {
    let config_str = r#"
            text = "plain"
            whole = -7
            real = 1.5
            flag = true
            day = 1979-05-27T07:32:00Z
            list = [1, 2, 3]
            [table]
            inner = false
        "#;

    let config = load_config_from_str(config_str, &Environment::new()).unwrap();
    assert_eq!(
        config,
        ValueTree::Table(vec![
            field("day", ValueTree::Datetime("1979-05-27T07:32:00Z".to_string())),
            field("flag", ValueTree::Boolean(true)),
            field(
                "list",
                ValueTree::Array(vec![
                    ValueTree::Integer(1),
                    ValueTree::Integer(2),
                    ValueTree::Integer(3),
                ])
            ),
            field("real", ValueTree::Float(1.5f64.to_bits())),
            field("table", ValueTree::Table(vec![field("inner", ValueTree::Boolean(false))])),
            field("text", text("plain")),
            field("whole", ValueTree::Integer(-7)),
        ])
    );
}

#[test]
fn placeholders_in_arrays_are_resolved_in_place() {
    let config_str = r#"
            hosts = ["<<ENV:FIRST>>", "fixed", "<<ENV?:SECOND>>", "<<ENV?:THIRD>>"]
        "#;

    let mut env = Environment::new();
    env.set("FIRST", "one");
    env.set("SECOND", "two");

    let config = load_config_from_str(config_str, &env).unwrap();
    assert_eq!(
        config.get("hosts"),
        Some(&ValueTree::Array(vec![
            text("one"),
            text("fixed"),
            text("two"),
            text("<<ENV?:THIRD>>"),
        ]))
    );
}

#[test]
fn failures_in_arrays_are_collected() {
    let config_str = r#"
            hosts = ["<<ENV:FIRST>>", "fixed", "<<ENV:SECOND>>"]
            name = "<<ENV:NAME>>"
        "#;

    let error = load_config_from_str(config_str, &Environment::new()).unwrap_err();
    assert_eq!(
        error,
        ConfigError::Multiple(vec![
            Cause::MissingVariable("FIRST".to_string()),
            Cause::MissingVariable("SECOND".to_string()),
            Cause::MissingVariable("NAME".to_string()),
        ])
    );
}

#[test]
fn tables_in_arrays_are_resolved_field_by_field() {
    let config_str = r#"
            [[server]]
            host = "<<ENV:HOST>>"
            port = "<<ENV?:PORT>>"

            [[server]]
            host = "fixed"
        "#;

    let mut env = Environment::new();
    env.set("HOST", "example.org");

    let config = load_config_from_str(config_str, &env).unwrap();
    assert_eq!(
        config.get("server"),
        Some(&ValueTree::Array(vec![
            ValueTree::Table(vec![field("host", text("example.org"))]),
            ValueTree::Table(vec![field("host", text("fixed"))]),
        ]))
    );
}

#[test]
fn loading_twice_reads_the_environment_as_it_is_then() {
    let config_str = r#"foo = "<<ENV:FOO>>""#;
    let mut env = Environment::new();

    assert!(load_config_from_str(config_str, &env).is_err());
    env.set("FOO", "first");
    assert_eq!(load_config_from_str(config_str, &env).unwrap().get("foo"), Some(&text("first")));
    env.set("FOO", "second");
    assert_eq!(load_config_from_str(config_str, &env).unwrap().get("foo"), Some(&text("second")));
}
