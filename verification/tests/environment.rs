use env_overlay::{Environment, Lookup};

fn present(value: &str) -> Lookup {
    Lookup::Present(value.to_string())
}

#[test]
fn new_environment_has_no_variable() {
    let env = Environment::new();
    assert_eq!(env.lookup("FOO"), Lookup::Absent);
    assert_eq!(env.lookup(""), Lookup::Absent);
}

#[test]
fn set_variable_is_found() {
    let mut env = Environment::new();
    env.set("FOO", "foo value");
    assert_eq!(env.lookup("FOO"), present("foo value"));
    assert_eq!(env.lookup("foo"), Lookup::Absent);
    assert_eq!(env.lookup("FOO "), Lookup::Absent);
}

#[test]
fn later_setting_replaces_the_earlier() {
    let mut env = Environment::new();
    env.set("FOO", "first");
    env.set("BAR", "other");
    env.set("FOO", "second");
    assert_eq!(env.lookup("FOO"), present("second"));
    assert_eq!(env.lookup("BAR"), present("other"));
}

#[test]
fn removed_variable_is_absent() {
    let mut env = Environment::new();
    env.set("FOO", "first");
    env.set("BAR", "other");
    env.set("FOO", "second");
    env.remove("FOO");
    assert_eq!(env.lookup("FOO"), Lookup::Absent);
    assert_eq!(env.lookup("BAR"), present("other"));
    env.remove("NEVER");
    assert_eq!(env.lookup("BAR"), present("other"));
}

#[test]
fn removed_variable_can_be_set_again() {
    let mut env = Environment::new();
    env.set("FOO", "first");
    env.remove("FOO");
    env.set("FOO", "again");
    assert_eq!(env.lookup("FOO"), present("again"));
}

#[test]
fn unreadable_variable_is_told_apart() {
    let mut env = Environment::new();
    env.set_invalid("RAW", "not valid unicode");
    assert_eq!(env.lookup("RAW"), Lookup::Invalid("not valid unicode".to_string()));
    env.set("RAW", "fine now");
    assert_eq!(env.lookup("RAW"), present("fine now"));
}

#[test]
fn empty_value_is_a_value() {
    let mut env = Environment::new();
    env.set("EMPTY", "");
    assert_eq!(env.lookup("EMPTY"), present(""));
}
