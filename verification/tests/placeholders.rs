use env_overlay::{classify, Placeholder};

fn required(name: &str) -> Placeholder {
    Placeholder::Required(name.to_string())
}

fn optional(name: &str) -> Placeholder {
    Placeholder::Optional(name.to_string())
}

#[test]
fn required_placeholder_is_recognised() {
    assert_eq!(classify("<<ENV:FOO>>"), required("FOO"));
}

#[test]
fn optional_placeholder_is_recognised() {
    assert_eq!(classify("<<ENV?:BAZ>>"), optional("BAZ"));
}

#[test]
fn name_may_hold_letters_digits_and_underscores() {
    assert_eq!(classify("<<ENV:aZ_09>>"), required("aZ_09"));
    assert_eq!(classify("<<ENV?:_>>"), optional("_"));
    assert_eq!(classify("<<ENV:7>>"), required("7"));
    assert_eq!(classify("<<ENV:ENV>>"), required("ENV"));
}

#[test]
fn ordinary_strings_are_literals() {
    assert_eq!(classify(""), Placeholder::Literal);
    assert_eq!(classify("foo value"), Placeholder::Literal);
    assert_eq!(classify("FOO"), Placeholder::Literal);
    assert_eq!(classify("<<>>"), Placeholder::Literal);
    assert_eq!(classify("<<ENV:"), Placeholder::Literal);
    assert_eq!(classify(">>"), Placeholder::Literal);
}

#[test]
fn placeholder_needs_a_name() {
    assert_eq!(classify("<<ENV:>>"), Placeholder::Literal);
    assert_eq!(classify("<<ENV?:>>"), Placeholder::Literal);
}

#[test]
fn name_holds_no_other_character() {
    assert_eq!(classify("<<ENV:FOO-BAR>>"), Placeholder::Literal);
    assert_eq!(classify("<<ENV:FOO BAR>>"), Placeholder::Literal);
    assert_eq!(classify("<<ENV:FOO.BAR>>"), Placeholder::Literal);
    assert_eq!(classify("<<ENV:FOO?>>"), Placeholder::Literal);
    assert_eq!(classify("<<ENV:F\u{d6}\u{d6}>>"), Placeholder::Literal);
    assert_eq!(classify("<<ENV:FOO>>>"), Placeholder::Literal);
    assert_eq!(classify("<<ENV:<<ENV:FOO>>>>"), Placeholder::Literal);
    assert_eq!(classify("<<ENV:FOO\n>>"), Placeholder::Literal);
}

#[test]
fn placeholder_is_the_whole_string() {
    assert_eq!(classify("prefix<<ENV:FOO>>"), Placeholder::Literal);
    assert_eq!(classify("<<ENV:FOO>>suffix"), Placeholder::Literal);
    assert_eq!(classify(" <<ENV:FOO>>"), Placeholder::Literal);
    assert_eq!(classify("<<ENV:FOO>> "), Placeholder::Literal);
    assert_eq!(classify("<<ENV:FOO>>\n"), Placeholder::Literal);
    assert_eq!(classify("<<<ENV:FOO>>"), Placeholder::Literal);
    assert_eq!(classify("<<ENV?:FOO>><<ENV?:BAR>>"), Placeholder::Literal);
    assert_eq!(classify("\u{e9}<<ENV:FOO>>"), Placeholder::Literal);
}

#[test]
fn marks_are_matched_letter_for_letter() {
    assert_eq!(classify("<<env:FOO>>"), Placeholder::Literal);
    assert_eq!(classify("<<ENV FOO>>"), Placeholder::Literal);
    assert_eq!(classify("<ENV:FOO>"), Placeholder::Literal);
    assert_eq!(classify("<<ENV:FOO>"), Placeholder::Literal);
    assert_eq!(classify("<<ENV??:FOO>>"), Placeholder::Literal);
    assert_eq!(classify("<<ENV:?FOO>>"), Placeholder::Literal);
}

#[test]
fn long_names_are_placeholders_too() {
    let name = "N".repeat(10_000);
    assert_eq!(classify(&format!("<<ENV:{}>>", name)), required(&name));
    assert_eq!(classify(&format!("<<ENV?:{}>>", name)), optional(&name));
    assert_eq!(classify(&format!("<<ENV:{}->>", name)), Placeholder::Literal);
}

#[test]
fn classification_agrees_with_the_patterns() {
    let required_form = regex::Regex::new("^<<ENV:([a-zA-Z0-9_]+)>>$").unwrap();
    let optional_form = regex::Regex::new("^<<ENV\\?:([a-zA-Z0-9_]+)>>$").unwrap();
    let pieces = [
        "", "<", "<<", "<<ENV", "<<ENV:", "<<ENV?:", "FOO", "a_1", "Z", "-", " ", ">", ">>", "\n",
        "\u{e9}", "?", ":", "ENV",
    ];
    let mut checked = 0;
    for first in pieces {
        for second in pieces {
            for third in pieces {
                for fourth in pieces {
                    let text = format!("{}{}{}{}", first, second, third, fourth);
                    let expected = if let Some(found) = required_form.captures(&text) {
                        required(&found[1])
                    } else if let Some(found) = optional_form.captures(&text) {
                        optional(&found[1])
                    } else {
                        Placeholder::Literal
                    };
                    assert_eq!(classify(&text), expected, "for {:?}", text);
                    checked += 1;
                }
            }
        }
    }
    assert_eq!(checked, 18 * 18 * 18 * 18);
}
