//! The two forms of a string that asks for an environment variable.

use vstd::prelude::*;
use vstd::string::*;
use vstd::utf8::is_ascii_chars;

verus! {

/// What a string of a document stands for.
#[derive(Debug, PartialEq, Eq)]
pub enum Placeholder {
    /// The string itself.
    Literal,
    /// The variable of this name, which has to be set.
    Required(String),
    /// The variable of this name, if it is set.
    Optional(String),
}

/// Model of a [`Placeholder`].
pub enum PlaceholderView {
    Literal,
    Required(Seq<char>),
    Optional(Seq<char>),
}

impl View for Placeholder {
    type V = PlaceholderView;

    open spec fn view(&self) -> PlaceholderView {
        match self {
            Placeholder::Literal => PlaceholderView::Literal,
            Placeholder::Required(name) => PlaceholderView::Required(name@),
            Placeholder::Optional(name) => PlaceholderView::Optional(name@),
        }
    }
}

impl Clone for Placeholder {
    fn clone(&self) -> (copy: Placeholder)
        ensures
            copy@ == self@,
    {
        match self {
            Placeholder::Literal => Placeholder::Literal,
            Placeholder::Required(name) => Placeholder::Required(name.clone()),
            Placeholder::Optional(name) => Placeholder::Optional(name.clone()),
        }
    }
}

/// The characters that a variable's name is made of.
pub open spec fn is_name_char(c: char) -> bool {
    ('a' <= c <= 'z') || ('A' <= c <= 'Z') || ('0' <= c <= '9') || c == '_'
}

/// A variable's name: one character or more, each of them a letter of the
/// Latin alphabet, a digit or an underscore.
pub open spec fn is_name(name: Seq<char>) -> bool {
    name.len() > 0 && forall|i: int| 0 <= i < name.len() ==> is_name_char(#[trigger] name[i])
}

/// What opens a required placeholder.
pub open spec fn required_opening() -> Seq<char> {
    seq!['<', '<', 'E', 'N', 'V', ':']
}

/// What opens an optional placeholder.
pub open spec fn optional_opening() -> Seq<char> {
    seq!['<', '<', 'E', 'N', 'V', '?', ':']
}

/// What closes a placeholder of either form.
pub open spec fn closing() -> Seq<char> {
    seq!['>', '>']
}

/// The name in a text that is made of `opening`, a name and the closing, and
/// of nothing else.
pub open spec fn enclosed_name(text: Seq<char>, opening: Seq<char>) -> Option<Seq<char>> {
    let name = text.subrange(opening.len() as int, text.len() - closing().len());
    if opening.len() + closing().len() <= text.len() && is_name(name) && text == opening + name
        + closing() {
        Some(name)
    } else {
        None
    }
}

/// What a string of a document stands for.
pub open spec fn classify_spec(text: Seq<char>) -> PlaceholderView {
    match enclosed_name(text, required_opening()) {
        Some(name) => PlaceholderView::Required(name),
        None => match enclosed_name(text, optional_opening()) {
            Some(name) => PlaceholderView::Optional(name),
            None => PlaceholderView::Literal,
        },
    }
}

/// Whether a byte is a character that a variable's name is made of.
fn is_name_byte(byte: u8) -> (fits: bool)
    ensures
        fits == is_name_char(byte as char),
{
    (97 <= byte && byte <= 122) || (65 <= byte && byte <= 90) || (48 <= byte && byte <= 57) || byte
        == 95
}

/// The name that `text` holds behind `opening` and before the closing.
fn enclosed(text: &str, opening: &str) -> (name: Option<String>)
    requires
        is_ascii_chars(opening@),
    ensures
        match name {
            Some(found) => enclosed_name(text@, opening@) == Some(found@),
            None => enclosed_name(text@, opening@) is None,
        },
{
    broadcast use {is_ascii_spec_bytes, vstd::utf8::is_ascii_chars_nat_bound};

    let ghost inner = text@.subrange(opening@.len() as int, text@.len() - 2);
    if !text.is_ascii() {
        proof {
            if enclosed_name(text@, opening@) is Some {
                assert forall|i: int| 0 <= i < text@.len() implies '\0' <= #[trigger] text@[i]
                    <= '\u{7f}' by {}
            }
        }
        return None;
    }
    let bytes = text.as_bytes();
    let start = opening.as_bytes();
    let length = bytes.len();
    let opened = start.len();
    proof {
        assert(is_ascii(text) && is_ascii(opening));
    }
    if length < 2 || length - 2 < opened {
        return None;
    }
    let closed = length - 2;
    let mut i: usize = 0;
    while i < opened
        invariant
            i <= opened <= closed,
            closed + 2 == length,
            length == text@.len(),
            opened == opening@.len(),
            bytes@ == text.spec_bytes(),
            start@ == opening.spec_bytes(),
            is_ascii(text),
            is_ascii(opening),
            forall|j: int| 0 <= j < i ==> text@[j] == opening@[j],
        decreases opened - i,
    {
        if bytes[i] != start[i] {
            return None;
        }
        i += 1;
    }
    if bytes[closed] != 62 || bytes[closed + 1] != 62 {
        return None;
    }
    if opened == closed {
        return None;
    }
    let mut i: usize = opened;
    while i < closed
        invariant
            opened <= i <= closed,
            closed + 2 == length,
            length == text@.len(),
            opened == opening@.len(),
            bytes@ == text.spec_bytes(),
            is_ascii(text),
            inner == text@.subrange(opened as int, closed as int),
            forall|j: int| opened <= j < i ==> is_name_char(text@[j]),
        decreases closed - i,
    {
        if !is_name_byte(bytes[i]) {
            return None;
        }
        i += 1;
    }
    let name = text.substring_ascii(opened, closed).to_owned();
    proof {
        assert(text@ =~= opening@ + inner + closing());
    }
    Some(name)
}

/// Tells what a string of a document stands for. Only a string that is a
/// placeholder from its first character to its last is one.
pub fn classify(text: &str) -> (placeholder: Placeholder)
    ensures
        placeholder@ == classify_spec(text@),
{
    proof {
        reveal_strlit("<<ENV:");
        reveal_strlit("<<ENV?:");
        assert("<<ENV:"@ =~= required_opening());
        assert("<<ENV?:"@ =~= optional_opening());
    }
    match enclosed(text, "<<ENV:") {
        Some(name) => Placeholder::Required(name),
        None => match enclosed(text, "<<ENV?:") {
            Some(name) => Placeholder::Optional(name),
            None => Placeholder::Literal,
        },
    }
}

/// A placeholder is the whole of a string: with anything before it or behind
/// it, the string is a literal.
pub proof fn lemma_placeholder_is_anchored(before: Seq<char>, text: Seq<char>, after: Seq<char>)
    requires
        !(classify_spec(text) is Literal),
        before.len() + after.len() > 0,
    ensures
        classify_spec(before + text + after) is Literal,
{
    let whole = before + text + after;
    assert forall|opening: Seq<char>|
        opening == required_opening() || opening == optional_opening() implies enclosed_name(
        whole,
        opening,
    ) is None by {
        if enclosed_name(whole, opening) is Some {
            let name = whole.subrange(opening.len() as int, whole.len() - 2);
            if before.len() > 0 {
                let at: int = (before.len() + 1) as int;
                if at < opening.len() {
                    assert(whole[at] == opening[at]);
                } else {
                    assert(whole[at] == name[at - opening.len()]);
                }
            } else {
                let at: int = text.len() - 2;
                assert(whole[at] == name[at - opening.len()]);
            }
        }
    }
}

} // verus!
