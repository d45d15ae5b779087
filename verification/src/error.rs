//! Failures, and how several of them become one report.

use vstd::prelude::*;
use vstd::string::*;

verus! {

/// One reason for which a configuration could not be loaded.
#[derive(Debug, PartialEq, Eq)]
pub enum Cause {
    /// The document could not be read; holds the description of the failure.
    Io(String),
    /// The document is not well-formed; holds the parser's description.
    Parse(String),
    /// The resolved document could not be turned into the requested form.
    Serialize(String),
    /// A required variable is not set; holds the variable's name.
    MissingVariable(String),
    /// The environment could not give a variable's value; holds the reason.
    Environment(String),
}

/// Model of a [`Cause`].
pub enum CauseView {
    Io(Seq<char>),
    Parse(Seq<char>),
    Serialize(Seq<char>),
    MissingVariable(Seq<char>),
    Environment(Seq<char>),
}

impl View for Cause {
    type V = CauseView;

    open spec fn view(&self) -> CauseView {
        match self {
            Cause::Io(detail) => CauseView::Io(detail@),
            Cause::Parse(detail) => CauseView::Parse(detail@),
            Cause::Serialize(detail) => CauseView::Serialize(detail@),
            Cause::MissingVariable(name) => CauseView::MissingVariable(name@),
            Cause::Environment(detail) => CauseView::Environment(detail@),
        }
    }
}

/// A failed load: one cause, or the causes of several independent failures in
/// the order in which they were met.
#[derive(Debug, PartialEq, Eq)]
pub enum ConfigError {
    Single(Cause),
    Multiple(Vec<Cause>),
}

/// Model of an [`ConfigError`].
pub enum ConfigErrorView {
    Single(CauseView),
    Multiple(Seq<CauseView>),
}

/// The models of a sequence of causes, in order.
pub open spec fn cause_views(causes: Seq<Cause>) -> Seq<CauseView> {
    causes.map_values(|cause: Cause| cause@)
}

impl View for ConfigError {
    type V = ConfigErrorView;

    open spec fn view(&self) -> ConfigErrorView {
        match self {
            ConfigError::Single(cause) => ConfigErrorView::Single(cause@),
            ConfigError::Multiple(causes) => ConfigErrorView::Multiple(cause_views(causes@)),
        }
    }
}

impl CauseView {
    /// The cause in words.
    pub open spec fn message(self) -> Seq<char> {
        match self {
            CauseView::Io(detail) => detail,
            CauseView::Parse(detail) => detail,
            CauseView::Serialize(detail) => detail,
            CauseView::MissingVariable(name) => "Required environment variable '"@ + name
                + "' not set"@,
            CauseView::Environment(detail) => detail,
        }
    }
}

/// The messages of a sequence of causes, in order.
pub open spec fn cause_messages(causes: Seq<CauseView>) -> Seq<Seq<char>> {
    causes.map_values(|cause: CauseView| cause.message())
}

/// The parts written one behind the other, with the separator between each
/// two of them.
pub open spec fn joined(parts: Seq<Seq<char>>, separator: Seq<char>) -> Seq<char>
    decreases parts.len(),
{
    if parts.len() == 0 {
        Seq::empty()
    } else if parts.len() == 1 {
        parts[0]
    } else {
        joined(parts.drop_last(), separator) + separator + parts.last()
    }
}

/// Whether `part` stands in `text` from the position `at` on.
pub open spec fn occurs_at(text: Seq<char>, part: Seq<char>, at: int) -> bool {
    0 <= at && at + part.len() <= text.len() && text.subrange(at, at + part.len()) == part
}

/// Whether `part` stands somewhere in `text`.
pub open spec fn mentions(text: Seq<char>, part: Seq<char>) -> bool {
    exists|at: int| occurs_at(text, part, at)
}

impl ConfigErrorView {
    /// Every cause that the error reports, in order.
    pub open spec fn causes(self) -> Seq<CauseView> {
        match self {
            ConfigErrorView::Single(cause) => seq![cause],
            ConfigErrorView::Multiple(causes) => causes,
        }
    }

    /// An error as this library makes it: several causes are two at least.
    pub open spec fn well_formed(self) -> bool {
        self matches ConfigErrorView::Multiple(causes) ==> causes.len() >= 2
    }

    /// The error in words: the message of its cause, or the messages of all
    /// its causes in order.
    pub open spec fn message(self) -> Seq<char> {
        match self {
            ConfigErrorView::Single(cause) => cause.message(),
            ConfigErrorView::Multiple(causes) => "Errors: "@ + joined(
                cause_messages(causes),
                ", "@,
            ),
        }
    }
}

/// The error that joins two errors: it lists the causes of the first, then
/// those of the second.
pub open spec fn combination(first: ConfigErrorView, second: ConfigErrorView) -> ConfigErrorView {
    ConfigErrorView::Multiple(first.causes() + second.causes())
}

impl Clone for Cause {
    fn clone(&self) -> (copy: Cause)
        ensures
            copy@ == self@,
    {
        match self {
            Cause::Io(detail) => Cause::Io(detail.clone()),
            Cause::Parse(detail) => Cause::Parse(detail.clone()),
            Cause::Serialize(detail) => Cause::Serialize(detail.clone()),
            Cause::MissingVariable(name) => Cause::MissingVariable(name.clone()),
            Cause::Environment(detail) => Cause::Environment(detail.clone()),
        }
    }
}

impl Clone for ConfigError {
    fn clone(&self) -> (copy: ConfigError)
        ensures
            copy@ == self@,
    {
        match self {
            ConfigError::Single(cause) => ConfigError::Single(cause.clone()),
            ConfigError::Multiple(causes) => {
                let mut copies: Vec<Cause> = Vec::new();
                let mut i: usize = 0;
                while i < causes.len()
                    invariant
                        i <= causes.len(),
                        cause_views(copies@) == cause_views(causes@.take(i as int)),
                    decreases causes.len() - i,
                {
                    let ghost before = cause_views(copies@);
                    let copy = causes[i].clone();
                    copies.push(copy);
                    assert(cause_views(causes@.take(i + 1)) =~= before.push(causes@[i as int]@));
                    i += 1;
                }
                assert(causes@.take(i as int) =~= causes@);
                ConfigError::Multiple(copies)
            },
        }
    }
}

impl Cause {
    /// The cause in words.
    pub fn message(&self) -> (text: String)
        ensures
            text@ == self@.message(),
    {
        match self {
            Cause::Io(detail) => detail.clone(),
            Cause::Parse(detail) => detail.clone(),
            Cause::Serialize(detail) => detail.clone(),
            Cause::MissingVariable(name) => {
                let mut text = "Required environment variable '".to_owned();
                text.append(name.as_str());
                text.append("' not set");
                text
            },
            Cause::Environment(detail) => detail.clone(),
        }
    }
}

impl ConfigError {
    /// The error in words: the message of its cause, or `Errors: ` and the
    /// messages of all its causes in order, with `, ` between them.
    pub fn message(&self) -> (text: String)
        ensures
            text@ == self@.message(),
    {
        match self {
            ConfigError::Single(cause) => cause.message(),
            ConfigError::Multiple(causes) => {
                let ghost messages = cause_messages(cause_views(causes@));
                let mut list = String::new();
                let mut i: usize = 0;
                while i < causes.len()
                    invariant
                        i <= causes.len(),
                        messages == cause_messages(cause_views(causes@)),
                        list@ == joined(messages.take(i as int), ", "@),
                    decreases causes.len() - i,
                {
                    assert(messages.take(i + 1).drop_last() =~= messages.take(i as int));
                    if i > 0 {
                        list.append(", ");
                    }
                    let message = causes[i].message();
                    list.append(message.as_str());
                    i += 1;
                }
                assert(messages.take(i as int) =~= messages);
                let mut text = "Errors: ".to_owned();
                text.append(list.as_str());
                text
            },
        }
    }

    /// The causes of the error, in order.
    pub fn into_causes(self) -> (causes: Vec<Cause>)
        ensures
            cause_views(causes@) == self@.causes(),
    {
        match self {
            ConfigError::Single(cause) => {
                let mut causes = Vec::new();
                causes.push(cause);
                causes
            },
            ConfigError::Multiple(causes) => causes,
        }
    }
}

/// Joins two errors into one report that lists the causes of the first, then
/// those of the second.
pub fn combine_errors(e1: ConfigError, e2: ConfigError) -> (combined: ConfigError)
    ensures
        combined@ == combination(e1@, e2@),
{
    let mut causes = e1.into_causes();
    let mut others = e2.into_causes();
    let ghost first = causes@;
    let ghost second = others@;
    causes.append(&mut others);
    assert(cause_views(first + second) =~= cause_views(first) + cause_views(second));
    ConfigError::Multiple(causes)
}

/// Joining errors is associative: however the errors of a walk are grouped
/// before they are joined, the report lists the same causes in the same
/// order.
pub proof fn lemma_combination_is_associative(
    first: ConfigErrorView,
    second: ConfigErrorView,
    third: ConfigErrorView,
)
    ensures
        combination(combination(first, second), third) == combination(
            first,
            combination(second, third),
        ),
{
    assert((first.causes() + second.causes()) + third.causes() =~= first.causes() + (second.causes()
        + third.causes()));
}

/// Joining two errors as this library makes them gives such an error again:
/// it has two causes at least, none of which is itself a list.
pub proof fn lemma_combination_is_well_formed(first: ConfigErrorView, second: ConfigErrorView)
    requires
        first.well_formed(),
        second.well_formed(),
    ensures
        combination(first, second).well_formed(),
        combination(first, second).causes().len() == first.causes().len() + second.causes().len(),
{
}

/// A text mentions what a part of it mentions.
proof fn lemma_mentions_within(text: Seq<char>, from: int, to: int, part: Seq<char>)
    requires
        0 <= from <= to <= text.len(),
        mentions(text.subrange(from, to), part),
    ensures
        mentions(text, part),
{
    let inner = text.subrange(from, to);
    let at = choose|at: int| occurs_at(inner, part, at);
    assert(text.subrange(from + at, from + at + part.len()) =~= inner.subrange(
        at,
        at + part.len(),
    ));
    assert(occurs_at(text, part, from + at));
}

/// What is joined mentions each of its parts.
proof fn lemma_joined_mentions(parts: Seq<Seq<char>>, separator: Seq<char>, index: int)
    requires
        0 <= index < parts.len(),
    ensures
        mentions(joined(parts, separator), parts[index]),
    decreases parts.len(),
{
    let whole = joined(parts, separator);
    if parts.len() == 1 {
        assert(whole.subrange(0, 0int + parts[index].len()) =~= parts[index]);
        assert(occurs_at(whole, parts[index], 0));
    } else {
        let before = joined(parts.drop_last(), separator);
        if index == parts.len() - 1 {
            let at: int = (before.len() + separator.len()) as int;
            assert(whole.subrange(at, at + parts[index].len()) =~= parts[index]);
            assert(occurs_at(whole, parts[index], at));
        } else {
            lemma_joined_mentions(parts.drop_last(), separator, index);
            assert(whole.subrange(0, before.len() as int) =~= before);
            lemma_mentions_within(whole, 0, before.len() as int, parts[index]);
        }
    }
}

/// The message of an error mentions the message of each of its causes.
pub proof fn lemma_message_mentions_every_cause(error: ConfigErrorView, index: int)
    requires
        0 <= index < error.causes().len(),
    ensures
        mentions(error.message(), error.causes()[index].message()),
{
    let part = error.causes()[index].message();
    match error {
        ConfigErrorView::Single(cause) => {
            assert(error.message().subrange(0, 0int + part.len()) =~= part);
            assert(occurs_at(error.message(), part, 0));
        },
        ConfigErrorView::Multiple(causes) => {
            let list = joined(cause_messages(causes), ", "@);
            let whole = error.message();
            lemma_joined_mentions(cause_messages(causes), ", "@, index);
            assert(whole.subrange("Errors: "@.len() as int, whole.len() as int) =~= list);
            lemma_mentions_within(whole, "Errors: "@.len() as int, whole.len() as int, part);
        },
    }
}

/// The message of an error that reports a missing variable mentions the
/// variable's name.
pub proof fn lemma_message_names_missing_variable(
    error: ConfigErrorView,
    index: int,
    name: Seq<char>,
)
    requires
        0 <= index < error.causes().len(),
        error.causes()[index] == CauseView::MissingVariable(name),
    ensures
        mentions(error.message(), name),
{
    let whole = error.message();
    let part = error.causes()[index].message();
    let from: int = "Required environment variable '"@.len() as int;
    lemma_message_mentions_every_cause(error, index);
    let at = choose|at: int| occurs_at(whole, part, at);
    assert(part.subrange(from, from + name.len()) =~= name);
    assert(whole.subrange(at + from, at + from + name.len()) =~= whole.subrange(
        at,
        at + part.len(),
    ).subrange(from, from + name.len()));
    assert(occurs_at(whole, name, at + from));
}

} // verus!
