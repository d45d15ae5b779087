//! Resolving the placeholders of a document against an environment.

use vstd::prelude::*;
use crate::environment::{lookup_in, Environment, Lookup, LookupView};
use crate::error::{combine_errors, Cause, CauseView, ConfigError, ConfigErrorView};
use crate::placeholder::{classify, classify_spec, Placeholder, PlaceholderView};
use crate::value::{
    distinct_keys, field_value, field_views, item_views, lemma_well_formed_array,
    lemma_well_formed_table, TreeView, ValueTree,
};

verus! {

/// Why a string cannot be resolved, if it cannot: it asks for a required
/// variable that is not set, or for a variable whose value cannot be had.
pub open spec fn string_failure(
    text: Seq<char>,
    variables: Map<Seq<char>, LookupView>,
) -> Option<CauseView> {
    match classify_spec(text) {
        PlaceholderView::Literal => None,
        PlaceholderView::Required(name) => match lookup_in(variables, name) {
            LookupView::Present(_) => None,
            LookupView::Absent => Some(CauseView::MissingVariable(name)),
            LookupView::Invalid(reason) => Some(CauseView::Environment(reason)),
        },
        PlaceholderView::Optional(name) => match lookup_in(variables, name) {
            LookupView::Invalid(reason) => Some(CauseView::Environment(reason)),
            _ => None,
        },
    }
}

/// What a string resolves to: itself where it is a literal, the value of its
/// variable where it is a placeholder and the variable is set, and nothing
/// otherwise.
pub open spec fn string_value(
    text: Seq<char>,
    variables: Map<Seq<char>, LookupView>,
) -> Option<TreeView> {
    match classify_spec(text) {
        PlaceholderView::Literal => Some(TreeView::String(text)),
        PlaceholderView::Required(name) | PlaceholderView::Optional(name) => match lookup_in(
            variables,
            name,
        ) {
            LookupView::Present(value) => Some(TreeView::String(value)),
            _ => None,
        },
    }
}

/// The failures of all the strings of a value, in the order of the value.
pub open spec fn failures(tree: TreeView, variables: Map<Seq<char>, LookupView>) -> Seq<CauseView>
    decreases tree,
{
    match tree {
        TreeView::String(text) => match string_failure(text, variables) {
            Some(cause) => seq![cause],
            None => Seq::empty(),
        },
        TreeView::Array(items) => item_failures(items, variables),
        TreeView::Table(fields) => field_failures(fields, variables),
        _ => Seq::empty(),
    }
}

/// The failures of the items of an array, in order.
pub open spec fn item_failures(
    items: Seq<TreeView>,
    variables: Map<Seq<char>, LookupView>,
) -> Seq<CauseView>
    decreases items,
{
    if items.len() == 0 {
        Seq::empty()
    } else {
        item_failures(items.drop_last(), variables) + failures(items.last(), variables)
    }
}

/// The failures of the fields of a table, in order.
pub open spec fn field_failures(
    fields: Seq<(Seq<char>, TreeView)>,
    variables: Map<Seq<char>, LookupView>,
) -> Seq<CauseView>
    decreases fields,
{
    if fields.len() == 0 {
        Seq::empty()
    } else {
        field_failures(fields.drop_last(), variables) + failures(fields.last().1, variables)
    }
}

/// What a value resolves to where none of its strings fails; `None` for an
/// optional placeholder whose variable is not set.
pub open spec fn resolved(tree: TreeView, variables: Map<Seq<char>, LookupView>) -> Option<
    TreeView,
>
    decreases tree,
{
    match tree {
        TreeView::String(text) => string_value(text, variables),
        TreeView::Array(items) => Some(TreeView::Array(resolved_items(items, variables))),
        TreeView::Table(fields) => Some(TreeView::Table(resolved_fields(fields, variables))),
        other => Some(other),
    }
}

/// The items of an array, each resolved. An array keeps all its items: an
/// item that resolves to nothing stays as it is written.
pub open spec fn resolved_items(
    items: Seq<TreeView>,
    variables: Map<Seq<char>, LookupView>,
) -> Seq<TreeView>
    decreases items,
{
    if items.len() == 0 {
        Seq::empty()
    } else {
        resolved_items(items.drop_last(), variables).push(
            match resolved(items.last(), variables) {
                Some(value) => value,
                None => items.last(),
            },
        )
    }
}

/// The fields of a table, each resolved. A field that resolves to nothing is
/// left out.
pub open spec fn resolved_fields(
    fields: Seq<(Seq<char>, TreeView)>,
    variables: Map<Seq<char>, LookupView>,
) -> Seq<(Seq<char>, TreeView)>
    decreases fields,
{
    if fields.len() == 0 {
        Seq::empty()
    } else {
        let before = resolved_fields(fields.drop_last(), variables);
        match resolved(fields.last().1, variables) {
            Some(value) => before.push((fields.last().0, value)),
            None => before,
        }
    }
}

/// The one error that stands for a list of failures.
pub open spec fn report(causes: Seq<CauseView>) -> ConfigErrorView {
    if causes.len() == 1 {
        ConfigErrorView::Single(causes[0])
    } else {
        ConfigErrorView::Multiple(causes)
    }
}

/// What loading a value gives: the resolved value where no string fails, and
/// else the report of all the failures.
pub open spec fn outcome(tree: TreeView, variables: Map<Seq<char>, LookupView>) -> Result<
    Option<TreeView>,
    ConfigErrorView,
> {
    if failures(tree, variables).len() == 0 {
        Ok(resolved(tree, variables))
    } else {
        Err(report(failures(tree, variables)))
    }
}

/// What loading the fields of a document gives: the table of the resolved
/// fields where no string fails, and else the report of all the failures.
pub open spec fn document_outcome(
    fields: Seq<(Seq<char>, TreeView)>,
    variables: Map<Seq<char>, LookupView>,
) -> Result<TreeView, ConfigErrorView> {
    if field_failures(fields, variables).len() == 0 {
        Ok(TreeView::Table(resolved_fields(fields, variables)))
    } else {
        Err(report(field_failures(fields, variables)))
    }
}

/// What loading the items of an array gives.
pub open spec fn array_outcome(
    items: Seq<TreeView>,
    variables: Map<Seq<char>, LookupView>,
) -> Result<TreeView, ConfigErrorView> {
    if item_failures(items, variables).len() == 0 {
        Ok(TreeView::Array(resolved_items(items, variables)))
    } else {
        Err(report(item_failures(items, variables)))
    }
}

/// Whether one of the fields has the key `key`.
pub open spec fn has_key(fields: Seq<(Seq<char>, TreeView)>, key: Seq<char>) -> bool {
    exists|i: int| 0 <= i < fields.len() && (#[trigger] fields[i]).0 == key
}

/// The report of failures holds these failures, and is one error as this
/// library makes them.
pub proof fn lemma_report_holds_failures(causes: Seq<CauseView>)
    requires
        causes.len() > 0,
    ensures
        report(causes).causes() == causes,
        report(causes).well_formed(),
{
}

/// A key that no field has is the key of no resolved field.
pub proof fn lemma_resolved_fields_keep_keys(
    fields: Seq<(Seq<char>, TreeView)>,
    variables: Map<Seq<char>, LookupView>,
    key: Seq<char>,
)
    requires
        !has_key(fields, key),
    ensures
        !has_key(resolved_fields(fields, variables), key),
        field_value(resolved_fields(fields, variables), key) is None,
    decreases fields.len(),
{
    if fields.len() > 0 {
        let kept = resolved_fields(fields.drop_last(), variables);
        lemma_resolved_fields_keep_keys(fields.drop_last(), variables, key);
        if let Some(value) = resolved(fields.last().1, variables) {
            assert(kept.push((fields.last().0, value)).drop_last() =~= kept);
        }
    }
}

/// Resolving keeps a value as a document holds it: no table of the resolved
/// value has two fields of one key.
pub proof fn lemma_resolved_value_is_well_formed(
    tree: TreeView,
    variables: Map<Seq<char>, LookupView>,
)
    requires
        tree.well_formed(),
    ensures
        resolved(tree, variables) matches Some(value) ==> value.well_formed(),
    decreases tree,
{
    match tree {
        TreeView::Array(items) => {
            lemma_resolved_items_are_well_formed(items, variables);
        },
        TreeView::Table(fields) => {
            lemma_resolved_fields_are_well_formed(fields, variables);
        },
        _ => {},
    }
}

/// Resolving keeps the items of an array as a document holds them.
pub proof fn lemma_resolved_items_are_well_formed(
    items: Seq<TreeView>,
    variables: Map<Seq<char>, LookupView>,
)
    requires
        TreeView::Array(items).well_formed(),
    ensures
        TreeView::Array(resolved_items(items, variables)).well_formed(),
    decreases items,
{
    lemma_well_formed_array(items);
    if items.len() > 0 {
        lemma_resolved_items_are_well_formed(items.drop_last(), variables);
        lemma_well_formed_array(resolved_items(items.drop_last(), variables));
        lemma_resolved_value_is_well_formed(items.last(), variables);
    }
}

/// Resolving keeps the fields of a table as a document holds them: no two
/// of the resolved fields have the same key.
pub proof fn lemma_resolved_fields_are_well_formed(
    fields: Seq<(Seq<char>, TreeView)>,
    variables: Map<Seq<char>, LookupView>,
)
    requires
        TreeView::Table(fields).well_formed(),
    ensures
        TreeView::Table(resolved_fields(fields, variables)).well_formed(),
    decreases fields,
{
    if fields.len() > 0 {
        lemma_resolved_fields_are_well_formed(fields.drop_last(), variables);
        lemma_resolved_value_is_well_formed(fields.last().1, variables);
        lemma_resolved_fields_keep_keys(fields.drop_last(), variables, fields.last().0);
    }
}

/// Adds what came of one more field or item to what came of those before it.
fn note_failure(failed: Option<ConfigError>, error: ConfigError) -> (noted: ConfigError)
    ensures
        noted@ == match failed {
            Some(earlier) => ConfigErrorView::Multiple(earlier@.causes() + error@.causes()),
            None => error@,
        },
{
    match failed {
        Some(earlier) => combine_errors(earlier, error),
        None => error,
    }
}

/// Resolves a document, given as the fields of its table: every placeholder
/// is replaced by the value of its variable, and a field that is an optional
/// placeholder of a variable that is not set is left out. All the fields are
/// visited, whatever failed before, and the error reports every failure.
pub fn load_env_variables(config: &Vec<(String, ValueTree)>, env: &Environment) -> (loaded: Result<
    ValueTree,
    ConfigError,
>)
    ensures
        match loaded {
            Ok(tree) => document_outcome(field_views(config@), env@) == Ok::<
                TreeView,
                ConfigErrorView,
            >(tree@),
            Err(error) => document_outcome(field_views(config@), env@) == Err::<
                TreeView,
                ConfigErrorView,
            >(error@),
        },
        match loaded {
            Ok(tree) => TreeView::Table(field_views(config@)).well_formed()
                ==> tree@.well_formed(),
            Err(error) => error@.well_formed(),
        },
    decreases config,
{
    let ghost fields = field_views(config@);
    proof {
        if TreeView::Table(fields).well_formed() {
            lemma_resolved_fields_are_well_formed(fields, env@);
        }
    }
    let mut kept: Vec<(String, ValueTree)> = Vec::new();
    let mut failed: Option<ConfigError> = None;
    let mut i: usize = 0;
    while i < config.len()
        invariant
            i <= config.len(),
            fields == field_views(config@),
            match failed {
                None => field_failures(fields.take(i as int), env@).len() == 0 && field_views(
                    kept@,
                ) == resolved_fields(fields.take(i as int), env@),
                Some(error) => field_failures(fields.take(i as int), env@).len() > 0 && error@
                    == report(field_failures(fields.take(i as int), env@)),
            },
        decreases config.len() - i,
    {
        proof {
            assert(fields.take(i + 1).drop_last() =~= fields.take(i as int));
            if field_failures(fields.take(i as int), env@).len() > 0 {
                lemma_report_holds_failures(field_failures(fields.take(i as int), env@));
            }
            if failures(config@[i as int].1@, env@).len() > 0 {
                lemma_report_holds_failures(failures(config@[i as int].1@, env@));
            }
        }
        match load_env_variable(&config[i].1, env) {
            Ok(Some(value)) => {
                if failed.is_none() {
                    kept.push((config[i].0.clone(), value));
                }
            },
            Ok(None) => {},
            Err(error) => {
                failed = Some(note_failure(failed, error));
            },
        }
        i += 1;
    }
    assert(fields.take(i as int) =~= fields);
    match failed {
        None => Ok(ValueTree::Table(kept)),
        Some(error) => Err(error),
    }
}

/// Resolves the items of an array. An array keeps all its items: an item
/// that is an optional placeholder of a variable that is not set stays as it
/// is written.
fn load_array_items(items: &Vec<ValueTree>, env: &Environment) -> (loaded: Result<
    ValueTree,
    ConfigError,
>)
    ensures
        match loaded {
            Ok(tree) => array_outcome(item_views(items@), env@) == Ok::<TreeView, ConfigErrorView>(
                tree@,
            ),
            Err(error) => array_outcome(item_views(items@), env@) == Err::<
                TreeView,
                ConfigErrorView,
            >(error@),
        },
    decreases items,
{
    let ghost views = item_views(items@);
    let mut kept: Vec<ValueTree> = Vec::new();
    let mut failed: Option<ConfigError> = None;
    let mut i: usize = 0;
    while i < items.len()
        invariant
            i <= items.len(),
            views == item_views(items@),
            match failed {
                None => item_failures(views.take(i as int), env@).len() == 0 && item_views(kept@)
                    == resolved_items(views.take(i as int), env@),
                Some(error) => item_failures(views.take(i as int), env@).len() > 0 && error@
                    == report(item_failures(views.take(i as int), env@)),
            },
        decreases items.len() - i,
    {
        proof {
            assert(views.take(i + 1).drop_last() =~= views.take(i as int));
            if item_failures(views.take(i as int), env@).len() > 0 {
                lemma_report_holds_failures(item_failures(views.take(i as int), env@));
            }
            if failures(items@[i as int]@, env@).len() > 0 {
                lemma_report_holds_failures(failures(items@[i as int]@, env@));
            }
        }
        match load_env_variable(&items[i], env) {
            Ok(resolved) => {
                if failed.is_none() {
                    let value = match resolved {
                        Some(value) => value,
                        None => items[i].clone(),
                    };
                    kept.push(value);
                }
            },
            Err(error) => {
                failed = Some(note_failure(failed, error));
            },
        }
        i += 1;
    }
    assert(views.take(i as int) =~= views);
    match failed {
        None => Ok(ValueTree::Array(kept)),
        Some(error) => Err(error),
    }
}

/// Resolves one value of a document. A string that is a placeholder becomes
/// the value of its variable; where the variable is not set, a required
/// placeholder fails and an optional one gives `None`, for its field to be
/// left out. A table and an array are resolved value by value, and every other
/// value is kept as it is.
pub fn load_env_variable(value: &ValueTree, env: &Environment) -> (loaded: Result<
    Option<ValueTree>,
    ConfigError,
>)
    ensures
        match loaded {
            Ok(Some(tree)) => outcome(value@, env@) == Ok::<Option<TreeView>, ConfigErrorView>(
                Some(tree@),
            ),
            Ok(None) => outcome(value@, env@) == Ok::<Option<TreeView>, ConfigErrorView>(None),
            Err(error) => outcome(value@, env@) == Err::<Option<TreeView>, ConfigErrorView>(
                error@,
            ),
        },
        match loaded {
            Ok(Some(tree)) => value@.well_formed() ==> tree@.well_formed(),
            Ok(None) => true,
            Err(error) => error@.well_formed(),
        },
    decreases value,
{
    proof {
        if value@.well_formed() {
            lemma_resolved_value_is_well_formed(value@, env@);
        }
    }
    match value {
        ValueTree::String(text) => match classify(text.as_str()) {
            Placeholder::Required(name) => match env.lookup(name.as_str()) {
                Lookup::Present(found) => Ok(Some(ValueTree::String(found))),
                Lookup::Absent => Err(ConfigError::Single(Cause::MissingVariable(name))),
                Lookup::Invalid(reason) => Err(ConfigError::Single(Cause::Environment(reason))),
            },
            Placeholder::Optional(name) => match env.lookup(name.as_str()) {
                Lookup::Present(found) => Ok(Some(ValueTree::String(found))),
                Lookup::Absent => Ok(None),
                Lookup::Invalid(reason) => Err(ConfigError::Single(Cause::Environment(reason))),
            },
            Placeholder::Literal => Ok(Some(ValueTree::String(text.clone()))),
        },
        ValueTree::Table(fields) => match load_env_variables(fields, env) {
            Ok(table) => Ok(Some(table)),
            Err(error) => Err(error),
        },
        ValueTree::Array(items) => match load_array_items(items, env) {
            Ok(array) => Ok(Some(array)),
            Err(error) => Err(error),
        },
        ValueTree::Integer(number) => Ok(Some(ValueTree::Integer(*number))),
        ValueTree::Float(bits) => Ok(Some(ValueTree::Float(*bits))),
        ValueTree::Boolean(flag) => Ok(Some(ValueTree::Boolean(*flag))),
        ValueTree::Datetime(text) => Ok(Some(ValueTree::Datetime(text.clone()))),
    }
}

} // verus!
