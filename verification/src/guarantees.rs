//! What holds of every document, every environment and every load.

use vstd::prelude::*;
use crate::environment::{lookup_in, LookupView};
use crate::error::{
    lemma_message_names_missing_variable, mentions, CauseView, ConfigErrorView,
};
use crate::overlay::{
    document_outcome, failures, field_failures, has_key, item_failures,
    lemma_report_holds_failures, lemma_resolved_fields_are_well_formed,
    lemma_resolved_fields_keep_keys, outcome, report, resolved, resolved_fields, resolved_items,
};
use crate::placeholder::{classify_spec, PlaceholderView};
use crate::value::{distinct_keys, field_value, TreeView};

verus! {

/// A value without placeholders: none of its strings is one.
pub open spec fn is_literal(tree: TreeView) -> bool
    decreases tree,
{
    match tree {
        TreeView::String(text) => classify_spec(text) is Literal,
        TreeView::Array(items) => forall|i: int|
            0 <= i < items.len() ==> is_literal(#[trigger] items[i]),
        TreeView::Table(fields) => forall|i: int|
            0 <= i < fields.len() ==> is_literal((#[trigger] fields[i]).1),
        _ => true,
    }
}

/// An array is without placeholders where each of its items is.
pub proof fn lemma_literal_array(items: Seq<TreeView>)
    ensures
        is_literal(TreeView::Array(items)) <==> forall|i: int|
            0 <= i < items.len() ==> is_literal(#[trigger] items[i]),
{
    let tree = TreeView::Array(items);
    assert(decreases_to!(tree => tree->Array_0));
}

/// A table is without placeholders where the value of each of its fields is.
pub proof fn lemma_literal_table(fields: Seq<(Seq<char>, TreeView)>)
    ensures
        is_literal(TreeView::Table(fields)) <==> forall|i: int|
            0 <= i < fields.len() ==> is_literal((#[trigger] fields[i]).1),
{
    let tree = TreeView::Table(fields);
    assert(decreases_to!(tree => tree->Table_0));
}

/// A string that asks for the variable `name` and must have it.
pub open spec fn is_required(tree: TreeView, name: Seq<char>) -> bool {
    tree matches TreeView::String(text) && classify_spec(text) == PlaceholderView::Required(name)
}

/// A string that asks for the variable `name` and can do without it.
pub open spec fn is_optional(tree: TreeView, name: Seq<char>) -> bool {
    tree matches TreeView::String(text) && classify_spec(text) == PlaceholderView::Optional(name)
}

/// A value without placeholders is loaded as it is, whatever the environment
/// holds.
pub proof fn lemma_literal_value_is_unchanged(
    tree: TreeView,
    variables: Map<Seq<char>, LookupView>,
)
    requires
        is_literal(tree),
    ensures
        outcome(tree, variables) == Ok::<Option<TreeView>, ConfigErrorView>(Some(tree)),
    decreases tree,
{
    match tree {
        TreeView::Array(items) => {
            lemma_literal_items_are_unchanged(items, variables);
        },
        TreeView::Table(fields) => {
            lemma_literal_fields_are_unchanged(fields, variables);
        },
        _ => {},
    }
}

/// Items without placeholders do not fail and resolve to themselves.
proof fn lemma_literal_items_are_unchanged(
    items: Seq<TreeView>,
    variables: Map<Seq<char>, LookupView>,
)
    requires
        forall|i: int| 0 <= i < items.len() ==> is_literal(#[trigger] items[i]),
    ensures
        item_failures(items, variables).len() == 0,
        resolved_items(items, variables) == items,
    decreases items,
{
    if items.len() > 0 {
        lemma_literal_items_are_unchanged(items.drop_last(), variables);
        lemma_literal_value_is_unchanged(items.last(), variables);
    }
}

/// Fields without placeholders do not fail and resolve to themselves.
proof fn lemma_literal_fields_are_unchanged(
    fields: Seq<(Seq<char>, TreeView)>,
    variables: Map<Seq<char>, LookupView>,
)
    requires
        forall|i: int| 0 <= i < fields.len() ==> is_literal((#[trigger] fields[i]).1),
    ensures
        field_failures(fields, variables).len() == 0,
        resolved_fields(fields, variables) == fields,
    decreases fields,
{
    if fields.len() > 0 {
        lemma_literal_fields_are_unchanged(fields.drop_last(), variables);
        lemma_literal_value_is_unchanged(fields.last().1, variables);
    }
}

/// A document without placeholders is loaded as it is, whatever the
/// environment holds.
pub proof fn lemma_literal_document_is_unchanged(
    fields: Seq<(Seq<char>, TreeView)>,
    variables: Map<Seq<char>, LookupView>,
)
    requires
        is_literal(TreeView::Table(fields)),
    ensures
        document_outcome(fields, variables) == Ok::<TreeView, ConfigErrorView>(
            TreeView::Table(fields),
        ),
{
    lemma_literal_table(fields);
    lemma_literal_fields_are_unchanged(fields, variables);
}

/// A placeholder whose variable is set becomes the variable's value, whatever
/// that value is, and the two forms of a placeholder do not differ in this.
pub proof fn lemma_set_variable_is_substituted(
    tree: TreeView,
    name: Seq<char>,
    value: Seq<char>,
    variables: Map<Seq<char>, LookupView>,
)
    requires
        is_required(tree, name) || is_optional(tree, name),
        lookup_in(variables, name) == LookupView::Present(value),
    ensures
        outcome(tree, variables) == Ok::<Option<TreeView>, ConfigErrorView>(
            Some(TreeView::String(value)),
        ),
{
}

/// A required placeholder whose variable is not set fails, and the failure
/// names the variable.
pub proof fn lemma_unset_required_variable_fails(
    tree: TreeView,
    name: Seq<char>,
    variables: Map<Seq<char>, LookupView>,
)
    requires
        is_required(tree, name),
        lookup_in(variables, name) is Absent,
    ensures
        outcome(tree, variables) == Err::<Option<TreeView>, ConfigErrorView>(
            ConfigErrorView::Single(CauseView::MissingVariable(name)),
        ),
{
}

/// An optional placeholder whose variable is not set resolves to nothing and
/// does not fail.
pub proof fn lemma_unset_optional_variable_is_omitted(
    tree: TreeView,
    name: Seq<char>,
    variables: Map<Seq<char>, LookupView>,
)
    requires
        is_optional(tree, name),
        lookup_in(variables, name) is Absent,
    ensures
        outcome(tree, variables) == Ok::<Option<TreeView>, ConfigErrorView>(None),
{
}

/// The fields of a resolved document are the resolved fields of the
/// document: under the key of a field stands what the field's value resolves
/// to, and nothing where that is nothing.
pub proof fn lemma_field_of_resolved_document(
    fields: Seq<(Seq<char>, TreeView)>,
    variables: Map<Seq<char>, LookupView>,
    index: int,
)
    requires
        distinct_keys(fields),
        0 <= index < fields.len(),
    ensures
        field_value(resolved_fields(fields, variables), fields[index].0) == resolved(
            fields[index].1,
            variables,
        ),
    decreases fields.len(),
{
    let before = fields.drop_last();
    let last = fields[fields.len() - 1];
    let key = fields[index].0;
    let kept = resolved_fields(before, variables);
    if let Some(value) = resolved(last.1, variables) {
        assert(kept.push((last.0, value)).drop_last() =~= kept);
    }
    if index == fields.len() - 1 {
        if resolved(last.1, variables) is None {
            lemma_resolved_fields_keep_keys(before, variables, key);
        }
    } else {
        lemma_field_of_resolved_document(before, variables, index);
    }
}

/// A field that is an optional placeholder of a variable that is not set is
/// absent from the resolved document.
pub proof fn lemma_unset_optional_field_is_absent(
    fields: Seq<(Seq<char>, TreeView)>,
    variables: Map<Seq<char>, LookupView>,
    index: int,
    name: Seq<char>,
)
    requires
        distinct_keys(fields),
        0 <= index < fields.len(),
        is_optional(fields[index].1, name),
        lookup_in(variables, name) is Absent,
    ensures
        TreeView::Table(resolved_fields(fields, variables)).field(fields[index].0) is None,
{
    lemma_field_of_resolved_document(fields, variables, index);
}

/// A field that is a placeholder of a variable that is set holds the
/// variable's value in the resolved document.
pub proof fn lemma_set_variable_field_is_substituted(
    fields: Seq<(Seq<char>, TreeView)>,
    variables: Map<Seq<char>, LookupView>,
    index: int,
    name: Seq<char>,
    value: Seq<char>,
)
    requires
        distinct_keys(fields),
        0 <= index < fields.len(),
        is_required(fields[index].1, name) || is_optional(fields[index].1, name),
        lookup_in(variables, name) == LookupView::Present(value),
    ensures
        TreeView::Table(resolved_fields(fields, variables)).field(fields[index].0) == Some(
            TreeView::String(value),
        ),
{
    lemma_field_of_resolved_document(fields, variables, index);
}

/// Where the failures of the fields before `index` end, those of the field
/// `index` begin.
pub open spec fn failures_offset(
    fields: Seq<(Seq<char>, TreeView)>,
    variables: Map<Seq<char>, LookupView>,
    index: int,
) -> int {
    field_failures(fields.take(index), variables).len() as int
}

/// The failures of a document begin with the failures of its first fields.
proof fn lemma_failures_of_first_fields(
    fields: Seq<(Seq<char>, TreeView)>,
    variables: Map<Seq<char>, LookupView>,
    count: int,
)
    requires
        0 <= count <= fields.len(),
    ensures
        failures_offset(fields, variables, count) <= field_failures(fields, variables).len(),
        field_failures(fields, variables).subrange(0, failures_offset(fields, variables, count))
            == field_failures(fields.take(count), variables),
    decreases fields.len(),
{
    if count == fields.len() {
        assert(fields.take(count) =~= fields);
    } else {
        let before = fields.drop_last();
        lemma_failures_of_first_fields(before, variables, count);
        assert(before.take(count) =~= fields.take(count));
    }
}

/// The failures of a document hold the failures of each field, those of an
/// earlier field before those of a later one.
pub proof fn lemma_failures_of_field_are_reported(
    fields: Seq<(Seq<char>, TreeView)>,
    variables: Map<Seq<char>, LookupView>,
    index: int,
)
    requires
        0 <= index < fields.len(),
    ensures
        failures_offset(fields, variables, index) + failures(fields[index].1, variables).len()
            == failures_offset(fields, variables, index + 1),
        failures_offset(fields, variables, index + 1) <= field_failures(fields, variables).len(),
        field_failures(fields, variables).subrange(
            failures_offset(fields, variables, index),
            failures_offset(fields, variables, index + 1),
        ) == failures(fields[index].1, variables),
        forall|later: int|
            index < later <= fields.len() ==> failures_offset(fields, variables, index + 1)
                <= #[trigger] failures_offset(fields, variables, later),
{
    let first = fields.take(index + 1);
    assert(first.drop_last() =~= fields.take(index));
    lemma_failures_of_first_fields(fields, variables, index + 1);
    assert(field_failures(fields, variables).subrange(
        failures_offset(fields, variables, index),
        failures_offset(fields, variables, index + 1),
    ) =~= field_failures(first, variables).subrange(
        failures_offset(fields, variables, index),
        failures_offset(fields, variables, index + 1),
    ));
    assert forall|later: int| index < later <= fields.len() implies failures_offset(
        fields,
        variables,
        index + 1,
    ) <= #[trigger] failures_offset(fields, variables, later) by {
        lemma_failures_of_first_fields(fields.take(later), variables, index + 1);
        assert(fields.take(later).take(index + 1) =~= first);
    }
}

/// Whether a value holds, at any depth, a required placeholder of the
/// variable `name`.
pub open spec fn requires_variable(tree: TreeView, name: Seq<char>) -> bool
    decreases tree,
{
    match tree {
        TreeView::String(text) => classify_spec(text) == PlaceholderView::Required(name),
        TreeView::Array(items) => exists|i: int|
            0 <= i < items.len() && requires_variable(#[trigger] items[i], name),
        TreeView::Table(fields) => exists|i: int|
            0 <= i < fields.len() && requires_variable((#[trigger] fields[i]).1, name),
        _ => false,
    }
}

/// An array holds a required placeholder where one of its items does.
pub proof fn lemma_requires_variable_in_array(items: Seq<TreeView>, name: Seq<char>)
    ensures
        requires_variable(TreeView::Array(items), name) <==> exists|i: int|
            0 <= i < items.len() && requires_variable(#[trigger] items[i], name),
{
    let tree = TreeView::Array(items);
    assert(decreases_to!(tree => tree->Array_0));
}

/// A table holds a required placeholder where the value of one of its fields
/// does.
pub proof fn lemma_requires_variable_in_table(fields: Seq<(Seq<char>, TreeView)>, name: Seq<char>)
    ensures
        requires_variable(TreeView::Table(fields), name) <==> exists|i: int|
            0 <= i < fields.len() && requires_variable((#[trigger] fields[i]).1, name),
{
    let tree = TreeView::Table(fields);
    assert(decreases_to!(tree => tree->Table_0));
}

/// The failures of an array hold the failures of each of its items.
proof fn lemma_failure_of_item_is_reported(
    items: Seq<TreeView>,
    variables: Map<Seq<char>, LookupView>,
    index: int,
    cause: CauseView,
)
    requires
        0 <= index < items.len(),
        failures(items[index], variables).contains(cause),
    ensures
        item_failures(items, variables).contains(cause),
    decreases items.len(),
{
    let before = item_failures(items.drop_last(), variables);
    let here = failures(items.last(), variables);
    if index == items.len() - 1 {
        let at = choose|at: int| 0 <= at < here.len() && here[at] == cause;
        assert((before + here)[before.len() + at] == cause);
    } else {
        lemma_failure_of_item_is_reported(items.drop_last(), variables, index, cause);
        let at = choose|at: int| 0 <= at < before.len() && before[at] == cause;
        assert((before + here)[at] == cause);
    }
}

/// The failures of a table hold the failures of each of its fields.
proof fn lemma_failure_of_field_is_reported(
    fields: Seq<(Seq<char>, TreeView)>,
    variables: Map<Seq<char>, LookupView>,
    index: int,
    cause: CauseView,
)
    requires
        0 <= index < fields.len(),
        failures(fields[index].1, variables).contains(cause),
    ensures
        field_failures(fields, variables).contains(cause),
    decreases fields.len(),
{
    let before = field_failures(fields.drop_last(), variables);
    let here = failures(fields.last().1, variables);
    if index == fields.len() - 1 {
        let at = choose|at: int| 0 <= at < here.len() && here[at] == cause;
        assert((before + here)[before.len() + at] == cause);
    } else {
        lemma_failure_of_field_is_reported(fields.drop_last(), variables, index, cause);
        let at = choose|at: int| 0 <= at < before.len() && before[at] == cause;
        assert((before + here)[at] == cause);
    }
}

/// A required placeholder whose variable is not set is among the failures of
/// every value that holds it, at whatever depth.
pub proof fn lemma_missing_variable_is_a_failure(
    tree: TreeView,
    variables: Map<Seq<char>, LookupView>,
    name: Seq<char>,
)
    requires
        requires_variable(tree, name),
        lookup_in(variables, name) is Absent,
    ensures
        failures(tree, variables).contains(CauseView::MissingVariable(name)),
    decreases tree,
{
    let cause = CauseView::MissingVariable(name);
    match tree {
        TreeView::String(text) => {
            assert(failures(tree, variables)[0] == cause);
        },
        TreeView::Array(items) => {
            let index = choose|i: int|
                0 <= i < items.len() && requires_variable(#[trigger] items[i], name);
            lemma_missing_variable_is_a_failure(items[index], variables, name);
            lemma_failure_of_item_is_reported(items, variables, index, cause);
        },
        TreeView::Table(fields) => {
            let index = choose|i: int|
                0 <= i < fields.len() && requires_variable((#[trigger] fields[i]).1, name);
            lemma_missing_variable_is_a_failure(fields[index].1, variables, name);
            lemma_failure_of_field_is_reported(fields, variables, index, cause);
        },
        _ => {},
    }
}

/// A document that holds, at whatever depth, a required placeholder whose
/// variable is not set fails, whatever else it holds, and the error names the
/// variable.
pub proof fn lemma_missing_variable_fails_the_document(
    fields: Seq<(Seq<char>, TreeView)>,
    variables: Map<Seq<char>, LookupView>,
    name: Seq<char>,
)
    requires
        requires_variable(TreeView::Table(fields), name),
        lookup_in(variables, name) is Absent,
    ensures
        document_outcome(fields, variables) matches Err(error) && error.causes().contains(
            CauseView::MissingVariable(name),
        ) && mentions(error.message(), name),
{
    let cause = CauseView::MissingVariable(name);
    let all = field_failures(fields, variables);
    lemma_missing_variable_is_a_failure(TreeView::Table(fields), variables, name);
    let at = choose|at: int| 0 <= at < all.len() && all[at] == cause;
    lemma_message_names_missing_variable(report(all), at, name);
}

/// A document with required placeholders of two variables that are not set
/// fails once: one error reports both, and its message names both.
pub proof fn lemma_missing_variables_are_reported_together(
    fields: Seq<(Seq<char>, TreeView)>,
    variables: Map<Seq<char>, LookupView>,
    first_name: Seq<char>,
    second_name: Seq<char>,
)
    requires
        first_name != second_name,
        requires_variable(TreeView::Table(fields), first_name),
        requires_variable(TreeView::Table(fields), second_name),
        lookup_in(variables, first_name) is Absent,
        lookup_in(variables, second_name) is Absent,
    ensures
        document_outcome(fields, variables) matches Err(ConfigErrorView::Multiple(causes))
            && causes.contains(CauseView::MissingVariable(first_name)) && causes.contains(
            CauseView::MissingVariable(second_name),
        ),
        document_outcome(fields, variables) matches Err(error) && mentions(
            error.message(),
            first_name,
        ) && mentions(error.message(), second_name),
{
    let all = field_failures(fields, variables);
    lemma_missing_variable_fails_the_document(fields, variables, first_name);
    lemma_missing_variable_fails_the_document(fields, variables, second_name);
    let i = choose|i: int| 0 <= i < all.len() && all[i] == CauseView::MissingVariable(first_name);
    let j = choose|j: int| 0 <= j < all.len() && all[j] == CauseView::MissingVariable(second_name);
}

/// Two fields of a document that are required placeholders of variables that
/// are not set are reported in the order of the fields.
pub proof fn lemma_missing_variables_are_reported_in_order(
    fields: Seq<(Seq<char>, TreeView)>,
    variables: Map<Seq<char>, LookupView>,
    first: int,
    second: int,
    first_name: Seq<char>,
    second_name: Seq<char>,
)
    requires
        0 <= first < second < fields.len(),
        is_required(fields[first].1, first_name),
        is_required(fields[second].1, second_name),
        lookup_in(variables, first_name) is Absent,
        lookup_in(variables, second_name) is Absent,
    ensures
        document_outcome(fields, variables) matches Err(ConfigErrorView::Multiple(causes))
            && exists|i: int, j: int|
            0 <= i < j < causes.len() && causes[i] == CauseView::MissingVariable(first_name)
                && causes[j] == CauseView::MissingVariable(second_name),
{
    let all = field_failures(fields, variables);
    let i = failures_offset(fields, variables, first);
    let j = failures_offset(fields, variables, second);
    lemma_failures_of_field_are_reported(fields, variables, first);
    lemma_failures_of_field_are_reported(fields, variables, second);
    assert(all.subrange(i, i + 1)[0] == CauseView::MissingVariable(first_name));
    assert(all.subrange(j, j + 1)[0] == CauseView::MissingVariable(second_name));
    lemma_report_holds_failures(all);
}

/// Resolving a document as a text holds it gives such a document again.
pub proof fn lemma_resolved_document_is_well_formed(
    fields: Seq<(Seq<char>, TreeView)>,
    variables: Map<Seq<char>, LookupView>,
)
    requires
        TreeView::Table(fields).well_formed(),
    ensures
        document_outcome(fields, variables) matches Ok(tree) ==> tree.well_formed(),
        document_outcome(fields, variables) matches Err(error) ==> error.well_formed()
            && error.causes() == field_failures(fields, variables),
{
    lemma_resolved_fields_are_well_formed(fields, variables);
    if field_failures(fields, variables).len() > 0 {
    }
}

} // verus!
