//! The values of a configuration document.

use vstd::prelude::*;

verus! {

/// A value of a configuration document.
///
/// A table keeps its fields in a fixed order; a document that was read from
/// text holds them in ascending order of their keys.
#[derive(Debug, PartialEq, Eq)]
pub enum ValueTree {
    String(String),
    Integer(i64),
    /// A floating-point number, held as the bits of its IEEE 754 binary64 form.
    Float(u64),
    Boolean(bool),
    /// A date, a time or both, held as written in RFC 3339.
    Datetime(String),
    Array(Vec<ValueTree>),
    Table(Vec<(String, ValueTree)>),
}

/// Model of a [`ValueTree`].
pub enum TreeView {
    String(Seq<char>),
    Integer(i64),
    Float(u64),
    Boolean(bool),
    Datetime(Seq<char>),
    Array(Seq<TreeView>),
    Table(Seq<(Seq<char>, TreeView)>),
}

/// The models of the items of an array, in order.
pub open spec fn item_views(items: Seq<ValueTree>) -> Seq<TreeView>
    decreases items,
{
    Seq::new(
        items.len(),
        |i: int|
            if 0 <= i < items.len() {
                items[i]@
            } else {
                arbitrary()
            },
    )
}

/// The keys of the fields of a table with the models of their values, in
/// order.
pub open spec fn field_views(fields: Seq<(String, ValueTree)>) -> Seq<(Seq<char>, TreeView)>
    decreases fields,
{
    Seq::new(
        fields.len(),
        |i: int|
            if 0 <= i < fields.len() {
                (fields[i].0@, fields[i].1@)
            } else {
                arbitrary()
            },
    )
}

/// The value of the last of the fields that has the key `key`.
pub open spec fn field_value(fields: Seq<(Seq<char>, TreeView)>, key: Seq<char>) -> Option<
    TreeView,
>
    decreases fields.len(),
{
    if fields.len() == 0 {
        None
    } else if fields.last().0 == key {
        Some(fields.last().1)
    } else {
        field_value(fields.drop_last(), key)
    }
}

/// No two of the fields have the same key.
pub open spec fn distinct_keys(fields: Seq<(Seq<char>, TreeView)>) -> bool {
    forall|i: int, j: int| 0 <= i < j < fields.len() ==> fields[i].0 != fields[j].0
}

impl TreeView {
    /// The value of the field `key` of a table; `None` where the table has no
    /// such field, and for a value that is no table.
    pub open spec fn field(self, key: Seq<char>) -> Option<TreeView> {
        match self {
            TreeView::Table(fields) => field_value(fields, key),
            _ => None,
        }
    }

    /// A value as a document holds it: in every table of it, no two fields
    /// have the same key.
    pub open spec fn well_formed(self) -> bool
        decreases self,
    {
        match self {
            TreeView::Array(items) => forall|i: int|
                0 <= i < items.len() ==> (#[trigger] items[i]).well_formed(),
            TreeView::Table(fields) => distinct_keys(fields) && forall|i: int|
                0 <= i < fields.len() ==> (#[trigger] fields[i]).1.well_formed(),
            _ => true,
        }
    }
}

/// An array is as a document holds it where each of its items is.
pub proof fn lemma_well_formed_array(items: Seq<TreeView>)
    ensures
        TreeView::Array(items).well_formed() <==> forall|i: int|
            0 <= i < items.len() ==> (#[trigger] items[i]).well_formed(),
{
    let tree = TreeView::Array(items);
    assert(decreases_to!(tree => tree->Array_0));
}

/// A table is as a document holds it where no two of its fields have the
/// same key and the value of each field is as a document holds it.
pub proof fn lemma_well_formed_table(fields: Seq<(Seq<char>, TreeView)>)
    ensures
        TreeView::Table(fields).well_formed() <==> distinct_keys(fields) && forall|i: int|
            0 <= i < fields.len() ==> (#[trigger] fields[i]).1.well_formed(),
{
    let tree = TreeView::Table(fields);
    assert(decreases_to!(tree => tree->Table_0));
}

impl View for ValueTree {
    type V = TreeView;

    open spec fn view(&self) -> TreeView
        decreases self,
    {
        match self {
            ValueTree::String(text) => TreeView::String(text@),
            ValueTree::Integer(number) => TreeView::Integer(*number),
            ValueTree::Float(bits) => TreeView::Float(*bits),
            ValueTree::Boolean(flag) => TreeView::Boolean(*flag),
            ValueTree::Datetime(text) => TreeView::Datetime(text@),
            ValueTree::Array(items) => TreeView::Array(item_views(items@)),
            ValueTree::Table(fields) => TreeView::Table(field_views(fields@)),
        }
    }
}

impl ValueTree {
    /// The value of the field `key` of a table; `None` where the table has no
    /// such field, and for a value that is no table.
    pub fn get(&self, key: &str) -> (found: Option<&ValueTree>)
        ensures
            match found {
                Some(value) => self@.field(key@) == Some(value@),
                None => self@.field(key@) is None,
            },
    {
        match self {
            ValueTree::Table(fields) => {
                let wanted = key.to_owned();
                let ghost views = field_views(fields@);
                let mut i: usize = fields.len();
                assert(views.take(i as int) =~= views);
                while i > 0
                    invariant
                        i <= fields.len(),
                        wanted@ == key@,
                        *self == ValueTree::Table(*fields),
                        views == field_views(fields@),
                        field_value(views, key@) == field_value(views.take(i as int), key@),
                    decreases i,
                {
                    i -= 1;
                    assert(views.take(i + 1).drop_last() =~= views.take(i as int));
                    if fields[i].0 == wanted {
                        return Some(&fields[i].1);
                    }
                }
                None
            },
            _ => None,
        }
    }
}

impl Clone for ValueTree {
    fn clone(&self) -> (copy: ValueTree)
        ensures
            copy@ == self@,
        decreases self,
    {
        match self {
            ValueTree::String(text) => ValueTree::String(text.clone()),
            ValueTree::Integer(number) => ValueTree::Integer(*number),
            ValueTree::Float(bits) => ValueTree::Float(*bits),
            ValueTree::Boolean(flag) => ValueTree::Boolean(*flag),
            ValueTree::Datetime(text) => ValueTree::Datetime(text.clone()),
            ValueTree::Array(items) => {
                let mut copies: Vec<ValueTree> = Vec::new();
                let mut i: usize = 0;
                while i < items.len()
                    invariant
                        i <= items.len(),
                        *self == ValueTree::Array(*items),
                        item_views(copies@) == item_views(items@.take(i as int)),
                    decreases items.len() - i,
                {
                    assert(decreases_to!(self => self->Array_0));
                    let ghost before = item_views(copies@);
                    let copy = items[i].clone();
                    copies.push(copy);
                    assert(item_views(items@.take(i + 1)) =~= before.push(items@[i as int]@));
                    i += 1;
                }
                assert(items@.take(i as int) =~= items@);
                ValueTree::Array(copies)
            },
            ValueTree::Table(fields) => {
                let mut copies: Vec<(String, ValueTree)> = Vec::new();
                let mut i: usize = 0;
                while i < fields.len()
                    invariant
                        i <= fields.len(),
                        *self == ValueTree::Table(*fields),
                        field_views(copies@) == field_views(fields@.take(i as int)),
                    decreases fields.len() - i,
                {
                    assert(decreases_to!(self => self->Table_0));
                    let ghost before = field_views(copies@);
                    let copy = (fields[i].0.clone(), fields[i].1.clone());
                    copies.push(copy);
                    assert(field_views(fields@.take(i + 1)) =~= before.push(
                        (fields@[i as int].0@, fields@[i as int].1@),
                    ));
                    i += 1;
                }
                assert(fields@.take(i as int) =~= fields@);
                ValueTree::Table(copies)
            },
        }
    }
}

} // verus!
