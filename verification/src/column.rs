//! Columnar primitives, held behind trusted wrappers.
//!
//! The columnar array library (arrow) supplies the typed builders, the
//! finished immutable arrays, and the schema objects. Each builder or array
//! that the engine's logic fills or reads lives in a private field of a
//! struct here; its contents are named by an uninterpreted spec function,
//! and each method the logic calls carries a contract over that name.

use arrow::array::Array;
use arrow::array::AsArray;
use arrow::array::GenericStringBuilder;
use arrow::array::ListArray;
use arrow::array::ListBuilder;
use arrow::array::StringArray;
use crate::attribute::AttributeType;
use std::sync::Arc;
use vstd::prelude::*;
use vstd::utf8::encode_utf8;

verus! {

/// A builder for a UTF-8 scalar column.
#[verifier::external_body]
pub struct Utf8ColumnBuilder {
    inner: GenericStringBuilder<i32>,
}

/// The cells accumulated in a UTF-8 scalar column builder, in append order;
/// `None` is a null cell.
pub uninterp spec fn utf8_builder_cells(b: Utf8ColumnBuilder) -> Seq<Option<Seq<char>>>;

/// The cumulative UTF-8 byte length of the values appended since the last
/// finish. The builder records cell boundaries as 32-bit byte offsets, so
/// this total is capped at `i32::MAX`.
pub uninterp spec fn utf8_builder_bytes(b: Utf8ColumnBuilder) -> int;

impl Utf8ColumnBuilder {
    /// Relies on arrow's `GenericStringBuilder::new`: a fresh builder holds
    /// no cells.
    #[verifier::external_body]
    pub(crate) fn new() -> (r: Self)
        ensures
            utf8_builder_cells(r) == Seq::<Option<Seq<char>>>::empty(),
            utf8_builder_bytes(r) == 0,
    {
        Utf8ColumnBuilder { inner: GenericStringBuilder::<i32>::new() }
    }

    /// Relies on arrow's `GenericStringBuilder::append_value`: appends one
    /// non-null cell holding the given text. The method panics once the
    /// cumulative value bytes overflow the builder's 32-bit offsets, so the
    /// budget is a precondition.
    #[verifier::external_body]
    pub(crate) fn append_value(&mut self, v: &str)
        requires
            utf8_builder_bytes(*old(self)) + encode_utf8(v@).len() <= i32::MAX,
        ensures
            utf8_builder_cells(*final(self)) == utf8_builder_cells(*old(self)).push(
                Some(v@),
            ),
            utf8_builder_bytes(*final(self)) == utf8_builder_bytes(*old(self))
                + encode_utf8(v@).len(),
    {
        self.inner.append_value(v);
    }

    /// Relies on arrow's `GenericStringBuilder::append_null`: appends one
    /// null cell.
    #[verifier::external_body]
    pub(crate) fn append_null(&mut self)
        ensures
            utf8_builder_cells(*final(self)) == utf8_builder_cells(*old(self)).push(
                None,
            ),
            utf8_builder_bytes(*final(self)) == utf8_builder_bytes(*old(self)),
    {
        self.inner.append_null();
    }

    /// Relies on arrow's `GenericStringBuilder::finish`: yields an array of
    /// exactly the accumulated cells and resets the builder to empty.
    #[verifier::external_body]
    pub(crate) fn finish(&mut self) -> (r: Utf8Column)
        ensures
            utf8_column_cells(r) == utf8_builder_cells(*old(self)),
            utf8_builder_cells(*final(self)) == Seq::<Option<Seq<char>>>::empty(),
            utf8_builder_bytes(*final(self)) == 0,
    {
        Utf8Column { inner: self.inner.finish() }
    }
}

/// A finished, immutable UTF-8 scalar column.
#[verifier::external_body]
pub struct Utf8Column {
    inner: StringArray,
}

/// The cells of a finished UTF-8 scalar column; `None` is a null cell.
pub uninterp spec fn utf8_column_cells(a: Utf8Column) -> Seq<Option<Seq<char>>>;

impl Utf8Column {
    /// Relies on arrow's `Array::len`: the number of cells.
    #[verifier::external_body]
    pub fn len(&self) -> (r: usize)
        ensures
            r == utf8_column_cells(*self).len(),
    {
        self.inner.len()
    }

    /// Relies on arrow's `Array::is_null`.
    #[verifier::external_body]
    pub fn is_null(&self, i: usize) -> (r: bool)
        requires
            i < utf8_column_cells(*self).len(),
        ensures
            r == (utf8_column_cells(*self)[i as int] is None),
    {
        self.inner.is_null(i)
    }

    /// Relies on arrow's `StringArray::value`: the text of a non-null cell.
    #[verifier::external_body]
    pub fn value(&self, i: usize) -> (r: String)
        requires
            i < utf8_column_cells(*self).len(),
            utf8_column_cells(*self)[i as int] is Some,
        ensures
            utf8_column_cells(*self)[i as int] == Some(r@),
    {
        self.inner.value(i).to_string()
    }
}

/// A builder for a list-of-UTF-8 column. Child strings are staged with
/// `append_child` and closed into one list cell with `close_row`.
#[verifier::external_body]
pub struct ListColumnBuilder {
    inner: ListBuilder<GenericStringBuilder<i32>>,
}

/// The closed list cells accumulated in a list column builder, in append
/// order; `None` is a list-level null cell.
pub uninterp spec fn list_builder_cells(b: ListColumnBuilder) -> Seq<Option<Seq<Seq<char>>>>;

/// The child strings staged since the last closed cell.
pub uninterp spec fn list_builder_pending(b: ListColumnBuilder) -> Seq<Seq<char>>;

/// The cumulative UTF-8 byte length of every child string appended since
/// the last finish (over all rows, closed or staged); capped at `i32::MAX`
/// by the child builder's 32-bit offsets.
pub uninterp spec fn list_builder_child_bytes(b: ListColumnBuilder) -> int;

/// The number of child strings appended since the last finish; capped at
/// `i32::MAX` by the list's 32-bit offsets.
pub uninterp spec fn list_builder_child_count(b: ListColumnBuilder) -> int;

impl ListColumnBuilder {
    /// Relies on arrow's `ListBuilder::new`: a fresh builder holds no cells
    /// and no staged children.
    #[verifier::external_body]
    pub(crate) fn new() -> (r: Self)
        ensures
            list_builder_cells(r) == Seq::<Option<Seq<Seq<char>>>>::empty(),
            list_builder_pending(r) == Seq::<Seq<char>>::empty(),
            list_builder_child_bytes(r) == 0,
            list_builder_child_count(r) == 0,
    {
        ListColumnBuilder {
            inner: ListBuilder::new(GenericStringBuilder::<i32>::new()),
        }
    }

    /// Relies on arrow's `GenericStringBuilder::append_value` on the child
    /// builder reached through `ListBuilder::values`: stages one child
    /// string for the cell under construction. The child builder panics
    /// once its cumulative bytes overflow its 32-bit offsets, and the list
    /// cannot close a row whose child count overflows its own, so both
    /// budgets are preconditions.
    #[verifier::external_body]
    pub(crate) fn append_child(&mut self, v: &str)
        requires
            list_builder_child_bytes(*old(self)) + encode_utf8(v@).len() <= i32::MAX,
            list_builder_child_count(*old(self)) + 1 <= i32::MAX,
        ensures
            list_builder_cells(*final(self)) == list_builder_cells(*old(self)),
            list_builder_pending(*final(self)) == list_builder_pending(*old(self)).push(
                v@,
            ),
            list_builder_child_bytes(*final(self)) == list_builder_child_bytes(*old(self))
                + encode_utf8(v@).len(),
            list_builder_child_count(*final(self)) == list_builder_child_count(*old(self))
                + 1,
    {
        self.inner.values().append_value(v);
    }

    /// Relies on arrow's `ListBuilder::append`: closes the staged children
    /// into one cell — a present list when `present` (possibly empty,
    /// distinct from null), a list-level null otherwise. The method panics
    /// when the children appended since the last finish overflow the list's
    /// 32-bit offsets, so their count is a precondition.
    #[verifier::external_body]
    pub(crate) fn close_row(&mut self, present: bool)
        requires
            list_builder_child_count(*old(self)) <= i32::MAX,
        ensures
            list_builder_cells(*final(self)) == list_builder_cells(*old(self)).push(
                if present {
                    Some(list_builder_pending(*old(self)))
                } else {
                    None
                },
            ),
            list_builder_pending(*final(self)) == Seq::<Seq<char>>::empty(),
            list_builder_child_bytes(*final(self)) == list_builder_child_bytes(*old(self)),
            list_builder_child_count(*final(self)) == list_builder_child_count(*old(self)),
    {
        self.inner.append(present);
    }

    /// Relies on arrow's `ListBuilder::finish`: yields an array of exactly
    /// the closed cells and resets the builder to empty.
    #[verifier::external_body]
    pub(crate) fn finish(&mut self) -> (r: ListColumn)
        requires
            list_builder_pending(*old(self)) == Seq::<Seq<char>>::empty(),
        ensures
            list_column_cells(r) == list_builder_cells(*old(self)),
            list_builder_cells(*final(self)) == Seq::<Option<Seq<Seq<char>>>>::empty(),
            list_builder_pending(*final(self)) == Seq::<Seq<char>>::empty(),
            list_builder_child_bytes(*final(self)) == 0,
            list_builder_child_count(*final(self)) == 0,
    {
        ListColumn { inner: self.inner.finish() }
    }
}

/// A finished, immutable list-of-UTF-8 column.
#[verifier::external_body]
pub struct ListColumn {
    inner: ListArray,
}

/// The cells of a finished list column; `None` is a list-level null.
pub uninterp spec fn list_column_cells(a: ListColumn) -> Seq<Option<Seq<Seq<char>>>>;

impl ListColumn {
    /// Relies on arrow's `Array::len`: the number of list cells.
    #[verifier::external_body]
    pub fn len(&self) -> (r: usize)
        ensures
            r == list_column_cells(*self).len(),
    {
        self.inner.len()
    }

    /// Relies on arrow's `Array::is_null`.
    #[verifier::external_body]
    pub fn is_null(&self, i: usize) -> (r: bool)
        requires
            i < list_column_cells(*self).len(),
        ensures
            r == (list_column_cells(*self)[i as int] is None),
    {
        self.inner.is_null(i)
    }

    /// Relies on arrow's `ListArray::value`: the child count of a present
    /// list cell.
    #[verifier::external_body]
    pub fn value_len(&self, i: usize) -> (r: usize)
        requires
            i < list_column_cells(*self).len(),
            list_column_cells(*self)[i as int] is Some,
        ensures
            r == list_column_cells(*self)[i as int]->0.len(),
    {
        self.inner.value(i).len()
    }

    /// Relies on arrow's `ListArray::value` and `StringArray::value`: one
    /// child string of a present list cell.
    #[verifier::external_body]
    pub fn value_item(&self, i: usize, j: usize) -> (r: String)
        requires
            i < list_column_cells(*self).len(),
            list_column_cells(*self)[i as int] is Some,
            j < list_column_cells(*self)[i as int]->0.len(),
        ensures
            r@ == list_column_cells(*self)[i as int]->0[j as int],
    {
        let row = self.inner.value(i);
        row.as_string::<i32>().value(j).to_string()
    }
}

/// The attribute type a columnar type encodes: the UTF-8 scalar type for
/// `String`, the list-of-UTF-8 type for `Array`, nothing for any other.
pub uninterp spec fn data_type_kind(d: arrow::datatypes::DataType) -> Option<AttributeType>;

/// What a schema field holds: its name, the attribute type its columnar
/// type encodes (if any), and its nullability.
pub uninterp spec fn field_model(f: arrow::datatypes::Field) -> (
    Seq<char>,
    Option<AttributeType>,
    bool,
);

/// The fields of a schema, in order.
pub uninterp spec fn schema_fields(s: arrow::datatypes::Schema) -> Seq<
    (Seq<char>, Option<AttributeType>, bool),
>;

/// Relies on arrow's `DataType::Utf8`: the UTF-8 scalar column type.
#[verifier::external_body]
pub(crate) fn utf8_data_type() -> (r: arrow::datatypes::DataType)
    ensures
        data_type_kind(r) == Some(AttributeType::String),
{
    arrow::datatypes::DataType::Utf8
}

/// Relies on arrow's `DataType::List` with a nullable UTF-8 child field
/// named "item" (arrow's conventional list item name): the list-of-UTF-8
/// column type.
#[verifier::external_body]
pub(crate) fn list_utf8_data_type() -> (r: arrow::datatypes::DataType)
    ensures
        data_type_kind(r) == Some(AttributeType::Array),
{
    arrow::datatypes::DataType::List(Arc::new(arrow::datatypes::Field::new(
        "item",
        arrow::datatypes::DataType::Utf8,
        true,
    )))
}

/// Relies on arrow's `Field::new`: a named, typed schema field holding
/// exactly the given name, type and nullability.
#[verifier::external_body]
pub(crate) fn make_field(
    name: &str,
    data_type: arrow::datatypes::DataType,
    nullable: bool,
) -> (r: arrow::datatypes::Field)
    ensures
        field_model(r) == (name@, data_type_kind(data_type), nullable),
{
    arrow::datatypes::Field::new(name, data_type, nullable)
}

/// Relies on arrow's `Schema::new`: a schema over exactly the given
/// fields, in order.
#[verifier::external_body]
pub(crate) fn make_schema(fields: Vec<arrow::datatypes::Field>) -> (r:
    arrow::datatypes::Schema)
    ensures
        schema_fields(r) == Seq::new(fields@.len(), |i: int| field_model(fields@[i])),
{
    arrow::datatypes::Schema::new(fields)
}

#[verifier::external_type_specification]
#[verifier::external_body]
pub struct ExDataType(arrow::datatypes::DataType);

#[verifier::external_type_specification]
#[verifier::external_body]
pub struct ExField(arrow::datatypes::Field);

#[verifier::external_type_specification]
#[verifier::external_body]
pub struct ExSchema(arrow::datatypes::Schema);

} // verus!
