//! Attribute harmonization for annotation formats with open-ended,
//! per-record key/value attributes (GTF/GFF-style records).
//!
//! Because the key set and value shape vary record to record, the column
//! schema is derived by a dedicated inference pass: an [`AttributeScanner`]
//! observes the whole stream once, fixing each name's type at first sight
//! ("first type wins", a named policy: later conflicting observations are
//! ignored, not reported), and `collect` freezes the name-sorted schema used
//! by all subsequent builders of the session.

use crate::column::list_builder_cells;
use crate::column::list_builder_pending;
use crate::column::list_utf8_data_type;
use crate::column::make_field;
use crate::column::utf8_builder_cells;
use crate::column::utf8_column_cells;
use crate::column::list_column_cells;
use crate::column::utf8_data_type;
use crate::column::ListColumn;
use crate::column::ListColumnBuilder;
use crate::column::Utf8Column;
use crate::column::Utf8ColumnBuilder;
use crate::error::EngineError;
use crate::order::char_seq_lt;
use crate::order::compare_names;
use crate::order::lemma_char_seq_lt_irrefl;
use crate::order::lemma_char_seq_lt_trans;
use crate::order::lemma_lt_chain;
use crate::order::NameOrder;
use crate::column::data_type_kind;
use crate::column::field_model;
use crate::column::list_builder_child_bytes;
use crate::column::list_builder_child_count;
use crate::column::utf8_builder_bytes;
use vstd::pervasive::arbitrary;
use vstd::prelude::*;
use vstd::string::StrSliceExecFns;
use vstd::utf8::encode_utf8;

verus! {

/// The closed set of attribute value kinds. `String` maps to a UTF-8 scalar
/// column, `Array` to a list-of-UTF-8 column.
#[derive(Debug, Clone, Copy, Hash, PartialEq, Eq, Structural)]
pub enum AttributeType {
    String,
    Array,
}

/// The type tag under which an attribute type is reported by
/// [`AttributeScanner::collect`].
pub open spec fn type_tag(t: AttributeType) -> Seq<char> {
    match t {
        AttributeType::String => "String"@,
        AttributeType::Array => "Array"@,
    }
}

impl AttributeType {
    /// The columnar type to allocate for this attribute type: UTF-8 for
    /// `String`, list-of-UTF-8 (child field "item") for `Array`. Total over
    /// the closed enum.
    pub fn arrow_type(&self) -> (r: arrow::datatypes::DataType)
        ensures
            data_type_kind(r) == Some(*self),
    {
        match self {
            AttributeType::String => utf8_data_type(),
            AttributeType::Array => list_utf8_data_type(),
        }
    }
}

/// ASCII lowercase folding of a Unicode scalar value.
pub open spec fn lower_u32(x: u32) -> u32 {
    if 65 <= x <= 90 {
        (x + 32) as u32
    } else {
        x
    }
}

/// Case-insensitive (ASCII folding) equality of two character sequences.
pub open spec fn lower_eq(a: Seq<char>, b: Seq<char>) -> bool {
    &&& a.len() == b.len()
    &&& forall|i: int| 0 <= i < a.len() ==> lower_u32(a[i] as u32) == lower_u32(b[i] as u32)
}

/// Whether `s` equals `tag` up to ASCII case.
fn tag_matches(s: &str, tag: &str) -> (r: bool)
    ensures
        r == lower_eq(s@, tag@),
{
    let slen = s.unicode_len();
    let tlen = tag.unicode_len();
    if slen != tlen {
        return false;
    }
    let mut i: usize = 0;
    while i < slen
        invariant
            i <= slen,
            slen == s@.len(),
            slen == tag@.len(),
            forall|k: int| 0 <= k < i ==> lower_u32(s@[k] as u32) == lower_u32(tag@[k] as u32),
        decreases slen - i,
    {
        let a = s.get_char(i) as u32;
        let b = tag.get_char(i) as u32;
        let la = if 65 <= a && a <= 90 {
            a + 32
        } else {
            a
        };
        let lb = if 65 <= b && b <= 90 {
            b + 32
        } else {
            b
        };
        if la != lb {
            return false;
        }
        i += 1;
    }
    true
}

/// An attribute definition: an immutable (name, type) pair. Uniquely keyed
/// by name in a collected schema.
#[derive(Debug, Clone, Hash, PartialEq, Eq)]
pub struct AttributeDef {
    pub name: String,
    pub ty: AttributeType,
}

impl AttributeDef {
    /// Constructs a definition from a raw (name, type-tag) pair, the
    /// validation boundary for external schema configuration. Only the tags
    /// "string" and "array" are accepted, case-insensitively; any other tag
    /// fails with `InvalidInput` carrying the rejected tag.
    pub fn new(name: String, ty: &str) -> (r: Result<AttributeDef, EngineError>)
        ensures
            r is Ok <==> (lower_eq(ty@, "string"@) || lower_eq(ty@, "array"@)),
            r matches Ok(d) ==> d.name@ == name@ && (lower_eq(ty@, "string"@)
                ==> d.ty == AttributeType::String) && (lower_eq(ty@, "array"@)
                ==> d.ty == AttributeType::Array),
            r matches Err(e) ==> e matches EngineError::InvalidInput(t) && t@ == ty@,
    {
        proof {
            reveal_strlit("string");
            reveal_strlit("array");
            assert("string"@.len() == 6);
            assert("array"@.len() == 5);
        }
        if tag_matches(ty, "string") {
            Ok(AttributeDef { name, ty: AttributeType::String })
        } else if tag_matches(ty, "array") {
            Ok(AttributeDef { name, ty: AttributeType::Array })
        } else {
            Err(EngineError::InvalidInput(ty.to_owned()))
        }
    }

    /// The column schema field for this definition: its name, its mapped
    /// columnar type, always nullable (an absent attribute becomes null,
    /// never an error).
    pub fn get_arrow_field(&self) -> (r: arrow::datatypes::Field)
        ensures
            field_model(r) == (self.name@, Some(self.ty), true),
    {
        make_field(self.name.as_str(), self.ty.arrow_type(), true)
    }
}

/// A harmonized attribute value: a single text or an ordered sequence of
/// texts.
#[derive(Debug, Clone, PartialEq, Eq)]
pub enum AttributeValue {
    String(String),
    Array(Vec<String>),
}

impl AttributeValue {
    /// The kind of this value.
    pub open spec fn kind(&self) -> AttributeType {
        match self {
            AttributeValue::String(_) => AttributeType::String,
            AttributeValue::Array(_) => AttributeType::Array,
        }
    }

    /// The text of a single-valued attribute.
    pub open spec fn text(&self) -> Seq<char> {
        match self {
            AttributeValue::String(s) => s@,
            AttributeValue::Array(_) => arbitrary(),
        }
    }

    /// The elements of a multi-valued attribute.
    pub open spec fn items(&self) -> Seq<Seq<char>> {
        match self {
            AttributeValue::Array(a) => a.deep_view(),
            AttributeValue::String(_) => arbitrary(),
        }
    }

    /// The kind of this value, as executable code.
    pub fn kind_of(&self) -> (r: AttributeType)
        ensures
            r == self.kind(),
    {
        match self {
            AttributeValue::String(_) => AttributeType::String,
            AttributeValue::Array(_) => AttributeType::Array,
        }
    }
}

/// A per-column accumulator wrapping exactly one columnar builder whose
/// variant matches the column's declared attribute type.
pub enum AttributeBuilder {
    String(Utf8ColumnBuilder),
    Array(ListColumnBuilder),
}

/// A finished attribute column.
pub enum AttributeColumn {
    String(Utf8Column),
    Array(ListColumn),
}

/// The cumulative UTF-8 byte length of a sequence of texts.
pub open spec fn items_bytes(items: Seq<Seq<char>>) -> int
    decreases items.len(),
{
    if items.len() == 0 {
        0
    } else {
        items_bytes(items.drop_last()) + encode_utf8(items.last()).len()
    }
}

proof fn lemma_items_bytes_take(items: Seq<Seq<char>>, j: int)
    requires
        0 <= j < items.len(),
    ensures
        items_bytes(items.take(j + 1)) == items_bytes(items.take(j)) + encode_utf8(
            items[j],
        ).len(),
        items_bytes(items.take(j + 1)) <= items_bytes(items),
    decreases items.len(),
{
    assert(items.take(j + 1).drop_last() =~= items.take(j));
    assert(items.take(j + 1).last() == items[j]);
    if j + 1 == items.len() {
        assert(items.take(j + 1) =~= items);
    } else {
        assert(items.drop_last().take(j + 1) =~= items.take(j + 1));
        assert(items.drop_last().take(j) =~= items.take(j));
        lemma_items_bytes_take(items.drop_last(), j);
    }
}

impl AttributeBuilder {
    /// The attribute type this builder accepts.
    pub open spec fn kind(&self) -> AttributeType {
        match self {
            AttributeBuilder::String(_) => AttributeType::String,
            AttributeBuilder::Array(_) => AttributeType::Array,
        }
    }

    /// Between appends, a list builder holds no half-built cell, and its
    /// child count stays within the list's 32-bit offsets.
    pub open spec fn wf(&self) -> bool {
        match self {
            AttributeBuilder::Array(b) => list_builder_pending(*b) == Seq::<Seq<char>>::empty()
                && list_builder_child_count(*b) <= i32::MAX,
            AttributeBuilder::String(_) => true,
        }
    }

    /// Whether the builder's byte and child budgets (the columnar format's
    /// 32-bit offsets) admit this value; always true of a mismatched value,
    /// which is rejected before the builder is touched.
    pub open spec fn fits(&self, value: &AttributeValue) -> bool {
        match self {
            AttributeBuilder::String(b) => match value {
                AttributeValue::String(s) => utf8_builder_bytes(*b) + encode_utf8(s@).len()
                    <= i32::MAX,
                AttributeValue::Array(_) => true,
            },
            AttributeBuilder::Array(b) => match value {
                AttributeValue::Array(items) => list_builder_child_bytes(*b) + items_bytes(
                    items.deep_view(),
                ) <= i32::MAX && list_builder_child_count(*b) + items@.len() <= i32::MAX,
                AttributeValue::String(_) => true,
            },
        }
    }

    /// The number of cells appended so far.
    pub open spec fn num_cells(&self) -> nat {
        match self {
            AttributeBuilder::String(b) => utf8_builder_cells(*b).len(),
            AttributeBuilder::Array(b) => list_builder_cells(*b).len(),
        }
    }

    /// The cells of a scalar builder.
    pub open spec fn scalar_cells(&self) -> Seq<Option<Seq<char>>> {
        match self {
            AttributeBuilder::String(b) => utf8_builder_cells(*b),
            AttributeBuilder::Array(_) => arbitrary(),
        }
    }

    /// The cells of a list builder.
    pub open spec fn list_cells(&self) -> Seq<Option<Seq<Seq<char>>>> {
        match self {
            AttributeBuilder::Array(b) => list_builder_cells(*b),
            AttributeBuilder::String(_) => arbitrary(),
        }
    }

    /// A fresh, empty builder for the given attribute type.
    pub fn new(attr_type: &AttributeType) -> (r: Self)
        ensures
            r.wf(),
            r.kind() == *attr_type,
            r.num_cells() == 0,
    {
        match attr_type {
            AttributeType::String => AttributeBuilder::String(Utf8ColumnBuilder::new()),
            AttributeType::Array => AttributeBuilder::Array(ListColumnBuilder::new()),
        }
    }

    /// Appends a null cell: for a scalar column a null scalar, for a list
    /// column a list-level null (an absent list, distinguishable downstream
    /// from a present empty list).
    pub fn append_null(&mut self)
        requires
            old(self).wf(),
        ensures
            final(self).wf(),
            final(self).kind() == old(self).kind(),
            final(self).num_cells() == old(self).num_cells() + 1,
            old(self).kind() == AttributeType::String ==> final(self).scalar_cells()
                == old(self).scalar_cells().push(None),
            old(self).kind() == AttributeType::Array ==> final(self).list_cells()
                == old(self).list_cells().push(None),
    {
        match self {
            AttributeBuilder::String(b) => b.append_null(),
            AttributeBuilder::Array(b) => b.close_row(false),
        }
    }

    /// Appends a typed value. The value's variant must match the builder's:
    /// on a mismatch the append fails with `TypeMismatch` naming the
    /// expected and received kinds, and the builder is left exactly as it
    /// was (no partial corruption, no silent coercion). A value that would
    /// overflow the column's 32-bit offsets is left out by precondition:
    /// the columnar builder would abort on it.
    pub fn append_value(&mut self, value: &AttributeValue) -> (r: Result<(), EngineError>)
        requires
            old(self).wf(),
            old(self).fits(value),
        ensures
            final(self).wf(),
            final(self).kind() == old(self).kind(),
            r is Ok <==> value.kind() == old(self).kind(),
            r is Ok ==> final(self).num_cells() == old(self).num_cells() + 1,
            r is Err ==> *final(self) == *old(self),
            r matches Err(e) ==> e matches EngineError::TypeMismatch { expected, found }
                && expected == old(self).kind() && found == value.kind(),
            old(self).kind() == AttributeType::String && value.kind() == AttributeType::String
                ==> final(self).scalar_cells() == old(self).scalar_cells().push(
                Some(value.text()),
            ),
            old(self).kind() == AttributeType::Array && value.kind() == AttributeType::Array
                ==> final(self).list_cells() == old(self).list_cells().push(
                Some(value.items()),
            ),
    {
        match self {
            AttributeBuilder::String(b) => match value {
                AttributeValue::String(s) => {
                    b.append_value(s.as_str());
                    Ok(())
                },
                AttributeValue::Array(_) => Err(
                    EngineError::TypeMismatch {
                        expected: AttributeType::String,
                        found: AttributeType::Array,
                    },
                ),
            },
            AttributeBuilder::Array(b) => match value {
                AttributeValue::Array(items) => {
                    append_list_cell(b, items);
                    Ok(())
                },
                AttributeValue::String(_) => Err(
                    EngineError::TypeMismatch {
                        expected: AttributeType::Array,
                        found: AttributeType::String,
                    },
                ),
            },
        }
    }

    /// One-shot finalize: yields the finished column holding exactly the
    /// appended cells, and resets the builder (it must not be reused).
    pub fn finish(&mut self) -> (r: AttributeColumn)
        requires
            old(self).wf(),
        ensures
            final(self).wf(),
            final(self).kind() == old(self).kind(),
            final(self).num_cells() == 0,
            r.kind() == old(self).kind(),
            old(self).kind() == AttributeType::String ==> r.scalar_cells()
                == old(self).scalar_cells(),
            old(self).kind() == AttributeType::Array ==> r.list_cells()
                == old(self).list_cells(),
    {
        match self {
            AttributeBuilder::String(b) => AttributeColumn::String(b.finish()),
            AttributeBuilder::Array(b) => AttributeColumn::Array(b.finish()),
        }
    }
}

/// Appends the elements of one multi-valued attribute as child strings and
/// closes them into one present list cell.
#[verifier::loop_isolation(false)]
fn append_list_cell(b: &mut ListColumnBuilder, items: &Vec<String>)
    requires
        list_builder_pending(*old(b)) == Seq::<Seq<char>>::empty(),
        list_builder_child_bytes(*old(b)) + items_bytes(items.deep_view()) <= i32::MAX,
        list_builder_child_count(*old(b)) + items@.len() <= i32::MAX,
    ensures
        list_builder_cells(*final(b)) == list_builder_cells(*old(b)).push(
            Some(items.deep_view()),
        ),
        list_builder_pending(*final(b)) == Seq::<Seq<char>>::empty(),
        list_builder_child_bytes(*final(b)) == list_builder_child_bytes(*old(b))
            + items_bytes(items.deep_view()),
        list_builder_child_count(*final(b)) == list_builder_child_count(*old(b))
            + items@.len(),
{
    let ghost c0 = list_builder_cells(*b);
    let ghost b0 = list_builder_child_bytes(*b);
    let ghost n0 = list_builder_child_count(*b);
    proof {
        assert(items.deep_view().take(0) =~= Seq::<Seq<char>>::empty());
        assert(items.deep_view().len() == items@.len());
    }
    let mut j: usize = 0;
    while j < items.len()
        invariant
            j <= items.len(),
            list_builder_cells(*b) == c0,
            list_builder_pending(*b) == items.deep_view().take(j as int),
            list_builder_child_bytes(*b) == b0 + items_bytes(items.deep_view().take(j as int)),
            list_builder_child_count(*b) == n0 + j,
        decreases items.len() - j,
    {
        proof {
            assert(items.deep_view()[j as int] == items@[j as int]@);
            lemma_items_bytes_take(items.deep_view(), j as int);
        }
        b.append_child(items[j].as_str());
        proof {
            assert(items.deep_view().take(j as int).push(items@[j as int]@) =~= items.deep_view().take(
                j + 1,
            ));
        }
        j += 1;
    }
    proof {
        assert(items.deep_view().take(items.len() as int) =~= items.deep_view());
    }
    b.close_row(true);
}

impl AttributeColumn {
    /// The attribute type of this column.
    pub open spec fn kind(&self) -> AttributeType {
        match self {
            AttributeColumn::String(_) => AttributeType::String,
            AttributeColumn::Array(_) => AttributeType::Array,
        }
    }

    /// The cells of a scalar column.
    pub open spec fn scalar_cells(&self) -> Seq<Option<Seq<char>>> {
        match self {
            AttributeColumn::String(c) => utf8_column_cells(*c),
            AttributeColumn::Array(_) => arbitrary(),
        }
    }

    /// The cells of a list column.
    pub open spec fn list_cells(&self) -> Seq<Option<Seq<Seq<char>>>> {
        match self {
            AttributeColumn::Array(c) => list_column_cells(*c),
            AttributeColumn::String(_) => arbitrary(),
        }
    }

    /// The number of cells.
    pub open spec fn num_cells(&self) -> nat {
        match self {
            AttributeColumn::String(c) => utf8_column_cells(*c).len(),
            AttributeColumn::Array(c) => list_column_cells(*c).len(),
        }
    }

    /// The number of cells, as executable code.
    pub fn len(&self) -> (r: usize)
        ensures
            r == self.num_cells(),
    {
        match self {
            AttributeColumn::String(c) => c.len(),
            AttributeColumn::Array(c) => c.len(),
        }
    }

    /// Whether cell `i` is null.
    pub fn is_null(&self, i: usize) -> (r: bool)
        requires
            i < self.num_cells(),
        ensures
            self.kind() == AttributeType::String ==> r == (self.scalar_cells()[i as int]
                is None),
            self.kind() == AttributeType::Array ==> r == (self.list_cells()[i as int]
                is None),
    {
        match self {
            AttributeColumn::String(c) => c.is_null(i),
            AttributeColumn::Array(c) => c.is_null(i),
        }
    }
}

/// A collected schema fragment: (name, type) pairs in strictly ascending
/// name order.
pub open spec fn sorted_defs(s: Seq<(Seq<char>, AttributeType)>) -> bool {
    forall|k: int| 0 <= k < s.len() - 1 ==> #[trigger] char_seq_lt(s[k].0, s[k + 1].0)
}

/// Whether a schema fragment already records a name.
pub open spec fn has_name(s: Seq<(Seq<char>, AttributeType)>, n: Seq<char>) -> bool {
    exists|k: int| 0 <= k < s.len() && s[k].0 == n
}

/// One observation folded into a name-sorted schema: an unknown name is
/// recorded at its sorted position; a known name leaves the schema unchanged
/// (first type wins).
pub open spec fn spec_insert(
    s: Seq<(Seq<char>, AttributeType)>,
    n: Seq<char>,
    t: AttributeType,
) -> Seq<(Seq<char>, AttributeType)>
    decreases s.len(),
{
    if s.len() == 0 {
        seq![(n, t)]
    } else if char_seq_lt(s[0].0, n) {
        seq![s[0]] + spec_insert(s.skip(1), n, t)
    } else if s[0].0 == n {
        s
    } else {
        seq![(n, t)] + s
    }
}

/// A whole record's observations folded in, in entry order.
pub open spec fn spec_insert_all(
    s: Seq<(Seq<char>, AttributeType)>,
    es: Seq<(Seq<char>, AttributeType)>,
) -> Seq<(Seq<char>, AttributeType)>
    decreases es.len(),
{
    if es.len() == 0 {
        s
    } else {
        spec_insert_all(spec_insert(s, es[0].0, es[0].1), es.skip(1))
    }
}

proof fn lemma_sorted_skip(s: Seq<(Seq<char>, AttributeType)>)
    requires
        sorted_defs(s),
        s.len() > 0,
    ensures
        sorted_defs(s.skip(1)),
{
    assert forall|k: int| 0 <= k < s.skip(1).len() - 1 implies #[trigger] char_seq_lt(
        s.skip(1)[k].0,
        s.skip(1)[k + 1].0,
    ) by {
        assert(s.skip(1)[k] == s[k + 1]);
        assert(s.skip(1)[k + 1] == s[k + 2]);
        assert(char_seq_lt(s[k + 1].0, s[k + 1 + 1].0));
    }
}

/// Inserting at the position the scan stopped at matches `spec_insert`.
proof fn lemma_insert_at(
    s: Seq<(Seq<char>, AttributeType)>,
    n: Seq<char>,
    t: AttributeType,
    i: int,
)
    requires
        sorted_defs(s),
        0 <= i <= s.len(),
        forall|k: int| 0 <= k < i ==> char_seq_lt(#[trigger] s[k].0, n),
        i < s.len() ==> !char_seq_lt(s[i].0, n),
    ensures
        i < s.len() && s[i].0 == n ==> spec_insert(s, n, t) == s,
        i == s.len() || s[i].0 != n ==> spec_insert(s, n, t) == s.insert(i, (n, t)),
    decreases i,
{
    if i == 0 {
        if s.len() == 0 {
            assert(spec_insert(s, n, t) =~= s.insert(0, (n, t)));
        } else if s[0].0 == n {
            lemma_char_seq_lt_irrefl(n);
        } else {
            if char_seq_lt(s[0].0, n) {
            } else {
                assert(seq![(n, t)] + s =~= s.insert(0, (n, t)));
            }
        }
    } else {
        assert(char_seq_lt(s[0].0, n));
        lemma_sorted_skip(s);
        let s1 = s.skip(1);
        assert forall|k: int| 0 <= k < i - 1 implies char_seq_lt(#[trigger] s1[k].0, n) by {
            assert(s1[k] == s[k + 1]);
            assert(char_seq_lt(s[k + 1].0, n));
        }
        assert(i - 1 < s1.len() ==> s1[i - 1] == s[i]);
        lemma_insert_at(s1, n, t, i - 1);
        if i < s.len() && s[i].0 == n {
            assert(spec_insert(s1, n, t) == s1);
            assert(seq![s[0]] + s1 =~= s);
        } else {
            assert(spec_insert(s1, n, t) == s1.insert(i - 1, (n, t)));
            assert(seq![s[0]] + s1.insert(i - 1, (n, t)) =~= s.insert(i, (n, t)));
        }
    }
}

/// The folded schema stays sorted.
proof fn lemma_insert_keeps_sorted(
    s: Seq<(Seq<char>, AttributeType)>,
    n: Seq<char>,
    t: AttributeType,
    i: int,
)
    requires
        sorted_defs(s),
        0 <= i <= s.len(),
        forall|k: int| 0 <= k < i ==> char_seq_lt(#[trigger] s[k].0, n),
        i < s.len() ==> char_seq_lt(n, s[i].0),
    ensures
        sorted_defs(s.insert(i, (n, t))),
{
    let r = s.insert(i, (n, t));
    assert forall|k: int| 0 <= k < r.len() - 1 implies #[trigger] char_seq_lt(r[k].0, r[k + 1].0) by {
        if k + 1 < i {
            assert(r[k] == s[k]);
            assert(r[k + 1] == s[k + 1]);
            assert(char_seq_lt(s[k].0, s[k + 1].0));
        } else if k + 1 == i {
            assert(r[k] == s[k]);
            assert(r[k + 1] == (n, t));
            assert(char_seq_lt(s[k].0, n));
        } else if k == i {
            assert(r[k] == (n, t));
            assert(r[k + 1] == s[k]);
            assert(char_seq_lt(n, s[k].0));
        } else {
            assert(r[k] == s[k - 1]);
            assert(r[k + 1] == s[k]);
            assert(char_seq_lt(s[k - 1].0, s[k - 1 + 1].0));
        }
    }
}

/// First-seen wins, the named permissiveness policy: an observation of a
/// name the schema already records leaves the schema unchanged, whatever
/// type the later observation carries.
pub proof fn lemma_first_seen_wins(
    s: Seq<(Seq<char>, AttributeType)>,
    n: Seq<char>,
    t: AttributeType,
)
    requires
        sorted_defs(s),
        has_name(s, n),
    ensures
        spec_insert(s, n, t) == s,
{
    let w = choose|k: int| 0 <= k < s.len() && s[k].0 == n;
    assert forall|k: int| 0 <= k < w implies char_seq_lt(#[trigger] s[k].0, n) by {
        lemma_lt_chain(Seq::new(s.len() as nat, |q: int| s[q].0), k, w);
    }
    lemma_char_seq_lt_irrefl(n);
    lemma_insert_at(s, n, t, w);
}

/// A scanner that collects unique attribute definitions from a record
/// stream, one observation at a time.
pub struct AttributeScanner {
    entries: Vec<(String, AttributeType)>,
}

impl AttributeScanner {
    /// The (name, type) pairs recorded so far, in storage order.
    pub closed spec fn model(&self) -> Seq<(Seq<char>, AttributeType)> {
        Seq::new(self.entries@.len(), |i: int| (self.entries@[i].0@, self.entries@[i].1))
    }

    /// The recorded pairs are strictly sorted by name, so names are unique.
    pub closed spec fn wf(&self) -> bool {
        sorted_defs(self.model())
    }

    /// A fresh scanner records nothing.
    pub fn new() -> (r: Self)
        ensures
            r.wf(),
            r.model() == Seq::<(Seq<char>, AttributeType)>::empty(),
    {
        let r = AttributeScanner { entries: Vec::new() };
        proof {
            assert(r.model() =~= Seq::<(Seq<char>, AttributeType)>::empty());
        }
        r
    }

    /// Scans for the first position whose name is not below `name`.
    fn find_slot(&self, name: &str) -> (r: (usize, bool))
        requires
            self.wf(),
        ensures
            r.0 <= self.model().len(),
            forall|k: int| 0 <= k < r.0 ==> char_seq_lt(#[trigger] self.model()[k].0, name@),
            r.1 ==> r.0 < self.model().len() && self.model()[r.0 as int].0 == name@,
            !r.1 ==> r.0 == self.model().len() || char_seq_lt(name@, self.model()[r.0 as int].0),
    {
        let mut i: usize = 0;
        while i < self.entries.len()
            invariant
                self.wf(),
                i <= self.entries.len(),
                self.entries@.len() == self.model().len(),
                forall|k: int| 0 <= k < i ==> char_seq_lt(#[trigger] self.model()[k].0, name@),
            decreases self.entries.len() - i,
        {
            match compare_names(self.entries[i].0.as_str(), name) {
                NameOrder::Before => {
                    proof {
                        assert(self.model()[i as int].0 == self.entries@[i as int].0@);
                    }
                    i += 1;
                },
                NameOrder::Same => {
                    return (i, true);
                },
                NameOrder::After => {
                    return (i, false);
                },
            }
        }
        (i, false)
    }

    /// Records one observed (name, type) pair: an unknown name is recorded
    /// at its sorted position with the observed type; a known name is left
    /// exactly as first recorded, whatever type this observation carries.
    pub fn observe(&mut self, name: &str, ty: AttributeType)
        requires
            old(self).wf(),
        ensures
            final(self).wf(),
            final(self).model() == spec_insert(old(self).model(), name@, ty),
    {
        let (i, found) = self.find_slot(name);
        if found {
            proof {
                lemma_char_seq_lt_irrefl(name@);
                lemma_insert_at(self.model(), name@, ty, i as int);
            }
        } else {
            proof {
                if i < self.entries.len() {
                    lemma_char_seq_lt_irrefl(name@);
                    if char_seq_lt(self.model()[i as int].0, name@) {
                        lemma_char_seq_lt_trans(
                            name@,
                            self.model()[i as int].0,
                            name@,
                        );
                    }
                }
                lemma_insert_at(self.model(), name@, ty, i as int);
                lemma_insert_keeps_sorted(self.model(), name@, ty, i as int);
            }
            let ghost m0 = self.model();
            self.entries.insert(i, (name.to_owned(), ty));
            proof {
                assert(self.model() =~= m0.insert(i as int, (name@, ty)));
            }
        }
    }

    /// Freezes the inferred schema: the recorded (name, type-tag) pairs,
    /// sorted by name, without duplicates, for any stream of observations.
    pub fn collect(&self) -> (r: Vec<(String, String)>)
        requires
            self.wf(),
        ensures
            r@.len() == self.model().len(),
            forall|i: int| 0 <= i < r@.len() ==> #[trigger] r@[i].0@ == self.model()[i].0
                && r@[i].1@ == type_tag(self.model()[i].1),
            forall|i: int, j: int| 0 <= i < j < r@.len() ==> char_seq_lt(
                #[trigger] r@[i].0@,
                #[trigger] r@[j].0@,
            ),
            forall|i: int, j: int| 0 <= i < j < r@.len() ==> r@[i].0@ != r@[j].0@,
    {
        let mut out: Vec<(String, String)> = Vec::new();
        let mut i: usize = 0;
        while i < self.entries.len()
            invariant
                self.wf(),
                i <= self.entries.len(),
                self.entries@.len() == self.model().len(),
                out@.len() == i,
                forall|k: int| 0 <= k < i ==> #[trigger] out@[k].0@ == self.model()[k].0
                    && out@[k].1@ == type_tag(self.model()[k].1),
            decreases self.entries.len() - i,
        {
            let name = self.entries[i].0.clone();
            let tag = match self.entries[i].1 {
                AttributeType::String => "String".to_owned(),
                AttributeType::Array => "Array".to_owned(),
            };
            out.push((name, tag));
            proof {
                assert(out@[i as int].0@ == self.model()[i as int].0);
                assert(out@[i as int].1@ == type_tag(self.model()[i as int].1));
            }
            i += 1;
        }
        proof {
            let names = Seq::new(self.model().len() as nat, |q: int| self.model()[q].0);
            assert forall|a: int, b: int| 0 <= a < b < out@.len() implies char_seq_lt(
                #[trigger] out@[a].0@,
                #[trigger] out@[b].0@,
            ) by {
                lemma_lt_chain(names, a, b);
            }
            assert forall|a: int, b: int| 0 <= a < b < out@.len() implies out@[a].0@
                != out@[b].0@ by {
                lemma_lt_chain(names, a, b);
                lemma_char_seq_lt_irrefl(out@[a].0@);
            }
        }
        out
    }
}

impl Default for AttributeScanner {
    /// A fresh scanner, as [`AttributeScanner::new`] builds it.
    fn default() -> (r: Self)
        ensures
            r.wf(),
            r.model() == Seq::<(Seq<char>, AttributeType)>::empty(),
    {
        AttributeScanner::new()
    }
}

/// A record whose attribute entries a scanner can fold into its schema.
pub trait Push<T> {
    /// The (name, type) observations the record contributes, in entry order.
    spec fn inferred(record: &T) -> Seq<(Seq<char>, AttributeType)>;

    /// The sink's well-formedness.
    spec fn sink_wf(&self) -> bool;

    /// The sink's recorded schema.
    spec fn sink_model(&self) -> Seq<(Seq<char>, AttributeType)>;

    /// Folds every attribute entry of the record into the schema, in order,
    /// first seen winning.
    fn push(&mut self, record: T)
        requires
            old(self).sink_wf(),
        ensures
            final(self).sink_wf(),
            final(self).sink_model() == spec_insert_all(
                old(self).sink_model(),
                Self::inferred(&record),
            ),
    ;
}

/// A record of the single-valued annotation dialect (GTF-style): every
/// attribute entry is one (key, text) pair, and every key is inferred as a
/// `String` attribute.
pub struct GtfRecord {
    pub attributes: Vec<(String, String)>,
}

/// A record of the array-capable annotation dialect (GFF-style): each entry
/// carries a harmonized value whose shape at first sight fixes the key's
/// inferred type.
pub struct GffRecord {
    pub attributes: Vec<(String, AttributeValue)>,
}

impl Push<GtfRecord> for AttributeScanner {
    open spec fn inferred(record: &GtfRecord) -> Seq<(Seq<char>, AttributeType)> {
        Seq::new(
            record.attributes@.len(),
            |i: int| (record.attributes@[i].0@, AttributeType::String),
        )
    }

    open spec fn sink_wf(&self) -> bool {
        self.wf()
    }

    open spec fn sink_model(&self) -> Seq<(Seq<char>, AttributeType)> {
        self.model()
    }

    fn push(&mut self, record: GtfRecord) {
        let ghost m0 = self.model();
        let ghost es = <AttributeScanner as Push<GtfRecord>>::inferred(&record);
        proof {
            assert(es.skip(0) =~= es);
        }
        let mut i: usize = 0;
        while i < record.attributes.len()
            invariant
                self.wf(),
                i <= record.attributes.len(),
                es.len() == record.attributes@.len(),
                forall|k: int| 0 <= k < es.len() ==> #[trigger] es[k] == (
                    record.attributes@[k].0@,
                    AttributeType::String,
                ),
                spec_insert_all(m0, es) == spec_insert_all(self.model(), es.skip(i as int)),
            decreases record.attributes.len() - i,
        {
            self.observe(record.attributes[i].0.as_str(), AttributeType::String);
            proof {
                assert(es.skip(i as int)[0] == es[i as int]);
                assert(es.skip(i as int).skip(1) =~= es.skip(i + 1));
            }
            i += 1;
        }
        proof {
            assert(es.skip(record.attributes@.len() as int).len() == 0);
        }
    }
}

impl Push<GffRecord> for AttributeScanner {
    open spec fn inferred(record: &GffRecord) -> Seq<(Seq<char>, AttributeType)> {
        Seq::new(
            record.attributes@.len(),
            |i: int| (record.attributes@[i].0@, record.attributes@[i].1.kind()),
        )
    }

    open spec fn sink_wf(&self) -> bool {
        self.wf()
    }

    open spec fn sink_model(&self) -> Seq<(Seq<char>, AttributeType)> {
        self.model()
    }

    fn push(&mut self, record: GffRecord) {
        let ghost m0 = self.model();
        let ghost es = <AttributeScanner as Push<GffRecord>>::inferred(&record);
        proof {
            assert(es.skip(0) =~= es);
        }
        let mut i: usize = 0;
        while i < record.attributes.len()
            invariant
                self.wf(),
                i <= record.attributes.len(),
                es.len() == record.attributes@.len(),
                forall|k: int| 0 <= k < es.len() ==> #[trigger] es[k] == (
                    record.attributes@[k].0@,
                    record.attributes@[k].1.kind(),
                ),
                spec_insert_all(m0, es) == spec_insert_all(self.model(), es.skip(i as int)),
            decreases record.attributes.len() - i,
        {
            let ty = record.attributes[i].1.kind_of();
            self.observe(record.attributes[i].0.as_str(), ty);
            proof {
                assert(es.skip(i as int)[0] == es[i as int]);
                assert(es.skip(i as int).skip(1) =~= es.skip(i + 1));
            }
            i += 1;
        }
        proof {
            assert(es.skip(record.attributes@.len() as int).len() == 0);
        }
    }
}

/// A cell sequence accumulated by one push per append, in order.
pub open spec fn pushed_cells<T>(ops: Seq<Option<T>>) -> Seq<Option<T>>
    decreases ops.len(),
{
    if ops.len() == 0 {
        Seq::empty()
    } else {
        pushed_cells(ops.drop_last()).push(ops.last())
    }
}

/// Round trip: a column accumulated by one append per logical value — a
/// `Some` cell for each well-typed value, a `None` cell for each null — and
/// finished unchanged holds exactly one cell per append, null exactly at
/// the appends that were nulls.
pub proof fn lemma_append_round_trip<T>(ops: Seq<Option<T>>)
    ensures
        pushed_cells(ops) == ops,
    decreases ops.len(),
{
    if ops.len() > 0 {
        lemma_append_round_trip(ops.drop_last());
    }
    assert(pushed_cells(ops) =~= ops);
}

} // verus!
