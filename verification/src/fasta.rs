//! The FASTA scan engine: bounded batches from a sequence record stream,
//! either sequentially in file order (with an optional record limit) or
//! restricted to genomic coordinate regions resolved through a sequence
//! index.
//!
//! Reading bytes is the caller's side of the protocol: the sequential scan
//! hands records one at a time to a [`BatchIterator`], and the query scan
//! resolves each region to an exact byte range ([`resolve_region`]) that the
//! caller reads and hands back ([`region_record`]); every decision — field
//! validation, index arithmetic, line-layout decoding, batch slicing — is
//! made here.

use crate::column::make_field;
use crate::column::make_schema;
use crate::column::utf8_builder_cells;
use crate::column::utf8_column_cells;
use crate::column::utf8_data_type;
use crate::column::Utf8Column;
use crate::column::Utf8ColumnBuilder;
use crate::error::EngineError;
use crate::order::compare_names;
use crate::order::NameOrder;
use crate::attribute::AttributeType;
use crate::column::schema_fields;
use crate::column::utf8_builder_bytes;
use vstd::arithmetic::div_mod::lemma_div_is_ordered;
use vstd::arithmetic::div_mod::lemma_fundamental_div_mod;
use vstd::arithmetic::div_mod::lemma_fundamental_div_mod_converse_div;
use vstd::arithmetic::mul::lemma_mul_inequality;
use vstd::prelude::*;
use vstd::utf8::encode_utf8;
use vstd::utf8::valid_utf8;

verus! {

/// One sequence record: a name and its residues.
#[derive(Debug)]
pub struct FastaRecord {
    pub name: String,
    pub sequence: String,
}

impl FastaRecord {
    /// The record as a (name, sequence) pair of character sequences.
    pub open spec fn model(&self) -> (Seq<char>, Seq<char>) {
        (self.name@, self.sequence@)
    }
}

/// The models of a record stream, in order.
pub open spec fn rec_models(rs: Seq<FastaRecord>) -> Seq<(Seq<char>, Seq<char>)> {
    Seq::new(rs.len(), |i: int| (rs[i].name@, rs[i].sequence@))
}

/// The fixed FASTA fields.
#[derive(Debug, Clone, Copy, PartialEq, Eq, Structural)]
pub enum FastaField {
    Name,
    Sequence,
}

/// The field a column name selects, if any.
pub open spec fn field_of_name(n: Seq<char>) -> Option<FastaField> {
    if n == "name"@ {
        Some(FastaField::Name)
    } else if n == "sequence"@ {
        Some(FastaField::Sequence)
    } else {
        None
    }
}

/// The value a record carries for a field.
pub open spec fn field_value(rec: (Seq<char>, Seq<char>), f: FastaField) -> Seq<char> {
    match f {
        FastaField::Name => rec.0,
        FastaField::Sequence => rec.1,
    }
}

/// The column a row sequence induces for a field: one non-null cell per row.
pub open spec fn col_of(rows: Seq<(Seq<char>, Seq<char>)>, f: FastaField) -> Seq<
    Option<Seq<char>>,
> {
    Seq::new(rows.len(), |i: int| Some(field_value(rows[i], f)))
}

/// The UTF-8 byte length of one field of one record.
pub open spec fn model_bytes(m: (Seq<char>, Seq<char>), f: FastaField) -> int {
    encode_utf8(field_value(m, f)).len() as int
}

/// The cumulative UTF-8 byte length of one field over a row sequence.
pub open spec fn models_bytes(ms: Seq<(Seq<char>, Seq<char>)>, f: FastaField) -> int
    decreases ms.len(),
{
    if ms.len() == 0 {
        0
    } else {
        models_bytes(ms.drop_last(), f) + model_bytes(ms.last(), f)
    }
}

proof fn lemma_models_bytes_nonneg(ms: Seq<(Seq<char>, Seq<char>)>, f: FastaField)
    ensures
        models_bytes(ms, f) >= 0,
    decreases ms.len(),
{
    if ms.len() > 0 {
        lemma_models_bytes_nonneg(ms.drop_last(), f);
    }
}

proof fn lemma_models_bytes_add(
    x: Seq<(Seq<char>, Seq<char>)>,
    y: Seq<(Seq<char>, Seq<char>)>,
    f: FastaField,
)
    ensures
        models_bytes(x + y, f) == models_bytes(x, f) + models_bytes(y, f),
    decreases y.len(),
{
    if y.len() == 0 {
        assert(x + y =~= x);
    } else {
        assert((x + y).drop_last() =~= x + y.drop_last());
        assert((x + y).last() == y.last());
        lemma_models_bytes_add(x, y.drop_last(), f);
    }
}

/// A contiguous window's bytes never exceed the whole stream's.
proof fn lemma_models_bytes_subrange(
    ms: Seq<(Seq<char>, Seq<char>)>,
    a: int,
    b: int,
    f: FastaField,
)
    requires
        0 <= a <= b <= ms.len(),
    ensures
        models_bytes(ms.subrange(a, b), f) <= models_bytes(ms, f),
{
    assert(ms =~= (ms.subrange(0, a) + ms.subrange(a, b)) + ms.subrange(b, ms.len() as int));
    lemma_models_bytes_add(
        ms.subrange(0, a) + ms.subrange(a, b),
        ms.subrange(b, ms.len() as int),
        f,
    );
    lemma_models_bytes_add(ms.subrange(0, a), ms.subrange(a, b), f);
    lemma_models_bytes_nonneg(ms.subrange(0, a), f);
    lemma_models_bytes_nonneg(ms.subrange(b, ms.len() as int), f);
}

/// Whether an optional field-name filter is acceptable: every name must be
/// a known field and no name may repeat.
pub open spec fn field_filter_ok(fields: Option<Vec<String>>) -> bool {
    match fields {
        None => true,
        Some(v) => (forall|i: int|
            0 <= i < v@.len() ==> field_of_name(#[trigger] v@[i]@) is Some) && (forall|
            i: int,
            j: int,
        |
            0 <= i < j < v@.len() ==> v@[i]@ != v@[j]@),
    }
}

/// The fields a filter selects; without a filter, all fixed fields in
/// format order.
pub open spec fn selected_fields(fields: Option<Vec<String>>) -> Seq<FastaField> {
    match fields {
        None => seq![FastaField::Name, FastaField::Sequence],
        Some(v) => Seq::new(v@.len(), |i: int| field_of_name(v@[i]@)->0),
    }
}

/// No field selected twice.
pub open spec fn distinct_fields(fs: Seq<FastaField>) -> bool {
    forall|i: int, j: int| 0 <= i < j < fs.len() ==> fs[i] != fs[j]
}

/// Validates a field-name filter and maps it to fields.
#[verifier::loop_isolation(false)]
fn parse_fields(fields: &Option<Vec<String>>) -> (r: Result<Vec<FastaField>, EngineError>)
    ensures
        r is Ok <==> field_filter_ok(*fields),
        r matches Ok(v) ==> v@ == selected_fields(*fields) && distinct_fields(v@),
        r matches Err(e) ==> e is InvalidInput,
{
    proof {
        reveal_strlit("name");
        reveal_strlit("sequence");
        assert("name"@.len() == 4);
        assert("sequence"@.len() == 8);
    }
    match fields {
        None => {
            let r: Vec<FastaField> = vec![FastaField::Name, FastaField::Sequence];
            proof {
                assert(r@ =~= selected_fields(*fields));
            }
            Ok(r)
        },
        Some(v) => {
            proof {
                assert(*fields == Some(*v));
            }
            let mut out: Vec<FastaField> = Vec::new();
            let mut seen_name = false;
            let mut seen_sequence = false;
            let mut i: usize = 0;
            while i < v.len()
                invariant
                    i <= v@.len(),
                    out@.len() == i,
                    forall|k: int|
                        0 <= k < i ==> field_of_name(#[trigger] v@[k]@) is Some,
                    forall|k: int|
                        0 <= k < i ==> #[trigger] out@[k] == field_of_name(v@[k]@)->0,
                    seen_name == (exists|k: int|
                        0 <= k < i && #[trigger] v@[k]@ == "name"@),
                    seen_sequence == (exists|k: int|
                        0 <= k < i && #[trigger] v@[k]@ == "sequence"@),
                    forall|a: int, b: int| 0 <= a < b < i ==> v@[a]@ != v@[b]@,
                decreases v@.len() - i,
            {
                let is_name = match compare_names(v[i].as_str(), "name") {
                    NameOrder::Same => true,
                    _ => false,
                };
                let is_sequence = match compare_names(v[i].as_str(), "sequence") {
                    NameOrder::Same => true,
                    _ => false,
                };
                if is_name {
                    if seen_name {
                        proof {
                            let k = choose|k: int| 0 <= k < i && v@[k]@ == "name"@;
                            assert(!field_filter_ok(*fields)) by {
                                assert(0 <= k && k < i as int && (i as int) < v@.len()
                                    && v@[k]@ == v@[i as int]@);
                            }
                        }
                        return Err(EngineError::InvalidInput(v[i].clone()));
                    }
                    seen_name = true;
                    out.push(FastaField::Name);
                    proof {
                        assert(v@[i as int]@ == "name"@);
                        assert(v@[i as int]@ != "sequence"@);
                        assert forall|a: int| 0 <= a < i implies v@[a]@ != v@[
                            i as int
                        ]@ by {
                            assert(!(v@[a]@ == "name"@));
                        }
                    }
                } else if is_sequence {
                    if seen_sequence {
                        proof {
                            let k = choose|k: int| 0 <= k < i && v@[k]@ == "sequence"@;
                            assert(!field_filter_ok(*fields)) by {
                                assert(0 <= k && k < i as int && (i as int) < v@.len()
                                    && v@[k]@ == v@[i as int]@);
                            }
                        }
                        return Err(EngineError::InvalidInput(v[i].clone()));
                    }
                    seen_sequence = true;
                    out.push(FastaField::Sequence);
                    proof {
                        assert(v@[i as int]@ == "sequence"@);
                        assert(v@[i as int]@ != "name"@);
                        assert forall|a: int| 0 <= a < i implies v@[a]@ != v@[
                            i as int
                        ]@ by {
                            assert(!(v@[a]@ == "sequence"@));
                        }
                    }
                } else {
                    proof {
                        assert(field_of_name(v@[i as int]@) is None);
                        assert(!field_filter_ok(*fields)) by {
                            assert(0 <= i as int && (i as int) < v@.len()
                                && field_of_name(v@[i as int]@) is None);
                        }
                    }
                    return Err(EngineError::InvalidInput(v[i].clone()));
                }
                i += 1;
            }
            proof {
                assert(out@ =~= selected_fields(*fields));
            }
            Ok(out)
        },
    }
}

/// A per-batch accumulator for FASTA records: one column builder per fixed
/// field, fed one record at a time, finalized into one batch.
pub struct FastaBatchBuilder {
    fields: Vec<FastaField>,
    names: Utf8ColumnBuilder,
    sequences: Utf8ColumnBuilder,
    count: usize,
    name_bytes: usize,
    sequence_bytes: usize,
    rows_g: Ghost<Seq<(Seq<char>, Seq<char>)>>,
}

impl FastaBatchBuilder {
    /// The records accepted since the last finalize.
    pub closed spec fn rows(&self) -> Seq<(Seq<char>, Seq<char>)> {
        self.rows_g@
    }

    /// The output columns, in order.
    pub closed spec fn fields_spec(&self) -> Seq<FastaField> {
        self.fields@
    }

    pub closed spec fn wf(&self) -> bool {
        &&& utf8_builder_cells(self.names) == col_of(self.rows_g@, FastaField::Name)
        &&& utf8_builder_cells(self.sequences) == col_of(self.rows_g@, FastaField::Sequence)
        &&& self.count == self.rows_g@.len()
        &&& distinct_fields(self.fields@)
        &&& utf8_builder_bytes(self.names) == models_bytes(self.rows_g@, FastaField::Name)
        &&& utf8_builder_bytes(self.sequences) == models_bytes(
            self.rows_g@,
            FastaField::Sequence,
        )
        &&& self.name_bytes as int == utf8_builder_bytes(self.names)
        &&& self.sequence_bytes as int == utf8_builder_bytes(self.sequences)
        &&& self.name_bytes <= i32::MAX
        &&& self.sequence_bytes <= i32::MAX
    }

    /// Whether the record's name and sequence still fit the current column
    /// chunk's 32-bit byte offsets; appending past them would abort in the
    /// columnar builder.
    pub closed spec fn can_push(&self, rec: &FastaRecord) -> bool {
        &&& utf8_builder_bytes(self.names) + encode_utf8(rec.name@).len() <= i32::MAX
        &&& utf8_builder_bytes(self.sequences) + encode_utf8(rec.sequence@).len()
            <= i32::MAX
    }

    /// A fresh accumulator over an optional field filter; an unknown or
    /// repeated field name is `InvalidInput`.
    pub fn new(fields: Option<Vec<String>>) -> (r: Result<FastaBatchBuilder, EngineError>)
        ensures
            r is Ok <==> field_filter_ok(fields),
            r matches Ok(b) ==> b.wf() && b.rows().len() == 0 && b.fields_spec()
                == selected_fields(fields),
            r matches Err(e) ==> e is InvalidInput,
    {
        let parsed = match parse_fields(&fields) {
            Ok(v) => v,
            Err(e) => {
                return Err(e);
            },
        };
        let b = FastaBatchBuilder {
            fields: parsed,
            names: Utf8ColumnBuilder::new(),
            sequences: Utf8ColumnBuilder::new(),
            count: 0,
            name_bytes: 0,
            sequence_bytes: 0,
            rows_g: Ghost(Seq::empty()),
        };
        proof {
            assert(col_of(b.rows_g@, FastaField::Name) =~= Seq::<Option<Seq<char>>>::empty());
            assert(col_of(b.rows_g@, FastaField::Sequence) =~= Seq::<
                Option<Seq<char>>,
            >::empty());
        }
        Ok(b)
    }

    /// The number of records accepted since the last finalize.
    pub fn count(&self) -> (r: usize)
        requires
            self.wf(),
        ensures
            r == self.rows().len(),
    {
        self.count
    }

    /// Accepts one record: appends its name and sequence cells. A record
    /// that would overflow the chunk's 32-bit byte offsets is left out by
    /// precondition: the columnar builder would abort on it.
    pub fn push_record(&mut self, rec: &FastaRecord)
        requires
            old(self).wf(),
            old(self).rows().len() < usize::MAX,
            old(self).can_push(rec),
        ensures
            final(self).wf(),
            final(self).fields_spec() == old(self).fields_spec(),
            final(self).rows() == old(self).rows().push(rec.model()),
    {
        self.names.append_value(rec.name.as_str());
        self.sequences.append_value(rec.sequence.as_str());
        self.count += 1;
        self.name_bytes = self.name_bytes + rec.name.as_str().as_bytes().len();
        self.sequence_bytes = self.sequence_bytes + rec.sequence.as_str().as_bytes().len();
        proof {
            self.rows_g@ = self.rows_g@.push(rec.model());
            assert(self.rows_g@.drop_last() =~= old(self).rows_g@);
            assert(self.rows_g@.last() == rec.model());
            assert(utf8_builder_cells(self.names) =~= col_of(
                self.rows_g@,
                FastaField::Name,
            ));
            assert(utf8_builder_cells(self.sequences) =~= col_of(
                self.rows_g@,
                FastaField::Sequence,
            ));
        }
    }

    /// Whether the record still fits the chunk's byte budget, as executable
    /// code.
    pub fn fits(&self, rec: &FastaRecord) -> (r: bool)
        requires
            self.wf(),
        ensures
            r == self.can_push(rec),
    {
        let cap: usize = 0x7fff_ffff;
        rec.name.as_str().as_bytes().len() <= cap - self.name_bytes
            && rec.sequence.as_str().as_bytes().len() <= cap - self.sequence_bytes
    }

    /// Finalizes one batch holding exactly the accepted records, and resets
    /// the accumulator. A batch is only valid once fully finalized: records
    /// still in flight when a stream fails are discarded with the error,
    /// never emitted.
    pub fn finish_batch(&mut self) -> (r: FastaBatch)
        requires
            old(self).wf(),
        ensures
            final(self).wf(),
            final(self).fields_spec() == old(self).fields_spec(),
            final(self).rows().len() == 0,
            r.wf(),
            r.fields@ == old(self).fields_spec(),
            r.rows() == old(self).rows(),
    {
        let ghost rows0 = self.rows_g@;
        let n = self.count;
        let name_col = self.names.finish();
        let seq_col = self.sequences.finish();
        let mut name_opt: Option<Utf8Column> = Some(name_col);
        let mut seq_opt: Option<Utf8Column> = Some(seq_col);
        let mut columns: Vec<Utf8Column> = Vec::new();
        let mut j: usize = 0;
        while j < self.fields.len()
            invariant
                j <= self.fields@.len(),
                columns@.len() == j,
                distinct_fields(self.fields@),
                forall|k: int|
                    0 <= k < j ==> utf8_column_cells(#[trigger] columns@[k]) == col_of(
                        rows0,
                        self.fields@[k],
                    ),
                name_opt matches Some(c) ==> utf8_column_cells(c) == col_of(
                    rows0,
                    FastaField::Name,
                ),
                seq_opt matches Some(c) ==> utf8_column_cells(c) == col_of(
                    rows0,
                    FastaField::Sequence,
                ),
                name_opt is None ==> exists|k: int|
                    0 <= k < j && self.fields@[k] == FastaField::Name,
                seq_opt is None ==> exists|k: int|
                    0 <= k < j && self.fields@[k] == FastaField::Sequence,
            decreases self.fields@.len() - j,
        {
            let col = match self.fields[j] {
                FastaField::Name => {
                    proof {
                        if name_opt is None {
                            let k = choose|k: int|
                                0 <= k < j && self.fields@[k] == FastaField::Name;
                            assert(self.fields@[k] == self.fields@[j as int]);
                        }
                    }
                    name_opt.take().unwrap()
                },
                FastaField::Sequence => {
                    proof {
                        if seq_opt is None {
                            let k = choose|k: int|
                                0 <= k < j && self.fields@[k] == FastaField::Sequence;
                            assert(self.fields@[k] == self.fields@[j as int]);
                        }
                    }
                    seq_opt.take().unwrap()
                },
            };
            columns.push(col);
            j += 1;
        }
        self.count = 0;
        self.name_bytes = 0;
        self.sequence_bytes = 0;
        proof {
            self.rows_g@ = Seq::empty();
            assert(utf8_builder_cells(self.names) =~= col_of(
                self.rows_g@,
                FastaField::Name,
            ));
            assert(utf8_builder_cells(self.sequences) =~= col_of(
                self.rows_g@,
                FastaField::Sequence,
            ));
        }
        FastaBatch {
            fields: self.fields.clone(),
            columns,
            num_records: n,
            rows_g: Ghost(rows0),
        }
    }

    /// The columnar schema of the batches this accumulator produces,
    /// independent of any data having been appended: one non-nullable UTF-8
    /// field per selected fixed field, under its column name, in order.
    #[verifier::loop_isolation(false)]
    pub fn get_arrow_schema(&self) -> (r: arrow::datatypes::Schema)
        ensures
            schema_fields(r).len() == self.fields_spec().len(),
            forall|j: int|
                0 <= j < self.fields_spec().len() ==> #[trigger] schema_fields(r)[j] == (
                    fasta_field_title(self.fields_spec()[j]),
                    Some(AttributeType::String),
                    false,
                ),
    {
        let mut fs: Vec<arrow::datatypes::Field> = Vec::new();
        let mut j: usize = 0;
        while j < self.fields.len()
            invariant
                j <= self.fields@.len(),
                fs@.len() == j,
                forall|k: int|
                    0 <= k < j ==> crate::column::field_model(#[trigger] fs@[k]) == (
                        fasta_field_title(self.fields@[k]),
                        Some(AttributeType::String),
                        false,
                    ),
            decreases self.fields@.len() - j,
        {
            let f = match self.fields[j] {
                FastaField::Name => make_field("name", utf8_data_type(), false),
                FastaField::Sequence => make_field("sequence", utf8_data_type(), false),
            };
            fs.push(f);
            j += 1;
        }
        make_schema(fs)
    }
}

/// One finished batch: parallel typed columns, one per selected field, all
/// of length `num_records`.
pub struct FastaBatch {
    pub fields: Vec<FastaField>,
    pub columns: Vec<Utf8Column>,
    pub num_records: usize,
    pub rows_g: Ghost<Seq<(Seq<char>, Seq<char>)>>,
}

impl FastaBatch {
    /// The records this batch encodes, in order.
    pub open spec fn rows(&self) -> Seq<(Seq<char>, Seq<char>)> {
        self.rows_g@
    }

    pub open spec fn wf(&self) -> bool {
        &&& self.columns@.len() == self.fields@.len()
        &&& self.num_records == self.rows_g@.len()
        &&& forall|j: int|
            0 <= j < self.fields@.len() ==> utf8_column_cells(#[trigger] self.columns@[j])
                == col_of(self.rows_g@, self.fields@[j])
    }
}

/// How many batches a scan of `n` records yields at batch size `d`.
pub open spec fn ceil_div(n: int, d: int) -> int {
    (n + d - 1) / d
}

/// The effective sequential batch size: reference sequences are large, so
/// the default is one record per batch.
pub open spec fn eff_batch_size(batch_size: Option<usize>) -> int {
    match batch_size {
        None => 1,
        Some(b) => b as int,
    }
}

/// A caller-supplied batch size must be positive.
pub open spec fn batch_size_ok(batch_size: Option<usize>) -> bool {
    match batch_size {
        None => true,
        Some(b) => b >= 1,
    }
}

/// How many records a scan of `m` records yields under an optional limit.
pub open spec fn eff_limit(limit: Option<usize>, m: int) -> int {
    match limit {
        None => m,
        Some(l) => (if (l as int) < m {
            l as int
        } else {
            m
        }),
    }
}

/// The column name of a fixed field.
pub open spec fn fasta_field_title(f: FastaField) -> Seq<char> {
    match f {
        FastaField::Name => "name"@,
        FastaField::Sequence => "sequence"@,
    }
}

/// The records of batch `k` in a scan of the first `n` streamed records at
/// batch size `bs`.
pub open spec fn batch_window(
    models: Seq<(Seq<char>, Seq<char>)>,
    bs: int,
    n: int,
    k: int,
) -> Seq<(Seq<char>, Seq<char>)> {
    models.subrange(
        bs * k,
        if bs * (k + 1) <= n {
            bs * (k + 1)
        } else {
            n
        },
    )
}

/// Whether every batch the scan will cut stays within the columnar
/// builders' 32-bit byte offsets (a machine limit of the column format).
pub open spec fn windows_fit(models: Seq<(Seq<char>, Seq<char>)>, bs: int, n: int) -> bool {
    forall|k: int|
        0 <= k < ceil_div(n, bs) ==> models_bytes(
            #[trigger] batch_window(models, bs, n, k),
            FastaField::Name,
        ) <= i32::MAX && models_bytes(batch_window(models, bs, n, k), FastaField::Sequence)
            <= i32::MAX
}

/// What a finished scan looks like: `ceil(n / bs)` batches over the first
/// `n` of the streamed records, each batch holding the next `bs` records
/// (the last possibly fewer), every column the exact projection of its
/// batch's records.
pub open spec fn scan_output_ok(
    batches: Seq<FastaBatch>,
    models: Seq<(Seq<char>, Seq<char>)>,
    fsel: Seq<FastaField>,
    bs: int,
    n: int,
) -> bool {
    &&& batches.len() == ceil_div(n, bs)
    &&& forall|k: int|
        0 <= k < batches.len() ==> (#[trigger] batches[k]).wf() && batches[k].fields@ == fsel
            && batches[k].rows() == models.subrange(
            bs * k,
            if bs * (k + 1) <= n {
                bs * (k + 1)
            } else {
                n
            },
        )
}

/// A pull-protocol sequential scan: the caller hands records in stream
/// order; the iterator slices them into batches of at most `batch_size`
/// records, stopping at an optional record limit. Single pass,
/// non-restartable: records are accepted once and never revisited.
pub struct BatchIterator {
    builder: FastaBatchBuilder,
    batch_size: usize,
    limit: Option<usize>,
    accepted: usize,
    emitted_g: Ghost<Seq<(Seq<char>, Seq<char>)>>,
}

impl BatchIterator {
    /// Every record accepted so far, in order.
    pub closed spec fn taken(&self) -> Seq<(Seq<char>, Seq<char>)> {
        self.emitted_g@ + self.builder.rows()
    }

    /// Records accepted but not yet emitted in a batch.
    pub closed spec fn pending(&self) -> Seq<(Seq<char>, Seq<char>)> {
        self.builder.rows()
    }

    pub closed spec fn spec_batch_size(&self) -> int {
        self.batch_size as int
    }

    pub closed spec fn spec_limit(&self) -> Option<usize> {
        self.limit
    }

    /// The fields of every batch this iterator emits.
    pub closed spec fn fields(&self) -> Seq<FastaField> {
        self.builder.fields_spec()
    }

    pub closed spec fn wf(&self) -> bool {
        &&& self.builder.wf()
        &&& self.batch_size >= 1
        &&& self.builder.rows().len() < self.batch_size
        &&& self.accepted == self.taken().len()
        &&& (self.spec_limit() matches Some(l) ==> self.taken().len() <= l)
    }

    /// Whether the record still fits the in-flight batch's byte budget (the
    /// column format's 32-bit offsets).
    pub closed spec fn can_accept(&self, rec: &FastaRecord) -> bool {
        self.builder.can_push(rec)
    }

    /// Whether the record still fits the in-flight batch's byte budget, as
    /// executable code.
    pub fn fits(&self, rec: &FastaRecord) -> (r: bool)
        requires
            self.wf(),
        ensures
            r == self.can_accept(rec),
    {
        self.builder.fits(rec)
    }

    /// Whether the limit still allows another record.
    pub fn wants_more(&self) -> (r: bool)
        requires
            self.wf(),
        ensures
            r == (self.spec_limit() is None || self.taken().len() < self.spec_limit()->0),
    {
        match self.limit {
            None => true,
            Some(l) => self.accepted < l,
        }
    }

    /// Accepts the next record of the stream. Emits a batch exactly when it
    /// completes one of `batch_size` records.
    pub fn accept(&mut self, rec: &FastaRecord) -> (r: Option<FastaBatch>)
        requires
            old(self).wf(),
            old(self).spec_limit() matches Some(l) ==> old(self).taken().len() < l,
            old(self).taken().len() < usize::MAX,
            old(self).can_accept(rec),
        ensures
            final(self).wf(),
            final(self).spec_batch_size() == old(self).spec_batch_size(),
            final(self).spec_limit() == old(self).spec_limit(),
            final(self).fields() == old(self).fields(),
            final(self).taken() == old(self).taken().push(rec.model()),
            r is Some <==> old(self).pending().len() + 1 == old(self).spec_batch_size(),
            r matches Some(b) ==> b.wf() && b.fields@ == old(self).fields() && b.rows()
                == old(self).pending().push(rec.model()) && final(self).pending().len() == 0,
            r is None ==> final(self).pending() == old(self).pending().push(rec.model()),
    {
        self.builder.push_record(rec);
        self.accepted = self.accepted + 1;
        if self.builder.count() == self.batch_size {
            let b = self.builder.finish_batch();
            proof {
                self.emitted_g@ = self.emitted_g@ + b.rows();
                assert(final(self).taken() =~= old(self).taken().push(rec.model()));
            }
            Some(b)
        } else {
            proof {
                assert(final(self).taken() =~= old(self).taken().push(rec.model()));
            }
            None
        }
    }

    /// Emits the records still pending as a final, possibly short batch;
    /// nothing if none are pending.
    pub fn flush(&mut self) -> (r: Option<FastaBatch>)
        requires
            old(self).wf(),
        ensures
            final(self).wf(),
            final(self).spec_batch_size() == old(self).spec_batch_size(),
            final(self).spec_limit() == old(self).spec_limit(),
            final(self).fields() == old(self).fields(),
            final(self).taken() == old(self).taken(),
            final(self).pending().len() == 0,
            r is Some <==> old(self).pending().len() > 0,
            r matches Some(b) ==> b.wf() && b.fields@ == old(self).fields() && b.rows()
                == old(self).pending(),
    {
        if self.builder.count() > 0 {
            let b = self.builder.finish_batch();
            proof {
                self.emitted_g@ = self.emitted_g@ + b.rows();
                assert(final(self).taken() =~= old(self).taken());
            }
            Some(b)
        } else {
            proof {
                assert(old(self).pending() =~= Seq::<(Seq<char>, Seq<char>)>::empty());
            }
            None
        }
    }
}


/// One record of a FASTA sequence index: for each named sequence, its
/// residue count, the file offset of its first residue, the residues per
/// line, and the full line width in bytes (residues plus line terminator).
#[derive(Debug, Clone)]
pub struct FaiRecord {
    pub name: String,
    pub length: u64,
    pub offset: u64,
    pub line_bases: u64,
    pub line_width: u64,
}

/// A genomic coordinate range: 1-based, inclusive on both ends.
#[derive(Debug, Clone)]
pub struct Region {
    pub name: String,
    pub start: u64,
    pub end: u64,
}

/// The exact byte range covering a region, with the line layout needed to
/// decode it: seek to `start_offset`, read `byte_len` bytes, and drop the
/// line terminators starting from column `start_col`.
#[derive(Debug, Clone)]
pub struct SeekPlan {
    pub start_offset: u64,
    pub byte_len: u64,
    pub line_bases: u64,
    pub line_width: u64,
    pub start_col: u64,
}

/// The file offset of the 1-based residue `pos` in a sequence laid out at
/// `offset` with `line_bases` residues per `line_width`-byte line.
pub open spec fn fai_pos(offset: int, line_bases: int, line_width: int, pos: int) -> int {
    offset + ((pos - 1) / line_bases) * line_width + (pos - 1) % line_bases
}

/// Whether a region can be resolved against an index record: coordinates in
/// range, a sane line layout, and offsets that fit the file-offset type.
pub open spec fn region_ok(rec: FaiRecord, rg: Region) -> bool {
    &&& 1 <= rg.start as int
    &&& rg.start as int <= rg.end as int
    &&& rg.end as int <= rec.length as int
    &&& 1 <= rec.line_bases as int
    &&& (rec.line_bases as int) < rec.line_width as int
    &&& fai_pos(rec.offset as int, rec.line_bases as int, rec.line_width as int, rg.end as int)
        + 1 <= u64::MAX as int
}

/// Whether a plan is the one an index record induces for a region.
pub open spec fn plan_matches(rec: FaiRecord, rg: Region, p: SeekPlan) -> bool {
    &&& p.start_offset as int == fai_pos(
        rec.offset as int,
        rec.line_bases as int,
        rec.line_width as int,
        rg.start as int,
    )
    &&& p.byte_len as int == fai_pos(
        rec.offset as int,
        rec.line_bases as int,
        rec.line_width as int,
        rg.end as int,
    ) + 1 - p.start_offset as int
    &&& p.line_bases == rec.line_bases
    &&& p.line_width == rec.line_width
    &&& p.start_col as int == (rg.start as int - 1) % (rec.line_bases as int)
}

/// An index maps each sequence name at most once.
pub open spec fn index_wf(index: Seq<FaiRecord>) -> bool {
    forall|i: int, j: int| 0 <= i < j < index.len() ==> index[i].name@ != index[j].name@
}

/// The residue-position-to-offset map is monotone: a later residue never
/// sits at an earlier byte.
proof fn lemma_fai_monotone(s: int, e: int, lb: int, lw: int)
    requires
        0 <= s <= e,
        1 <= lb <= lw,
    ensures
        (s / lb) * lw + s % lb <= (e / lb) * lw + e % lb,
{
    lemma_div_is_ordered(s, e, lb);
    lemma_fundamental_div_mod(s, lb);
    lemma_fundamental_div_mod(e, lb);
    if s / lb == e / lb {
    } else {
        lemma_mul_inequality(s / lb + 1, e / lb, lw);
        assert((s / lb + 1) * lw == (s / lb) * lw + lw) by (nonlinear_arith);
    }
}

/// Resolves a region against the index: finds its sequence, checks the
/// coordinates, and computes the exact byte range to read. Fails with
/// `IndexLookup` exactly when the sequence is unknown, a coordinate is out
/// of range, the index line layout is degenerate, or an offset would not
/// fit.
#[verifier::loop_isolation(false)]
pub fn resolve_region(index: &Vec<FaiRecord>, region: &Region) -> (r: Result<
    SeekPlan,
    EngineError,
>)
    requires
        index_wf(index@),
    ensures
        r is Ok <==> exists|i: int|
            0 <= i < index@.len() && (#[trigger] index@[i].name@) == region.name@ && region_ok(
                index@[i],
                *region,
            ),
        r matches Ok(p) ==> exists|i: int|
            0 <= i < index@.len() && (#[trigger] index@[i].name@) == region.name@ && region_ok(
                index@[i],
                *region,
            ) && plan_matches(index@[i], *region, p),
        r matches Err(e) ==> e is IndexLookup,
{
    let mut i: usize = 0;
    while i < index.len()
        invariant
            i <= index@.len(),
            forall|k: int| 0 <= k < i ==> (#[trigger] index@[k].name@) != region.name@,
        decreases index@.len() - i,
    {
        let is_match = match compare_names(index[i].name.as_str(), region.name.as_str()) {
            NameOrder::Same => true,
            _ => false,
        };
        if is_match {
            proof {
                assert forall|j: int|
                    0 <= j < index@.len() && (#[trigger] index@[j].name@)
                        == region.name@ implies j == i as int by {
                    if j < i as int {
                    } else if j > i as int {
                        assert(index@[i as int].name@ != index@[j].name@);
                    }
                }
            }
            let rec = &index[i];
            if rec.line_bases == 0 || rec.line_bases >= rec.line_width {
                return Err(
                    EngineError::IndexLookup(
                        "degenerate line layout in sequence index".to_owned(),
                    ),
                );
            }
            if region.start == 0 || region.start > region.end || region.end > rec.length {
                return Err(
                    EngineError::IndexLookup("region out of range for sequence".to_owned()),
                );
            }
            let off = rec.offset as u128;
            let lb = rec.line_bases as u128;
            let lw = rec.line_width as u128;
            let s = (region.start - 1) as u128;
            let e = (region.end - 1) as u128;
            proof {
                assert((s / lb) * lw <= (u64::MAX as int) * (u64::MAX as int)) by {
                    lemma_div_is_ordered(0, s as int, lb as int);
                    lemma_div_is_ordered(s as int, u64::MAX as int, lb as int);
                    assert(s as int / (lb as int) <= u64::MAX as int) by {
                        vstd::arithmetic::div_mod::lemma_div_is_ordered_by_denominator(
                            u64::MAX as int,
                            1,
                            lb as int,
                        );
                        vstd::arithmetic::div_mod::lemma_div_basics(u64::MAX as int);
                    }
                    lemma_mul_inequality(s as int / (lb as int), u64::MAX as int, lw as int);
                    lemma_mul_inequality(lw as int, u64::MAX as int, u64::MAX as int);
                }
                assert((e / lb) * lw <= (u64::MAX as int) * (u64::MAX as int)) by {
                    lemma_div_is_ordered(0, e as int, lb as int);
                    lemma_div_is_ordered(e as int, u64::MAX as int, lb as int);
                    assert(e as int / (lb as int) <= u64::MAX as int) by {
                        vstd::arithmetic::div_mod::lemma_div_is_ordered_by_denominator(
                            u64::MAX as int,
                            1,
                            lb as int,
                        );
                        vstd::arithmetic::div_mod::lemma_div_basics(u64::MAX as int);
                    }
                    lemma_mul_inequality(e as int / (lb as int), u64::MAX as int, lw as int);
                    lemma_mul_inequality(lw as int, u64::MAX as int, u64::MAX as int);
                }
                assert((u64::MAX as int) * (u64::MAX as int) + 2 * (u64::MAX as int)
                    <= u128::MAX as int) by (nonlinear_arith);
            }
            let start_pos = off + (s / lb) * lw + s % lb;
            let end_pos = off + (e / lb) * lw + e % lb;
            if end_pos > (u64::MAX - 1) as u128 {
                return Err(
                    EngineError::IndexLookup(
                        "region offset exceeds the file offset range".to_owned(),
                    ),
                );
            }
            proof {
                lemma_fai_monotone(s as int, e as int, lb as int, lw as int);
            }
            let plan = SeekPlan {
                start_offset: start_pos as u64,
                byte_len: (end_pos - start_pos + 1) as u64,
                line_bases: rec.line_bases,
                line_width: rec.line_width,
                start_col: (s % lb) as u64,
            };
            return Ok(plan);
        }
        i += 1;
    }
    Err(EngineError::IndexLookup("unknown sequence name in region".to_owned()))
}

/// The residues in a raw byte range read at column `col` of a sequence laid
/// out with `lb` residues per `lw`-byte line: every byte in a residue
/// column, with the line terminators dropped.
pub open spec fn spec_extract(bytes: Seq<u8>, col: int, lb: int, lw: int) -> Seq<u8>
    decreases bytes.len(),
{
    if bytes.len() == 0 {
        Seq::empty()
    } else if col < lb {
        seq![bytes[0]] + spec_extract(bytes.skip(1), col + 1, lb, lw)
    } else if col + 1 < lw {
        spec_extract(bytes.skip(1), col + 1, lb, lw)
    } else {
        spec_extract(bytes.skip(1), 0, lb, lw)
    }
}

/// Drops the line terminators from a raw byte range, keeping exactly the
/// residue bytes.
#[verifier::loop_isolation(false)]
pub fn extract_bases(bytes: &Vec<u8>, start_col: u64, line_bases: u64, line_width: u64) -> (r:
    Vec<u8>)
    requires
        line_bases < line_width,
        start_col < line_width,
    ensures
        r@ == spec_extract(
            bytes@,
            start_col as int,
            line_bases as int,
            line_width as int,
        ),
{
    let ghost lb = line_bases as int;
    let ghost lw = line_width as int;
    let mut out: Vec<u8> = Vec::new();
    let mut col = start_col;
    let mut i: usize = 0;
    proof {
        assert(bytes@.skip(0) =~= bytes@);
    }
    while i < bytes.len()
        invariant
            i <= bytes@.len(),
            col < line_width,
            out@ + spec_extract(bytes@.skip(i as int), col as int, lb, lw) == spec_extract(
                bytes@,
                start_col as int,
                lb,
                lw,
            ),
        decreases bytes@.len() - i,
    {
        let ghost pre = bytes@.skip(i as int);
        proof {
            assert(pre[0] == bytes@[i as int]);
            assert(pre.skip(1) =~= bytes@.skip(i as int + 1));
        }
        if col < line_bases {
            out.push(bytes[i]);
            col = col + 1;
            proof {
                assert(out@ + spec_extract(bytes@.skip(i as int + 1), col as int, lb, lw)
                    =~= spec_extract(bytes@, start_col as int, lb, lw));
            }
        } else if col + 1 < line_width {
            col = col + 1;
        } else {
            col = 0;
        }
        i += 1;
    }
    proof {
        assert(bytes@.skip(bytes@.len() as int).len() == 0);
        assert(out@ =~= spec_extract(bytes@, start_col as int, lb, lw));
    }
    out
}

/// Relies on std's `String::from_utf8`: succeeds exactly on valid UTF-8 and
/// yields the string those bytes encode.
#[verifier::external_body]
fn string_from_utf8(v: Vec<u8>) -> (r: Option<String>)
    ensures
        r is Some <==> valid_utf8(v@),
        r matches Some(s) ==> encode_utf8(s@) == v@,
{
    String::from_utf8(v).ok()
}

/// Decodes the bytes read for a region into one derived record named after
/// the region. Malformed (non-UTF-8) sequence data is an upstream parse
/// error, never silently dropped.
pub fn region_record(region: &Region, plan: &SeekPlan, bytes: Vec<u8>) -> (r: Result<
    FastaRecord,
    EngineError,
>)
    requires
        plan.line_bases < plan.line_width,
        plan.start_col < plan.line_width,
    ensures
        r is Ok <==> valid_utf8(
            spec_extract(
                bytes@,
                plan.start_col as int,
                plan.line_bases as int,
                plan.line_width as int,
            ),
        ),
        r matches Ok(rec) ==> rec.name@ == region.name@ && encode_utf8(rec.sequence@)
            == spec_extract(
            bytes@,
            plan.start_col as int,
            plan.line_bases as int,
            plan.line_width as int,
        ),
        r matches Err(e) ==> e is UpstreamParse,
{
    let bases = extract_bases(&bytes, plan.start_col, plan.line_bases, plan.line_width);
    match string_from_utf8(bases) {
        Some(s) => Ok(FastaRecord { name: region.name.clone(), sequence: s }),
        None => Err(
            EngineError::UpstreamParse("sequence data is not valid UTF-8".to_owned()),
        ),
    }
}

/// A pull-protocol query scan: the caller resolves each region in the order
/// given (through [`resolve_region`] over `index`), reads the planned byte
/// range, decodes it ([`region_record`]), and hands the derived record to
/// `batches`. Regions are processed independently: overlapping or
/// out-of-order regions are each honored on their own terms.
pub struct QueryBatchIterator {
    pub index: Vec<FaiRecord>,
    pub regions: Vec<Region>,
    pub batches: BatchIterator,
}

/// The effective query batch size: matched segments are typically small, so
/// the default is much larger than the sequential default.
pub open spec fn eff_query_batch_size(batch_size: Option<usize>) -> int {
    match batch_size {
        None => 1024,
        Some(b) => b as int,
    }
}

/// The matched records of a set of regions, flattened in region order.
pub open spec fn flatten_models(rs: Seq<Vec<FastaRecord>>) -> Seq<(Seq<char>, Seq<char>)>
    decreases rs.len(),
{
    if rs.len() == 0 {
        Seq::empty()
    } else {
        rec_models(rs[0]@) + flatten_models(rs.skip(1))
    }
}

/// A stateless, reusable FASTA scanner.
pub struct Scanner {}

impl Scanner {
    /// Creates a FASTA scanner.
    pub fn new() -> Scanner {
        Scanner {  }
    }

    /// The fixed FASTA field names, in format order; dynamically inferred
    /// attribute columns are not part of this list.
    pub fn field_names(&self) -> (r: Vec<String>)
        ensures
            r@.len() == 2,
            r@[0]@ == "name"@,
            r@[1]@ == "sequence"@,
    {
        let mut v: Vec<String> = Vec::new();
        v.push("name".to_owned());
        v.push("sequence".to_owned());
        v
    }

    /// The columnar schema for an optional subset/ordering of field names;
    /// independent of batching. One non-nullable UTF-8 field per selected
    /// fixed field, under its column name, in the selected order. An
    /// unknown or repeated field name is `InvalidInput`.
    pub fn schema(&self, fields: Option<Vec<String>>) -> (r: Result<
        arrow::datatypes::Schema,
        EngineError,
    >)
        ensures
            r is Ok <==> field_filter_ok(fields),
            r matches Ok(s) ==> schema_fields(s).len() == selected_fields(fields).len()
                && forall|j: int|
                0 <= j < selected_fields(fields).len() ==> #[trigger] schema_fields(s)[j]
                    == (
                fasta_field_title(selected_fields(fields)[j]),
                Some(AttributeType::String),
                false,
            ),
            r matches Err(e) ==> e is InvalidInput,
    {
        match FastaBatchBuilder::new(fields) {
            Ok(b) => Ok(b.get_arrow_schema()),
            Err(e) => Err(e),
        }
    }

    /// Begins a sequential scan: a fresh iterator that slices the stream
    /// the caller feeds it into batches of at most `batch_size` records
    /// (default one record per batch), up to an optional record limit.
    pub fn scan(
        &self,
        fields: Option<Vec<String>>,
        batch_size: Option<usize>,
        limit: Option<usize>,
    ) -> (r: Result<BatchIterator, EngineError>)
        ensures
            r is Ok <==> field_filter_ok(fields) && batch_size_ok(batch_size),
            r matches Ok(it) ==> it.wf() && it.taken().len() == 0 && it.pending().len() == 0
                && it.fields() == selected_fields(fields) && it.spec_batch_size()
                == eff_batch_size(batch_size) && it.spec_limit() == limit,
            r matches Err(e) ==> e is InvalidInput,
    {
        let bs: usize = match batch_size {
            None => 1,
            Some(b) => {
                if b == 0 {
                    return Err(
                        EngineError::InvalidInput("batch size must be positive".to_owned()),
                    );
                }
                b
            },
        };
        let builder = match FastaBatchBuilder::new(fields) {
            Ok(b) => b,
            Err(e) => {
                return Err(e);
            },
        };
        let it = BatchIterator {
            builder,
            batch_size: bs,
            limit,
            accepted: 0,
            emitted_g: Ghost(Seq::empty()),
        };
        proof {
            assert(it.taken() =~= Seq::<(Seq<char>, Seq<char>)>::empty());
        }
        Ok(it)
    }

    /// Begins an indexed query scan over the given regions (default batch
    /// size much larger than the sequential default).
    pub fn scan_query(
        &self,
        index: Vec<FaiRecord>,
        regions: Vec<Region>,
        fields: Option<Vec<String>>,
        batch_size: Option<usize>,
    ) -> (r: Result<QueryBatchIterator, EngineError>)
        ensures
            r is Ok <==> field_filter_ok(fields) && batch_size_ok(batch_size),
            r matches Ok(q) ==> q.batches.wf() && q.batches.taken().len() == 0
                && q.batches.fields() == selected_fields(fields) && q.batches.spec_batch_size()
                == eff_query_batch_size(batch_size) && q.batches.spec_limit() is None
                && q.index@ == index@ && q.regions@ == regions@,
            r matches Err(e) ==> e is InvalidInput,
    {
        let bs: Option<usize> = match batch_size {
            None => Some(1024),
            Some(b) => Some(b),
        };
        let inner = match self.scan(fields, bs, None) {
            Ok(it) => it,
            Err(e) => {
                return Err(e);
            },
        };
        Ok(QueryBatchIterator { index, regions, batches: inner })
    }

    /// Scans an in-memory record stream eagerly: exactly
    /// `ceil(min(limit, len) / batch_size)` batches over exactly the first
    /// `min(limit, len)` records, in stream order, never more.
    #[verifier::loop_isolation(false)]
    #[verifier::rlimit(80)]
    pub fn scan_records(
        &self,
        records: Vec<FastaRecord>,
        fields: Option<Vec<String>>,
        batch_size: Option<usize>,
        limit: Option<usize>,
    ) -> (r: Result<Vec<FastaBatch>, EngineError>)
        requires
            batch_size_ok(batch_size) ==> windows_fit(
                rec_models(records@),
                eff_batch_size(batch_size),
                eff_limit(limit, records@.len() as int),
            ),
        ensures
            r is Ok <==> field_filter_ok(fields) && batch_size_ok(batch_size),
            r matches Err(e) ==> e is InvalidInput,
            r matches Ok(batches) ==> scan_output_ok(
                batches@,
                rec_models(records@),
                selected_fields(fields),
                eff_batch_size(batch_size),
                eff_limit(limit, records@.len() as int),
            ),
    {
        let bs: usize = match batch_size {
            None => 1,
            Some(b) => {
                if b == 0 {
                    return Err(
                        EngineError::InvalidInput("batch size must be positive".to_owned()),
                    );
                }
                b
            },
        };
        proof {
            assert(batch_size_ok(batch_size));
        }
        let mut builder = match FastaBatchBuilder::new(fields) {
            Ok(b) => b,
            Err(e) => {
                return Err(e);
            },
        };
        let n: usize = match limit {
            None => records.len(),
            Some(l) => (if l < records.len() {
                l
            } else {
                records.len()
            }),
        };
        let ghost models = rec_models(records@);
        let mut out: Vec<FastaBatch> = Vec::new();
        let mut i: usize = 0;
        proof {
            assert(out@.len() == 0);
            assert(bs as int * out@.len() == 0) by (nonlinear_arith)
                requires
                    out@.len() == 0,
            ;
            assert(builder.rows() =~= models.subrange(bs as int * out@.len(), 0));
        }
        while i < n
            invariant
                builder.wf(),
                builder.fields_spec() == selected_fields(fields),
                i <= n,
                builder.rows() == models.subrange(bs as int * out@.len(), i as int),
                i as int == bs as int * out@.len() + builder.rows().len(),
                builder.rows().len() < bs,
                forall|k: int|
                    0 <= k < out@.len() ==> (#[trigger] out@[k]).wf() && out@[k].fields@
                        == selected_fields(fields) && out@[k].rows() == models.subrange(
                        bs as int * k,
                        bs as int * (k + 1),
                    ) && bs as int * (k + 1) <= i,
            decreases n - i,
        {
            proof {
                let kk = out@.len() as int;
                let bsi = bs as int;
                let ni = n as int;
                let q = (ni - 1) / bsi;
                let rr = (ni - 1) % bsi;
                lemma_fundamental_div_mod(ni - 1, bsi);
                assert(0 <= rr < bsi) by (nonlinear_arith)
                    requires
                        bsi >= 1,
                        rr == (ni - 1) % bsi,
                ;
                assert((q + 1) * bsi == q * bsi + bsi) by (nonlinear_arith);
                assert(q * bsi == bsi * q) by (nonlinear_arith);
                lemma_fundamental_div_mod_converse_div(ni + bsi - 1, bsi, q + 1, rr);
                assert(ceil_div(ni, bsi) == q + 1);
                lemma_fundamental_div_mod_converse_div(bsi * kk, bsi, kk, 0);
                lemma_div_is_ordered(bsi * kk, ni - 1, bsi);
                assert(kk < ceil_div(ni, bsi));
                let w = batch_window(models, bsi, ni, kk);
                assert(models_bytes(w, FastaField::Name) <= i32::MAX);
                assert(models_bytes(w, FastaField::Sequence) <= i32::MAX);
                assert(bsi * (kk + 1) == bsi * kk + bsi) by (nonlinear_arith);
                let u = if bsi * (kk + 1) <= ni {
                    bsi * (kk + 1)
                } else {
                    ni
                };
                assert(i + 1 <= u);
                let head = models.subrange(bsi * kk, i as int + 1);
                assert(w =~= head + models.subrange(i as int + 1, u));
                lemma_models_bytes_add(
                    head,
                    models.subrange(i as int + 1, u),
                    FastaField::Name,
                );
                lemma_models_bytes_add(
                    head,
                    models.subrange(i as int + 1, u),
                    FastaField::Sequence,
                );
                lemma_models_bytes_nonneg(
                    models.subrange(i as int + 1, u),
                    FastaField::Name,
                );
                lemma_models_bytes_nonneg(
                    models.subrange(i as int + 1, u),
                    FastaField::Sequence,
                );
                assert(head.drop_last() =~= models.subrange(bsi * kk, i as int));
                assert(head.last() == models[i as int]);
                assert(records@[i as int].model() == models[i as int]);
            }
            builder.push_record(&records[i]);
            proof {
                assert(records@[i as int].model() == models[i as int]);
                assert(models.subrange(bs as int * out@.len(), i as int).push(
                    models[i as int],
                ) =~= models.subrange(bs as int * out@.len(), i as int + 1));
            }
            i += 1;
            if builder.count() == bs {
                let ghost kk = out@.len() as int;
                let b = builder.finish_batch();
                proof {
                    assert(bs as int * (kk + 1) == bs as int * kk + bs as int)
                        by (nonlinear_arith);
                    assert(builder.rows() =~= models.subrange(
                        bs as int * (kk + 1),
                        i as int,
                    ));
                }
                out.push(b);
            }
        }
        let ghost kk = out@.len() as int;
        let ghost pend = builder.rows().len() as int;
        if builder.count() > 0 {
            let b = builder.finish_batch();
            out.push(b);
            proof {
                assert(bs as int * (kk + 1) == bs as int * kk + bs as int)
                    by (nonlinear_arith);
                lemma_fundamental_div_mod_converse_div(
                    n as int + bs as int - 1,
                    bs as int,
                    kk + 1,
                    pend - 1,
                );
            }
        } else {
            proof {
                lemma_fundamental_div_mod_converse_div(
                    n as int + bs as int - 1,
                    bs as int,
                    kk,
                    bs as int - 1,
                );
            }
        }
        proof {
            let fin = out@;
            let nn = eff_limit(limit, records@.len() as int);
            assert(nn == n as int);
            assert forall|k: int| 0 <= k < fin.len() implies (#[trigger] fin[k]).wf()
                && fin[k].fields@ == selected_fields(fields) && fin[k].rows()
                == models.subrange(
                bs as int * k,
                if bs as int * (k + 1) <= nn {
                    bs as int * (k + 1)
                } else {
                    nn
                },
            ) by {
                if k == kk {
                    assert(bs as int * (kk + 1) == bs as int * kk + bs as int)
                        by (nonlinear_arith);
                }
            }
        }
        Ok(out)
    }

    /// Batches the matched records of a set of regions eagerly: the batches'
    /// union, in region order, is exactly the concatenation of each region's
    /// matches; a region matching zero records contributes zero records,
    /// without error.
    #[verifier::loop_isolation(false)]
    pub fn scan_query_records(
        &self,
        per_region: Vec<Vec<FastaRecord>>,
        fields: Option<Vec<String>>,
        batch_size: Option<usize>,
    ) -> (r: Result<Vec<FastaBatch>, EngineError>)
        requires
            batch_size_ok(batch_size) ==> windows_fit(
                flatten_models(per_region@),
                eff_query_batch_size(batch_size),
                flatten_models(per_region@).len() as int,
            ),
        ensures
            r is Ok <==> field_filter_ok(fields) && batch_size_ok(batch_size),
            r matches Err(e) ==> e is InvalidInput,
            r matches Ok(batches) ==> scan_output_ok(
                batches@,
                flatten_models(per_region@),
                selected_fields(fields),
                eff_query_batch_size(batch_size),
                flatten_models(per_region@).len() as int,
            ),
    {
        let ghost total = flatten_models(per_region@);
        let mut source = per_region;
        let mut flat: Vec<FastaRecord> = Vec::new();
        proof {
            assert(rec_models(flat@) =~= Seq::<(Seq<char>, Seq<char>)>::empty());
            assert(rec_models(flat@) + flatten_models(source@) =~= total);
        }
        while source.len() > 0
            invariant
                rec_models(flat@) + flatten_models(source@) == total,
            decreases source@.len(),
        {
            let ghost src0 = source@;
            let mut v = source.remove(0);
            proof {
                assert(source@ =~= src0.skip(1));
                assert(rec_models(flat@) + (rec_models(v@) + flatten_models(source@))
                    =~= total);
            }
            while v.len() > 0
                invariant
                    rec_models(flat@) + (rec_models(v@) + flatten_models(source@)) == total,
                decreases v@.len(),
            {
                let ghost f0 = flat@;
                let ghost v0 = v@;
                let rec = v.remove(0);
                flat.push(rec);
                proof {
                    assert(rec_models(flat@) =~= rec_models(f0).push(
                        (rec.name@, rec.sequence@),
                    ));
                    assert(rec_models(v0) =~= seq![(rec.name@, rec.sequence@)] + rec_models(
                        v@,
                    ));
                    assert(rec_models(flat@) + (rec_models(v@) + flatten_models(source@))
                        =~= total);
                }
            }
            proof {
                assert(rec_models(v@) =~= Seq::<(Seq<char>, Seq<char>)>::empty());
                assert(rec_models(flat@) + flatten_models(source@) =~= total);
            }
        }
        proof {
            assert(rec_models(flat@) =~= total);
        }
        let bs: Option<usize> = match batch_size {
            None => Some(1024),
            Some(b) => Some(b),
        };
        proof {
            assert(rec_models(flat@) == total);
            assert(eff_batch_size(bs) == eff_query_batch_size(batch_size));
            assert(batch_size_ok(bs) == batch_size_ok(batch_size));
            assert(eff_limit(None, rec_models(flat@).len() as int) == total.len() as int);
        }
        self.scan_records(flat, fields, bs, None)
    }
}

} // verus!
