use oxbow::error::EngineError;
use oxbow::fasta::extract_bases;
use oxbow::fasta::region_record;
use oxbow::fasta::resolve_region;
use oxbow::fasta::FaiRecord;
use oxbow::fasta::FastaBatch;
use oxbow::fasta::FastaRecord;
use oxbow::fasta::Region;
use oxbow::fasta::Scanner;

fn rec(name: &str, seq: &str) -> FastaRecord {
    FastaRecord { name: name.to_string(), sequence: seq.to_string() }
}

fn batch_names(batch: &FastaBatch) -> Vec<String> {
    // With the default field selection, column 0 is the name column.
    let col = &batch.columns[0];
    let mut out = Vec::new();
    for i in 0..col.len() {
        assert!(!col.is_null(i));
        out.push(col.value(i));
    }
    out
}

#[test]
fn field_names_lists_the_fixed_fields() {
    let scanner = Scanner::new();
    assert_eq!(
        scanner.field_names(),
        vec!["name".to_string(), "sequence".to_string()]
    );
}

#[test]
fn schema_accepts_known_fields_and_rejects_others() {
    let scanner = Scanner::new();
    let schema = scanner.schema(None).unwrap();
    assert_eq!(schema.fields().len(), 2);
    assert_eq!(schema.field(0).name(), "name");
    assert_eq!(schema.field(1).name(), "sequence");

    let schema = scanner
        .schema(Some(vec!["sequence".to_string(), "name".to_string()]))
        .unwrap();
    assert_eq!(schema.field(0).name(), "sequence");
    assert_eq!(schema.field(1).name(), "name");

    assert!(matches!(
        scanner.schema(Some(vec!["bogus".to_string()])),
        Err(EngineError::InvalidInput(_))
    ));
    assert!(matches!(
        scanner.schema(Some(vec!["name".to_string(), "name".to_string()])),
        Err(EngineError::InvalidInput(_))
    ));
}

#[test]
fn limited_scan_yields_ceil_of_limit_over_batch_size() {
    let scanner = Scanner::new();
    let records = vec![
        rec("r1", "AA"),
        rec("r2", "CC"),
        rec("r3", "GG"),
        rec("r4", "TT"),
        rec("r5", "AT"),
    ];
    let batches = scanner
        .scan_records(records, None, Some(2), Some(3))
        .unwrap();
    assert_eq!(batches.len(), 2);
    assert_eq!(batches[0].num_records, 2);
    assert_eq!(batches[1].num_records, 1);
    assert_eq!(batch_names(&batches[0]), vec!["r1", "r2"]);
    assert_eq!(batch_names(&batches[1]), vec!["r3"]);
}

#[test]
fn default_batch_size_is_one_record_per_batch() {
    let scanner = Scanner::new();
    let records = vec![rec("a", "A"), rec("b", "C"), rec("c", "G")];
    let batches = scanner.scan_records(records, None, None, None).unwrap();
    assert_eq!(batches.len(), 3);
    for (i, name) in ["a", "b", "c"].iter().enumerate() {
        assert_eq!(batches[i].num_records, 1);
        assert_eq!(batch_names(&batches[i]), vec![name.to_string()]);
    }
}

#[test]
fn zero_batch_size_is_invalid_input() {
    let scanner = Scanner::new();
    assert!(matches!(
        scanner.scan_records(vec![rec("a", "A")], None, Some(0), None),
        Err(EngineError::InvalidInput(_))
    ));
}

#[test]
fn field_filter_restricts_and_orders_columns() {
    let scanner = Scanner::new();
    let records = vec![rec("r1", "ACGT")];
    let batches = scanner
        .scan_records(records, Some(vec!["sequence".to_string()]), None, None)
        .unwrap();
    assert_eq!(batches.len(), 1);
    assert_eq!(batches[0].columns.len(), 1);
    assert_eq!(batches[0].columns[0].value(0), "ACGT");
}

#[test]
fn batch_iterator_emits_on_full_batches_and_flushes_the_rest() {
    let scanner = Scanner::new();
    let mut it = scanner.scan(None, Some(2), Some(3)).unwrap();

    assert!(it.wants_more());
    assert!(it.accept(&rec("r1", "A")).is_none());
    let b = it.accept(&rec("r2", "C")).expect("second record fills the batch");
    assert_eq!(b.num_records, 2);
    assert_eq!(batch_names(&b), vec!["r1", "r2"]);

    assert!(it.wants_more());
    assert!(it.accept(&rec("r3", "G")).is_none());
    assert!(!it.wants_more());

    let b = it.flush().expect("one record is pending");
    assert_eq!(b.num_records, 1);
    assert_eq!(batch_names(&b), vec!["r3"]);
    assert!(it.flush().is_none());
}

fn sample_index() -> Vec<FaiRecord> {
    vec![FaiRecord {
        name: "chr1".to_string(),
        length: 10,
        offset: 10,
        line_bases: 4,
        line_width: 5,
    }]
}

#[test]
fn resolve_region_computes_exact_byte_range() {
    // Sequence of 10 residues in 4-residue lines with one terminator byte:
    // residue 6 sits at offset 10 + 1*5 + 1 = 16, residue 9 at 10 + 2*5 = 20.
    let index = sample_index();
    let region = Region { name: "chr1".to_string(), start: 6, end: 9 };
    let plan = resolve_region(&index, &region).unwrap();
    assert_eq!(plan.start_offset, 16);
    assert_eq!(plan.byte_len, 5);
    assert_eq!(plan.line_bases, 4);
    assert_eq!(plan.line_width, 5);
    assert_eq!(plan.start_col, 1);
}

#[test]
fn resolve_region_rejects_unknown_and_out_of_range() {
    let index = sample_index();
    assert!(matches!(
        resolve_region(&index, &Region { name: "chr2".to_string(), start: 1, end: 2 }),
        Err(EngineError::IndexLookup(_))
    ));
    assert!(matches!(
        resolve_region(&index, &Region { name: "chr1".to_string(), start: 0, end: 2 }),
        Err(EngineError::IndexLookup(_))
    ));
    assert!(matches!(
        resolve_region(&index, &Region { name: "chr1".to_string(), start: 5, end: 3 }),
        Err(EngineError::IndexLookup(_))
    ));
    assert!(matches!(
        resolve_region(&index, &Region { name: "chr1".to_string(), start: 1, end: 11 }),
        Err(EngineError::IndexLookup(_))
    ));
    let degenerate = vec![FaiRecord {
        name: "chr1".to_string(),
        length: 10,
        offset: 10,
        line_bases: 0,
        line_width: 5,
    }];
    assert!(matches!(
        resolve_region(&degenerate, &Region { name: "chr1".to_string(), start: 1, end: 2 }),
        Err(EngineError::IndexLookup(_))
    ));
}

#[test]
fn extract_bases_drops_line_terminators() {
    // The bytes covering chr1:6-9 of "ACGTACGTAC" at 4 residues per line:
    // "CGT\nA", entered at column 1.
    let bytes: Vec<u8> = b"CGT\nA".to_vec();
    assert_eq!(extract_bases(&bytes, 1, 4, 5), b"CGTA".to_vec());

    // A full two-line range with a two-byte terminator.
    let bytes: Vec<u8> = b"ACGT\r\nAC".to_vec();
    assert_eq!(extract_bases(&bytes, 0, 4, 6), b"ACGTAC".to_vec());
}

#[test]
fn region_record_derives_the_matched_record() {
    let index = sample_index();
    let region = Region { name: "chr1".to_string(), start: 6, end: 9 };
    let plan = resolve_region(&index, &region).unwrap();
    let record = region_record(&region, &plan, b"CGT\nA".to_vec()).unwrap();
    assert_eq!(record.name, "chr1");
    assert_eq!(record.sequence, "CGTA");
}

#[test]
fn region_record_rejects_malformed_sequence_bytes() {
    let index = sample_index();
    let region = Region { name: "chr1".to_string(), start: 6, end: 9 };
    let plan = resolve_region(&index, &region).unwrap();
    assert!(matches!(
        region_record(&region, &plan, vec![0xff, 0xfe, 0xfd, b'\n', 0xfc]),
        Err(EngineError::UpstreamParse(_))
    ));
}

#[test]
fn query_batches_cover_matches_in_region_order() {
    let scanner = Scanner::new();
    let per_region = vec![
        vec![rec("chr1:1-4", "ACGT"), rec("chr1:5-8", "ACGT")],
        vec![],
        vec![rec("chr2:1-2", "AC")],
    ];
    let batches = scanner.scan_query_records(per_region, None, None).unwrap();
    assert_eq!(batches.len(), 1);
    assert_eq!(batches[0].num_records, 3);
    assert_eq!(
        batch_names(&batches[0]),
        vec!["chr1:1-4", "chr1:5-8", "chr2:1-2"]
    );
}

#[test]
fn query_batches_split_at_batch_size() {
    let scanner = Scanner::new();
    let per_region = vec![vec![rec("a", "A")], vec![rec("b", "C"), rec("c", "G")]];
    let batches = scanner.scan_query_records(per_region, None, Some(2)).unwrap();
    assert_eq!(batches.len(), 2);
    assert_eq!(batch_names(&batches[0]), vec!["a", "b"]);
    assert_eq!(batch_names(&batches[1]), vec!["c"]);
}

#[test]
fn query_iterator_carries_regions_and_index() {
    let scanner = Scanner::new();
    let index = sample_index();
    let regions = vec![
        Region { name: "chr1".to_string(), start: 1, end: 4 },
        Region { name: "chr1".to_string(), start: 6, end: 9 },
    ];
    let mut q = scanner.scan_query(index, regions, None, None).unwrap();
    assert_eq!(q.regions.len(), 2);

    // Drive the protocol over an in-memory image of the indexed file.
    let file: Vec<u8> = b"0123456789ACGT\nACGT\nAC\n".to_vec();
    let mut emitted = Vec::new();
    for i in 0..q.regions.len() {
        let region = q.regions[i].clone();
        let plan = resolve_region(&q.index, &region).unwrap();
        let lo = plan.start_offset as usize;
        let hi = lo + plan.byte_len as usize;
        let record = region_record(&region, &plan, file[lo..hi].to_vec()).unwrap();
        if let Some(b) = q.batches.accept(&record) {
            emitted.push(b);
        }
    }
    if let Some(b) = q.batches.flush() {
        emitted.push(b);
    }
    assert_eq!(emitted.len(), 1);
    let sequences: Vec<String> = {
        let col = &emitted[0].columns[1];
        (0..col.len()).map(|i| col.value(i)).collect()
    };
    assert_eq!(sequences, vec!["ACGT", "CGTA"]);
}

#[test]
fn empty_stream_yields_no_batches() {
    let scanner = Scanner::new();
    let batches = scanner.scan_records(vec![], None, Some(3), None).unwrap();
    assert!(batches.is_empty());
    let batches = scanner.scan_query_records(vec![vec![]], None, None).unwrap();
    assert!(batches.is_empty());
}

#[test]
fn limit_larger_than_stream_reads_the_whole_stream() {
    let scanner = Scanner::new();
    let records = vec![rec("a", "A"), rec("b", "C")];
    let batches = scanner.scan_records(records, None, Some(10), Some(99)).unwrap();
    assert_eq!(batches.len(), 1);
    assert_eq!(batch_names(&batches[0]), vec!["a", "b"]);
}
