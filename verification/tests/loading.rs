use aligned_nearest_neighbor::fasta::validate_records;
use aligned_nearest_neighbor::record::Record;
use aligned_nearest_neighbor::{parse_all_records, FastaParseError, FastaParseErrorKind};

#[test]
fn records_are_read_in_order() {
    let records = parse_all_records(b">first some words\nAC-T\n>second\nAC\nGT\n").unwrap();
    assert_eq!(records, vec![Record::new("first", b"AC-T"), Record::new("second", b"ACGT")]);
    assert_eq!(records[0].id(), "first");
    assert_eq!(records[1].seq(), b"ACGT");
}

#[test]
fn a_single_record_is_an_alignment() {
    let records = parse_all_records(b">only\nACGT").unwrap();
    assert_eq!(records, vec![Record::new("only", b"ACGT")]);
}

#[test]
fn records_of_lengths_four_and_three_do_not_load() {
    let err = parse_all_records(b">a\nAAAA\n>b\nAAA\n").unwrap_err();
    assert_eq!(err.kind, FastaParseErrorKind::LengthMismatch);
    assert_eq!(err.message, "Record lengths don't match! FirstLen=4, got Len=3 for record index 1");
}

#[test]
fn the_first_record_of_another_length_is_named() {
    let mut text = String::new();
    for i in 0..15 {
        let len = if i == 12 || i == 14 { 123 } else { 10 };
        text.push_str(&format!(">r{}\n{}\n", i, "A".repeat(len)));
    }
    let err = parse_all_records(text.as_bytes()).unwrap_err();
    assert_eq!(err.kind, FastaParseErrorKind::LengthMismatch);
    assert_eq!(
        err.message,
        "Record lengths don't match! FirstLen=10, got Len=123 for record index 12"
    );
}

#[test]
fn lengths_are_written_in_decimal() {
    for (first, other) in [(0usize, 9usize), (9, 10), (100, 99), (1000, 1001), (65536, 7)] {
        let records = vec![
            Record::new("a", &vec![b'A'; first]),
            Record::new("b", &vec![b'A'; first]),
            Record::new("c", &vec![b'A'; other]),
        ];
        let err = validate_records(records).unwrap_err();
        assert_eq!(err.kind, FastaParseErrorKind::LengthMismatch);
        assert_eq!(
            err.message,
            format!(
                "Record lengths don't match! FirstLen={}, got Len={} for record index {}",
                first, other, 2
            )
        );
    }
}

#[test]
fn an_empty_text_does_not_load() {
    let err = parse_all_records(b"").unwrap_err();
    assert_eq!(err.kind, FastaParseErrorKind::EmptyFile);
    assert_eq!(err.message, "No records found.");
}

#[test]
fn no_records_are_not_an_alignment() {
    let err = validate_records(Vec::new()).unwrap_err();
    assert_eq!(err.kind, FastaParseErrorKind::EmptyFile);
    assert_eq!(err.message, "No records found.");
}

#[test]
fn text_that_is_not_fasta_does_not_load() {
    let err = parse_all_records(b"ACGT\n>a\nACGT\n").unwrap_err();
    assert_eq!(err.kind, FastaParseErrorKind::IOError);
    assert!(err.message.starts_with("IO error: "));
    assert!(err.message.len() > "IO error: ".len());

    let err = parse_all_records(b">a\nAC\xffGT\n").unwrap_err();
    assert_eq!(err.kind, FastaParseErrorKind::IOError);
    assert!(err.message.starts_with("IO error: "));
}

#[test]
fn valid_records_come_back_unchanged() {
    let records = vec![Record::new("a", b"AC"), Record::new("b", b"GT"), Record::new("c", b"--")];
    let checked = validate_records(records.clone()).unwrap();
    assert_eq!(checked, records);
    let empty = vec![Record::new("a", b""), Record::new("b", b"")];
    assert_eq!(validate_records(empty.clone()).unwrap(), empty);
}

#[test]
fn a_failure_to_read_becomes_an_error_of_its_kind() {
    let io = std::io::Error::new(std::io::ErrorKind::NotFound, "no such file");
    let err = FastaParseError::from(io);
    assert_eq!(err.kind, FastaParseErrorKind::IOError);
    assert_eq!(err.message, "IO error: no such file");
}
