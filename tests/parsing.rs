use tarnished::counter::count;
use tarnished::parser::{nucleotide_counts, FastaRecord, ParseError};

const AB626963_SEQ: &str = "TAGATACATAAATTTTGTATTTGATGAATATTTAATAGGTTAGATAAGTTTGAAAAGT";

fn fold(seq: &str, width: usize) -> String {
    let mut out = String::new();
    let bytes = seq.as_bytes();
    let mut start = 0;
    while start < bytes.len() {
        let end = usize::min(start + width, bytes.len());
        out.push_str(&seq[start..end]);
        out.push('\n');
        start = end;
    }
    out
}

#[test]
fn test_parsing() {
    let text = format!(
        ">AB626963.1 Uncultured bacterium gene, partial sequence\n{}\n",
        AB626963_SEQ
    );
    let parsed_result = FastaRecord::parse(text.as_bytes());
    let parsed_record = parsed_result.unwrap();

    assert_eq!(
        parsed_record,
        FastaRecord {
            id: "AB626963.1".to_string(),
            sequence: AB626963_SEQ.as_bytes().to_vec(),
            nucleotide_counts: [("A", 23), ("T", 24), ("G", 10), ("C", 1)],
        }
    )
}

#[test]
fn symbol_outside_alphabet_is_not_counted() {
    let seq = format!("{}N{}", &AB626963_SEQ[..30], &AB626963_SEQ[30..]);
    assert_eq!(seq.len(), 59);
    let counts = nucleotide_counts(seq.as_bytes());
    assert_eq!(counts, [("A", 23), ("T", 24), ("G", 10), ("C", 1)]);
    let total: u64 = counts.iter().map(|c| c.1).sum();
    assert_eq!(total, 58);
}

#[test]
fn counts_add_up_to_length_of_pure_sequence() {
    let counts = nucleotide_counts(AB626963_SEQ.as_bytes());
    let total: u64 = counts.iter().map(|c| c.1).sum();
    assert_eq!(total, AB626963_SEQ.len() as u64);
}

#[test]
fn counting_is_case_sensitive() {
    let counts = nucleotide_counts(b"acgtACGT");
    assert_eq!(counts, [("A", 1), ("T", 1), ("G", 1), ("C", 1)]);
}

#[test]
fn empty_sequence_counts_nothing() {
    assert_eq!(nucleotide_counts(b""), [("A", 0), ("T", 0), ("G", 0), ("C", 0)]);
    assert_eq!(count(b"", b"ATGC"), vec![0, 0, 0, 0]);
}

#[test]
fn count_follows_the_alphabet_order() {
    assert_eq!(count(b"GGCATNNA", b"CGAT"), vec![1, 2, 2, 1]);
    assert_eq!(count(b"GGCATNNA", b"N"), vec![2]);
    assert_eq!(count(b"GGCATNNA", b""), Vec::<u64>::new());
}

#[test]
fn empty_file_is_an_empty_file_error() {
    assert_eq!(FastaRecord::parse(b""), Err(ParseError::EmptyFile));
}

#[test]
fn text_without_header_is_an_empty_file_error() {
    assert_eq!(FastaRecord::parse(b"ACGT\nACGT\n"), Err(ParseError::EmptyFile));
    assert_eq!(FastaRecord::parse(b"AC>GT\n"), Err(ParseError::EmptyFile));
    assert_eq!(FastaRecord::parse(b"\n\n"), Err(ParseError::EmptyFile));
}

#[test]
fn lines_before_header_are_skipped() {
    let rec = FastaRecord::parse(b"\n>id\nACGT\n").unwrap();
    assert_eq!(rec.id, "id");
    assert_eq!(rec.sequence, b"ACGT".to_vec());
    let rec = FastaRecord::parse(b"GGGG\nnotes\n>x y\nAA\n").unwrap();
    assert_eq!(rec.id, "x");
    assert_eq!(rec.nucleotide_counts, [("A", 2), ("T", 0), ("G", 0), ("C", 0)]);
}

#[test]
fn header_without_id_is_malformed() {
    assert_eq!(FastaRecord::parse(b">\nACGT\n"), Err(ParseError::Malformed));
    assert_eq!(FastaRecord::parse(b"> desc\nACGT\n"), Err(ParseError::Malformed));
    assert_eq!(FastaRecord::parse(b">\n"), Err(ParseError::Malformed));
}

#[test]
fn non_ascii_sequence_is_malformed() {
    assert_eq!(
        FastaRecord::parse(">id\nAC\u{c4}GT\n".as_bytes()),
        Err(ParseError::Malformed)
    );
}

#[test]
fn id_is_first_token_of_header() {
    let rec = FastaRecord::parse(b">seq1 some description\nAACG\n").unwrap();
    assert_eq!(rec.id, "seq1");
    assert!(!rec.id.contains(char::is_whitespace));
    assert_eq!(rec.nucleotide_counts, [("A", 2), ("T", 0), ("G", 1), ("C", 1)]);
}

#[test]
fn only_first_record_is_read() {
    let rec = FastaRecord::parse(b">first\nAAAA\n>second\nCCCCGG\n").unwrap();
    assert_eq!(rec.id, "first");
    assert_eq!(rec.sequence, b"AAAA".to_vec());
    assert_eq!(rec.nucleotide_counts, [("A", 4), ("T", 0), ("G", 0), ("C", 0)]);
}

#[test]
fn header_without_body_has_zero_counts() {
    let rec = FastaRecord::parse(b">lonely\n").unwrap();
    assert_eq!(rec.id, "lonely");
    assert!(rec.sequence.is_empty());
    assert_eq!(rec.nucleotide_counts, [("A", 0), ("T", 0), ("G", 0), ("C", 0)]);
}

#[test]
fn parsing_is_deterministic() {
    let text = format!(">AB626963.1\n{}\n", AB626963_SEQ);
    let a = FastaRecord::parse(text.as_bytes());
    let b = FastaRecord::parse(text.as_bytes());
    assert_eq!(a, b);
}

#[test]
fn counts_ignore_line_folding() {
    let long: String = AB626963_SEQ.repeat(3);
    let single = format!(">x\n{}\n", long);
    let at60 = format!(">x\n{}", fold(&long, 60));
    let at70 = format!(">x\n{}", fold(&long, 70));
    let a = FastaRecord::parse(single.as_bytes()).unwrap();
    let b = FastaRecord::parse(at60.as_bytes()).unwrap();
    let c = FastaRecord::parse(at70.as_bytes()).unwrap();
    assert_eq!(a, b);
    assert_eq!(a, c);
    assert_eq!(a.sequence, long.as_bytes().to_vec());
    assert_eq!(a.nucleotide_counts, [("A", 69), ("T", 72), ("G", 30), ("C", 3)]);
}

#[test]
fn windows_line_endings_are_stripped() {
    let rec = FastaRecord::parse(b">w\r\nAT\r\nGC\r\n").unwrap();
    assert_eq!(rec.id, "w");
    assert_eq!(rec.sequence, b"ATGC".to_vec());
    assert_eq!(rec.nucleotide_counts, [("A", 1), ("T", 1), ("G", 1), ("C", 1)]);
}
