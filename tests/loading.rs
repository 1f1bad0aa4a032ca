use tarnished::loader::load;
use tarnished::parser::ParseError;
use tarnished::paths::has_fasta_extension;

#[test]
fn missing_file_is_reported_and_others_kept_in_order() {
    let files = vec![
        ("good.fna".to_string(), Some(b">good\nAAT\n".to_vec())),
        ("missing.fna".to_string(), None),
        ("good2.fna".to_string(), Some(b">good2\nGGC\n".to_vec())),
    ];
    let out = load(&files);
    assert_eq!(out.records.len(), 2);
    assert_eq!(out.records[0].id, "good");
    assert_eq!(out.records[1].id, "good2");
    assert_eq!(out.records[0].sequence, b"AAT".to_vec());
    assert_eq!(out.records[1].nucleotide_counts, [("A", 0), ("T", 0), ("G", 2), ("C", 1)]);
    assert_eq!(out.failures, vec![("missing.fna".to_string(), ParseError::Io)]);
}

#[test]
fn each_kind_of_failure_is_reported() {
    let files = vec![
        ("empty.fa".to_string(), Some(Vec::new())),
        ("bad.fa".to_string(), Some(b"> desc\nACGT\n".to_vec())),
        ("plain.fa".to_string(), Some(b"ACGT\n".to_vec())),
        ("gone.fa".to_string(), None),
    ];
    let out = load(&files);
    assert!(out.records.is_empty());
    assert_eq!(
        out.failures,
        vec![
            ("empty.fa".to_string(), ParseError::EmptyFile),
            ("bad.fa".to_string(), ParseError::Malformed),
            ("plain.fa".to_string(), ParseError::EmptyFile),
            ("gone.fa".to_string(), ParseError::Io),
        ]
    );
}

#[test]
fn no_files_load_nothing() {
    let out = load(&Vec::new());
    assert!(out.records.is_empty());
    assert!(out.failures.is_empty());
}

#[test]
fn fasta_extensions_are_recognised() {
    assert!(has_fasta_extension("a.fa"));
    assert!(has_fasta_extension("dir/b.fna"));
    assert!(has_fasta_extension("/abs/c.d.fasta"));
    assert!(has_fasta_extension("e.fn"));
    assert!(has_fasta_extension("dir/f.fna/"));
    assert!(has_fasta_extension("g.fasta//"));
}

#[test]
fn other_paths_are_rejected() {
    assert!(!has_fasta_extension("a.txt"));
    assert!(!has_fasta_extension("fasta"));
    assert!(!has_fasta_extension(".fa"));
    assert!(!has_fasta_extension("dir/.fna"));
    assert!(!has_fasta_extension("dir.fa/file"));
    assert!(!has_fasta_extension("a.FA"));
    assert!(!has_fasta_extension(""));
    assert!(!has_fasta_extension("/"));
    assert!(!has_fasta_extension("dir/.fa/"));
}
