use seqrush::{fasta_from_lines, gfa_document, gfa_lines_of, FastaSequence};
use std::collections::HashMap;

fn lines_of(text: &str) -> Vec<String> {
    text.lines().map(|l| l.to_string()).collect()
}

fn parse_gfa_sequences(content: &str) -> HashMap<String, String> {
    let mut nodes: HashMap<String, String> = HashMap::new();
    let mut paths: HashMap<String, String> = HashMap::new();
    for line in content.lines() {
        let mut parts = line.split('\t');
        match parts.next() {
            Some("S") => {
                if let (Some(id), Some(b)) = (parts.next(), parts.next()) {
                    nodes.insert(id.to_string(), b.to_string());
                }
            }
            Some("P") => {
                if let (Some(path_id), Some(node_list)) = (parts.next(), parts.next()) {
                    let seq = node_list
                        .split(',')
                        .filter_map(|n| n.strip_suffix('+'))
                        .filter_map(|n| nodes.get(n))
                        .cloned()
                        .collect::<String>();
                    paths.insert(path_id.to_string(), seq);
                }
            }
            _ => {}
        }
    }
    paths
}

fn record(id: &str, data: &[u8]) -> FastaSequence {
    FastaSequence { id: id.to_string(), data: data.to_vec() }
}

#[test]
fn load_sequences_parses_fasta() {
    let seqs = fasta_from_lines(&lines_of(">a\nACGT\n>b\nTTTT\n"));
    assert_eq!(seqs.len(), 2);
    assert_eq!(seqs[0].id, "a");
}

#[test]
fn run_seqrush_writes_output() {
    let seqs = fasta_from_lines(&lines_of(">x\nAAAA\n>y\nGGGG\n"));
    let content = gfa_document(&seqs);
    assert!(content.starts_with("H\tVN:Z:1.0"));
    let parsed = parse_gfa_sequences(&content);
    assert_eq!(parsed.get("p1").unwrap(), "AAAAGGGG");
    let segments: Vec<&str> = content.lines().filter(|l| l.starts_with("S\t")).collect();
    assert_eq!(segments, vec!["S\tx\tAAAA", "S\ty\tGGGG"]);
}

#[test]
fn load_sequences_empty_input() {
    let seqs = fasta_from_lines(&lines_of(""));
    assert!(seqs.is_empty());
}

#[test]
fn path_integrity_complex_indels() {
    let seqs = fasta_from_lines(&lines_of(">s1\nACGTACGT\n>s2\nACGTTACGT\n"));
    let content = gfa_document(&seqs);
    let segments: Vec<&str> = content.lines().filter(|l| l.starts_with("S\t")).collect();
    assert_eq!(segments, vec!["S\ts1\tACGTACGT", "S\ts2\tACGTTACGT"]);
    let parsed = parse_gfa_sequences(&content);
    assert_eq!(parsed.get("p1").unwrap(), "ACGTACGTACGTTACGT");
}

#[test]
fn two_records_concatenate_along_the_path() {
    let seqs = fasta_from_lines(&lines_of(">a\nACGT\n>b\nTTTT"));
    let content = gfa_document(&seqs);
    assert_eq!(
        content,
        "H\tVN:Z:1.0\nS\ta\tACGT\nS\tb\tTTTT\nP\tp1\ta+,b+\t*\nL\ta\t+\tb\t+\t0M\n"
    );
    let parsed = parse_gfa_sequences(&content);
    assert_eq!(parsed.get("p1").unwrap(), "ACGTTTTT");
    let links: Vec<&str> = content.lines().filter(|l| l.starts_with("L\t")).collect();
    assert_eq!(links, vec!["L\ta\t+\tb\t+\t0M"]);
}

#[test]
fn empty_input_gives_header_only() {
    let seqs = fasta_from_lines(&lines_of(""));
    assert_eq!(gfa_document(&seqs), "H\tVN:Z:1.0\n");
    assert_eq!(gfa_lines_of(&seqs), vec!["H\tVN:Z:1.0".to_string()]);
}

#[test]
fn residue_lines_are_concatenated() {
    let seqs = fasta_from_lines(&lines_of(">a\nAC\nGT"));
    assert_eq!(seqs, vec![record("a", b"ACGT")]);
}

#[test]
fn residue_lines_are_trimmed_but_not_inside() {
    let seqs = fasta_from_lines(&lines_of(">a b\n  AC G \n\tTT\r\n"));
    assert_eq!(seqs, vec![record("a b", b"AC GTT")]);
}

#[test]
fn header_text_is_kept_verbatim() {
    let lines = vec![">  id with space ".to_string(), "A".to_string()];
    let seqs = fasta_from_lines(&lines);
    assert_eq!(seqs[0].id, "  id with space ");
}

#[test]
fn lines_before_any_header_are_ignored() {
    let seqs = fasta_from_lines(&lines_of("NNNN\nCC\n>a\nAC\n"));
    assert_eq!(seqs, vec![record("a", b"AC")]);
}

#[test]
fn header_without_residues_gives_empty_record() {
    let seqs = fasta_from_lines(&lines_of(">a\n>b\nGG\n>c"));
    assert_eq!(seqs, vec![record("a", b""), record("b", b"GG"), record("c", b"")]);
}

#[test]
fn only_residue_lines_give_no_record() {
    let seqs = fasta_from_lines(&lines_of("ACGT\nTTTT\n"));
    assert!(seqs.is_empty());
}

#[test]
fn line_counts_for_three_records() {
    let seqs = vec![record("a", b"A"), record("b", b"C"), record("c", b"G")];
    let lines = gfa_lines_of(&seqs);
    let count = |k: &str| lines.iter().filter(|l| l.starts_with(k)).count();
    assert_eq!(lines.len(), 1 + 3 + 1 + 2);
    assert_eq!(count("H\t"), 1);
    assert_eq!(count("S\t"), 3);
    assert_eq!(count("P\t"), 1);
    assert_eq!(count("L\t"), 2);
    assert_eq!(lines[4], "P\tp1\ta+,b+,c+\t*");
    assert_eq!(lines[5], "L\ta\t+\tb\t+\t0M");
    assert_eq!(lines[6], "L\tb\t+\tc\t+\t0M");
}

#[test]
fn single_record_has_path_and_no_link() {
    let seqs = vec![record("only", b"ACGT")];
    assert_eq!(
        gfa_document(&seqs),
        "H\tVN:Z:1.0\nS\tonly\tACGT\nP\tp1\tonly+\t*\n"
    );
}

#[test]
fn segment_round_trip_by_identifier() {
    let seqs = vec![record("r1", b"ACGT"), record("r2", b"GATTACA")];
    let content = gfa_document(&seqs);
    for s in &seqs {
        let prefix = format!("S\t{}\t", s.id);
        let line = content.lines().find(|l| l.starts_with(&prefix)).unwrap();
        assert_eq!(line[prefix.len()..].as_bytes(), s.data.as_slice());
    }
}

#[test]
fn path_tokens_split_back_to_identifiers() {
    let seqs = vec![record("x1", b"A"), record("y2", b"C"), record("z3", b"T")];
    let lines = gfa_lines_of(&seqs);
    let tokens = lines[4].split('\t').nth(2).unwrap();
    let ids: Vec<&str> = tokens.split(',').map(|t| t.strip_suffix('+').unwrap()).collect();
    assert_eq!(ids, vec!["x1", "y2", "z3"]);
}

#[test]
fn invalid_utf8_residues_are_replaced() {
    let seqs = vec![record("bad", &[b'A', 0xff, b'C'])];
    let lines = gfa_lines_of(&seqs);
    assert_eq!(lines[1], "S\tbad\tA\u{FFFD}C");
}

#[test]
fn non_ascii_residues_are_kept() {
    let seqs = fasta_from_lines(&lines_of(">é\n\u{00A0}αβ\u{00A0}\n"));
    assert_eq!(seqs, vec![record("é", "αβ".as_bytes())]);
    assert_eq!(gfa_lines_of(&seqs)[1], "S\té\tαβ");
}
