use seqrush::{parse, ArgsError};

fn args_of(items: &[&str]) -> Vec<String> {
    items.iter().map(|s| s.to_string()).collect()
}

#[test]
fn parse_handles_arguments() {
    let args = args_of(&[
        "binary", "-s", "input.fa", "-o", "out.gfa", "-t", "4", "-k", "20",
    ]);
    let parsed = parse(&args).unwrap();
    assert_eq!(parsed.sequences, "input.fa");
    assert_eq!(parsed.output, "out.gfa");
    assert_eq!(parsed.threads, 4);
    assert_eq!(parsed.min_match_length, 20);
}

#[test]
fn cli_no_arguments() {
    let err = parse(&args_of(&["binary"])).unwrap_err();
    assert_eq!(err, ArgsError::MissingSequences);
    assert!(err.message().contains("input FASTA required"));
}

#[test]
fn cli_missing_output() {
    let err = parse(&args_of(&["binary", "-s", "somefile"])).unwrap_err();
    assert_eq!(err, ArgsError::MissingOutput);
    assert!(err.message().contains("output file required"));
}

#[test]
fn cli_parses_flags() {
    let args = args_of(&["binary", "-s", "cli_in", "-o", "cli_out", "-t", "2", "-k", "5"]);
    let parsed = parse(&args).unwrap();
    assert_eq!(parsed.threads, 2);
    assert_eq!(parsed.min_match_length, 5);
}

#[test]
fn long_flags_and_defaults() {
    let args = args_of(&["prog", "--sequences", "in.fa", "--output", "out.gfa"]);
    let parsed = parse(&args).unwrap();
    assert_eq!(parsed.sequences, "in.fa");
    assert_eq!(parsed.output, "out.gfa");
    assert_eq!(parsed.threads, 1);
    assert_eq!(parsed.min_match_length, 15);
}

#[test]
fn bad_number_keeps_setting() {
    let args = args_of(&["prog", "-s", "a", "-o", "b", "-t", "many", "--min-match-length", "+7"]);
    let parsed = parse(&args).unwrap();
    assert_eq!(parsed.threads, 1);
    assert_eq!(parsed.min_match_length, 7);
}

#[test]
fn path_flag_at_end_is_unset() {
    let err = parse(&args_of(&["prog", "-s", "a", "-o", "b", "-s"])).unwrap_err();
    assert_eq!(err, ArgsError::MissingSequences);
}

#[test]
fn unknown_arguments_are_ignored() {
    let args = args_of(&["prog", "extra", "-o", "b", "-x", "-s", "a"]);
    let parsed = parse(&args).unwrap();
    assert_eq!(parsed.sequences, "a");
    assert_eq!(parsed.output, "b");
}

#[test]
fn empty_argument_list() {
    assert_eq!(parse(&Vec::new()).unwrap_err(), ArgsError::MissingSequences);
}
