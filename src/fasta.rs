//! FASTA records: a header line `>id` followed by residue lines.
use vstd::prelude::*;
use vstd::utf8::encode_utf8;

verus! {

/// Whether a character has Unicode's `White_Space` property.
pub uninterp spec fn white_space(c: char) -> bool;

/// `s` without its leading white space.
pub open spec fn trim_start_chars(s: Seq<char>) -> Seq<char>
    decreases s.len(),
{
    if s.len() > 0 && white_space(s[0]) {
        trim_start_chars(s.drop_first())
    } else {
        s
    }
}

/// `s` without its trailing white space.
pub open spec fn trim_end_chars(s: Seq<char>) -> Seq<char>
    decreases s.len(),
{
    if s.len() > 0 && white_space(s.last()) {
        trim_end_chars(s.drop_last())
    } else {
        s
    }
}

/// `s` without its leading and trailing white space.
pub open spec fn trim_chars(s: Seq<char>) -> Seq<char> {
    trim_end_chars(trim_start_chars(s))
}

/// Relies on `str::trim`: removes the leading and trailing characters that
/// have Unicode's `White_Space` property, as `char::is_whitespace` tells them.
#[verifier::external_body]
fn trim(s: &str) -> (r: &str)
    ensures
        r@ == trim_chars(s@),
        r@.len() > 0 ==> !white_space(r@[0]) && !white_space(r@.last()),
{
    s.trim()
}

/// A header line starts with the marker `>`.
pub open spec fn is_header(line: Seq<char>) -> bool {
    line.len() > 0 && line[0] == '>'
}

/// Relies on `str::strip_prefix` with a `char` pattern: the rest of the line
/// after a leading `>`, or `None` where the line does not start with one.
#[verifier::external_body]
fn strip_header_marker(line: &str) -> (r: Option<&str>)
    ensures
        r is Some <==> is_header(line@),
        r is Some ==> r->0@ == line@.drop_first(),
{
    line.strip_prefix('>')
}

/// One FASTA record: its identifier and its residues.
#[derive(Debug, Clone, PartialEq, Eq)]
pub struct FastaSequence {
    /// Identifier, without the leading `>`.
    pub id: String,
    /// Residue bytes, the trimmed residue lines concatenated.
    pub data: Vec<u8>,
}

impl View for FastaSequence {
    type V = (Seq<char>, Seq<u8>);

    open spec fn view(&self) -> (Seq<char>, Seq<u8>) {
        (self.id@, self.data@)
    }
}

/// The characters of each line.
pub open spec fn line_views(lines: Seq<String>) -> Seq<Seq<char>> {
    lines.map_values(|l: String| l@)
}

/// The model of each record.
pub open spec fn record_views(records: Seq<FastaSequence>) -> Seq<(Seq<char>, Seq<u8>)> {
    records.map_values(|r: FastaSequence| r@)
}

/// The bytes that a residue line contributes: the line trimmed, in UTF-8.
pub open spec fn residue_bytes(line: Seq<char>) -> Seq<u8> {
    encode_utf8(trim_chars(line))
}

/// The records of a FASTA text given as its lines, in order: each header line
/// opens a record named by the text after its marker, each other line appends
/// its residue bytes to the record opened last, and a line before any header
/// is ignored.
pub open spec fn fasta_records(lines: Seq<Seq<char>>) -> Seq<(Seq<char>, Seq<u8>)>
    decreases lines.len(),
{
    if lines.len() == 0 {
        seq![]
    } else {
        let prev = fasta_records(lines.drop_last());
        let line = lines.last();
        if is_header(line) {
            prev.push((line.drop_first(), seq![]))
        } else if prev.len() == 0 {
            prev
        } else {
            prev.update(prev.len() - 1, (prev.last().0, prev.last().1 + residue_bytes(line)))
        }
    }
}

/// Parses the lines of a FASTA text into its records, in order of appearance.
pub fn fasta_from_lines(lines: &Vec<String>) -> (r: Vec<FastaSequence>)
    ensures
        record_views(r@) == fasta_records(line_views(lines@)),
{
    let ghost all = line_views(lines@);
    let mut sequences: Vec<FastaSequence> = Vec::new();
    let mut id: Option<String> = None;
    let mut data: Vec<u8> = Vec::new();
    for i in 0..lines.len()
        invariant
            all == line_views(lines@),
            id is None ==> sequences@.len() == 0 && fasta_records(all.take(i as int)).len() == 0,
            id is Some ==> record_views(sequences@).push((id->0@, data@)) == fasta_records(
                all.take(i as int),
            ),
    {
        let line = lines[i].as_str();
        let ghost prev_done = record_views(sequences@);
        let ghost prev_data = data@;
        assert(all.take(i + 1).drop_last() == all.take(i as int));
        assert(all.take(i + 1).last() == line@);
        match strip_header_marker(line) {
            Some(rest) => {
                match id {
                    Some(prev) => {
                        sequences.push(FastaSequence { id: prev, data });
                        assert(record_views(sequences@) =~= prev_done.push((prev@, prev_data)));
                    },
                    None => {},
                }
                id = Some(rest.to_owned());
                data = Vec::new();
                assert(record_views(sequences@).push((id->0@, data@)) =~= fasta_records(
                    all.take(i + 1),
                ));
            },
            None => {
                if id.is_some() {
                    let trimmed = trim(line);
                    let bytes = trimmed.as_bytes();
                    data.extend_from_slice(bytes);
                    assert(data@ == prev_data + residue_bytes(line@));
                    assert(record_views(sequences@).push((id->0@, data@)) =~= fasta_records(
                        all.take(i + 1),
                    ));
                }
            },
        }
    }
    assert(all.take(lines.len() as int) == all);
    match id {
        Some(prev) => {
            let ghost prev_done = record_views(sequences@);
            sequences.push(FastaSequence { id: prev, data });
            assert(record_views(sequences@) =~= prev_done.push((prev@, data@)));
        },
        None => {},
    }
    assert(record_views(sequences@) =~= fasta_records(all));
    sequences
}

} // verus!
