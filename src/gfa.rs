//! The GFA encoding of a list of records: a header, one segment per record,
//! one path through all segments in order and a link between neighbours.
use crate::fasta::{record_views, FastaSequence};
use vstd::prelude::*;
use vstd::utf8::{decode_utf8, valid_utf8};

verus! {

/// The text that `String::from_utf8_lossy` makes of `b`.
pub uninterp spec fn lossy_text(b: Seq<u8>) -> Seq<char>;

/// Bytes shown as text: valid UTF-8 decoded, anything else as
/// `String::from_utf8_lossy` renders it.
pub open spec fn display_text(b: Seq<u8>) -> Seq<char> {
    if valid_utf8(b) {
        decode_utf8(b)
    } else {
        lossy_text(b)
    }
}

/// Relies on `String::from_utf8_lossy`: the bytes as text, each invalid
/// sequence replaced by U+FFFD; valid UTF-8 is decoded unchanged.
#[verifier::external_body]
fn lossy(b: &[u8]) -> (r: String)
    ensures
        valid_utf8(b@) ==> r@ == decode_utf8(b@),
        !valid_utf8(b@) ==> r@ == lossy_text(b@),
{
    String::from_utf8_lossy(b).into_owned()
}

/// The header line, `H\tVN:Z:1.0`.
pub open spec fn header_line() -> Seq<char> {
    seq!['H', '\t', 'V', 'N', ':', 'Z', ':', '1', '.', '0']
}

/// The segment line of a record: `S\t<id>\t<residues as text>`.
pub open spec fn segment_line(id: Seq<char>, data: Seq<u8>) -> Seq<char> {
    seq!['S', '\t'] + id + seq!['\t'] + display_text(data)
}

/// The identifiers, each followed by `+`, joined by `,`.
pub open spec fn path_tokens(ids: Seq<Seq<char>>) -> Seq<char>
    decreases ids.len(),
{
    if ids.len() == 0 {
        seq![]
    } else if ids.len() == 1 {
        ids[0] + seq!['+']
    } else {
        path_tokens(ids.drop_last()) + seq![','] + ids.last() + seq!['+']
    }
}

/// What stands before the tokens of the path line.
pub open spec fn path_head() -> Seq<char> {
    seq!['P', '\t', 'p', '1', '\t']
}

/// What stands after the tokens of the path line.
pub open spec fn path_tail() -> Seq<char> {
    seq!['\t', '*']
}

/// The path line through the given identifiers: `P\tp1\t<id1>+,<id2>+,...\t*`.
pub open spec fn path_line(ids: Seq<Seq<char>>) -> Seq<char> {
    path_head() + path_tokens(ids) + path_tail()
}

/// The link line from `a` to `b`: `L\t<a>\t+\t<b>\t+\t0M`.
pub open spec fn link_line(a: Seq<char>, b: Seq<char>) -> Seq<char> {
    seq!['L', '\t'] + a + seq!['\t', '+', '\t'] + b + seq!['\t', '+', '\t', '0', 'M']
}

/// The identifiers of the records, in order.
pub open spec fn identifiers(recs: Seq<(Seq<char>, Seq<u8>)>) -> Seq<Seq<char>> {
    recs.map_values(|r: (Seq<char>, Seq<u8>)| r.0)
}

/// The segment lines of the records, in order.
pub open spec fn segment_lines(recs: Seq<(Seq<char>, Seq<u8>)>) -> Seq<Seq<char>> {
    recs.map_values(|r: (Seq<char>, Seq<u8>)| segment_line(r.0, r.1))
}

/// The link lines between neighbouring records, in order.
pub open spec fn link_lines(recs: Seq<(Seq<char>, Seq<u8>)>) -> Seq<Seq<char>> {
    Seq::new((recs.len() - 1) as nat, |i: int| link_line(recs[i].0, recs[i + 1].0))
}

/// The lines of the GFA document of the records: the header, the segments,
/// and, where there is a record, the path and the links.
pub open spec fn gfa_lines(recs: Seq<(Seq<char>, Seq<u8>)>) -> Seq<Seq<char>> {
    if recs.len() == 0 {
        seq![header_line()]
    } else {
        seq![header_line()] + segment_lines(recs) + seq![path_line(identifiers(recs))]
            + link_lines(recs)
    }
}

/// The text of a document: each line followed by a newline.
pub open spec fn document_text(lines: Seq<Seq<char>>) -> Seq<char>
    decreases lines.len(),
{
    if lines.len() == 0 {
        seq![]
    } else {
        document_text(lines.drop_last()) + lines.last() + seq!['\n']
    }
}

fn segment_text(seq: &FastaSequence) -> (r: String)
    ensures
        r@ == segment_line(seq.id@, seq.data@),
{
    let mut line = String::from_str("S\t");
    line.append(seq.id.as_str());
    line.append("\t");
    let text = lossy(seq.data.as_slice());
    line.append(text.as_str());
    proof {
        reveal_strlit("S\t");
        reveal_strlit("\t");
    }
    assert(line@ =~= segment_line(seq.id@, seq.data@));
    line
}

fn path_text(seqs: &[FastaSequence]) -> (r: String)
    requires
        seqs@.len() > 0,
    ensures
        r@ == path_line(identifiers(record_views(seqs@))),
{
    let ghost ids = identifiers(record_views(seqs@));
    let mut line = String::from_str("P\tp1\t");
    proof {
        reveal_strlit("P\tp1\t");
        reveal_strlit(",");
        reveal_strlit("+");
        reveal_strlit("\t*");
    }
    assert(line@ =~= path_head() + path_tokens(ids.take(0)));
    for i in 0..seqs.len()
        invariant
            ids == identifiers(record_views(seqs@)),
            ids.len() == seqs@.len(),
            line@ == path_head() + path_tokens(ids.take(i as int)),
    {
        if i > 0 {
            line.append(",");
        }
        line.append(seqs[i].id.as_str());
        line.append("+");
        assert(ids.take(i + 1).drop_last() =~= ids.take(i as int));
        assert(ids.take(i + 1).last() == seqs@[i as int].id@);
        proof {
            reveal_strlit(",");
            reveal_strlit("+");
        }
        assert(","@ =~= seq![',']);
        assert("+"@ =~= seq!['+']);
        assert(line@ =~= path_head() + path_tokens(ids.take(i + 1)));
    }
    line.append("\t*");
    assert(ids.take(seqs.len() as int) =~= ids);
    assert(line@ =~= path_line(ids));
    line
}

fn link_text(a: &FastaSequence, b: &FastaSequence) -> (r: String)
    ensures
        r@ == link_line(a.id@, b.id@),
{
    let mut line = String::from_str("L\t");
    line.append(a.id.as_str());
    line.append("\t+\t");
    line.append(b.id.as_str());
    line.append("\t+\t0M");
    proof {
        reveal_strlit("L\t");
        reveal_strlit("\t+\t");
        reveal_strlit("\t+\t0M");
    }
    assert(line@ =~= link_line(a.id@, b.id@));
    line
}

/// The lines of the GFA document that encodes the records, without newlines.
pub fn gfa_lines_of(seqs: &[FastaSequence]) -> (r: Vec<String>)
    ensures
        r@.map_values(|l: String| l@) == gfa_lines(record_views(seqs@)),
{
    let ghost recs = record_views(seqs@);
    let mut lines: Vec<String> = Vec::new();
    lines.push(String::from_str("H\tVN:Z:1.0"));
    proof {
        reveal_strlit("H\tVN:Z:1.0");
    }
    assert("H\tVN:Z:1.0"@ =~= header_line());
    assert(lines@.map_values(|l: String| l@) =~= seq![header_line()]);
    for i in 0..seqs.len()
        invariant
            recs == record_views(seqs@),
            lines@.map_values(|l: String| l@) == seq![header_line()] + segment_lines(
                recs,
            ).take(i as int),
    {
        let line = segment_text(&seqs[i]);
        assert(segment_lines(recs)[i as int] == line@);
        let ghost before = lines@.map_values(|l: String| l@);
        let ghost pushed = line@;
        lines.push(line);
        assert(lines@.map_values(|l: String| l@) =~= before.push(pushed));
        assert(lines@.map_values(|l: String| l@) =~= seq![header_line()] + segment_lines(
            recs,
        ).take(i + 1));
    }
    assert(segment_lines(recs).take(seqs.len() as int) =~= segment_lines(recs));
    if seqs.len() == 0 {
        return lines;
    }
    lines.push(path_text(seqs));
    let ghost head = seq![header_line()] + segment_lines(recs) + seq![path_line(identifiers(recs))];
    assert(lines@.map_values(|l: String| l@) =~= head + link_lines(recs).take(0));
    for i in 0..seqs.len() - 1
        invariant
            recs == record_views(seqs@),
            seqs@.len() > 0,
            head == seq![header_line()] + segment_lines(recs) + seq![path_line(identifiers(recs))],
            lines@.map_values(|l: String| l@) == head + link_lines(recs).take(i as int),
    {
        let line = link_text(&seqs[i], &seqs[i + 1]);
        assert(link_lines(recs)[i as int] == line@);
        let ghost before = lines@.map_values(|l: String| l@);
        let ghost pushed = line@;
        lines.push(line);
        assert(lines@.map_values(|l: String| l@) =~= before.push(pushed));
        assert(lines@.map_values(|l: String| l@) =~= head + link_lines(recs).take(i + 1));
    }
    assert(link_lines(recs).take(seqs.len() - 1) =~= link_lines(recs));
    lines
}

/// The text of the GFA document that encodes the records.
pub fn gfa_document(seqs: &[FastaSequence]) -> (r: String)
    ensures
        r@ == document_text(gfa_lines(record_views(seqs@))),
{
    let lines = gfa_lines_of(seqs);
    let ghost views = lines@.map_values(|l: String| l@);
    let mut text = String::new();
    proof {
        reveal_strlit("\n");
    }
    for i in 0..lines.len()
        invariant
            views == lines@.map_values(|l: String| l@),
            text@ == document_text(views.take(i as int)),
    {
        text.append(lines[i].as_str());
        text.append("\n");
        proof {
            reveal_strlit("\n");
        }
        assert("\n"@ =~= seq!['\n']);
        assert(views.take(i + 1).drop_last() =~= views.take(i as int));
        assert(views.take(i + 1).last() == lines@[i as int]@);
        assert(text@ =~= document_text(views.take(i + 1)));
    }
    assert(views.take(lines.len() as int) =~= views);
    text
}

} // verus!
