//! Properties of the GFA document, proved over its model.
use crate::gfa::{
    display_text, gfa_lines, header_line, identifiers, link_line, link_lines, path_head,
    path_line, path_tail, path_tokens, segment_line, segment_lines,
};
use vstd::prelude::*;
use vstd::utf8::{decode_utf8_encode_utf8, encode_utf8, valid_utf8};

verus! {

/// Whether a line is of the record type `c`, its first character.
pub open spec fn is_kind(line: Seq<char>, c: char) -> bool {
    line.len() > 0 && line[0] == c
}

/// The number of lines of record type `c`.
pub open spec fn count_kind(lines: Seq<Seq<char>>, c: char) -> nat
    decreases lines.len(),
{
    if lines.len() == 0 {
        0
    } else {
        count_kind(lines.drop_last(), c) + if is_kind(lines.last(), c) {
            1nat
        } else {
            0nat
        }
    }
}

proof fn lemma_count_concat(a: Seq<Seq<char>>, b: Seq<Seq<char>>, c: char)
    ensures
        count_kind(a + b, c) == count_kind(a, c) + count_kind(b, c),
    decreases b.len(),
{
    if b.len() == 0 {
        assert(a + b =~= a);
    } else {
        assert((a + b).drop_last() =~= a + b.drop_last());
        lemma_count_concat(a, b.drop_last(), c);
    }
}

proof fn lemma_count_uniform(s: Seq<Seq<char>>, k: char, c: char)
    requires
        forall|i: int| 0 <= i < s.len() ==> is_kind(#[trigger] s[i], k),
    ensures
        count_kind(s, c) == if k == c {
            s.len()
        } else {
            0
        },
    decreases s.len(),
{
    if s.len() > 0 {
        lemma_count_uniform(s.drop_last(), k, c);
    }
}

proof fn lemma_counts_of(lines: Seq<Seq<char>>, k: char)
    requires
        forall|i: int| 0 <= i < lines.len() ==> is_kind(#[trigger] lines[i], k),
    ensures
        count_kind(lines, 'H') == if k == 'H' { lines.len() } else { 0 },
        count_kind(lines, 'S') == if k == 'S' { lines.len() } else { 0 },
        count_kind(lines, 'P') == if k == 'P' { lines.len() } else { 0 },
        count_kind(lines, 'L') == if k == 'L' { lines.len() } else { 0 },
{
    lemma_count_uniform(lines, k, 'H');
    lemma_count_uniform(lines, k, 'S');
    lemma_count_uniform(lines, k, 'P');
    lemma_count_uniform(lines, k, 'L');
}

/// For `n > 0` records the document has exactly one header line, `n` segment
/// lines, one path line and `n - 1` link lines, and no other line.
pub proof fn lemma_line_counts(recs: Seq<(Seq<char>, Seq<u8>)>)
    requires
        recs.len() > 0,
    ensures
        gfa_lines(recs).len() == 1 + recs.len() + 1 + (recs.len() - 1),
        count_kind(gfa_lines(recs), 'H') == 1,
        count_kind(gfa_lines(recs), 'S') == recs.len(),
        count_kind(gfa_lines(recs), 'P') == 1,
        count_kind(gfa_lines(recs), 'L') == recs.len() - 1,
{
    let h = seq![header_line()];
    let s = segment_lines(recs);
    let p = seq![path_line(identifiers(recs))];
    let l = link_lines(recs);
    assert(gfa_lines(recs) =~= h + s + p + l);
    lemma_counts_of(h, 'H');
    assert forall|i: int| 0 <= i < s.len() implies is_kind(#[trigger] s[i], 'S') by {
        assert(s[i] == segment_line(recs[i].0, recs[i].1));
    }
    lemma_counts_of(s, 'S');
    lemma_counts_of(p, 'P');
    assert forall|i: int| 0 <= i < l.len() implies is_kind(#[trigger] l[i], 'L') by {
        assert(l[i] == link_line(recs[i].0, recs[i + 1].0));
    }
    lemma_counts_of(l, 'L');
    lemma_count_concat(h, s, 'H');
    lemma_count_concat(h, s, 'S');
    lemma_count_concat(h, s, 'P');
    lemma_count_concat(h, s, 'L');
    lemma_count_concat(h + s, p, 'H');
    lemma_count_concat(h + s, p, 'S');
    lemma_count_concat(h + s, p, 'P');
    lemma_count_concat(h + s, p, 'L');
    lemma_count_concat(h + s + p, l, 'H');
    lemma_count_concat(h + s + p, l, 'S');
    lemma_count_concat(h + s + p, l, 'P');
    lemma_count_concat(h + s + p, l, 'L');
}

/// With no record the document is the header line alone.
pub proof fn lemma_empty_document(recs: Seq<(Seq<char>, Seq<u8>)>)
    requires
        recs.len() == 0,
    ensures
        gfa_lines(recs) == seq![header_line()],
        count_kind(gfa_lines(recs), 'H') == 1,
        count_kind(gfa_lines(recs), 'S') == 0,
        count_kind(gfa_lines(recs), 'P') == 0,
        count_kind(gfa_lines(recs), 'L') == 0,
{
    lemma_counts_of(gfa_lines(recs), 'H');
}

/// What stands before the residues on the segment line of `id`.
pub open spec fn segment_prefix(id: Seq<char>) -> Seq<char> {
    seq!['S', '\t'] + id + seq!['\t']
}

/// The residue text of the first segment line for `id`, if there is one.
pub open spec fn find_segment(lines: Seq<Seq<char>>, id: Seq<char>) -> Option<Seq<char>>
    decreases lines.len(),
{
    if lines.len() == 0 {
        None
    } else {
        let p = segment_prefix(id);
        if lines[0].len() >= p.len() && lines[0].subrange(0, p.len() as int) == p {
            Some(lines[0].subrange(p.len() as int, lines[0].len() as int))
        } else {
            find_segment(lines.drop_first(), id)
        }
    }
}

/// Whether no identifier holds the character `c`.
pub open spec fn ids_free_of(recs: Seq<(Seq<char>, Seq<u8>)>, c: char) -> bool {
    forall|i: int, k: int| 0 <= i < recs.len() && 0 <= k < recs[i].0.len() ==> #[trigger] recs[i].0[k] != c
}

/// Whether the identifiers are pairwise distinct.
pub open spec fn ids_distinct(recs: Seq<(Seq<char>, Seq<u8>)>) -> bool {
    forall|i: int, j: int| 0 <= i < recs.len() && 0 <= j < recs.len() && i != j ==> recs[i].0 != recs[j].0
}

proof fn lemma_prefix_only_own(id: Seq<char>, other: Seq<char>, data: Seq<u8>)
    requires
        forall|k: int| 0 <= k < id.len() ==> id[k] != '\t',
        forall|k: int| 0 <= k < other.len() ==> other[k] != '\t',
        id != other,
    ensures
        ({
            let line = segment_line(other, data);
            let p = segment_prefix(id);
            !(line.len() >= p.len() && line.subrange(0, p.len() as int) == p)
        }),
{
    let line = segment_line(other, data);
    let p = segment_prefix(id);
    if line.len() >= p.len() && line.subrange(0, p.len() as int) == p {
        if other.len() > id.len() {
            assert(p[2 + id.len() as int] == '\t');
            assert(line[2 + id.len() as int] == other[id.len() as int]);
        } else if other.len() < id.len() {
            assert(line[2 + other.len() as int] == '\t');
            assert(p[2 + other.len() as int] == id[other.len() as int]);
        } else {
            assert forall|k: int| 0 <= k < id.len() implies id[k] == other[k] by {
                assert(p[2 + k] == line[2 + k]);
            }
            assert(id =~= other);
        }
    }
}

/// Where identifiers hold no tab and are distinct, the residue text found on
/// the segment line of each record's identifier is its residues as text; for
/// valid UTF-8 residues it gives back the very bytes.
pub proof fn lemma_segment_round_trip(recs: Seq<(Seq<char>, Seq<u8>)>, i: int)
    requires
        0 <= i < recs.len(),
        ids_free_of(recs, '\t'),
        ids_distinct(recs),
    ensures
        find_segment(gfa_lines(recs), recs[i].0) == Some(display_text(recs[i].1)),
        valid_utf8(recs[i].1) ==> encode_utf8(find_segment(gfa_lines(recs), recs[i].0)->0)
            == recs[i].1,
{
    let id = recs[i].0;
    let lines = gfa_lines(recs);
    let p = segment_prefix(id);
    assert forall|j: int| 0 <= j <= i implies find_segment(#[trigger] lines.skip(j), id)
        == find_segment(lines.skip(i + 1), id) by {
        lemma_find_from(recs, i, j);
    }
    assert(lines.skip(0) =~= lines);
    assert(lines[0][0] == 'H');
    assert(lines.drop_first() =~= lines.skip(1));
    let line = lines[i + 1];
    assert(line == segment_line(id, recs[i].1));
    assert(line.subrange(0, p.len() as int) =~= p);
    assert(line.subrange(p.len() as int, line.len() as int) =~= display_text(recs[i].1));
    assert(lines.skip(i + 1)[0] == line);
    if valid_utf8(recs[i].1) {
        decode_utf8_encode_utf8(recs[i].1);
    }
}

proof fn lemma_find_from(recs: Seq<(Seq<char>, Seq<u8>)>, i: int, j: int)
    requires
        0 <= j <= i < recs.len(),
        ids_free_of(recs, '\t'),
        ids_distinct(recs),
    ensures
        find_segment(gfa_lines(recs).skip(j), recs[i].0) == find_segment(
            gfa_lines(recs).skip(i + 1),
            recs[i].0,
        ),
    decreases i - j,
{
    let lines = gfa_lines(recs);
    let id = recs[i].0;
    let p = segment_prefix(id);
    if j < i {
        lemma_find_from(recs, i, j + 1);
        assert(lines.skip(j).drop_first() =~= lines.skip(j + 1));
        if j == 0 {
            let h = lines.skip(0)[0];
            assert(h == header_line());
            if h.len() >= p.len() {
                assert(h.subrange(0, p.len() as int)[0] != p[0]);
            }
        } else {
            assert(lines.skip(j)[0] == segment_line(recs[j - 1].0, recs[j - 1].1));
            lemma_prefix_only_own(id, recs[j - 1].0, recs[j - 1].1);
        }
    } else {
        assert(lines.skip(j).drop_first() =~= lines.skip(j + 1));
        if j == 0 {
            let h = lines.skip(0)[0];
            assert(h == header_line());
            if h.len() >= p.len() {
                assert(h.subrange(0, p.len() as int)[0] != p[0]);
            }
        } else {
            assert(lines.skip(j)[0] == segment_line(recs[j - 1].0, recs[j - 1].1));
            lemma_prefix_only_own(id, recs[j - 1].0, recs[j - 1].1);
        }
    }
}

/// `s` split at each occurrence of `d`.
pub open spec fn split_on(s: Seq<char>, d: char) -> Seq<Seq<char>>
    decreases s.len(),
{
    if s.len() == 0 {
        seq![seq![]]
    } else {
        let prev = split_on(s.drop_last(), d);
        if s.last() == d {
            prev.push(seq![])
        } else {
            prev.update(prev.len() - 1, prev.last().push(s.last()))
        }
    }
}

proof fn lemma_split_len(s: Seq<char>, d: char)
    ensures
        split_on(s, d).len() > 0,
    decreases s.len(),
{
    if s.len() > 0 {
        lemma_split_len(s.drop_last(), d);
    }
}

proof fn lemma_split_free(a: Seq<char>, b: Seq<char>, d: char)
    requires
        forall|k: int| 0 <= k < b.len() ==> b[k] != d,
    ensures
        split_on(a + seq![d] + b, d) == split_on(a, d).push(b),
    decreases b.len(),
{
    if b.len() == 0 {
        assert((a + seq![d] + b).drop_last() =~= a);
        assert(a + seq![d] + b =~= a.push(d));
        assert(b =~= seq![]);
    } else {
        lemma_split_free(a, b.drop_last(), d);
        assert((a + seq![d] + b).drop_last() =~= a + seq![d] + b.drop_last());
        assert(b.drop_last().push(b.last()) =~= b);
        assert(split_on(a, d).push(b.drop_last()).update(
            split_on(a, d).len() as int,
            b.drop_last().push(b.last()),
        ) =~= split_on(a, d).push(b));
    }
}

proof fn lemma_split_single(b: Seq<char>, d: char)
    requires
        forall|k: int| 0 <= k < b.len() ==> b[k] != d,
    ensures
        split_on(b, d) == seq![b],
    decreases b.len(),
{
    if b.len() == 0 {
        assert(b =~= seq![]);
    } else {
        lemma_split_single(b.drop_last(), d);
        assert(b.drop_last().push(b.last()) =~= b);
        assert(seq![b.drop_last()].update(0, b.drop_last().push(b.last())) =~= seq![b]);
    }
}

/// Each identifier followed by the forward marker `+`.
pub open spec fn forward_tokens(ids: Seq<Seq<char>>) -> Seq<Seq<char>> {
    ids.map_values(|id: Seq<char>| id + seq!['+'])
}

/// Each token without its last character, the orientation marker.
pub open spec fn strip_markers(tokens: Seq<Seq<char>>) -> Seq<Seq<char>> {
    tokens.map_values(|t: Seq<char>| t.drop_last())
}

proof fn lemma_split_tokens(ids: Seq<Seq<char>>)
    requires
        ids.len() > 0,
        forall|i: int, k: int| 0 <= i < ids.len() && 0 <= k < ids[i].len() ==> #[trigger] ids[i][k] != ',',
    ensures
        split_on(path_tokens(ids), ',') == forward_tokens(ids),
    decreases ids.len(),
{
    let last = ids.last() + seq!['+'];
    assert forall|k: int| 0 <= k < last.len() implies last[k] != ',' by {
        if k < ids.last().len() {
            assert(ids[ids.len() - 1][k] != ',');
        }
    }
    if ids.len() == 1 {
        lemma_split_single(last, ',');
        assert(path_tokens(ids) == last);
        assert(forward_tokens(ids) =~= seq![last]);
    } else {
        lemma_split_tokens(ids.drop_last());
        assert(path_tokens(ids) =~= path_tokens(ids.drop_last()) + seq![','] + last);
        lemma_split_free(path_tokens(ids.drop_last()), last, ',');
        assert(forward_tokens(ids) =~= forward_tokens(ids.drop_last()).push(last));
    }
}

/// For `n > 0` records whose identifiers hold no comma, the path line is
/// `P\tp1\t<tokens>\t*`, and its tokens, split at each comma, are the
/// identifiers in order, each followed by `+`; without that marker they are
/// the identifiers themselves.
pub proof fn lemma_path_lists_identifiers(recs: Seq<(Seq<char>, Seq<u8>)>)
    requires
        recs.len() > 0,
        ids_free_of(recs, ','),
    ensures
        gfa_lines(recs)[recs.len() + 1int] == path_head() + path_tokens(identifiers(recs))
            + path_tail(),
        split_on(path_tokens(identifiers(recs)), ',') == forward_tokens(identifiers(recs)),
        strip_markers(forward_tokens(identifiers(recs))) == identifiers(recs),
{
    let ids = identifiers(recs);
    assert forall|i: int, k: int| 0 <= i < ids.len() && 0 <= k < ids[i].len() implies #[trigger] ids[i][k] != ',' by {
        assert(ids[i] == recs[i].0);
    }
    lemma_split_tokens(ids);
    assert forall|i: int| 0 <= i < ids.len() implies #[trigger] strip_markers(forward_tokens(ids))[i]
        == ids[i] by {
        assert((ids[i] + seq!['+']).drop_last() =~= ids[i]);
    }
    assert(strip_markers(forward_tokens(ids)) =~= ids);
}

/// For `n > 0` records, link line `i` (for `i < n - 1`) joins the identifiers
/// at positions `i` and `i + 1`, both forward, with a zero-length overlap.
pub proof fn lemma_links_join_neighbours(recs: Seq<(Seq<char>, Seq<u8>)>, i: int)
    requires
        recs.len() > 0,
        0 <= i < recs.len() - 1,
    ensures
        gfa_lines(recs)[recs.len() + 2int + i] == seq!['L', '\t'] + recs[i].0 + seq!['\t', '+', '\t']
            + recs[i + 1].0 + seq!['\t', '+', '\t', '0', 'M'],
{
    assert(gfa_lines(recs)[recs.len() + 2int + i] == link_line(recs[i].0, recs[i + 1].0));
}

} // verus!
