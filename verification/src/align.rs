//! Rescaling of alignment files.
//!
//! An alignment file holds one record per line: exactly eight
//! whitespace-separated cells, of which cells 0 and 5 are integer timestamps
//! and the rest pass through untouched. Rescaling multiplies the two
//! timestamps by `1 - tempo/100` (truncating toward zero), rejoins each
//! record with double-space separators, drops blank lines, and joins the
//! records with line feeds. The first offending line aborts the whole
//! operation.

use vstd::prelude::*;
use vstd::slice::slice_to_vec;
use crate::digits::int_dec;
use crate::digits::int_literal_value;
use crate::digits::is_i32_literal;
use crate::digits::i32_to_dec;
use crate::digits::parse_i32;
use crate::num::clamp_i32;
use crate::num::rescale_value;
use crate::num::rescaled;
use crate::text::join_sep;
use crate::text::join_with;
use crate::text::is_blank_line;
use crate::text::line_blank;
use crate::text::split_cells;
use crate::text::split_into_lines;
use crate::text::split_lines;
use crate::text::split_ws;
use crate::text::B_LF;
use crate::text::B_SPACE;

verus! {

/// Why an alignment file was rejected.
#[derive(Debug)]
pub enum AlignError {
    /// A non-blank line does not have exactly eight cells; carries the line.
    BadCellCount { line: Vec<u8> },
    /// A timestamp cell does not parse as `i32`; carries the cell's index
    /// within its line (0 or 5).
    BadCell { cell: usize },
}

/// The separator between the cells of a rescaled record: two spaces.
pub open spec fn double_space() -> Seq<u8> {
    seq![B_SPACE, B_SPACE]
}

/// A record is well-formed when it splits into exactly eight cells and its
/// two timestamp cells are `i32` literals.
pub open spec fn line_ok(line: Seq<u8>) -> bool {
    let cells = split_ws(line);
    &&& cells.len() == 8
    &&& is_i32_literal(cells[0])
    &&& is_i32_literal(cells[5])
}

/// A rescaled timestamp cell: the decimal text of the scaled value.
pub open spec fn rescaled_cell(c: Seq<u8>, tempo: int) -> Seq<u8> {
    int_dec(clamp_i32(rescaled(int_literal_value(c), tempo)))
}

/// A rescaled record: timestamps scaled, the other cells kept, all eight
/// rejoined with double spaces.
pub open spec fn rescaled_line(line: Seq<u8>, tempo: int) -> Seq<u8> {
    let cells = split_ws(line);
    join_sep(
        seq![
            rescaled_cell(cells[0], tempo),
            cells[1],
            cells[2],
            cells[3],
            cells[4],
            rescaled_cell(cells[5], tempo),
            cells[6],
            cells[7],
        ],
        double_space(),
    )
}

/// The error that rescaling a single record yields.
pub open spec fn line_error(line: Seq<u8>, e: AlignError) -> bool {
    match e {
        AlignError::BadCellCount { line: l } => l@ == line && split_ws(line).len() != 8,
        AlignError::BadCell { cell } => {
            let cells = split_ws(line);
            &&& cells.len() == 8
            &&& (cell == 0 && !is_i32_literal(cells[0])) || (cell == 5 && is_i32_literal(cells[0])
                && !is_i32_literal(cells[5]))
        },
    }
}

/// Rescales one non-blank record of the alignment file.
pub fn rescale_line(line: &[u8], tempo: i32) -> (r: Result<Vec<u8>, AlignError>)
    ensures
        r is Ok <==> line_ok(line@),
        r matches Ok(out) ==> out@ == rescaled_line(line@, tempo as int),
        r matches Err(e) ==> line_error(line@, e),
{
    let mut cells = split_cells(line);
    if cells.len() != 8 {
        return Err(AlignError::BadCellCount { line: slice_to_vec(line) });
    }
    let v0 = match parse_i32(cells[0].as_slice()) {
        Some(v) => v,
        None => {
            return Err(AlignError::BadCell { cell: 0 });
        },
    };
    let v5 = match parse_i32(cells[5].as_slice()) {
        Some(v) => v,
        None => {
            return Err(AlignError::BadCell { cell: 5 });
        },
    };
    let d0 = i32_to_dec(rescale_value(v0, tempo));
    let d5 = i32_to_dec(rescale_value(v5, tempo));
    cells.set(0, d0);
    cells.set(5, d5);
    let mut sep: Vec<u8> = Vec::new();
    sep.push(B_SPACE);
    sep.push(B_SPACE);
    let out = join_with(&cells, sep.as_slice());
    proof {
        let sc = split_ws(line@);
        assert(sep@ =~= double_space());
        assert(cells@.map_values(|c: Vec<u8>| c@) =~= seq![
            rescaled_cell(sc[0], tempo as int),
            sc[1],
            sc[2],
            sc[3],
            sc[4],
            rescaled_cell(sc[5], tempo as int),
            sc[6],
            sc[7],
        ]);
    }
    Ok(out)
}

/// At tempo zero the scale factor is one, so a timestamp cell keeps its
/// value: the rescaled cell is the canonical decimal text of the cell's own
/// value (truncation is a no-op on an integer).
pub proof fn lemma_rescaled_cell_tempo_zero(c: Seq<u8>)
    requires
        is_i32_literal(c),
    ensures
        rescaled_cell(c, 0) == int_dec(int_literal_value(c)),
{
    crate::num::lemma_rescale_tempo_zero(int_literal_value(c));
}

/// The predicate that keeps a non-blank line.
pub open spec fn non_blank() -> spec_fn(Seq<u8>) -> bool {
    |l: Seq<u8>| !line_blank(l)
}

/// The non-blank lines of an alignment file, in order.
pub open spec fn kept_lines(s: Seq<u8>) -> Seq<Seq<u8>> {
    split_lines(s).filter(non_blank())
}

/// A whole alignment file is well-formed when each of its non-blank lines is.
pub open spec fn alignment_ok(s: Seq<u8>) -> bool {
    forall|i: int| 0 <= i < kept_lines(s).len() ==> line_ok(#[trigger] kept_lines(s)[i])
}

/// The rescaled alignment file: every non-blank record rescaled, records
/// joined with line feeds, blank lines gone.
pub open spec fn rescaled_alignment(s: Seq<u8>, tempo: int) -> Seq<u8> {
    join_sep(kept_lines(s).map_values(|l: Seq<u8>| rescaled_line(l, tempo)), seq![B_LF])
}

/// Rescaling is deterministic and pure: any two outcomes that meet the
/// contract of `rescale_line` for the same line and tempo agree, both in
/// whether they succeed and in the line they produce.
pub proof fn lemma_rescaling_deterministic(
    line: Seq<u8>,
    tempo: int,
    r1: Result<Vec<u8>, AlignError>,
    r2: Result<Vec<u8>, AlignError>,
)
    requires
        (r1 is Ok) == line_ok(line),
        r1 matches Ok(o) ==> o@ == rescaled_line(line, tempo),
        (r2 is Ok) == line_ok(line),
        r2 matches Ok(o) ==> o@ == rescaled_line(line, tempo),
    ensures
        r1 is Ok <==> r2 is Ok,
        r1 matches Ok(a) ==> (r2 matches Ok(b) ==> a@ == b@),
{
}

/// Blank lines do not count: every line the rescaling keeps is non-blank,
/// so the output and the schema check range over the non-blank lines alone.
pub proof fn lemma_kept_lines_non_blank(s: Seq<u8>)
    ensures
        forall|i: int| 0 <= i < kept_lines(s).len() ==> !line_blank(#[trigger] kept_lines(s)[i]),
{
    assert forall|i: int| 0 <= i < kept_lines(s).len() implies !line_blank(
        #[trigger] kept_lines(s)[i],
    ) by {
        split_lines(s).lemma_filter_pred(non_blank(), i);
    }
}

/// Rescales a whole alignment file, or rejects it at its first offending
/// record with nothing produced.
pub fn rescale_alignment(input: &[u8], tempo: i32) -> (r: Result<Vec<u8>, AlignError>)
    ensures
        r is Ok <==> alignment_ok(input@),
        r matches Ok(out) ==> out@ == rescaled_alignment(input@, tempo as int),
        r matches Err(e) ==> exists|k: int|
            0 <= k < kept_lines(input@).len() && !line_ok(#[trigger] kept_lines(input@)[k]) && (
            forall|j: int| 0 <= j < k ==> line_ok(#[trigger] kept_lines(input@)[j])) && line_error(
                kept_lines(input@)[k],
                e,
            ),
{
    let lines = split_into_lines(input);
    let ghost ls = lines@.map_values(|l: Vec<u8>| l@);
    let mut out_lines: Vec<Vec<u8>> = Vec::new();
    let mut i: usize = 0;
    proof {
        reveal(Seq::filter);
        assert(ls.take(0) =~= Seq::<Seq<u8>>::empty());
        assert(ls.take(0).filter(non_blank()) =~= Seq::<Seq<u8>>::empty());
        assert(out_lines@.map_values(|l: Vec<u8>| l@) =~= Seq::<Seq<u8>>::empty());
        assert(ls.take(0).filter(non_blank()).map_values(
            |l: Seq<u8>| rescaled_line(l, tempo as int),
        ) =~= Seq::<Seq<u8>>::empty());
    }
    while i < lines.len()
        invariant
            i <= lines@.len(),
            ls == lines@.map_values(|l: Vec<u8>| l@),
            ls == split_lines(input@),
            out_lines@.map_values(|l: Vec<u8>| l@) == ls.take(i as int).filter(non_blank())
                .map_values(|l: Seq<u8>| rescaled_line(l, tempo as int)),
            forall|j: int| 0 <= j < ls.take(i as int).filter(non_blank()).len() ==> line_ok(
                #[trigger] ls.take(i as int).filter(non_blank())[j],
            ),
        decreases lines@.len() - i,
    {
        let ghost prev_kept = ls.take(i as int).filter(non_blank());
        proof {
            reveal(Seq::filter);
            assert(ls[i as int] == lines@[i as int]@);
            assert(ls.take(i + 1).drop_last() =~= ls.take(i as int));
            assert(ls.take(i + 1).last() == ls[i as int]);
            assert(ls.take(i + 1).len() == i + 1);
        }
        let line = &lines[i];
        if is_blank_line(line.as_slice()) {
            proof {
                reveal(Seq::filter);
                assert(line_blank(ls[i as int]));
                assert(!(non_blank())(ls.take(i + 1).last()));
                assert(ls.take(i + 1).filter(non_blank()) == ls.take(i + 1).drop_last().filter(
                    non_blank(),
                ));
                assert(ls.take(i + 1).filter(non_blank()) == prev_kept);
            }
            i += 1;
        } else {
            proof {
                reveal(Seq::filter);
                assert(!line_blank(ls[i as int]));
                assert((non_blank())(ls.take(i + 1).last()));
                assert(ls.take(i + 1).filter(non_blank()) == ls.take(i + 1).drop_last().filter(
                    non_blank(),
                ).push(ls.take(i + 1).last()));
                assert(ls.take(i + 1).filter(non_blank()) == prev_kept.push(ls[i as int]));
            }
            match rescale_line(line.as_slice(), tempo) {
                Ok(v) => {
                    out_lines.push(v);
                    proof {
                        assert(out_lines@.map_values(|l: Vec<u8>| l@) =~= prev_kept.map_values(
                            |l: Seq<u8>| rescaled_line(l, tempo as int),
                        ).push(rescaled_line(ls[i as int], tempo as int)));
                        assert(prev_kept.push(ls[i as int]).map_values(
                            |l: Seq<u8>| rescaled_line(l, tempo as int),
                        ) =~= prev_kept.map_values(|l: Seq<u8>| rescaled_line(l, tempo as int)).push(
                            rescaled_line(ls[i as int], tempo as int),
                        ));
                    }
                    i += 1;
                },
                Err(e) => {
                    proof {
                        reveal(Seq::filter);
                        let kept = kept_lines(input@);
                        let k = prev_kept.len() as int;
                        assert(ls =~= ls.take(i as int) + ls.skip(i as int));
                        Seq::filter_distributes_over_add(
                            ls.take(i as int),
                            ls.skip(i as int),
                            non_blank(),
                        );
                        assert(ls.skip(i as int) =~= seq![ls[i as int]] + ls.skip(i + 1));
                        Seq::filter_distributes_over_add(
                            seq![ls[i as int]],
                            ls.skip(i + 1),
                            non_blank(),
                        );
                        assert(seq![ls[i as int]].drop_last() =~= Seq::<Seq<u8>>::empty());
                        assert(seq![ls[i as int]].filter(non_blank()) == seq![ls[i as int]]);
                        assert(kept == prev_kept + seq![ls[i as int]].filter(non_blank()) + ls.skip(
                            i + 1,
                        ).filter(non_blank()));
                        assert(kept[k] == ls[i as int]);
                        assert(forall|j: int| 0 <= j < k ==> kept[j] == prev_kept[j]);
                        assert(0 <= k < kept.len() && !line_ok(kept[k]) && (forall|j: int|
                            0 <= j < k ==> line_ok(#[trigger] kept[j])) && line_error(kept[k], e));
                    }
                    return Err(e);
                },
            }
        }
    }
    proof {
        assert(ls.take(lines@.len() as int) =~= ls);
    }
    let mut nl: Vec<u8> = Vec::new();
    nl.push(B_LF);
    let out = join_with(&out_lines, nl.as_slice());
    proof {
        let kept = kept_lines(input@);
        assert(nl@ =~= seq![B_LF]);
        assert(out_lines@.map_values(|l: Vec<u8>| l@) =~= kept.map_values(
            |l: Seq<u8>| rescaled_line(l, tempo as int),
        ));
        assert(out@ == rescaled_alignment(input@, tempo as int));
    }
    Ok(out)
}

} // verus!
