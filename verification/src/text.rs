//! Byte-level text handling for alignment files: splitting a file into
//! lines, splitting a line into whitespace-separated cells, joining cells
//! and lines back together, and rewriting the file extension of a path.

use vstd::prelude::*;

verus! {

/// ASCII space.
pub const B_SPACE: u8 = 32;

/// ASCII horizontal tab.
pub const B_TAB: u8 = 9;

/// ASCII line feed.
pub const B_LF: u8 = 10;

/// ASCII vertical tab.
pub const B_VT: u8 = 11;

/// ASCII form feed.
pub const B_FF: u8 = 12;

/// ASCII carriage return.
pub const B_CR: u8 = 13;

/// An ASCII whitespace byte.
pub open spec fn is_ws(b: u8) -> bool {
    b == B_SPACE || b == B_TAB || b == B_LF || b == B_VT || b == B_FF || b == B_CR
}

/// A line of nothing but whitespace (or nothing at all).
pub open spec fn line_blank(l: Seq<u8>) -> bool {
    forall|i: int| 0 <= i < l.len() ==> is_ws(#[trigger] l[i])
}

/// Length of the longest prefix whose bytes all satisfy `keep`.
pub open spec fn run_len(s: Seq<u8>, keep: spec_fn(u8) -> bool) -> int
    decreases s.len(),
{
    if s.len() == 0 || !keep(s[0]) {
        0
    } else {
        1 + run_len(s.drop_first(), keep)
    }
}

pub proof fn lemma_run_len_bounds(s: Seq<u8>, keep: spec_fn(u8) -> bool)
    ensures
        0 <= run_len(s, keep) <= s.len(),
        forall|i: int| 0 <= i < run_len(s, keep) ==> keep(#[trigger] s[i]),
        run_len(s, keep) < s.len() ==> !keep(s[run_len(s, keep)]),
    decreases s.len(),
{
    if s.len() > 0 && keep(s[0]) {
        let t = s.drop_first();
        lemma_run_len_bounds(t, keep);
        assert forall|i: int| 0 <= i < run_len(s, keep) implies keep(#[trigger] s[i]) by {
            if i > 0 {
                assert(s[i] == t[i - 1]);
            }
        }
        if run_len(s, keep) < s.len() {
            assert(s[run_len(s, keep)] == t[run_len(t, keep)]);
        }
    }
}

/// The run length is pinned by its boundary: `k` bytes that satisfy `keep`,
/// then the end or a byte that does not.
pub proof fn lemma_run_len_is(s: Seq<u8>, keep: spec_fn(u8) -> bool, k: int)
    requires
        0 <= k <= s.len(),
        forall|i: int| 0 <= i < k ==> keep(#[trigger] s[i]),
        k < s.len() ==> !keep(s[k]),
    ensures
        run_len(s, keep) == k,
    decreases k,
{
    if k == 0 {
    } else {
        let t = s.drop_first();
        assert forall|i: int| 0 <= i < k - 1 implies keep(#[trigger] t[i]) by {
            assert(t[i] == s[i + 1]);
        }
        lemma_run_len_is(t, keep, k - 1);
    }
}

/// The keep predicate for a cell: any byte that is not whitespace.
pub open spec fn not_ws() -> spec_fn(u8) -> bool {
    |b: u8| !is_ws(b)
}

/// The keep predicate for a line: any byte that is not a line feed.
pub open spec fn not_lf() -> spec_fn(u8) -> bool {
    |b: u8| b != B_LF
}

/// The whitespace-separated cells of `s`, in order, each maximal and
/// non-empty, as `str::split_whitespace` yields them.
pub open spec fn split_ws(s: Seq<u8>) -> Seq<Seq<u8>>
    decreases s.len(),
    via split_ws_decreases
{
    if s.len() == 0 {
        Seq::empty()
    } else if is_ws(s[0]) {
        split_ws(s.drop_first())
    } else {
        seq![s.take(run_len(s, not_ws()))] + split_ws(s.skip(run_len(s, not_ws())))
    }
}

#[via_fn]
proof fn split_ws_decreases(s: Seq<u8>) {
    if s.len() > 0 && !is_ws(s[0]) {
        lemma_run_len_bounds(s, not_ws());
        assert(run_len(s, not_ws()) >= 1);
    }
}

/// The segments of `s` between line feeds: one more segment than there are
/// line feeds, segments possibly empty.
pub open spec fn split_lines(s: Seq<u8>) -> Seq<Seq<u8>>
    decreases s.len(),
    via split_lines_decreases
{
    let k = run_len(s, not_lf());
    if k == s.len() {
        seq![s]
    } else {
        seq![s.take(k)] + split_lines(s.skip(k + 1))
    }
}

#[via_fn]
proof fn split_lines_decreases(s: Seq<u8>) {
    lemma_run_len_bounds(s, not_lf());
}

/// The elements of `xs` laid end to end with `sep` between neighbours.
pub open spec fn join_sep(xs: Seq<Seq<u8>>, sep: Seq<u8>) -> Seq<u8>
    decreases xs.len(),
{
    if xs.len() == 0 {
        Seq::empty()
    } else if xs.len() == 1 {
        xs[0]
    } else {
        join_sep(xs.drop_last(), sep) + sep + xs.last()
    }
}

/// Joining one more element appends a separator and the element.
pub proof fn lemma_join_snoc(xs: Seq<Seq<u8>>, sep: Seq<u8>, x: Seq<u8>)
    ensures
        join_sep(xs.push(x), sep) == if xs.len() == 0 {
            x
        } else {
            join_sep(xs, sep) + sep + x
        },
{
    assert(xs.push(x).drop_last() =~= xs);
    assert(xs.push(x).last() == x);
    if xs.len() == 0 {
        assert(xs.push(x)[0] == x);
    }
}

fn is_ws_byte(b: u8) -> (r: bool)
    ensures
        r == is_ws(b),
{
    b == B_SPACE || b == B_TAB || b == B_LF || b == B_VT || b == B_FF || b == B_CR
}

/// Whether a line holds nothing but whitespace.
pub fn is_blank_line(l: &[u8]) -> (r: bool)
    ensures
        r == line_blank(l@),
{
    let n = l.len();
    let mut i: usize = 0;
    while i < n
        invariant
            i <= n == l@.len(),
            forall|j: int| 0 <= j < i ==> is_ws(#[trigger] l@[j]),
        decreases n - i,
    {
        if !is_ws_byte(l[i]) {
            return false;
        }
        i += 1;
    }
    true
}

/// Splits a line into its whitespace-separated cells.
pub fn split_cells(s: &[u8]) -> (r: Vec<Vec<u8>>)
    ensures
        r@.map_values(|c: Vec<u8>| c@) == split_ws(s@),
{
    let n = s.len();
    let mut r: Vec<Vec<u8>> = Vec::new();
    let mut i: usize = 0;
    proof {
        assert(s@.skip(0) =~= s@);
        assert(r@.map_values(|c: Vec<u8>| c@) + split_ws(s@) =~= split_ws(s@));
    }
    while i < n
        invariant
            i <= n == s@.len(),
            split_ws(s@) == r@.map_values(|c: Vec<u8>| c@) + split_ws(s@.skip(i as int)),
        decreases n - i,
    {
        if is_ws_byte(s[i]) {
            proof {
                assert(s@.skip(i as int).drop_first() =~= s@.skip(i + 1));
            }
            i += 1;
        } else {
            let start = i;
            let mut tok: Vec<u8> = Vec::new();
            while i < n && !is_ws_byte(s[i])
                invariant
                    start <= i <= n == s@.len(),
                    tok@ =~= s@.subrange(start as int, i as int),
                    forall|j: int| start <= j < i ==> !is_ws(#[trigger] s@[j]),
                decreases n - i,
            {
                tok.push(s[i]);
                proof {
                    assert(tok@ =~= s@.subrange(start as int, i + 1));
                }
                i += 1;
            }
            proof {
                let rest = s@.skip(start as int);
                let k = i - start;
                assert forall|j: int| 0 <= j < k implies (not_ws())(#[trigger] rest[j]) by {
                    assert(rest[j] == s@[start + j]);
                }
                if k < rest.len() {
                    assert(rest[k] == s@[i as int]);
                }
                lemma_run_len_is(rest, not_ws(), k);
                assert(rest.take(k) =~= s@.subrange(start as int, i as int));
                assert(rest.skip(k) =~= s@.skip(i as int));
                assert(split_ws(rest) == seq![tok@] + split_ws(s@.skip(i as int)));
                assert(r@.push(tok).map_values(|c: Vec<u8>| c@) =~= r@.map_values(
                    |c: Vec<u8>| c@,
                ).push(tok@));
                assert(r@.map_values(|c: Vec<u8>| c@) + (seq![tok@] + split_ws(s@.skip(i as int)))
                    =~= r@.map_values(|c: Vec<u8>| c@).push(tok@) + split_ws(s@.skip(i as int)));
            }
            r.push(tok);
        }
    }
    proof {
        assert(s@.skip(n as int) =~= Seq::<u8>::empty());
        assert(split_ws(s@) =~= r@.map_values(|c: Vec<u8>| c@));
    }
    r
}

/// Splits a byte text into its lines, one more line than there are line
/// feeds, lines possibly empty.
pub fn split_into_lines(s: &[u8]) -> (r: Vec<Vec<u8>>)
    ensures
        r@.map_values(|l: Vec<u8>| l@) == split_lines(s@),
{
    let n = s.len();
    let mut r: Vec<Vec<u8>> = Vec::new();
    let mut cur: Vec<u8> = Vec::new();
    let mut i: usize = 0;
    let ghost mut seg_start: int = 0;
    proof {
        assert(s@.skip(0) =~= s@);
        assert(cur@ =~= s@.subrange(0, 0));
        assert(r@.map_values(|l: Vec<u8>| l@) + split_lines(s@) =~= split_lines(s@));
    }
    while i < n
        invariant
            0 <= seg_start <= i <= n == s@.len(),
            cur@ =~= s@.subrange(seg_start, i as int),
            forall|j: int| seg_start <= j < i ==> s@[j] != B_LF,
            split_lines(s@) == r@.map_values(|l: Vec<u8>| l@) + split_lines(s@.skip(seg_start)),
        decreases n - i,
    {
        let b = s[i];
        if b == B_LF {
            proof {
                let rest = s@.skip(seg_start);
                let k = i - seg_start;
                assert forall|j: int| 0 <= j < k implies (not_lf())(#[trigger] rest[j]) by {
                    assert(rest[j] == s@[seg_start + j]);
                }
                assert(rest[k] == s@[i as int]);
                lemma_run_len_is(rest, not_lf(), k);
                assert(rest.take(k) =~= cur@);
                assert(rest.skip(k + 1) =~= s@.skip(i + 1));
                assert(split_lines(rest) == seq![cur@] + split_lines(s@.skip(i + 1)));
                assert(r@.push(cur).map_values(|l: Vec<u8>| l@) =~= r@.map_values(
                    |l: Vec<u8>| l@,
                ).push(cur@));
                assert(r@.map_values(|l: Vec<u8>| l@) + (seq![cur@] + split_lines(s@.skip(i + 1)))
                    =~= r@.map_values(|l: Vec<u8>| l@).push(cur@) + split_lines(s@.skip(i + 1)));
            }
            r.push(cur);
            cur = Vec::new();
            proof {
                seg_start = i + 1;
                assert(cur@ =~= s@.subrange(seg_start, i + 1));
            }
            i += 1;
        } else {
            cur.push(b);
            proof {
                assert(cur@ =~= s@.subrange(seg_start, i + 1));
            }
            i += 1;
        }
    }
    proof {
        let rest = s@.skip(seg_start);
        let k = n - seg_start;
        assert forall|j: int| 0 <= j < k implies (not_lf())(#[trigger] rest[j]) by {
            assert(rest[j] == s@[seg_start + j]);
        }
        lemma_run_len_is(rest, not_lf(), k);
        assert(rest =~= cur@);
        assert(split_lines(rest) == seq![cur@]);
        assert(r@.push(cur).map_values(|l: Vec<u8>| l@) =~= r@.map_values(|l: Vec<u8>| l@).push(
            cur@,
        ));
        assert(r@.map_values(|l: Vec<u8>| l@) + seq![cur@] =~= r@.map_values(
            |l: Vec<u8>| l@,
        ).push(cur@));
    }
    r.push(cur);
    r
}

/// Joins `xs` with `sep` between neighbours.
pub fn join_with(xs: &Vec<Vec<u8>>, sep: &[u8]) -> (r: Vec<u8>)
    ensures
        r@ == join_sep(xs@.map_values(|x: Vec<u8>| x@), sep@),
{
    let mut out: Vec<u8> = Vec::new();
    let mut k: usize = 0;
    while k < xs.len()
        invariant
            k <= xs@.len(),
            out@ == join_sep(xs@.map_values(|x: Vec<u8>| x@).take(k as int), sep@),
        decreases xs@.len() - k,
    {
        if k > 0 {
            let mut j: usize = 0;
            while j < sep.len()
                invariant
                    j <= sep@.len(),
                    out@ == join_sep(xs@.map_values(|x: Vec<u8>| x@).take(k as int), sep@)
                        + sep@.subrange(0, j as int),
                decreases sep@.len() - j,
            {
                out.push(sep[j]);
                proof {
                    assert(sep@.subrange(0, j + 1) =~= sep@.subrange(0, j as int).push(sep@[j as int]));
                    assert(out@ =~= join_sep(xs@.map_values(|x: Vec<u8>| x@).take(k as int), sep@)
                        + sep@.subrange(0, j + 1));
                }
                j += 1;
            }
            proof {
                assert(sep@.subrange(0, sep@.len() as int) =~= sep@);
            }
        }
        let x = &xs[k];
        let mut j: usize = 0;
        while j < x.len()
            invariant
                j <= x@.len(),
                x@ == xs@[k as int]@,
                k < xs@.len(),
                out@ == join_sep(xs@.map_values(|x: Vec<u8>| x@).take(k as int), sep@) + (if k > 0 {
                    sep@
                } else {
                    Seq::<u8>::empty()
                }) + x@.subrange(0, j as int),
            decreases x@.len() - j,
        {
            out.push(x[j]);
            proof {
                assert(x@.subrange(0, j + 1) =~= x@.subrange(0, j as int).push(x@[j as int]));
                assert(out@ =~= join_sep(xs@.map_values(|x: Vec<u8>| x@).take(k as int), sep@) + (
                if k > 0 {
                    sep@
                } else {
                    Seq::<u8>::empty()
                }) + x@.subrange(0, j + 1));
            }
            j += 1;
        }
        proof {
            let m = xs@.map_values(|x: Vec<u8>| x@);
            assert(x@.subrange(0, x@.len() as int) =~= x@);
            assert(m.take(k + 1) =~= m.take(k as int).push(m[k as int]));
            lemma_join_snoc(m.take(k as int), sep@, m[k as int]);
            assert(out@ =~= join_sep(m.take(k + 1), sep@));
        }
        k += 1;
    }
    proof {
        let m = xs@.map_values(|x: Vec<u8>| x@);
        assert(m.take(m.len() as int) =~= m);
    }
    out
}

} // verus!
