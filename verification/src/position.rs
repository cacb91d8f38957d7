//! The position mapper: a byte offset is resolved to a 0-based line index and
//! a byte column using the precomputed, ordered list of line-start offsets
//! (offset 0, plus one past every newline byte). Columns are byte offsets.

use vstd::prelude::*;

verus! {

/// The ordered list of line-start byte offsets of a text.
pub open spec fn line_starts_spec(t: Seq<u8>) -> Seq<int>
    decreases t.len(),
{
    if t.len() == 0 {
        seq![0]
    } else {
        line_starts_spec(t.subrange(0, t.len() - 1)) + (if t[t.len() - 1] == 10 {
            seq![t.len() as int]
        } else {
            seq![]
        })
    }
}

pub open spec fn starts_view(s: Seq<usize>) -> Seq<int> {
    s.map_values(|x: usize| x as int)
}

/// Line starts begin at offset 0, are strictly increasing, and lie within the
/// text's byte length.
pub proof fn lemma_line_starts_props(t: Seq<u8>)
    ensures
        line_starts_spec(t).len() >= 1,
        line_starts_spec(t)[0] == 0,
        forall|i: int, j: int|
            0 <= i < j < line_starts_spec(t).len() ==> line_starts_spec(t)[i] < line_starts_spec(
                t,
            )[j],
        forall|i: int|
            0 <= i < line_starts_spec(t).len() ==> 0 <= #[trigger] line_starts_spec(t)[i]
                <= t.len(),
    decreases t.len(),
{
    if t.len() > 0 {
        lemma_line_starts_props(t.subrange(0, t.len() - 1));
    }
}

/// Compute the line starts of a text.
pub fn line_starts(text: &Vec<u8>) -> (r: Vec<usize>)
    ensures
        starts_view(r@) == line_starts_spec(text@),
{
    let mut r: Vec<usize> = Vec::new();
    r.push(0);
    proof {
        assert(text@.subrange(0, 0) =~= Seq::<u8>::empty());
        assert(starts_view(r@) =~= line_starts_spec(text@.subrange(0, 0)));
    }
    for i in 0..text.len()
        invariant
            starts_view(r@) == line_starts_spec(text@.subrange(0, i as int)),
    {
        let is_newline = text[i] == 10;
        if is_newline {
            r.push(i + 1);
        }
        proof {
            let t1 = text@.subrange(0, i + 1 as int);
            assert(t1.subrange(0, i as int) =~= text@.subrange(0, i as int));
            assert(t1[i as int] == text@[i as int]);
            if is_newline {
                assert(starts_view(r@) =~= line_starts_spec(text@.subrange(0, i as int)) + seq![
                    (i + 1) as int,
                ]);
            } else {
                assert(starts_view(r@) =~= line_starts_spec(text@.subrange(0, i as int))
                    + Seq::<int>::empty());
            }
            assert(starts_view(r@) == line_starts_spec(t1));
        }
    }
    proof {
        assert(text@.subrange(0, text@.len() as int) =~= text@);
    }
    r
}

/// The index of the greatest line start not exceeding `off` (the offset's
/// 0-based line index, for sorted starts beginning at 0).
pub open spec fn line_of_starts(starts: Seq<int>, off: int) -> int
    decreases starts.len(),
{
    if starts.len() <= 1 {
        0
    } else if starts[starts.len() - 1] <= off {
        starts.len() - 1
    } else {
        line_of_starts(starts.subrange(0, starts.len() - 1), off)
    }
}

/// The line index is the unique index whose start is at most `off` while the
/// next start (if any) exceeds it.
pub proof fn lemma_line_of_starts_unique(starts: Seq<int>, off: int, j: int)
    requires
        forall|i: int, k: int| 0 <= i < k < starts.len() ==> starts[i] < starts[k],
        0 <= j < starts.len(),
        starts[j] <= off,
        j + 1 < starts.len() ==> off < starts[j + 1],
    ensures
        j == line_of_starts(starts, off),
    decreases starts.len(),
{
    if starts.len() > 1 {
        if starts[starts.len() - 1] <= off {
            if j < starts.len() - 1 {
                assert(starts[j + 1] <= starts[starts.len() - 1]);
            }
        } else {
            let front = starts.subrange(0, starts.len() - 1);
            lemma_line_of_starts_unique(front, off, j);
        }
    }
}

/// Resolve a byte offset to its (line index, byte column) by binary search
/// for the greatest line start not exceeding the offset.
pub fn line_col_of(starts: &Vec<usize>, off: usize) -> (r: (usize, usize))
    requires
        starts@.len() >= 1,
        starts@[0] == 0,
        forall|i: int, j: int| 0 <= i < j < starts@.len() ==> starts@[i] < starts@[j],
    ensures
        r.0 < starts@.len(),
        r.0 as int == line_of_starts(starts_view(starts@), off as int),
        starts@[r.0 as int] <= off,
        r.1 == off - starts@[r.0 as int],
{
    let mut lo: usize = 0;
    let mut hi: usize = starts.len();
    while lo < hi
        invariant
            0 <= lo <= hi <= starts@.len(),
            forall|k: int| 0 <= k < lo ==> starts@[k] <= off,
            forall|k: int| hi <= k < starts@.len() ==> starts@[k] > off,
            forall|i: int, j: int| 0 <= i < j < starts@.len() ==> starts@[i] < starts@[j],
        decreases hi - lo,
    {
        let mid = lo + (hi - lo) / 2;
        if starts[mid] <= off {
            lo = mid + 1;
        } else {
            hi = mid;
        }
    }
    let line = lo - 1;
    proof {
        let sv = starts_view(starts@);
        assert(sv[line as int] == starts@[line as int]);
        if line as int + 1 < sv.len() {
            assert(starts@[line as int + 1] > off);
        }
        lemma_line_of_starts_unique(sv, off as int, line as int);
    }
    let base = starts[line];
    (line, off - base)
}

} // verus!
