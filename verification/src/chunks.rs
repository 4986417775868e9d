//! Splitting a run of blocks or bytes into pieces of a limited size.

use vstd::prelude::*;

verus! {

/// The pieces, as `(start, length)`, that a run of `count` from `start` falls
/// into when no piece may be longer than `max`: as many full ones as there are,
/// then what is left.
pub open spec fn chunks_of(start: int, count: int, max: int) -> Seq<(int, int)>
    decreases count,
{
    if count <= 0 || max <= 0 {
        seq![]
    } else {
        let n = if count <= max {
            count
        } else {
            max
        };
        seq![(start, n)] + chunks_of(start + n, count - n, max)
    }
}

/// The pieces tile the run: the first starts where it starts, each other where
/// the one before it ends, the last ends where it ends; no piece is empty or
/// too long, and only the last may be short.
pub proof fn chunks_tile(start: int, count: int, max: int)
    requires
        0 <= count,
        0 < max,
    ensures
        ({
            let s = chunks_of(start, count, max);
            &&& count == 0 <==> s.len() == 0
            &&& s.len() > 0 ==> s[0].0 == start && s.last().0 + s.last().1 == start + count
            &&& forall|i: int| 0 <= i < s.len() ==> 0 < (#[trigger] s[i]).1 <= max
            &&& forall|i: int| 0 <= i < s.len() - 1 ==> (#[trigger] s[i]).1 == max
            &&& forall|i: int, j: int|
                0 <= i < s.len() && j == i + 1 && j < s.len() ==> (#[trigger] s[j]).0 == (
                #[trigger] s[i]).0 + s[i].1
            &&& forall|i: int|
                0 <= i < s.len() ==> start <= (#[trigger] s[i]).0 && s[i].0 + s[i].1 <= start
                    + count
            &&& count <= max && count > 0 ==> s == seq![(start, count)]
            &&& s.len() <= count
        }),
    decreases count,
{
    if count > 0 {
        let n = if count <= max {
            count
        } else {
            max
        };
        let s = chunks_of(start, count, max);
        let rest = chunks_of(start + n, count - n, max);
        chunks_tile(start + n, count - n, max);
        assert forall|i: int| 1 <= i < s.len() implies #[trigger] s[i] == rest[i - 1] by {}
        if count <= max {
            assert(rest =~= seq![]);
            assert(s =~= seq![(start, count)]);
        }
    }
}

/// The piece number `i` stands `i` full pieces behind the start; it is full but
/// where it is the last, which has what is left.
pub proof fn chunks_stand_in_place(start: int, count: int, max: int, i: int)
    requires
        0 <= count,
        0 < max,
        0 <= i < chunks_of(start, count, max).len(),
    ensures
        ({
            let s = chunks_of(start, count, max);
            &&& s[i].0 == start + i * max
            &&& s[i].1 == (if i < s.len() - 1 {
                max
            } else {
                count - i * max
            })
        }),
    decreases count,
{
    let s = chunks_of(start, count, max);
    if i == 0 {
        assert(0 * max == 0) by (nonlinear_arith);
        chunks_tile(start, count, max);
    } else {
        assert(count > 0);
        let n = if count <= max {
            count
        } else {
            max
        };
        let rest = chunks_of(start + n, count - n, max);
        assert(s[i] == rest[i - 1]);
        chunks_tile(start + n, count - n, max);
        chunks_stand_in_place(start + n, count - n, max, i - 1);
        assert((i - 1) * max + max == i * max) by (nonlinear_arith);
    }
}

/// The lengths of pieces, added up.
pub open spec fn total_len(s: Seq<(int, int)>) -> int
    decreases s.len(),
{
    if s.len() == 0 {
        0
    } else {
        s[0].1 + total_len(s.drop_first())
    }
}

/// Nothing is lost and nothing counted twice: the lengths add up to the run.
pub proof fn chunks_total(start: int, count: int, max: int)
    requires
        0 <= count,
        0 < max,
    ensures
        total_len(chunks_of(start, count, max)) == count,
    decreases count,
{
    if count > 0 {
        let n = if count <= max {
            count
        } else {
            max
        };
        let s = chunks_of(start, count, max);
        chunks_total(start + n, count - n, max);
        assert(s.drop_first() =~= chunks_of(start + n, count - n, max));
    }
}

/// What the pieces cut out of `data`, put together again. A piece that reaches
/// beyond the end of `data` is cut short there.
pub open spec fn pieces_joined(data: Seq<u8>, s: Seq<(int, int)>) -> Seq<u8>
    decreases s.len(),
{
    if s.len() == 0 {
        seq![]
    } else {
        piece(data, s[0]) + pieces_joined(data, s.drop_first())
    }
}

/// What one piece cuts out of `data`.
pub open spec fn piece(data: Seq<u8>, p: (int, int)) -> Seq<u8> {
    data.subrange(p.0, min_int(p.0 + p.1, data.len() as int))
}

pub open spec fn min_int(a: int, b: int) -> int {
    if a <= b {
        a
    } else {
        b
    }
}

/// Cutting a run of `data` into pieces and joining them gives the run, as far
/// as `data` reaches, where every piece starts inside of it.
pub proof fn pieces_make_the_run(data: Seq<u8>, start: int, count: int, max: int)
    requires
        0 <= start <= data.len(),
        0 <= count,
        0 < max,
        forall|i: int|
            0 <= i < chunks_of(start, count, max).len() ==> (#[trigger] chunks_of(
                start,
                count,
                max,
            )[i]).0 <= data.len(),
    ensures
        pieces_joined(data, chunks_of(start, count, max)) == data.subrange(
            start,
            min_int(start + count, data.len() as int),
        ),
    decreases count,
{
    let s = chunks_of(start, count, max);
    if count > 0 {
        let n = if count <= max {
            count
        } else {
            max
        };
        let rest = chunks_of(start + n, count - n, max);
        assert(s.drop_first() =~= rest);
        assert(s[0] == (start, n));
        let end = min_int(start + count, data.len() as int);
        if count <= max {
            assert(rest =~= seq![]);
            assert(pieces_joined(data, s.drop_first()) =~= seq![]);
            assert(pieces_joined(data, s) =~= data.subrange(start, end));
        } else {
            assert(rest[0].0 == start + n);
            assert(s[1] == rest[0]);
            assert forall|i: int| 0 <= i < rest.len() implies (#[trigger] rest[i]).0
                <= data.len() by {
                assert(s[i + 1] == rest[i]);
            }
            pieces_make_the_run(data, start + n, count - n, max);
            assert(piece(data, s[0]) + data.subrange(start + n, end) =~= data.subrange(start, end));
        }
    } else {
        assert(pieces_joined(data, s) =~= data.subrange(start, start));
    }
}

} // verus!
