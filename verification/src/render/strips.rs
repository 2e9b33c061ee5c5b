//! Strip layout of line geometry: the finite runs a polyline splits into,
//! and the per-vertex color bytes and draw ranges of packed strips.
use vstd::prelude::*;

use crate::io::Color;
use super::colors::color_bytes;

verus! {

// ---------------------------------------------------------------------------
// Finite runs
// ---------------------------------------------------------------------------

/// Points `start .. start + len` are all finite.
pub open spec fn all_finite(finite: Seq<bool>, start: int, len: int) -> bool {
    forall|j: int| start <= j < start + len ==> #[trigger] finite[j]
}

/// `(start, len)` is a maximal run of finite points of at least two points.
pub open spec fn is_strip_run(finite: Seq<bool>, run: (usize, usize)) -> bool {
    let (s, l) = run;
    &&& l >= 2
    &&& s + l <= finite.len()
    &&& all_finite(finite, s as int, l as int)
    &&& s == 0 || !finite[s - 1]
    &&& s + l == finite.len() || !finite[s + l]
}

/// The run covers point `j`.
pub open spec fn covers(run: (usize, usize), j: int) -> bool {
    run.0 <= j < run.0 + run.1
}

/// The runs a polyline is drawn as: every maximal run of at least two
/// finite points, in order; isolated finite points are dropped.
pub open spec fn strip_runs_ok(finite: Seq<bool>, runs: Seq<(usize, usize)>) -> bool {
    &&& forall|i: int| 0 <= i < runs.len() ==> is_strip_run(finite, #[trigger] runs[i])
    &&& forall|i: int|
        0 <= i < runs.len() - 1 ==> #[trigger] runs[i].0 + runs[i].1 < runs[i + 1].0
    &&& forall|j: int|
        0 <= j < finite.len() - 1 && #[trigger] finite[j] && finite[j + 1] ==> exists|i: int|
            0 <= i < runs.len() && covers(#[trigger] runs[i], j)
}

/// Split a polyline, given which of its points are finite, into its finite
/// runs of at least two points, as `(first point, point count)`. Segments
/// that would touch a non-finite point are dropped.
pub fn finite_runs(finite: &[bool]) -> (runs: Vec<(usize, usize)>)
    ensures
        strip_runs_ok(finite@, runs@),
{
    let n = finite.len();
    let mut runs: Vec<(usize, usize)> = Vec::new();
    let mut start: usize = 0;
    let mut i: usize = 0;
    while i < n
        invariant
            start <= i <= n,
            n == finite@.len(),
            all_finite(finite@, start as int, i - start),
            start == 0 || !finite@[start - 1],
            forall|k: int| 0 <= k < runs@.len() ==> is_strip_run(finite@, #[trigger] runs@[k]),
            forall|k: int|
                0 <= k < runs@.len() - 1 ==> #[trigger] runs@[k].0 + runs@[k].1 < runs@[k + 1].0,
            runs@.len() > 0 ==> runs@.last().0 + runs@.last().1 < start,
            forall|j: int|
                0 <= j < start - 1 && #[trigger] finite@[j] && finite@[j + 1] ==> exists|k: int|
                    0 <= k < runs@.len() && covers(#[trigger] runs@[k], j),
        decreases n - i,
    {
        if finite[i] {
            i = i + 1;
        } else {
            let len = i - start;
            if len >= 2 {
                let ghost before = runs@;
                runs.push((start, len));
                proof {
                    assert(runs@[runs@.len() - 1] == (start, len));
                    assert forall|k: int| 0 <= k < runs@.len() implies is_strip_run(
                        finite@,
                        #[trigger] runs@[k],
                    ) by {
                        if k < before.len() {
                            assert(runs@[k] == before[k]);
                        }
                    }
                    assert forall|k: int| 0 <= k < runs@.len() - 1 implies #[trigger] runs@[k].0
                        + runs@[k].1 < runs@[k + 1].0 by {
                        assert(runs@[k] == before[k]);
                        if k + 1 < before.len() {
                            assert(runs@[k + 1] == before[k + 1]);
                        }
                    }
                    assert forall|j: int|
                        0 <= j < i + 1 - 1 && #[trigger] finite@[j] && finite@[j + 1] implies exists|k: int|
                        0 <= k < runs@.len() && covers(#[trigger] runs@[k], j) by {
                        if j < start - 1 {
                            let k = choose|k: int|
                                0 <= k < before.len() && covers(#[trigger] before[k], j);
                            assert(runs@[k] == before[k]);
                        } else {
                            assert(j >= start);
                            assert(runs@[runs@.len() - 1] == (start, len));
                        }
                    }
                }
            } else {
                proof {
                    assert forall|j: int|
                        0 <= j < i + 1 - 1 && #[trigger] finite@[j] && finite@[j + 1] implies exists|k: int|
                        0 <= k < runs@.len() && covers(#[trigger] runs@[k], j) by {
                        if j >= start - 1 {
                            if j == start - 1 {
                                assert(!finite@[start - 1]);
                            } else if j == i - 1 {
                                assert(!finite@[i as int]);
                            } else {
                                assert(j >= start && j + 1 < i);
                                assert(false);
                            }
                        }
                    }
                }
            }
            i = i + 1;
            start = i;
        }
    }
    let len = n - start;
    if len >= 2 {
        let ghost before = runs@;
        runs.push((start, len));
        proof {
            assert(runs@[runs@.len() - 1] == (start, len));
            assert forall|k: int| 0 <= k < runs@.len() implies is_strip_run(
                finite@,
                #[trigger] runs@[k],
            ) by {
                if k < before.len() {
                    assert(runs@[k] == before[k]);
                }
            }
            assert forall|k: int| 0 <= k < runs@.len() - 1 implies #[trigger] runs@[k].0
                + runs@[k].1 < runs@[k + 1].0 by {
                assert(runs@[k] == before[k]);
                if k + 1 < before.len() {
                    assert(runs@[k + 1] == before[k + 1]);
                }
            }
            assert forall|j: int|
                0 <= j < n - 1 && #[trigger] finite@[j] && finite@[j + 1] implies exists|k: int|
                0 <= k < runs@.len() && covers(#[trigger] runs@[k], j) by {
                if j < start - 1 {
                    let k = choose|k: int|
                        0 <= k < before.len() && covers(#[trigger] before[k], j);
                    assert(runs@[k] == before[k]);
                } else if j == start - 1 {
                    assert(!finite@[start - 1]);
                } else {
                    assert(runs@[runs@.len() - 1] == (start, len));
                }
            }
        }
    } else {
        proof {
            assert forall|j: int|
                0 <= j < n - 1 && #[trigger] finite@[j] && finite@[j + 1] implies exists|k: int|
                0 <= k < runs@.len() && covers(#[trigger] runs@[k], j) by {
                if j >= start - 1 {
                    if j == start - 1 {
                        assert(!finite@[start - 1]);
                    } else {
                        assert(j >= start && j + 1 < n);
                        assert(false);
                    }
                }
            }
        }
    }
    runs
}

// ---------------------------------------------------------------------------
// Packed strips
// ---------------------------------------------------------------------------

/// Total vertices of the strips.
pub open spec fn total_vertices(strips: Seq<(Color, usize)>) -> nat
    decreases strips.len(),
{
    if strips.len() == 0 {
        0
    } else {
        total_vertices(strips.drop_last()) + strips.last().1 as nat
    }
}

/// A color repeated once per vertex.
pub open spec fn repeated_color(c: Color, n: nat) -> Seq<u8>
    decreases n,
{
    if n == 0 {
        seq![]
    } else {
        repeated_color(c, (n - 1) as nat) + color_bytes(c)
    }
}

/// The per-vertex color bytes of the strips, in order.
pub open spec fn strip_color_bytes(strips: Seq<(Color, usize)>) -> Seq<u8>
    decreases strips.len(),
{
    if strips.len() == 0 {
        seq![]
    } else {
        strip_color_bytes(strips.drop_last()) + repeated_color(strips.last().0, strips.last().1 as nat)
    }
}

/// The `(first vertex, vertex count)` draw range of every non-empty strip,
/// in order; empty strips draw nothing and get no range.
pub open spec fn strip_ranges(strips: Seq<(Color, usize)>) -> Seq<(u32, u32)>
    decreases strips.len(),
{
    if strips.len() == 0 {
        seq![]
    } else if strips.last().1 == 0 {
        strip_ranges(strips.drop_last())
    } else {
        strip_ranges(strips.drop_last()).push(
            (total_vertices(strips.drop_last()) as u32, strips.last().1 as u32),
        )
    }
}

proof fn lemma_total_prefix(strips: Seq<(Color, usize)>, k: int)
    requires
        0 <= k <= strips.len(),
    ensures
        total_vertices(strips.take(k)) <= total_vertices(strips),
    decreases strips.len(),
{
    if k < strips.len() {
        assert(strips.drop_last().take(k) =~= strips.take(k));
        lemma_total_prefix(strips.drop_last(), k);
    } else {
        assert(strips.take(k) =~= strips);
    }
}

/// Pack strips, given as `(color, vertex count)`, into one per-vertex
/// sRGB color buffer (the strip color repeated once per vertex, opaque
/// alpha) and the per-strip `(first vertex, vertex count)` draw ranges.
/// Strips are drawn as separate runs, so no vertex is shared between them.
pub fn pack_strips(strips: &[(Color, usize)]) -> (res: (Vec<u8>, Vec<(u32, u32)>))
    requires
        total_vertices(strips@) <= u32::MAX,
    ensures
        res.0@ == strip_color_bytes(strips@),
        res.1@ == strip_ranges(strips@),
{
    let mut colors: Vec<u8> = Vec::new();
    let mut ranges: Vec<(u32, u32)> = Vec::new();
    pack_strips_into(strips, &mut colors, &mut ranges);
    (colors, ranges)
}

/// Pack strips as [`pack_strips`] does, into buffers the caller keeps
/// between refreshes: whatever they held is replaced by the strips' color
/// bytes and draw ranges.
pub fn pack_strips_into(
    strips: &[(Color, usize)],
    colors: &mut Vec<u8>,
    ranges: &mut Vec<(u32, u32)>,
)
    requires
        total_vertices(strips@) <= u32::MAX,
    ensures
        final(colors)@ == strip_color_bytes(strips@),
        final(ranges)@ == strip_ranges(strips@),
{
    colors.clear();
    ranges.clear();
    let mut start: u32 = 0;
    let mut i: usize = 0;
    assert(strips@.take(0) =~= Seq::<(Color, usize)>::empty());
    assert(colors@ =~= strip_color_bytes(strips@.take(0)));
    assert(ranges@ =~= strip_ranges(strips@.take(0)));
    while i < strips.len()
        invariant
            i <= strips@.len(),
            total_vertices(strips@) <= u32::MAX,
            start == total_vertices(strips@.take(i as int)),
            colors@ == strip_color_bytes(strips@.take(i as int)),
            ranges@ == strip_ranges(strips@.take(i as int)),
        decreases strips@.len() - i,
    {
        let (color, count) = strips[i];
        proof {
            assert(strips@.take(i + 1).drop_last() =~= strips@.take(i as int));
            assert(strips@.take(i + 1).last() == strips@[i as int]);
            lemma_total_prefix(strips@, i + 1);
        }
        let mut v: usize = 0;
        let ghost base = colors@;
        while v < count
            invariant
                v <= count,
                colors@ == base + repeated_color(color, v as nat),
            decreases count - v,
        {
            colors.push(color.r);
            colors.push(color.g);
            colors.push(color.b);
            colors.push(255u8);
            assert(colors@ =~= base + repeated_color(color, (v + 1) as nat));
            v = v + 1;
        }
        if count > 0 {
            ranges.push((start, count as u32));
        }
        start = start + count as u32;
        i = i + 1;
    }
    assert(strips@.take(i as int) =~= strips@);
}

} // verus!
