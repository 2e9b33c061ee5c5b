//! Which triangles of a mesh can be drawn: the index triples whose corners
//! all reference a finite vertex. The host then drops the faces whose
//! normal is degenerate.
use vstd::prelude::*;

verus! {

/// Corner `i` references a vertex, and that vertex is finite.
pub open spec fn corner_ok(finite: Seq<bool>, i: u32) -> bool {
    (i as int) < finite.len() && finite[i as int]
}

/// The triple of face `k`.
pub open spec fn face_at(indices: Seq<u32>, k: int) -> (u32, u32, u32) {
    (indices[3 * k], indices[3 * k + 1], indices[3 * k + 2])
}

pub open spec fn face_ok(finite: Seq<bool>, f: (u32, u32, u32)) -> bool {
    corner_ok(finite, f.0) && corner_ok(finite, f.1) && corner_ok(finite, f.2)
}

/// The drawable faces among the first `k` full index triples, in order.
pub open spec fn kept_faces(finite: Seq<bool>, indices: Seq<u32>, k: nat) -> Seq<(u32, u32, u32)>
    decreases k,
{
    if k == 0 {
        seq![]
    } else {
        let before = kept_faces(finite, indices, (k - 1) as nat);
        let f = face_at(indices, k - 1);
        if face_ok(finite, f) {
            before.push(f)
        } else {
            before
        }
    }
}

/// The faces among the first `k` full index triples that cannot be drawn.
pub open spec fn skipped_faces(finite: Seq<bool>, indices: Seq<u32>, k: nat) -> nat
    decreases k,
{
    if k == 0 {
        0
    } else {
        skipped_faces(finite, indices, (k - 1) as nat) + if face_ok(
            finite,
            face_at(indices, k - 1),
        ) {
            0nat
        } else {
            1nat
        }
    }
}

/// The drawable faces among the first `k` triples, and how many there are
/// not.
proof fn lemma_kept_faces_filter(finite: Seq<bool>, indices: Seq<u32>, k: nat)
    ensures
        kept_faces(finite, indices, k) == Seq::new(k, |j: int| face_at(indices, j)).filter(
            |f: (u32, u32, u32)|
                (f.0 as int) < finite.len() && finite[f.0 as int] && (f.1 as int) < finite.len()
                    && finite[f.1 as int] && (f.2 as int) < finite.len() && finite[f.2 as int],
        ),
        kept_faces(finite, indices, k).len() + skipped_faces(finite, indices, k) == k,
    decreases k,
{
    reveal(Seq::filter);
    if k > 0 {
        lemma_kept_faces_filter(finite, indices, (k - 1) as nat);
        assert(Seq::new(k, |j: int| face_at(indices, j)).drop_last() =~= Seq::new(
            (k - 1) as nat,
            |j: int| face_at(indices, j),
        ));
    }
}

/// A face `(a, b, c)` is kept exactly when each of `a`, `b` and `c` is a
/// vertex of the mesh and that vertex is finite; kept faces stay in face
/// order, and every face is either kept or counted as skipped. So when all
/// vertices are finite and every index is in range, every face is kept
/// and none is skipped.
pub proof fn law_faces_kept_exactly_when_drawable(finite: Seq<bool>, indices: Seq<u32>)
    ensures
        ({
            let n = indices.len() / 3;
            &&& kept_faces(finite, indices, n) == Seq::new(n, |j: int| face_at(indices, j)).filter(
                |f: (u32, u32, u32)|
                    (f.0 as int) < finite.len() && finite[f.0 as int] && (f.1 as int)
                        < finite.len() && finite[f.1 as int] && (f.2 as int) < finite.len()
                        && finite[f.2 as int],
            )
            &&& kept_faces(finite, indices, n).len() + skipped_faces(finite, indices, n) == n
        }),
        (forall|i: int| 0 <= i < finite.len() ==> #[trigger] finite[i]) && (forall|i: int|
            0 <= i < indices.len() ==> (#[trigger] indices[i] as int) < finite.len()) ==> {
            let n = indices.len() / 3;
            &&& kept_faces(finite, indices, n) == Seq::new(n, |j: int| face_at(indices, j))
            &&& skipped_faces(finite, indices, n) == 0
        },
{
    let n = indices.len() / 3;
    lemma_kept_faces_filter(finite, indices, n);
    if (forall|i: int| 0 <= i < finite.len() ==> #[trigger] finite[i]) && (forall|i: int|
        0 <= i < indices.len() ==> (#[trigger] indices[i] as int) < finite.len()) {
        lemma_all_kept(finite, indices, n);
    }
}

proof fn lemma_all_kept(finite: Seq<bool>, indices: Seq<u32>, k: nat)
    requires
        k <= indices.len() / 3,
        forall|i: int| 0 <= i < finite.len() ==> #[trigger] finite[i],
        forall|i: int| 0 <= i < indices.len() ==> (#[trigger] indices[i] as int) < finite.len(),
    ensures
        kept_faces(finite, indices, k) == Seq::new(k, |j: int| face_at(indices, j)),
        skipped_faces(finite, indices, k) == 0,
    decreases k,
{
    if k > 0 {
        lemma_all_kept(finite, indices, (k - 1) as nat);
        let j = k - 1;
        assert(indices.len() >= 3 * k) by (nonlinear_arith)
            requires
                k <= indices.len() / 3,
        ;
        let f = face_at(indices, j);
        assert((indices[3 * j] as int) < finite.len());
        assert((indices[3 * j + 1] as int) < finite.len());
        assert((indices[3 * j + 2] as int) < finite.len());
        assert(finite[f.0 as int] && finite[f.1 as int] && finite[f.2 as int]);
        assert(Seq::new(k, |j: int| face_at(indices, j)) =~= Seq::new(
            (k - 1) as nat,
            |j: int| face_at(indices, j),
        ).push(f));
    }
}

/// Split an index list into its faces (three indices each): the faces whose
/// corners all reference finite vertices, in face order, and the number of
/// faces skipped — those with a corner out of range or at a non-finite
/// vertex, plus a trailing partial triple.
pub fn face_corners(finite: &[bool], indices: &[u32]) -> (res: (Vec<(u32, u32, u32)>, usize))
    ensures
        res.0@ == kept_faces(finite@, indices@, indices@.len() / 3),
        res.1 == skipped_faces(finite@, indices@, indices@.len() / 3) + if indices@.len() % 3
            != 0 {
            1nat
        } else {
            0nat
        },
{
    let n = indices.len();
    let mut faces: Vec<(u32, u32, u32)> = Vec::new();
    let mut skipped: usize = 0;
    let mut k: usize = 0;
    while k < n / 3
        invariant
            n == indices@.len(),
            k <= n / 3,
            faces@ == kept_faces(finite@, indices@, k as nat),
            skipped == skipped_faces(finite@, indices@, k as nat),
            skipped <= k,
        decreases n / 3 - k,
    {
        let a = indices[3 * k];
        let b = indices[3 * k + 1];
        let c = indices[3 * k + 2];
        let ok = (a as usize) < finite.len() && finite[a as usize] && (b as usize) < finite.len()
            && finite[b as usize] && (c as usize) < finite.len() && finite[c as usize];
        assert(face_at(indices@, k as int) == (a, b, c));
        if ok {
            faces.push((a, b, c));
        } else {
            skipped = skipped + 1;
        }
        k = k + 1;
    }
    if n % 3 != 0 {
        skipped = skipped + 1;
    }
    (faces, skipped)
}

} // verus!
