//! OBJ parser for the locked subset: ASCII files using the `v`, `vn` and
//! `f` records only.
//!
//! Faces are triangles — an `f` record must reference exactly three
//! corners, and any other count rejects the whole file. Corner styles mix
//! freely: bare `f v`, `f v/vt` (the `vt` part is ignored) and `f v//vn` /
//! `f v/vt/vn` (the `vn` part is range-checked against the file's `vn`
//! records but never used). Records outside the subset are ignored
//! whole-line (`o`, `g`, `s`, `mtllib`, `usemtl`, standalone `vt`, `#`
//! comments, blank lines). A file without `f` records loads as a scatter
//! (`indices` is `None`). Faces may reference vertices that appear later in
//! the file: references are checked against the whole file's counts.
//!
//! A first pass counts the records; the allocation sizes are checked in
//! `u128` before any vector is built. The second pass parses every record,
//! and the first failing line (in file order) decides the error.
use vstd::prelude::*;
use vstd::slice::slice_subrange;
use vstd::slice::slice_to_vec;
use vstd::string::StringSliceAdditionalSpecFns;

use super::text::{
    after_first_line, decimal, first_line, float_token_check, is_keyword, lemma_after_first_line_shorter,
    lemma_lines_len, lemma_lines_unfold, lines, lossy, lossy_text, parse_integer, parse_number,
    push_decimal, push_str, slice_views, all_digit_bytes, digits_value, is_digit_byte,
    lemma_ascii_valid_utf8, text_of, ws_tokens, ws_tokens_of, integer_in_range,
    LineIter, NumberTokenError,
};
use super::{MeshData, MeshModel, ObjError, ObjErrorModel, Point3, Point3Model, ScalarModel, ScalarValue, points_view};
use vstd::utf8::valid_utf8;
use super::text::is_utf8;

verus! {

// ---------------------------------------------------------------------------
// Specification
// ---------------------------------------------------------------------------

/// The first whitespace token of a line is the given keyword.
pub open spec fn first_token_is(line: Seq<u8>, keyword: &str) -> bool {
    ws_tokens_of(line).len() > 0 && ws_tokens_of(line)[0] == keyword.spec_bytes()
}

/// Record counts of an OBJ body.
pub struct RecordCounts {
    pub vertices: nat,
    pub normals: nat,
    pub faces: nat,
}

/// The `v`, `vn` and `f` records among `lines`.
pub open spec fn counts_of(lines: Seq<Seq<u8>>) -> RecordCounts
    decreases lines.len(),
{
    if lines.len() == 0 {
        RecordCounts { vertices: 0, normals: 0, faces: 0 }
    } else {
        let c = counts_of(lines.drop_last());
        let line = lines.last();
        if first_token_is(line, "v") {
            RecordCounts { vertices: c.vertices + 1, normals: c.normals, faces: c.faces }
        } else if first_token_is(line, "vn") {
            RecordCounts { vertices: c.vertices, normals: c.normals + 1, faces: c.faces }
        } else if first_token_is(line, "f") {
            RecordCounts { vertices: c.vertices, normals: c.normals, faces: c.faces + 1 }
        } else {
            c
        }
    }
}

pub open spec fn limit_records_msg(count: nat, what: Seq<char>) -> Seq<char> {
    decimal(count) + " "@ + what + " records cannot fit in this platform's address space"@
}

/// `2^32`: a meshed file stores 0-based vertex references as `u32`.
pub open spec fn index_space() -> nat {
    0x1_0000_0000
}

/// The allocation guard: vertex, normal and index capacities, or the
/// limit the counts exceed.
#[verifier::opaque]
pub open spec fn allocation_spec(c: RecordCounts) -> Result<(nat, nat, nat), ObjErrorModel> {
    if c.vertices > usize::MAX {
        Err(ObjErrorModel::Limit { reason: limit_records_msg(c.vertices, "vertex"@) })
    } else if c.normals > usize::MAX {
        Err(ObjErrorModel::Limit { reason: limit_records_msg(c.normals, "normal"@) })
    } else if c.faces == 0 {
        Ok((c.vertices, c.normals, 0))
    } else if c.vertices > index_space() {
        Err(
            ObjErrorModel::Limit {
                reason: "a meshed file with "@ + decimal(c.vertices)
                    + " vertices exceeds the u32 index space"@,
            },
        )
    } else if c.normals > index_space() {
        Err(
            ObjErrorModel::Limit {
                reason: "a meshed file with "@ + decimal(c.normals)
                    + " normals exceeds the u32 index space"@,
            },
        )
    } else if c.faces * 3 > u128::MAX {
        Err(
            ObjErrorModel::Limit {
                reason: "the face record count "@ + decimal(c.faces)
                    + " overflows the counting arithmetic"@,
            },
        )
    } else if c.faces * 3 > usize::MAX {
        Err(ObjErrorModel::Limit { reason: limit_records_msg(c.faces * 3, "face corner"@) })
    } else {
        Ok((c.vertices, c.normals, c.faces * 3))
    }
}

/// One numeric value of a `v`/`vn` record.
pub open spec fn value_spec(token: Seq<u8>, line: nat) -> Result<ScalarModel, ObjErrorModel> {
    match float_token_check(token) {
        Ok(_) => Ok(ScalarModel::FloatText(token)),
        Err(NumberTokenError::NotUtf8) => Err(
            ObjErrorModel::Malformed { line, reason: "numeric value is not valid UTF-8"@ },
        ),
        Err(NumberTokenError::Invalid) => Err(
            ObjErrorModel::Malformed {
                line,
                reason: "invalid number \""@ + lossy_text(token) + "\""@,
            },
        ),
    }
}

/// A `v` or `vn` record: exactly three numeric values after the keyword.
pub open spec fn vector_spec(keyword: Seq<char>, t: Seq<Seq<u8>>, line: nat) -> Result<
    Point3Model,
    ObjErrorModel,
> {
    if t.len() != 4 {
        Err(
            ObjErrorModel::Malformed {
                line,
                reason: keyword + " must declare exactly 3 numeric values, found "@ + decimal(
                    (t.len() - 1) as nat,
                ),
            },
        )
    } else {
        match value_spec(t[1], line) {
            Err(e) => Err(e),
            Ok(x) => match value_spec(t[2], line) {
                Err(e) => Err(e),
                Ok(y) => match value_spec(t[3], line) {
                    Err(e) => Err(e),
                    Ok(z) => Ok(Point3Model { x, y, z }),
                },
            },
        }
    }
}

/// One 1-based corner reference; the 0-based index on success.
pub open spec fn reference_spec(
    token: Seq<u8>,
    kind: Seq<char>,
    plural: Seq<char>,
    count: nat,
    line: nat,
) -> Result<u32, ObjErrorModel> {
    if token.len() > 0 && token[0] == 45u8 {
        Err(
            ObjErrorModel::Malformed {
                line,
                reason: "negative "@ + kind + " index "@ + lossy_text(token)
                    + " on a face is not supported (OBJ indices are 1-based)"@,
            },
        )
    } else if !valid_utf8(token) {
        Err(
            ObjErrorModel::Malformed {
                line,
                reason: "the "@ + kind + " index is not valid UTF-8"@,
            },
        )
    } else {
        match integer_in_range(token, false, 0, u64::MAX as int) {
            None => Err(
                ObjErrorModel::Malformed {
                    line,
                    reason: "invalid "@ + kind + " index \""@ + lossy_text(token) + "\""@,
                },
            ),
            Some(v) => if v == 0 {
                Err(
                    ObjErrorModel::Malformed {
                        line,
                        reason: kind + " index 0 is invalid: OBJ indices are 1-based"@,
                    },
                )
            } else if v > count {
                Err(
                    ObjErrorModel::Malformed {
                        line,
                        reason: kind + " index "@ + decimal(v as nat)
                            + " is out of range: the file declares "@ + decimal(count) + " "@
                            + plural,
                    },
                )
            } else {
                Ok((v - 1) as u32)
            },
        }
    }
}

/// Index of the first `/` at or after `i`, or the length.
pub open spec fn slash_at(s: Seq<u8>, i: int) -> int
    decreases s.len() - i,
{
    if i >= s.len() {
        s.len() as int
    } else if s[i] == 47u8 {
        i
    } else {
        slash_at(s, i + 1)
    }
}

pub proof fn lemma_slash_at(s: Seq<u8>, i: int)
    requires
        0 <= i <= s.len(),
    ensures
        i <= slash_at(s, i) <= s.len(),
        slash_at(s, i) < s.len() ==> s[slash_at(s, i)] == 47u8,
    decreases s.len() - i,
{
    if i < s.len() && s[i] != 47u8 {
        lemma_slash_at(s, i + 1);
    }
}

/// The `/`-separated parts of a corner, empty parts included.
pub open spec fn slash_parts(s: Seq<u8>) -> Seq<Seq<u8>>
    decreases s.len(),
{
    if slash_at(s, 0) >= s.len() {
        seq![s]
    } else {
        proof {
            lemma_slash_at(s, 0);
        }
        seq![s.take(slash_at(s, 0))] + slash_parts(s.skip(slash_at(s, 0) + 1))
    }
}

proof fn lemma_slash_parts_nonempty(s: Seq<u8>)
    ensures
        slash_parts(s).len() >= 1,
    decreases s.len(),
{
    lemma_slash_at(s, 0);
}

/// One face corner (`v`, `v/vt`, `v//vn` or `v/vt/vn`): the 0-based vertex
/// index. The `vt` part is ignored; a present `vn` part is range-checked.
pub open spec fn corner_spec(corner: Seq<u8>, c: RecordCounts, line: nat) -> Result<
    u32,
    ObjErrorModel,
> {
    let parts = slash_parts(corner);
    if parts.len() > 3 || parts[0].len() == 0 {
        Err(
            ObjErrorModel::Malformed {
                line,
                reason: "face corner \""@ + lossy_text(corner)
                    + "\" must be v, v/vt, v//vn or v/vt/vn"@,
            },
        )
    } else {
        match reference_spec(parts[0], "vertex"@, "vertices"@, c.vertices, line) {
            Err(e) => Err(e),
            Ok(v) => if parts.len() == 3 && parts[2].len() > 0 {
                match reference_spec(parts[2], "normal"@, "normals"@, c.normals, line) {
                    Err(e) => Err(e),
                    Ok(_) => Ok(v),
                }
            } else {
                Ok(v)
            },
        }
    }
}

/// An `f` record: exactly three corners; their 0-based vertex indices.
pub open spec fn face_spec(t: Seq<Seq<u8>>, c: RecordCounts, line: nat) -> Result<
    Seq<u32>,
    ObjErrorModel,
> {
    if t.len() != 4 {
        Err(
            ObjErrorModel::Malformed {
                line,
                reason: "faces must reference exactly 3 vertices (triangles only), found "@
                    + decimal((t.len() - 1) as nat),
            },
        )
    } else {
        match corner_spec(t[1], c, line) {
            Err(e) => Err(e),
            Ok(a) => match corner_spec(t[2], c, line) {
                Err(e) => Err(e),
                Ok(b) => match corner_spec(t[3], c, line) {
                    Err(e) => Err(e),
                    Ok(d) => Ok(seq![a, b, d]),
                },
            },
        }
    }
}

/// What the records parsed so far contribute.
pub struct ObjState {
    pub positions: Seq<Point3Model>,
    pub normals: Seq<Point3Model>,
    pub indices: Seq<u32>,
}

/// One physical line (1-based number `line`) applied to the state.
#[verifier::opaque]
pub open spec fn obj_step(s: ObjState, line_bytes: Seq<u8>, line: nat, c: RecordCounts) -> Result<
    ObjState,
    ObjErrorModel,
> {
    let t = ws_tokens_of(line_bytes);
    if first_token_is(line_bytes, "v") {
        match vector_spec("v"@, t, line) {
            Ok(p) => Ok(ObjState { positions: s.positions.push(p), ..s }),
            Err(e) => Err(e),
        }
    } else if first_token_is(line_bytes, "vn") {
        match vector_spec("vn"@, t, line) {
            Ok(p) => Ok(ObjState { normals: s.normals.push(p), ..s }),
            Err(e) => Err(e),
        }
    } else if first_token_is(line_bytes, "f") {
        match face_spec(t, c, line) {
            Ok(ix) => Ok(ObjState { indices: s.indices + ix, ..s }),
            Err(e) => Err(e),
        }
    } else {
        Ok(s)
    }
}

pub open spec fn empty_obj_state() -> ObjState {
    ObjState { positions: seq![], normals: seq![], indices: seq![] }
}

/// All lines applied in file order; the first failing line decides.
pub open spec fn obj_fold(lines: Seq<Seq<u8>>, c: RecordCounts) -> Result<ObjState, ObjErrorModel>
    decreases lines.len(),
{
    if lines.len() == 0 {
        Ok(empty_obj_state())
    } else {
        match obj_fold(lines.drop_last(), c) {
            Ok(s) => obj_step(s, lines.last(), lines.len(), c),
            Err(e) => Err(e),
        }
    }
}

/// The OBJ parse of a whole file.
pub open spec fn parse_obj_spec(bytes: Seq<u8>) -> Result<MeshModel, ObjErrorModel> {
    let ls = lines(bytes);
    let c = counts_of(ls);
    match allocation_spec(c) {
        Err(e) => Err(e),
        Ok(_) => match obj_fold(ls, c) {
            Err(e) => Err(e),
            Ok(s) => Ok(
                MeshModel {
                    positions: s.positions,
                    normals: if c.normals > 0 {
                        Some(s.normals)
                    } else {
                        None
                    },
                    indices: if c.faces > 0 {
                        Some(s.indices)
                    } else {
                        None
                    },
                },
            ),
        },
    }
}

pub open spec fn mesh_result_view(r: Result<MeshData, ObjError>) -> Result<MeshModel, ObjErrorModel> {
    match r {
        Ok(d) => Ok(d@),
        Err(e) => Err(e@),
    }
}

// ---------------------------------------------------------------------------
// Lemmas
// ---------------------------------------------------------------------------

proof fn lemma_obj_fold_err(ls: Seq<Seq<u8>>, c: RecordCounts, k: int)
    requires
        0 <= k <= ls.len(),
        obj_fold(ls.take(k), c) is Err,
    ensures
        obj_fold(ls, c) == obj_fold(ls.take(k), c),
    decreases ls.len(),
{
    if k == ls.len() {
        assert(ls.take(k) =~= ls);
    } else {
        assert(ls.drop_last().take(k) =~= ls.take(k));
        lemma_obj_fold_err(ls.drop_last(), c, k);
    }
}

proof fn lemma_allocation_ok(c: RecordCounts)
    requires
        allocation_spec(c) is Ok,
    ensures
        allocation_spec(c) == Ok::<(nat, nat, nat), ObjErrorModel>(
            (c.vertices, c.normals, if c.faces == 0 { 0 } else { c.faces * 3 }),
        ),
        c.faces > 0 ==> c.vertices <= index_space() && c.normals <= index_space() && c.faces * 3
            > 0,
{
    reveal(allocation_spec);
}

proof fn lemma_counts_prefix(ls: Seq<Seq<u8>>, k: int)
    requires
        0 <= k <= ls.len(),
    ensures
        counts_of(ls).faces >= counts_of(ls.take(k)).faces,
        counts_of(ls).vertices >= counts_of(ls.take(k)).vertices,
        counts_of(ls).normals >= counts_of(ls.take(k)).normals,
    decreases ls.len(),
{
    if k == ls.len() {
        assert(ls.take(k) =~= ls);
    } else {
        assert(ls.drop_last().take(k) =~= ls.take(k));
        lemma_counts_prefix(ls.drop_last(), k);
    }
}

proof fn lemma_counts_bound(ls: Seq<Seq<u8>>)
    ensures
        counts_of(ls).vertices <= ls.len(),
        counts_of(ls).normals <= ls.len(),
        counts_of(ls).faces <= ls.len(),
    decreases ls.len(),
{
    if ls.len() > 0 {
        lemma_counts_bound(ls.drop_last());
    }
}

/// A corner resolves to a vertex of the file.
proof fn lemma_corner_bound(corner: Seq<u8>, c: RecordCounts, line: nat)
    requires
        c.vertices <= index_space(),
    ensures
        corner_spec(corner, c, line) matches Ok(v) ==> (v as nat) < c.vertices,
{
}

/// The fold holds one vertex per `v` line, one normal per `vn` line and
/// three indices per `f` line, each index addressing a counted vertex.
proof fn lemma_obj_fold_shape(ls: Seq<Seq<u8>>, c: RecordCounts)
    ensures
        obj_fold(ls, c) matches Ok(s) ==> {
            &&& s.positions.len() == counts_of(ls).vertices
            &&& s.normals.len() == counts_of(ls).normals
            &&& s.indices.len() == 3 * counts_of(ls).faces
            &&& c.vertices <= index_space() ==> forall|i: int|
                0 <= i < s.indices.len() ==> (#[trigger] s.indices[i] as nat) < c.vertices
        },
    decreases ls.len(),
{
    reveal(obj_step);
    if ls.len() > 0 {
        let init = ls.drop_last();
        lemma_obj_fold_shape(init, c);
        let line = ls.last();
        let t = ws_tokens_of(line);
        if let Ok(s0) = obj_fold(init, c) {
            if !first_token_is(line, "v") && !first_token_is(line, "vn") && first_token_is(
                line,
                "f",
            ) {
                if let Ok(ix) = face_spec(t, c, ls.len()) {
                    if c.vertices <= index_space() {
                        lemma_corner_bound(t[1], c, ls.len());
                        lemma_corner_bound(t[2], c, ls.len());
                        lemma_corner_bound(t[3], c, ls.len());
                    }
                    let s1 = ObjState { indices: s0.indices + ix, ..s0 };
                    assert forall|i: int|
                        c.vertices <= index_space() && 0 <= i < s1.indices.len() implies (
                    #[trigger] s1.indices[i] as nat) < c.vertices by {
                        if i >= s0.indices.len() {
                            assert(s1.indices[i] == ix[i - s0.indices.len()]);
                        } else {
                            assert(s1.indices[i] == s0.indices[i]);
                        }
                    }
                }
            }
        }
    }
}

/// The first `/` at or after `i` is at `k`.
proof fn lemma_slash_at_is(s: Seq<u8>, i: int, k: int)
    requires
        0 <= i <= k <= s.len(),
        forall|j: int| i <= j < k ==> s[j] != 47u8,
        k < s.len() ==> s[k] == 47u8,
    ensures
        slash_at(s, i) == k,
    decreases k - i,
{
    if i < k {
        lemma_slash_at_is(s, i + 1, k);
    }
}

/// Bytes without a `/` are one slash part.
proof fn lemma_one_part(s: Seq<u8>)
    requires
        forall|j: int| 0 <= j < s.len() ==> s[j] != 47u8,
    ensures
        slash_parts(s) == seq![s],
{
    lemma_slash_at_is(s, 0, s.len() as int);
}

/// `x/rest` splits into `x` and the parts of `rest`.
proof fn lemma_parts_split(x: Seq<u8>, rest: Seq<u8>)
    requires
        forall|j: int| 0 <= j < x.len() ==> x[j] != 47u8,
    ensures
        slash_parts(x + seq![47u8] + rest) == seq![x] + slash_parts(rest),
{
    let s = x + seq![47u8] + rest;
    lemma_slash_at_is(s, 0, x.len() as int);
    assert(s.take(x.len() as int) =~= x);
    assert(s.skip(x.len() + 1 as int) =~= rest);
}

/// A reference written as decimal digits with a value in `1..=count`
/// resolves to that value minus one.
proof fn lemma_digit_reference(
    token: Seq<u8>,
    kind: Seq<char>,
    plural: Seq<char>,
    count: nat,
    line: nat,
)
    requires
        count <= index_space(),
        token.len() >= 1,
        all_digit_bytes(token),
        1 <= digits_value(token) <= count,
    ensures
        reference_spec(token, kind, plural, count, line) == Ok::<u32, ObjErrorModel>(
            (digits_value(token) - 1) as u32,
        ),
{
    assert(is_digit_byte(token[0]));
    assert forall|i: int| 0 <= i < token.len() implies #[trigger] token[i] < 128u8 by {
        assert(is_digit_byte(token[i]));
    }
    lemma_ascii_valid_utf8(token);
}

/// Every corner style is read: `v`, `v/vt`, `v//vn` and `v/vt/vn`, with
/// `v` the decimal digits of a vertex number in `1..=vertices`, `vt` any
/// text without a `/` (it is ignored), and `vn` empty or the digits of a
/// normal number in `1..=normals`; each gives the 0-based vertex `v - 1`.
pub proof fn law_corner_styles(
    v: Seq<u8>,
    vt: Seq<u8>,
    vn: Seq<u8>,
    c: RecordCounts,
    line: nat,
)
    requires
        c.vertices <= index_space(),
        c.normals <= index_space(),
        v.len() >= 1,
        all_digit_bytes(v),
        1 <= digits_value(v) <= c.vertices,
        forall|j: int| 0 <= j < vt.len() ==> vt[j] != 47u8,
        vn.len() == 0 || (all_digit_bytes(vn) && 1 <= digits_value(vn) <= c.normals),
    ensures
        ({
            let index = Ok::<u32, ObjErrorModel>((digits_value(v) - 1) as u32);
            &&& corner_spec(v, c, line) == index
            &&& corner_spec(v + seq![47u8] + vt, c, line) == index
            &&& corner_spec(v + seq![47u8] + vt + seq![47u8] + vn, c, line) == index
        }),
{
    assert forall|j: int| 0 <= j < v.len() implies v[j] != 47u8 by {
        assert(is_digit_byte(v[j]));
    }
    assert forall|j: int| 0 <= j < vn.len() implies vn[j] != 47u8 by {
        assert(is_digit_byte(vn[j]));
    }
    lemma_digit_reference(v, "vertex"@, "vertices"@, c.vertices, line);
    if vn.len() > 0 {
        lemma_digit_reference(vn, "normal"@, "normals"@, c.normals, line);
    }
    lemma_one_part(v);
    lemma_one_part(vt);
    lemma_one_part(vn);
    lemma_parts_split(v, vt);
    lemma_parts_split(vt, vn);
    lemma_parts_split(v, vt + seq![47u8] + vn);
    assert(v + seq![47u8] + vt + seq![47u8] + vn =~= v + seq![47u8] + (vt + seq![47u8] + vn));
    assert(slash_parts(v + seq![47u8] + vt) =~= seq![v, vt]);
    assert(slash_parts(v + seq![47u8] + vt + seq![47u8] + vn) =~= seq![v, vt, vn]);
}

/// A corner reference is accepted exactly when it does not start with
/// `-`, is valid UTF-8 and reads as an unsigned integer `n` with
/// `1 <= n <= count`; it then gives the 0-based index `n - 1`. Any other
/// reference is rejected as malformed on the reference's line.
pub proof fn law_reference(
    token: Seq<u8>,
    kind: Seq<char>,
    plural: Seq<char>,
    count: nat,
    line: nat,
)
    requires
        count <= index_space(),
    ensures
        reference_spec(token, kind, plural, count, line) is Ok <==> {
            &&& !(token.len() > 0 && token[0] == 45u8)
            &&& valid_utf8(token)
            &&& integer_in_range(token, false, 0, u64::MAX as int) matches Some(n)
            &&& 1 <= n <= count
        },
        reference_spec(token, kind, plural, count, line) matches Ok(v) ==> (integer_in_range(
            token,
            false,
            0,
            u64::MAX as int,
        ) matches Some(n) && v as int == n - 1),
        reference_spec(token, kind, plural, count, line) matches Err(e) ==> (e matches ObjErrorModel::Malformed { line: l, .. } && l == line),
{
}

/// The `v` lines among `ls`, in file order.
pub open spec fn vertex_lines(ls: Seq<Seq<u8>>) -> Seq<Seq<u8>> {
    ls.filter(|l: Seq<u8>| first_token_is(l, "v"))
}

/// The position a well-formed `v` line declares: its three values as text.
pub open spec fn vertex_of(line: Seq<u8>) -> Point3Model {
    let t = ws_tokens_of(line);
    Point3Model {
        x: ScalarModel::FloatText(t[1]),
        y: ScalarModel::FloatText(t[2]),
        z: ScalarModel::FloatText(t[3]),
    }
}

/// The fold keeps one position per `v` line, in order.
proof fn lemma_obj_fold_positions(ls: Seq<Seq<u8>>, c: RecordCounts)
    ensures
        obj_fold(ls, c) matches Ok(s) ==> {
            &&& s.positions.len() == vertex_lines(ls).len()
            &&& forall|i: int|
                0 <= i < s.positions.len() ==> ws_tokens_of(#[trigger] vertex_lines(ls)[i]).len()
                    == 4 && s.positions[i] == vertex_of(vertex_lines(ls)[i])
        },
    decreases ls.len(),
{
    reveal(obj_step);
    reveal(Seq::filter);
    if ls.len() > 0 {
        let init = ls.drop_last();
        lemma_obj_fold_positions(init, c);
        assert(vertex_lines(ls) == if first_token_is(ls.last(), "v") {
            vertex_lines(init).push(ls.last())
        } else {
            vertex_lines(init)
        });
    }
}

/// A loaded mesh's positions are the file's `v` records in file order:
/// position `i` is the `i`-th `v` line, whose three values it keeps as
/// text.
pub proof fn law_positions_are_the_vertex_records(bytes: Seq<u8>)
    ensures
        parse_obj_spec(bytes) matches Ok(m) ==> {
            let vs = vertex_lines(lines(bytes));
            &&& m.positions.len() == vs.len()
            &&& forall|i: int|
                0 <= i < vs.len() ==> ws_tokens_of(#[trigger] vs[i]).len() == 4 && m.positions[i]
                    == vertex_of(vs[i])
        },
{
    lemma_obj_fold_positions(lines(bytes), counts_of(lines(bytes)));
}

/// A loaded mesh holds one vertex per `v` record, one normal per `vn`
/// record (normals present exactly when the file has some) and three
/// indices per `f` record (indices present exactly when the file has
/// faces), and every index addresses one of the mesh's vertices.
pub proof fn law_mesh_shape(bytes: Seq<u8>)
    ensures
        parse_obj_spec(bytes) matches Ok(m) ==> {
            let c = counts_of(lines(bytes));
            &&& m.positions.len() == c.vertices
            &&& m.normals is Some <==> c.normals > 0
            &&& m.normals matches Some(n) ==> n.len() == c.normals
            &&& m.indices is Some <==> c.faces > 0
            &&& m.indices matches Some(ix) ==> ix.len() == 3 * c.faces && forall|i: int|
                0 <= i < ix.len() ==> (#[trigger] ix[i] as nat) < m.positions.len()
        },
{
    let ls = lines(bytes);
    let c = counts_of(ls);
    lemma_obj_fold_shape(ls, c);
    if allocation_spec(c) is Ok {
        lemma_allocation_ok(c);
    }
}

// ---------------------------------------------------------------------------
// Implementation
// ---------------------------------------------------------------------------

/// Derived record counts of an OBJ body (the counting pre-validation input).
#[derive(Debug, Clone, Copy, PartialEq, Eq, Structural)]
pub struct Counts {
    pub vertices: u128,
    pub normals: u128,
    pub faces: u128,
}

impl Default for Counts {
    fn default() -> (c: Self)
        ensures
            c.vertices == 0 && c.normals == 0 && c.faces == 0,
    {
        Counts { vertices: 0, normals: 0, faces: 0 }
    }
}

impl Counts {
    pub open spec fn model(self) -> RecordCounts {
        RecordCounts {
            vertices: self.vertices as nat,
            normals: self.normals as nat,
            faces: self.faces as nat,
        }
    }
}

/// First pass: count the `v`/`vn`/`f` records without parsing values.
/// Lines are classified exactly as in the second pass.
pub fn count_records(bytes: &[u8]) -> (counts: Counts)
    ensures
        counts.model() == counts_of(lines(bytes@)),
{
    let ghost all = lines(bytes@);
    let total = bytes.len();
    let mut counts = Counts::default();
    let mut it = LineIter::new(bytes);
    let mut k: usize = 0;
    proof {
        lemma_lines_len(bytes@);
        assert(all.skip(0) =~= all);
        assert(all.take(0) =~= Seq::<Seq<u8>>::empty());
    }
    loop
        invariant
            all == lines(bytes@),
            all.len() <= total,
            total == bytes@.len(),
            k <= all.len(),
            lines(it@) == all.skip(k as int),
            counts.model() == counts_of(all.take(k as int)),
        ensures
            counts.model() == counts_of(all),
        decreases it@.len(),
    {
        let ghost before = it@;
        match it.next() {
            None => {
                assert(all.take(k as int) =~= all);
                break ;
            },
            Some(line) => {
                proof {
                    lemma_lines_unfold(before);
                    lemma_after_first_line_shorter(before);
                    assert(lines(before).len() > 0);
                    assert(k < all.len());
                    assert(all.skip(k as int)[0] == all[k as int]);
                    assert(all.skip(k as int).drop_first() =~= all.skip(k + 1));
                    assert(all.take(k + 1).drop_last() =~= all.take(k as int));
                    lemma_counts_bound(all.take(k as int));
                }
                let tokens = ws_tokens(line);
                if tokens.len() > 0 && is_keyword(tokens[0], "v") {
                    counts.vertices = counts.vertices + 1;
                } else if tokens.len() > 0 && is_keyword(tokens[0], "vn") {
                    counts.normals = counts.normals + 1;
                } else if tokens.len() > 0 && is_keyword(tokens[0], "f") {
                    counts.faces = counts.faces + 1;
                }
                k = k + 1;
            },
        }
    }
    counts
}

fn limit(reason: String) -> (e: ObjError)
    ensures
        e@ == (ObjErrorModel::Limit { reason: reason@ }),
{
    ObjError::Limit { reason }
}

fn limit_records(count: u128, what: &str) -> (e: ObjError)
    ensures
        e@ == (ObjErrorModel::Limit { reason: limit_records_msg(count as nat, what@) }),
{
    let mut s = String::new();
    push_decimal(&mut s, count);
    push_str(&mut s, " ");
    push_str(&mut s, what);
    push_str(&mut s, " records cannot fit in this platform's address space");
    assert(s@ =~= limit_records_msg(count as nat, what@));
    limit(s)
}

/// Allocation sizes for the record counts, checked in `u128` before any
/// vector exists. Faces address vertices through `u32` indices, so a
/// meshed file is additionally capped at `2^32` vertices and normals.
pub fn allocation_sizes(counts: Counts) -> (res: Result<(usize, usize, usize), ObjError>)
    ensures
        match allocation_spec(counts.model()) {
            Ok((v, n, i)) => res matches Ok((a, b, d)) && a == v && b == n && d == i,
            Err(e) => res matches Err(x) && x@ == e,
        },
{
    reveal(allocation_spec);
    if counts.vertices > usize::MAX as u128 {
        return Err(limit_records(counts.vertices, "vertex"));
    }
    let vertices = counts.vertices as usize;
    if counts.normals > usize::MAX as u128 {
        return Err(limit_records(counts.normals, "normal"));
    }
    let normals = counts.normals as usize;
    let index_capacity: usize;
    if counts.faces == 0 {
        index_capacity = 0;
    } else {
        let index_space: u128 = 0x1_0000_0000;
        if counts.vertices > index_space {
            let mut s = text_of("a meshed file with ");
            push_decimal(&mut s, counts.vertices);
            push_str(&mut s, " vertices exceeds the u32 index space");
            return Err(limit(s));
        }
        if counts.normals > index_space {
            let mut s = text_of("a meshed file with ");
            push_decimal(&mut s, counts.normals);
            push_str(&mut s, " normals exceeds the u32 index space");
            return Err(limit(s));
        }
        if counts.faces > u128::MAX / 3 {
            let mut s = text_of("the face record count ");
            push_decimal(&mut s, counts.faces);
            push_str(&mut s, " overflows the counting arithmetic");
            return Err(limit(s));
        }
        let corners = counts.faces * 3;
        if corners > usize::MAX as u128 {
            return Err(limit_records(corners, "face corner"));
        }
        index_capacity = corners as usize;
    }
    Ok((vertices, normals, index_capacity))
}

/// A line-anchored rejection.
pub fn malformed(line: usize, reason: String) -> (e: ObjError)
    ensures
        e@ == (ObjErrorModel::Malformed { line: line as nat, reason: reason@ }),
{
    ObjError::Malformed { line, reason }
}

/// One numeric value of a `v`/`vn` record.
fn parse_value(token: &[u8], line: usize) -> (res: Result<ScalarValue, ObjError>)
    ensures
        match value_spec(token@, line as nat) {
            Ok(m) => res matches Ok(v) && v@ == m,
            Err(e) => res matches Err(x) && x@ == e,
        },
{
    match parse_number(token) {
        Ok(()) => Ok(ScalarValue::FloatText(slice_to_vec(token))),
        Err(NumberTokenError::NotUtf8) => Err(
            malformed(line, text_of("numeric value is not valid UTF-8")),
        ),
        Err(NumberTokenError::Invalid) => {
            let mut s = text_of("invalid number \"");
            let shown = lossy(token);
            push_str(&mut s, shown.as_str());
            push_str(&mut s, "\"");
            assert(s@ =~= "invalid number \""@ + lossy_text(token@) + "\""@);
            Err(malformed(line, s))
        },
    }
}

/// One `v` or `vn` record: exactly three numeric values after the keyword.
fn parse_vector_record(keyword: &str, tokens: &Vec<&[u8]>, line: usize) -> (res: Result<
    Point3,
    ObjError,
>)
    requires
        tokens@.len() >= 1,
    ensures
        match vector_spec(keyword@, slice_views(tokens@), line as nat) {
            Ok(m) => res matches Ok(p) && p@ == m,
            Err(e) => res matches Err(x) && x@ == e,
        },
{
    let ghost t = slice_views(tokens@);
    if tokens.len() != 4 {
        let mut s = text_of(keyword);
        push_str(&mut s, " must declare exactly 3 numeric values, found ");
        push_decimal(&mut s, (tokens.len() - 1) as u128);
        assert(s@ =~= keyword@ + " must declare exactly 3 numeric values, found "@ + decimal(
            (t.len() - 1) as nat,
        ));
        return Err(malformed(line, s));
    }
    assert(t[1] == tokens@[1]@ && t[2] == tokens@[2]@ && t[3] == tokens@[3]@);
    let x = match parse_value(tokens[1], line) {
        Ok(v) => v,
        Err(e) => return Err(e),
    };
    let y = match parse_value(tokens[2], line) {
        Ok(v) => v,
        Err(e) => return Err(e),
    };
    let z = match parse_value(tokens[3], line) {
        Ok(v) => v,
        Err(e) => return Err(e),
    };
    Ok(Point3 { x, y, z })
}

/// Split a corner on `/`, keeping empty parts.
fn split_slashes<'a>(corner: &'a [u8]) -> (parts: Vec<&'a [u8]>)
    ensures
        slice_views(parts@) == slash_parts(corner@),
{
    let n = corner.len();
    let mut parts: Vec<&'a [u8]> = Vec::new();
    let mut start: usize = 0;
    assert(corner@.skip(0) =~= corner@);
    loop
        invariant_except_break
            start <= n,
            slash_parts(corner@) == slice_views(parts@) + slash_parts(corner@.skip(start as int)),
        invariant
            n == corner@.len(),
        ensures
            slash_parts(corner@) == slice_views(parts@),
        decreases n - start,
    {
        let ghost rest = corner@.skip(start as int);
        let mut i = start;
        while i < n && corner[i] != 47u8
            invariant
                start <= i <= n,
                n == corner@.len(),
                rest == corner@.skip(start as int),
                slash_at(rest, 0) == slash_at(rest, i - start),
            decreases n - i,
        {
            assert(rest[i - start] == corner@[i as int]);
            i = i + 1;
        }
        assert(slash_at(rest, i - start) == i - start);
        let part: &'a [u8] = slice_subrange(corner, start, i);
        let ghost before = parts@;
        parts.push(part);
        assert(part@ =~= rest.take(i - start));
        assert(slice_views(parts@) =~= slice_views(before).push(part@));
        if i == n {
            assert(part@ =~= rest);
            assert(slice_views(parts@) =~= slice_views(before) + slash_parts(rest));
            break ;
        }
        assert(rest.skip(i - start + 1) =~= corner@.skip(i + 1));
        assert(slice_views(parts@) + slash_parts(corner@.skip(i + 1)) =~= slice_views(before)
            + slash_parts(rest));
        start = i + 1;
    }
    parts
}

/// One 1-based corner reference. Negative values are rejected explicitly
/// with the index text; zero is invalid under the 1-based convention;
/// values beyond the record count are out of range.
fn parse_reference(token: &[u8], kind: &str, plural: &str, count: u128, line: usize) -> (res: Result<
    u32,
    ObjError,
>)
    requires
        count <= index_space(),
    ensures
        match reference_spec(token@, kind@, plural@, count as nat, line as nat) {
            Ok(m) => res matches Ok(v) && v == m,
            Err(e) => res matches Err(x) && x@ == e,
        },
{
    if token.len() > 0 && token[0] == 45u8 {
        let mut s = text_of("negative ");
        push_str(&mut s, kind);
        push_str(&mut s, " index ");
        let shown = lossy(token);
        push_str(&mut s, shown.as_str());
        push_str(&mut s, " on a face is not supported (OBJ indices are 1-based)");
        assert(s@ =~= "negative "@ + kind@ + " index "@ + lossy_text(token@)
            + " on a face is not supported (OBJ indices are 1-based)"@);
        return Err(malformed(line, s));
    }
    if !is_utf8(token) {
        let mut s = text_of("the ");
        push_str(&mut s, kind);
        push_str(&mut s, " index is not valid UTF-8");
        assert(s@ =~= "the "@ + kind@ + " index is not valid UTF-8"@);
        return Err(malformed(line, s));
    }
    let value = match parse_integer(token, false, 0, u64::MAX as i128) {
        Some(v) => v,
        None => {
            let mut s = text_of("invalid ");
            push_str(&mut s, kind);
            push_str(&mut s, " index \"");
            let shown = lossy(token);
            push_str(&mut s, shown.as_str());
            push_str(&mut s, "\"");
            assert(s@ =~= "invalid "@ + kind@ + " index \""@ + lossy_text(token@) + "\""@);
            return Err(malformed(line, s));
        },
    };
    if value == 0 {
        let mut s = text_of(kind);
        push_str(&mut s, " index 0 is invalid: OBJ indices are 1-based");
        assert(s@ =~= kind@ + " index 0 is invalid: OBJ indices are 1-based"@);
        return Err(malformed(line, s));
    }
    let index = value as u128;
    if index > count {
        let mut s = text_of(kind);
        push_str(&mut s, " index ");
        push_decimal(&mut s, index);
        push_str(&mut s, " is out of range: the file declares ");
        push_decimal(&mut s, count);
        push_str(&mut s, " ");
        push_str(&mut s, plural);
        assert(s@ =~= kind@ + " index "@ + decimal(value as nat)
            + " is out of range: the file declares "@ + decimal(count as nat) + " "@ + plural@);
        return Err(malformed(line, s));
    }
    Ok((value - 1) as u32)
}

/// One face corner: `v`, `v/vt`, `v//vn` or `v/vt/vn`; the 0-based vertex
/// index.
fn parse_corner(corner: &[u8], line: usize, vertex_count: u128, normal_count: u128) -> (res: Result<
    u32,
    ObjError,
>)
    requires
        vertex_count <= index_space(),
        normal_count <= index_space(),
    ensures
        match corner_spec(
            corner@,
            RecordCounts {
                vertices: vertex_count as nat,
                normals: normal_count as nat,
                faces: 0,
            },
            line as nat,
        ) {
            Ok(m) => res matches Ok(v) && v == m,
            Err(e) => res matches Err(x) && x@ == e,
        },
{
    let parts = split_slashes(corner);
    proof {
        lemma_slash_parts_nonempty(corner@);
    }
    let ghost p = slice_views(parts@);
    assert(p[0] == parts@[0]@);
    if parts.len() > 3 || parts[0].len() == 0 {
        let mut s = text_of("face corner \"");
        let shown = lossy(corner);
        push_str(&mut s, shown.as_str());
        push_str(&mut s, "\" must be v, v/vt, v//vn or v/vt/vn");
        assert(s@ =~= "face corner \""@ + lossy_text(corner@)
            + "\" must be v, v/vt, v//vn or v/vt/vn"@);
        return Err(malformed(line, s));
    }
    let vertex = match parse_reference(parts[0], "vertex", "vertices", vertex_count, line) {
        Ok(v) => v,
        Err(e) => return Err(e),
    };
    if parts.len() == 3 && parts[2].len() > 0 {
        assert(p[2] == parts@[2]@);
        match parse_reference(parts[2], "normal", "normals", normal_count, line) {
            Ok(_) => {},
            Err(e) => return Err(e),
        }
    }
    Ok(vertex)
}

/// Corner checks depend only on the vertex and normal counts.
proof fn lemma_corner_spec_faces(corner: Seq<u8>, c: RecordCounts, line: nat)
    ensures
        corner_spec(corner, c, line) == corner_spec(
            corner,
            RecordCounts { vertices: c.vertices, normals: c.normals, faces: 0 },
            line,
        ),
{
}

/// One `f` record: exactly three corners, appended to `indices`.
fn parse_face(
    tokens: &Vec<&[u8]>,
    line: usize,
    vertex_count: u128,
    normal_count: u128,
    indices: &mut Vec<u32>,
) -> (res: Result<(), ObjError>)
    requires
        tokens@.len() >= 1,
        vertex_count <= index_space(),
        normal_count <= index_space(),
    ensures
        match face_spec(
            slice_views(tokens@),
            RecordCounts {
                vertices: vertex_count as nat,
                normals: normal_count as nat,
                faces: 0,
            },
            line as nat,
        ) {
            Ok(ix) => res is Ok && final(indices)@ == old(indices)@ + ix,
            Err(e) => res matches Err(x) && x@ == e,
        },
{
    let ghost t = slice_views(tokens@);
    if tokens.len() != 4 {
        let mut s = text_of("faces must reference exactly 3 vertices (triangles only), found ");
        push_decimal(&mut s, (tokens.len() - 1) as u128);
        assert(s@ =~= "faces must reference exactly 3 vertices (triangles only), found "@
            + decimal((t.len() - 1) as nat));
        return Err(malformed(line, s));
    }
    assert(t[1] == tokens@[1]@ && t[2] == tokens@[2]@ && t[3] == tokens@[3]@);
    let a = match parse_corner(tokens[1], line, vertex_count, normal_count) {
        Ok(v) => v,
        Err(e) => return Err(e),
    };
    indices.push(a);
    let b = match parse_corner(tokens[2], line, vertex_count, normal_count) {
        Ok(v) => v,
        Err(e) => return Err(e),
    };
    indices.push(b);
    let d = match parse_corner(tokens[3], line, vertex_count, normal_count) {
        Ok(v) => v,
        Err(e) => return Err(e),
    };
    indices.push(d);
    assert(indices@ =~= old(indices)@ + seq![a, b, d]);
    Ok(())
}

pub open spec fn obj_state_of(positions: Seq<Point3>, normals: Seq<Point3>, indices: Seq<u32>) -> ObjState {
    ObjState { positions: points_view(positions), normals: points_view(normals), indices }
}

/// Apply one physical line to the vectors parsed so far.
fn parse_record(
    line: &[u8],
    line_number: usize,
    counts: Counts,
    positions: &mut Vec<Point3>,
    normals: &mut Vec<Point3>,
    indices: &mut Vec<u32>,
) -> (res: Result<(), ObjError>)
    requires
        !first_token_is(line@, "v") && !first_token_is(line@, "vn") && first_token_is(line@, "f")
            ==> counts.vertices <= index_space() && counts.normals <= index_space(),
    ensures
        match obj_step(
            obj_state_of(old(positions)@, old(normals)@, old(indices)@),
            line@,
            line_number as nat,
            counts.model(),
        ) {
            Ok(st) => res is Ok && obj_state_of(final(positions)@, final(normals)@, final(indices)@)
                == st,
            Err(e) => res matches Err(x) && x@ == e,
        },
{
    let ghost prev = obj_state_of(positions@, normals@, indices@);
    let ghost c = counts.model();
    reveal(obj_step);
    let tokens = ws_tokens(line);
    let ghost t = slice_views(tokens@);
    if tokens.len() > 0 && is_keyword(tokens[0], "v") {
        match parse_vector_record("v", &tokens, line_number) {
            Ok(p) => {
                positions.push(p);
                assert(points_view(positions@) =~= prev.positions.push(p@));
                Ok(())
            },
            Err(e) => Err(e),
        }
    } else if tokens.len() > 0 && is_keyword(tokens[0], "vn") {
        match parse_vector_record("vn", &tokens, line_number) {
            Ok(p) => {
                normals.push(p);
                assert(points_view(normals@) =~= prev.normals.push(p@));
                Ok(())
            },
            Err(e) => Err(e),
        }
    } else if tokens.len() > 0 && is_keyword(tokens[0], "f") {
        proof {
            if t.len() == 4 {
                lemma_corner_spec_faces(t[1], c, line_number as nat);
                lemma_corner_spec_faces(t[2], c, line_number as nat);
                lemma_corner_spec_faces(t[3], c, line_number as nat);
            }
            assert(face_spec(t, c, line_number as nat) == face_spec(
                t,
                RecordCounts { vertices: c.vertices, normals: c.normals, faces: 0 },
                line_number as nat,
            ));
        }
        parse_face(&tokens, line_number, counts.vertices, counts.normals, indices)
    } else {
        Ok(())
    }
}

/// Parse a whole OBJ file: count, check the allocation sizes, then parse
/// and validate every record in file order.
pub fn parse_obj(bytes: &[u8]) -> (res: Result<MeshData, ObjError>)
    ensures
        mesh_result_view(res) == parse_obj_spec(bytes@),
{
    let ghost all = lines(bytes@);
    let total = bytes.len();
    let counts = count_records(bytes);
    let ghost c = counts.model();
    let (vertex_capacity, normal_capacity, index_capacity) = match allocation_sizes(counts) {
        Ok(sizes) => sizes,
        Err(e) => return Err(e),
    };
    proof {
        lemma_allocation_ok(c);
    }
    let mut positions: Vec<Point3> = Vec::with_capacity(vertex_capacity);
    let mut normals: Vec<Point3> = Vec::with_capacity(normal_capacity);
    let mut indices: Vec<u32> = Vec::with_capacity(index_capacity);
    let mut it = LineIter::new(bytes);
    let mut offset: usize = 0;
    proof {
        lemma_lines_len(bytes@);
        assert(all.skip(0) =~= all);
        assert(all.take(0) =~= Seq::<Seq<u8>>::empty());
        assert(points_view(positions@) =~= Seq::<Point3Model>::empty());
        assert(points_view(normals@) =~= Seq::<Point3Model>::empty());
        assert(indices@ =~= Seq::<u32>::empty());
        assert(obj_state_of(positions@, normals@, indices@) == empty_obj_state());
    }
    loop
        invariant
            all == lines(bytes@),
            all.len() <= total,
            total == bytes@.len(),
            offset <= all.len(),
            lines(it@) == all.skip(offset as int),
            c == counts_of(all),
            counts.model() == c,
            allocation_spec(c) is Ok,
            obj_fold(all.take(offset as int), c) == Ok::<ObjState, ObjErrorModel>(
                obj_state_of(positions@, normals@, indices@),
            ),
        ensures
            obj_fold(all, c) == Ok::<ObjState, ObjErrorModel>(
                obj_state_of(positions@, normals@, indices@),
            ),
        decreases it@.len(),
    {
        let ghost before = it@;
        match it.next() {
            None => {
                assert(all.take(offset as int) =~= all);
                break ;
            },
            Some(line) => {
                proof {
                    lemma_lines_unfold(before);
                    lemma_after_first_line_shorter(before);
                    assert(lines(before).len() > 0);
                    assert(offset < all.len());
                    assert(all.skip(offset as int)[0] == all[offset as int]);
                    assert(all.skip(offset as int).drop_first() =~= all.skip(offset + 1));
                    assert(all.take(offset + 1).drop_last() =~= all.take(offset as int));
                    assert(all.take(offset + 1).last() == all[offset as int]);
                    if !first_token_is(line@, "v") && !first_token_is(line@, "vn")
                        && first_token_is(line@, "f") {
                        lemma_counts_prefix(all, offset + 1);
                        lemma_allocation_ok(c);
                    }
                }
                let line_number = offset + 1;
                match parse_record(
                    line,
                    line_number,
                    counts,
                    &mut positions,
                    &mut normals,
                    &mut indices,
                ) {
                    Ok(()) => {},
                    Err(e) => {
                        proof {
                            lemma_obj_fold_err(all, c, offset + 1);
                        }
                        return Err(e);
                    },
                }
                offset = offset + 1;
            },
        }
    }
    let normals_out = if normal_capacity > 0 {
        Some(normals)
    } else {
        None
    };
    let indices_out = if index_capacity > 0 {
        Some(indices)
    } else {
        None
    };
    Ok(MeshData { positions, normals: normals_out, indices: indices_out })
}

} // verus!
