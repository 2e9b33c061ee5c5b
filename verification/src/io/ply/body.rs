//! The PLY body: the vertex records after the skipped records of earlier
//! elements, decoded field by field into positions and colors.
use vstd::prelude::*;
use vstd::slice::{slice_subrange, slice_to_vec};
use vstd::utf8::valid_utf8;

use super::super::text::{
    decimal, law_decimal_text_reads_back, signed_decimal_bytes, float_text, float_text_check, integer_in_range, is_utf8, lemma_lines_len,
    lemma_lines_next, lines, parse_integer, push_decimal, push_str, slice_views, text_of, ws_tokens,
    ws_tokens_of, LineIter,
};
use super::super::{
    colors_view, points_view, ColorSample, ColorSampleModel, Point3, Point3Model,
    PointCloudError, PointCloudErrorModel, ScalarModel, ScalarValue,
};
use super::plan::{plan_wf, sum_sizes, sum_tokens};
use super::{malformed, malformed_str, Field, FieldRole, PlanModel, ScalarType, VertexPlan};

verus! {

// ---------------------------------------------------------------------------
// Specification
// ---------------------------------------------------------------------------

/// The values assembled for one vertex record.
pub struct AccModel {
    pub x: ScalarModel,
    pub y: ScalarModel,
    pub z: ScalarModel,
    pub r: ScalarModel,
    pub g: ScalarModel,
    pub b: ScalarModel,
}

/// Before any field: every value zero.
pub open spec fn initial_acc() -> AccModel {
    AccModel {
        x: ScalarModel::Integer(0),
        y: ScalarModel::Integer(0),
        z: ScalarModel::Integer(0),
        r: ScalarModel::Integer(0),
        g: ScalarModel::Integer(0),
        b: ScalarModel::Integer(0),
    }
}

/// `v` stored under the field's role (a skipped field changes nothing).
pub open spec fn with_value(acc: AccModel, role: FieldRole, v: ScalarModel) -> AccModel {
    match role {
        FieldRole::X => AccModel { x: v, ..acc },
        FieldRole::Y => AccModel { y: v, ..acc },
        FieldRole::Z => AccModel { z: v, ..acc },
        FieldRole::ChannelR => AccModel { r: v, ..acc },
        FieldRole::ChannelG => AccModel { g: v, ..acc },
        FieldRole::ChannelB => AccModel { b: v, ..acc },
        _ => acc,
    }
}

pub open spec fn point_of(a: AccModel) -> Point3Model {
    Point3Model { x: a.x, y: a.y, z: a.z }
}

pub open spec fn color_of(a: AccModel) -> ColorSampleModel {
    ColorSampleModel { r: a.r, g: a.g, b: a.b }
}

/// The decoded body: positions, and colors when the plan has them.
pub struct BodyModel {
    pub positions: Seq<Point3Model>,
    pub colors: Option<Seq<ColorSampleModel>>,
}

pub open spec fn body_of(accs: Seq<AccModel>, has_color: bool) -> BodyModel {
    BodyModel {
        positions: accs.map_values(|a: AccModel| point_of(a)),
        colors: if has_color {
            Some(accs.map_values(|a: AccModel| color_of(a)))
        } else {
            None
        },
    }
}

/// The unsigned little-endian value of some bytes.
pub open spec fn le_value(b: Seq<u8>) -> nat
    decreases b.len(),
{
    if b.len() == 0 {
        0
    } else {
        b[0] as nat + 256 * le_value(b.drop_first())
    }
}

/// Two's complement reading of an unsigned value of `2^bits` range.
pub open spec fn signed_of(v: nat, half: nat) -> int {
    if v >= half {
        v - 2 * half
    } else {
        v as int
    }
}

/// One little-endian binary value of the given type.
pub open spec fn binary_scalar(chunk: Seq<u8>, ty: ScalarType) -> ScalarModel {
    let v = le_value(chunk);
    match ty {
        ScalarType::Char => ScalarModel::Integer(signed_of(v, 0x80)),
        ScalarType::UChar => ScalarModel::Integer(v as int),
        ScalarType::Short => ScalarModel::Integer(signed_of(v, 0x8000)),
        ScalarType::UShort => ScalarModel::Integer(v as int),
        ScalarType::Int => ScalarModel::Integer(signed_of(v, 0x8000_0000)),
        ScalarType::UInt => ScalarModel::Integer(v as int),
        ScalarType::Float => ScalarModel::FloatBits(v as u32),
        ScalarType::Double => ScalarModel::DoubleBits(v as u64),
    }
}

/// One field of a binary record applied to the values so far.
pub open spec fn binary_apply(acc: AccModel, f: Field, chunk: Seq<u8>) -> AccModel {
    if f.role == FieldRole::DialectRgb {
        AccModel {
            r: ScalarModel::Integer(chunk[0] as int),
            g: ScalarModel::Integer(chunk[1] as int),
            b: ScalarModel::Integer(chunk[2] as int),
            ..acc
        }
    } else {
        with_value(acc, f.role, binary_scalar(chunk, f.ty))
    }
}

/// A binary record decoded field by field, each field at its offset.
pub open spec fn binary_record(fs: Seq<Field>, rec: Seq<u8>) -> AccModel
    decreases fs.len(),
{
    if fs.len() == 0 {
        initial_acc()
    } else {
        binary_apply(
            binary_record(fs.drop_last(), rec),
            fs.last(),
            rec.subrange(sum_sizes(fs.drop_last()) as int, sum_sizes(fs) as int),
        )
    }
}

/// The `i`-th vertex record of a binary body.
pub open spec fn binary_vertex(data: Seq<u8>, p: PlanModel, i: int) -> AccModel {
    binary_record(
        p.fields,
        data.subrange(p.skip_bytes + i * p.stride, p.skip_bytes + (i + 1) * p.stride),
    )
}

/// The vertices of a binary body, or why the body is rejected.
pub open spec fn binary_spec(data: Seq<u8>, p: PlanModel) -> Result<BodyModel, Seq<char>> {
    let required = p.skip_bytes + p.count * p.stride;
    if required > data.len() {
        Err(
            "PLY binary data: header declares "@ + decimal(p.count as nat) + " vertices at a "@
                + decimal(p.stride) + "-byte stride ("@ + decimal(required as nat)
                + " bytes required), but only "@ + decimal(data.len())
                + " bytes of body data remain"@,
        )
    } else {
        Ok(body_of(Seq::new(p.count as nat, |i: int| binary_vertex(data, p, i)), p.has_color))
    }
}

pub open spec fn expected_msg(ty: ScalarType) -> Seq<char> {
    "PLY ASCII data: expected a \""@ + ty.spec_keyword() + "\" number"@
}

/// One ASCII token read as the declared type: integers with exact range
/// checking, floats by their grammar (non-finite spellings included).
pub open spec fn ascii_scalar(token: Seq<u8>, ty: ScalarType) -> Result<ScalarModel, Seq<char>> {
    if !valid_utf8(token) {
        Err("PLY ASCII data: numeric token is not valid UTF-8"@)
    } else {
        let range = match ty {
            ScalarType::Char => integer_in_range(token, true, -0x80, 0x7f),
            ScalarType::UChar => integer_in_range(token, false, 0, 0xff),
            ScalarType::Short => integer_in_range(token, true, -0x8000, 0x7fff),
            ScalarType::UShort => integer_in_range(token, false, 0, 0xffff),
            ScalarType::Int => integer_in_range(token, true, -0x8000_0000, 0x7fff_ffff),
            ScalarType::UInt => integer_in_range(token, false, 0, 0xffff_ffff),
            _ => None,
        };
        match ty {
            ScalarType::Float => if float_text(token) {
                Ok(ScalarModel::FloatText(token))
            } else {
                Err(expected_msg(ty))
            },
            ScalarType::Double => if float_text(token) {
                Ok(ScalarModel::DoubleText(token))
            } else {
                Err(expected_msg(ty))
            },
            _ => match range {
                Some(v) => Ok(ScalarModel::Integer(v)),
                None => Err(expected_msg(ty)),
            },
        }
    }
}

/// One field of an ASCII record, reading tokens from index `ti` on.
pub open spec fn ascii_apply(acc: AccModel, f: Field, t: Seq<Seq<u8>>, ti: int) -> Result<
    AccModel,
    Seq<char>,
> {
    if f.role == FieldRole::DialectRgb {
        match ascii_scalar(t[ti], ScalarType::UChar) {
            Err(e) => Err(e),
            Ok(r) => match ascii_scalar(t[ti + 1], ScalarType::UChar) {
                Err(e) => Err(e),
                Ok(g) => match ascii_scalar(t[ti + 2], ScalarType::UChar) {
                    Err(e) => Err(e),
                    Ok(b) => Ok(AccModel { r, g, b, ..acc }),
                },
            },
        }
    } else {
        match ascii_scalar(t[ti], f.ty) {
            Err(e) => Err(e),
            Ok(v) => Ok(with_value(acc, f.role, v)),
        }
    }
}

/// An ASCII record (its tokens) decoded field by field.
pub open spec fn ascii_record(fs: Seq<Field>, t: Seq<Seq<u8>>) -> Result<AccModel, Seq<char>>
    decreases fs.len(),
{
    if fs.len() == 0 {
        Ok(initial_acc())
    } else {
        match ascii_record(fs.drop_last(), t) {
            Err(e) => Err(e),
            Ok(acc) => ascii_apply(acc, fs.last(), t, sum_tokens(fs.drop_last()) as int),
        }
    }
}

/// The vertex record on line `line` (the `i`-th record).
pub open spec fn ascii_vertex(line: Seq<u8>, p: PlanModel, i: nat) -> Result<AccModel, Seq<char>> {
    let t = ws_tokens_of(line);
    if t.len() != p.tokens_per_vertex {
        Err(
            "PLY ASCII data: vertex record "@ + decimal(i) + " has "@ + decimal(t.len())
                + " tokens; expected "@ + decimal(p.tokens_per_vertex)
                + " (one per declared property)"@,
        )
    } else {
        ascii_record(p.fields, t)
    }
}

/// The first `k` vertex records, given the lines from the first vertex
/// record on.
pub open spec fn ascii_records(ls: Seq<Seq<u8>>, p: PlanModel, k: nat) -> Result<
    Seq<AccModel>,
    Seq<char>,
>
    decreases k,
{
    if k == 0 {
        Ok(seq![])
    } else {
        match ascii_records(ls, p, (k - 1) as nat) {
            Err(e) => Err(e),
            Ok(accs) => {
                let i = (k - 1) as nat;
                if i >= ls.len() {
                    Err(
                        "PLY ASCII data: file ends after "@ + decimal(i) + " of "@ + decimal(
                            p.count as nat,
                        ) + " declared vertex records"@,
                    )
                } else {
                    match ascii_vertex(ls[i as int], p, i) {
                        Err(e) => Err(e),
                        Ok(a) => Ok(accs.push(a)),
                    }
                }
            },
        }
    }
}

/// The vertices of an ASCII body, or why the body is rejected. Each record
/// occupies at least one body byte, which bounds the declared counts.
pub open spec fn ascii_spec(data: Seq<u8>, p: PlanModel) -> Result<BodyModel, Seq<char>> {
    let ls = lines(data);
    if p.skip_records + p.count > data.len() {
        Err(
            "PLY ASCII data: header declares "@ + decimal(p.count as nat)
                + " vertex records, but the body is too short"@,
        )
    } else if ls.len() < p.skip_records {
        Err("PLY ASCII data: file ends before the vertex records"@)
    } else {
        match ascii_records(ls.skip(p.skip_records as int), p, p.count as nat) {
            Err(e) => Err(e),
            Ok(accs) => Ok(body_of(accs, p.has_color)),
        }
    }
}

// ---------------------------------------------------------------------------
// Lemmas
// ---------------------------------------------------------------------------

proof fn lemma_sum_sizes_step(fs: Seq<Field>, j: int)
    requires
        0 <= j < fs.len(),
    ensures
        sum_sizes(fs.take(j + 1)) == sum_sizes(fs.take(j)) + fs[j].size,
        sum_tokens(fs.take(j + 1)) == sum_tokens(fs.take(j)) + fs[j].tokens,
        fs.take(j + 1).drop_last() == fs.take(j),
        fs.take(j + 1).last() == fs[j],
{
    assert(fs.take(j + 1).drop_last() =~= fs.take(j));
}

proof fn lemma_sum_sizes_prefix(fs: Seq<Field>, j: int)
    requires
        0 <= j <= fs.len(),
    ensures
        sum_sizes(fs.take(j)) <= sum_sizes(fs),
        sum_tokens(fs.take(j)) <= sum_tokens(fs),
    decreases fs.len(),
{
    if j == fs.len() {
        assert(fs.take(j) =~= fs);
    } else {
        assert(fs.drop_last().take(j) =~= fs.take(j));
        lemma_sum_sizes_prefix(fs.drop_last(), j);
    }
}

proof fn lemma_ascii_record_err(fs: Seq<Field>, t: Seq<Seq<u8>>, k: int)
    requires
        0 <= k <= fs.len(),
        ascii_record(fs.take(k), t) is Err,
    ensures
        ascii_record(fs, t) == ascii_record(fs.take(k), t),
    decreases fs.len(),
{
    if k == fs.len() {
        assert(fs.take(k) =~= fs);
    } else {
        assert(fs.drop_last().take(k) =~= fs.take(k));
        lemma_ascii_record_err(fs.drop_last(), t, k);
    }
}

proof fn lemma_ascii_records_err(ls: Seq<Seq<u8>>, p: PlanModel, k: nat, n: nat)
    requires
        k <= n,
        ascii_records(ls, p, k) is Err,
    ensures
        ascii_records(ls, p, n) == ascii_records(ls, p, k),
    decreases n,
{
    if k < n {
        lemma_ascii_records_err(ls, p, k, (n - 1) as nat);
    }
}

/// The records read so far are exactly as many as asked for.
pub proof fn lemma_ascii_records_len(ls: Seq<Seq<u8>>, p: PlanModel, k: nat)
    ensures
        ascii_records(ls, p, k) matches Ok(accs) ==> accs.len() == k,
    decreases k,
{
    if k > 0 {
        lemma_ascii_records_len(ls, p, (k - 1) as nat);
    }
}

// ---------------------------------------------------------------------------
// Laws
// ---------------------------------------------------------------------------

/// The records read so far, each against its own line.
proof fn lemma_ascii_records_each(ls: Seq<Seq<u8>>, p: PlanModel, k: nat)
    ensures
        ascii_records(ls, p, k) is Ok <==> (ls.len() >= k && forall|i: int|
            0 <= i < k ==> #[trigger] ascii_vertex(ls[i], p, i as nat) is Ok),
        ascii_records(ls, p, k) matches Ok(accs) ==> accs.len() == k && forall|i: int|
            0 <= i < k ==> (ascii_vertex(ls[i], p, i as nat) matches Ok(a) && #[trigger] accs[i]
                == a),
    decreases k,
{
    if k > 0 {
        let j = (k - 1) as nat;
        lemma_ascii_records_each(ls, p, j);
        if ascii_records(ls, p, j) is Ok && ls.len() >= k {
            if ascii_vertex(ls[j as int], p, j) is Ok {
                assert forall|i: int| 0 <= i < k implies #[trigger] ascii_vertex(ls[i], p, i as nat) is Ok by {
                    if i < j {
                        assert(ascii_vertex(ls[i], p, i as nat) is Ok);
                    }
                }
            }
        }
        if ascii_records(ls, p, j) is Err {
            assert(!(forall|i: int| 0 <= i < j ==> #[trigger] ascii_vertex(ls[i], p, i as nat) is Ok) || ls.len() < j);
        }
    }
}

/// The values an integer property type holds, `None` for the float types.
pub open spec fn integer_type_range(ty: ScalarType) -> Option<(int, int)> {
    match ty {
        ScalarType::Char => Some((-128, 127)),
        ScalarType::UChar => Some((0, 255)),
        ScalarType::Short => Some((-32768, 32767)),
        ScalarType::UShort => Some((0, 65535)),
        ScalarType::Int => Some((-2147483648, 2147483647)),
        ScalarType::UInt => Some((0, 4294967295)),
        _ => None,
    }
}

/// Each integer property type reads exactly the values of its own range:
/// the decimal text of any integer in the range reads as that integer, and
/// the text of any integer outside it is rejected.
pub proof fn law_integer_fields_read_their_range(v: int, ty: ScalarType)
    requires
        integer_type_range(ty) is Some,
    ensures
        ({
            let (lo, hi) = integer_type_range(ty).unwrap();
            &&& lo <= v <= hi ==> ascii_scalar(signed_decimal_bytes(v), ty) == Ok::<
                ScalarModel,
                Seq<char>,
            >(ScalarModel::Integer(v))
            &&& !(lo <= v <= hi) ==> ascii_scalar(signed_decimal_bytes(v), ty) is Err
        }),
{
    law_decimal_text_reads_back(v);
}

/// An ASCII body is read line by line: after the lines of the earlier
/// elements' records, the next `count` lines each hold one vertex record
/// (exactly the declared number of tokens, each valid for its type), and
/// the lines after them are ignored. Vertex `i` comes from line
/// `skip_records + i`.
pub proof fn law_ascii_records(data: Seq<u8>, p: PlanModel)
    ensures
        ({
            let ls = lines(data);
            ascii_spec(data, p) is Ok <==> (ls.len() >= p.skip_records + p.count && forall|i: int|
                0 <= i < p.count ==> #[trigger] ascii_vertex(ls[p.skip_records + i], p, i as nat)
                    is Ok)
        }),
        ascii_spec(data, p) matches Ok(b) ==> {
            let ls = lines(data);
            &&& b.positions.len() == p.count
            &&& b.colors is Some <==> p.has_color
            &&& forall|i: int|
                0 <= i < p.count ==> (ascii_vertex(ls[p.skip_records + i], p, i as nat) matches Ok(
                    a,
                ) && #[trigger] b.positions[i] == point_of(a) && (b.colors matches Some(c)
                    ==> c[i] == color_of(a)))
        },
{
    let ls = lines(data);
    let rest = ls.skip(p.skip_records as int);
    lemma_lines_len(data);
    lemma_ascii_records_each(rest, p, p.count as nat);
    if ls.len() >= p.skip_records {
        assert forall|i: int| 0 <= i < rest.len() implies #[trigger] rest[i] == ls[p.skip_records + i] by {}
        if ls.len() >= p.skip_records + p.count {
            assert(forall|i: int| 0 <= i < p.count ==> #[trigger] ascii_vertex(ls[p.skip_records + i], p, i as nat)
                == ascii_vertex(rest[i], p, i as nat));
        } else {
            assert(rest.len() < p.count);
        }
    }
}

/// A binary body is `count` records of `stride` bytes after the bytes of
/// the earlier elements' records: it is accepted exactly when those fit in
/// the data, and record `i` is the `stride` bytes at
/// `skip_bytes + i * stride`, decoded field by field in declaration order.
pub proof fn law_binary_records(data: Seq<u8>, p: PlanModel)
    ensures
        binary_spec(data, p) is Ok <==> p.skip_bytes + p.count * p.stride <= data.len(),
        binary_spec(data, p) matches Ok(b) ==> {
            &&& b.positions.len() == p.count
            &&& b.colors is Some <==> p.has_color
            &&& forall|i: int|
                0 <= i < p.count ==> {
                    let rec = data.skip(p.skip_bytes + i * p.stride).take(p.stride as int);
                    &&& rec.len() == p.stride
                    &&& #[trigger] b.positions[i] == point_of(binary_record(p.fields, rec))
                    &&& b.colors matches Some(c) ==> c[i] == color_of(
                        binary_record(p.fields, rec),
                    )
                }
        },
{
    if let Ok(b) = binary_spec(data, p) {
        assert forall|i: int| 0 <= i < p.count implies {
            let rec = data.skip(p.skip_bytes + i * p.stride).take(p.stride as int);
            &&& rec.len() == p.stride
            &&& #[trigger] b.positions[i] == point_of(binary_record(p.fields, rec))
            &&& b.colors matches Some(c) ==> c[i] == color_of(binary_record(p.fields, rec))
        } by {
            let a = p.skip_bytes + i * p.stride;
            let n = p.count as int;
            let st = p.stride as int;
            assert((i + 1) * st == i * st + st) by (nonlinear_arith);
            assert((i + 1) * st <= n * st) by (nonlinear_arith)
                requires
                    0 <= i < n,
                    st >= 0,
            ;
            assert(data.skip(a).take(st) =~= data.subrange(a, a + st));
        }
    }
}

// ---------------------------------------------------------------------------
// Implementation
// ---------------------------------------------------------------------------

/// Per-vertex values assembled while decoding one record.
pub struct VertexAccumulator {
    pub x: ScalarValue,
    pub y: ScalarValue,
    pub z: ScalarValue,
    pub r: ScalarValue,
    pub g: ScalarValue,
    pub b: ScalarValue,
}

impl View for VertexAccumulator {
    type V = AccModel;

    open spec fn view(&self) -> AccModel {
        AccModel { x: self.x@, y: self.y@, z: self.z@, r: self.r@, g: self.g@, b: self.b@ }
    }
}

impl VertexAccumulator {
    pub fn new() -> (a: Self)
        ensures
            a@ == initial_acc(),
    {
        VertexAccumulator {
            x: ScalarValue::Integer(0),
            y: ScalarValue::Integer(0),
            z: ScalarValue::Integer(0),
            r: ScalarValue::Integer(0),
            g: ScalarValue::Integer(0),
            b: ScalarValue::Integer(0),
        }
    }

    /// Store a value under the field's role.
    fn set(&mut self, role: FieldRole, v: ScalarValue)
        ensures
            final(self)@ == with_value(old(self)@, role, v@),
    {
        match role {
            FieldRole::X => self.x = v,
            FieldRole::Y => self.y = v,
            FieldRole::Z => self.z = v,
            FieldRole::ChannelR => self.r = v,
            FieldRole::ChannelG => self.g = v,
            FieldRole::ChannelB => self.b = v,
            _ => {},
        }
    }
}

/// Append the assembled vertex: its position, and its color when the
/// output has colors.
pub fn store_vertex(
    positions: &mut Vec<Point3>,
    colors: &mut Option<Vec<ColorSample>>,
    acc: VertexAccumulator,
)
    ensures
        points_view(final(positions)@) == points_view(old(positions)@).push(point_of(acc@)),
        match *old(colors) {
            Some(c) => *final(colors) matches Some(d) && colors_view(d@) == colors_view(c@).push(
                color_of(acc@),
            ),
            None => *final(colors) is None,
        },
{
    let ghost a = acc@;
    let ghost p0 = positions@;
    positions.push(Point3 { x: acc.x, y: acc.y, z: acc.z });
    assert(points_view(positions@) =~= points_view(p0).push(point_of(a)));
    match colors.take() {
        Some(mut c) => {
            let ghost c0 = c@;
            c.push(ColorSample { r: acc.r, g: acc.g, b: acc.b });
            assert(colors_view(c@) =~= colors_view(c0).push(color_of(a)));
            *colors = Some(c);
        },
        None => {},
    }
}

proof fn lemma_le_value(b: Seq<u8>)
    ensures
        b.len() == 1 ==> le_value(b) == b[0],
        b.len() == 2 ==> le_value(b) == b[0] + 256 * b[1],
        b.len() == 4 ==> le_value(b) == b[0] + 256 * (b[1] + 256 * (b[2] + 256 * b[3] as int)),
        b.len() == 8 ==> le_value(b) == b[0] + 256 * (b[1] + 256 * (b[2] + 256 * (b[3] + 256 * (
        b[4] + 256 * (b[5] + 256 * (b[6] + 256 * b[7] as int)))))),
{
    reveal_with_fuel(le_value, 9);
    if b.len() >= 1 {
        let b1 = b.drop_first();
        let b2 = b1.drop_first();
        let b3 = b2.drop_first();
        let b4 = b3.drop_first();
        let b5 = b4.drop_first();
        let b6 = b5.drop_first();
        let b7 = b6.drop_first();
        let b8 = b7.drop_first();
        if b.len() == 1 {
            assert(le_value(b1) == 0);
        } else if b.len() == 2 {
            assert(le_value(b2) == 0);
        } else if b.len() == 4 {
            assert(le_value(b4) == 0);
        } else if b.len() == 8 {
            assert(le_value(b8) == 0);
        }
    }
}

/// Decode one little-endian scalar field of a binary body; `None` when the
/// bytes do not have the exact size of the declared type.
pub fn decode_binary_scalar(bytes: &[u8], ty: ScalarType) -> (v: Option<ScalarValue>)
    ensures
        bytes@.len() == ty.spec_size() ==> (v matches Some(x) && x@ == binary_scalar(bytes@, ty)),
        bytes@.len() != ty.spec_size() ==> v is None,
{
    proof {
        lemma_le_value(bytes@);
    }
    if bytes.len() != ty.size() {
        return None;
    }
    Some(match ty {
        ScalarType::Char => {
            let u = bytes[0] as i64;
            ScalarValue::Integer(
                if u >= 0x80 {
                    u - 0x100
                } else {
                    u
                },
            )
        },
        ScalarType::UChar => ScalarValue::Integer(bytes[0] as i64),
        ScalarType::Short => {
            let u = bytes[0] as i64 + 256 * bytes[1] as i64;
            ScalarValue::Integer(
                if u >= 0x8000 {
                    u - 0x1_0000
                } else {
                    u
                },
            )
        },
        ScalarType::UShort => ScalarValue::Integer(bytes[0] as i64 + 256 * bytes[1] as i64),
        ScalarType::Int | ScalarType::UInt | ScalarType::Float => {
            let u: u64 = bytes[0] as u64 + 256 * (bytes[1] as u64 + 256 * (bytes[2] as u64 + 256
                * bytes[3] as u64));
            match ty {
                ScalarType::Int => ScalarValue::Integer(
                    if u >= 0x8000_0000 {
                        u as i64 - 0x1_0000_0000
                    } else {
                        u as i64
                    },
                ),
                ScalarType::UInt => ScalarValue::Integer(u as i64),
                _ => ScalarValue::FloatBits(u as u32),
            }
        },
        ScalarType::Double => {
            let u: u64 = bytes[0] as u64 + 256 * (bytes[1] as u64 + 256 * (bytes[2] as u64 + 256
                * (bytes[3] as u64 + 256 * (bytes[4] as u64 + 256 * (bytes[5] as u64 + 256 * (
            bytes[6] as u64 + 256 * bytes[7] as u64))))));
            ScalarValue::DoubleBits(u)
        },
    })
}

/// Decode one binary vertex record field by field.
fn decode_binary_record(record: &[u8], fields: &Vec<Field>) -> (acc: VertexAccumulator)
    requires
        record@.len() == sum_sizes(fields@),
        forall|i: int|
            0 <= i < fields@.len() ==> {
                let f = #[trigger] fields@[i];
                if f.role == FieldRole::DialectRgb {
                    f.size == 3
                } else {
                    f.size == f.ty.spec_size()
                }
            },
    ensures
        acc@ == binary_record(fields@, record@),
{
    let mut acc = VertexAccumulator::new();
    let mut offset: usize = 0;
    let mut j: usize = 0;
    let n = record.len();
    assert(fields@.take(0) =~= Seq::<Field>::empty());
    while j < fields.len()
        invariant
            j <= fields@.len(),
            n == record@.len(),
            record@.len() == sum_sizes(fields@),
            forall|i: int|
                0 <= i < fields@.len() ==> {
                    let f = #[trigger] fields@[i];
                    if f.role == FieldRole::DialectRgb {
                        f.size == 3
                    } else {
                        f.size == f.ty.spec_size()
                    }
                },
            offset == sum_sizes(fields@.take(j as int)),
            acc@ == binary_record(fields@.take(j as int), record@),
        decreases fields@.len() - j,
    {
        let field = fields[j];
        proof {
            lemma_sum_sizes_step(fields@, j as int);
            lemma_sum_sizes_prefix(fields@, j + 1);
        }
        let chunk = slice_subrange(record, offset, offset + field.size);
        if field.role == FieldRole::DialectRgb {
            acc.r = ScalarValue::Integer(chunk[0] as i64);
            acc.g = ScalarValue::Integer(chunk[1] as i64);
            acc.b = ScalarValue::Integer(chunk[2] as i64);
        } else {
            let value = decode_binary_scalar(chunk, field.ty).unwrap();
            acc.set(field.role, value);
        }
        offset = offset + field.size;
        j = j + 1;
    }
    assert(fields@.take(j as int) =~= fields@);
    acc
}

/// Decode the vertex records of a binary body. The declared vertices must
/// fit into the remaining body bytes, or the file is truncated or the count
/// is bogus: that is checked before anything is allocated.
pub fn read_binary_vertices(data: &[u8], plan: &VertexPlan) -> (res: Result<
    (Vec<Point3>, Option<Vec<ColorSample>>),
    PointCloudError,
>)
    requires
        plan_wf(plan@),
    ensures
        match binary_spec(data@, plan@) {
            Ok(b) => res matches Ok((p, c)) && points_view(p@) == b.positions && match c {
                Some(v) => b.colors == Some(colors_view(v@)),
                None => b.colors is None,
            },
            Err(m) => res matches Err(e) && e@ == (PointCloudErrorModel::Malformed { reason: m }),
        },
{
    let ghost p = plan@;
    let stride = plan.stride;
    proof {
        assert((u64::MAX as nat) * (usize::MAX as nat) <= u128::MAX) by (nonlinear_arith);
    }
    let required: u128 = plan.skip_bytes + plan.count as u128 * stride as u128;
    if required > data.len() as u128 {
        let mut s = text_of("PLY binary data: header declares ");
        push_decimal(&mut s, plan.count as u128);
        push_str(&mut s, " vertices at a ");
        push_decimal(&mut s, stride as u128);
        push_str(&mut s, "-byte stride (");
        push_decimal(&mut s, required);
        push_str(&mut s, " bytes required), but only ");
        push_decimal(&mut s, data.len() as u128);
        push_str(&mut s, " bytes of body data remain");
        return Err(malformed(s));
    }
    proof {
        assert(plan.count as nat * stride as nat >= plan.count as nat) by (nonlinear_arith)
            requires
                stride >= 1,
        ;
    }
    let skip = plan.skip_bytes as usize;
    let count = plan.count as usize;
    let mut positions: Vec<Point3> = Vec::with_capacity(count);
    let mut colors: Option<Vec<ColorSample>> = if plan.has_color {
        Some(Vec::with_capacity(count))
    } else {
        None
    };
    let ghost accs = Seq::new(p.count as nat, |i: int| binary_vertex(data@, p, i));
    let mut i: usize = 0;
    let mut start: usize = skip;
    let total = data.len();
    while i < count
        invariant
            i <= count,
            total == data@.len(),
            count == p.count,
            stride == p.stride,
            skip == p.skip_bytes,
            plan_wf(p),
            p == plan@,
            skip + count * stride <= data@.len(),
            start == skip + i * stride,
            accs == Seq::new(p.count as nat, |k: int| binary_vertex(data@, p, k)),
            points_view(positions@) == accs.take(i as int).map_values(|a: AccModel| point_of(a)),
            p.has_color ==> (colors matches Some(c) && colors_view(c@) == accs.take(
                i as int,
            ).map_values(|a: AccModel| color_of(a))),
            !p.has_color ==> colors is None,
        decreases count - i,
    {
        proof {
            assert(start + stride <= skip + count * stride) by (nonlinear_arith)
                requires
                    start == skip + i * stride,
                    i < count,
            ;
            assert((i + 1) * stride == i * stride + stride) by (nonlinear_arith);
        }
        let record = slice_subrange(data, start, start + stride);
        let acc = decode_binary_record(record, &plan.fields);
        proof {
            assert(record@ == data@.subrange(p.skip_bytes + i * p.stride, p.skip_bytes + (i + 1)
                * p.stride));
            assert(acc@ == accs[i as int]);
            assert(accs.take(i + 1) =~= accs.take(i as int).push(acc@));
        }
        let ghost old_colors = colors;
        store_vertex(&mut positions, &mut colors, acc);
        proof {
            assert(accs.take(i + 1).map_values(|a: AccModel| point_of(a)) =~= accs.take(
                i as int,
            ).map_values(|a: AccModel| point_of(a)).push(point_of(accs[i as int])));
            assert(accs.take(i + 1).map_values(|a: AccModel| color_of(a)) =~= accs.take(
                i as int,
            ).map_values(|a: AccModel| color_of(a)).push(color_of(accs[i as int])));
        }
        start = start + stride;
        i = i + 1;
    }
    assert(accs.take(count as int) =~= accs);
    Ok((positions, colors))
}

/// Read one ASCII token as the declared type.
pub fn decode_ascii_scalar(token: &[u8], ty: ScalarType) -> (res: Result<
    ScalarValue,
    PointCloudError,
>)
    ensures
        match ascii_scalar(token@, ty) {
            Ok(v) => res matches Ok(x) && x@ == v,
            Err(m) => res matches Err(e) && e@ == (PointCloudErrorModel::Malformed { reason: m }),
        },
{
    if !is_utf8(token) {
        return Err(malformed_str("PLY ASCII data: numeric token is not valid UTF-8"));
    }
    let parsed: Option<i128> = match ty {
        ScalarType::Char => parse_integer(token, true, -0x80, 0x7f),
        ScalarType::UChar => parse_integer(token, false, 0, 0xff),
        ScalarType::Short => parse_integer(token, true, -0x8000, 0x7fff),
        ScalarType::UShort => parse_integer(token, false, 0, 0xffff),
        ScalarType::Int => parse_integer(token, true, -0x8000_0000, 0x7fff_ffff),
        ScalarType::UInt => parse_integer(token, false, 0, 0xffff_ffff),
        ScalarType::Float | ScalarType::Double => {
            if float_text_check(token) {
                let text = slice_to_vec(token);
                return Ok(
                    match ty {
                        ScalarType::Float => ScalarValue::FloatText(text),
                        _ => ScalarValue::DoubleText(text),
                    },
                );
            }
            None
        },
    };
    match parsed {
        Some(v) => Ok(ScalarValue::Integer(v as i64)),
        None => {
            let mut s = text_of("PLY ASCII data: expected a \"");
            push_str(&mut s, ty.keyword());
            push_str(&mut s, "\" number");
            Err(malformed(s))
        },
    }
}

/// Decode one ASCII vertex record (its tokens) field by field.
fn decode_ascii_record(tokens: &Vec<&[u8]>, fields: &Vec<Field>) -> (res: Result<
    VertexAccumulator,
    PointCloudError,
>)
    requires
        tokens@.len() == sum_tokens(fields@),
        forall|i: int|
            0 <= i < fields@.len() ==> {
                let f = #[trigger] fields@[i];
                if f.role == FieldRole::DialectRgb {
                    f.tokens == 3
                } else {
                    f.tokens == 1
                }
            },
    ensures
        match ascii_record(fields@, slice_views(tokens@)) {
            Ok(a) => res matches Ok(x) && x@ == a,
            Err(m) => res matches Err(e) && e@ == (PointCloudErrorModel::Malformed { reason: m }),
        },
{
    let ghost t = slice_views(tokens@);
    let mut acc = VertexAccumulator::new();
    let mut ti: usize = 0;
    let mut j: usize = 0;
    let ntok = tokens.len();
    assert(fields@.take(0) =~= Seq::<Field>::empty());
    while j < fields.len()
        invariant
            j <= fields@.len(),
            ntok == tokens@.len(),
            t == slice_views(tokens@),
            tokens@.len() == sum_tokens(fields@),
            forall|i: int|
                0 <= i < fields@.len() ==> {
                    let f = #[trigger] fields@[i];
                    if f.role == FieldRole::DialectRgb {
                        f.tokens == 3
                    } else {
                        f.tokens == 1
                    }
                },
            ti == sum_tokens(fields@.take(j as int)),
            ascii_record(fields@.take(j as int), t) == Ok::<AccModel, Seq<char>>(acc@),
        decreases fields@.len() - j,
    {
        let field = fields[j];
        proof {
            lemma_sum_sizes_step(fields@, j as int);
            lemma_sum_sizes_prefix(fields@, j + 1);
        }
        let ghost before = acc@;
        if field.role == FieldRole::DialectRgb {
            assert(t[ti as int] == tokens@[ti as int]@);
            assert(t[ti + 1] == tokens@[ti + 1]@);
            assert(t[ti + 2] == tokens@[ti + 2]@);
            let r = match decode_ascii_scalar(tokens[ti], ScalarType::UChar) {
                Ok(v) => v,
                Err(e) => {
                    proof {
                        lemma_ascii_record_err(fields@, t, j + 1);
                    }
                    return Err(e);
                },
            };
            let g = match decode_ascii_scalar(tokens[ti + 1], ScalarType::UChar) {
                Ok(v) => v,
                Err(e) => {
                    proof {
                        lemma_ascii_record_err(fields@, t, j + 1);
                    }
                    return Err(e);
                },
            };
            let b = match decode_ascii_scalar(tokens[ti + 2], ScalarType::UChar) {
                Ok(v) => v,
                Err(e) => {
                    proof {
                        lemma_ascii_record_err(fields@, t, j + 1);
                    }
                    return Err(e);
                },
            };
            acc.r = r;
            acc.g = g;
            acc.b = b;
        } else {
            assert(t[ti as int] == tokens@[ti as int]@);
            let value = match decode_ascii_scalar(tokens[ti], field.ty) {
                Ok(v) => v,
                Err(e) => {
                    proof {
                        lemma_ascii_record_err(fields@, t, j + 1);
                    }
                    return Err(e);
                },
            };
            acc.set(field.role, value);
        }
        ti = ti + field.tokens;
        j = j + 1;
    }
    assert(fields@.take(j as int) =~= fields@);
    Ok(acc)
}

/// Decode the `index`-th vertex record from its line.
fn read_ascii_vertex(line: &[u8], plan: &VertexPlan, index: usize) -> (res: Result<
    VertexAccumulator,
    PointCloudError,
>)
    requires
        plan_wf(plan@),
    ensures
        match ascii_vertex(line@, plan@, index as nat) {
            Ok(a) => res matches Ok(x) && x@ == a,
            Err(m) => res matches Err(e) && e@ == (PointCloudErrorModel::Malformed { reason: m }),
        },
{
    let tokens = ws_tokens(line);
    if tokens.len() != plan.tokens_per_vertex {
        let mut m = text_of("PLY ASCII data: vertex record ");
        push_decimal(&mut m, index as u128);
        push_str(&mut m, " has ");
        push_decimal(&mut m, tokens.len() as u128);
        push_str(&mut m, " tokens; expected ");
        push_decimal(&mut m, plan.tokens_per_vertex as u128);
        push_str(&mut m, " (one per declared property)");
        return Err(malformed(m));
    }
    decode_ascii_record(&tokens, &plan.fields)
}

/// Decode the vertex records of an ASCII body: skip the record lines of
/// earlier elements, then read one line per vertex.
pub fn read_ascii_vertices(data: &[u8], plan: &VertexPlan) -> (res: Result<
    (Vec<Point3>, Option<Vec<ColorSample>>),
    PointCloudError,
>)
    requires
        plan_wf(plan@),
    ensures
        match ascii_spec(data@, plan@) {
            Ok(b) => res matches Ok((p, c)) && points_view(p@) == b.positions && match c {
                Some(v) => b.colors == Some(colors_view(v@)),
                None => b.colors is None,
            },
            Err(m) => res matches Err(e) && e@ == (PointCloudErrorModel::Malformed { reason: m }),
        },
{
    let ghost p = plan@;
    let ghost ls = lines(data@);
    proof {
        assert((u64::MAX as nat) * (usize::MAX as nat) <= u128::MAX) by (nonlinear_arith);
    }
    let required: u128 = plan.skip_records + plan.count as u128;
    if required > data.len() as u128 {
        let mut s = text_of("PLY ASCII data: header declares ");
        push_decimal(&mut s, plan.count as u128);
        push_str(&mut s, " vertex records, but the body is too short");
        return Err(malformed(s));
    }
    let skip = plan.skip_records as usize;
    let count = plan.count as usize;
    let mut it = LineIter::new(data);
    let mut s: usize = 0;
    proof {
        lemma_lines_len(data@);
        assert(ls.skip(0) =~= ls);
    }
    while s < skip
        invariant
            s <= skip,
            skip == p.skip_records,
            p == plan@,
            p.skip_records + p.count <= data@.len(),
            ls == lines(data@),
            s <= ls.len(),
            lines(it@) == ls.skip(s as int),
        decreases skip - s,
    {
        let ghost before = it@;
        proof {
            lemma_lines_next(before);
        }
        match it.next() {
            None => {
                return Err(malformed_str("PLY ASCII data: file ends before the vertex records"));
            },
            Some(_) => {
                assert(ls.skip(s + 1) =~= ls.skip(s as int).drop_first());
            },
        }
        s = s + 1;
    }
    let ghost rls = ls.skip(skip as int);
    let mut positions: Vec<Point3> = Vec::with_capacity(count);
    let mut colors: Option<Vec<ColorSample>> = if plan.has_color {
        Some(Vec::with_capacity(count))
    } else {
        None
    };
    let ghost mut accs: Seq<AccModel> = seq![];
    let mut i: usize = 0;
    proof {
        assert(rls.skip(0) =~= rls);
        assert(points_view(positions@) =~= Seq::<Point3Model>::empty());
        if let Some(c) = &colors {
            assert(colors_view(c@) =~= Seq::<ColorSampleModel>::empty());
        }
        assert(accs.map_values(|a: AccModel| point_of(a)) =~= Seq::<Point3Model>::empty());
        assert(accs.map_values(|a: AccModel| color_of(a)) =~= Seq::<ColorSampleModel>::empty());
    }
    while i < count
        invariant
            i <= count,
            count == p.count,
            p == plan@,
            plan_wf(p),
            p.skip_records + p.count <= data@.len(),
            lines(data@).len() >= p.skip_records,
            rls == lines(data@).skip(p.skip_records as int),
            i <= rls.len() ==> lines(it@) == rls.skip(i as int),
            i <= rls.len(),
            ascii_records(rls, p, i as nat) == Ok::<Seq<AccModel>, Seq<char>>(accs),
            points_view(positions@) == accs.map_values(|a: AccModel| point_of(a)),
            p.has_color ==> (colors matches Some(c) && colors_view(c@) == accs.map_values(
                |a: AccModel| color_of(a),
            )),
            !p.has_color ==> colors is None,
        decreases count - i,
    {
        let ghost before = it@;
        proof {
            lemma_lines_next(before);
        }
        let line = match it.next() {
            Some(l) => l,
            None => {
                let mut m = text_of("PLY ASCII data: file ends after ");
                push_decimal(&mut m, i as u128);
                push_str(&mut m, " of ");
                push_decimal(&mut m, count as u128);
                push_str(&mut m, " declared vertex records");
                proof {
                    lemma_ascii_records_err(rls, p, (i + 1) as nat, count as nat);
                }
                return Err(malformed(m));
            },
        };
        assert(rls[i as int] == line@);
        assert(rls.skip(i + 1) =~= rls.skip(i as int).drop_first());
        let acc = match read_ascii_vertex(line, plan, i) {
            Ok(a) => a,
            Err(e) => {
                proof {
                    lemma_ascii_records_err(rls, p, (i + 1) as nat, count as nat);
                }
                return Err(e);
            },
        };
        let ghost a = acc@;
        store_vertex(&mut positions, &mut colors, acc);
        proof {
            assert(accs.push(a).map_values(|x: AccModel| point_of(x)) =~= accs.map_values(
                |x: AccModel| point_of(x),
            ).push(point_of(a)));
            assert(accs.push(a).map_values(|x: AccModel| color_of(x)) =~= accs.map_values(
                |x: AccModel| color_of(x),
            ).push(color_of(a)));
            accs = accs.push(a);
        }
        i = i + 1;
    }
    Ok((positions, colors))
}

} // verus!
