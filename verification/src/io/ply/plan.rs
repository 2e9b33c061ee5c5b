//! The vertex layout: which declared properties feed the coordinates and
//! the colors, the per-vertex byte stride and token count, and how much of
//! the body the records of earlier elements occupy.
use vstd::prelude::*;
use vstd::string::StringSliceAdditionalSpecFns;

use super::super::text::{is_keyword, lossy_text};
use super::super::{PointCloudError, PointCloudErrorModel};
use super::header::header_size;
use super::{
    elements_view, malformed, malformed_str, props_view, quoted, ElementHeader, ElementModel,
    Field, FieldRole, Header, HeaderModel, PlanModel, PropertyHeader, PropertyModel, ScalarType,
    VertexPlan,
};

verus! {

// ---------------------------------------------------------------------------
// Specification
// ---------------------------------------------------------------------------

/// Index of the first element named `vertex` at or after `i`.
pub open spec fn vertex_index_from(els: Seq<ElementModel>, i: nat) -> Option<nat>
    decreases els.len() - i,
{
    if i >= els.len() {
        None
    } else if els[i as int].name == "vertex".spec_bytes() {
        Some(i)
    } else {
        vertex_index_from(els, i + 1)
    }
}

/// Some scalar `uchar` property carries the given name.
pub open spec fn has_uchar(props: Seq<PropertyModel>, name: Seq<u8>) -> bool {
    exists|i: int|
        0 <= i < props.len() && #[trigger] props[i] == (PropertyModel::Scalar {
            name,
            ty: ScalarType::UChar,
        })
}

/// What a scalar property named `name` of type `ty` contributes, when the
/// `r g b` channel triple is (`triple`) or is not the color layout.
pub open spec fn role_of(name: Seq<u8>, ty: ScalarType, triple: bool) -> FieldRole {
    if name == "x".spec_bytes() {
        FieldRole::X
    } else if name == "y".spec_bytes() {
        FieldRole::Y
    } else if name == "z".spec_bytes() {
        FieldRole::Z
    } else if name == "rgb".spec_bytes() && ty == ScalarType::UChar {
        FieldRole::DialectRgb
    } else if name == "r".spec_bytes() && triple {
        FieldRole::ChannelR
    } else if name == "g".spec_bytes() && triple {
        FieldRole::ChannelG
    } else if name == "b".spec_bytes() && triple {
        FieldRole::ChannelB
    } else {
        FieldRole::Skip
    }
}

pub open spec fn is_coordinate(role: FieldRole) -> bool {
    role == FieldRole::X || role == FieldRole::Y || role == FieldRole::Z
}

/// The field of one vertex property.
pub open spec fn field_of(p: PropertyModel, triple: bool) -> Result<Field, Seq<char>> {
    match p {
        PropertyModel::List { name } => Err(
            "PLY header: list property \""@ + lossy_text(name)
                + "\" on the vertex element is not supported"@,
        ),
        PropertyModel::Scalar { name, ty } => {
            let role = role_of(name, ty, triple);
            if is_coordinate(role) && !ty.spec_supports_coordinates() {
                Err(
                    "PLY header: coordinate property \""@ + lossy_text(name) + "\" uses type \""@
                        + ty.spec_keyword() + "\", which is not supported for coordinates"@,
                )
            } else if role == FieldRole::DialectRgb {
                Ok(Field { role, ty, size: 3, tokens: 3 })
            } else {
                Ok(Field { role, ty, size: ty.spec_size() as usize, tokens: 1 })
            }
        },
    }
}

/// The fields of the vertex properties, in declaration order; the first
/// rejected property decides the error.
pub open spec fn fields_of(props: Seq<PropertyModel>, triple: bool) -> Result<Seq<Field>, Seq<char>>
    decreases props.len(),
{
    if props.len() == 0 {
        Ok(seq![])
    } else {
        match fields_of(props.drop_last(), triple) {
            Err(e) => Err(e),
            Ok(fs) => match field_of(props.last(), triple) {
                Err(e) => Err(e),
                Ok(f) => Ok(fs.push(f)),
            },
        }
    }
}

pub open spec fn has_role(fs: Seq<Field>, role: FieldRole) -> bool {
    exists|i: int| 0 <= i < fs.len() && #[trigger] fs[i].role == role
}

/// Bytes per vertex.
pub open spec fn sum_sizes(fs: Seq<Field>) -> nat
    decreases fs.len(),
{
    if fs.len() == 0 {
        0
    } else {
        sum_sizes(fs.drop_last()) + fs.last().size as nat
    }
}

/// Tokens per vertex.
pub open spec fn sum_tokens(fs: Seq<Field>) -> nat
    decreases fs.len(),
{
    if fs.len() == 0 {
        0
    } else {
        sum_tokens(fs.drop_last()) + fs.last().tokens as nat
    }
}

pub open spec fn has_list(props: Seq<PropertyModel>) -> bool {
    exists|i: int| 0 <= i < props.len() && #[trigger] props[i] is List
}

/// Bytes per record of an element of scalar properties.
pub open spec fn scalar_stride(props: Seq<PropertyModel>) -> nat
    decreases props.len(),
{
    if props.len() == 0 {
        0
    } else {
        scalar_stride(props.drop_last()) + match props.last() {
            PropertyModel::Scalar { ty, .. } => ty.spec_size(),
            PropertyModel::List { .. } => 0,
        }
    }
}

/// Body bytes (binary) and record lines (ASCII) taken by the records of
/// `els`; a non-empty element with list properties cannot be skipped.
pub open spec fn skip_of(els: Seq<ElementModel>) -> Result<(nat, nat), Seq<char>>
    decreases els.len(),
{
    if els.len() == 0 {
        Ok((0, 0))
    } else {
        match skip_of(els.drop_last()) {
            Err(e) => Err(e),
            Ok((bytes, records)) => {
                let e = els.last();
                if e.count == 0 {
                    Ok((bytes, records))
                } else if has_list(e.props) {
                    Err(
                        "PLY header: element \""@ + lossy_text(e.name)
                            + "\" is declared before the vertex element and uses list properties; its records cannot be skipped"@,
                    )
                } else {
                    Ok((bytes + e.count as nat * scalar_stride(e.props), records + e.count as nat))
                }
            },
        }
    }
}

/// The vertex plan of a header, or why the header is rejected.
pub open spec fn plan_spec(h: HeaderModel) -> Result<PlanModel, Seq<char>> {
    match vertex_index_from(h.elements, 0) {
        None => Err("PLY header: no \"vertex\" element is declared"@),
        Some(vi) => {
            let v = h.elements[vi as int];
            let triple = has_uchar(v.props, "r".spec_bytes()) && has_uchar(
                v.props,
                "g".spec_bytes(),
            ) && has_uchar(v.props, "b".spec_bytes());
            let dialect = has_uchar(v.props, "rgb".spec_bytes());
            if triple && dialect {
                Err(
                    "PLY header: conflicting color layouts (both \"r g b\" channels and an \"rgb\" property)"@,
                )
            } else {
                match fields_of(v.props, triple) {
                    Err(e) => Err(e),
                    Ok(fs) => if !(has_role(fs, FieldRole::X) && has_role(fs, FieldRole::Y)
                        && has_role(fs, FieldRole::Z)) {
                        Err(
                            "PLY header: the vertex element must declare x, y and z coordinate properties"@,
                        )
                    } else {
                        match skip_of(h.elements.take(vi as int)) {
                            Err(e) => Err(e),
                            Ok((bytes, records)) => Ok(
                                PlanModel {
                                    fields: fs,
                                    count: v.count,
                                    stride: sum_sizes(fs),
                                    tokens_per_vertex: sum_tokens(fs),
                                    has_color: triple || dialect,
                                    skip_bytes: bytes,
                                    skip_records: records,
                                },
                            ),
                        }
                    },
                }
            }
        },
    }
}

/// `u64::MAX * usize::MAX`: no body offset a plan computes exceeds it.
pub open spec fn offset_cap() -> nat {
    (u64::MAX as nat) * (usize::MAX as nat)
}

/// The facts about a plan that decoding relies on.
pub open spec fn plan_wf(p: PlanModel) -> bool {
    &&& p.stride == sum_sizes(p.fields)
    &&& p.tokens_per_vertex == sum_tokens(p.fields)
    &&& p.stride >= 1
    &&& forall|i: int|
        0 <= i < p.fields.len() ==> {
            let f = #[trigger] p.fields[i];
            if f.role == FieldRole::DialectRgb {
                f.size == 3 && f.tokens == 3
            } else {
                f.size == f.ty.spec_size() && f.tokens == 1
            }
        }
    &&& p.skip_bytes + p.count * p.stride <= offset_cap()
    &&& p.skip_records + p.count <= offset_cap()
}

// ---------------------------------------------------------------------------
// Lemmas
// ---------------------------------------------------------------------------

proof fn lemma_header_size_step(els: Seq<ElementModel>, k: int)
    requires
        0 <= k < els.len(),
    ensures
        header_size(els.take(k + 1)) == header_size(els.take(k)) + 1 + els[k].props.len(),
{
    assert(els.take(k + 1).drop_last() =~= els.take(k));
}

proof fn lemma_header_size_prefix(els: Seq<ElementModel>, k: int)
    requires
        0 <= k <= els.len(),
    ensures
        header_size(els.take(k)) <= header_size(els),
    decreases els.len(),
{
    if k == els.len() {
        assert(els.take(k) =~= els);
    } else {
        assert(els.drop_last().take(k) =~= els.take(k));
        lemma_header_size_prefix(els.drop_last(), k);
    }
}

proof fn lemma_product_bound(a: nat, b: nat, amax: nat, bmax: nat)
    requires
        a <= amax,
        b <= bmax,
    ensures
        a * b <= amax * bmax,
{
    assert(a * b <= amax * bmax) by (nonlinear_arith)
        requires
            a <= amax,
            b <= bmax,
    ;
}

proof fn lemma_vertex_index(els: Seq<ElementModel>, i: nat)
    ensures
        vertex_index_from(els, i) matches Some(v) ==> i <= v < els.len(),
    decreases els.len() - i,
{
    if i < els.len() && els[i as int].name != "vertex".spec_bytes() {
        lemma_vertex_index(els, i + 1);
    }
}

/// Bytes a vertex property takes in a record: three for an `rgb` `uchar`
/// triple, the type's size for any other scalar.
pub open spec fn prop_size(p: PropertyModel) -> nat {
    match p {
        PropertyModel::Scalar { name, ty } => if name == "rgb".spec_bytes() && ty
            == ScalarType::UChar {
            3
        } else {
            ty.spec_size()
        },
        PropertyModel::List { .. } => 0,
    }
}

/// Bytes per record of the given vertex properties.
pub open spec fn props_stride(props: Seq<PropertyModel>) -> nat
    decreases props.len(),
{
    if props.len() == 0 {
        0
    } else {
        props_stride(props.drop_last()) + prop_size(props.last())
    }
}

/// Number of `uchar` properties named `rgb`.
pub open spec fn rgb_count(props: Seq<PropertyModel>) -> nat
    decreases props.len(),
{
    if props.len() == 0 {
        0
    } else {
        rgb_count(props.drop_last()) + if props.last() == (PropertyModel::Scalar {
            name: "rgb".spec_bytes(),
            ty: ScalarType::UChar,
        }) {
            1nat
        } else {
            0nat
        }
    }
}

/// Records of the given elements.
pub open spec fn records_before(els: Seq<ElementModel>) -> nat
    decreases els.len(),
{
    if els.len() == 0 {
        0
    } else {
        records_before(els.drop_last()) + els.last().count as nat
    }
}

/// Body bytes of the records of the given elements.
pub open spec fn bytes_before(els: Seq<ElementModel>) -> nat
    decreases els.len(),
{
    if els.len() == 0 {
        0
    } else {
        bytes_before(els.drop_last()) + els.last().count as nat * scalar_stride(els.last().props)
    }
}

proof fn lemma_has_list_step(props: Seq<PropertyModel>)
    requires
        props.len() > 0,
    ensures
        has_list(props) <==> (has_list(props.drop_last()) || props.last() is List),
{
    if has_list(props.drop_last()) {
        let i = choose|i: int| 0 <= i < props.drop_last().len() && #[trigger] props.drop_last()[i] is List;
        assert(props[i] is List);
    }
    if props.last() is List {
        assert(props[props.len() - 1] is List);
    }
    if has_list(props) {
        let i = choose|i: int| 0 <= i < props.len() && #[trigger] props[i] is List;
        if i < props.len() - 1 {
            assert(props.drop_last()[i] is List);
        }
    }
}

proof fn lemma_fields_layout(props: Seq<PropertyModel>, triple: bool)
    ensures
        fields_of(props, triple) matches Ok(fs) ==> {
            &&& !has_list(props)
            &&& sum_sizes(fs) == props_stride(props)
            &&& sum_tokens(fs) == props.len() + 2 * rgb_count(props)
        },
    decreases props.len(),
{
    if props.len() > 0 {
        lemma_fields_layout(props.drop_last(), triple);
        lemma_has_list_step(props);
        reveal_strlit("rgb");
        reveal_strlit("x");
        reveal_strlit("y");
        reveal_strlit("z");
        vstd::string::is_ascii_spec_bytes("rgb");
        vstd::string::is_ascii_spec_bytes("x");
        vstd::string::is_ascii_spec_bytes("y");
        vstd::string::is_ascii_spec_bytes("z");
        assert("rgb".spec_bytes().len() == 3);
        assert("x".spec_bytes().len() == 1);
        assert("y".spec_bytes().len() == 1);
        assert("z".spec_bytes().len() == 1);
        if let Ok(fs0) = fields_of(props.drop_last(), triple) {
            if let Ok(f) = field_of(props.last(), triple) {
                assert(fs0.push(f).drop_last() =~= fs0);
            }
        }
    }
}

proof fn lemma_skip_layout(els: Seq<ElementModel>)
    ensures
        skip_of(els) matches Ok((bytes, records)) ==> {
            &&& bytes == bytes_before(els)
            &&& records == records_before(els)
            &&& forall|j: int|
                0 <= j < els.len() && #[trigger] els[j].count > 0 ==> !has_list(els[j].props)
        },
    decreases els.len(),
{
    if els.len() > 0 {
        lemma_skip_layout(els.drop_last());
        if skip_of(els) is Ok {
            assert forall|j: int| 0 <= j < els.len() && #[trigger] els[j].count > 0 implies !has_list(
                els[j].props,
            ) by {
                if j < els.len() - 1 {
                    assert(els.drop_last()[j] == els[j]);
                }
            }
        }
    }
}

proof fn lemma_vertex_first(els: Seq<ElementModel>, i: nat)
    ensures
        vertex_index_from(els, i) matches Some(v) ==> els[v as int].name == "vertex".spec_bytes()
            && forall|j: int| i <= j < v ==> #[trigger] els[j].name != "vertex".spec_bytes(),
    decreases els.len() - i,
{
    if i < els.len() && els[i as int].name != "vertex".spec_bytes() {
        lemma_vertex_first(els, i + 1);
    }
}

/// The vertex layout: the plan is for the first element named `vertex`,
/// which has no list property, nor has any non-empty element declared
/// before it; the plan keeps its count, its stride is the sum of the
/// property sizes (three for an `rgb` `uchar` triple), its token count is
/// one per property plus two per `rgb` triple, and the records of the
/// earlier elements give the lines and bytes to skip.
pub proof fn law_vertex_layout(h: HeaderModel)
    ensures
        plan_spec(h) matches Ok(p) ==> (vertex_index_from(h.elements, 0) matches Some(vi) && {
            let v = h.elements[vi as int];
            let before = h.elements.take(vi as int);
            &&& v.name == "vertex".spec_bytes()
            &&& forall|j: int| 0 <= j < vi ==> #[trigger] h.elements[j].name != "vertex".spec_bytes()
            &&& !has_list(v.props)
            &&& forall|j: int|
                0 <= j < vi && #[trigger] h.elements[j].count > 0 ==> !has_list(h.elements[j].props)
            &&& p.count == v.count
            &&& p.stride == props_stride(v.props)
            &&& p.tokens_per_vertex == v.props.len() + 2 * rgb_count(v.props)
            &&& p.skip_records == records_before(before)
            &&& p.skip_bytes == bytes_before(before)
        }),
{
    lemma_vertex_first(h.elements, 0);
    if let Some(vi) = vertex_index_from(h.elements, 0) {
        lemma_vertex_index(h.elements, 0);
        let v = h.elements[vi as int];
        let before = h.elements.take(vi as int);
        let triple = has_uchar(v.props, "r".spec_bytes()) && has_uchar(v.props, "g".spec_bytes())
            && has_uchar(v.props, "b".spec_bytes());
        lemma_fields_layout(v.props, triple);
        lemma_skip_layout(before);
        if plan_spec(h) is Ok {
            assert forall|j: int| 0 <= j < vi && #[trigger] h.elements[j].count > 0 implies !has_list(
                h.elements[j].props,
            ) by {
                assert(before[j] == h.elements[j]);
            }
        }
    }
}

// ---------------------------------------------------------------------------
// Implementation
// ---------------------------------------------------------------------------

fn find_vertex(els: &Vec<ElementHeader>) -> (r: Option<usize>)
    ensures
        match r {
            Some(i) => vertex_index_from(elements_view(els@), 0) == Some(i as nat) && i < els@.len(),
            None => vertex_index_from(elements_view(els@), 0) is None,
        },
{
    let ghost ev = elements_view(els@);
    let mut i: usize = 0;
    while i < els.len()
        invariant
            i <= els@.len(),
            ev == elements_view(els@),
            vertex_index_from(ev, 0) == vertex_index_from(ev, i as nat),
        decreases els@.len() - i,
    {
        assert(ev[i as int] == els@[i as int]@);
        if is_keyword(els[i].name.as_slice(), "vertex") {
            proof {
                lemma_vertex_index(ev, 0);
            }
            return Some(i);
        }
        i = i + 1;
    }
    None
}

fn has_uchar_property(props: &Vec<PropertyHeader>, name: &str) -> (b: bool)
    ensures
        b == has_uchar(props_view(props@), name.spec_bytes()),
{
    let ghost pv = props_view(props@);
    let mut i: usize = 0;
    while i < props.len()
        invariant
            i <= props@.len(),
            pv == props_view(props@),
            forall|j: int|
                0 <= j < i ==> pv[j] != (PropertyModel::Scalar {
                    name: name.spec_bytes(),
                    ty: ScalarType::UChar,
                }),
        decreases props@.len() - i,
    {
        assert(pv[i as int] == props@[i as int]@);
        match &props[i] {
            PropertyHeader::Scalar { name: n, ty } => {
                if *ty == ScalarType::UChar && is_keyword(n.as_slice(), name) {
                    return true;
                }
            },
            PropertyHeader::List { .. } => {},
        }
        i = i + 1;
    }
    false
}

/// The field of one vertex property.
fn field_for(property: &PropertyHeader, triple: bool) -> (res: Result<Field, String>)
    ensures
        match field_of(property@, triple) {
            Ok(f) => res == Ok::<Field, String>(f),
            Err(m) => res matches Err(s) && s@ == m,
        },
{
    let (name, ty) = match property {
        PropertyHeader::List { name } => {
            return Err(
                quoted(
                    "PLY header: list property \"",
                    name.as_slice(),
                    "\" on the vertex element is not supported",
                ),
            );
        },
        PropertyHeader::Scalar { name, ty } => (name.as_slice(), *ty),
    };
    let role = if is_keyword(name, "x") {
        FieldRole::X
    } else if is_keyword(name, "y") {
        FieldRole::Y
    } else if is_keyword(name, "z") {
        FieldRole::Z
    } else if is_keyword(name, "rgb") && ty == ScalarType::UChar {
        FieldRole::DialectRgb
    } else if is_keyword(name, "r") && triple {
        FieldRole::ChannelR
    } else if is_keyword(name, "g") && triple {
        FieldRole::ChannelG
    } else if is_keyword(name, "b") && triple {
        FieldRole::ChannelB
    } else {
        FieldRole::Skip
    };
    if (role == FieldRole::X || role == FieldRole::Y || role == FieldRole::Z)
        && !ty.supports_coordinates() {
        let mut s = quoted("PLY header: coordinate property \"", name, "\" uses type \"");
        super::super::text::push_str(&mut s, ty.keyword());
        super::super::text::push_str(&mut s, "\", which is not supported for coordinates");
        return Err(s);
    }
    if role == FieldRole::DialectRgb {
        Ok(Field { role, ty, size: 3, tokens: 3 })
    } else {
        Ok(Field { role, ty, size: ty.size(), tokens: 1 })
    }
}

fn list_in(props: &Vec<PropertyHeader>) -> (b: bool)
    ensures
        b == has_list(props_view(props@)),
{
    let ghost pv = props_view(props@);
    let mut i: usize = 0;
    while i < props.len()
        invariant
            i <= props@.len(),
            pv == props_view(props@),
            forall|j: int| 0 <= j < i ==> !(pv[j] is List),
        decreases props@.len() - i,
    {
        assert(pv[i as int] == props@[i as int]@);
        if props[i].is_list() {
            return true;
        }
        i = i + 1;
    }
    false
}

/// Bytes per record of an element of scalar properties.
fn element_stride(props: &Vec<PropertyHeader>) -> (s: usize)
    requires
        8 * props@.len() <= usize::MAX,
    ensures
        s == scalar_stride(props_view(props@)),
        s <= 8 * props@.len(),
{
    let ghost pv = props_view(props@);
    let mut s: usize = 0;
    let mut i: usize = 0;
    while i < props.len()
        invariant
            i <= props@.len(),
            8 * props@.len() <= usize::MAX,
            pv == props_view(props@),
            s == scalar_stride(pv.take(i as int)),
            s <= 8 * i,
        decreases props@.len() - i,
    {
        assert(pv.take(i + 1).drop_last() =~= pv.take(i as int));
        assert(pv[i as int] == props@[i as int]@);
        match &props[i] {
            PropertyHeader::Scalar { ty, .. } => {
                s = s + ty.size();
            },
            PropertyHeader::List { .. } => {},
        }
        i = i + 1;
    }
    assert(pv.take(i as int) =~= pv);
    s
}

/// Validate the header and derive the per-vertex layout and the body
/// offsets of the vertex records.
pub fn plan_vertex(header: &Header) -> (res: Result<VertexPlan, PointCloudError>)
    requires
        8 * header_size(header@.elements) <= usize::MAX,
    ensures
        match plan_spec(header@) {
            Ok(p) => res matches Ok(x) && x@ == p,
            Err(m) => res matches Err(e) && e@ == (PointCloudErrorModel::Malformed { reason: m }),
        },
        res matches Ok(p) ==> plan_wf(p@),
{
    let ghost els = header@.elements;
    let vi = match find_vertex(&header.elements) {
        Some(i) => i,
        None => return Err(malformed_str("PLY header: no \"vertex\" element is declared")),
    };
    let vertex = &header.elements[vi];
    assert(els[vi as int] == vertex@);
    let ghost pv = vertex@.props;
    proof {
        lemma_header_size_step(els, vi as int);
        lemma_header_size_prefix(els, vi + 1);
    }
    let triple = has_uchar_property(&vertex.props, "r") && has_uchar_property(&vertex.props, "g")
        && has_uchar_property(&vertex.props, "b");
    let dialect = has_uchar_property(&vertex.props, "rgb");
    if triple && dialect {
        return Err(
            malformed_str(
                "PLY header: conflicting color layouts (both \"r g b\" channels and an \"rgb\" property)",
            ),
        );
    }
    let has_color = triple || dialect;
    let n = vertex.props.len();
    let mut fields: Vec<Field> = Vec::with_capacity(n);
    let mut stride: usize = 0;
    let mut tokens_per_vertex: usize = 0;
    let mut i: usize = 0;
    while i < n
        invariant
            i <= n,
            n == pv.len(),
            pv == props_view(vertex.props@),
            8 * n <= usize::MAX,
            els == header@.elements,
            vertex_index_from(els, 0) == Some(vi as nat),
            els[vi as int].props == pv,
            triple == (has_uchar(pv, "r".spec_bytes()) && has_uchar(pv, "g".spec_bytes())
                && has_uchar(pv, "b".spec_bytes())),
            !(triple && has_uchar(pv, "rgb".spec_bytes())),
            fields_of(pv.take(i as int), triple) == Ok::<Seq<Field>, Seq<char>>(fields@),
            fields@.len() == i,
            stride == sum_sizes(fields@),
            tokens_per_vertex == sum_tokens(fields@),
            fields@.len() <= stride <= 8 * i,
            tokens_per_vertex <= 3 * i,
            forall|j: int|
                0 <= j < fields@.len() ==> {
                    let f = #[trigger] fields@[j];
                    if f.role == FieldRole::DialectRgb {
                        f.size == 3 && f.tokens == 3
                    } else {
                        f.size == f.ty.spec_size() && f.tokens == 1
                    }
                },
        decreases n - i,
    {
        assert(pv.take(i + 1).drop_last() =~= pv.take(i as int));
        assert(pv[i as int] == vertex.props@[i as int]@);
        let field = match field_for(&vertex.props[i], triple) {
            Ok(f) => f,
            Err(s) => {
                proof {
                    lemma_fields_err(pv, triple, i + 1);
                }
                return Err(malformed(s));
            },
        };
        let ghost before = fields@;
        fields.push(field);
        assert(fields@.drop_last() =~= before);
        stride = stride + field.size;
        tokens_per_vertex = tokens_per_vertex + field.tokens;
        i = i + 1;
    }
    assert(pv.take(n as int) =~= pv);
    let mut saw_x = false;
    let mut saw_y = false;
    let mut saw_z = false;
    let mut k: usize = 0;
    while k < n
        invariant
            k <= n,
            n == fields@.len(),
            saw_x == exists|j: int| 0 <= j < k && #[trigger] fields@[j].role == FieldRole::X,
            saw_y == exists|j: int| 0 <= j < k && #[trigger] fields@[j].role == FieldRole::Y,
            saw_z == exists|j: int| 0 <= j < k && #[trigger] fields@[j].role == FieldRole::Z,
        decreases n - k,
    {
        let role = fields[k].role;
        if role == FieldRole::X {
            saw_x = true;
        } else if role == FieldRole::Y {
            saw_y = true;
        } else if role == FieldRole::Z {
            saw_z = true;
        }
        k = k + 1;
    }
    if !(saw_x && saw_y && saw_z) {
        return Err(
            malformed_str(
                "PLY header: the vertex element must declare x, y and z coordinate properties",
            ),
        );
    }
    let mut skip_bytes: u128 = 0;
    let mut skip_records: u128 = 0;
    let mut j: usize = 0;
    proof {
        assert(els.take(0) =~= Seq::<ElementModel>::empty());
    }
    while j < vi
        invariant
            j <= vi,
            vi < els.len(),
            els == elements_view(header.elements@),
            els == header@.elements,
            8 * header_size(els) <= usize::MAX,
            vertex_index_from(els, 0) == Some(vi as nat),
            els[vi as int].props == pv,
            triple == (has_uchar(pv, "r".spec_bytes()) && has_uchar(pv, "g".spec_bytes())
                && has_uchar(pv, "b".spec_bytes())),
            !(triple && has_uchar(pv, "rgb".spec_bytes())),
            fields_of(pv, triple) == Ok::<Seq<Field>, Seq<char>>(fields@),
            has_role(fields@, FieldRole::X) && has_role(fields@, FieldRole::Y) && has_role(
                fields@,
                FieldRole::Z,
            ),
            skip_of(els.take(j as int)) == Ok::<(nat, nat), Seq<char>>(
                (skip_bytes as nat, skip_records as nat),
            ),
            skip_bytes <= (u64::MAX as nat) * (8 * header_size(els.take(j as int))),
            skip_records <= (u64::MAX as nat) * header_size(els.take(j as int)),
        decreases vi - j,
    {
        let element = &header.elements[j];
        let ghost e = els[j as int];
        assert(e == element@);
        proof {
            lemma_header_size_step(els, j as int);
            lemma_header_size_prefix(els, j + 1);
            assert(els.take(j + 1).drop_last() =~= els.take(j as int));
            lemma_product_bound(1, header_size(els.take(j + 1)), u64::MAX as nat, usize::MAX as nat);
            lemma_product_bound(
                u64::MAX as nat,
                header_size(els.take(j as int)),
                u64::MAX as nat,
                header_size(els.take(j + 1)),
            );
            lemma_product_bound(
                u64::MAX as nat,
                8 * header_size(els.take(j + 1)),
                u64::MAX as nat,
                usize::MAX as nat,
            );
        }
        if element.count != 0 {
            if list_in(&element.props) {
                proof {
                    assert(els.take(j + 1).last() == e);
                    assert(els.take(vi as int).take(j + 1) =~= els.take(j + 1));
                    lemma_skip_err(els.take(vi as int), j + 1);
                }
                return Err(
                    malformed(
                        quoted(
                            "PLY header: element \"",
                            element.name.as_slice(),
                            "\" is declared before the vertex element and uses list properties; its records cannot be skipped",
                        ),
                    ),
                );
            }
            let element_bytes = element_stride(&element.props);
            proof {
                lemma_product_bound(
                    element.count as nat,
                    element_bytes as nat,
                    u64::MAX as nat,
                    8 * e.props.len(),
                );
                assert((u64::MAX as nat) * (8 * header_size(els.take(j + 1))) == (u64::MAX as nat)
                    * (8 * header_size(els.take(j as int))) + (u64::MAX as nat) * 8 + (u64::MAX as nat)
                    * (8 * e.props.len())) by (nonlinear_arith)
                    requires
                        header_size(els.take(j + 1)) == header_size(els.take(j as int)) + 1
                            + e.props.len(),
                ;
            }
            skip_bytes = skip_bytes + element.count as u128 * element_bytes as u128;
        }
        skip_records = skip_records + element.count as u128;
        j = j + 1;
    }
    proof {
        lemma_header_size_prefix(els, vi as int);
        lemma_product_bound(vertex.count as nat, stride as nat, u64::MAX as nat, 8 * pv.len());
        assert((u64::MAX as nat) * (8 * header_size(els)) >= (u64::MAX as nat) * (8 * header_size(
            els.take(vi as int),
        )) + (u64::MAX as nat) * (8 * pv.len())) by (nonlinear_arith)
            requires
                header_size(els) >= header_size(els.take(vi as int)) + 1 + pv.len(),
        ;
        lemma_product_bound(
            u64::MAX as nat,
            8 * header_size(els),
            u64::MAX as nat,
            usize::MAX as nat,
        );
        lemma_product_bound(
            u64::MAX as nat,
            header_size(els),
            u64::MAX as nat,
            8 * header_size(els),
        );
        assert(header_size(els.take(vi + 1)) == header_size(els.take(vi as int)) + 1 + pv.len());
    }
    Ok(
        VertexPlan {
            fields,
            count: vertex.count,
            stride,
            tokens_per_vertex,
            has_color,
            skip_bytes,
            skip_records,
        },
    )
}

proof fn lemma_skip_err(els: Seq<ElementModel>, k: int)
    requires
        0 <= k <= els.len(),
        skip_of(els.take(k)) is Err,
    ensures
        skip_of(els) == skip_of(els.take(k)),
    decreases els.len(),
{
    if k == els.len() {
        assert(els.take(k) =~= els);
    } else {
        assert(els.drop_last().take(k) =~= els.take(k));
        lemma_skip_err(els.drop_last(), k);
    }
}

proof fn lemma_fields_err(props: Seq<PropertyModel>, triple: bool, k: int)
    requires
        0 <= k <= props.len(),
        fields_of(props.take(k), triple) is Err,
    ensures
        fields_of(props, triple) == fields_of(props.take(k), triple),
    decreases props.len(),
{
    if k == props.len() {
        assert(props.take(k) =~= props);
    } else {
        assert(props.drop_last().take(k) =~= props.take(k));
        lemma_fields_err(props.drop_last(), triple, k);
    }
}

} // verus!
