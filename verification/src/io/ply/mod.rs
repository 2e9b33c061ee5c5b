//! PLY parser for the supported subsets.
//!
//! Scope: ASCII and `binary_little_endian` bodies whose `vertex` element
//! declares scalar `x y z` coordinates (types float, double, uchar, ushort,
//! uint, int) and optionally colors as three `uchar` properties named
//! `r g b`, or as the `rgb` dialect — one `property uchar rgb` that still
//! occupies three bytes (or three tokens) per vertex in file field order.
//!
//! Rejected with `PointCloudError::Malformed`: big-endian declarations,
//! list properties on the vertex element (and on any non-empty element
//! whose records would precede the vertex records), unknown types and
//! header keywords, unparseable numbers, truncated bodies, and vertex
//! counts that exceed the remaining body bytes (allocation guard). Elements
//! declared after the vertex element (e.g. `face`) are ignored.
//!
//! Non-finite coordinates are kept in `positions` (as their text or bit
//! pattern); excluding them from the bounds is the host's job.
use vstd::prelude::*;
use vstd::string::StringSliceAdditionalSpecFns;
use vstd::utf8::{decode_utf8, valid_utf8};

pub mod header;
pub mod plan;
pub mod body;

use self::body::{ascii_spec, binary_spec, lemma_ascii_records_len, read_ascii_vertices, read_binary_vertices};
use super::text::lines;
use self::header::{parse_header, parse_header_spec};
use self::plan::{plan_spec, plan_vertex};
use super::{Format, PointCloudData, PointCloudError, PointCloudErrorModel, PointCloudModel};
use vstd::slice::slice_subrange;
use super::text::{lossy, lossy_text, push_str, text_of};

verus! {

/// The scalar types of the PLY type table.
#[derive(Debug, Clone, Copy, PartialEq, Eq, Structural)]
pub enum ScalarType {
    Char,
    UChar,
    Short,
    UShort,
    Int,
    UInt,
    Float,
    Double,
}

/// The type a keyword names, if it is one of the PLY type table.
pub open spec fn scalar_type_of(keyword: Seq<u8>) -> Option<ScalarType> {
    if keyword == "char".spec_bytes() {
        Some(ScalarType::Char)
    } else if keyword == "uchar".spec_bytes() {
        Some(ScalarType::UChar)
    } else if keyword == "short".spec_bytes() {
        Some(ScalarType::Short)
    } else if keyword == "ushort".spec_bytes() {
        Some(ScalarType::UShort)
    } else if keyword == "int".spec_bytes() {
        Some(ScalarType::Int)
    } else if keyword == "uint".spec_bytes() {
        Some(ScalarType::UInt)
    } else if keyword == "float".spec_bytes() {
        Some(ScalarType::Float)
    } else if keyword == "double".spec_bytes() {
        Some(ScalarType::Double)
    } else {
        None
    }
}

impl ScalarType {
    /// Bytes occupied per value in a binary body.
    pub open spec fn spec_size(self) -> nat {
        match self {
            ScalarType::Char | ScalarType::UChar => 1,
            ScalarType::Short | ScalarType::UShort => 2,
            ScalarType::Int | ScalarType::UInt | ScalarType::Float => 4,
            ScalarType::Double => 8,
        }
    }

    /// The PLY keyword of the type.
    pub open spec fn spec_keyword(self) -> Seq<char> {
        match self {
            ScalarType::Char => "char"@,
            ScalarType::UChar => "uchar"@,
            ScalarType::Short => "short"@,
            ScalarType::UShort => "ushort"@,
            ScalarType::Int => "int"@,
            ScalarType::UInt => "uint"@,
            ScalarType::Float => "float"@,
            ScalarType::Double => "double"@,
        }
    }

    /// Whether the type may back an `x`/`y`/`z` property.
    pub open spec fn spec_supports_coordinates(self) -> bool {
        match self {
            ScalarType::Float | ScalarType::Double | ScalarType::UChar | ScalarType::UShort
            | ScalarType::UInt | ScalarType::Int => true,
            _ => false,
        }
    }

    /// The type a keyword names.
    pub fn from_keyword(keyword: &[u8]) -> (res: Option<ScalarType>)
        ensures
            res == scalar_type_of(keyword@),
    {
        if super::text::is_keyword(keyword, "char") {
            Some(ScalarType::Char)
        } else if super::text::is_keyword(keyword, "uchar") {
            Some(ScalarType::UChar)
        } else if super::text::is_keyword(keyword, "short") {
            Some(ScalarType::Short)
        } else if super::text::is_keyword(keyword, "ushort") {
            Some(ScalarType::UShort)
        } else if super::text::is_keyword(keyword, "int") {
            Some(ScalarType::Int)
        } else if super::text::is_keyword(keyword, "uint") {
            Some(ScalarType::UInt)
        } else if super::text::is_keyword(keyword, "float") {
            Some(ScalarType::Float)
        } else if super::text::is_keyword(keyword, "double") {
            Some(ScalarType::Double)
        } else {
            None
        }
    }

    /// Bytes occupied per value in a binary body.
    pub fn size(self) -> (n: usize)
        ensures
            n == self.spec_size(),
    {
        match self {
            ScalarType::Char | ScalarType::UChar => 1,
            ScalarType::Short | ScalarType::UShort => 2,
            ScalarType::Int | ScalarType::UInt | ScalarType::Float => 4,
            ScalarType::Double => 8,
        }
    }

    /// The PLY keyword of the type, for messages.
    pub fn keyword(self) -> (s: &'static str)
        ensures
            s@ == self.spec_keyword(),
    {
        match self {
            ScalarType::Char => "char",
            ScalarType::UChar => "uchar",
            ScalarType::Short => "short",
            ScalarType::UShort => "ushort",
            ScalarType::Int => "int",
            ScalarType::UInt => "uint",
            ScalarType::Float => "float",
            ScalarType::Double => "double",
        }
    }

    /// Whether the type may back an `x`/`y`/`z` property.
    pub fn supports_coordinates(self) -> (ok: bool)
        ensures
            ok == self.spec_supports_coordinates(),
    {
        match self {
            ScalarType::Float | ScalarType::Double | ScalarType::UChar | ScalarType::UShort
            | ScalarType::UInt | ScalarType::Int => true,
            _ => false,
        }
    }
}

/// Body storage mode declared by the `format` header line.
#[derive(Debug, Clone, Copy, PartialEq, Eq, Structural)]
pub enum PlyFormat {
    Ascii,
    BinaryLe,
}

/// A declared property; names are kept as the (UTF-8) bytes of the file.
#[derive(Debug, Clone)]
pub enum PropertyHeader {
    Scalar { name: Vec<u8>, ty: ScalarType },
    /// `property list <count type> <item type> <name>`: unsupported on
    /// the vertex element.
    List { name: Vec<u8> },
}

pub enum PropertyModel {
    Scalar { name: Seq<u8>, ty: ScalarType },
    List { name: Seq<u8> },
}

impl PropertyModel {
    pub open spec fn name(self) -> Seq<u8> {
        match self {
            PropertyModel::Scalar { name, .. } => name,
            PropertyModel::List { name } => name,
        }
    }
}

impl View for PropertyHeader {
    type V = PropertyModel;

    open spec fn view(&self) -> PropertyModel {
        match self {
            PropertyHeader::Scalar { name, ty } => PropertyModel::Scalar { name: name@, ty: *ty },
            PropertyHeader::List { name } => PropertyModel::List { name: name@ },
        }
    }
}

impl PropertyHeader {
    /// The property's name.
    pub fn name(&self) -> (n: &[u8])
        ensures
            n@ == self@.name(),
    {
        match self {
            PropertyHeader::Scalar { name, .. } => name.as_slice(),
            PropertyHeader::List { name } => name.as_slice(),
        }
    }

    pub fn is_list(&self) -> (b: bool)
        ensures
            b == self@ is List,
    {
        match self {
            PropertyHeader::List { .. } => true,
            PropertyHeader::Scalar { .. } => false,
        }
    }

    /// The scalar type, for a scalar property.
    pub fn scalar_ty(&self) -> (t: Option<ScalarType>)
        ensures
            t == match self@ {
                PropertyModel::Scalar { ty, .. } => Some(ty),
                PropertyModel::List { .. } => None::<ScalarType>,
            },
    {
        match self {
            PropertyHeader::Scalar { ty, .. } => Some(*ty),
            PropertyHeader::List { .. } => None,
        }
    }
}

pub open spec fn props_view(p: Seq<PropertyHeader>) -> Seq<PropertyModel> {
    p.map_values(|q: PropertyHeader| q@)
}

/// A declared element with its properties in declaration order.
#[derive(Debug)]
pub struct ElementHeader {
    pub name: Vec<u8>,
    pub count: u64,
    pub props: Vec<PropertyHeader>,
}

pub struct ElementModel {
    pub name: Seq<u8>,
    pub count: u64,
    pub props: Seq<PropertyModel>,
}

impl View for ElementHeader {
    type V = ElementModel;

    open spec fn view(&self) -> ElementModel {
        ElementModel { name: self.name@, count: self.count, props: props_view(self.props@) }
    }
}

pub open spec fn elements_view(e: Seq<ElementHeader>) -> Seq<ElementModel> {
    e.map_values(|x: ElementHeader| x@)
}

/// A parsed header.
#[derive(Debug)]
pub struct Header {
    pub format: PlyFormat,
    pub elements: Vec<ElementHeader>,
    /// Byte offset of the first data byte, directly after `end_header`.
    pub data_start: usize,
}

pub struct HeaderModel {
    pub format: PlyFormat,
    pub elements: Seq<ElementModel>,
    pub data_start: nat,
}

impl View for Header {
    type V = HeaderModel;

    open spec fn view(&self) -> HeaderModel {
        HeaderModel {
            format: self.format,
            elements: elements_view(self.elements@),
            data_start: self.data_start as nat,
        }
    }
}

/// What a vertex property contributes to the output data.
#[derive(Debug, Clone, Copy, PartialEq, Eq, Structural)]
pub enum FieldRole {
    X,
    Y,
    Z,
    ChannelR,
    ChannelG,
    ChannelB,
    /// `property uchar rgb`: three file bytes (or tokens) per vertex.
    DialectRgb,
    /// Parsed and validated, but not part of the output.
    Skip,
}

/// One vertex property with its layout.
#[derive(Debug, Clone, Copy, PartialEq, Eq, Structural)]
pub struct Field {
    pub role: FieldRole,
    pub ty: ScalarType,
    /// Bytes consumed per vertex in a binary body.
    pub size: usize,
    /// ASCII tokens consumed per vertex (3 for the `rgb` dialect, else 1).
    pub tokens: usize,
}

/// The per-vertex layout and the body offsets of the vertex records.
#[derive(Debug)]
pub struct VertexPlan {
    pub fields: Vec<Field>,
    pub count: u64,
    pub stride: usize,
    pub tokens_per_vertex: usize,
    pub has_color: bool,
    /// Bytes (binary) or record lines (ASCII) before the vertex records.
    pub skip_bytes: u128,
    pub skip_records: u128,
}

pub struct PlanModel {
    pub fields: Seq<Field>,
    pub count: u64,
    pub stride: nat,
    pub tokens_per_vertex: nat,
    pub has_color: bool,
    pub skip_bytes: nat,
    pub skip_records: nat,
}

impl View for VertexPlan {
    type V = PlanModel;

    open spec fn view(&self) -> PlanModel {
        PlanModel {
            fields: self.fields@,
            count: self.count,
            stride: self.stride as nat,
            tokens_per_vertex: self.tokens_per_vertex as nat,
            has_color: self.has_color,
            skip_bytes: self.skip_bytes as nat,
            skip_records: self.skip_records as nat,
        }
    }
}

/// The `Malformed` error with the given reason.
pub fn malformed(reason: String) -> (e: PointCloudError)
    ensures
        e@ == (PointCloudErrorModel::Malformed { reason: reason@ }),
{
    PointCloudError::Malformed { reason }
}

/// `Malformed` with a fixed reason.
pub fn malformed_str(reason: &str) -> (e: PointCloudError)
    ensures
        e@ == (PointCloudErrorModel::Malformed { reason: reason@ }),
{
    malformed(text_of(reason))
}

/// The point cloud a PLY file holds, or why it is rejected.
pub open spec fn parse_ply_spec(bytes: Seq<u8>) -> Result<PointCloudModel, PointCloudErrorModel> {
    match parse_header_spec(bytes) {
        Err(m) => Err(PointCloudErrorModel::Malformed { reason: m }),
        Ok(h) => match plan_spec(h) {
            Err(m) => Err(PointCloudErrorModel::Malformed { reason: m }),
            Ok(p) => {
                let data = bytes.skip(h.data_start as int);
                let body = match h.format {
                    PlyFormat::Ascii => ascii_spec(data, p),
                    PlyFormat::BinaryLe => binary_spec(data, p),
                };
                match body {
                    Err(m) => Err(PointCloudErrorModel::Malformed { reason: m }),
                    Ok(b) => Ok(
                        PointCloudModel { positions: b.positions, colors: b.colors, format: Format::Ply },
                    ),
                }
            },
        },
    }
}

pub open spec fn cloud_result_view(r: Result<PointCloudData, PointCloudError>) -> Result<
    PointCloudModel,
    PointCloudErrorModel,
> {
    match r {
        Ok(d) => Ok(d@),
        Err(e) => Err(e@),
    }
}

/// A loaded cloud is in the PLY format, holds one point per vertex the
/// header declares, and has colors exactly when the vertex layout has
/// them, one per point.
pub proof fn law_one_point_per_declared_vertex(bytes: Seq<u8>)
    ensures
        parse_ply_spec(bytes) matches Ok(m) ==> {
            &&& m.format == Format::Ply
            &&& parse_header_spec(bytes) matches Ok(h)
            &&& plan_spec(h) matches Ok(p)
            &&& m.positions.len() == p.count
            &&& m.colors is Some <==> p.has_color
            &&& m.colors matches Some(c) ==> c.len() == m.positions.len()
        },
{
    if let Ok(h) = parse_header_spec(bytes) {
        if let Ok(p) = plan_spec(h) {
            let data = bytes.skip(h.data_start as int);
            lemma_ascii_records_len(lines(data).skip(p.skip_records as int), p, p.count as nat);
        }
    }
}

/// Parse a PLY file: header, vertex plan, then the ASCII or binary body.
pub fn parse_ply(bytes: &[u8]) -> (res: Result<PointCloudData, PointCloudError>)
    ensures
        cloud_result_view(res) == parse_ply_spec(bytes@),
{
    let header = match parse_header(bytes) {
        Ok(h) => h,
        Err(e) => return Err(e),
    };
    let plan = match plan_vertex(&header) {
        Ok(p) => p,
        Err(e) => return Err(e),
    };
    let data = slice_subrange(bytes, header.data_start, bytes.len());
    assert(data@ =~= bytes@.skip(header.data_start as int));
    let body = match header.format {
        PlyFormat::Ascii => read_ascii_vertices(data, &plan),
        PlyFormat::BinaryLe => read_binary_vertices(data, &plan),
    };
    match body {
        Ok((positions, colors)) => Ok(PointCloudData { positions, colors, format: Format::Ply }),
        Err(e) => Err(e),
    }
}

/// A message: `prefix`, the bytes shown as text, then `suffix`.
pub fn quoted(prefix: &str, bytes: &[u8], suffix: &str) -> (s: String)
    ensures
        s@ == prefix@ + lossy_text(bytes@) + suffix@,
        valid_utf8(bytes@) ==> s@ == prefix@ + decode_utf8(bytes@) + suffix@,
{
    let mut s = text_of(prefix);
    let shown = lossy(bytes);
    push_str(&mut s, shown.as_str());
    push_str(&mut s, suffix);
    s
}

} // verus!
