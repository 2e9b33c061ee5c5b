//! The loaded-data model shared by the parsers, and the typed load errors.
//!
//! Numbers are kept exactly as the file states them ([`ScalarValue`]): an
//! integer field as its value, a floating-point field as its text (ASCII
//! bodies) or its bit pattern (binary bodies). Turning them into `f32`
//! positions and 8-bit colors, and the bounding box over the finite
//! positions, is the host's job.
use vstd::prelude::*;
use vstd::string::StringSliceAdditionalSpecFns;
use vstd::utf8::encode_utf8_decode_utf8;

pub mod obj;
pub mod path_xyz;
pub mod ply;
pub mod text;



verus! {

/// Point cloud file format.
#[derive(Debug, Clone, Copy, PartialEq, Eq, Structural)]
pub enum Format {
    Ply,
    Pcd,
}

/// Per-point color as sRGB bytes.
#[derive(Debug, Clone, Copy, PartialEq, Eq, Structural)]
pub struct Color {
    pub r: u8,
    pub g: u8,
    pub b: u8,
}

/// One numeric field value exactly as a file stores it.
#[derive(Debug, Clone, PartialEq)]
pub enum ScalarValue {
    /// The value of an integer-typed field.
    Integer(i64),
    /// The text of a single-precision field, valid under the float grammar
    /// ([`text::float_text`]).
    FloatText(Vec<u8>),
    /// The text of a double-precision field, valid under the float grammar.
    DoubleText(Vec<u8>),
    /// The IEEE-754 bit pattern of a single-precision binary field.
    FloatBits(u32),
    /// The IEEE-754 bit pattern of a double-precision binary field.
    DoubleBits(u64),
}

/// The mathematical value of a [`ScalarValue`].
pub enum ScalarModel {
    Integer(int),
    FloatText(Seq<u8>),
    DoubleText(Seq<u8>),
    FloatBits(u32),
    DoubleBits(u64),
}

impl View for ScalarValue {
    type V = ScalarModel;

    open spec fn view(&self) -> ScalarModel {
        match self {
            ScalarValue::Integer(v) => ScalarModel::Integer(*v as int),
            ScalarValue::FloatText(t) => ScalarModel::FloatText(t@),
            ScalarValue::DoubleText(t) => ScalarModel::DoubleText(t@),
            ScalarValue::FloatBits(b) => ScalarModel::FloatBits(*b),
            ScalarValue::DoubleBits(b) => ScalarModel::DoubleBits(*b),
        }
    }
}

/// A point (or normal) with its three coordinates as stored in the file.
#[derive(Debug, Clone, PartialEq)]
pub struct Point3 {
    pub x: ScalarValue,
    pub y: ScalarValue,
    pub z: ScalarValue,
}

pub struct Point3Model {
    pub x: ScalarModel,
    pub y: ScalarModel,
    pub z: ScalarModel,
}

impl View for Point3 {
    type V = Point3Model;

    open spec fn view(&self) -> Point3Model {
        Point3Model { x: self.x@, y: self.y@, z: self.z@ }
    }
}

/// A per-point color with its three channels as stored in the file.
#[derive(Debug, Clone, PartialEq)]
pub struct ColorSample {
    pub r: ScalarValue,
    pub g: ScalarValue,
    pub b: ScalarValue,
}

pub struct ColorSampleModel {
    pub r: ScalarModel,
    pub g: ScalarModel,
    pub b: ScalarModel,
}

impl View for ColorSample {
    type V = ColorSampleModel;

    open spec fn view(&self) -> ColorSampleModel {
        ColorSampleModel { r: self.r@, g: self.g@, b: self.b@ }
    }
}

pub open spec fn points_view(v: Seq<Point3>) -> Seq<Point3Model> {
    v.map_values(|p: Point3| p@)
}

pub open spec fn colors_view(v: Seq<ColorSample>) -> Seq<ColorSampleModel> {
    v.map_values(|c: ColorSample| c@)
}

/// Loaded point cloud data.
#[derive(Debug, Clone)]
pub struct PointCloudData {
    pub positions: Vec<Point3>,
    /// Optional per-point color, same length as `positions`.
    pub colors: Option<Vec<ColorSample>>,
    pub format: Format,
}

pub struct PointCloudModel {
    pub positions: Seq<Point3Model>,
    pub colors: Option<Seq<ColorSampleModel>>,
    pub format: Format,
}

impl View for PointCloudData {
    type V = PointCloudModel;

    open spec fn view(&self) -> PointCloudModel {
        PointCloudModel {
            positions: points_view(self.positions@),
            colors: match &self.colors {
                Some(c) => Some(colors_view(c@)),
                None => None,
            },
            format: self.format,
        }
    }
}

impl PointCloudData {
    pub fn point_count(&self) -> (n: usize)
        ensures
            n == self.positions@.len(),
    {
        self.positions.len()
    }
}

/// A loaded OBJ mesh: vertices, optional normals, optional triangle list of
/// 0-based vertex indices (three per face).
#[derive(Debug, Clone)]
pub struct MeshData {
    pub positions: Vec<Point3>,
    /// Present when the file has `vn` records.
    pub normals: Option<Vec<Point3>>,
    /// Present when the file has `f` records; `None` makes the file a
    /// scatter of points.
    pub indices: Option<Vec<u32>>,
}

pub struct MeshModel {
    pub positions: Seq<Point3Model>,
    pub normals: Option<Seq<Point3Model>>,
    pub indices: Option<Seq<u32>>,
}

impl View for MeshData {
    type V = MeshModel;

    open spec fn view(&self) -> MeshModel {
        MeshModel {
            positions: points_view(self.positions@),
            normals: match &self.normals {
                Some(n) => Some(points_view(n@)),
                None => None,
            },
            indices: match &self.indices {
                Some(i) => Some(i@),
                None => None,
            },
        }
    }
}

impl MeshData {
    /// Number of vertices.
    pub fn vertex_count(&self) -> (n: usize)
        ensures
            n == self.positions@.len(),
    {
        self.positions.len()
    }

    /// Number of triangles (0 for a scatter).
    pub fn face_count(&self) -> (n: usize)
        ensures
            n == match &self.indices {
                Some(i) => i@.len() / 3,
                None => 0,
            },
    {
        match &self.indices {
            Some(i) => i.len() / 3,
            None => 0,
        }
    }
}

/// A loaded polyline: the points in file order.
#[derive(Debug, Clone)]
pub struct PathData {
    pub points: Vec<Point3>,
}

pub struct PathModel {
    pub points: Seq<Point3Model>,
}

impl View for PathData {
    type V = PathModel;

    open spec fn view(&self) -> PathModel {
        PathModel { points: points_view(self.points@) }
    }
}

impl PathData {
    pub fn point_count(&self) -> (n: usize)
        ensures
            n == self.points@.len(),
    {
        self.points.len()
    }
}

/// A loaded file of any of the file-backed display kinds.
#[derive(Debug, Clone)]
pub enum LoadedObject {
    PointCloud(PointCloudData),
    Mesh(MeshData),
    Path(PathData),
}

/// Typed point cloud loading errors.
#[derive(Debug)]
pub enum PointCloudError {
    UnsupportedFormat { extension: String },
    Malformed { reason: String },
}

pub enum PointCloudErrorModel {
    UnsupportedFormat { extension: Seq<char> },
    Malformed { reason: Seq<char> },
}

impl View for PointCloudError {
    type V = PointCloudErrorModel;

    open spec fn view(&self) -> PointCloudErrorModel {
        match self {
            PointCloudError::UnsupportedFormat { extension } => PointCloudErrorModel::UnsupportedFormat {
                extension: extension@,
            },
            PointCloudError::Malformed { reason } => PointCloudErrorModel::Malformed {
                reason: reason@,
            },
        }
    }
}

/// Typed OBJ loading errors: a line-anchored rejection (1-based physical
/// line), or counts beyond the platform's limits.
#[derive(Debug)]
pub enum ObjError {
    Malformed { line: usize, reason: String },
    Limit { reason: String },
}

pub enum ObjErrorModel {
    Malformed { line: nat, reason: Seq<char> },
    Limit { reason: Seq<char> },
}

impl View for ObjError {
    type V = ObjErrorModel;

    open spec fn view(&self) -> ObjErrorModel {
        match self {
            ObjError::Malformed { line, reason } => ObjErrorModel::Malformed {
                line: *line as nat,
                reason: reason@,
            },
            ObjError::Limit { reason } => ObjErrorModel::Limit { reason: reason@ },
        }
    }
}

/// Typed XYZ/CSV path loading errors.
#[derive(Debug)]
pub enum PathError {
    Malformed { line: usize, reason: String },
    Limit { reason: String },
    TooFewPoints { points: usize },
}

pub enum PathErrorModel {
    Malformed { line: nat, reason: Seq<char> },
    Limit { reason: Seq<char> },
    TooFewPoints { points: nat },
}

impl View for PathError {
    type V = PathErrorModel;

    open spec fn view(&self) -> PathErrorModel {
        match self {
            PathError::Malformed { line, reason } => PathErrorModel::Malformed {
                line: *line as nat,
                reason: reason@,
            },
            PathError::Limit { reason } => PathErrorModel::Limit { reason: reason@ },
            PathError::TooFewPoints { points } => PathErrorModel::TooFewPoints {
                points: *points as nat,
            },
        }
    }
}

/// A character's ASCII lower-case form: `A`–`Z` become `a`–`z`, every
/// other character is kept.
pub open spec fn ascii_lower_char(c: char) -> char {
    if 65 <= (c as u32) && (c as u32) <= 90 {
        ((c as u32) + 32) as char
    } else {
        c
    }
}

/// Text in its ASCII lower-case form.
pub open spec fn ascii_lowercase(s: Seq<char>) -> Seq<char> {
    s.map_values(|c: char| ascii_lower_char(c))
}

/// `str::to_ascii_lowercase`.
///
/// Claims what its documentation states: each ASCII letter `A`–`Z` is
/// mapped to `a`–`z` and every other character is unchanged.
#[verifier::external_body]
fn to_ascii_lowercase(s: &str) -> (r: String)
    ensures
        r@ == ascii_lowercase(s@),
{
    s.to_ascii_lowercase()
}

/// The point cloud format a file extension names, compared ASCII
/// case-insensitively; any other extension is an unsupported format,
/// reported in lower case.
pub fn format_for_extension(extension: &str) -> (res: Result<Format, PointCloudError>)
    ensures
        ascii_lowercase(extension@) == "ply"@ ==> res matches Ok(Format::Ply),
        ascii_lowercase(extension@) == "pcd"@ ==> res matches Ok(Format::Pcd),
        ascii_lowercase(extension@) != "ply"@ && ascii_lowercase(extension@) != "pcd"@ ==> (res
            matches Err(e) && e@ == (PointCloudErrorModel::UnsupportedFormat {
            extension: ascii_lowercase(extension@),
        })),
{
    let lower = to_ascii_lowercase(extension);
    let bytes = lower.as_str().as_bytes();
    proof {
        encode_utf8_decode_utf8(lower@);
        encode_utf8_decode_utf8("ply"@);
        encode_utf8_decode_utf8("pcd"@);
        reveal_strlit("ply");
        reveal_strlit("pcd");
        assert("ply"@[1] != "pcd"@[1]);
    }
    if text::is_keyword(bytes, "ply") {
        Ok(Format::Ply)
    } else if text::is_keyword(bytes, "pcd") {
        Ok(Format::Pcd)
    } else {
        Err(PointCloudError::UnsupportedFormat { extension: lower })
    }
}

} // verus!
