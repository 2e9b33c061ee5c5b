//! Display types: the closed set of objects a scene can hold. The
//! file-backed kinds (point clouds, meshes, paths) pair their loaded CPU
//! data with an optional handle to uploaded GPU geometry; the handle type
//! is the host's (`M`/`G`), and it starts empty: uploading is the
//! renderer's job, never the display's.
use vstd::prelude::*;

use crate::io::{MeshData, PathData, PointCloudData};

verus! {

/// The kind of a display object: the type column of the object list and
/// the row key of the render handle ledger.
#[derive(Debug, Clone, Copy, PartialEq, Eq, Hash, Structural)]
pub enum DisplayKind {
    /// A point cloud (PLY/PCD).
    PointCloud,
    /// A triangle mesh (OBJ); face-less files show as a scatter, but the
    /// kind stays a mesh.
    Mesh,
    /// One open polyline (CSV/XYZ).
    Path,
    /// A world-aligned XYZ coordinate frame (UI-added).
    Frame,
    /// A marker: an overlay text label or an arrow with a head (UI-added).
    Marker,
}

impl DisplayKind {
    /// The stable ASCII key of a kind.
    pub open spec fn key(self) -> Seq<char> {
        match self {
            DisplayKind::PointCloud => "point_cloud"@,
            DisplayKind::Mesh => "mesh"@,
            DisplayKind::Path => "path"@,
            DisplayKind::Frame => "frame"@,
            DisplayKind::Marker => "marker"@,
        }
    }

    /// Stable ASCII key of this kind: the handle-ledger row name and the
    /// log/debug label. Not UI text.
    pub fn as_str(self) -> (s: &'static str)
        ensures
            s@ == self.key(),
    {
        match self {
            DisplayKind::PointCloud => "point_cloud",
            DisplayKind::Mesh => "mesh",
            DisplayKind::Path => "path",
            DisplayKind::Frame => "frame",
            DisplayKind::Marker => "marker",
        }
    }
}

/// No two kinds share a key: the key identifies the kind, so ledger rows
/// never alias.
pub proof fn law_kind_keys_are_distinct(a: DisplayKind, b: DisplayKind)
    requires
        a != b,
    ensures
        a.key() != b.key(),
{
    reveal_strlit("point_cloud");
    reveal_strlit("mesh");
    reveal_strlit("path");
    reveal_strlit("frame");
    reveal_strlit("marker");
    assert(a.key().len() != b.key().len() || a.key()[0] != b.key()[0] || a.key()[1] != b.key()[1]);
}

/// A point cloud display: the loaded data together with the GPU mesh
/// uploaded for it, if any.
pub struct PointCloud<M> {
    /// CPU-side point data as loaded by `io`.
    pub data: PointCloudData,
    /// GPU representation of `data`, present once the renderer has uploaded
    /// it.
    pub mesh: Option<M>,
}

impl<M> PointCloud<M> {
    /// Wrap freshly loaded data; the mesh starts empty.
    pub fn from_data(data: PointCloudData) -> (c: Self)
        ensures
            c.data == data,
            c.mesh is None,
    {
        PointCloud { data, mesh: None }
    }
}

/// A mesh display: the loaded OBJ data together with the GPU handle
/// uploaded for it (surfaces or, for a face-less file, a scatter), if any.
pub struct Mesh<G> {
    /// CPU-side mesh data as loaded by `io`.
    pub data: MeshData,
    /// GPU representation of `data`, present once uploaded.
    pub gpu: Option<G>,
}

impl<G> Mesh<G> {
    /// Wrap freshly loaded data; the GPU handle starts empty.
    pub fn from_data(data: MeshData) -> (m: Self)
        ensures
            m.data == data,
            m.gpu is None,
    {
        Mesh { data, gpu: None }
    }
}

/// A path display: the loaded polyline together with the GPU line mesh
/// uploaded for it, if any.
pub struct Path<G> {
    /// CPU-side polyline as loaded by `io`, in file order.
    pub data: PathData,
    /// GPU representation of `data`, present once uploaded.
    pub gpu: Option<G>,
}

impl<G> Path<G> {
    /// Wrap freshly loaded data; the GPU handle starts empty.
    pub fn from_data(data: PathData) -> (p: Self)
        ensures
            p.data == data,
            p.gpu is None,
    {
        Path { data, gpu: None }
    }
}

} // verus!
