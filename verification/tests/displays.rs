use roboview_core::displays::{DisplayKind, Mesh, Path, PointCloud};
use roboview_core::io::{
    Format, MeshData, PathData, Point3, PointCloudData, ScalarValue,
};

fn point(x: i64, y: i64, z: i64) -> Point3 {
    Point3 {
        x: ScalarValue::Integer(x),
        y: ScalarValue::Integer(y),
        z: ScalarValue::Integer(z),
    }
}

#[test]
fn kinds_round_trip_through_as_str_without_aliases() {
    let kinds = [
        DisplayKind::PointCloud,
        DisplayKind::Mesh,
        DisplayKind::Path,
        DisplayKind::Frame,
        DisplayKind::Marker,
    ];
    let keys: Vec<&str> = kinds.iter().map(|kind| kind.as_str()).collect();
    assert_eq!(
        keys,
        ["point_cloud", "mesh", "path", "frame", "marker"],
        "ledger keys must stay stable"
    );
    let unique: std::collections::HashSet<&str> = keys.iter().copied().collect();
    assert_eq!(unique.len(), kinds.len(), "each kind has its own ledger key");
}

#[test]
fn mesh_from_data_stores_the_data_and_starts_without_a_gpu_handle() {
    let data = MeshData {
        positions: vec![point(0, 0, 0), point(1, 0, 0), point(0, 1, 0)],
        normals: None,
        indices: Some(vec![0, 1, 2]),
    };
    let mesh: Mesh<()> = Mesh::from_data(data);
    assert!(mesh.gpu.is_none());
    assert_eq!(mesh.data.face_count(), 1);
    assert_eq!(mesh.data.vertex_count(), 3);
}

#[test]
fn path_from_data_stores_the_data_and_starts_without_a_gpu_handle() {
    let data = PathData {
        points: vec![point(0, 0, 0), point(1, 0, 0), point(0, 1, 0)],
    };
    let path: Path<()> = Path::from_data(data);
    assert!(path.gpu.is_none());
    assert_eq!(path.data.point_count(), 3);
}

#[test]
fn point_cloud_from_data_starts_without_a_mesh() {
    let data = PointCloudData {
        positions: vec![point(0, 0, 0), point(1, 1, 1)],
        colors: None,
        format: Format::Ply,
    };
    let cloud: PointCloud<()> = PointCloud::from_data(data);
    assert!(cloud.mesh.is_none());
    assert_eq!(cloud.data.point_count(), 2);
    assert_eq!(cloud.data.format, Format::Ply);
}
