use snowfall::geometry::line_mesh::LineMesh;
use snowfall::geometry::mesh_builder::MeshBuilder;
use snowfall::geometry::triangle_mesh::{MeshVertex, TriangleMesh};

type P = (i32, i32, i32);

fn v(x: i32, y: i32, z: i32) -> MeshVertex<P> {
    MeshVertex { position: (x, y, z), color: (0, 0, 0) }
}

fn quad() -> TriangleMesh<P> {
    TriangleMesh::new(vec![v(0, 0, 0), v(1, 0, 0), v(1, 1, 0), v(0, 0, 0), v(1, 1, 0), v(0, 1, 0)])
}

fn pairs(indices: &[u32]) -> Vec<(u32, u32)> {
    let mut p: Vec<(u32, u32)> = indices.chunks(2).map(|c| (c[0], c[1])).collect();
    p.sort();
    p
}

#[test]
fn wireframe_has_each_triangle_edge_once() {
    let mesh = quad();
    let lines = LineMesh::from_triangle_mesh(&mesh);
    assert_eq!(lines.vertices.len(), 6);
    assert_eq!(pairs(&lines.indices), vec![(0, 1), (0, 2), (1, 2), (3, 4), (3, 5), (4, 5)]);
}

#[test]
fn wireframe_ignores_partial_triangle() {
    let mut mesh = quad();
    mesh.vertices.push(v(5, 5, 5));
    let lines = LineMesh::from_triangle_mesh(&mesh);
    assert_eq!(lines.vertices.len(), 7);
    assert_eq!(lines.indices.len(), 12);
}

#[test]
fn remove_nonorthographic_keeps_axis_parallel_segments() {
    let mut lines = LineMesh::from_triangle_mesh(&quad());
    lines.remove_nonorthographic_lines(|a: P, b: P| {
        let same = [a.0 == b.0, a.1 == b.1, a.2 == b.2];
        same.iter().filter(|s| **s).count() == 2
    });
    assert_eq!(pairs(&lines.indices), vec![(0, 1), (1, 2), (3, 5), (4, 5)]);
    let buffer = lines.to_line_buffer();
    assert_eq!(buffer.position_array.len(), 6);
    assert_eq!(buffer.index_array, lines.indices);
}

#[test]
fn remove_drops_pairs_past_vertices() {
    let mut lines = LineMesh { vertices: vec![v(0, 0, 0), v(1, 0, 0)], indices: vec![0, 1, 0, 5, 1] };
    lines.remove_nonorthographic_lines(|_a: P, _b: P| true);
    assert_eq!(lines.indices, vec![0, 1]);
}

#[test]
fn triangle_buffer_numbers_vertices() {
    let buffer = quad().to_triangle_buffer();
    assert_eq!(buffer.index_array, vec![0, 1, 2, 3, 4, 5]);
    assert_eq!(buffer.position_array[2], (1, 1, 0));
    assert_eq!(buffer.color_array.len(), 6);
}

#[test]
fn selection_add_all_and_color() {
    let mut mesh = quad();
    {
        let sel = mesh.vertex_selection().add(|vx: &MeshVertex<P>| vx.position.0 == 1);
        assert_eq!(sel.count(), 3);
        assert_eq!(sel.indices, vec![1, 2, 4]);
        let sel = sel.add(|vx: &MeshVertex<P>| vx.position.1 == 1);
        assert_eq!(sel.indices, vec![1, 2, 4, 5]);
        let sel = sel.set_color((9, 9, 9));
        assert!(!sel.is_empty());
    }
    let colored: Vec<usize> = (0..6).filter(|i| mesh.vertices[*i].color == (9, 9, 9)).collect();
    assert_eq!(colored, vec![1, 2, 4, 5]);
}

#[test]
fn selection_all_and_transform() {
    let mut mesh = quad();
    {
        let sel = mesh.vertex_selection();
        assert!(sel.is_empty());
        let sel = sel.all();
        assert_eq!(sel.count(), 6);
        assert_eq!(sel.selected_positions()[2], (1, 1, 0));
        let _ = sel.transform_positions(|p: P| (p.0 + 10, p.1, p.2));
    }
    assert_eq!(mesh.vertices[0].position, (10, 0, 0));
    assert_eq!(mesh.vertices[5].position, (10, 1, 0));
}

#[test]
fn mesh_builder_register_and_get() {
    let mut b: MeshBuilder<P> = MeshBuilder::new();
    assert!(b.get("quad").is_none());
    b.register("quad", quad());
    assert_eq!(b.get("quad").unwrap().vertices.len(), 6);
    b.register("quad", TriangleMesh::new(vec![v(0, 0, 0)]));
    assert_eq!(b.get("quad").unwrap().vertices.len(), 1);
    b.register("other", quad());
    assert_eq!(b.get("quad").unwrap().vertices.len(), 1);
    assert_eq!(b.get("other").unwrap().vertices.len(), 6);
}

#[test]
fn cleanup_twice_is_cleanup_once() {
    let ortho = |a: P, b: P| [a.0 == b.0, a.1 == b.1, a.2 == b.2].iter().filter(|s| **s).count() == 2;
    let mut lines = LineMesh::from_triangle_mesh(&quad());
    lines.remove_nonorthographic_lines(ortho);
    let once = lines.indices.clone();
    lines.remove_nonorthographic_lines(ortho);
    assert_eq!(lines.indices, once);
}
