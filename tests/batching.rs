use layout_engine::mesh::{Batch, Color, Mesh, MeshTrait, Vertex};

fn vertex(x: i64, y: i64) -> Vertex {
    Vertex {
        x,
        y,
        xy_scale: 1,
        color: Color { r: 1, g: 2, b: 3, a: 4 },
        u: 0,
        v: 0,
        u_scale: 1,
        v_scale: 1,
        texture_id: -1,
    }
}

fn mesh(first: i64, count: i64, indices: Vec<u16>) -> Mesh<Vertex> {
    Mesh { vertices: (first..first + count).map(|i| vertex(i, -i)).collect(), indices }
}

#[test]
fn add_appends_vertices_and_rebases_indices() {
    let a = mesh(0, 4, vec![0, 1, 2, 2, 3, 0]);
    let b = mesh(10, 3, vec![0, 1, 2]);
    let mut batch: Batch<Vertex> = Batch::new();
    batch.add(&a);
    assert!(batch.indices.iter().all(|&i| (i as usize) < batch.vertices.len()));
    batch.add(&b);
    assert!(batch.indices.iter().all(|&i| (i as usize) < batch.vertices.len()));
    let mut expected = a.vertices.clone();
    expected.extend(b.vertices.iter().copied());
    assert_eq!(batch.vertices, expected);
    assert_eq!(batch.indices, vec![0, 1, 2, 2, 3, 0, 4, 5, 6]);
}

#[test]
fn add_twice_equals_add_of_merged_mesh() {
    let a = mesh(0, 4, vec![0, 1, 2, 2, 3, 0]);
    let c = mesh(100, 3, vec![2, 1, 0]);
    let mut start: Batch<Vertex> = Batch::new();
    start.add(&mesh(50, 2, vec![1, 0]));
    let mut stepwise = start.clone();
    stepwise.add(&a);
    stepwise.add(&c);
    let mut merged_vertices = a.vertices.clone();
    merged_vertices.extend(c.vertices.iter().copied());
    let mut merged_indices = a.indices.clone();
    merged_indices.extend(c.indices.iter().map(|i| i + 4));
    let merged = Mesh { vertices: merged_vertices, indices: merged_indices };
    let mut at_once = start.clone();
    at_once.add(&merged);
    assert_eq!(stepwise.vertices, at_once.vertices);
    assert_eq!(stepwise.indices, at_once.indices);
    assert_eq!(stepwise.indices, vec![1, 0, 2, 3, 4, 4, 5, 2, 8, 7, 6]);
}

#[test]
fn add_empty_mesh_changes_nothing() {
    let mut batch: Batch<Vertex> = Batch::new();
    batch.add(&mesh(0, 3, vec![0, 1, 2]));
    let before = batch.clone();
    batch.add(&mesh(0, 0, vec![]));
    assert_eq!(batch.vertices, before.vertices);
    assert_eq!(batch.indices, before.indices);
}

#[test]
fn add_up_to_index_limit() {
    let mut batch: Batch<Vertex> = Batch::new();
    batch.add(&mesh(0, 65533, vec![]));
    batch.add(&mesh(0, 3, vec![0, 1, 2]));
    assert_eq!(batch.vertices.len(), 65536);
    assert_eq!(batch.indices, vec![65533, 65534, 65535]);
}

#[test]
fn clear_empties_both_buffers() {
    let mut batch: Batch<Vertex> = Batch::new();
    batch.add(&mesh(0, 4, vec![0, 1, 2, 2, 3, 0]));
    batch.clear();
    assert!(batch.vertices.is_empty());
    assert!(batch.indices.is_empty());
}

#[test]
fn mesh_getters_copy_buffers() {
    let mut m = mesh(5, 3, vec![2, 0, 1]);
    assert_eq!(m.get_indices(), vec![2, 0, 1]);
    let vs = m.get_vertices();
    assert_eq!(vs.len(), 3);
    assert_eq!(vs[2], vertex(7, -7));
}
