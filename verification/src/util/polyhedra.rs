use vstd::prelude::*;

verus! {

/// The triangles of the fan of a polygon: triangle `k` joins the first
/// vertex to vertices `k + 1` and `k + 2`.
pub open spec fn fan_triangle<V>(vertices: Seq<V>, k: int) -> [V; 3] {
    [vertices[0], vertices[k + 1], vertices[k + 2]]
}

/// Cuts a convex polygon, given by its vertices in order around it, into the
/// triangles that fan out from its first vertex. A polygon of fewer than three
/// vertices gives no triangle.
pub fn triangle_fan<V: Copy>(vertices: &[V]) -> (r: Vec<[V; 3]>)
    ensures
        r@.len() == if vertices@.len() < 3 {
            0
        } else {
            vertices@.len() - 2
        },
        forall|k: int| 0 <= k < r@.len() ==> #[trigger] r@[k] == fan_triangle(vertices@, k),
{
    let mut triangles: Vec<[V; 3]> = Vec::new();
    if vertices.len() < 3 {
        return triangles;
    }
    let hinge = vertices[0];
    let count = vertices.len() - 2;
    let mut k: usize = 0;
    while k < count
        invariant
            vertices@.len() >= 3,
            count == vertices@.len() - 2,
            hinge == vertices@[0],
            k + 2 <= vertices@.len(),
            triangles@.len() == k,
            forall|j: int| 0 <= j < k ==> #[trigger] triangles@[j] == fan_triangle(vertices@, j),
        decreases vertices@.len() - k,
    {
        triangles.push([hinge, vertices[k + 1], vertices[k + 2]]);
        k = k + 1;
    }
    triangles
}

} // verus!
