use vanrijn::util::polyhedra::triangle_fan;

#[test]
fn fan_of_a_pentagon_has_three_triangles_around_the_first_vertex() {
    let pentagon = [10u32, 11, 12, 13, 14];
    assert_eq!(
        triangle_fan(&pentagon),
        vec![[10, 11, 12], [10, 12, 13], [10, 13, 14]]
    );
}

#[test]
fn fan_of_a_triangle_is_the_triangle() {
    assert_eq!(triangle_fan(&[1i64, 2, 3]), vec![[1, 2, 3]]);
}

#[test]
fn fewer_than_three_vertices_give_no_triangle() {
    assert!(triangle_fan::<u8>(&[]).is_empty());
    assert!(triangle_fan(&[7u8]).is_empty());
    assert!(triangle_fan(&[7u8, 8]).is_empty());
}
