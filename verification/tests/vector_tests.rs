use inline_collections::Vector;

#[test]
fn vector_wraps_buffer() {
    let v = Vector::new([1, 2, 3]);
    assert_eq!(v.items(), &[1, 2, 3]);
}

#[test]
fn vector_empty_buffer() {
    let v: Vector<i32, 0> = Vector::new([]);
    assert!(v.items().is_empty());
}
