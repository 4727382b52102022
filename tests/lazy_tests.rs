use infinite_arrays::{cache, BroadcastArray, CachedArray, Fill, InfiniteDiagonal, Shape, INFINITY};
use std::cell::Cell;

#[test]
fn fill_gives_its_value_everywhere() {
    let f = Fill::new(2.5f64, None);
    assert_eq!(f.get(0), 2.5);
    assert_eq!(f.get(1_000_000), 2.5);
    assert!(matches!(f.shape(), Shape::OneD(Some(_))));
    assert_eq!(f.dtype(), "f64");
}

#[test]
fn broadcast_computes_from_index() {
    let b = BroadcastArray::new(|i: usize| (i * i) as f64, Shape::OneD(Some(INFINITY)));
    assert_eq!(b.get(0), 0.0);
    assert_eq!(b.get(7), 49.0);
    assert!(matches!(b.shape(), Shape::OneD(Some(_))));
}

#[test]
fn cached_array_reads_base_once_and_accepts_writes() {
    let calls = Cell::new(0usize);
    let mut a = CachedArray::new(
        |i: usize| {
            calls.set(calls.get() + 1);
            i as f64 + 0.5
        },
        Shape::OneD(Some(INFINITY)),
    );
    assert_eq!(a.get(3), 3.5);
    assert_eq!(a.get(3), 3.5);
    assert_eq!(calls.get(), 1);
    a.set(3, -1.0);
    assert_eq!(a.get(3), -1.0);
    a.set(10, 42.0);
    assert_eq!(a.get(10), 42.0);
    assert_eq!(calls.get(), 1);
    let mut b = cache(|i: usize| i as f64, Shape::OneD(None));
    assert_eq!(b.get(4), 4.0);
    assert!(matches!(b.shape(), Shape::OneD(None)));
}

#[test]
fn infinite_diagonal_entries() {
    let calls = Cell::new(0usize);
    let mut d = InfiniteDiagonal::new(
        |k: usize| {
            calls.set(calls.get() + 1);
            (k + 1) as f64
        },
        0.0,
    );
    assert_eq!(d.get(0, 0), 1.0);
    assert_eq!(d.get(4, 4), 5.0);
    assert_eq!(d.get(4, 5), 0.0);
    assert_eq!(d.get(9, 2), 0.0);
    assert_eq!(d.get(4, 4), 5.0);
    assert_eq!(calls.get(), 2);
    match d.shape() {
        Shape::MultiD(dims) => assert_eq!(dims.len(), 2),
        _ => panic!("a diagonal matrix has two dimensions"),
    }
}
