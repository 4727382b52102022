use infinite_arrays::{get_infinity, InfStepRange, InfUnitRange, OneToInf, Ones, Shape, Zeros, INFINITY};

#[test]
fn one_to_inf_basics() {
    let r = OneToInf::new();
    assert_eq!(r.start(), 1);
    assert!(r.contains(1));
    assert!(!r.contains(0));
    assert_eq!(r.index(5), 4);
    assert_eq!(r.get(0), 1);
    assert_eq!(r.get(9), 10);
    assert_eq!(r.iter(4), vec![1, 2, 3, 4]);
    assert_eq!(OneToInf::default(), r);
}

#[test]
fn unit_range_basics() {
    let r = InfUnitRange::new(3, 1);
    assert_eq!(r.start(), 3);
    assert_eq!(r.step(), 1);
    assert!(r.contains(3));
    assert!(r.contains(100));
    assert!(!r.contains(2));
    assert_eq!(r.index(7), 4);
    assert_eq!(r.get(4), 7);
    assert_eq!(r.iter(3), vec![3, 4, 5]);
}

#[test]
fn unit_range_with_step() {
    let r = InfUnitRange::new(2, 3);
    assert!(r.contains(2));
    assert!(r.contains(11));
    assert!(!r.contains(10));
    assert!(!r.contains(1));
    assert_eq!(r.index(11), 3);
    assert_eq!(r.get(3), 11);
    assert_eq!(r.iter(4), vec![2, 5, 8, 11]);
}

#[test]
fn zero_step_below_start() {
    let r = InfUnitRange::new(5, 0);
    assert!(!r.contains(4));
    assert!(!r.contains(0));
}

#[test]
fn step_range_basics() {
    let r = InfStepRange::new(5, 4);
    assert_eq!(r.start(), 5);
    assert_eq!(r.step(), 4);
    assert!(r.contains(5));
    assert!(r.contains(13));
    assert!(!r.contains(12));
    assert!(!r.contains(1));
    assert_eq!(r.index(13), 2);
    assert_eq!(r.get(2), 13);
    assert_eq!(r.iter(3), vec![5, 9, 13]);
    assert_eq!(r.iter(0), Vec::<usize>::new());
}

#[test]
fn infinity_marker() {
    assert!(get_infinity() == INFINITY);
    assert_eq!(usize::from(INFINITY), usize::MAX);
}

#[test]
fn ones_and_zeros_shapes() {
    let ones = Ones::new(None);
    assert!(matches!(ones.shape(), Shape::OneD(Some(_))));
    assert_eq!(ones.dtype(), "f64");
    let zeros = Zeros::new(Some(Shape::MultiD(vec![Some(INFINITY), None])));
    match zeros.shape() {
        Shape::MultiD(dims) => {
            assert_eq!(dims.len(), 2);
            assert!(dims[0].is_some());
            assert!(dims[1].is_none());
        }
        _ => panic!("shape changed"),
    }
    assert!(matches!(Zeros::new(Some(Shape::Scalar)).shape(), Shape::Scalar));
}
