use bigint::BigInt;

#[test]
fn new_zero_has_no_digits() {
    let b = BigInt::new(0);
    assert_eq!(b.data, Vec::<u64>::new());
    assert!(b.test_invariant());
}

#[test]
fn new_non_zero_has_one_digit() {
    for v in [1u64, 5, 65536, 1 << 32, u64::MAX - 1, u64::MAX] {
        let b = BigInt::new(v);
        assert_eq!(b.data, vec![v]);
    }
}

#[test]
fn new_is_always_canonical() {
    for v in [0u64, 1, 2, 5, 255, 1 << 31, 1 << 32, 1 << 63, u64::MAX] {
        assert!(BigInt::new(v).test_invariant());
    }
}

#[test]
fn from_vec_is_always_canonical() {
    let inputs: Vec<Vec<u64>> = vec![
        vec![],
        vec![0],
        vec![0, 0, 0],
        vec![1],
        vec![1, 0],
        vec![0, 1],
        vec![0, 0, 5],
        vec![7, 0, 0],
        vec![1, 0, 2, 0, 0, 0],
        vec![u64::MAX, 0, u64::MAX, 0],
    ];
    for v in inputs {
        assert!(BigInt::from_vec(v).test_invariant());
    }
}

#[test]
fn from_vec_removes_exactly_the_trailing_zeros() {
    let inputs: Vec<Vec<u64>> = vec![
        vec![],
        vec![0],
        vec![0, 0],
        vec![3],
        vec![3, 0],
        vec![0, 3],
        vec![0, 3, 0],
        vec![0, 0, 3, 0, 0],
        vec![1, 2, 3, 4],
        vec![1, 0, 0, 4, 0, 0, 0, 0],
        vec![u64::MAX, 0],
    ];
    for v in inputs {
        let mut kept = v.len();
        while kept > 0 && v[kept - 1] == 0 {
            kept -= 1;
        }
        let b = BigInt::from_vec(v.clone());
        assert_eq!(b.data.len(), kept);
        assert_eq!(b.data[..], v[..kept]);
        assert!(v[kept..].iter().all(|d| *d == 0));
    }
}

#[test]
fn from_vec_keeps_zeros_below_the_top_digit() {
    assert_eq!(BigInt::from_vec(vec![0, 0, 5]).data, vec![0, 0, 5]);
    assert_eq!(BigInt::from_vec(vec![0, 1]).data, vec![0, 1]);
    assert_eq!(BigInt::from_vec(vec![1, 0, 2, 0, 0]).data, vec![1, 0, 2]);
}

#[test]
fn from_vec_leaves_a_canonical_input_alone() {
    assert_eq!(BigInt::from_vec(vec![1, 2, 3]).data, vec![1, 2, 3]);
    assert_eq!(BigInt::from_vec(vec![u64::MAX]).data, vec![u64::MAX]);
}

#[test]
fn zeros_become_the_canonical_zero() {
    let zero = BigInt::new(0);
    for v in [vec![], vec![0u64], vec![0, 0, 0]] {
        let b = BigInt::from_vec(v);
        assert_eq!(b.data, Vec::<u64>::new());
        assert_eq!(b.data, zero.data);
    }
}

#[test]
fn from_vec_of_one_digit_agrees_with_new() {
    for v in [0u64, 1, 42, u64::MAX] {
        assert_eq!(BigInt::from_vec(vec![v]).data, BigInt::new(v).data);
    }
}

#[test]
fn from_vec_twice_is_from_vec_once() {
    for v in [vec![], vec![0u64, 0], vec![4, 0, 9, 0, 0], vec![1, 2]] {
        let once = BigInt::from_vec(v);
        let twice = BigInt::from_vec(once.data.clone());
        assert_eq!(twice.data, once.data);
    }
}

#[test]
fn from_vec_trims_a_long_run_of_zeros() {
    let mut v = vec![0u64; 10_000];
    v[17] = 9;
    let b = BigInt::from_vec(v);
    assert_eq!(b.get_num_of_digits(), 18);
    assert_eq!(b.get_num_of_non_zero(), 1);
    assert_eq!(b.data[17], 9);
}

#[test]
fn low_zero_then_two_to_the_sixteen() {
    let b = BigInt::from_vec(vec![0, 65536]);
    assert_eq!(b.data, vec![0, 65536]);
    assert_eq!(b.get_num_of_digits(), 2);
    assert_eq!(b.get_num_of_non_zero(), 1);
}

#[test]
fn seven_with_two_trailing_zeros() {
    let b = BigInt::from_vec(vec![7, 0, 0]);
    assert_eq!(b.data, vec![7]);
    assert_eq!(b.get_num_of_digits(), 1);
}

#[test]
fn test_invariant_rejects_a_trailing_zero() {
    assert!(!BigInt { data: vec![0] }.test_invariant());
    assert!(!BigInt { data: vec![1, 0] }.test_invariant());
    assert!(!BigInt { data: vec![1, 2, 0, 0] }.test_invariant());
}

#[test]
fn test_invariant_accepts_canonical_digits() {
    assert!(BigInt { data: vec![] }.test_invariant());
    assert!(BigInt { data: vec![1] }.test_invariant());
    assert!(BigInt { data: vec![0, 1] }.test_invariant());
    assert!(BigInt { data: vec![0, 0, u64::MAX] }.test_invariant());
}
