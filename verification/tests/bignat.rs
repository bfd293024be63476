use bignat::BigInt;
use bignat::SomethingOrNothing;

/// The integer a limb vector denotes, recomputed with 128-bit arithmetic;
/// only usable on vectors short enough for the shifts to stay in range.
fn denoted_value(s: &Vec<u64>) -> u128 {
    let mut acc: u128 = 0;
    let mut i: usize = s.len();
    while i > 0 {
        i -= 1;
        acc = (acc << 64) + s[i] as u128;
    }
    acc
}

#[test]
fn new_zero_has_no_limbs() {
    let b = BigInt::new(0);
    assert_eq!(b.data, Vec::<u64>::new());
    assert!(b.test_invariant());
}

#[test]
fn new_nonzero_is_one_limb() {
    let b = BigInt::new(1337);
    assert_eq!(b.data, vec![1337u64]);
    assert!(b.test_invariant());
}

#[test]
fn from_vec_keeps_a_leading_zero_limb() {
    let b = BigInt::from_vec(vec![0, 65536]);
    assert_eq!(b.data, vec![0u64, 65536]);
    assert!(b.test_invariant());
}

#[test]
fn from_vec_strips_all_trailing_zeros() {
    let b = BigInt::from_vec(vec![7, 3, 3, 1, 0, 0]);
    assert_eq!(b.data, vec![7u64, 3, 3, 1]);
    assert!(b.test_invariant());
}

#[test]
fn from_vec_of_all_zeros_is_zero() {
    let b = BigInt::from_vec(vec![0, 0, 0]);
    assert_eq!(b.data, Vec::<u64>::new());
    assert!(b.test_invariant());
}

#[test]
fn from_vec_of_nothing_is_zero() {
    let b = BigInt::from_vec(Vec::new());
    assert_eq!(b.data, Vec::<u64>::new());
    assert!(b.test_invariant());
}

#[test]
fn from_vec_is_idempotent_on_its_own_result() {
    let b = BigInt::from_vec(vec![4, 0, 2, 0]);
    let c = BigInt::from_vec(b.data.clone());
    assert_eq!(c.data, b.data);
}

#[test]
fn from_vec_preserves_the_denoted_integer() {
    let v: Vec<u64> = vec![3, 5, 0];
    let b = BigInt::from_vec(v.clone());
    assert_eq!(denoted_value(&b.data), denoted_value(&v));
    assert_eq!(denoted_value(&b.data), 3 + (5u128 << 64));
}

#[test]
fn clone_copies_the_limbs_into_a_distinct_buffer() {
    let b = BigInt::from_vec(vec![5, 0, 9]);
    let mut c = b.clone();
    assert_eq!(c.data, vec![5u64, 0, 9]);
    assert!(c.test_invariant());
    c.data.push(1);
    assert_eq!(b.data, vec![5u64, 0, 9]);
    assert_eq!(c.data, vec![5u64, 0, 9, 1]);
}

#[test]
fn optional_duplication_preserves_variant_and_payload() {
    let o = SomethingOrNothing::Something(BigInt::new(42));
    let d = o.clone();
    match (&o, &d) {
        (SomethingOrNothing::Something(a), SomethingOrNothing::Something(b)) => {
            assert_eq!(a.data, b.data);
            assert_eq!(b.data, vec![42u64]);
        }
        _ => panic!("duplication changed the variant"),
    }
    let n: SomethingOrNothing<BigInt> = SomethingOrNothing::Nothing;
    assert!(matches!(n.clone(), SomethingOrNothing::Nothing));
}
