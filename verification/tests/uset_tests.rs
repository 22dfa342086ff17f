use gailibrary::utils::uset::{USet, INITIAL_CAPACITY};

fn uset(keys: &[usize]) -> USet {
    USet::from_slice(keys)
}

#[test]
fn set_from_and_to_vec() {
    let v = vec![0, 3, 8, 10];
    let s: USet = USet::from_slice(&v);

    assert_eq!(s.len(), 4);
    assert_eq!(s.capacity(), 11);

    assert!(s.contains(0));
    assert!(s.contains(3));
    assert!(s.contains(8));
    assert!(s.contains(10));
    assert!(!s.contains(9));

    let v2: Vec<usize> = s.into();

    assert_eq!(&v2, &v);
}

#[test]
fn should_substract() {
    let s1 = uset(&[0, 3, 8, 10]);
    let s2 = uset(&[3, 8]);
    let s5 = USet::new();

    let s3 = &s1 - &s2;

    assert_eq!(s3.len(), 2);
    assert!(s3.contains(0));
    assert!(s3.contains(10));

    let s4 = &s1 - &s2;

    assert_eq!(s4.len(), 2);
    assert!(s4.contains(0));
    assert!(s4.contains(10));

    assert_eq!((&s1 - &s5), s1.clone());
    assert_eq!((&s5 - &s5), USet::new());
}

#[test]
fn should_compile() {
    let s4 = vec![0usize, 3, 8, 10];
    for _i in 1..10 {
        let _s5: USet = USet::from_slice(&s4);
    }
}

#[test]
fn should_be_equal() {
    let s1 = uset(&[0, 3, 8, 10]);
    let s2 = uset(&[0, 3, 8, 10]);
    assert_eq!(&s1, &s2);
    assert!(s1 == s2);
}

#[test]
fn should_find_min() {
    let s1 = uset(&[0, 3, 8, 10]);
    assert_eq!(s1.iter().next(), Some(0));
    let s2 = uset(&[3, 8, 10]);
    assert_eq!(s2.iter().next(), Some(3));
    let s3 = USet::new();
    let mut s3iter = s3.iter();
    assert_eq!(s3iter.next(), None);
    assert_eq!(s3iter.next(), None);

    let mut s2iter = s2.iter();
    assert_eq!(s2iter.next(), Some(3));
    assert_eq!(s2iter.next(), Some(8));
    assert_eq!(s2iter.next(), Some(10));
    assert_eq!(s2iter.next(), None);
    assert_eq!(s2iter.next(), None);

    let s4 = uset(&[0]);
    let mut s4iter = s4.iter();
    assert_eq!(s4iter.next(), Some(0));
    assert_eq!(s4iter.next(), None);
    assert_eq!(s4iter.next(), None);
}

#[test]
fn should_find_max() {
    let s1 = uset(&[0, 3, 8, 10]);
    assert_eq!(s1.iter().next_back(), Some(10));
    let s2 = uset(&[0]);
    assert_eq!(s2.iter().next_back(), Some(0));
    let s3 = USet::new();
    let mut s3iter = s3.iter();
    assert_eq!(s3iter.next_back(), None);
    assert_eq!(s3iter.next_back(), None);

    let mut s2iter = s2.iter();
    assert_eq!(s2iter.next_back(), Some(0));
    assert_eq!(s2iter.next_back(), None);
    assert_eq!(s2iter.next_back(), None);
}

#[test]
fn should_add() {
    let s1 = uset(&[0, 3, 8, 10]);
    let s2 = uset(&[1, 4]);
    let s3 = uset(&[3, 5]);
    let s4 = USet::new();

    assert_eq!((&s1 + &s2), uset(&[0, 1, 3, 4, 8, 10]));
    assert_eq!((&s1 + &s3), uset(&[0, 3, 5, 8, 10]));
    assert_eq!((&s1 + &s4), s1.clone());
    assert_eq!((&s1 + &s1), s1.clone());
    assert_eq!((&s4 + &s4), s4.clone());
}

#[test]
fn should_mul() {
    let s1 = uset(&[0, 3, 8, 10]);
    let s2 = uset(&[3, 8]);
    assert_eq!((&s1 * &s2), uset(&[3, 8]));

    let s3 = uset(&[1, 2, 3]);
    assert_eq!((&s1 * &s3), uset(&[3]));

    let s4 = USet::new();
    assert_eq!((&s1 * &s4), USet::new());

    assert_eq!((&s1 * &s1), s1.clone());

    let s5 = uset(&[2, 4, 6]);
    assert_eq!((&s1 * &s5), USet::new());

    let s6 = uset(&[10]);
    assert_eq!((&s1 * &s6), s6.clone());
}

#[test]
fn should_xor() {
    let s1 = uset(&[0, 3, 8, 10]);

    let s2 = uset(&[3, 8]);
    assert_eq!((&s1 ^ &s2), uset(&[0, 10]));

    let s3 = uset(&[1, 2, 3]);
    assert_eq!((&s1 ^ &s3), uset(&[0, 1, 2, 8, 10]));

    let s4 = USet::new();
    assert_eq!((&s1 ^ &s4), s1.clone());

    assert_eq!((&s1 ^ &s1), USet::new());

    let s5 = uset(&[2, 4, 6]);
    assert_eq!((&s1 ^ &s5), uset(&[0, 2, 3, 4, 6, 8, 10]));

    let s6 = uset(&[10]);
    assert_eq!((&s1 ^ &s6), uset(&[0, 3, 8]));
}

#[test]
fn new_set_is_empty_with_initial_capacity() {
    let s = USet::new();
    assert!(s.is_empty());
    assert_eq!(s.len(), 0);
    assert_eq!(s.capacity(), INITIAL_CAPACITY);
    assert_eq!(s.min(), None);
    assert_eq!(s.max(), None);
    assert!(!s.contains(0));
    assert!(!USet::with_capacity(0).contains(0));
}

#[test]
fn add_grows_the_window_both_ways() {
    let mut s = USet::with_capacity(0);
    s.add(10);
    assert_eq!(s.to_vec(), vec![10]);
    assert_eq!(s.capacity(), INITIAL_CAPACITY);
    s.add(3);
    assert_eq!(s.to_vec(), vec![3, 10]);
    assert_eq!(s.capacity(), 8);
    s.add(25);
    assert_eq!(s.to_vec(), vec![3, 10, 25]);
    assert_eq!(s.capacity(), 23);
    // the key right behind the window
    s.add(26);
    assert_eq!(s.to_vec(), vec![3, 10, 25, 26]);
    s.add(10);
    assert_eq!(s.len(), 4);
    assert_eq!(s.min(), Some(3));
    assert_eq!(s.max(), Some(26));
    s.add(12);
    assert_eq!(s.to_vec(), vec![3, 10, 12, 25, 26]);
}

#[test]
fn add_reaches_the_largest_key() {
    let mut s = USet::from_fields(vec![false, false, true], usize::MAX - 4);
    assert_eq!(s.to_vec(), vec![usize::MAX - 2]);
    s.add(usize::MAX);
    assert_eq!(s.to_vec(), vec![usize::MAX - 2, usize::MAX]);
    assert!(s.contains(usize::MAX));
    assert!(!s.contains(usize::MAX - 1));
}

#[test]
fn remove_moves_the_bounds() {
    let mut s = uset(&[2, 5, 9]);
    s.remove(7);
    assert_eq!(s.len(), 3);
    s.remove(2);
    assert_eq!(s.min(), Some(5));
    assert_eq!(s.max(), Some(9));
    s.remove(9);
    assert_eq!(s.min(), Some(5));
    assert_eq!(s.max(), Some(5));
    s.remove(5);
    assert!(s.is_empty());
    assert_eq!(s.min(), None);
    assert_eq!(s, USet::new());
    s.remove(5);
    assert!(s.is_empty());
    s.add(4);
    assert_eq!(s.to_vec(), vec![4]);
}

#[test]
fn pop_takes_the_nth_member() {
    let mut s = uset(&[8, 0, 10, 3]);
    assert_eq!(s.find_by_index(2), Some(8));
    assert_eq!(s.pop(1), Some(3));
    assert_eq!(s.to_vec(), vec![0, 8, 10]);
    assert_eq!(s.pop(3), None);
    assert_eq!(s.pop(2), Some(10));
    assert_eq!(s.pop(0), Some(0));
    assert_eq!(s.pop(0), Some(8));
    assert_eq!(s.pop(0), None);
    assert!(s.is_empty());
}

#[test]
fn prune_fits_the_window() {
    let mut s = USet::from_range(20..23);
    assert_eq!(s.capacity(), INITIAL_CAPACITY);
    s.prune();
    assert_eq!(s.capacity(), 3);
    assert_eq!(s.to_vec(), vec![20, 21, 22]);
    let mut none = USet::new();
    none.prune();
    assert_eq!(none.capacity(), INITIAL_CAPACITY);
}

#[test]
fn from_range_and_from_fields() {
    let s = USet::from_range(3..12);
    assert_eq!(s.len(), 9);
    assert_eq!(s.capacity(), 9);
    assert_eq!(s.min(), Some(3));
    assert_eq!(s.max(), Some(11));
    assert!(!s.contains(12));
    assert!(USet::from_range(5..5).is_empty());
    assert_eq!(USet::from_range(5..5).capacity(), 0);

    let f = USet::from_fields(vec![false, true, false, true, false], 10);
    assert_eq!(f.to_vec(), vec![11, 13]);
    assert_eq!(f.capacity(), 5);
    assert_eq!(f, uset(&[13, 11]));
    let none = USet::from_fields(vec![false, false], 10);
    assert!(none.is_empty());
    assert_eq!(none, USet::new());
}

#[test]
fn from_slice_counts_a_key_once() {
    let s = uset(&[4, 4, 2, 4]);
    assert_eq!(s.len(), 2);
    assert_eq!(s.to_vec(), vec![2, 4]);
    assert_eq!(uset(&[9]).capacity(), 1);
    assert_eq!(uset(&[]).capacity(), 0);
    assert_eq!(uset(&[5, 5]).capacity(), INITIAL_CAPACITY);
}

#[test]
fn add_all_joins_the_entries() {
    let mut s = uset(&[10, 12]);
    s.add_all(&[11, 10]);
    assert_eq!(s.to_vec(), vec![10, 11, 12]);
    s.add_all(&[2, 30, 11]);
    assert_eq!(s.to_vec(), vec![2, 10, 11, 12, 30]);
    assert_eq!(s.len(), 5);
    s.add_all(&[]);
    assert_eq!(s.len(), 5);
    let mut none = USet::new();
    none.add_all(&[7, 3]);
    assert_eq!(none.to_vec(), vec![3, 7]);
}

#[test]
fn algebra_allocates_no_more_than_the_result_spans() {
    let s1 = uset(&[0, 3, 8, 10]);
    let s2 = uset(&[3, 8, 20]);
    assert_eq!(s1.union(&s2).capacity(), 21);
    assert_eq!(s1.difference(&s2).capacity(), 11);
    assert_eq!(s1.common_part(&s2).capacity(), 6);
    assert_eq!(s1.xor_set(&s2).capacity(), 21);
    assert_eq!(s1.difference(&s1).capacity(), 0);
    assert_eq!(s2.difference(&s1).to_vec(), vec![20]);
    assert_eq!(s2.difference(&s1).capacity(), 1);
}

#[test]
fn set_laws_on_examples() {
    let a = uset(&[1, 4, 6, 40]);
    let b = uset(&[4, 5, 6, 7]);
    assert_eq!(a.union(&a), a);
    assert!(a.difference(&a).is_empty());
    assert!(a.xor_set(&a).is_empty());
    assert_eq!(a.union(&b), b.union(&a));
    assert_eq!(a.common_part(&b), b.common_part(&a));
    assert_eq!(a.xor_set(&b), b.xor_set(&a));
    assert_eq!(a.xor_set(&b), a.union(&b).difference(&a.common_part(&b)));
    assert_eq!(a.xor_set(&b).to_vec(), vec![1, 5, 7, 40]);
}

#[test]
fn from_and_to_vec() {
    let keys: Vec<usize> = vec![17, 3, 120, 0, 44, 45, 9];
    let mut sorted = keys.clone();
    sorted.sort();
    assert_eq!(USet::from_slice(&keys).to_vec(), sorted);
    let mut it_keys = Vec::new();
    let set = USet::from_slice(&keys);
    let mut it = set.iter();
    while let Some(k) = it.next() {
        it_keys.push(k);
    }
    assert_eq!(it_keys, sorted);
}

#[test]
fn iterator_runs_from_both_ends() {
    let s = uset(&[1, 2, 5, 9]);
    let mut it = s.iter();
    assert_eq!(it.next(), Some(1));
    assert_eq!(it.next_back(), Some(9));
    assert_eq!(it.next_back(), Some(5));
    assert_eq!(it.next(), Some(2));
    assert_eq!(it.next(), None);
    assert_eq!(it.next_back(), None);
}
