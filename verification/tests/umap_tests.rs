use gailibrary::utils::umap::UMap;
use gailibrary::utils::uset::USet;

#[test]
fn basic_operations() {
    let mut map = UMap::new() as UMap<bool>;
    assert!(map.is_empty());
    map.put(5, true);
    assert!(!map.is_empty());
    assert_eq!(map.len(), 1);
    assert!(map.contains(5));
    assert!(!map.contains(4));
    map.put(2, false);
    assert_eq!(map.len(), 2);
    assert_eq!(map.get(2), Some(false));
    let re1 = map.remove(5);
    assert_eq!(re1, Some(true));
    assert_eq!(map.len(), 1);
    let re2 = map.remove(1);
    assert_eq!(re2, None);
    map.remove(2);
    assert!(map.is_empty());

    assert_eq!(map.get(12), None);
}

#[test]
fn basic_iterator() {
    let vec = vec![None, None, Some(2), None, Some(4), Some(5)];
    let mut iter = vec.iter().enumerate().filter_map(|(i, &v)| {
        if v.is_some() {
            Some((i, v.unwrap()))
        } else {
            None
        }
    });
    assert_eq!(iter.next(), Some((2, 2)));
    assert_eq!(iter.next(), Some((4, 4)));
    assert_eq!(iter.next(), Some((5, 5)));
    assert_eq!(iter.next(), None);
}

#[test]
fn better_iterator() {
    let mut map = UMap::new();
    map.put(2, 2);
    map.put(4, 4);
    map.put(5, 5);

    let mut iter = map.iter();

    assert_eq!(iter.next(), Some((2, &2)));
    assert_eq!(iter.next(), Some((4, &4)));
    assert_eq!(iter.next(), Some((5, &5)));
    assert_eq!(iter.next(), None);
}

#[test]
fn min_max() {
    let map: UMap<&str> = UMap::from_vec(&vec![(2, "a"), (4, "b"), (5, "c")]);

    assert_eq!(map.min(), Some(2));
    assert_eq!(map.max(), Some(5));
}

#[test]
fn min_max_when_empty() {
    let map: UMap<&str> = UMap::new();

    assert_eq!(map.min(), None);
    assert_eq!(map.max(), None);
}

#[test]
fn join_maps() {
    let map1: UMap<i32> = UMap::from_vec(&vec![(2, 2), (4, 4), (5, 5)]);
    let mut iter1 = map1.iter();
    assert_eq!(iter1.next(), Some((2, &2)));
    assert_eq!(iter1.next(), Some((4, &4)));
    assert_eq!(iter1.next(), Some((5, &5)));
    assert_eq!(iter1.next(), None);

    let map2: UMap<i32> = UMap::from_vec(&vec![(1, 1), (3, 3), (5, 5), (8, 8)]);
    let mut iter2 = map2.iter();
    assert_eq!(iter2.next(), Some((1, &1)));
    assert_eq!(iter2.next(), Some((3, &3)));
    assert_eq!(iter2.next(), Some((5, &5)));
    assert_eq!(iter2.next(), Some((8, &8)));
    assert_eq!(iter2.next(), None);

    let map3 = &map1 + &map2;
    assert_eq!(map3.len(), 6);
    let mut iter3 = map3.iter();
    assert_eq!(iter3.next(), Some((1, &1)));
    assert_eq!(iter3.next(), Some((2, &2)));
    assert_eq!(iter3.next(), Some((3, &3)));
    assert_eq!(iter3.next(), Some((4, &4)));
    assert_eq!(iter3.next(), Some((5, &5)));
    assert_eq!(iter3.next(), Some((8, &8)));
    assert_eq!(iter3.next(), None);
}

#[test]
fn common_part_of_maps() {
    let map1: UMap<i32> = UMap::from_vec(&vec![(2, 2), (4, 4), (5, 5)]);
    let map2: UMap<i32> = UMap::from_vec(&vec![(1, 1), (3, 3), (5, 5), (8, 8)]);

    let map3 = &map1 * &map2;
    assert_eq!(map3.len(), 1);
    let mut iter3 = map3.iter();
    assert_eq!(iter3.next(), Some((5, &5)));
    assert_eq!(iter3.next(), None);
}

#[test]
fn substract_maps() {
    let map1: UMap<i32> = UMap::from_vec(&vec![(2, 2), (4, 4), (5, 5)]);
    let map2: UMap<i32> = UMap::from_vec(&vec![(1, 1), (3, 3), (5, 5), (8, 8)]);

    let map3 = &map1 - &map2;
    assert_eq!(map3.len(), 2);
    let mut iter3 = map3.iter();
    assert_eq!(iter3.next(), Some((2, &2)));
    assert_eq!(iter3.next(), Some((4, &4)));
    assert_eq!(iter3.next(), None);
}

#[test]
fn xor_maps() {
    let map1: UMap<i32> = UMap::from_vec(&vec![(2, 2), (4, 4), (5, 5)]);
    let map2: UMap<i32> = UMap::from_vec(&vec![(1, 1), (3, 3), (5, 5), (8, 8)]);

    let map3 = &map1 ^ &map2;
    assert_eq!(map3.len(), 5);
    let mut iter3 = map3.iter();
    assert_eq!(iter3.next(), Some((1, &1)));
    assert_eq!(iter3.next(), Some((2, &2)));
    assert_eq!(iter3.next(), Some((3, &3)));
    assert_eq!(iter3.next(), Some((4, &4)));
    assert_eq!(iter3.next(), Some((8, &8)));
    assert_eq!(iter3.next(), None);
    assert_eq!(iter3.next(), None);
}

#[test]
fn put_grows_and_counts_a_key_once() {
    let mut map: UMap<u8> = UMap::with_capacity(2);
    assert_eq!(map.capacity(), 2);
    map.put(7, 1);
    assert_eq!(map.capacity(), 8);
    assert_eq!(map.len(), 1);
    assert_eq!(map.get(7), Some(1));
    map.put(7, 9);
    assert_eq!(map.len(), 1);
    assert_eq!(map.get(7), Some(9));
    assert_eq!(map.get_ref(7), Some(&9));
    assert_eq!(map.get_ref(6), None);
    map.put(0, 3);
    assert_eq!(map.len(), 2);
    assert_eq!(map.capacity(), 8);
}

#[test]
fn from_vec_lets_the_last_pair_win() {
    let map: UMap<i32> = UMap::from_vec(&vec![(3, 1), (1, 2), (3, 7)]);
    assert_eq!(map.len(), 2);
    assert_eq!(map.capacity(), 4);
    assert_eq!(map.get(3), Some(7));
    assert_eq!(map.get(1), Some(2));
    let none: Vec<(usize, i32)> = Vec::new();
    let empty = UMap::from_vec(&none);
    assert!(empty.is_empty());
    assert_eq!(empty.capacity(), 1);
}

#[test]
fn union_takes_the_value_of_the_first_map() {
    let map1: UMap<i32> = UMap::from_vec(&vec![(2, 20), (5, 50)]);
    let map2: UMap<i32> = UMap::from_vec(&vec![(5, 55), (6, 66)]);
    let joined = map1.union(&map2);
    assert_eq!(joined.get(5), Some(50));
    assert_eq!(joined.get(6), Some(66));
    assert_eq!(joined.len(), 3);
    assert!(!map1.debug_compare(&map2));
    assert!(map1.debug_compare(&map1));
    assert!(map1 == map1.clone());
    assert!(map1 != map2);
}

#[test]
fn subset_by_no_keys_is_empty() {
    let map1: UMap<i32> = UMap::from_vec(&vec![(2, 2), (4, 4)]);
    let none = USet::new();
    assert!(map1.subset(&none).is_empty());
    assert_eq!(map1.substract(&none).len(), 2);
}

#[test]
fn to_set_holds_the_keys() {
    let map: UMap<i32> = UMap::from_vec(&vec![(2, 2), (4, 4), (9, 9)]);
    let keys = map.to_set();
    assert_eq!(keys.to_vec(), vec![2, 4, 9]);
    let keys: USet = map.into();
    assert_eq!(keys, USet::from(2..10).difference(&USet::from_slice(&[3, 5, 6, 7, 8])));
    let empty: UMap<i32> = UMap::with_capacity(3);
    assert!(empty.to_set().is_empty());
}

#[test]
fn entries_run_from_both_ends() {
    let map: UMap<i32> = UMap::from_vec(&vec![(2, 2), (4, 4), (9, 9)]);
    let mut it = map.iter();
    assert_eq!(it.next_back(), Some((9, &9)));
    assert_eq!(it.next(), Some((2, &2)));
    assert_eq!(it.next_back(), Some((4, &4)));
    assert_eq!(it.next(), None);
    assert_eq!(it.next_back(), None);
}

#[test]
fn results_have_the_slots_of_their_operands() {
    let map1: UMap<i32> = UMap::from_vec(&vec![(2, 2), (4, 4)]);
    let map2: UMap<i32> = UMap::from_vec(&vec![(1, 1), (8, 8)]);
    let none: UMap<i32> = UMap::with_capacity(3);
    assert_eq!(map1.capacity(), 5);
    assert_eq!(map2.capacity(), 9);
    assert_eq!(map1.union(&map2).capacity(), 9);
    assert_eq!(map2.union(&map1).capacity(), 9);
    assert_eq!(map1.union(&none).capacity(), 5);
    assert_eq!(none.union(&map1).capacity(), 5);
    assert_eq!(map1.xor(&map2).capacity(), 9);
    assert_eq!(map1.subset(&map2.to_set()).capacity(), 5);
    assert_eq!(map1.subset(&USet::new()).capacity(), 0);
    assert_eq!(map1.substract(&map2.to_set()).capacity(), 5);
    assert_eq!(none.substract(&map2.to_set()).capacity(), 0);
    assert_eq!(none.substract(&USet::new()).capacity(), 3);
}

#[test]
fn copies_are_equal() {
    let map: UMap<i32> = UMap::from_vec(&vec![(2, 2), (4, 4)]);
    let copy = map.copied();
    assert!(copy == map);
    assert_eq!(copy.capacity(), map.capacity());
    assert_eq!(copy.len(), 2);
    let none: UMap<i32> = UMap::default();
    assert!(none.is_empty());
    assert_eq!(none.capacity(), 0);
    assert!(USet::default().is_empty());
}
