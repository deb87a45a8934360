use std::collections::{HashMap, HashSet};

use funcmap::{FuncMap, TypeParam};

#[test]
fn hash_map_values_are_mapped() {
    let m: HashMap<i32, i32> = [(1, 10), (2, 20)].into_iter().collect();
    let out = FuncMap::<i32, String, TypeParam<1>>::func_map(m, |v: i32| v.to_string());
    let expected: HashMap<i32, String> = [(1, "10".to_string()), (2, "20".to_string())].into_iter().collect();
    assert_eq!(out, expected);
}

#[test]
fn hash_map_keys_are_mapped() {
    let m: HashMap<i32, char> = [(1, 'a'), (2, 'b')].into_iter().collect();
    let out = FuncMap::<i32, i64, TypeParam<0>>::func_map(m, |k: i32| i64::from(k) * 100);
    let expected: HashMap<i64, char> = [(100, 'a'), (200, 'b')].into_iter().collect();
    assert_eq!(out, expected);
}

#[test]
fn hash_map_keys_that_become_equal_keep_one_of_their_values() {
    let m: HashMap<i32, char> = [(1, 'a'), (3, 'b')].into_iter().collect();
    let out = FuncMap::<i32, i32, TypeParam<0>>::func_map(m, |k: i32| k % 2);
    assert_eq!(out.len(), 1);
    assert!(out[&1] == 'a' || out[&1] == 'b');
}

#[test]
fn hash_set_items_are_mapped() {
    let s: HashSet<i32> = [1, 2, 3].into_iter().collect();
    let out = FuncMap::<i32, i32>::func_map(s, |x: i32| x % 2);
    let expected: HashSet<i32> = [0, 1].into_iter().collect();
    assert_eq!(out, expected);
}
