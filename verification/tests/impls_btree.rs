use std::collections::{BTreeMap, BTreeSet};

use funcmap::{FuncMap, TryFuncMap, TypeParam};

#[test]
fn btree_map_values_are_mapped() {
    let m: BTreeMap<i32, i32> = [(1, 10), (2, 20)].into_iter().collect();
    let out = FuncMap::<i32, String, TypeParam<1>>::func_map(m, |v: i32| v.to_string());
    let expected: BTreeMap<i32, String> = [(1, "10".to_string()), (2, "20".to_string())].into_iter().collect();
    assert_eq!(out, expected);
}

#[test]
fn btree_map_keys_are_mapped_and_a_later_entry_wins_on_equal_keys() {
    let m: BTreeMap<i32, char> = [(1, 'a'), (2, 'b'), (3, 'c')].into_iter().collect();
    let out = FuncMap::<i32, i32, TypeParam<0>>::func_map(m, |k: i32| k / 2);
    let expected: BTreeMap<i32, char> = [(0, 'a'), (1, 'c')].into_iter().collect();
    assert_eq!(out, expected);
}

#[test]
fn btree_set_items_are_mapped() {
    let s: BTreeSet<i32> = [1, 2, 3].into_iter().collect();
    let out = FuncMap::<i32, i32>::func_map(s, |x: i32| x % 2);
    let expected: BTreeSet<i32> = [0, 1].into_iter().collect();
    assert_eq!(out, expected);
}

#[test]
fn btree_map_values_fail_with_the_first_error_in_key_order() {
    let m: BTreeMap<i32, i32> = [(3, 30), (1, 10), (2, 20)].into_iter().collect();
    let res = TryFuncMap::<i32, i32, TypeParam<1>>::try_func_map(m, |v: i32| if v > 15 { Err(v) } else { Ok(v + 1) });
    assert_eq!(res, Err(20));
}

#[test]
fn btree_map_values_are_mapped_fallibly() {
    let m: BTreeMap<i32, i32> = [(1, 10), (2, 20)].into_iter().collect();
    let res = TryFuncMap::<i32, i32, TypeParam<1>>::try_func_map(m, |v: i32| Ok::<i32, ()>(v + 1));
    let expected: BTreeMap<i32, i32> = [(1, 11), (2, 21)].into_iter().collect();
    assert_eq!(res, Ok(expected));
}

#[test]
fn btree_map_keys_fail_with_the_first_error_in_key_order() {
    let m: BTreeMap<i32, char> = [(5, 'a'), (2, 'b'), (9, 'c')].into_iter().collect();
    let res = TryFuncMap::<i32, i32, TypeParam<0>>::try_func_map(m, |k: i32| if k > 3 { Err(k) } else { Ok(k) });
    assert_eq!(res, Err(5));
}

#[test]
fn btree_set_items_fail_with_the_first_error_in_ascending_order() {
    let s: BTreeSet<i32> = [7, 4, 1].into_iter().collect();
    let res = TryFuncMap::<i32, i32>::try_func_map(s, |x: i32| if x > 2 { Err(x) } else { Ok(x) });
    assert_eq!(res, Err(4));
    let s: BTreeSet<i32> = [7, 4, 1].into_iter().collect();
    let res = TryFuncMap::<i32, i32>::try_func_map(s, |x: i32| Ok::<i32, ()>(x * 10));
    let expected: BTreeSet<i32> = [10, 40, 70].into_iter().collect();
    assert_eq!(res, Ok(expected));
}

#[test]
fn mapping_btree_collections_by_the_identity_keeps_them() {
    let m: BTreeMap<i32, i32> = [(1, 10), (2, 20)].into_iter().collect();
    let out = FuncMap::<i32, i32, TypeParam<1>>::func_map(m.clone(), |v: i32| v);
    assert_eq!(out, m);
    let out = FuncMap::<i32, i32, TypeParam<0>>::func_map(m.clone(), |k: i32| k);
    assert_eq!(out, m);
    let s: BTreeSet<i32> = [3, 1, 2].into_iter().collect();
    let out = FuncMap::<i32, i32>::func_map(s.clone(), |x: i32| x);
    assert_eq!(out, s);
}

#[test]
fn mapping_btree_collections_twice_is_mapping_by_the_composition() {
    let m: BTreeMap<i32, i32> = [(1, 10), (2, 20)].into_iter().collect();
    let twice = FuncMap::<i32, i32, TypeParam<1>>::func_map(
        FuncMap::<i32, i32, TypeParam<1>>::func_map(m.clone(), |v: i32| v + 1),
        |v: i32| v * 2,
    );
    let once = FuncMap::<i32, i32, TypeParam<1>>::func_map(m, |v: i32| (v + 1) * 2);
    assert_eq!(twice, once);
    let s: BTreeSet<i32> = [1, 2, 3].into_iter().collect();
    let twice = FuncMap::<i32, i32>::func_map(FuncMap::<i32, i32>::func_map(s.clone(), |x: i32| x * 3), |x: i32| x % 4);
    let once = FuncMap::<i32, i32>::func_map(s, |x: i32| (x * 3) % 4);
    assert_eq!(twice, once);
}
