use funcmap::{FuncMap, TryFuncMap, TypeParam};

use std::collections::VecDeque;
use std::ops::{Bound, ControlFlow};
use std::task::Poll;

#[test]
fn vec_identity_and_composition() {
    let v = vec![1, 2, 3];
    assert_eq!(v.clone().func_map(|x| x), v);
    assert_eq!(
        v.clone().func_map(|x| x + 1).func_map(|x| x * 2),
        v.func_map(|x| (x + 1) * 2)
    );
}

#[test]
fn vec_deque_and_array_identity() {
    let d: VecDeque<i32> = vec![4, 5].into();
    assert_eq!(d.clone().func_map(|x| x), d);
    let a = [1, 2, 3];
    assert_eq!(a.func_map(|x| x), a);
    assert_eq!(a.func_map(|x| x * 10), [10, 20, 30]);
}

#[test]
fn option_identity_and_composition() {
    assert_eq!(Some(3).func_map(|x| x), Some(3));
    assert_eq!(None::<i32>.func_map(|x| x + 1), None);
    assert_eq!(Some(3).func_map(|x| x + 1).func_map(|x| x * 2), Some(8));
}

#[test]
fn result_params_commute() {
    let x: Result<i32, i32> = Err(5);
    let a = x
        .func_map_over::<TypeParam<0>, _>(|v| v + 1)
        .func_map_over::<TypeParam<1>, _>(|e| e * 2);
    let b = x
        .func_map_over::<TypeParam<1>, _>(|e| e * 2)
        .func_map_over::<TypeParam<0>, _>(|v| v + 1);
    assert_eq!(a, b);
    assert_eq!(a, Err(10));
}

#[test]
fn result_try_params_commute() {
    let x: Result<i32, i32> = Ok(7);
    let f = |v: i32| if v > 5 { Err("too big") } else { Ok(v) };
    let g = |e: i32| Ok::<i32, &str>(e);
    let a = x
        .try_func_map_over::<TypeParam<0>, _, _>(f)
        .and_then(|y| y.try_func_map_over::<TypeParam<1>, _, _>(g));
    let b = x
        .try_func_map_over::<TypeParam<1>, _, _>(g)
        .and_then(|y| y.try_func_map_over::<TypeParam<0>, _, _>(f));
    assert_eq!(a, b);
    assert_eq!(a, Err("too big"));
}

#[test]
fn control_flow_params_commute() {
    let x: ControlFlow<i32, i32> = ControlFlow::Continue(3);
    let a = x
        .func_map_over::<TypeParam<0>, _>(|v| v + 1)
        .func_map_over::<TypeParam<1>, _>(|c| c * 2);
    let b = x
        .func_map_over::<TypeParam<1>, _>(|c| c * 2)
        .func_map_over::<TypeParam<0>, _>(|v| v + 1);
    assert_eq!(a, b);
    assert_eq!(a, ControlFlow::Continue(6));
}

#[test]
fn bound_and_poll_identity_and_composition() {
    assert_eq!(Bound::Included(1).func_map(|x| x), Bound::Included(1));
    assert_eq!(Bound::Excluded(1).func_map(|x| x + 1).func_map(|x| x * 3), Bound::Excluded(6));
    assert_eq!(Bound::<i32>::Unbounded.func_map(|x| x + 1), Bound::Unbounded);
    assert_eq!(Poll::Ready(2).func_map(|x| x), Poll::Ready(2));
    assert_eq!(Poll::<i32>::Pending.func_map(|x| x + 1), Poll::Pending);
}

#[test]
fn ranges_identity_and_composition() {
    assert_eq!((1..4).func_map(|x| x), 1..4);
    assert_eq!((1..4).func_map(|x| x + 1).func_map(|x| x * 2), 4..10);
    assert_eq!((1..=4).func_map(|x| x), 1..=4);
    assert_eq!((1..).func_map(|x| x * 2), 2..);
    assert_eq!((..3).func_map(|x| x * 2), ..6);
    assert_eq!((..=3).func_map(|x| x * 2), ..=6);
    assert_eq!(Box::new(5).func_map(|x| x), Box::new(5));
}

#[test]
fn exhausted_range_inclusive_is_not_kept_by_identity() {
    let mut r = 1..=1;
    assert_eq!(r.next(), Some(1));
    assert_eq!(r.next(), None);
    let mapped = r.clone().func_map(|x| x);
    assert_ne!(mapped, r);
    assert_eq!(mapped, 1..=1);
}

#[test]
fn try_func_map_returns_first_error_in_order() {
    let v = vec![1, 7, 9];
    let res: Result<Vec<i32>, i32> = v.try_func_map(|x| if x > 5 { Err(x) } else { Ok(x) });
    assert_eq!(res, Err(7));
}
