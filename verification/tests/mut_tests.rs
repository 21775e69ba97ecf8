use self_compare::ext::SliceCompareExt;
use std::cell::RefCell;

#[test]
fn empty() {
    let mut v: [i32; 0] = [];
    let mut c = v.self_comparer_mut();

    assert!(c.next().is_none())
}

#[test]
fn one_element() {
    let mut v = [1];
    let mut c = v.self_comparer_mut();

    assert!(c.next().is_none())
}

#[test]
fn two_elements() {
    let mut v = [1, 2];
    let mut c = v.self_comparer_mut();

    assert_eq!(c.next(), Some((&mut 1, &mut 2)));
    assert!(c.next().is_none());
}

#[test]
fn compare_and_enumerate_yield_the_same() {
    let mut v: Vec<_> = (0..100).collect();

    let regular_comparisons = RefCell::new(Vec::new());
    let enumerated_comparisons = RefCell::new(Vec::new());

    v.compare_self_mut(|a: &mut i32, b: &mut i32| {
        regular_comparisons.borrow_mut().push((*a, *b));
    });
    v.compare_self_enumerated_mut(|(_, a): (usize, &mut i32), (_, b): (usize, &mut i32)| {
        enumerated_comparisons.borrow_mut().push((*a, *b));
    });

    assert_eq!(
        regular_comparisons.into_inner(),
        enumerated_comparisons.into_inner()
    )
}

#[test]
fn all_compare_0() {
    all_compare(0);
}

#[test]
fn all_compare_1() {
    all_compare(1);
}

#[test]
fn all_compare_1000() {
    all_compare(1000);
}

fn all_compare(size: usize) {
    let mut vec = vec![Vec::with_capacity(size.saturating_sub(1)); size];

    vec.compare_self_enumerated_mut(
        |(i, a): (usize, &mut Vec<usize>), (j, b): (usize, &mut Vec<usize>)| {
            let id = a.binary_search(&j).unwrap_err();
            a.insert(id, j);
            let id = b.binary_search(&i).unwrap_err();
            b.insert(id, i);
        },
    );

    assert!(vec
        .into_iter()
        .enumerate()
        .map(|(i, v)| v.into_iter().zip((0..size).filter(move |x| x != &i)))
        .all(|mut v| v.all(|(a, b)| a == b)));
}
