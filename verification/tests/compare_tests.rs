use self_compare::ext::SliceCompareExt;
use std::cell::RefCell;

#[test]
fn lib_empty() {
    let v: [i32; 0] = [];
    let mut c = v.self_comparer();

    assert!(c.next().is_none())
}

#[test]
fn lib_one_element() {
    let v = [1];
    let mut c = v.self_comparer();

    assert!(c.next().is_none())
}

#[test]
fn lib_two_elements() {
    let v = [1, 2];
    let mut c = v.self_comparer();

    assert_eq!(c.next(), Some((&1, &2)));
    assert!(c.next().is_none());
}

#[test]
fn lib_compare_and_enumerate_yield_the_same() {
    let v: Vec<_> = (0..100).collect();

    let regular_comparisons = RefCell::new(Vec::new());
    let enumerated_comparisons = RefCell::new(Vec::new());

    v.compare_self(|a: &i32, b: &i32| {
        regular_comparisons.borrow_mut().push((*a, *b));
    });
    v.compare_self_enumerated(|(_, a): (usize, &i32), (_, b): (usize, &i32)| {
        enumerated_comparisons.borrow_mut().push((*a, *b));
    });

    assert_eq!(
        regular_comparisons.into_inner(),
        enumerated_comparisons.into_inner()
    )
}
