use self_compare::ext::{compare, compare_enumerated, SliceCompareExt};
use self_compare::{Comparer, ComparerMut};
use std::cell::RefCell;

fn collect_pairs(v: &[i32]) -> Vec<(i32, i32)> {
    let mut c = Comparer::new(v);
    let mut out = Vec::new();
    while let Some((a, b)) = c.next() {
        out.push((*a, *b));
    }
    out
}

#[test]
fn pair_count_matches_formula() {
    for n in 0..12usize {
        let v: Vec<i32> = (0..n as i32).collect();
        assert_eq!(collect_pairs(&v).len(), n * (n - n.min(1)) / 2);
    }
}

#[test]
fn three_elements_in_order() {
    let v = [1, 2, 3];
    assert_eq!(collect_pairs(&v), vec![(1, 2), (1, 3), (2, 3)]);
}

#[test]
fn enumerated_order_is_lexicographic() {
    let v = [9, 9, 9, 9];
    let mut c = Comparer::new(&v);
    let mut indices = Vec::new();
    while let Some(((i, _), (j, _))) = c.next_enumerated() {
        indices.push((i, j));
    }
    assert_eq!(indices, vec![(0, 1), (0, 2), (0, 3), (1, 2), (1, 3), (2, 3)]);
}

#[test]
fn every_unordered_pair_appears_once() {
    let n = 7usize;
    let v: Vec<i32> = (0..n as i32).collect();
    let mut c = Comparer::new(&v);
    let mut seen = vec![vec![0usize; n]; n];
    while let Some(((i, _), (j, _))) = c.next_enumerated() {
        assert!(i < j && j < n);
        seen[i][j] += 1;
    }
    for i in 0..n {
        for j in 0..n {
            assert_eq!(seen[i][j], if i < j { 1 } else { 0 });
        }
    }
}

#[test]
fn rerun_reproduces_pairs() {
    let v = [3, 1, 4, 1, 5, 9, 2, 6];
    let first = collect_pairs(&v);
    let second = collect_pairs(&v);
    assert_eq!(first, second);
}

#[test]
fn mutable_and_immutable_agree() {
    let v = [5, 6, 7, 8];
    let immutable = collect_pairs(&v);

    let mut w = [5, 6, 7, 8];
    let mut c = ComparerMut::new(&mut w);
    let mut mutable = Vec::new();
    while let Some((a, b)) = c.next() {
        mutable.push((*a, *b));
    }
    assert_eq!(immutable, mutable);
}

#[test]
fn mutation_reaches_both_elements() {
    let mut v = [10, 20];
    let mut c = ComparerMut::new(&mut v);
    match c.next() {
        Some((a, b)) => {
            *a = 7;
            *b = 8;
        }
        None => unreachable!(),
    }
    assert!(c.next().is_none());
    assert_eq!(c.inner(), &mut [7, 8]);
    assert_eq!(v, [7, 8]);
}

#[test]
fn indices_track_the_cursor() {
    let v = [1, 2, 3];
    let mut c = Comparer::new(&v);
    assert_eq!(c.indices(), (0, 1));
    c.next();
    assert_eq!(c.indices(), (0, 2));
    c.next();
    assert_eq!(c.indices(), (1, 2));

    let mut w = [1, 2, 3];
    let mut m = ComparerMut::new(&mut w);
    assert_eq!(m.indices(), (0, 1));
    m.next();
    assert_eq!(m.indices(), (0, 2));
}

#[test]
fn inner_returns_the_slice() {
    let v = [4, 5, 6];
    let c = Comparer::new(&v);
    assert_eq!(c.inner(), &[4, 5, 6]);
}

#[test]
fn pull_style_stops_early() {
    let v: Vec<i32> = (0..10).collect();
    let mut c = Comparer::new(&v);
    let mut count = 0;
    while let Some((a, _)) = c.next() {
        if *a >= 2 {
            break;
        }
        count += 1;
    }
    assert!(count < 45);
}

#[test]
fn free_functions_match_methods() {
    let v = [2, 4, 6];
    let by_free = RefCell::new(Vec::new());
    let by_method = RefCell::new(Vec::new());
    compare(&v, |a: &i32, b: &i32| {
        by_free.borrow_mut().push((*a, *b));
    });
    v.compare_self(|a: &i32, b: &i32| {
        by_method.borrow_mut().push((*a, *b));
    });
    assert_eq!(by_free.into_inner(), by_method.into_inner());

    let with_indices = RefCell::new(Vec::new());
    compare_enumerated(&v, |(i, a): (usize, &i32), (j, b): (usize, &i32)| {
        with_indices.borrow_mut().push((i, *a, j, *b));
    });
    assert_eq!(
        with_indices.into_inner(),
        vec![(0, 2, 1, 4), (0, 2, 2, 6), (1, 4, 2, 6)]
    );
}

#[test]
fn terminal_state_is_sticky() {
    let v = [1, 2];
    let mut c = Comparer::new(&v);
    assert!(c.next().is_some());
    assert!(c.next().is_none());
    assert!(c.next().is_none());
    assert!(c.next().is_none());
}
