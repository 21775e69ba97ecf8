//! Accessors: turn a borrow of the storage plus a pair of distinct
//! indices into two element views, read-only or independently mutable.
use vstd::prelude::*;

verus! {

/// Read-only views of the elements at indices `i` and `j`.
pub fn pair_views<'s, T>(list: &'s [T], i: usize, j: usize) -> (r: (&'s T, &'s T))
    requires
        i < j < list@.len(),
    ensures
        *r.0 == list@[i as int],
        *r.1 == list@[j as int],
{
    let a = vstd::slice::slice_index_get(list, i);
    let b = vstd::slice::slice_index_get(list, j);
    (a, b)
}

/// Two simultaneously live, independently mutable views of the elements
/// at indices `i` and `j`.
///
/// Because `i < j`, splitting the storage at `j` leaves the two elements
/// in disjoint sub-slices, so the two views never alias and no unchecked
/// escape is needed anywhere.
pub fn pair_views_mut<T>(list: &mut [T], i: usize, j: usize) -> (r: (&mut T, &mut T))
    requires
        i < j < old(list)@.len(),
    ensures
        *r.0 == old(list)@[i as int],
        *r.1 == old(list)@[j as int],
        final(list)@ == old(list)@.update(i as int, *final(r.0)).update(j as int, *final(r.1)),
{
    let ghost s = list@;
    let (left, right) = list.split_at_mut(j);
    let (_, mid) = left.split_at_mut(i);
    let a = mid.first_mut().unwrap();
    let b = right.first_mut().unwrap();
    proof {
        assert(s.subrange(0, i as int) + s.subrange(i as int, j as int).update(
            0,
            *final(a),
        ) + s.subrange(j as int, s.len() as int).update(0, *final(b)) =~= s.update(
            i as int,
            *final(a),
        ).update(j as int, *final(b)));
    }
    (a, b)
}

} // verus!
