//! Pairwise traversal of a slice: every unordered index pair `(i, j)` with
//! `i < j` is visited exactly once, in lexicographic order, and the caller
//! is handed both elements of each pair — read-only through [`Comparer`],
//! or as two simultaneously live mutable views through [`ComparerMut`].
use vstd::prelude::*;

pub mod access;
pub mod ext;
pub mod pairs;

use crate::access::{pair_views, pair_views_mut};
use crate::pairs::{all_pairs, cursor_step, cursor_wf, paired_values, pairs_from};

verus! {

/// Immutable pairwise traversal over a borrowed slice.
///
/// Single-pass and non-restartable: a fresh `Comparer` is needed to
/// traverse again.
pub struct Comparer<'a, T> {
    list: &'a [T],
    i: usize,
    j: usize,
}

impl<'a, T> Comparer<'a, T> {
    /// The elements under traversal, as a sequence.
    pub closed spec fn elems(&self) -> Seq<T> {
        self.list@
    }

    /// The current cursor.
    pub closed spec fn cur(&self) -> (int, int) {
        (self.i as int, self.j as int)
    }

    /// The cursor is one the traversal can actually reach.
    pub open spec fn wf(&self) -> bool {
        cursor_wf(self.elems().len() as int, self.cur().0, self.cur().1)
    }

    /// The index pairs this comparer has yet to emit, in order.
    pub open spec fn remaining(&self) -> Seq<(int, int)> {
        pairs_from(self.elems().len() as int, self.cur().0, self.cur().1)
    }

    /// Returns a `Comparer` over the given slice, with the whole
    /// traversal ahead of it.
    pub fn new(list: &'a [T]) -> (c: Self)
        ensures
            c.wf(),
            c.elems() == list@,
            c.cur() == (0int, 1int),
            c.remaining() == all_pairs(list@.len() as int),
    {
        Comparer { list, i: 0, j: 1 }
    }

    /// Returns the inner slice.
    pub fn inner(&self) -> (l: &'a [T])
        ensures
            l@ == self.elems(),
    {
        self.list
    }

    /// Returns the indices of the next two elements to be compared.
    pub fn indices(&self) -> (r: (usize, usize))
        ensures
            (r.0 as int, r.1 as int) == self.cur(),
    {
        (self.i, self.j)
    }

    /// Emits the next pair as two read-only views, or `None` once every
    /// pair has been emitted. The terminal state is sticky.
    pub fn next(&mut self) -> (r: Option<(&'a T, &'a T)>)
        requires
            old(self).wf(),
        ensures
            final(self).wf(),
            final(self).elems() == old(self).elems(),
            r is Some <==> old(self).remaining().len() > 0,
            match r {
                None => final(self).cur() == old(self).cur(),
                Some(p) => {
                    &&& old(self).remaining()[0] == old(self).cur()
                    &&& *p.0 == old(self).elems()[old(self).cur().0]
                    &&& *p.1 == old(self).elems()[old(self).cur().1]
                    &&& final(self).cur() == cursor_step(
                        old(self).elems().len() as int,
                        old(self).cur().0,
                        old(self).cur().1,
                    )
                    &&& final(self).remaining() == old(self).remaining().drop_first()
                },
            },
    {
        if self.list.len() == 0 || self.i == self.list.len() - 1 {
            return None;
        }
        let x = self.i;
        let y = self.j;
        self.j = self.j + 1;
        if self.j == self.list.len() {
            self.i = self.i + 1;
            self.j = self.i + 1;
        }
        proof {
            assert(self.remaining() =~= old(self).remaining().drop_first());
        }
        Some(pair_views(self.list, x, y))
    }

    /// Same as `next`, but annotates each view with its index.
    pub fn next_enumerated(&mut self) -> (r: Option<((usize, &'a T), (usize, &'a T))>)
        requires
            old(self).wf(),
        ensures
            final(self).wf(),
            final(self).elems() == old(self).elems(),
            r is Some <==> old(self).remaining().len() > 0,
            match r {
                None => final(self).cur() == old(self).cur(),
                Some(p) => {
                    &&& old(self).remaining()[0] == old(self).cur()
                    &&& (p.0.0 as int, p.1.0 as int) == old(self).cur()
                    &&& *p.0.1 == old(self).elems()[old(self).cur().0]
                    &&& *p.1.1 == old(self).elems()[old(self).cur().1]
                    &&& final(self).cur() == cursor_step(
                        old(self).elems().len() as int,
                        old(self).cur().0,
                        old(self).cur().1,
                    )
                    &&& final(self).remaining() == old(self).remaining().drop_first()
                },
            },
    {
        let i = self.i;
        let j = self.j;
        match self.next() {
            Some((a, b)) => Some(((i, a), (j, b))),
            None => None,
        }
    }
}

/// Mutable pairwise traversal over an exclusively borrowed slice.
///
/// Each advance hands back two simultaneously live, independently
/// mutable views of the two elements at the current pair of indices.
/// The indices are distinct by construction, so the two views never
/// alias; see [`pair_views_mut`].
pub struct ComparerMut<'a, T> {
    list: &'a mut [T],
    i: usize,
    j: usize,
}

impl<'a, T> ComparerMut<'a, T> {
    /// The elements under traversal, as they stand now.
    pub closed spec fn elems(&self) -> Seq<T> {
        (*self.list)@
    }

    /// The current cursor.
    pub closed spec fn cur(&self) -> (int, int) {
        (self.i as int, self.j as int)
    }

    /// The cursor is one the traversal can actually reach.
    pub open spec fn wf(&self) -> bool {
        cursor_wf(self.elems().len() as int, self.cur().0, self.cur().1)
    }

    /// The index pairs this comparer has yet to emit, in order.
    pub open spec fn remaining(&self) -> Seq<(int, int)> {
        pairs_from(self.elems().len() as int, self.cur().0, self.cur().1)
    }

    /// Returns a `ComparerMut` over the given slice, with the whole
    /// traversal ahead of it.
    pub fn new(list: &'a mut [T]) -> (c: Self)
        ensures
            c.wf(),
            c.elems() == old(list)@,
            c.cur() == (0int, 1int),
            c.remaining() == all_pairs(old(list)@.len() as int),
    {
        ComparerMut { list, i: 0, j: 1 }
    }

    /// Returns the inner mutable slice: the escape hatch to the storage,
    /// holding exactly what the traversal has left in it so far.
    pub fn inner(&mut self) -> (l: &mut [T])
        ensures
            l@ == old(self).elems(),
            final(self).elems() == final(l)@,
            final(self).cur() == old(self).cur(),
    {
        &mut *self.list
    }

    /// Returns the indices of the next two elements to be compared.
    pub fn indices(&self) -> (r: (usize, usize))
        ensures
            (r.0 as int, r.1 as int) == self.cur(),
    {
        (self.i, self.j)
    }

    /// Emits the next pair as two independently mutable views, or `None`
    /// once every pair has been emitted. The terminal state is sticky.
    pub fn next(&mut self) -> (r: Option<(&mut T, &mut T)>)
        requires
            old(self).wf(),
        ensures
            final(self).wf(),
            r is Some <==> old(self).remaining().len() > 0,
            match r {
                None => {
                    &&& final(self).elems() == old(self).elems()
                    &&& final(self).cur() == old(self).cur()
                },
                Some(p) => {
                    &&& old(self).remaining()[0] == old(self).cur()
                    &&& *p.0 == old(self).elems()[old(self).cur().0]
                    &&& *p.1 == old(self).elems()[old(self).cur().1]
                    &&& final(self).elems() == old(self).elems().update(
                        old(self).cur().0,
                        *final(p.0),
                    ).update(old(self).cur().1, *final(p.1))
                    &&& final(self).cur() == cursor_step(
                        old(self).elems().len() as int,
                        old(self).cur().0,
                        old(self).cur().1,
                    )
                    &&& final(self).remaining() == old(self).remaining().drop_first()
                },
            },
    {
        let n = self.list.len();
        if n == 0 || self.i == n - 1 {
            return None;
        }
        let x = self.i;
        let y = self.j;
        self.j = self.j + 1;
        if self.j == n {
            self.i = self.i + 1;
            self.j = self.i + 1;
        }
        let ghost s = (*self.list)@;
        let (a, b) = pair_views_mut(&mut *self.list, x, y);
        proof {
            assert(pairs_from(s.len() as int, self.i as int, self.j as int) =~= pairs_from(
                s.len() as int,
                x as int,
                y as int,
            ).drop_first());
        }
        Some((a, b))
    }

    /// Same as `next`, but annotates each view with its index.
    pub fn next_enumerated(&mut self) -> (r: Option<((usize, &mut T), (usize, &mut T))>)
        requires
            old(self).wf(),
        ensures
            final(self).wf(),
            r is Some <==> old(self).remaining().len() > 0,
            match r {
                None => {
                    &&& final(self).elems() == old(self).elems()
                    &&& final(self).cur() == old(self).cur()
                },
                Some(p) => {
                    &&& old(self).remaining()[0] == old(self).cur()
                    &&& (p.0.0 as int, p.1.0 as int) == old(self).cur()
                    &&& *p.0.1 == old(self).elems()[old(self).cur().0]
                    &&& *p.1.1 == old(self).elems()[old(self).cur().1]
                    &&& final(self).elems() == old(self).elems().update(
                        old(self).cur().0,
                        *final(p.0.1),
                    ).update(old(self).cur().1, *final(p.1.1))
                    &&& final(self).cur() == cursor_step(
                        old(self).elems().len() as int,
                        old(self).cur().0,
                        old(self).cur().1,
                    )
                    &&& final(self).remaining() == old(self).remaining().drop_first()
                },
            },
    {
        let i = self.i;
        let j = self.j;
        match self.next() {
            Some((a, b)) => Some(((i, a), (j, b))),
            None => None,
        }
    }
}

/// Law: an immutable and a mutable traversal over equal element values,
/// at equal cursors, have the same index pairs ahead of them, in the
/// same order, and — the elements being equal — will hand out identical
/// sequences of paired values.
pub proof fn lemma_traversals_agree<T>(c: Comparer<T>, m: ComparerMut<T>)
    requires
        c.elems() == m.elems(),
        c.cur() == m.cur(),
    ensures
        c.remaining() == m.remaining(),
        paired_values(c.elems()) == paired_values(m.elems()),
        forall|k: int|
            0 <= k < c.remaining().len() ==> (
            c.elems()[(#[trigger] c.remaining()[k]).0],
            c.elems()[c.remaining()[k].1],
            ) == (m.elems()[m.remaining()[k].0], m.elems()[m.remaining()[k].1]),
{
}

/// Law: traversal is deterministic — re-running with a fresh comparer
/// over unchanged element values reproduces the identical traversal,
/// index pairs and value pairs alike.
pub proof fn lemma_rerun_deterministic<T>(c1: Comparer<T>, c2: Comparer<T>)
    requires
        c1.elems() == c2.elems(),
        c1.cur() == c2.cur(),
    ensures
        c1.remaining() == c2.remaining(),
        paired_values(c1.elems()) == paired_values(c2.elems()),
{
}

} // verus!
