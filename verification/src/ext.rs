//! Extension methods for slices: construct a comparer directly from a
//! slice, or run a whole pairwise traversal in one call.
//!
//! The traversal-running methods say in their contracts what running the
//! whole traversal did. The witnesses `xs` and `ys` are the argument
//! views the operation received, one pair per emitted index pair, in
//! order of emission; for the mutable traversals, `states` is the chain
//! of element states the traversal moved through, each step rewriting
//! exactly the two visited elements with what the operation left in its
//! argument views.
use vstd::prelude::*;

use crate::access::pair_views_mut;
use crate::pairs::{all_pairs, cursor_step, cursor_wf, lemma_pairs_step, pair_indices, pairs_from};
use crate::{Comparer, ComparerMut};

verus! {

/// Extra methods for slices to compare their elements with each other.
///
/// The operation handed in must be callable on any two elements: the
/// traversal hands it every pair in turn.
pub trait SliceCompareExt<T> {
    /// The elements of this storage, as a sequence.
    spec fn view_elems(&self) -> Seq<T>;

    /// Returns a `Comparer` over this storage.
    fn self_comparer(&self) -> (c: Comparer<T>)
        ensures
            c.wf(),
            c.elems() == self.view_elems(),
            c.cur() == (0int, 1int),
            c.remaining() == all_pairs(self.view_elems().len() as int),
    ;

    /// Returns a `ComparerMut` over this storage.
    fn self_comparer_mut(&mut self) -> (c: ComparerMut<T>)
        ensures
            c.wf(),
            c.elems() == old(self).view_elems(),
            c.cur() == (0int, 1int),
            c.remaining() == all_pairs(old(self).view_elems().len() as int),
    ;

    /// Applies `f` to every pair of elements, in order of emission: for
    /// each emitted index pair, `f`'s postcondition held of a call on
    /// views of the two elements at that pair.
    fn compare_self<F: Fn(&T, &T)>(&self, f: F)
        requires
            forall|x: &T, y: &T| #[trigger] call_requires(f, (x, y)),
        ensures
            exists|xs: Seq<&T>, ys: Seq<&T>|
                #![trigger xs.len(), ys.len()]
                {
                    &&& xs.len() == all_pairs(self.view_elems().len() as int).len()
                    &&& ys.len() == all_pairs(self.view_elems().len() as int).len()
                    &&& forall|k: int|
                        0 <= k < xs.len() ==> *(#[trigger] xs[k]) == self.view_elems()[all_pairs(
                            self.view_elems().len() as int,
                        )[k].0]
                    &&& forall|k: int|
                        0 <= k < ys.len() ==> *(#[trigger] ys[k]) == self.view_elems()[all_pairs(
                            self.view_elems().len() as int,
                        )[k].1]
                    &&& forall|k: int|
                        0 <= k < xs.len() ==> #[trigger] call_ensures(f, (xs[k], ys[k]), ())
                },
    ;

    /// Same as `compare_self`, but also hands `f` the two indices.
    fn compare_self_enumerated<F: Fn((usize, &T), (usize, &T))>(&self, f: F)
        requires
            forall|x: (usize, &T), y: (usize, &T)| #[trigger] call_requires(f, (x, y)),
        ensures
            exists|xs: Seq<&T>, ys: Seq<&T>|
                #![trigger xs.len(), ys.len()]
                {
                    &&& xs.len() == all_pairs(self.view_elems().len() as int).len()
                    &&& ys.len() == all_pairs(self.view_elems().len() as int).len()
                    &&& forall|k: int|
                        0 <= k < xs.len() ==> *(#[trigger] xs[k]) == self.view_elems()[all_pairs(
                            self.view_elems().len() as int,
                        )[k].0]
                    &&& forall|k: int|
                        0 <= k < ys.len() ==> *(#[trigger] ys[k]) == self.view_elems()[all_pairs(
                            self.view_elems().len() as int,
                        )[k].1]
                    &&& forall|k: int|
                        0 <= k < xs.len() ==> #[trigger] call_ensures(
                            f,
                            (
                                (all_pairs(self.view_elems().len() as int)[k].0 as usize, xs[k]),
                                (all_pairs(self.view_elems().len() as int)[k].1 as usize, ys[k]),
                            ),
                            (),
                        )
                },
    ;

    /// Applies `f` to every pair of elements, in order of emission, with
    /// both elements mutable at once: the final elements arise from the
    /// starting ones by applying `f` to each index pair in turn, each
    /// step rewriting exactly the two visited elements with what `f`
    /// left in its argument views. The number of elements is kept.
    fn compare_self_mut<F: Fn(&mut T, &mut T)>(&mut self, f: F)
        requires
            forall|x: &mut T, y: &mut T| #[trigger] call_requires(f, (x, y)),
        ensures
            final(self).view_elems().len() == old(self).view_elems().len(),
            exists|states: Seq<Seq<T>>|
                #![trigger states.len()]
                {
                    &&& states.len() == all_pairs(old(self).view_elems().len() as int).len() + 1
                    &&& states[0] == old(self).view_elems()
                    &&& states[all_pairs(old(self).view_elems().len() as int).len() as int]
                        == final(self).view_elems()
                    &&& forall|k: int|
                        #![trigger states[k]]
                        0 <= k < all_pairs(old(self).view_elems().len() as int).len() ==> (exists|
                        x: &mut T,
                        y: &mut T,
                    |
                        {
                            &&& *x == states[k][all_pairs(
                                old(self).view_elems().len() as int,
                            )[k].0]
                            &&& *y == states[k][all_pairs(
                                old(self).view_elems().len() as int,
                            )[k].1]
                            &&& #[trigger] call_ensures(f, (x, y), ())
                            &&& states[k + 1] == states[k].update(
                                all_pairs(old(self).view_elems().len() as int)[k].0,
                                *final(x),
                            ).update(
                                all_pairs(old(self).view_elems().len() as int)[k].1,
                                *final(y),
                            )
                        })
                },
    ;

    /// Same as `compare_self_mut`, but also hands `f` the two indices.
    fn compare_self_enumerated_mut<F: Fn((usize, &mut T), (usize, &mut T))>(&mut self, f: F)
        requires
            forall|x: (usize, &mut T), y: (usize, &mut T)| #[trigger] call_requires(f, (x, y)),
        ensures
            final(self).view_elems().len() == old(self).view_elems().len(),
            exists|states: Seq<Seq<T>>|
                #![trigger states.len()]
                {
                    &&& states.len() == all_pairs(old(self).view_elems().len() as int).len() + 1
                    &&& states[0] == old(self).view_elems()
                    &&& states[all_pairs(old(self).view_elems().len() as int).len() as int]
                        == final(self).view_elems()
                    &&& forall|k: int|
                        #![trigger states[k]]
                        0 <= k < all_pairs(old(self).view_elems().len() as int).len() ==> (exists|
                        u: usize,
                        x: &mut T,
                        v: usize,
                        y: &mut T,
                    |
                        {
                            &&& *x == states[k][all_pairs(
                                old(self).view_elems().len() as int,
                            )[k].0]
                            &&& *y == states[k][all_pairs(
                                old(self).view_elems().len() as int,
                            )[k].1]
                            &&& #[trigger] call_ensures(f, ((u, x), (v, y)), ())
                            &&& u == pair_indices(
                                all_pairs(old(self).view_elems().len() as int)[k],
                            ).0
                            &&& v == pair_indices(
                                all_pairs(old(self).view_elems().len() as int)[k],
                            ).1
                            &&& states[k + 1] == states[k].update(
                                all_pairs(old(self).view_elems().len() as int)[k].0,
                                *final(x),
                            ).update(
                                all_pairs(old(self).view_elems().len() as int)[k].1,
                                *final(y),
                            )
                        })
                },
    ;
}

impl<T> SliceCompareExt<T> for [T] {
    open spec fn view_elems(&self) -> Seq<T> {
        self@
    }

    fn self_comparer(&self) -> (c: Comparer<T>) {
        Comparer::new(self)
    }

    fn self_comparer_mut(&mut self) -> (c: ComparerMut<T>) {
        ComparerMut::new(self)
    }

    fn compare_self<F: Fn(&T, &T)>(&self, f: F) {
        let ghost ps = all_pairs(self@.len() as int);
        let mut c = Comparer::new(self);
        let ghost mut xs: Seq<&T> = Seq::empty();
        let ghost mut ys: Seq<&T> = Seq::empty();
        proof {
            assert(c.remaining() =~= ps.subrange(0, ps.len() as int));
        }
        loop
            invariant
                c.wf(),
                c.elems() == self@,
                ps == all_pairs(self@.len() as int),
                xs.len() == ys.len(),
                xs.len() <= ps.len(),
                c.remaining() == ps.subrange(xs.len() as int, ps.len() as int),
                forall|x: &T, y: &T| #[trigger] call_requires(f, (x, y)),
                forall|k: int| 0 <= k < xs.len() ==> *(#[trigger] xs[k]) == self@[ps[k].0],
                forall|k: int| 0 <= k < ys.len() ==> *(#[trigger] ys[k]) == self@[ps[k].1],
                forall|k: int|
                    0 <= k < xs.len() ==> #[trigger] call_ensures(f, (xs[k], ys[k]), ()),
            ensures
                xs.len() == ps.len(),
                ys.len() == ps.len(),
            decreases c.remaining().len(),
        {
            match c.next() {
                Some((a, b)) => {
                    f(a, b);
                    proof {
                        let m = xs.len() as int;
                        assert(*a == self@[ps[m].0] && *b == self@[ps[m].1]);
                        xs = xs.push(a);
                        ys = ys.push(b);
                        assert(c.remaining() =~= ps.subrange(xs.len() as int, ps.len() as int));
                    }
                },
                None => {
                    break ;
                },
            }
        }
    }

    fn compare_self_enumerated<F: Fn((usize, &T), (usize, &T))>(&self, f: F) {
        let ghost ps = all_pairs(self@.len() as int);
        let mut c = Comparer::new(self);
        let ghost mut xs: Seq<&T> = Seq::empty();
        let ghost mut ys: Seq<&T> = Seq::empty();
        proof {
            assert(c.remaining() =~= ps.subrange(0, ps.len() as int));
        }
        loop
            invariant
                c.wf(),
                c.elems() == self@,
                ps == all_pairs(self@.len() as int),
                xs.len() == ys.len(),
                xs.len() <= ps.len(),
                c.remaining() == ps.subrange(xs.len() as int, ps.len() as int),
                forall|x: (usize, &T), y: (usize, &T)| #[trigger] call_requires(f, (x, y)),
                forall|k: int| 0 <= k < xs.len() ==> *(#[trigger] xs[k]) == self@[ps[k].0],
                forall|k: int| 0 <= k < ys.len() ==> *(#[trigger] ys[k]) == self@[ps[k].1],
                forall|k: int|
                    0 <= k < xs.len() ==> #[trigger] call_ensures(
                        f,
                        ((ps[k].0 as usize, xs[k]), (ps[k].1 as usize, ys[k])),
                        (),
                    ),
            ensures
                xs.len() == ps.len(),
                ys.len() == ps.len(),
            decreases c.remaining().len(),
        {
            match c.next_enumerated() {
                Some((a, b)) => {
                    f(a, b);
                    proof {
                        let m = xs.len() as int;
                        assert(*a.1 == self@[ps[m].0] && *b.1 == self@[ps[m].1]);
                        assert(a == (ps[m].0 as usize, a.1) && b == (ps[m].1 as usize, b.1));
                        xs = xs.push(a.1);
                        ys = ys.push(b.1);
                        assert(call_ensures(
                            f,
                            ((ps[m].0 as usize, xs[m]), (ps[m].1 as usize, ys[m])),
                            (),
                        ));
                        assert(c.remaining() =~= ps.subrange(xs.len() as int, ps.len() as int));
                    }
                },
                None => {
                    break ;
                },
            }
        }
    }

    #[verifier::rlimit(100)]
    fn compare_self_mut<F: Fn(&mut T, &mut T)>(&mut self, f: F) {
        let ghost s0 = self@;
        let ghost ps = all_pairs(self@.len() as int);
        let ghost mut states: Seq<Seq<T>> = seq![self@];
        let n = self.len();
        if n < 2 {
            proof {
                assert(ps =~= Seq::<(int, int)>::empty());
                assert(states.len() == ps.len() + 1);
                assert(states[0] == s0);
                assert(states[ps.len() as int] == self@);
            }
            return ;
        }
        let mut i: usize = 0;
        let mut j: usize = 1;
        proof {
            assert(pairs_from(n as int, 0, 1) =~= ps.subrange(0, ps.len() as int));
        }
        while i < n - 1
            invariant
                n == self@.len(),
                2 <= n,
                n == s0.len(),
                ps == all_pairs(n as int),
                cursor_wf(n as int, i as int, j as int),
                1 <= states.len() <= ps.len() + 1,
                pairs_from(n as int, i as int, j as int) == ps.subrange(
                    states.len() - 1,
                    ps.len() as int,
                ),
                states[0] == s0,
                states[states.len() - 1] == self@,
                forall|k: int|
                    #![trigger states[k]]
                    0 <= k < states.len() - 1 ==> (exists|x: &mut T, y: &mut T|
                        {
                            &&& *x == states[k][ps[k].0]
                            &&& *y == states[k][ps[k].1]
                            &&& #[trigger] call_ensures(f, (x, y), ())
                            &&& states[k + 1] == states[k].update(ps[k].0, *final(x)).update(
                                ps[k].1,
                                *final(y),
                            )
                        }),
                forall|x: &mut T, y: &mut T| #[trigger] call_requires(f, (x, y)),
            decreases n - i, n - j,
        {
            let ghost pre = self@;
            let ghost m = states.len() - 1;
            let ghost oi = i as int;
            let ghost oj = j as int;
            proof {
                lemma_pairs_step(n as int, oi, oj, m);
                assert(ps[m].0 as usize == i && ps[m].1 as usize == j);
            }
            let (a, b) = pair_views_mut(&mut *self, i, j);
            f(a, b);
            proof {
                let old_states = states;
                states = states.push(self@);
                assert(states[m] == pre && states[m + 1] == self@);
                assert(exists|x: &mut T, y: &mut T|
                    {
                        &&& *x == states[m][ps[m].0]
                        &&& *y == states[m][ps[m].1]
                        &&& #[trigger] call_ensures(f, (x, y), ())
                        &&& states[m + 1] == states[m].update(ps[m].0, *final(x)).update(
                            ps[m].1,
                            *final(y),
                        )
                    });
                assert forall|k: int| #![trigger states[k]] 0 <= k < states.len() - 1 implies (exists|
                    x: &mut T,
                    y: &mut T,
                |
                    {
                        &&& *x == states[k][ps[k].0]
                        &&& *y == states[k][ps[k].1]
                        &&& #[trigger] call_ensures(f, (x, y), ())
                        &&& states[k + 1] == states[k].update(ps[k].0, *final(x)).update(
                            ps[k].1,
                            *final(y),
                        )
                    }) by {
                    if k < m {
                        assert(states[k] == old_states[k] && states[k + 1] == old_states[k + 1]);
                        assert(exists|x: &mut T, y: &mut T|
                            {
                                &&& *x == old_states[k][ps[k].0]
                                &&& *y == old_states[k][ps[k].1]
                                &&& #[trigger] call_ensures(f, (x, y), ())
                                &&& old_states[k + 1] == old_states[k].update(
                                    ps[k].0,
                                    *final(x),
                                ).update(ps[k].1, *final(y))
                            });
                        assert(exists|x: &mut T, y: &mut T|
                            {
                                &&& *x == states[k][ps[k].0]
                                &&& *y == states[k][ps[k].1]
                                &&& #[trigger] call_ensures(f, (x, y), ())
                                &&& states[k + 1] == states[k].update(ps[k].0, *final(x)).update(
                                    ps[k].1,
                                    *final(y),
                                )
                            });
                    }
                }
            }
            j = j + 1;
            if j == n {
                i = i + 1;
                j = i + 1;
            }
            proof {
                assert((i as int, j as int) == cursor_step(n as int, oi, oj));
                assert(pairs_from(n as int, i as int, j as int) == ps.subrange(
                    states.len() - 1,
                    ps.len() as int,
                ));
            }
        }
        proof {
            assert(pairs_from(n as int, i as int, j as int).len() == 0);
            assert(states.len() == ps.len() + 1);
            assert(states[ps.len() as int] == self@);
        }
    }

    #[verifier::rlimit(100)]
    fn compare_self_enumerated_mut<F: Fn((usize, &mut T), (usize, &mut T))>(&mut self, f: F) {
        let ghost s0 = self@;
        let ghost ps = all_pairs(self@.len() as int);
        let ghost mut states: Seq<Seq<T>> = seq![self@];
        let n = self.len();
        if n < 2 {
            proof {
                assert(ps =~= Seq::<(int, int)>::empty());
                assert(states.len() == ps.len() + 1);
                assert(states[0] == s0);
                assert(states[ps.len() as int] == self@);
            }
            return ;
        }
        let mut i: usize = 0;
        let mut j: usize = 1;
        proof {
            assert(pairs_from(n as int, 0, 1) =~= ps.subrange(0, ps.len() as int));
        }
        while i < n - 1
            invariant
                n == self@.len(),
                2 <= n,
                n == s0.len(),
                ps == all_pairs(n as int),
                cursor_wf(n as int, i as int, j as int),
                1 <= states.len() <= ps.len() + 1,
                pairs_from(n as int, i as int, j as int) == ps.subrange(
                    states.len() - 1,
                    ps.len() as int,
                ),
                states[0] == s0,
                states[states.len() - 1] == self@,
                forall|k: int|
                    #![trigger states[k]]
                    0 <= k < states.len() - 1 ==> (exists|u: usize, x: &mut T, v: usize, y: &mut T|
                        {
                            &&& *x == states[k][ps[k].0]
                            &&& *y == states[k][ps[k].1]
                            &&& #[trigger] call_ensures(f, ((u, x), (v, y)), ())
                            &&& u == pair_indices(ps[k]).0
                            &&& v == pair_indices(ps[k]).1
                            &&& states[k + 1] == states[k].update(ps[k].0, *final(x)).update(
                                ps[k].1,
                                *final(y),
                            )
                        }),
                forall|x: (usize, &mut T), y: (usize, &mut T)| #[trigger] call_requires(
                    f,
                    (x, y),
                ),
            decreases n - i, n - j,
        {
            let ghost pre = self@;
            let ghost m = states.len() - 1;
            let ghost oi = i as int;
            let ghost oj = j as int;
            proof {
                lemma_pairs_step(n as int, oi, oj, m);
                assert(ps[m].0 as usize == i && ps[m].1 as usize == j);
            }
            let (a, b) = pair_views_mut(&mut *self, i, j);
            f((i, a), (j, b));
            proof {
                let old_states = states;
                states = states.push(self@);
                assert(states[m] == pre && states[m + 1] == self@);
                assert((i, j) == pair_indices(ps[m]));
                assert(exists|u: usize, x: &mut T, v: usize, y: &mut T|
                    {
                        &&& *x == states[m][ps[m].0]
                        &&& *y == states[m][ps[m].1]
                        &&& #[trigger] call_ensures(f, ((u, x), (v, y)), ())
                        &&& u == pair_indices(ps[m]).0
                        &&& v == pair_indices(ps[m]).1
                        &&& states[m + 1] == states[m].update(ps[m].0, *final(x)).update(
                            ps[m].1,
                            *final(y),
                        )
                    });
                assert forall|k: int| #![trigger states[k]] 0 <= k < states.len() - 1 implies (exists|
                    u: usize,
                    x: &mut T,
                    v: usize,
                    y: &mut T,
                |
                    {
                        &&& u == pair_indices(ps[k]).0
                            &&& v == pair_indices(ps[k]).1
                        &&& *x == states[k][ps[k].0]
                        &&& *y == states[k][ps[k].1]
                        &&& #[trigger] call_ensures(f, ((u, x), (v, y)), ())
                        &&& states[k + 1] == states[k].update(ps[k].0, *final(x)).update(
                            ps[k].1,
                            *final(y),
                        )
                    }) by {
                    if k < m {
                        assert(states[k] == old_states[k] && states[k + 1] == old_states[k + 1]);
                        assert(exists|u: usize, x: &mut T, v: usize, y: &mut T|
                            {
                                &&& u == pair_indices(ps[k]).0
                            &&& v == pair_indices(ps[k]).1
                                &&& *x == old_states[k][ps[k].0]
                                &&& *y == old_states[k][ps[k].1]
                                &&& #[trigger] call_ensures(f, ((u, x), (v, y)), ())
                                &&& old_states[k + 1] == old_states[k].update(
                                    ps[k].0,
                                    *final(x),
                                ).update(ps[k].1, *final(y))
                            });
                        assert(exists|u: usize, x: &mut T, v: usize, y: &mut T|
                            {
                                &&& u == pair_indices(ps[k]).0
                            &&& v == pair_indices(ps[k]).1
                                &&& *x == states[k][ps[k].0]
                                &&& *y == states[k][ps[k].1]
                                &&& #[trigger] call_ensures(f, ((u, x), (v, y)), ())
                                &&& states[k + 1] == states[k].update(ps[k].0, *final(x)).update(
                                    ps[k].1,
                                    *final(y),
                                )
                            });
                    }
                }
            }
            j = j + 1;
            if j == n {
                i = i + 1;
                j = i + 1;
            }
            proof {
                assert((i as int, j as int) == cursor_step(n as int, oi, oj));
                assert(pairs_from(n as int, i as int, j as int) == ps.subrange(
                    states.len() - 1,
                    ps.len() as int,
                ));
            }
        }
        proof {
            assert(pairs_from(n as int, i as int, j as int).len() == 0);
            assert(states.len() == ps.len() + 1);
            assert(states[ps.len() as int] == self@);
        }
    }
}

/// Applies `f` to every pair of elements of `seq`, in order of emission,
/// with the same contract as `compare_self`.
pub fn compare<T, F: Fn(&T, &T)>(seq: &[T], f: F)
    requires
        forall|x: &T, y: &T| #[trigger] call_requires(f, (x, y)),
    ensures
        exists|xs: Seq<&T>, ys: Seq<&T>|
            #![trigger xs.len(), ys.len()]
            {
                &&& xs.len() == all_pairs(seq@.len() as int).len()
                &&& ys.len() == all_pairs(seq@.len() as int).len()
                &&& forall|k: int|
                    0 <= k < xs.len() ==> *(#[trigger] xs[k]) == seq@[all_pairs(
                        seq@.len() as int,
                    )[k].0]
                &&& forall|k: int|
                    0 <= k < ys.len() ==> *(#[trigger] ys[k]) == seq@[all_pairs(
                        seq@.len() as int,
                    )[k].1]
                &&& forall|k: int|
                    0 <= k < xs.len() ==> #[trigger] call_ensures(f, (xs[k], ys[k]), ())
            },
{
    seq.compare_self(f)
}

/// Same as `compare`, but also hands `f` the two indices.
pub fn compare_enumerated<T, F: Fn((usize, &T), (usize, &T))>(seq: &[T], f: F)
    requires
        forall|x: (usize, &T), y: (usize, &T)| #[trigger] call_requires(f, (x, y)),
    ensures
        exists|xs: Seq<&T>, ys: Seq<&T>|
            #![trigger xs.len(), ys.len()]
            {
                &&& xs.len() == all_pairs(seq@.len() as int).len()
                &&& ys.len() == all_pairs(seq@.len() as int).len()
                &&& forall|k: int|
                    0 <= k < xs.len() ==> *(#[trigger] xs[k]) == seq@[all_pairs(
                        seq@.len() as int,
                    )[k].0]
                &&& forall|k: int|
                    0 <= k < ys.len() ==> *(#[trigger] ys[k]) == seq@[all_pairs(
                        seq@.len() as int,
                    )[k].1]
                &&& forall|k: int|
                    0 <= k < xs.len() ==> #[trigger] call_ensures(
                        f,
                        (
                            (all_pairs(seq@.len() as int)[k].0 as usize, xs[k]),
                            (all_pairs(seq@.len() as int)[k].1 as usize, ys[k]),
                        ),
                        (),
                    )
            },
{
    seq.compare_self_enumerated(f)
}

} // verus!
