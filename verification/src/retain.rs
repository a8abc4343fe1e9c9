//! Keeping the elements that a predicate accepts.

use crate::compact::{
    backshift_holds, count_kept, lemma_backshift_begin, lemma_backshift_discard,
    lemma_backshift_finish, lemma_backshift_keep, lemma_backshift_restore,
    lemma_retained_filter, lemma_retained_len, retained, Backshift,
};
use crate::mem_vec::MemVec;
use crate::memory::Memory;
use vstd::prelude::*;

verus! {

impl<'a, T: Copy, A: 'a + Memory<T>> MemVec<'a, T, A> {
    /// Keeps the elements for which `f` answers `true`, in their order, and
    /// removes the others. Every element is shown to `f` once, front to back.
    /// Where the answers of `f` are those of a predicate, what is left is the
    /// vector filtered by that predicate. The capacity stays.
    pub fn retain<F>(&mut self, f: F) where F: FnMut(&T) -> bool
        requires
            old(self).wf(),
            forall|i: int| 0 <= i < old(self)@.len() ==> call_requires(f, (&old(self)@[i],)),
        ensures
            final(self).wf(),
            final(self).spec_capacity() == old(self).spec_capacity(),
            final(self)@.len() <= old(self)@.len(),
            exists|keep: Seq<bool>|
                #![trigger retained(old(self)@, keep)]
                {
                    &&& keep.len() == old(self)@.len()
                    &&& forall|i: int|
                        0 <= i < keep.len() ==> call_ensures(
                            f,
                            (&old(self)@[i],),
                            #[trigger] keep[i],
                        )
                    &&& final(self)@ == retained(old(self)@, keep)
                    &&& final(self)@.len() == count_kept(keep)
                },
            forall|pred: spec_fn(T) -> bool|
                (forall|i: int, answer: bool|
                    0 <= i < old(self)@.len() && call_ensures(f, (&old(self)@[i],), answer)
                        ==> answer == pred(old(self)@[i])) ==> final(self)@ == #[trigger] old(
                    self,
                )@.filter(pred),
    {
        let ghost initial = self@;
        let mut judge = f;
        let mut guard = Backshift::begin(&mut self.mem);
        let ghost mut keep: Seq<bool> = Seq::empty();
        proof {
            lemma_backshift_begin(self.state().buffer, guard);
        }
        while guard.processed_len != guard.initial_len
            invariant
                guard.fits(self.state()),
                self.spec_capacity() == old(self).spec_capacity(),
                initial == old(self)@,
                judge == f,
                backshift_holds(
                    self.state().buffer,
                    initial,
                    initial.take(guard.processed_len as int),
                    keep,
                    guard,
                ),
                forall|i: int| 0 <= i < initial.len() ==> call_requires(f, (&initial[i],)),
                forall|i: int|
                    0 <= i < keep.len() ==> call_ensures(
                        f,
                        (&initial[i],),
                        #[trigger] keep[i],
                    ),
            decreases guard.initial_len - guard.processed_len,
        {
            let ghost before = guard;
            let ghost buffer = self.state().buffer;
            let ghost seen = initial.take(guard.processed_len as int);
            let cur: T = guard.current(&self.mem);
            assert(cur == initial[guard.processed_len as int]) by {
                assert(buffer.subrange(guard.processed_len as int, guard.initial_len as int)[0]
                    == buffer[guard.processed_len as int]);
            }
            let kept: bool = judge(&cur);
            if kept {
                guard.keep_current(&mut self.mem);
                proof {
                    lemma_backshift_keep(buffer, initial, seen, keep, before, cur, guard);
                }
            } else {
                guard.discard_current();
                proof {
                    lemma_backshift_discard(buffer, initial, seen, keep, before, cur, guard);
                }
            }
            proof {
                assert(seen.push(cur) =~= initial.take(guard.processed_len as int));
                keep = keep.push(kept);
            }
        }
        proof {
            lemma_backshift_finish(
                self.state().buffer,
                initial,
                initial.take(guard.processed_len as int),
                keep,
                guard,
            );
            assert(initial.take(guard.processed_len as int) =~= initial);
            assert(initial.subrange(guard.processed_len as int, guard.initial_len as int)
                =~= Seq::<T>::empty());
            lemma_retained_len(initial, keep);
        }
        guard.finish(&mut self.mem);
        assert(self@ =~= retained(initial, keep));
        assert(keep.len() == initial.len());
        assert forall|pred: spec_fn(T) -> bool|
            (forall|i: int, answer: bool|
                0 <= i < initial.len() && call_ensures(f, (&initial[i],), answer) ==> answer
                    == pred(initial[i])) implies self@ == #[trigger] initial.filter(pred) by {
            assert forall|i: int| 0 <= i < initial.len() implies #[trigger] keep[i] == pred(
                initial[i],
            ) by {
                assert(call_ensures(f, (&initial[i],), keep[i]));
            }
            lemma_retained_filter(initial, keep, pred);
        }
    }

    /// Shows every element to `f`, front to back, which may change it, keeps
    /// those for which `f` answers `true`, in their order and as `f` left
    /// them, and removes the others. The capacity stays.
    pub fn retain_mut<F>(&mut self, f: F) where F: FnMut(&mut T) -> bool
        requires
            old(self).wf(),
            forall|i: int, elem: &mut T|
                0 <= i < old(self)@.len() && *elem == old(self)@[i] ==> call_requires(f, (elem,)),
        ensures
            final(self).wf(),
            final(self).spec_capacity() == old(self).spec_capacity(),
            final(self)@.len() <= old(self)@.len(),
            exists|vals: Seq<T>, keep: Seq<bool>|
                #![trigger retained(vals, keep)]
                {
                    &&& vals.len() == old(self)@.len()
                    &&& keep.len() == old(self)@.len()
                    &&& forall|i: int|
                        0 <= i < keep.len() ==> if #[trigger] keep[i] {
                            exists|elem: &mut T|
                                #![trigger call_ensures(f, (elem,), true)]
                                {
                                    &&& *elem == old(self)@[i]
                                    &&& *final(elem) == vals[i]
                                    &&& call_ensures(f, (elem,), true)
                                }
                        } else {
                            exists|elem: &mut T|
                                #![trigger call_ensures(f, (elem,), false)]
                                {
                                    &&& *elem == old(self)@[i]
                                    &&& *final(elem) == vals[i]
                                    &&& call_ensures(f, (elem,), false)
                                }
                        }
                    &&& final(self)@ == retained(vals, keep)
                    &&& final(self)@.len() == count_kept(keep)
                },
    {
        let ghost initial = self@;
        let mut judge = f;
        let mut guard = Backshift::begin(&mut self.mem);
        let ghost mut vals: Seq<T> = Seq::empty();
        let ghost mut keep: Seq<bool> = Seq::empty();
        proof {
            lemma_backshift_begin(self.state().buffer, guard);
        }
        while guard.processed_len != guard.initial_len
            invariant
                guard.fits(self.state()),
                self.spec_capacity() == old(self).spec_capacity(),
                initial == old(self)@,
                judge == f,
                backshift_holds(self.state().buffer, initial, vals, keep, guard),
                forall|i: int, elem: &mut T|
                    0 <= i < initial.len() && *elem == initial[i] ==> call_requires(f, (elem,)),
                forall|i: int|
                    0 <= i < keep.len() ==> if #[trigger] keep[i] {
                        exists|elem: &mut T|
                            #![trigger call_ensures(f, (elem,), true)]
                            {
                                &&& *elem == initial[i]
                                &&& *final(elem) == vals[i]
                                &&& call_ensures(f, (elem,), true)
                            }
                    } else {
                        exists|elem: &mut T|
                            #![trigger call_ensures(f, (elem,), false)]
                            {
                                &&& *elem == initial[i]
                                &&& *final(elem) == vals[i]
                                &&& call_ensures(f, (elem,), false)
                            }
                    },
            decreases guard.initial_len - guard.processed_len,
        {
            let ghost before = guard;
            let ghost buffer = self.state().buffer;
            let ghost seen = vals;
            let ghost flags = keep;
            let mut cur: T = guard.current(&self.mem);
            assert(cur == initial[guard.processed_len as int]) by {
                assert(buffer.subrange(guard.processed_len as int, guard.initial_len as int)[0]
                    == buffer[guard.processed_len as int]);
            }
            let kept: bool = judge(&mut cur);
            assert(exists|elem: &mut T|
                #![trigger call_ensures(f, (elem,), kept)]
                {
                    &&& *elem == initial[before.processed_len as int]
                    &&& *final(elem) == cur
                    &&& call_ensures(f, (elem,), kept)
                });
            if kept {
                guard.replace_current(&mut self.mem, cur);
                proof {
                    lemma_backshift_keep(buffer, initial, seen, flags, before, cur, guard);
                }
            } else {
                guard.discard_current();
                proof {
                    lemma_backshift_discard(buffer, initial, seen, flags, before, cur, guard);
                }
            }
            proof {
                vals = vals.push(cur);
                keep = keep.push(kept);
            }
        }
        proof {
            lemma_backshift_finish(self.state().buffer, initial, vals, keep, guard);
            assert(initial.subrange(guard.processed_len as int, guard.initial_len as int)
                =~= Seq::<T>::empty());
            lemma_retained_len(vals, keep);
        }
        guard.finish(&mut self.mem);
        assert(self@ =~= retained(vals, keep));
        assert(keep.len() == initial.len() && vals.len() == initial.len());
    }

    /// As [`MemVec::retain_mut`], for an `f` that can fail. When `f` fails the
    /// pass stops there: the elements it kept so far are the vector, so that
    /// the length is the number of elements looked at less the number
    /// removed; the element that `f` failed on and those behind it move down
    /// to close the holes and lie right behind the length, in the spare
    /// capacity; and the failure is handed on. The capacity stays.
    pub fn try_retain_mut<E, F>(&mut self, f: F) -> (result: Result<(), E>) where
        F: FnMut(&mut T) -> Result<bool, E>,

        requires
            old(self).wf(),
            forall|i: int, elem: &mut T|
                0 <= i < old(self)@.len() && *elem == old(self)@[i] ==> call_requires(f, (elem,)),
        ensures
            final(self).wf(),
            final(self).spec_capacity() == old(self).spec_capacity(),
            final(self)@.len() <= old(self)@.len(),
            exists|vals: Seq<T>, keep: Seq<bool>|
                #![trigger retained(vals, keep)]
                {
                    &&& vals.len() == keep.len()
                    &&& keep.len() <= old(self)@.len()
                    &&& forall|i: int|
                        0 <= i < keep.len() ==> if #[trigger] keep[i] {
                            exists|elem: &mut T|
                                #![trigger call_ensures(f, (elem,), Ok::<bool, E>(true))]
                                {
                                    &&& *elem == old(self)@[i]
                                    &&& *final(elem) == vals[i]
                                    &&& call_ensures(f, (elem,), Ok::<bool, E>(true))
                                }
                        } else {
                            exists|elem: &mut T|
                                #![trigger call_ensures(f, (elem,), Ok::<bool, E>(false))]
                                {
                                    &&& *elem == old(self)@[i]
                                    &&& *final(elem) == vals[i]
                                    &&& call_ensures(f, (elem,), Ok::<bool, E>(false))
                                }
                        }
                    &&& final(self)@ == retained(vals, keep)
                    &&& final(self)@.len() == count_kept(keep)
                    &&& match result {
                        Ok(_) => keep.len() == old(self)@.len(),
                        Err(error) => {
                            &&& keep.len() < old(self)@.len()
                            &&& exists|elem: &mut T, answer: Result<bool, E>|
                                #![trigger call_ensures(f, (elem,), answer)]
                                {
                                    &&& *elem == old(self)@[keep.len() as int]
                                    &&& answer == Err::<bool, E>(error)
                                    &&& call_ensures(f, (elem,), answer)
                                    &&& final(self).state().buffer.subrange(
                                        count_kept(keep) as int,
                                        count_kept(keep) + old(self)@.len() - keep.len(),
                                    ) == seq![*final(elem)] + old(self)@.subrange(
                                        keep.len() as int + 1,
                                        old(self)@.len() as int,
                                    )
                                }
                        },
                    }
                },
    {
        let ghost initial = self@;
        let mut judge = f;
        let mut guard = Backshift::begin(&mut self.mem);
        let ghost mut vals: Seq<T> = Seq::empty();
        let ghost mut keep: Seq<bool> = Seq::empty();
        proof {
            lemma_backshift_begin(self.state().buffer, guard);
        }
        while guard.processed_len != guard.initial_len
            invariant
                guard.fits(self.state()),
                self.spec_capacity() == old(self).spec_capacity(),
                initial == old(self)@,
                judge == f,
                backshift_holds(self.state().buffer, initial, vals, keep, guard),
                forall|i: int, elem: &mut T|
                    0 <= i < initial.len() && *elem == initial[i] ==> call_requires(f, (elem,)),
                forall|i: int|
                    0 <= i < keep.len() ==> if #[trigger] keep[i] {
                        exists|elem: &mut T|
                            #![trigger call_ensures(f, (elem,), Ok::<bool, E>(true))]
                            {
                                &&& *elem == initial[i]
                                &&& *final(elem) == vals[i]
                                &&& call_ensures(f, (elem,), Ok::<bool, E>(true))
                            }
                    } else {
                        exists|elem: &mut T|
                            #![trigger call_ensures(f, (elem,), Ok::<bool, E>(false))]
                            {
                                &&& *elem == initial[i]
                                &&& *final(elem) == vals[i]
                                &&& call_ensures(f, (elem,), Ok::<bool, E>(false))
                            }
                    },
            decreases guard.initial_len - guard.processed_len,
        {
            let ghost before = guard;
            let ghost buffer = self.state().buffer;
            let ghost seen = vals;
            let ghost flags = keep;
            let mut cur: T = guard.current(&self.mem);
            assert(cur == initial[guard.processed_len as int]) by {
                assert(buffer.subrange(guard.processed_len as int, guard.initial_len as int)[0]
                    == buffer[guard.processed_len as int]);
            }
            let answer: Result<bool, E> = judge(&mut cur);
            assert(exists|elem: &mut T|
                #![trigger call_ensures(f, (elem,), answer)]
                {
                    &&& *elem == initial[before.processed_len as int]
                    &&& *final(elem) == cur
                    &&& call_ensures(f, (elem,), answer)
                });
            match answer {
                Ok(kept) => {
                    if kept {
                        guard.replace_current(&mut self.mem, cur);
                        proof {
                            lemma_backshift_keep(buffer, initial, seen, flags, before, cur, guard);
                        }
                    } else {
                        guard.discard_current();
                        proof {
                            lemma_backshift_discard(
                                buffer,
                                initial,
                                seen,
                                flags,
                                before,
                                cur,
                                guard,
                            );
                        }
                    }
                    proof {
                        vals = vals.push(cur);
                        keep = keep.push(kept);
                    }
                },
                Err(error) => {
                    guard.restore_current(&mut self.mem, cur);
                    proof {
                        lemma_backshift_restore(buffer, initial, vals, keep, guard, cur);
                        lemma_backshift_finish(
                            self.state().buffer,
                            initial.update(guard.processed_len as int, cur),
                            vals,
                            keep,
                            guard,
                        );
                        lemma_retained_len(vals, keep);
                    }
                    guard.finish(&mut self.mem);
                    assert(self@ =~= retained(vals, keep));
                    assert(self.state().buffer.subrange(
                        count_kept(keep) as int,
                        count_kept(keep) + initial.len() - keep.len(),
                    ) =~= seq![cur] + initial.subrange(
                        keep.len() as int + 1,
                        initial.len() as int,
                    ));
                    return Err(error);
                },
            }
        }
        proof {
            lemma_backshift_finish(self.state().buffer, initial, vals, keep, guard);
            assert(initial.subrange(guard.processed_len as int, guard.initial_len as int)
                =~= Seq::<T>::empty());
            lemma_retained_len(vals, keep);
        }
        guard.finish(&mut self.mem);
        assert(self@ =~= retained(vals, keep));
        assert(keep.len() == initial.len() && vals.len() == initial.len());
        Ok(())
    }
}

} // verus!
