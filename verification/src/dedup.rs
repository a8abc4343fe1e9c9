//! Removing elements that repeat the element before them.

use crate::compact::{
    deduped, fill_gap_holds, lemma_deduped_len, lemma_deduped_push, lemma_fill_gap_begin, lemma_fill_gap_finish,
    lemma_fill_gap_restore, lemma_fill_gap_settle, lemma_retained_push, lemma_retained_single,
    retained, FillGap, Judgement,
};
use crate::mem_vec::MemVec;
use crate::memory::Memory;
use vstd::prelude::*;
use vstd::std_specs::cmp::PartialEqSpec;

verus! {

impl<'a, T: Copy, A: 'a + Memory<T>> MemVec<'a, T, A> {
    /// Removes repeats in one pass, front to back: each element from the
    /// second on is shown to `same_bucket` together with the last element
    /// kept before it, and goes where the answer is `true`. `same_bucket` may
    /// change both. The capacity stays.
    pub fn dedup_by<F>(&mut self, same_bucket: F) where F: FnMut(&mut T, &mut T) -> bool
        requires
            old(self).wf(),
            forall|i: int, cur: &mut T, prev: &mut T|
                1 <= i < old(self)@.len() && *cur == old(self)@[i] ==> call_requires(
                    same_bucket,
                    (cur, prev),
                ),
        ensures
            final(self).wf(),
            final(self).spec_capacity() == old(self).spec_capacity(),
            final(self)@.len() <= old(self)@.len(),
            old(self)@.len() > 0 ==> final(self)@.len() > 0,
            exists|trace: Seq<Judgement<T>>|
                #![trigger deduped(old(self)@, trace)]
                {
                    &&& trace.len() + 1 == old(self)@.len() || (trace.len() == 0 && old(
                        self,
                    )@.len() == 0)
                    &&& forall|r: int|
                        0 <= r < trace.len() ==> if (#[trigger] trace[r]).same {
                            exists|cur: &mut T, prev: &mut T|
                                #![trigger call_ensures(same_bucket, (cur, prev), true)]
                                {
                                    &&& *cur == old(self)@[r + 1]
                                    &&& *prev == deduped(
                                        old(self)@.take(r + 1),
                                        trace.take(r),
                                    ).last()
                                    &&& *final(cur) == trace[r].cur
                                    &&& *final(prev) == trace[r].prev
                                    &&& call_ensures(same_bucket, (cur, prev), true)
                                }
                        } else {
                            exists|cur: &mut T, prev: &mut T|
                                #![trigger call_ensures(same_bucket, (cur, prev), false)]
                                {
                                    &&& *cur == old(self)@[r + 1]
                                    &&& *prev == deduped(
                                        old(self)@.take(r + 1),
                                        trace.take(r),
                                    ).last()
                                    &&& *final(cur) == trace[r].cur
                                    &&& *final(prev) == trace[r].prev
                                    &&& call_ensures(same_bucket, (cur, prev), false)
                                }
                        }
                    &&& final(self)@ == deduped(old(self)@, trace)
                },
    {
        let len: usize = self.len();
        if len <= 1 {
            assert(self@ == deduped(self@, Seq::<Judgement<T>>::empty()));
            return ;
        }
        let ghost initial = self@;
        let mut judge = same_bucket;
        let mut gap = FillGap::begin();
        let ghost mut trace: Seq<Judgement<T>> = Seq::empty();
        proof {
            lemma_fill_gap_begin(self.state().buffer, len as nat, gap);
            assert(self.state().buffer.take(1) =~= initial.take(1));
        }
        while gap.read < len
            invariant
                gap.fits(self.state()),
                self.state().len == len,
                initial.len() == len,
                self.spec_capacity() == old(self).spec_capacity(),
                initial == old(self)@,
                judge == same_bucket,
                trace.len() == gap.read - 1,
                fill_gap_holds(
                    self.state().buffer,
                    initial,
                    deduped(initial.take(gap.read as int), trace),
                    gap,
                ),
                forall|i: int, cur: &mut T, prev: &mut T|
                    1 <= i < initial.len() && *cur == initial[i] ==> call_requires(
                        same_bucket,
                        (cur, prev),
                    ),
                forall|r: int|
                    0 <= r < trace.len() ==> if (#[trigger] trace[r]).same {
                        exists|cur: &mut T, prev: &mut T|
                            #![trigger call_ensures(same_bucket, (cur, prev), true)]
                            {
                                &&& *cur == initial[r + 1]
                                &&& *prev == deduped(initial.take(r + 1), trace.take(r)).last()
                                &&& *final(cur) == trace[r].cur
                                &&& *final(prev) == trace[r].prev
                                &&& call_ensures(same_bucket, (cur, prev), true)
                            }
                    } else {
                        exists|cur: &mut T, prev: &mut T|
                            #![trigger call_ensures(same_bucket, (cur, prev), false)]
                            {
                                &&& *cur == initial[r + 1]
                                &&& *prev == deduped(initial.take(r + 1), trace.take(r)).last()
                                &&& *final(cur) == trace[r].cur
                                &&& *final(prev) == trace[r].prev
                                &&& call_ensures(same_bucket, (cur, prev), false)
                            }
                    },
            decreases len - gap.read,
        {
            let ghost before = gap;
            let ghost buffer = self.state().buffer;
            let ghost seen = trace;
            let ghost kept = deduped(initial.take(gap.read as int), trace);
            let mut cur: T = gap.current(&self.mem);
            let mut prev: T = gap.previous(&self.mem);
            proof {
                assert(buffer.subrange(gap.read as int, initial.len() as int)[0]
                    == buffer[gap.read as int]);
                assert(buffer.subrange(0, gap.write as int)[gap.write - 1] == buffer[gap.write
                    - 1]);
                assert(cur == initial[gap.read as int]);
                assert(prev == kept.last());
            }
            let same: bool = judge(&mut cur, &mut prev);
            assert(exists|a: &mut T, b: &mut T|
                #![trigger call_ensures(same_bucket, (a, b), same)]
                {
                    &&& *a == initial[before.read as int]
                    &&& *b == kept.last()
                    &&& *final(a) == cur
                    &&& *final(b) == prev
                    &&& call_ensures(same_bucket, (a, b), same)
                });
            gap.settle(&mut self.mem, cur, prev, same);
            proof {
                let judgement = Judgement { cur, prev, same };
                lemma_fill_gap_settle(buffer, initial, kept, before, cur, prev, same, gap);
                lemma_deduped_push(
                    initial.take(before.read as int),
                    seen,
                    initial[before.read as int],
                    judgement,
                );
                assert(initial.take(before.read as int).push(initial[before.read as int])
                    =~= initial.take(gap.read as int));
                trace = trace.push(judgement);
                assert forall|r: int| 0 <= r < trace.len() implies deduped(
                    initial.take(r + 1),
                    #[trigger] trace.take(r),
                ) == deduped(initial.take(r + 1), seen.take(r)) by {
                    assert(trace.take(r) =~= seen.take(r));
                }
                assert(seen.take(seen.len() as int) =~= seen);
            }
        }
        proof {
            lemma_fill_gap_finish(
                self.state().buffer,
                initial,
                deduped(initial.take(gap.read as int), trace),
                gap,
            );
            assert(initial.take(gap.read as int) =~= initial);
            assert(initial.subrange(gap.read as int, initial.len() as int) =~= Seq::<T>::empty());
        }
        gap.finish(&mut self.mem);
        assert(self@ =~= deduped(initial, trace));
        proof {
            lemma_deduped_len(initial, trace);
        }
    }

    /// Removes each element that equals the last element kept before it, in
    /// one pass, front to back. For an element type whose `==` is known, no
    /// two neighbours are equal afterwards, the first element of every run of
    /// equal elements stays, and the rest of the run goes. The capacity stays.
    pub fn dedup(&mut self) where T: PartialEq
        requires
            old(self).wf(),
        ensures
            final(self).wf(),
            final(self).spec_capacity() == old(self).spec_capacity(),
            exists|keep: Seq<bool>|
                #![trigger retained(old(self)@, keep)]
                {
                    &&& keep.len() == old(self)@.len()
                    &&& keep.len() > 0 ==> keep[0]
                    &&& T::obeys_eq_spec() ==> forall|r: int|
                        1 <= r < keep.len() ==> #[trigger] keep[r] == !old(self)@[r].eq_spec(
                            &retained(old(self)@.take(r), keep.take(r)).last(),
                        )
                    &&& final(self)@ == retained(old(self)@, keep)
                },
            T::obeys_eq_spec() ==> forall|k: int|
                0 < k < final(self)@.len() ==> !(#[trigger] final(self)@[k]).eq_spec(
                    &final(self)@[k - 1],
                ),
            final(self)@.len() <= old(self)@.len(),
            old(self)@.len() > 0 ==> final(self)@.len() > 0 && final(self)@[0] == old(self)@[0],
    {
        let len: usize = self.len();
        if len <= 1 {
            proof {
                let keep = Seq::new(len as nat, |i: int| true);
                if len == 1 {
                    lemma_retained_single(self@, keep);
                }
                assert(retained(self@, keep) =~= self@);
            }
            return ;
        }
        let ghost initial = self@;
        let mut gap = FillGap::begin();
        let ghost mut keep: Seq<bool> = seq![true];
        proof {
            lemma_fill_gap_begin(self.state().buffer, len as nat, gap);
            assert(self.state().buffer.take(1) =~= initial.take(1));
            lemma_retained_single(initial.take(1), keep);
        }
        while gap.read < len
            invariant
                gap.fits(self.state()),
                self.state().len == len,
                initial.len() == len,
                self.spec_capacity() == old(self).spec_capacity(),
                initial == old(self)@,
                keep.len() == gap.read,
                keep[0],
                fill_gap_holds(
                    self.state().buffer,
                    initial,
                    retained(initial.take(gap.read as int), keep),
                    gap,
                ),
                T::obeys_eq_spec() ==> forall|r: int|
                    1 <= r < keep.len() ==> #[trigger] keep[r] == !initial[r].eq_spec(
                        &retained(initial.take(r), keep.take(r)).last(),
                    ),
                T::obeys_eq_spec() ==> forall|k: int|
                    0 < k < gap.write ==> !(#[trigger] self.state().buffer[k]).eq_spec(
                        &self.state().buffer[k - 1],
                    ),
                self.state().buffer[0] == initial[0],
            decreases len - gap.read,
        {
            let ghost before = gap;
            let ghost buffer = self.state().buffer;
            let ghost flags = keep;
            let ghost kept = retained(initial.take(gap.read as int), keep);
            let cur: T = gap.current(&self.mem);
            let prev: T = gap.previous(&self.mem);
            proof {
                assert(buffer.subrange(gap.read as int, initial.len() as int)[0]
                    == buffer[gap.read as int]);
                assert(buffer.subrange(0, gap.write as int)[gap.write - 1] == buffer[gap.write
                    - 1]);
            }
            let same: bool = cur == prev;
            if same {
                gap.skip_current();
            } else {
                gap.keep_current(&mut self.mem);
            }
            proof {
                lemma_fill_gap_settle(buffer, initial, kept, before, cur, prev, same, gap);
                assert(buffer.update(before.write - 1, prev) =~= buffer);
                assert(kept.drop_last().push(prev) =~= kept);
                lemma_retained_push(
                    initial.take(before.read as int),
                    flags,
                    initial[before.read as int],
                    !same,
                );
                assert(initial.take(before.read as int).push(initial[before.read as int])
                    =~= initial.take(gap.read as int));
                keep = keep.push(!same);
                assert forall|r: int| 1 <= r < keep.len() implies retained(
                    initial.take(r),
                    #[trigger] keep.take(r),
                ) == retained(initial.take(r), flags.take(r)) by {
                    assert(keep.take(r) =~= flags.take(r));
                }
                assert(flags.take(flags.len() as int) =~= flags);
            }
        }
        proof {
            lemma_fill_gap_finish(
                self.state().buffer,
                initial,
                retained(initial.take(gap.read as int), keep),
                gap,
            );
            assert(initial.take(gap.read as int) =~= initial);
            assert(initial.subrange(gap.read as int, initial.len() as int) =~= Seq::<T>::empty());
        }
        let ghost scanned = self.state().buffer;
        gap.finish(&mut self.mem);
        assert(self@ =~= retained(initial, keep));
        assert forall|k: int| 0 <= k < self@.len() implies self@[k] == scanned[k] by {
            assert(scanned.subrange(0, gap.write as int)[k] == scanned[k]);
        }
    }

    /// Removes repeats in one pass, front to back: `key` is asked for the key
    /// of each element from the second on and then for the key of the last
    /// element kept before it, and the element goes where the two keys are
    /// equal. `key` may change the element it is shown. The capacity stays.
    pub fn dedup_by_key<F, K>(&mut self, key: F) where F: FnMut(&mut T) -> K, K: PartialEq
        requires
            old(self).wf(),
            forall|elem: &mut T| call_requires(key, (elem,)),
        ensures
            final(self).wf(),
            final(self).spec_capacity() == old(self).spec_capacity(),
            final(self)@.len() <= old(self)@.len(),
            old(self)@.len() > 0 ==> final(self)@.len() > 0,
            exists|trace: Seq<Judgement<T>>|
                #![trigger deduped(old(self)@, trace)]
                {
                    &&& trace.len() + 1 == old(self)@.len() || (trace.len() == 0 && old(
                        self,
                    )@.len() == 0)
                    &&& forall|r: int|
                        0 <= r < trace.len() ==> if (#[trigger] trace[r]).same {
                            exists|cur: &mut T, prev: &mut T, cur_key: K, prev_key: K|
                                #![trigger call_ensures(key, (cur,), cur_key), call_ensures(key, (prev,), prev_key)]
                                {
                                    &&& *cur == old(self)@[r + 1]
                                    &&& *prev == deduped(old(self)@.take(r + 1), trace.take(r)).last()
                                    &&& *final(cur) == trace[r].cur
                                    &&& *final(prev) == trace[r].prev
                                    &&& call_ensures(key, (cur,), cur_key)
                                    &&& call_ensures(key, (prev,), prev_key)
                                    &&& K::obeys_eq_spec() ==> cur_key.eq_spec(&prev_key)
                                }
                        } else {
                            exists|cur: &mut T, prev: &mut T, cur_key: K, prev_key: K|
                                #![trigger call_ensures(key, (cur,), cur_key), call_ensures(key, (prev,), prev_key)]
                                {
                                    &&& *cur == old(self)@[r + 1]
                                    &&& *prev == deduped(old(self)@.take(r + 1), trace.take(r)).last()
                                    &&& *final(cur) == trace[r].cur
                                    &&& *final(prev) == trace[r].prev
                                    &&& call_ensures(key, (cur,), cur_key)
                                    &&& call_ensures(key, (prev,), prev_key)
                                    &&& K::obeys_eq_spec() ==> !cur_key.eq_spec(&prev_key)
                                }
                        }
                    &&& final(self)@ == deduped(old(self)@, trace)
                },
    {
        let len: usize = self.len();
        if len <= 1 {
            assert(self@ == deduped(self@, Seq::<Judgement<T>>::empty()));
            return ;
        }
        let ghost initial = self@;
        let mut key_of = key;
        let mut gap = FillGap::begin();
        let ghost mut trace: Seq<Judgement<T>> = Seq::empty();
        proof {
            lemma_fill_gap_begin(self.state().buffer, len as nat, gap);
            assert(self.state().buffer.take(1) =~= initial.take(1));
        }
        while gap.read < len
            invariant
                gap.fits(self.state()),
                self.state().len == len,
                initial.len() == len,
                self.spec_capacity() == old(self).spec_capacity(),
                initial == old(self)@,
                key_of == key,
                trace.len() == gap.read - 1,
                fill_gap_holds(
                    self.state().buffer,
                    initial,
                    deduped(initial.take(gap.read as int), trace),
                    gap,
                ),
                forall|elem: &mut T| call_requires(key, (elem,)),
                forall|r: int|
                    0 <= r < trace.len() ==> if (#[trigger] trace[r]).same {
                        exists|cur: &mut T, prev: &mut T, cur_key: K, prev_key: K|
                                #![trigger call_ensures(key, (cur,), cur_key), call_ensures(key, (prev,), prev_key)]
                                {
                                    &&& *cur == initial[r + 1]
                                    &&& *prev == deduped(initial.take(r + 1), trace.take(r)).last()
                                    &&& *final(cur) == trace[r].cur
                                    &&& *final(prev) == trace[r].prev
                                    &&& call_ensures(key, (cur,), cur_key)
                                    &&& call_ensures(key, (prev,), prev_key)
                                    &&& K::obeys_eq_spec() ==> cur_key.eq_spec(&prev_key)
                                }
                    } else {
                        exists|cur: &mut T, prev: &mut T, cur_key: K, prev_key: K|
                                #![trigger call_ensures(key, (cur,), cur_key), call_ensures(key, (prev,), prev_key)]
                                {
                                    &&& *cur == initial[r + 1]
                                    &&& *prev == deduped(initial.take(r + 1), trace.take(r)).last()
                                    &&& *final(cur) == trace[r].cur
                                    &&& *final(prev) == trace[r].prev
                                    &&& call_ensures(key, (cur,), cur_key)
                                    &&& call_ensures(key, (prev,), prev_key)
                                    &&& K::obeys_eq_spec() ==> !cur_key.eq_spec(&prev_key)
                                }
                    },
            decreases len - gap.read,
        {
            let ghost before = gap;
            let ghost buffer = self.state().buffer;
            let ghost seen = trace;
            let ghost kept = deduped(initial.take(gap.read as int), trace);
            let mut cur: T = gap.current(&self.mem);
            let mut prev: T = gap.previous(&self.mem);
            proof {
                assert(buffer.subrange(gap.read as int, initial.len() as int)[0]
                    == buffer[gap.read as int]);
                assert(buffer.subrange(0, gap.write as int)[gap.write - 1] == buffer[gap.write
                    - 1]);
            }
            let cur_key: K = key_of(&mut cur);
            let prev_key: K = key_of(&mut prev);
            let same: bool = cur_key == prev_key;
            assert(exists|a: &mut T, b: &mut T, ka: K, kb: K|
                #![trigger call_ensures(key, (a,), ka), call_ensures(key, (b,), kb)]
                {
                    &&& *a == initial[before.read as int]
                    &&& *b == kept.last()
                    &&& *final(a) == cur
                    &&& *final(b) == prev
                    &&& call_ensures(key, (a,), ka)
                    &&& call_ensures(key, (b,), kb)
                    &&& K::obeys_eq_spec() ==> same == ka.eq_spec(&kb)
                });
            gap.settle(&mut self.mem, cur, prev, same);
            proof {
                let judgement = Judgement { cur, prev, same };
                lemma_fill_gap_settle(buffer, initial, kept, before, cur, prev, same, gap);
                lemma_deduped_push(
                    initial.take(before.read as int),
                    seen,
                    initial[before.read as int],
                    judgement,
                );
                assert(initial.take(before.read as int).push(initial[before.read as int])
                    =~= initial.take(gap.read as int));
                trace = trace.push(judgement);
                assert forall|r: int| 0 <= r < trace.len() implies deduped(
                    initial.take(r + 1),
                    #[trigger] trace.take(r),
                ) == deduped(initial.take(r + 1), seen.take(r)) by {
                    assert(trace.take(r) =~= seen.take(r));
                }
                assert(seen.take(seen.len() as int) =~= seen);
            }
        }
        proof {
            lemma_fill_gap_finish(
                self.state().buffer,
                initial,
                deduped(initial.take(gap.read as int), trace),
                gap,
            );
            assert(initial.take(gap.read as int) =~= initial);
            assert(initial.subrange(gap.read as int, initial.len() as int) =~= Seq::<T>::empty());
        }
        gap.finish(&mut self.mem);
        assert(self@ =~= deduped(initial, trace));
        proof {
            lemma_deduped_len(initial, trace);
        }
    }

    /// As [`MemVec::dedup_by`], for a `same_bucket` that can fail. When it
    /// fails the pass stops there: the elements kept so far stay in front,
    /// the element that it failed on and those behind it move down to close
    /// the gap, the length is what it was less the number of elements
    /// removed, and the failure is handed on. The capacity stays.
    pub fn try_dedup_by<E, F>(&mut self, same_bucket: F) -> (result: Result<(), E>) where
        F: FnMut(&mut T, &mut T) -> Result<bool, E>,

        requires
            old(self).wf(),
            forall|i: int, cur: &mut T, prev: &mut T|
                1 <= i < old(self)@.len() && *cur == old(self)@[i] ==> call_requires(
                    same_bucket,
                    (cur, prev),
                ),
        ensures
            final(self).wf(),
            final(self).spec_capacity() == old(self).spec_capacity(),
            final(self)@.len() <= old(self)@.len(),
            old(self)@.len() > 0 ==> final(self)@.len() > 0,
            exists|trace: Seq<Judgement<T>>|
                #![trigger trace.len()]
                {
                    &&& trace.len() + 1 <= old(self)@.len() || (trace.len() == 0 && old(
                        self,
                    )@.len() == 0)
                    &&& forall|r: int|
                        0 <= r < trace.len() ==> if (#[trigger] trace[r]).same {
                            exists|cur: &mut T, prev: &mut T|
                                #![trigger call_ensures(same_bucket, (cur, prev), Ok::<bool, E>(true))]
                                {
                                    &&& *cur == old(self)@[r + 1]
                                    &&& *prev == deduped(old(self)@.take(r + 1), trace.take(r)).last()
                                    &&& *final(cur) == trace[r].cur
                                    &&& *final(prev) == trace[r].prev
                                    &&& call_ensures(same_bucket, (cur, prev), Ok::<bool, E>(true))
                                }
                        } else {
                            exists|cur: &mut T, prev: &mut T|
                                #![trigger call_ensures(same_bucket, (cur, prev), Ok::<bool, E>(false))]
                                {
                                    &&& *cur == old(self)@[r + 1]
                                    &&& *prev == deduped(old(self)@.take(r + 1), trace.take(r)).last()
                                    &&& *final(cur) == trace[r].cur
                                    &&& *final(prev) == trace[r].prev
                                    &&& call_ensures(same_bucket, (cur, prev), Ok::<bool, E>(false))
                                }
                        }
                    &&& match result {
                        Ok(_) => {
                            &&& trace.len() + 1 == old(self)@.len() || old(self)@.len() == 0
                            &&& final(self)@ == deduped(old(self)@, trace)
                        },
                        Err(error) => {
                            &&& trace.len() + 1 < old(self)@.len()
                            &&& exists|cur: &mut T, prev: &mut T, answer: Result<bool, E>|
                                #![trigger call_ensures(same_bucket, (cur, prev), answer)]
                                {
                                    &&& *cur == old(self)@[trace.len() as int + 1]
                                    &&& *prev == deduped(
                                        old(self)@.take(trace.len() as int + 1),
                                        trace,
                                    ).last()
                                    &&& answer == Err::<bool, E>(error)
                                    &&& call_ensures(same_bucket, (cur, prev), answer)
                                    &&& final(self)@ == deduped(
                                        old(self)@.take(trace.len() as int + 1),
                                        trace,
                                    ).drop_last().push(*final(prev)) + seq![*final(cur)] + old(
                                        self,
                                    )@.subrange(trace.len() as int + 2, old(self)@.len() as int)
                                }
                        },
                    }
                },
    {
        let len: usize = self.len();
        if len <= 1 {
            proof {
                let trace = Seq::<Judgement<T>>::empty();
                assert(trace.len() == 0);
                assert(self@ == deduped(self@, trace));
            }
            return Ok(());
        }
        let ghost initial = self@;
        let mut judge = same_bucket;
        let mut gap = FillGap::begin();
        let ghost mut trace: Seq<Judgement<T>> = Seq::empty();
        proof {
            lemma_fill_gap_begin(self.state().buffer, len as nat, gap);
            assert(self.state().buffer.take(1) =~= initial.take(1));
        }
        while gap.read < len
            invariant
                gap.fits(self.state()),
                self.state().len == len,
                initial.len() == len,
                self.spec_capacity() == old(self).spec_capacity(),
                initial == old(self)@,
                judge == same_bucket,
                trace.len() == gap.read - 1,
                fill_gap_holds(
                    self.state().buffer,
                    initial,
                    deduped(initial.take(gap.read as int), trace),
                    gap,
                ),
                forall|i: int, cur: &mut T, prev: &mut T|
                    1 <= i < initial.len() && *cur == initial[i] ==> call_requires(
                        same_bucket,
                        (cur, prev),
                    ),
                forall|r: int|
                    0 <= r < trace.len() ==> if (#[trigger] trace[r]).same {
                        exists|cur: &mut T, prev: &mut T|
                                #![trigger call_ensures(same_bucket, (cur, prev), Ok::<bool, E>(true))]
                                {
                                    &&& *cur == initial[r + 1]
                                    &&& *prev == deduped(initial.take(r + 1), trace.take(r)).last()
                                    &&& *final(cur) == trace[r].cur
                                    &&& *final(prev) == trace[r].prev
                                    &&& call_ensures(same_bucket, (cur, prev), Ok::<bool, E>(true))
                                }
                    } else {
                        exists|cur: &mut T, prev: &mut T|
                                #![trigger call_ensures(same_bucket, (cur, prev), Ok::<bool, E>(false))]
                                {
                                    &&& *cur == initial[r + 1]
                                    &&& *prev == deduped(initial.take(r + 1), trace.take(r)).last()
                                    &&& *final(cur) == trace[r].cur
                                    &&& *final(prev) == trace[r].prev
                                    &&& call_ensures(same_bucket, (cur, prev), Ok::<bool, E>(false))
                                }
                    },
            decreases len - gap.read,
        {
            let ghost before = gap;
            let ghost buffer = self.state().buffer;
            let ghost seen = trace;
            let ghost kept = deduped(initial.take(gap.read as int), trace);
            let mut cur: T = gap.current(&self.mem);
            let mut prev: T = gap.previous(&self.mem);
            proof {
                assert(buffer.subrange(gap.read as int, initial.len() as int)[0]
                    == buffer[gap.read as int]);
                assert(buffer.subrange(0, gap.write as int)[gap.write - 1] == buffer[gap.write
                    - 1]);
            }
            let answer: Result<bool, E> = judge(&mut cur, &mut prev);
            assert(exists|a: &mut T, b: &mut T|
                #![trigger call_ensures(same_bucket, (a, b), answer)]
                {
                    &&& *a == initial[before.read as int]
                    &&& *b == kept.last()
                    &&& *final(a) == cur
                    &&& *final(b) == prev
                    &&& call_ensures(same_bucket, (a, b), answer)
                });
            match answer {
                Ok(same) => {
                    gap.settle(&mut self.mem, cur, prev, same);
                    proof {
                        let judgement = Judgement { cur, prev, same };
                        lemma_fill_gap_settle(
                            buffer,
                            initial,
                            kept,
                            before,
                            cur,
                            prev,
                            same,
                            gap,
                        );
                        lemma_deduped_push(
                            initial.take(before.read as int),
                            seen,
                            initial[before.read as int],
                            judgement,
                        );
                        assert(initial.take(before.read as int).push(
                            initial[before.read as int],
                        ) =~= initial.take(gap.read as int));
                        trace = trace.push(judgement);
                        assert forall|r: int| 0 <= r < trace.len() implies deduped(
                            initial.take(r + 1),
                            #[trigger] trace.take(r),
                        ) == deduped(initial.take(r + 1), seen.take(r)) by {
                            assert(trace.take(r) =~= seen.take(r));
                        }
                        assert(seen.take(seen.len() as int) =~= seen);
                    }
                },
                Err(error) => {
                    gap.restore(&mut self.mem, cur, prev);
                    proof {
                        lemma_fill_gap_restore(buffer, initial, kept, gap, cur, prev);
                        lemma_fill_gap_finish(
                            self.state().buffer,
                            initial.update(gap.read as int, cur),
                            kept.drop_last().push(prev),
                            gap,
                        );
                    }
                    gap.finish(&mut self.mem);
                    assert(self@ =~= kept.drop_last().push(prev) + seq![cur] + initial.subrange(
                        trace.len() as int + 2,
                        initial.len() as int,
                    ));
                    return Err(error);
                },
            }
        }
        proof {
            lemma_fill_gap_finish(
                self.state().buffer,
                initial,
                deduped(initial.take(gap.read as int), trace),
                gap,
            );
            assert(initial.take(gap.read as int) =~= initial);
            assert(initial.subrange(gap.read as int, initial.len() as int) =~= Seq::<T>::empty());
        }
        gap.finish(&mut self.mem);
        assert(self@ =~= deduped(initial, trace));
        proof {
            lemma_deduped_len(initial, trace);
        }
        Ok(())
    }
}

} // verus!
