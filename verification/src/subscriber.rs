//! The subscriber: gathers the requests of several builders, computes the one
//! layout that holds all their arrays, and, once the allocation is made,
//! hands each builder its address.
use vstd::prelude::*;
use vstd::arithmetic::power2::is_pow2;
use vstd::layout::valid_layout;
use crate::layout::{AllocError, AllocLayout, align_up, max, max_int, round_up, lemma_round_up, lemma_pow2_divides, lemma_pow2_positive};
use crate::guard::{Allocation, Guard};
use crate::guarded_slice::{GuardedBuilder, GuardedBuilderInner};

verus! {

/// The request of one builder: its alignment and its size in bytes.
pub open spec fn request_of(b: GuardedBuilderInner) -> (int, int) {
    (b.alignment(), b.byte_size())
}

/// The number of bytes needed to place the requests one after the other,
/// each at the first offset aligned for it.
pub open spec fn slots_end(reqs: Seq<(int, int)>) -> int
    decreases reqs.len(),
{
    if reqs.len() == 0 {
        0
    } else {
        round_up(slots_end(reqs.drop_last()), reqs.last().0) + reqs.last().1
    }
}

/// The offset of the `i`-th request: the first offset after the ones before
/// it that is aligned for it.
pub open spec fn slot_offset(reqs: Seq<(int, int)>, i: int) -> int {
    round_up(slots_end(reqs.take(i)), reqs[i].0)
}

/// The alignment of the whole block: the largest alignment requested, and 1
/// when nothing is requested.
pub open spec fn slots_align(reqs: Seq<(int, int)>) -> int
    decreases reqs.len(),
{
    if reqs.len() == 0 {
        1
    } else {
        max_int(slots_align(reqs.drop_last()), reqs.last().0)
    }
}

/// Every request has a power-of-two alignment and a size that is not negative.
pub open spec fn requests_wf(reqs: Seq<(int, int)>) -> bool {
    forall|i: int| 0 <= i < reqs.len() ==> is_pow2(#[trigger] reqs[i].0) && reqs[i].1 >= 0
}

proof fn lemma_take_prefix(reqs: Seq<(int, int)>, i: int)
    requires
        0 <= i < reqs.len(),
    ensures
        reqs.take(i + 1).drop_last() == reqs.take(i),
        reqs.take(i + 1).last() == reqs[i],
        reqs.take(i + 1).len() == i + 1,
{
    assert(reqs.take(i + 1).drop_last() =~= reqs.take(i));
}

/// The end of the first `i + 1` requests is the offset of the `i`-th plus its size.
pub proof fn lemma_slots_end_step(reqs: Seq<(int, int)>, i: int)
    requires
        0 <= i < reqs.len(),
    ensures
        slots_end(reqs.take(i + 1)) == slot_offset(reqs, i) + reqs[i].1,
{
    lemma_take_prefix(reqs, i);
}

/// The end of a prefix never exceeds the end of a longer prefix.
pub proof fn lemma_slots_end_monotonic(reqs: Seq<(int, int)>, i: int, j: int)
    requires
        requests_wf(reqs),
        0 <= i <= j <= reqs.len(),
    ensures
        0 <= slots_end(reqs.take(i)) <= slots_end(reqs.take(j)),
    decreases j,
{
    if j == 0 {
        assert(reqs.take(0).len() == 0);
    } else {
        if i == j {
            lemma_slots_end_monotonic(reqs, 0, j - 1);
        } else {
            lemma_slots_end_monotonic(reqs, i, j - 1);
        }
        lemma_slots_end_step(reqs, j - 1);
        lemma_pow2_positive(reqs[j - 1].0);
        lemma_round_up(slots_end(reqs.take(j - 1)), reqs[j - 1].0);
    }
}

/// Each request is placed at an offset aligned for it, and its bytes end
/// within the whole block.
pub proof fn lemma_slot_within(reqs: Seq<(int, int)>, i: int)
    requires
        requests_wf(reqs),
        0 <= i < reqs.len(),
    ensures
        0 <= slot_offset(reqs, i),
        slot_offset(reqs, i) % reqs[i].0 == 0,
        slot_offset(reqs, i) + reqs[i].1 <= slots_end(reqs),
{
    lemma_slots_end_monotonic(reqs, i, i);
    lemma_slots_end_monotonic(reqs, i + 1, reqs.len() as int);
    lemma_slots_end_step(reqs, i);
    lemma_pow2_positive(reqs[i].0);
    lemma_round_up(slots_end(reqs.take(i)), reqs[i].0);
    assert(reqs.take(reqs.len() as int) =~= reqs);
}

/// Requests are placed in the order they were made, and no two overlap: the
/// bytes of an earlier request end before a later request starts.
pub proof fn lemma_slots_disjoint(reqs: Seq<(int, int)>, i: int, j: int)
    requires
        requests_wf(reqs),
        0 <= i < j < reqs.len(),
    ensures
        slot_offset(reqs, i) + reqs[i].1 <= slot_offset(reqs, j),
{
    lemma_slots_end_step(reqs, i);
    lemma_slots_end_monotonic(reqs, i + 1, j);
    lemma_pow2_positive(reqs[j].0);
    lemma_round_up(slots_end(reqs.take(j)), reqs[j].0);
}

/// The alignment of the whole block is a power of two that every requested
/// alignment divides.
pub proof fn lemma_slots_align(reqs: Seq<(int, int)>)
    requires
        requests_wf(reqs),
    ensures
        is_pow2(slots_align(reqs)),
        forall|i: int| 0 <= i < reqs.len() ==> slots_align(reqs) % #[trigger] reqs[i].0 == 0,
        forall|i: int| 0 <= i < reqs.len() ==> #[trigger] reqs[i].0 <= slots_align(reqs),
    decreases reqs.len(),
{
    if reqs.len() == 0 {
        reveal(is_pow2);
    } else {
        let init = reqs.drop_last();
        assert(requests_wf(init)) by {
            assert forall|i: int| 0 <= i < init.len() implies is_pow2(#[trigger] init[i].0) && init[i].1 >= 0 by {
                assert(init[i] == reqs[i]);
            }
        }
        lemma_slots_align(init);
        let m = slots_align(reqs);
        assert(is_pow2(reqs[reqs.len() - 1].0));
        assert forall|i: int| 0 <= i < reqs.len() implies #[trigger] reqs[i].0 <= m by {
            if i < reqs.len() - 1 {
                assert(init[i] == reqs[i]);
            }
        }
        assert forall|i: int| 0 <= i < reqs.len() implies m % #[trigger] reqs[i].0 == 0 by {
            lemma_pow2_divides(reqs[i].0, m);
        }
    }
}

/// The alignment of the whole block is the largest requested alignment: at
/// least every request's, equal to one of them when there is any request,
/// and 1 when there is none.
pub proof fn lemma_slots_align_is_largest(reqs: Seq<(int, int)>)
    requires
        forall|i: int| 0 <= i < reqs.len() ==> #[trigger] reqs[i].0 >= 1,
    ensures
        forall|i: int| 0 <= i < reqs.len() ==> #[trigger] reqs[i].0 <= slots_align(reqs),
        reqs.len() == 0 ==> slots_align(reqs) == 1,
        reqs.len() > 0 ==> exists|i: int|
            0 <= i < reqs.len() && #[trigger] reqs[i].0 == slots_align(reqs),
    decreases reqs.len(),
{
    if reqs.len() > 0 {
        let init = reqs.drop_last();
        assert forall|i: int| 0 <= i < init.len() implies #[trigger] init[i].0 >= 1 by {
            assert(init[i] == reqs[i]);
        }
        lemma_slots_align_is_largest(init);
        let m = slots_align(reqs);
        assert(reqs[reqs.len() - 1].0 >= 1);
        assert forall|i: int| 0 <= i < reqs.len() implies #[trigger] reqs[i].0 <= m by {
            if i < init.len() {
                assert(init[i] == reqs[i]);
            }
        }
        if m == reqs.last().0 {
            assert(reqs[reqs.len() - 1].0 == m);
        } else {
            let k = choose|k: int| 0 <= k < init.len() && #[trigger] init[k].0 == slots_align(init);
            assert(reqs[k] == init[k]);
            assert(0 <= k < reqs.len() && reqs[k].0 == m);
        }
    }
}

/// The end of the arrays placed before the `i`-th one.
pub open spec fn previous_end(reqs: Seq<(int, int)>, i: int) -> int {
    if i == 0 {
        0
    } else {
        slot_offset(reqs, i - 1) + reqs[i - 1].1
    }
}

/// Each array starts at the first offset aligned for it that is not before
/// the end of the array placed before it (0 for the first array); the whole
/// block ends where the last array ends, and is empty with no request.
pub proof fn lemma_slot_offset_is_least(reqs: Seq<(int, int)>, i: int)
    requires
        requests_wf(reqs),
        0 <= i < reqs.len(),
    ensures
        slot_offset(reqs, i) % reqs[i].0 == 0,
        previous_end(reqs, i) <= slot_offset(reqs, i) < previous_end(reqs, i) + reqs[i].0,
        slots_end(reqs) == slot_offset(reqs, reqs.len() - 1) + reqs[reqs.len() - 1].1,
{
    if i == 0 {
        assert(reqs.take(0).len() == 0);
    } else {
        lemma_slots_end_step(reqs, i - 1);
    }
    lemma_pow2_positive(reqs[i].0);
    lemma_round_up(slots_end(reqs.take(i)), reqs[i].0);
    lemma_slots_end_step(reqs, reqs.len() - 1);
    assert(reqs.take(reqs.len() as int) =~= reqs);
}

/// With no request the whole block is empty and aligned to 1.
pub proof fn lemma_no_request()
    ensures
        slots_end(Seq::<(int, int)>::empty()) == 0,
        slots_align(Seq::<(int, int)>::empty()) == 1,
{
}

/// An array placed at `base` plus its offset is aligned for its request when
/// `base` is aligned to the whole block.
pub proof fn lemma_slot_aligned(reqs: Seq<(int, int)>, base: int, i: int)
    requires
        requests_wf(reqs),
        0 <= i < reqs.len(),
        base % slots_align(reqs) == 0,
    ensures
        (base + slot_offset(reqs, i)) % reqs[i].0 == 0,
{
    lemma_slots_align(reqs);
    lemma_slot_within(reqs, i);
    let a = reqs[i].0;
    let m = slots_align(reqs);
    lemma_pow2_positive(a);
    lemma_pow2_positive(m);
    vstd::arithmetic::div_mod::lemma_fundamental_div_mod(base, m);
    vstd::arithmetic::div_mod::lemma_fundamental_div_mod(m, a);
    vstd::arithmetic::div_mod::lemma_fundamental_div_mod(slot_offset(reqs, i), a);
    let k = m / a;
    let q = base / m;
    let p = slot_offset(reqs, i) / a;
    assert(base + slot_offset(reqs, i) == a * (k * q + p)) by (nonlinear_arith)
        requires
            base == m * q + 0,
            m == a * k + 0,
            slot_offset(reqs, i) == a * p + 0,
    ;
    vstd::arithmetic::div_mod::lemma_mod_multiples_basic(k * q + p, a);
    assert((k * q + p) * a == a * (k * q + p)) by (nonlinear_arith);
}

/// Gathers builders whose arrays are to be placed in one contiguous
/// allocation of a [`Guard`], with [`Subscriber::subscribe`], then hands each
/// its address with [`Subscriber::allocate`].
pub struct Subscriber<'guard, 'builder, A> {
    guard: &'guard mut Guard<A>,
    align: usize,
    size: usize,
    builders: Vec<&'builder mut GuardedBuilderInner>,
}

impl<'guard, 'builder, A> Subscriber<'guard, 'builder, A> {
    /// The guard whose allocation the builders will share.
    pub closed spec fn guard_ref(self) -> &'guard mut Guard<A> {
        self.guard
    }

    /// The subscribed builders' requests, in the order of subscription.
    pub closed spec fn slot_refs(self) -> Seq<&'builder mut GuardedBuilderInner> {
        self.builders@
    }

    /// The alignment and the size of each subscribed request.
    pub open spec fn requests(self) -> Seq<(int, int)> {
        Seq::new(self.slot_refs().len(), |i: int| request_of(*self.slot_refs()[i]))
    }

    /// The number of bytes the allocation must have.
    pub open spec fn total_size(self) -> int {
        slots_end(self.requests())
    }

    /// The alignment the allocation must have.
    pub open spec fn total_align(self) -> int {
        slots_align(self.requests())
    }

    /// The running totals match the requests, every requested alignment is a
    /// power of two, and the guard holds no allocation yet.
    pub closed spec fn wf(self) -> bool {
        &&& self.size == self.total_size()
        &&& self.align == self.total_align()
        &&& requests_wf(self.requests())
        &&& self.guard.current() is None
    }

    /// A subscriber of `guard`, with no builder yet.
    pub(crate) fn new(guard: &'guard mut Guard<A>) -> (r: Self)
        requires
            old(guard).current() is None,
        ensures
            r.wf(),
            r.slot_refs().len() == 0,
            *r.guard_ref() == *old(guard),
            *final(r.guard_ref()) == *final(guard),
    {
        let r = Subscriber { guard, align: 1, size: 0, builders: Vec::new() };
        proof {
            reveal(is_pow2);
            assert(r.requests() =~= Seq::<(int, int)>::empty());
        }
        r
    }

    /// Subscribes a builder, so that its array is placed in the allocation
    /// after those of the builders subscribed before it, at the first offset
    /// aligned for it.
    pub fn subscribe<T: ?Sized>(self, gsb: &'builder mut GuardedBuilder<'guard, T>) -> (r: Self)
        requires
            self.wf(),
            round_up(self.total_size(), old(gsb).slot().alignment()) + old(gsb).slot().byte_size()
                <= usize::MAX,
        ensures
            r.wf(),
            *r.guard_ref() == *self.guard_ref(),
            *final(r.guard_ref()) == *final(self.guard_ref()),
            r.slot_refs().len() == self.slot_refs().len() + 1,
            forall|i: int|
                0 <= i < self.slot_refs().len() ==> #[trigger] r.slot_refs()[i] == self.slot_refs()[i],
            *r.slot_refs().last() == old(gsb).slot(),
            *final(r.slot_refs().last()) == final(gsb).slot(),
            final(gsb).count() == old(gsb).count(),
            r.requests() == self.requests().push(request_of(old(gsb).slot())),
    {
        let Subscriber { guard, align, size, builders } = self;
        let mut builders = builders;
        let node = gsb.inner_mut();
        let a = node.align();
        let s = node.size();
        proof {
            lemma_pow2_positive(a as int);
            lemma_round_up(size as int, a as int);
        }
        let new_size = align_up(size, a) + s;
        let new_align = max(align, a);
        let ghost old_reqs = self.requests();
        builders.push(node);
        let r = Subscriber { guard, align: new_align, size: new_size, builders };
        proof {
            assert(r.requests() =~= old_reqs.push(request_of(old(gsb).slot())));
            assert(r.requests().drop_last() =~= old_reqs);
        }
        r
    }

    /// Whether no builder subscribed; then nothing needs to be allocated.
    pub fn is_empty(&self) -> (r: bool)
        ensures
            r == (self.slot_refs().len() == 0),
    {
        self.builders.len() == 0
    }

    /// The layout of the allocation that holds every subscribed array; `None`
    /// when the size and the alignment do not form a valid layout.
    pub fn layout(&self) -> (r: Option<AllocLayout>)
        requires
            self.wf(),
        ensures
            r is Some <==> valid_layout(self.total_size() as usize, self.total_align() as usize),
            r matches Some(l) ==> l.size == self.total_size() && l.align == self.total_align(),
            // The block is aligned to the largest requested alignment.
            r matches Some(l) ==> forall|i: int|
                0 <= i < self.requests().len() ==> #[trigger] self.requests()[i].0 <= l.align,
            r matches Some(l) ==> (self.requests().len() == 0 ==> l.align == 1),
            r matches Some(l) ==> (self.requests().len() > 0 ==> exists|i: int|
                0 <= i < self.requests().len() && #[trigger] self.requests()[i].0 == l.align),
    {
        proof {
            let reqs = self.requests();
            assert forall|i: int| 0 <= i < reqs.len() implies #[trigger] reqs[i].0 >= 1 by {
                lemma_pow2_positive(reqs[i].0);
            }
            lemma_slots_align_is_largest(reqs);
        }
        AllocLayout::from_size_align(self.size, self.align)
    }

    /// The allocator of the guard, which is to make the allocation of
    /// [`Subscriber::layout`].
    pub fn allocator(&self) -> (r: &A)
        ensures
            *r == self.guard_ref().allocator_value(),
    {
        self.guard.allocator()
    }

    /// Completes the subscription with `granted`, the outcome of asking the
    /// guard's allocator for [`Subscriber::layout`]. With no builder, nothing
    /// is allocated and the result is `Ok`. Otherwise a failed allocation is
    /// passed on, changing nothing; a successful one is recorded in the guard,
    /// and each builder receives the address of its array: the start of the
    /// allocation plus the builder's offset.
    pub fn allocate(self, granted: Result<usize, AllocError>) -> (r: Result<(), AllocError>)
        requires
            self.wf(),
            self.slot_refs().len() > 0 ==> valid_layout(
                self.total_size() as usize,
                self.total_align() as usize,
            ),
            self.slot_refs().len() > 0 ==> (granted matches Ok(addr) ==> addr as int
                % self.total_align() == 0 && addr + self.total_size() <= usize::MAX),
        ensures
            self.slot_refs().len() == 0 ==> r is Ok && *final(self.guard_ref())
                == *self.guard_ref(),
            self.slot_refs().len() > 0 && granted is Err ==> r is Err
                && *final(self.guard_ref()) == *self.guard_ref() && forall|i: int|
                0 <= i < self.slot_refs().len() ==> *final(#[trigger] self.slot_refs()[i])
                == *self.slot_refs()[i],
            self.slot_refs().len() > 0 && granted is Ok ==> r is Ok,
            self.slot_refs().len() > 0 && granted is Ok ==> final(self.guard_ref()).allocator_value()
                    == self.guard_ref().allocator_value(),
            self.slot_refs().len() > 0 && granted is Ok ==> {
                let base = granted->Ok_0;
                final(self.guard_ref()).current() == Some(
                    Allocation {
                        addr: base,
                        layout: AllocLayout {
                            size: self.total_size() as usize,
                            align: self.total_align() as usize,
                        },
                    },
                )
            },
            self.slot_refs().len() > 0 && granted is Ok ==> {
                let base = granted->Ok_0;
                forall|i: int|
                    0 <= i < self.slot_refs().len() ==> {
                        &&& final(#[trigger] self.slot_refs()[i]).placed_at() == Some(
                            (base + slot_offset(self.requests(), i)) as usize,
                        )
                        &&& final(self.slot_refs()[i]).alignment()
                            == self.slot_refs()[i].alignment()
                        &&& final(self.slot_refs()[i]).byte_size()
                            == self.slot_refs()[i].byte_size()
                    }
            },
            // Each array is aligned for its elements and lies inside the allocation.
            self.slot_refs().len() > 0 && granted is Ok ==> {
                let base = granted->Ok_0 as int;
                forall|i: int|
                    0 <= i < self.slot_refs().len() ==> {
                        &&& (base + slot_offset(self.requests(), i)) % (#[trigger] self.requests()[i]).0 == 0
                        &&& base <= base + slot_offset(self.requests(), i)
                        &&& base + slot_offset(self.requests(), i) + self.requests()[i].1 <= base
                            + self.total_size()
                    }
            },
            // Each array starts at the first aligned offset after the one before it,
            // and the block ends where the last array ends.
            self.slot_refs().len() > 0 && granted is Ok ==> {
                &&& forall|i: int|
                    0 <= i < self.slot_refs().len() ==> previous_end(self.requests(), i)
                        <= slot_offset(self.requests(), i) < previous_end(self.requests(), i)
                        + (#[trigger] self.requests()[i]).0
                &&& self.total_size() == previous_end(
                    self.requests(),
                    self.slot_refs().len() as int,
                )
            },
            // Arrays follow each other in the order of subscription and do not overlap.
            self.slot_refs().len() > 0 && granted is Ok ==> {
                let base = granted->Ok_0 as int;
                forall|i: int, j: int|
                    #![trigger self.requests()[i], self.requests()[j]]
                    0 <= i < j < self.slot_refs().len() ==> base + slot_offset(self.requests(), i)
                        + self.requests()[i].1 <= base + slot_offset(self.requests(), j)
            },
    {
        let ghost reqs = self.requests();
        let ghost refs = self.slot_refs();
        let Subscriber { guard, align, size, builders } = self;
        let mut builders = builders;
        if builders.len() == 0 {
            return Ok(());
        }
        let base = match granted {
            Ok(addr) => addr,
            Err(e) => {
                return Err(e);
            },
        };
        proof {
            assert forall|i: int| 0 <= i < reqs.len() implies {
                &&& (base + slot_offset(reqs, i)) % (#[trigger] reqs[i]).0 == 0
                &&& base <= base + slot_offset(reqs, i)
                &&& base + slot_offset(reqs, i) + reqs[i].1 <= base + slots_end(reqs)
            } by {
                lemma_slot_within(reqs, i);
                lemma_slot_aligned(reqs, base as int, i);
            }
            assert forall|i: int| 0 <= i < reqs.len() implies previous_end(reqs, i) <= slot_offset(reqs, i)
                < previous_end(reqs, i) + (#[trigger] reqs[i]).0 by {
                lemma_slot_offset_is_least(reqs, i);
            }
            lemma_slot_offset_is_least(reqs, 0);
            assert forall|i: int, j: int| #![trigger reqs[i], reqs[j]] 0 <= i < j < reqs.len() implies base
                + slot_offset(reqs, i) + reqs[i].1 <= base + slot_offset(reqs, j) by {
                lemma_slots_disjoint(reqs, i, j);
            }
        }
        guard.record(Allocation { addr: base, layout: AllocLayout { size, align } });
        let mut cur: usize = 0;
        let mut i: usize = 0;
        proof {
            assert(reqs.take(0).len() == 0);
        }
        while i < builders.len()
            invariant
                reqs == Seq::new(refs.len(), |k: int| request_of(*refs[k])),
                requests_wf(reqs),
                size == slots_end(reqs),
                base + size <= usize::MAX,
                0 <= i <= builders@.len(),
                builders@.len() == refs.len(),
                cur == slots_end(reqs.take(i as int)),
                forall|j: int|
                    #![trigger builders@[j]]
                    0 <= j < builders@.len() ==> *final(builders@[j]) == *final(refs[j]),
                forall|j: int|
                    #![trigger builders@[j]]
                    0 <= j < builders@.len() ==> builders@[j].alignment() == refs[j].alignment()
                        && builders@[j].byte_size() == refs[j].byte_size(),
                forall|j: int|
                    #![trigger builders@[j]]
                    0 <= j < i ==> builders@[j].placed_at() == Some(
                        (base + slot_offset(reqs, j)) as usize,
                    ),
            decreases builders@.len() - i,
        {
            let a = builders[i].align();
            let s = builders[i].size();
            proof {
                assert(reqs[i as int] == request_of(*refs[i as int]));
                lemma_slots_end_step(reqs, i as int);
                lemma_slots_end_monotonic(reqs, i as int + 1, reqs.len() as int);
                assert(reqs.take(reqs.len() as int) =~= reqs);
                lemma_pow2_positive(a as int);
                lemma_round_up(cur as int, a as int);
            }
            let off = align_up(cur, a);
            builders[i].set_ptr(base + off);
            cur = off + s;
            i = i + 1;
        }
        proof {
            assert forall|j: int| #![trigger builders@[j]] 0 <= j < builders@.len() implies has_resolved(builders@[j]) by {}
            assert forall|j: int| #![trigger builders@[j]] 0 <= j < builders@.len() implies *builders@[j] == *final(builders@[j]) by {}
            assert forall|j: int| #![trigger refs[j]] 0 <= j < refs.len() implies {
                &&& final(refs[j]).placed_at() == Some((base + slot_offset(reqs, j)) as usize)
                &&& final(refs[j]).alignment() == refs[j].alignment()
                &&& final(refs[j]).byte_size() == refs[j].byte_size()
            } by {
                assert(*final(builders@[j]) == *final(refs[j]));
            }
        }
        Ok(())
    }
}

} // verus!
