//! A chain of builders known from its type: each link holds one slice
//! builder and the rest of the chain. From the types alone, a chain gives
//! each link its index, the largest alignment, and the links' indices
//! ordered by decreasing alignment; it also writes each link's size into a
//! table and hands each link its address from one.
use vstd::prelude::*;
use crate::guarded_slice::{GuardedBuilder, GuardedBuilderInner};
use core::marker::PhantomData;
use crate::layout::{max, max_int};

verus! {

broadcast use vstd::layout::group_align_properties;

/// The most links a chain can have.
pub const MAX_CHAIN_LENGTH: usize = 32;

/// A link's index with the alignment its elements need.
#[derive(Debug, Clone, Copy, PartialEq, Eq)]
pub struct IndexAndAlign {
    pub index: usize,
    pub align: usize,
}

/// The position at which an element of alignment `align` goes among the first
/// `k` entries of `s`: after the last of them whose alignment is at least
/// `align`, and after every entry of smaller alignment that follows it.
pub open spec fn insertion_point(s: Seq<IndexAndAlign>, k: int, align: int) -> int
    decreases k,
{
    if k <= 0 {
        0
    } else if s[k - 1].align >= align {
        k
    } else {
        insertion_point(s, k - 1, align)
    }
}

/// `s` with `x` placed among its first `index` entries at its insertion
/// point; the entry at `index` is overwritten and the rest is kept.
pub open spec fn inserted(s: Seq<IndexAndAlign>, index: int, x: IndexAndAlign) -> Seq<IndexAndAlign> {
    s.take(index).insert(insertion_point(s, index, x.align as int), x) + s.skip(index + 1)
}

/// The first `n` entries are ordered by decreasing alignment.
pub open spec fn sorted_by_align(s: Seq<IndexAndAlign>, n: int) -> bool {
    forall|i: int, j: int| 0 <= i < j < n ==> #[trigger] s[i].align >= #[trigger] s[j].align
}

/// Among the first `n` entries, those of equal alignment are ordered by index.
pub open spec fn stable_by_index(s: Seq<IndexAndAlign>, n: int) -> bool {
    forall|i: int, j: int|
        0 <= i < j < n && #[trigger] s[i].align == #[trigger] s[j].align ==> s[i].index < s[j].index
}

/// The entry of a table that holds no link.
pub open spec fn unused_entry() -> IndexAndAlign {
    IndexAndAlign { index: usize::MAX, align: 0 }
}

/// The table of a chain with no link.
pub open spec fn empty_table() -> Seq<IndexAndAlign> {
    Seq::new(MAX_CHAIN_LENGTH as nat, |i: int| unused_entry())
}

/// The table of a chain whose links have the alignments `aligns`, the first
/// link first: each link, in turn, inserted at its insertion point.
pub open spec fn sorted_table(aligns: Seq<int>) -> Seq<IndexAndAlign>
    decreases aligns.len(),
{
    if aligns.len() == 0 {
        empty_table()
    } else {
        inserted(
            sorted_table(aligns.drop_last()),
            aligns.len() - 1,
            IndexAndAlign { index: (aligns.len() - 1) as usize, align: aligns.last() as usize },
        )
    }
}

/// The largest of the alignments, and 1 when there is none.
pub open spec fn max_align_of(aligns: Seq<int>) -> int
    decreases aligns.len(),
{
    if aligns.len() == 0 {
        1
    } else {
        max_int(max_align_of(aligns.drop_last()), aligns.last())
    }
}

/// The largest alignment of a chain is at least every link's alignment, is
/// the alignment of one of its links when it has any, and is 1 when it has none.
pub proof fn lemma_max_align_of(aligns: Seq<int>)
    requires
        forall|i: int| 0 <= i < aligns.len() ==> #[trigger] aligns[i] >= 1,
    ensures
        forall|i: int| 0 <= i < aligns.len() ==> #[trigger] aligns[i] <= max_align_of(aligns),
        aligns.len() == 0 ==> max_align_of(aligns) == 1,
        aligns.len() > 0 ==> exists|i: int|
            0 <= i < aligns.len() && #[trigger] aligns[i] == max_align_of(aligns),
    decreases aligns.len(),
{
    if aligns.len() > 0 {
        let init = aligns.drop_last();
        assert forall|i: int| 0 <= i < init.len() implies #[trigger] init[i] >= 1 by {
            assert(init[i] == aligns[i]);
        }
        lemma_max_align_of(init);
        let m = max_align_of(aligns);
        assert(aligns[aligns.len() - 1] >= 1);
        assert forall|i: int| 0 <= i < aligns.len() implies #[trigger] aligns[i] <= m by {
            if i < init.len() {
                assert(init[i] == aligns[i]);
            }
        }
        if m == aligns.last() {
            assert(aligns[aligns.len() - 1] == m);
        } else {
            let k = choose|k: int| 0 <= k < init.len() && #[trigger] init[k] == max_align_of(init);
            assert(aligns[k] == init[k]);
            assert(0 <= k < aligns.len() && aligns[k] == m);
        }
    }
}

/// What the insertion point is: every entry before it that ends the scan has
/// an alignment at least `align`, and every entry it passed over has a smaller one.
pub proof fn lemma_insertion_point(s: Seq<IndexAndAlign>, k: int, align: int)
    requires
        0 <= k <= s.len(),
    ensures
        0 <= insertion_point(s, k, align) <= k,
        insertion_point(s, k, align) > 0 ==> s[insertion_point(s, k, align) - 1].align >= align,
        forall|j: int| insertion_point(s, k, align) <= j < k ==> #[trigger] s[j].align < align,
    decreases k,
{
    if k > 0 && s[k - 1].align < align {
        lemma_insertion_point(s, k - 1, align);
    }
}

/// The insertion point is the position `i` below which the scan stops.
proof fn lemma_insertion_point_is(s: Seq<IndexAndAlign>, k: int, align: int, i: int)
    requires
        0 <= i <= k <= s.len(),
        i == 0 || s[i - 1].align >= align,
        forall|j: int| i <= j < k ==> #[trigger] s[j].align < align,
    ensures
        insertion_point(s, k, align) == i,
    decreases k,
{
    if k > i {
        lemma_insertion_point_is(s, k - 1, align, i);
    }
}

/// Inserting into entries ordered by decreasing alignment keeps them ordered,
/// adds exactly the inserted entry to them, and keeps the entries after
/// `index`.
pub proof fn lemma_inserted_sorted(s: Seq<IndexAndAlign>, index: int, x: IndexAndAlign)
    requires
        0 <= index < s.len(),
        sorted_by_align(s, index),
    ensures
        inserted(s, index, x).len() == s.len(),
        sorted_by_align(inserted(s, index, x), index + 1),
        inserted(s, index, x).take(index + 1).to_multiset() == s.take(index).to_multiset().insert(x),
        inserted(s, index, x).skip(index + 1) == s.skip(index + 1),
{
    let p = insertion_point(s, index, x.align as int);
    lemma_insertion_point(s, index, x.align as int);
    let r = inserted(s, index, x);
    let front = s.take(index).insert(p, x);
    assert(r.take(index + 1) =~= front);
    assert(r.skip(index + 1) =~= s.skip(index + 1));
    vstd::seq_lib::to_multiset_insert(s.take(index), p, x);
    assert forall|i: int, j: int| 0 <= i < j < index + 1 implies #[trigger] r[i].align >= #[trigger] r[j].align by {
        assert(r[i] == front[i]);
        assert(r[j] == front[j]);
        if j < p {
            assert(front[i] == s[i] && front[j] == s[j]);
        } else if j == p {
            assert(front[j] == x);
            assert(front[i] == s[i]);
            assert(s[i].align >= s[p - 1].align);
        } else if i < p {
            assert(front[i] == s[i] && front[j] == s[j - 1]);
            assert(i < j - 1 || i == j - 1);
        } else if i == p {
            assert(front[i] == x && front[j] == s[j - 1]);
        } else {
            assert(front[i] == s[i - 1] && front[j] == s[j - 1]);
        }
    }
}

/// Inserting an entry whose index is above those of the first `index`
/// entries keeps entries of equal alignment ordered by index: the new entry
/// goes after every entry of its alignment.
pub proof fn lemma_inserted_stable(s: Seq<IndexAndAlign>, index: int, x: IndexAndAlign)
    requires
        0 <= index < s.len(),
        sorted_by_align(s, index),
        stable_by_index(s, index),
        forall|i: int| 0 <= i < index ==> #[trigger] s[i].index < x.index,
    ensures
        stable_by_index(inserted(s, index, x), index + 1),
        forall|i: int| 0 <= i < index + 1 ==> #[trigger] inserted(s, index, x)[i].index <= x.index,
{
    let p = insertion_point(s, index, x.align as int);
    lemma_insertion_point(s, index, x.align as int);
    let r = inserted(s, index, x);
    let front = s.take(index).insert(p, x);
    assert(r.take(index + 1) =~= front);
    assert forall|i: int| 0 <= i < index + 1 implies #[trigger] r[i].index <= x.index by {
        assert(r[i] == front[i]);
        if i < p {
            assert(front[i] == s[i]);
        } else if i > p {
            assert(front[i] == s[i - 1]);
        }
    }
    assert forall|i: int, j: int|
        0 <= i < j < index + 1 && #[trigger] r[i].align == #[trigger] r[j].align implies r[i].index
            < r[j].index by {
        assert(r[i] == front[i]);
        assert(r[j] == front[j]);
        if j < p {
            assert(front[i] == s[i] && front[j] == s[j]);
        } else if j == p {
            assert(front[j] == x && front[i] == s[i]);
        } else if i < p {
            assert(front[i] == s[i] && front[j] == s[j - 1]);
        } else if i == p {
            assert(front[i] == x && front[j] == s[j - 1]);
        } else {
            assert(front[i] == s[i - 1] && front[j] == s[j - 1]);
        }
    }
}

/// The first entries of a chain's table are those of its links, each link
/// once, ordered by decreasing alignment (links of equal alignment in chain
/// order); the entries after them hold no link.
pub proof fn lemma_sorted_table(aligns: Seq<int>)
    requires
        aligns.len() <= MAX_CHAIN_LENGTH,
    ensures
        sorted_table(aligns).len() == MAX_CHAIN_LENGTH,
        sorted_by_align(sorted_table(aligns), aligns.len() as int),
        stable_by_index(sorted_table(aligns), aligns.len() as int),
        forall|i: int| 0 <= i < aligns.len() ==> #[trigger] sorted_table(aligns)[i].index < aligns.len(),
        sorted_table(aligns).take(aligns.len() as int).to_multiset() == Seq::new(
            aligns.len(),
            |i: int| IndexAndAlign { index: i as usize, align: aligns[i] as usize },
        ).to_multiset(),
        sorted_table(aligns).skip(aligns.len() as int) == empty_table().skip(aligns.len() as int),
    decreases aligns.len(),
{
    let n = aligns.len() as int;
    let links = Seq::new(aligns.len(), |i: int| IndexAndAlign { index: i as usize, align: aligns[i] as usize });
    if n == 0 {
        assert(sorted_table(aligns).take(0) =~= Seq::<IndexAndAlign>::empty());
        assert(links =~= Seq::<IndexAndAlign>::empty());
        assert(sorted_table(aligns).skip(0) =~= empty_table());
    } else {
        let prev = aligns.drop_last();
        lemma_sorted_table(prev);
        let x = IndexAndAlign { index: (n - 1) as usize, align: aligns.last() as usize };
        lemma_inserted_sorted(sorted_table(prev), n - 1, x);
        lemma_inserted_stable(sorted_table(prev), n - 1, x);
        let prev_links = Seq::new(prev.len(), |i: int| IndexAndAlign { index: i as usize, align: prev[i] as usize });
        assert(links =~= prev_links.push(x));
        vstd::seq_lib::to_multiset_build(prev_links, x);
        let t = sorted_table(prev);
        assert(sorted_table(aligns).skip(n) =~= empty_table().skip(n)) by {
            assert(sorted_table(aligns).skip(n) == t.skip(n));
            assert forall|k: int| 0 <= k < t.skip(n).len() implies t.skip(n)[k] == empty_table().skip(n)[k] by {
                assert(t.skip(n)[k] == t.skip(n - 1)[k + 1]);
            }
        }
    }
}

/// Places `to_insert` among the first `index` entries of `data`, after every
/// entry whose alignment is at least its own: the entry at `index` is
/// overwritten, then moved towards the front while the entry before it has a
/// smaller alignment.
pub fn sorted_insert<const N: usize>(
    index: usize,
    to_insert: IndexAndAlign,
    data: [IndexAndAlign; N],
) -> (r: [IndexAndAlign; N])
    requires
        index < N,
    ensures
        r@ == inserted(data@, index as int, to_insert),
{
    let ghost orig = data@;
    let ghost a = to_insert.align as int;
    let mut data = data;
    data[index] = to_insert;
    let mut i = index;
    while i > 0
        invariant_except_break
            a == to_insert.align as int,
            i <= index < N,
            data@.len() == N,
            orig.len() == N,
            data@ == orig.take(i as int).push(to_insert) + orig.subrange(i as int, index as int) + orig.skip(index + 1),
            forall|j: int| i <= j < index ==> #[trigger] orig[j].align < a,
        ensures
            a == to_insert.align as int,
            i <= index < N,
            data@ == orig.take(i as int).push(to_insert) + orig.subrange(i as int, index as int) + orig.skip(index + 1),
            forall|j: int| i <= j < index ==> #[trigger] orig[j].align < a,
            i == 0 || orig[i - 1].align >= a,
        decreases i,
    {
        assert(data@[i as int] == to_insert && data@[i - 1] == orig[i - 1]);
        if data[i].align > data[i - 1].align {
            let t = data[i];
            data[i] = data[i - 1];
            data[i - 1] = t;
            proof {
                assert(data@ =~= orig.take(i - 1).push(to_insert) + orig.subrange(i - 1, index as int) + orig.skip(index + 1));
            }
        } else {
            break;
        }
        i -= 1;
    }
    proof {
        lemma_insertion_point_is(orig, index as int, a, i as int);
        assert(data@ =~= inserted(orig, index as int, to_insert));
    }
    data
}

trait Sealed {
}

/// The index of the last of `len` links, counted modulo the range of
/// `usize`: one less than no index (`usize::MAX`) when there is no link.
pub open spec fn last_index(len: int) -> int {
    (len - 1) % (usize::MAX as int + 1)
}

/// One more link moves the last index on by one, wrapping around.
proof fn lemma_last_index_step(len: int, prev: usize)
    requires
        len >= 1,
        prev as int == last_index(len - 1),
    ensures
        vstd::wrapping::usize_specs::wrapping_add(prev, 1) as int == last_index(len),
{
    let m = usize::MAX as int + 1;
    vstd::arithmetic::div_mod::lemma_add_mod_noop(len - 2, 1, m);
    vstd::arithmetic::div_mod::lemma_mod_bound(len - 2, m);
    vstd::arithmetic::div_mod::lemma_mod_self_0(m);
    vstd::arithmetic::div_mod::lemma_small_mod(1, m as nat);
    if prev + 1 < m {
        vstd::arithmetic::div_mod::lemma_small_mod((prev + 1) as nat, m as nat);
    }
}

/// The last index of a chain no longer than `usize::MAX` is its length less one.
proof fn lemma_last_index_small(len: int)
    requires
        1 <= len <= usize::MAX,
    ensures
        last_index(len) == len - 1,
{
    vstd::arithmetic::div_mod::lemma_small_mod((len - 1) as nat, (usize::MAX as int + 1) as nat);
}

/// A chain of slice builders, described by its type: each link's index,
/// the largest alignment of its elements, and the links ordered by alignment
/// are known without looking at the builders.
#[allow(private_bounds)]
pub trait ChainNode<'a>: Sealed + Sized {
    /// The alignments of the links' elements, the first link first.
    spec fn aligns() -> Seq<int>;

    /// The builders of the links, as borrowed by the chain, the first link first.
    spec fn slot_refs(&self) -> Seq<&'a mut GuardedBuilderInner>;

    /// There is one builder per link.
    proof fn lemma_slots_len(&self)
        ensures
            self.slot_refs().len() == Self::aligns().len(),
    ;

    /// Once the chain is done with, its builders are as it left them.
    proof fn lemma_resolved(&self)
        requires
            has_resolved(*self),
        ensures
            forall|i: int|
                #![trigger self.slot_refs()[i]]
                0 <= i < self.slot_refs().len() ==> *self.slot_refs()[i] == *final(self.slot_refs()[i]),
    ;

    /// The index of the last link, wrapping around: `usize::MAX` for a chain
    /// with no link.
    fn index() -> (r: usize)
        ensures
            r as int == last_index(Self::aligns().len() as int),
            Self::aligns().len() == 0 ==> r == usize::MAX,
            1 <= Self::aligns().len() <= usize::MAX + 1 ==> r == Self::aligns().len() - 1,
    ;

    /// The largest alignment of the links' elements; 1 with no link.
    fn max_alignment() -> (r: usize)
        ensures
            r == max_align_of(Self::aligns()),
            forall|i: int| 0 <= i < Self::aligns().len() ==> #[trigger] Self::aligns()[i] <= r,
            Self::aligns().len() == 0 ==> r == 1,
            Self::aligns().len() > 0 ==> exists|i: int|
                0 <= i < Self::aligns().len() && #[trigger] Self::aligns()[i] == r,
    ;

    /// The links' indices and alignments ordered by decreasing alignment,
    /// followed by entries that hold no link.
    fn sorted_indices_and_aligns() -> (r: [IndexAndAlign; MAX_CHAIN_LENGTH])
        requires
            Self::aligns().len() <= MAX_CHAIN_LENGTH,
        ensures
            r@ == sorted_table(Self::aligns()),
    ;

    /// Hands each link the address at its index in `ptrs`.
    fn distribute_pointers(&mut self, ptrs: &[usize])
        requires
            Self::aligns().len() <= ptrs@.len(),
        ensures
            final(self).slot_refs().len() == old(self).slot_refs().len(),
            forall|i: int|
                #![trigger final(self).slot_refs()[i]]
                0 <= i < old(self).slot_refs().len() ==> {
                    &&& final(self).slot_refs()[i].placed_at() == Some(ptrs@[i])
                    &&& final(self).slot_refs()[i].alignment()
                        == old(self).slot_refs()[i].alignment()
                    &&& final(self).slot_refs()[i].byte_size()
                        == old(self).slot_refs()[i].byte_size()
                    &&& *final(final(self).slot_refs()[i]) == *final(old(self).slot_refs()[i])
                },
    ;

    /// Writes the number of bytes of each link at its index in `sizes`.
    fn populate_sizes(&mut self, sizes: &mut [usize])
        requires
            Self::aligns().len() <= old(sizes)@.len(),
        ensures
            final(self).slot_refs() == old(self).slot_refs(),
            final(sizes)@.len() == old(sizes)@.len(),
            forall|i: int|
                0 <= i < Self::aligns().len() ==> #[trigger] final(sizes)@[i]
                    == old(self).slot_refs()[i].byte_size(),
            forall|i: int|
                Self::aligns().len() <= i < old(sizes)@.len() ==> #[trigger] final(sizes)@[i]
                    == old(sizes)@[i],
    ;
}

impl Sealed for () {
}

impl<'a> ChainNode<'a> for () {
    open spec fn aligns() -> Seq<int> {
        Seq::empty()
    }

    open spec fn slot_refs(&self) -> Seq<&'a mut GuardedBuilderInner> {
        Seq::empty()
    }

    proof fn lemma_slots_len(&self) {
    }

    proof fn lemma_resolved(&self) {
    }

    fn index() -> (r: usize) {
        proof {
            let m = usize::MAX as int + 1;
            vstd::arithmetic::div_mod::lemma_mod_add_multiples_vanish(-1, m);
            vstd::arithmetic::div_mod::lemma_small_mod((m - 1) as nat, m as nat);
        }
        usize::MAX
    }

    fn max_alignment() -> (r: usize) {
        1
    }

    fn sorted_indices_and_aligns() -> (r: [IndexAndAlign; MAX_CHAIN_LENGTH]) {
        let r = [IndexAndAlign { index: usize::MAX, align: 0 }; MAX_CHAIN_LENGTH];
        assert(r@ =~= empty_table());
        r
    }

    fn distribute_pointers(&mut self, ptrs: &[usize]) {
    }

    fn populate_sizes(&mut self, sizes: &mut [usize]) {
    }
}

/// A link of a chain: the builder of a slice of `A` followed by the rest of
/// the chain.
pub struct Chain<'a, A, B: ChainNode<'a>> {
    slot: &'a mut GuardedBuilderInner,
    next: B,
    elements: PhantomData<A>,
}

impl<'a, A, B: ChainNode<'a>> Chain<'a, A, B> {
    /// A chain whose first links are those of `next`, followed by `gsb`.
    pub fn new<'b>(gsb: &'a mut GuardedBuilder<'b, [A]>, next: B) -> (r: Self)
        ensures
            r.slot_refs().len() == next.slot_refs().len() + 1,
            forall|i: int|
                0 <= i < next.slot_refs().len() ==> #[trigger] r.slot_refs()[i]
                    == next.slot_refs()[i],
            *r.slot_refs().last() == old(gsb).slot(),
            *final(r.slot_refs().last()) == final(gsb).slot(),
            final(gsb).count() == old(gsb).count(),
    {
        Chain { slot: gsb.inner_mut(), next, elements: PhantomData }
    }
}

impl<'a, A, B: ChainNode<'a>> Sealed for Chain<'a, A, B> {
}

impl<'a, A, B: ChainNode<'a>> ChainNode<'a> for Chain<'a, A, B> {
    open spec fn aligns() -> Seq<int> {
        B::aligns().push(vstd::layout::align_of::<A>() as int)
    }

    closed spec fn slot_refs(&self) -> Seq<&'a mut GuardedBuilderInner> {
        self.next.slot_refs().push(self.slot)
    }

    proof fn lemma_slots_len(&self) {
        self.next.lemma_slots_len();
    }

    proof fn lemma_resolved(&self) {
        let whole = *self;
        assert(has_resolved(whole));
        assert(has_resolved(whole.next));
        assert(has_resolved(whole.slot));
        self.next.lemma_resolved();
        assert forall|i: int|
            #![trigger self.slot_refs()[i]]
            0 <= i < self.slot_refs().len() implies *self.slot_refs()[i] == *final(self.slot_refs()[i]) by {
            if i < self.next.slot_refs().len() {
                assert(self.slot_refs()[i] == self.next.slot_refs()[i]);
            }
        }
    }

    fn index() -> (r: usize) {
        let prev = B::index();
        proof {
            assert(Self::aligns().len() == B::aligns().len() + 1);
            lemma_last_index_step(Self::aligns().len() as int, prev);
            if Self::aligns().len() <= usize::MAX {
                lemma_last_index_small(Self::aligns().len() as int);
            } else if Self::aligns().len() == usize::MAX + 1 {
                let m = usize::MAX as int + 1;
                vstd::arithmetic::div_mod::lemma_small_mod((m - 1) as nat, m as nat);
            }
        }
        prev.wrapping_add(1)
    }

    fn max_alignment() -> (r: usize) {
        let a = core::mem::align_of::<A>();
        let b = B::max_alignment();
        proof {
            let al = Self::aligns();
            let n = B::aligns().len() as int;
            assert(al.drop_last() =~= B::aligns());
            assert(al[n] == a);
            assert forall|i: int| 0 <= i < al.len() implies #[trigger] al[i] <= max_int(a as int, b as int) by {
                if i < n {
                    assert(al[i] == B::aligns()[i]);
                }
            }
            if max_int(a as int, b as int) != a {
                let k = choose|k: int| 0 <= k < n && #[trigger] B::aligns()[k] == b;
                assert(al[k] == B::aligns()[k]);
            }
        }
        max(a, b)
    }

    fn sorted_indices_and_aligns() -> (r: [IndexAndAlign; MAX_CHAIN_LENGTH]) {
        let index = Self::index();
        proof {
            lemma_last_index_small(Self::aligns().len() as int);
        }
        let prev = B::sorted_indices_and_aligns();
        proof {
            assert(Self::aligns().drop_last() =~= B::aligns());
        }
        sorted_insert(index, IndexAndAlign { index, align: core::mem::align_of::<A>() }, prev)
    }

    fn distribute_pointers(&mut self, ptrs: &[usize]) {
        let index = Self::index();
        proof {
            lemma_last_index_small(Self::aligns().len() as int);
        }
        self.slot.set_ptr(ptrs[index]);
        self.next.distribute_pointers(ptrs);
        proof {
            old(self).next.lemma_slots_len();
            let n = B::aligns().len() as int;
            assert forall|i: int|
                #![trigger final(self).slot_refs()[i]]
                0 <= i < old(self).slot_refs().len() implies {
                    &&& final(self).slot_refs()[i].placed_at() == Some(ptrs@[i])
                    &&& final(self).slot_refs()[i].alignment()
                        == old(self).slot_refs()[i].alignment()
                    &&& final(self).slot_refs()[i].byte_size()
                        == old(self).slot_refs()[i].byte_size()
                    &&& *final(final(self).slot_refs()[i]) == *final(old(self).slot_refs()[i])
                } by {
                if i < n {
                    assert(final(self).slot_refs()[i] == final(self).next.slot_refs()[i]);
                    assert(old(self).slot_refs()[i] == old(self).next.slot_refs()[i]);
                }
            }
        }
    }

    fn populate_sizes(&mut self, sizes: &mut [usize]) {
        let index = Self::index();
        proof {
            lemma_last_index_small(Self::aligns().len() as int);
        }
        let size = self.slot.size();
        sizes[index] = size;
        self.next.populate_sizes(sizes);
        proof {
            old(self).next.lemma_slots_len();
            let n = B::aligns().len() as int;
            assert forall|i: int| 0 <= i < Self::aligns().len() implies #[trigger] final(sizes)@[i]
                == old(self).slot_refs()[i].byte_size() by {
                if i < n {
                    assert(old(self).slot_refs()[i] == old(self).next.slot_refs()[i]);
                }
            }
        }
    }
}

} // verus!
