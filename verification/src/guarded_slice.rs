//! Builders: the request of one array (its alignment and its size in bytes)
//! and, once the shared allocation happened, the address it was placed at.
use vstd::prelude::*;
use vstd::arithmetic::power2::is_pow2;
use core::marker::PhantomData;

verus! {

broadcast use vstd::layout::group_align_properties;

/// What a builder asks of the shared allocation, and where it was placed.
pub struct GuardedBuilderInner {
    ptr: Option<usize>,
    align: usize,
    size: usize,
}

impl GuardedBuilderInner {
    #[verifier::type_invariant]
    spec fn align_is_pow2(self) -> bool {
        is_pow2(self.align as int)
    }

    /// The address the array was placed at, once allocated.
    pub closed spec fn placed_at(self) -> Option<usize> {
        self.ptr
    }

    /// The alignment the array needs.
    pub closed spec fn alignment(self) -> int {
        self.align as int
    }

    /// The number of bytes the array needs.
    pub closed spec fn byte_size(self) -> int {
        self.size as int
    }

    /// The alignment the array needs; always a power of two.
    pub fn align(&self) -> (r: usize)
        ensures
            r == self.alignment(),
            is_pow2(r as int),
    {
        proof {
            use_type_invariant(self);
        }
        self.align
    }

    /// The number of bytes the array needs.
    pub fn size(&self) -> (r: usize)
        ensures
            r == self.byte_size(),
    {
        self.size
    }

    /// Records the address the array was placed at.
    pub(crate) fn set_ptr(&mut self, addr: usize)
        ensures
            final(self).placed_at() == Some(addr),
            final(self).alignment() == old(self).alignment(),
            final(self).byte_size() == old(self).byte_size(),
    {
        proof {
            use_type_invariant(&*self);
        }
        self.ptr = Some(addr);
    }
}

/// Prepares the allocation of an array of `T` (or of one `T`) inside the
/// shared allocation of a [`crate::Guard`]: it records the size and the
/// alignment to reserve, and receives its address when the allocation happens.
pub struct GuardedBuilder<'guard, T: ?Sized> {
    inner: GuardedBuilderInner,
    n: usize,
    pd: PhantomData<&'guard T>,
}

impl<'guard, T: ?Sized> GuardedBuilder<'guard, T> {
    /// The request and placement of this builder.
    pub closed spec fn slot(self) -> GuardedBuilderInner {
        self.inner
    }

    /// The number of elements this builder prepares.
    pub closed spec fn count(self) -> int {
        self.n as int
    }

    /// The number of elements this builder prepares.
    pub fn len(&self) -> (r: usize)
        ensures
            r == self.count(),
    {
        self.n
    }

    /// The address reserved for this builder's array: `None` until a
    /// subscriber it was subscribed to has successfully allocated.
    pub fn allocated_at(&self) -> (r: Option<usize>)
        ensures
            r == self.slot().placed_at(),
    {
        self.inner.ptr
    }

    /// The number of bytes reserved for this builder's array.
    pub fn byte_len(&self) -> (r: usize)
        ensures
            r == self.slot().byte_size(),
    {
        self.inner.size
    }

    /// Records the address reserved for this builder's array.
    pub(crate) fn place(&mut self, addr: usize)
        ensures
            final(self).slot().placed_at() == Some(addr),
            final(self).slot().alignment() == old(self).slot().alignment(),
            final(self).slot().byte_size() == old(self).slot().byte_size(),
            final(self).count() == old(self).count(),
    {
        self.inner.set_ptr(addr);
    }

    /// The request of this builder, for a subscriber to reserve space for it.
    pub(crate) fn inner_mut(&mut self) -> (r: &mut GuardedBuilderInner)
        ensures
            *r == old(self).slot(),
            final(self).slot() == *final(r),
            final(self).count() == old(self).count(),
    {
        &mut self.inner
    }
}

impl<'guard, T> GuardedBuilder<'guard, [T]> {
    /// Prepares the allocation of a slice of `n` elements of `T`.
    pub fn new_slice(n: usize) -> (r: Self)
        requires
            vstd::layout::size_of::<T>() * n <= usize::MAX,
        ensures
            r.slot().placed_at() is None,
            r.slot().alignment() == vstd::layout::align_of::<T>(),
            r.slot().byte_size() == vstd::layout::size_of::<T>() * n,
            r.count() == n,
    {
        let align = core::mem::align_of::<T>();
        let size = core::mem::size_of::<T>() * n;
        GuardedBuilder {
            inner: GuardedBuilderInner { ptr: None, align, size },
            n,
            pd: PhantomData,
        }
    }
}

impl<'guard, T> GuardedBuilder<'guard, T> {
    /// Prepares the allocation of a single `T`.
    pub fn new() -> (r: Self)
        ensures
            r.slot().placed_at() is None,
            r.slot().alignment() == vstd::layout::align_of::<T>(),
            r.slot().byte_size() == vstd::layout::size_of::<T>(),
            r.count() == 1,
    {
        let align = core::mem::align_of::<T>();
        let size = core::mem::size_of::<T>();
        GuardedBuilder {
            inner: GuardedBuilderInner { ptr: None, align, size },
            n: 1,
            pd: PhantomData,
        }
    }
}

} // verus!
