//! The guard: the owner of the one contiguous allocation that the arrays of
//! several builders share.
use vstd::prelude::*;
use crate::layout::AllocLayout;
use crate::subscriber::Subscriber;
use core::ops::Range;

verus! {

/// A block of memory handed out by an allocator: its address and its layout.
#[derive(Debug, Clone, Copy, PartialEq, Eq)]
pub struct Allocation {
    pub addr: usize,
    pub layout: AllocLayout,
}

impl Allocation {
    /// The layout is valid, the address is aligned to it, and the block ends
    /// within the address space.
    pub open spec fn wf(self) -> bool {
        &&& self.layout.is_valid()
        &&& self.addr as int % self.layout.align as int == 0
        &&& self.addr + self.layout.size <= usize::MAX
    }
}

/// The process-wide allocator, the one a [`Guard`] made with [`Guard::new`] uses.
#[derive(Debug, Clone, Copy, PartialEq, Eq)]
pub struct Global;

/// `Guard` manages and owns a contiguous allocation of memory, made with the
/// allocator `A`. A `Guard` is used for one allocation only.
pub struct Guard<A = Global> {
    allocator: A,
    allocation: Option<Allocation>,
}

impl<A> Guard<A> {
    #[verifier::type_invariant]
    spec fn allocation_fits(self) -> bool {
        self.allocation matches Some(a) ==> a.wf()
    }

    /// The allocation this guard owns, if it made one.
    pub closed spec fn current(self) -> Option<Allocation> {
        self.allocation
    }

    /// The allocator this guard allocates with.
    pub closed spec fn allocator_value(self) -> A {
        self.allocator
    }

    /// Construct a new [`Guard`] that will allocate with `allocator`.
    pub fn new_in(allocator: A) -> (r: Self)
        ensures
            r.current() is None,
            r.allocator_value() == allocator,
    {
        Guard { allocator, allocation: None }
    }

    /// The allocator this guard allocates with.
    pub fn allocator(&self) -> (r: &A)
        ensures
            *r == self.allocator_value(),
    {
        &self.allocator
    }

    /// The allocation this guard owns, if it made one. Its address is aligned
    /// to its layout and the block ends within the address space.
    pub fn allocation(&self) -> (r: Option<Allocation>)
        ensures
            r == self.current(),
            r matches Some(a) ==> a.wf(),
    {
        proof {
            use_type_invariant(self);
        }
        self.allocation
    }

    /// Gets the address of the allocation; if the allocation did not occur,
    /// the null address (0) is returned.
    pub fn as_ptr(&self) -> (r: usize)
        ensures
            r == match self.current() {
                Some(a) => a.addr,
                None => 0usize,
            },
    {
        if let Some(a) = self.allocation {
            a.addr
        } else {
            0
        }
    }

    /// Returns the two addresses spanning the allocation; if the allocation
    /// did not occur, `0..0` is returned.
    pub fn as_ptr_range(&self) -> (r: Range<usize>)
        ensures
            self.current() matches Some(a) ==> r.start == a.addr && r.end == a.addr + a.layout.size,
            self.current() is None ==> r.start == 0 && r.end == 0,
    {
        proof {
            use_type_invariant(self);
        }
        if let Some(a) = self.allocation {
            let ptr = self.as_ptr();
            ptr..(ptr + a.layout.size)
        } else {
            0..0
        }
    }

    /// Constructs a [`Subscriber`], to which several builders subscribe so
    /// that their arrays are placed in this guard's single allocation. A
    /// guard that already holds an allocation cannot be used again.
    pub fn subscriber<'builder>(&mut self) -> (r: Subscriber<'_, 'builder, A>)
        requires
            old(self).current() is None,
        ensures
            r.wf(),
            r.slot_refs().len() == 0,
            *r.guard_ref() == *old(self),
            *final(r.guard_ref()) == *final(self),
    {
        Subscriber::new(self)
    }

    /// Records the allocation made for this guard.
    pub(crate) fn record(&mut self, allocation: Allocation)
        requires
            allocation.wf(),
        ensures
            final(self).current() == Some(allocation),
            final(self).allocator_value() == old(self).allocator_value(),
    {
        self.allocation = Some(allocation);
    }

    /// Gives up the allocation, returning it so that it can be handed back to
    /// the allocator; the guard holds no allocation afterwards.
    pub fn release(&mut self) -> (r: Option<Allocation>)
        ensures
            r == old(self).current(),
            r matches Some(a) ==> a.wf(),
            final(self).current() is None,
            final(self).allocator_value() == old(self).allocator_value(),
    {
        proof {
            use_type_invariant(&*self);
        }
        let r = self.allocation;
        self.allocation = None;
        r
    }
}

impl Guard<Global> {
    /// Construct a new [`Guard`] that will allocate with the global allocator.
    pub fn new() -> (r: Self)
        ensures
            r.current() is None,
            r.allocator_value() == Global,
    {
        Self::new_in(Global)
    }
}

impl Default for Guard<Global> {
    fn default() -> (r: Self)
        ensures
            r.current() is None,
            r.allocator_value() == Global,
    {
        Self::new()
    }
}

} // verus!
