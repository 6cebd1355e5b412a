//! An allocator over one caller-provided region that serves at most one
//! allocation at a time.
use vstd::prelude::*;
use crate::layout::{AllocError, AllocLayout, align_offset, align_offset_spec, lemma_round_up};
use vstd::layout::valid_layout;

verus! {

/// Allocator which will allocate only once at a time, out of the region of
/// `len` bytes that starts at address `start`.
pub struct SingleAllocation {
    allocated: bool,
    start: usize,
    len: usize,
}

impl SingleAllocation {
    #[verifier::type_invariant]
    spec fn region_fits(self) -> bool {
        self.start + self.len <= usize::MAX
    }

    /// The first address of the managed region.
    pub closed spec fn region_start(self) -> int {
        self.start as int
    }

    /// The number of bytes of the managed region.
    pub closed spec fn region_len(self) -> int {
        self.len as int
    }

    /// Whether an allocation is currently handed out.
    pub closed spec fn in_use(self) -> bool {
        self.allocated
    }

    /// The offset from the region's start at which a block of `layout` would be
    /// placed: the distance to the first address aligned for it.
    pub open spec fn placement_offset(self, layout: AllocLayout) -> int {
        align_offset_spec(self.region_start(), layout.align as int)
    }

    /// Whether a block of `layout`, placed at its offset, ends within the region.
    pub open spec fn fits(self, layout: AllocLayout) -> bool {
        self.placement_offset(layout) + layout.size <= self.region_len()
    }

    /// Manages the `len` bytes that start at address `start`; nothing is
    /// allocated yet. `allocate` and `deallocate` keep the region, and every
    /// block `allocate` hands out lies within it.
    pub fn from_raw_parts(start: usize, len: usize) -> (r: SingleAllocation)
        requires
            start + len <= usize::MAX,
        ensures
            r.region_start() == start,
            r.region_len() == len,
            !r.in_use(),
    {
        SingleAllocation { allocated: false, start, len }
    }

    /// Whether an allocation is currently handed out.
    pub fn is_allocated(&self) -> (r: bool)
        ensures
            r == self.in_use(),
    {
        self.allocated
    }

    /// Hands out the block for `layout`, placed at the first address of the
    /// region aligned to `layout.align`. Fails, leaving the allocator as it
    /// was, when the block does not fit or when an allocation is already live.
    pub fn allocate(&mut self, layout: AllocLayout) -> (r: Result<usize, AllocError>)
        requires
            valid_layout(layout.size, layout.align),
        ensures
            final(self).region_start() == old(self).region_start(),
            final(self).region_len() == old(self).region_len(),
            !old(self).fits(layout) ==> r is Err && final(self).in_use() == old(self).in_use(),
            old(self).fits(layout) && old(self).in_use() ==> r is Err && final(self).in_use(),
            old(self).fits(layout) && !old(self).in_use() ==> r == Ok::<usize, AllocError>(
                (old(self).region_start() + old(self).placement_offset(layout)) as usize,
            ) && final(self).in_use(),
            // The block handed out is aligned and lies inside the region.
            r matches Ok(addr) ==> {
                &&& addr as int % layout.align as int == 0
                &&& old(self).region_start() <= addr
                &&& addr + layout.size <= old(self).region_start() + old(self).region_len()
            },
    {
        proof {
            use_type_invariant(&*self);
            vstd::arithmetic::power2::is_pow2_equiv(layout.align as int);
            crate::layout::lemma_pow2_positive(layout.align as int);
            lemma_round_up(self.start as int, layout.align as int);
        }
        let offset = align_offset(self.start, layout.align);
        if offset > self.len || layout.size > self.len - offset {
            return Err(AllocError);
        }
        if self.allocated {
            return Err(AllocError);
        }
        self.allocated = true;
        Ok(self.start + offset)
    }

    /// Gives back the live allocation; the block's address and layout are not
    /// consulted, since there is only one.
    pub fn deallocate(&mut self, _addr: usize, _layout: AllocLayout)
        requires
            old(self).in_use(),
        ensures
            !final(self).in_use(),
            final(self).region_start() == old(self).region_start(),
            final(self).region_len() == old(self).region_len(),
    {
        proof {
            use_type_invariant(&*self);
        }
        self.allocated = false;
    }
}

} // verus!
