//! Size and alignment arithmetic shared by the whole crate: rounding up to an
//! alignment, the validity rule of an allocation layout, and the layout type
//! that carries a valid size and alignment.
use vstd::prelude::*;
use vstd::arithmetic::power2::is_pow2;
use vstd::layout::valid_layout;

verus! {

/// The smallest multiple of `align` that is not below `x` (for `align > 0`).
pub open spec fn round_up(x: int, align: int) -> int {
    if x % align == 0 {
        x
    } else {
        x - x % align + align
    }
}

/// The larger of two integers.
pub open spec fn max_int(a: int, b: int) -> int {
    if a > b {
        a
    } else {
        b
    }
}

/// `round_up` gives a multiple of the alignment, at least `x` and less than `x + align`.
pub proof fn lemma_round_up(x: int, align: int)
    requires
        align > 0,
    ensures
        round_up(x, align) % align == 0,
        x <= round_up(x, align) < x + align,
        x % align == 0 ==> round_up(x, align) == x,
{
    vstd::arithmetic::div_mod::lemma_fundamental_div_mod(x, align);
    vstd::arithmetic::div_mod::lemma_mod_bound(x, align);
    if x % align != 0 {
        let q = x / align;
        assert(round_up(x, align) == (q + 1) * align) by (nonlinear_arith)
            requires
                x == align * q + x % align,
                round_up(x, align) == x - x % align + align,
        ;
        vstd::arithmetic::div_mod::lemma_mod_multiples_basic(q + 1, align);
    }
}

/// A power of two below another power of two is at most half of it.
proof fn lemma_pow2_lt_double(a: int, b: int)
    requires
        is_pow2(a),
        is_pow2(b),
        a < b,
    ensures
        2 * a <= b,
    decreases a,
{
    reveal(is_pow2);
    if a > 1 {
        lemma_pow2_lt_double(a / 2, b / 2);
    }
}

/// A power of two is divisible by every power of two that is not larger.
pub proof fn lemma_pow2_divides(a: int, b: int)
    requires
        is_pow2(a),
        is_pow2(b),
        a <= b,
    ensures
        b % a == 0,
    decreases b,
{
    reveal(is_pow2);
    if a < b {
        lemma_pow2_lt_double(a, b);
        lemma_pow2_divides(a, b / 2);
        let k = (b / 2) / a;
        vstd::arithmetic::div_mod::lemma_fundamental_div_mod(b / 2, a);
        assert(b == a * (2 * k)) by (nonlinear_arith)
            requires
                b == 2 * (b / 2),
                b / 2 == a * k + 0,
        ;
        vstd::arithmetic::div_mod::lemma_mod_multiples_basic(2 * k, a);
        assert((2 * k) * a == a * (2 * k)) by (nonlinear_arith);
    } else {
        vstd::arithmetic::div_mod::lemma_mod_self_0(a);
    }
}

/// A power of two is positive.
pub proof fn lemma_pow2_positive(a: int)
    requires
        is_pow2(a),
    ensures
        a > 0,
{
    reveal(is_pow2);
}

/// Whether `x` is a power of two.
pub fn is_power_of_two(x: usize) -> (r: bool)
    ensures
        r == is_pow2(x as int),
{
    reveal(is_pow2);
    if x == 0 {
        return false;
    }
    let mut y = x;
    while y % 2 == 0
        invariant
            y > 0,
            is_pow2(y as int) == is_pow2(x as int),
        decreases y,
    {
        proof {
            reveal(is_pow2);
        }
        y = y / 2;
    }
    y == 1
}

/// The larger of two sizes.
pub fn max(a: usize, b: usize) -> (r: usize)
    ensures
        r == max_int(a as int, b as int),
        r >= a && r >= b,
        r == a || r == b,
{
    if a > b {
        a
    } else {
        b
    }
}

/// Rounds `x` up to a multiple of `align`.
pub fn align_up(x: usize, align: usize) -> (r: usize)
    requires
        align > 0,
        round_up(x as int, align as int) <= usize::MAX,
    ensures
        r == round_up(x as int, align as int),
        r % align == 0,
        x <= r < x + align,
{
    proof {
        lemma_round_up(x as int, align as int);
    }
    let rem = x % align;
    proof {
        vstd::arithmetic::div_mod::lemma_mod_bound(x as int, align as int);
        vstd::arithmetic::div_mod::lemma_mod_decreases(x as nat, align as nat);
    }
    if rem == 0 {
        x
    } else {
        x - rem + align
    }
}

/// The distance from `addr` up to the next multiple of `align`.
pub open spec fn align_offset_spec(addr: int, align: int) -> int {
    round_up(addr, align) - addr
}

/// The number of bytes to add to `addr` to make it a multiple of `align`,
/// computed without overflow even at the top of the address space.
pub fn align_offset(addr: usize, align: usize) -> (r: usize)
    requires
        align > 0,
    ensures
        r == align_offset_spec(addr as int, align as int),
        r < align,
        (addr + r) % (align as int) == 0,
{
    proof {
        lemma_round_up(addr as int, align as int);
    }
    let rem = addr % align;
    if rem == 0 {
        0
    } else {
        align - rem
    }
}

/// The error of an allocation that could not be served.
#[derive(Debug, Clone, Copy, PartialEq, Eq)]
pub struct AllocError;

/// The size and alignment of a block of memory.
#[derive(Debug, Clone, Copy, PartialEq, Eq)]
pub struct AllocLayout {
    pub size: usize,
    pub align: usize,
}

impl AllocLayout {
    /// Whether this layout could be handed to an allocator: the alignment is a
    /// power of two and the size, rounded up to it, does not exceed `isize::MAX`.
    pub open spec fn is_valid(self) -> bool {
        valid_layout(self.size, self.align)
    }

    /// Builds a layout from a size and an alignment; `None` exactly when the
    /// pair is not a valid layout.
    pub fn from_size_align(size: usize, align: usize) -> (r: Option<AllocLayout>)
        ensures
            r is Some <==> valid_layout(size, align),
            r matches Some(l) ==> l.size == size && l.align == align,
    {
        if !is_power_of_two(align) {
            return None;
        }
        proof {
            lemma_pow2_positive(align as int);
        }
        let max_size: usize = isize::MAX as usize;
        proof {
            vstd::arithmetic::div_mod::lemma_mod_decreases(max_size as nat, align as nat);
        }
        if size <= max_size - max_size % align {
            Some(AllocLayout { size, align })
        } else {
            None
        }
    }
}

} // verus!
