//! Size-class arithmetic of the kernel heap: rounding addresses up to an
//! alignment, and choosing the fixed-size block list that serves a request.
use vstd::prelude::*;

verus! {

/// Number of fixed block sizes.
pub const BLOCK_SIZE_COUNT: usize = 8;

/// The block sizes, each a power of two, in increasing order.
pub open spec fn block_size_spec(i: int) -> nat {
    if i == 0 {
        8
    } else if i == 1 {
        16
    } else if i == 2 {
        32
    } else if i == 3 {
        64
    } else if i == 4 {
        128
    } else if i == 5 {
        256
    } else if i == 6 {
        1024
    } else {
        2048
    }
}

pub fn block_size(i: usize) -> (r: usize)
    requires
        i < BLOCK_SIZE_COUNT,
    ensures
        r == block_size_spec(i as int),
{
    match i {
        0 => 8,
        1 => 16,
        2 => 32,
        3 => 64,
        4 => 128,
        5 => 256,
        6 => 1024,
        _ => 2048,
    }
}

/// Aligns `addr` upwards to `align`, a power of two.
pub fn align_up(addr: u64, align: u64) -> (r: u64)
    requires
        align > 0,
        align & ((align - 1) as u64) == 0,
        addr + align - 1 <= u64::MAX,
    ensures
        r & ((align - 1) as u64) == 0,
        addr <= r,
        r - addr < align,
{
    let r = (addr + (align - 1)) & !(align - 1);
    assert(r & ((align - 1) as u64) == 0 && addr <= r && r - addr < align) by (bit_vector)
        requires
            align > 0,
            align & ((align - 1) as u64) == 0,
            addr + align - 1 <= 0xffff_ffff_ffff_ffffu64,
            r == ((addr + align - 1) as u64) & !((align - 1) as u64),
    ;
    r
}

/// The smallest block list whose blocks hold `size` bytes at alignment
/// `align`, or `None` when the request is larger than every block.
pub fn list_index(size: usize, align: usize) -> (r: Option<usize>)
    ensures
        ({
            let required = if size >= align { size } else { align };
            match r {
                Some(i) => i < BLOCK_SIZE_COUNT && block_size_spec(i as int) >= required && forall|j: int|
                    0 <= j < i ==> #[trigger] block_size_spec(j) < required,
                None => forall|j: int| 0 <= j < BLOCK_SIZE_COUNT ==> #[trigger] block_size_spec(j) < required,
            }
        }),
{
    let required: usize = if size >= align { size } else { align };
    let mut i: usize = 0;
    while i < BLOCK_SIZE_COUNT
        invariant
            i <= BLOCK_SIZE_COUNT,
            required == (if size >= align { size } else { align }),
            forall|j: int| 0 <= j < i ==> #[trigger] block_size_spec(j) < required,
        decreases BLOCK_SIZE_COUNT - i,
    {
        if block_size(i) >= required {
            return Some(i);
        }
        i = i + 1;
    }
    None
}

} // verus!
