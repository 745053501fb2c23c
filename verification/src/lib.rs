//! A low-level memory toolkit: size/alignment arithmetic, a modelled raw
//! allocation layer, a size-tagged allocation scheme that stores each block's
//! body size in a hidden header word, and a growable byte buffer built on top
//! of that scheme.

use vstd::prelude::*;

pub mod align;
pub mod heap;
pub mod math;
pub mod mem;
pub mod rlist;
pub mod rstring;

pub use align::{
    align_of, size_of, size_of_aligned, size_of_sys_aligned, BYTE_ALIGN_SIZE, SYS_ALIGN_SIZE,
};
pub use heap::{
    calloc, calloc_for, calloc_with_layout, free, free_for, free_with_layout, layout_of,
    layout_of_aligned, layout_of_bytes, malloc, malloc_for, malloc_with_layout, realloc,
    realloc_with_layout, Layout, LayoutError, Ptr, ZMEM_HEADER_SIZE,
};
pub use heap::{zcalloc, zfree, zmalloc, zmem_size_of, zrealloc, ZPtr};
pub use mem::{mem_cmp, mem_copy, mem_copy_for, mem_find, mem_move, mem_move_for, mem_set};
pub use rlist::RList;
pub use rstring::RString;

verus! {

/// Sum of two 32-bit integers; the operands must not overflow.
pub fn add(lhs: u32, rhs: u32) -> (r: u32)
    requires
        lhs + rhs <= u32::MAX,
    ensures
        r == lhs + rhs,
{
    lhs + rhs
}

} // verus!
