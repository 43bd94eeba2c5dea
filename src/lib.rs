//! Hardware-facing core of a small kernel: a physical frame allocator,
//! page-table address arithmetic and a pixel framebuffer text console.
use vstd::prelude::*;

pub mod frame;
pub mod framebuffer;
pub mod paging;

verus! {

} // verus!
