//! Where the active top-level page table is reachable through the linear
//! mapping of physical memory.
use vstd::prelude::*;

verus! {

/// The canonical form of a virtual address: bits 48 to 63 copy bit 47.
/// Addresses that hold other data in bits 47 to 63 have none. Bits 47 to 63
/// holding exactly 1 are sign-extended.
pub open spec fn canonical(addr: u64) -> Option<u64> {
    let top = addr >> 47u64;
    if top == 0 || top == 0x1ffff {
        Some(addr)
    } else if top == 1 {
        Some(addr | 0xffff_0000_0000_0000u64)
    } else {
        None
    }
}

/// Relies on x86_64's `VirtAddr::try_new`: accepts an address whose bits 47
/// to 63 are all clear or all set, sign-extends one where only bit 47 of them
/// is set, and refuses the rest.
#[verifier::external_body]
fn virt_addr_try_new(addr: u64) -> (r: Option<u64>)
    ensures
        r == canonical(addr),
{
    match x86_64::VirtAddr::try_new(addr) {
        Ok(v) => Some(v.as_u64()),
        Err(_) => None,
    }
}

/// Virtual address of the page table whose frame starts at physical address
/// `table_frame`, when all of physical memory is mapped from
/// `physical_memory_offset` on. `None` when the sum leaves the 64-bit range or
/// is no virtual address.
pub fn level_4_table_address(physical_memory_offset: u64, table_frame: u64) -> (r: Option<u64>)
    ensures
        r == if physical_memory_offset + table_frame <= u64::MAX {
            canonical((physical_memory_offset + table_frame) as u64)
        } else {
            None
        },
{
    match physical_memory_offset.checked_add(table_frame) {
        Some(virt) => virt_addr_try_new(virt),
        None => None,
    }
}

} // verus!
