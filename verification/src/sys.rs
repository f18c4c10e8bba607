//! The kernel as this library sees it: handles, error codes, and the system
//! calls it asks its caller to make, each written down as a plain value.

use vstd::prelude::*;

verus! {

/// A kernel object, by the number under which this process knows it.
pub type SysHandle = u64;

/// What a failed system call reports.
pub type ErrorCode = u16;

/// The handle of no object.
pub const HANDLE_NONE: SysHandle = 0;

/// The handle of the running process.
pub const HANDLE_SELF: SysHandle = 2;

/// An argument was out of range, or the object was in the wrong state.
pub const E_INVALID_ARGUMENT: ErrorCode = 7;

/// A handle is stale: the peer is gone.
pub const E_BAD_HANDLE: ErrorCode = 17;

/// Size in bytes of a small page.
pub const PAGE_SIZE_SMALL: u64 = 4096;

/// Size in bytes of a mid-size page.
pub const PAGE_SIZE_MID: u64 = 2097152;

/// Map no physical frame behind the pages.
pub const MAP_RESERVED: u32 = 0;

/// Map the pages readable and writable.
pub const MAP_READ_WRITE: u32 = 3;

/// Stands for "any address" where a call takes one.
pub const ANY_ADDRESS: u64 = u64::MAX;

/// A request to map pages into an address space.
#[derive(Clone, Copy, PartialEq, Eq, Debug, Structural)]
pub struct MapCall {
    pub address_space: SysHandle,
    pub flags: u32,
    pub phys_addr: u64,
    pub virt_addr: u64,
    pub page_size: u64,
    pub num_pages: u64,
}

/// A request to take down the mapping that starts at `virt_addr`.
#[derive(Clone, Copy, PartialEq, Eq, Debug, Structural)]
pub struct UnmapCall {
    pub address_space: SysHandle,
    pub flags: u32,
    pub phys_addr: u64,
    pub virt_addr: u64,
}

/// A request to open an object by its URL: to create it, or to get at one that
/// another process has created.
#[derive(Debug)]
pub struct OpenCall {
    pub parent: SysHandle,
    pub flags: u32,
    pub url: String,
}

/// A request to sleep until one of `handles` wakes this thread.
#[derive(Debug)]
pub struct WaitCall {
    pub handles: Vec<SysHandle>,
    pub swap_target: SysHandle,
    pub wake_target: SysHandle,
    /// When to give up, in clock ticks; never, if absent.
    pub timeout: Option<u64>,
}

/// A call that gives a resource back to the kernel. It is expected to succeed.
#[derive(Clone, Copy, PartialEq, Eq, Debug, Structural)]
pub enum Cleanup {
    /// Close this handle.
    Put(SysHandle),
    /// Take down this mapping.
    Unmap(UnmapCall),
}

/// What an [`OpenCall`] says.
pub struct OpenCallView {
    pub parent: SysHandle,
    pub flags: u32,
    pub url: Seq<char>,
}

/// What a [`WaitCall`] says.
pub struct WaitCallView {
    pub handles: Seq<SysHandle>,
    pub swap_target: SysHandle,
    pub wake_target: SysHandle,
    pub timeout: Option<u64>,
}

impl View for OpenCall {
    type V = OpenCallView;

    open spec fn view(&self) -> OpenCallView {
        OpenCallView { parent: self.parent, flags: self.flags, url: self.url@ }
    }
}

impl View for WaitCall {
    type V = WaitCallView;

    open spec fn view(&self) -> WaitCallView {
        WaitCallView {
            handles: self.handles@,
            swap_target: self.swap_target,
            wake_target: self.wake_target,
            timeout: self.timeout,
        }
    }
}

/// One page of `page_size` bytes for this process, wherever it fits.
pub open spec fn map_one_page(flags: u32, page_size: u64) -> MapCall {
    MapCall {
        address_space: HANDLE_SELF,
        flags,
        phys_addr: ANY_ADDRESS,
        virt_addr: ANY_ADDRESS,
        page_size,
        num_pages: 1,
    }
}

/// The mapping of this process that starts at `addr`, given back.
pub open spec fn unmap_at(addr: u64) -> UnmapCall {
    UnmapCall {
        address_space: HANDLE_SELF,
        flags: 0,
        phys_addr: ANY_ADDRESS,
        virt_addr: addr,
    }
}

/// What is left to give back of an endpoint with this handle and this mapping:
/// the handle if there is one, then the mapping if there is one.
pub open spec fn release(handle: SysHandle, smem_addr: u64) -> Seq<Cleanup> {
    (if handle != HANDLE_NONE {
        seq![Cleanup::Put(handle)]
    } else {
        seq![]
    }) + (if smem_addr != 0 {
        seq![Cleanup::Unmap(unmap_at(smem_addr))]
    } else {
        seq![]
    })
}

/// Appends to `calls` what it takes to give back an endpoint.
pub(crate) fn push_release(calls: &mut Vec<Cleanup>, handle: SysHandle, smem_addr: u64)
    ensures
        final(calls)@ == old(calls)@ + release(handle, smem_addr),
{
    if handle != HANDLE_NONE {
        calls.push(Cleanup::Put(handle));
    }
    if smem_addr != 0 {
        calls.push(
            Cleanup::Unmap(
                UnmapCall {
                    address_space: HANDLE_SELF,
                    flags: 0,
                    phys_addr: ANY_ADDRESS,
                    virt_addr: smem_addr,
                },
            ),
        );
    }
}

} // verus!
