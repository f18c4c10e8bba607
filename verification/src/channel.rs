//! The page that the two ends of a channel share, and access to parts of it.

use crate::sys::{ErrorCode, E_INVALID_ARGUMENT, PAGE_SIZE_MID, PAGE_SIZE_SMALL};
use vstd::prelude::*;

verus! {

/// How much memory a channel shares: a small page (4 KiB) or a mid-size page
/// (2 MiB).
#[derive(Clone, Copy, PartialEq, Eq, Debug, Structural)]
pub enum ChannelSize {
    Small,
    Mid,
}

impl ChannelSize {
    /// The size of the page that a channel of this size shares.
    pub open spec fn page_size(self) -> u64 {
        match self {
            ChannelSize::Small => PAGE_SIZE_SMALL,
            ChannelSize::Mid => PAGE_SIZE_MID,
        }
    }

    /// What the kernel calls that page in a URL.
    pub open spec fn page_type(self) -> Seq<char> {
        match self {
            ChannelSize::Small => "small"@,
            ChannelSize::Mid => "mid"@,
        }
    }

    /// The number of bytes shared.
    pub fn size(&self) -> (bytes: usize)
        ensures
            bytes == self.page_size(),
    {
        match self {
            ChannelSize::Small => PAGE_SIZE_SMALL as usize,
            ChannelSize::Mid => PAGE_SIZE_MID as usize,
        }
    }
}

/// A stretch of this process's memory.
#[derive(Clone, Copy, PartialEq, Eq, Debug, Structural)]
pub struct Region {
    pub addr: usize,
    pub len: usize,
}

impl Region {
    /// `len` bytes from `start` on lie inside this region.
    pub open spec fn covers(self, start: int, len: int) -> bool {
        self.addr <= start && start + len <= self.addr + self.len
    }

    /// Whether `len` bytes from `start` on lie inside this region can be told
    /// by machine arithmetic: they start below it, or both ends have addresses.
    pub open spec fn comparable(self, start: int, len: int) -> bool {
        start < self.addr || (start + len <= usize::MAX && self.addr + self.len <= usize::MAX)
    }

    /// Where in the region's bytes the address `start` is.
    pub open spec fn offset(self, start: int) -> int {
        start - self.addr
    }
}

/// `mem` with `bytes` in place of what is from `from` up to `to`.
pub open spec fn spliced(mem: Seq<u8>, from: int, to: int, bytes: Seq<u8>) -> Seq<u8> {
    mem.subrange(0, from) + bytes + mem.subrange(to, mem.len() as int)
}

/// The bytes of `mem` from `from` up to `to`, to be written through.
fn window_mut(mem: &mut [u8], from: usize, to: usize) -> (window: &mut [u8])
    requires
        from <= to <= old(mem)@.len(),
    ensures
        window@ == old(mem)@.subrange(from as int, to as int),
        final(mem)@ == spliced(old(mem)@, from as int, to as int, final(window)@),
{
    let (_, rest) = mem.split_at_mut(from);
    let (window, _) = rest.split_at_mut(to - from);
    window
}

/// A channel's page, by its place in memory.
///
/// The memory itself is shared with another process, so it is not held here:
/// each function that reads or writes it takes the page's bytes as an argument.
pub struct RawChannel {
    addr: usize,
    size: usize,
}

impl View for RawChannel {
    type V = Region;

    closed spec fn view(&self) -> Region {
        Region { addr: self.addr, len: self.size }
    }
}

impl RawChannel {
    /// The channel whose page is `region`.
    pub(crate) fn at(region: Region) -> (channel: Self)
        ensures
            channel@ == region,
    {
        RawChannel { addr: region.addr, size: region.len }
    }

    /// The address of the page's first byte.
    pub fn addr(&self) -> (addr: usize)
        ensures
            addr == self@.addr,
    {
        self.addr
    }

    /// The number of bytes in the page.
    pub fn size(&self) -> (size: usize)
        ensures
            size == self@.len,
    {
        self.size
    }

    /// Where in the page `len` bytes from the address `start_addr` on are.
    fn locate(&self, start_addr: usize, len: usize) -> (offset: Result<usize, ErrorCode>)
        requires
            self@.comparable(start_addr as int, len as int),
        ensures
            offset == (if self@.covers(start_addr as int, len as int) {
                Ok::<usize, ErrorCode>(self@.offset(start_addr as int) as usize)
            } else {
                Err(E_INVALID_ARGUMENT)
            }),
    {
        if start_addr < self.addr || start_addr + len > self.addr + self.size {
            return Err(E_INVALID_ARGUMENT);
        }
        Ok(start_addr - self.addr)
    }

    /// The bytes of a `T` at the start of the page, to be written through.
    pub fn get_mut<'a, T: Sized>(&self, mem: &'a mut [u8]) -> (bytes: &'a mut [u8])
        requires
            old(mem)@.len() == self@.len,
            vstd::layout::size_of::<T>() <= self@.len,
        ensures
            bytes@ == old(mem)@.take(vstd::layout::size_of::<T>() as int),
            final(mem)@ == spliced(
                old(mem)@,
                0,
                vstd::layout::size_of::<T>() as int,
                final(bytes)@,
            ),
    {
        window_mut(mem, 0, core::mem::size_of::<T>())
    }

    /// The bytes of a `T` at the start of the page.
    pub fn get<'a, T: Sized>(&self, mem: &'a [u8]) -> (bytes: &'a [u8])
        requires
            mem@.len() == self@.len,
            vstd::layout::size_of::<T>() <= self@.len,
        ensures
            bytes@ == mem@.take(vstd::layout::size_of::<T>() as int),
    {
        vstd::slice::slice_subrange(mem, 0, core::mem::size_of::<T>())
    }

    /// The bytes of `size` consecutive `T`s from the address `start_addr` on, to
    /// be written through; an error if they are not all inside the page.
    pub fn get_at_mut<'a, T: Sized>(&self, mem: &'a mut [u8], start_addr: usize, size: usize) -> (bytes:
        Result<&'a mut [u8], ErrorCode>)
        requires
            old(mem)@.len() == self@.len,
            self@.comparable(start_addr as int, vstd::layout::size_of::<T>() * size),
        ensures
            bytes is Ok <==> self@.covers(
                start_addr as int,
                vstd::layout::size_of::<T>() * size,
            ),
            match bytes {
                Ok(bytes) => {
                    let at = self@.offset(start_addr as int);
                    let len = vstd::layout::size_of::<T>() * size;
                    &&& bytes@ == old(mem)@.subrange(at, at + len)
                    &&& final(mem)@ == spliced(old(mem)@, at, at + len, final(bytes)@)
                },
                Err(e) => e == E_INVALID_ARGUMENT && final(mem)@ == old(mem)@,
            },
    {
        if start_addr < self.addr {
            return Err(E_INVALID_ARGUMENT);
        }
        let len = core::mem::size_of::<T>() * size;
        match self.locate(start_addr, len) {
            Ok(at) => Ok(window_mut(mem, at, at + len)),
            Err(e) => Err(e),
        }
    }

    /// The bytes of `size` consecutive `T`s from the address `start_addr` on; an
    /// error if they are not all inside the page.
    pub fn get_at<'a, T: Sized>(&self, mem: &'a [u8], start_addr: usize, size: usize) -> (bytes:
        Result<&'a [u8], ErrorCode>)
        requires
            mem@.len() == self@.len,
            self@.comparable(start_addr as int, vstd::layout::size_of::<T>() * size),
        ensures
            bytes is Ok <==> self@.covers(
                start_addr as int,
                vstd::layout::size_of::<T>() * size,
            ),
            match bytes {
                Ok(bytes) => {
                    let at = self@.offset(start_addr as int);
                    bytes@ == mem@.subrange(at, at + vstd::layout::size_of::<T>() * size)
                },
                Err(e) => e == E_INVALID_ARGUMENT,
            },
    {
        if start_addr < self.addr {
            return Err(E_INVALID_ARGUMENT);
        }
        let len = core::mem::size_of::<T>() * size;
        match self.locate(start_addr, len) {
            Ok(at) => Ok(vstd::slice::slice_subrange(mem, at, at + len)),
            Err(e) => Err(e),
        }
    }

    /// The `size` bytes from the address `start_addr` on; an error if they are
    /// not all inside the page.
    pub fn get_bytes<'a>(&self, mem: &'a [u8], start_addr: usize, size: usize) -> (bytes: Result<
        &'a [u8],
        ErrorCode,
    >)
        requires
            mem@.len() == self@.len,
            self@.comparable(start_addr as int, size as int),
        ensures
            bytes is Ok <==> self@.covers(start_addr as int, size as int),
            match bytes {
                Ok(bytes) => {
                    let at = self@.offset(start_addr as int);
                    bytes@ == mem@.subrange(at, at + size)
                },
                Err(e) => e == E_INVALID_ARGUMENT,
            },
    {
        match self.locate(start_addr, size) {
            Ok(at) => Ok(vstd::slice::slice_subrange(mem, at, at + size)),
            Err(e) => Err(e),
        }
    }

    /// The `size` bytes from the address `start_addr` on, to be written through;
    /// an error if they are not all inside the page.
    pub fn get_bytes_mut<'a>(&self, mem: &'a mut [u8], start_addr: usize, size: usize) -> (bytes: Result<
        &'a mut [u8],
        ErrorCode,
    >)
        requires
            old(mem)@.len() == self@.len,
            self@.comparable(start_addr as int, size as int),
        ensures
            bytes is Ok <==> self@.covers(start_addr as int, size as int),
            match bytes {
                Ok(bytes) => {
                    let at = self@.offset(start_addr as int);
                    &&& bytes@ == old(mem)@.subrange(at, at + size)
                    &&& final(mem)@ == spliced(old(mem)@, at, at + size, final(bytes)@)
                },
                Err(e) => e == E_INVALID_ARGUMENT && final(mem)@ == old(mem)@,
            },
    {
        match self.locate(start_addr, size) {
            Ok(at) => Ok(window_mut(mem, at, at + size)),
            Err(e) => Err(e),
        }
    }

    /// Copies `src` into the page, from the address `dst_addr` on; an error, and
    /// nothing is copied, if it does not all fit inside the page.
    pub fn put_bytes(&self, mem: &mut [u8], src: &[u8], dst_addr: usize) -> (result: Result<
        (),
        ErrorCode,
    >)
        requires
            old(mem)@.len() == self@.len,
            self@.comparable(dst_addr as int, src@.len() as int),
        ensures
            result == (if self@.covers(dst_addr as int, src@.len() as int) {
                Ok::<(), ErrorCode>(())
            } else {
                Err(E_INVALID_ARGUMENT)
            }),
            final(mem)@ == (if result is Ok {
                let at = self@.offset(dst_addr as int);
                spliced(old(mem)@, at, at + src@.len(), src@)
            } else {
                old(mem)@
            }),
    {
        match self.locate(dst_addr, src.len()) {
            Ok(at) => {
                write_at(mem, at, src);
                Ok(())
            },
            Err(e) => Err(e),
        }
    }
}

/// Overwrites `mem` with `src`, from `at` on.
fn write_at(mem: &mut [u8], at: usize, src: &[u8])
    requires
        at + src@.len() <= old(mem)@.len(),
    ensures
        final(mem)@ == spliced(old(mem)@, at as int, at + src@.len(), src@),
{
    let total: usize = mem.len();
    let n: usize = src.len();
    let mut i: usize = 0;
    while i < n
        invariant
            i <= n,
            n == src@.len(),
            at + n <= total,
            total == old(mem)@.len(),
            mem@ == spliced(old(mem)@, at as int, at + i, src@.take(i as int)),
        decreases n - i,
    {
        mem[at + i] = src[i];
        i = i + 1;
    }
    assert(src@.take(n as int) =~= src@);
}

} // verus!
