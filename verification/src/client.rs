//! The client end of a channel.
//!
//! A client maps a page, asks the kernel to connect the page to a server that
//! listens at a URL, and then makes calls: it writes a request into the page,
//! hands the processor to the server, and reads the response when it is woken.
//! The functions here decide which system calls that takes and what their
//! replies mean; the caller makes the calls.

use crate::channel::{ChannelSize, RawChannel, Region};
use crate::sys::{
    push_release, Cleanup, ErrorCode, MapCall, OpenCall, SysHandle, WaitCall, ANY_ADDRESS,
    E_BAD_HANDLE, E_INVALID_ARGUMENT, HANDLE_NONE, HANDLE_SELF, MAP_READ_WRITE,
};
use crate::url::make_shared_url;
use vstd::prelude::*;

verus! {

/// Where a client stands.
#[derive(Clone, Copy, PartialEq, Eq, Debug, Structural)]
pub enum ClientConnectionStatus {
    /// The channel works.
    Connected,
    /// The server is gone.
    Error,
    /// There is no channel.
    Idle,
}

/// What a client's behaviour depends on.
pub struct ClientState {
    pub status: ClientConnectionStatus,
    pub handle: SysHandle,
    pub smem_addr: u64,
    pub channel_size: ChannelSize,
}

impl ClientState {
    /// A client that has a page, and no channel.
    pub open spec fn fresh(smem_addr: u64, channel_size: ChannelSize) -> ClientState {
        ClientState {
            status: ClientConnectionStatus::Idle,
            handle: HANDLE_NONE,
            smem_addr,
            channel_size,
        }
    }

    /// A client can be connected: it has no channel, and no handle of one.
    pub open spec fn idle(self) -> bool {
        self.status is Idle && self.handle == HANDLE_NONE
    }

    /// The client once the kernel has answered its request to connect.
    pub open spec fn after_connect(self, reply: Result<SysHandle, ErrorCode>) -> ClientState {
        match reply {
            Ok(handle) => ClientState {
                status: ClientConnectionStatus::Connected,
                handle,
                ..self
            },
            Err(_) => self,
        }
    }

    /// The client once a call through its channel has ended.
    pub open spec fn after_rpc(self, reply: Result<(), ErrorCode>) -> ClientState {
        if reply == Err::<(), ErrorCode>(E_BAD_HANDLE) {
            ClientState { status: ClientConnectionStatus::Error, ..self }
        } else {
            self
        }
    }

    /// The client without its channel.
    pub open spec fn after_disconnect(self) -> ClientState {
        if self.handle != HANDLE_NONE {
            ClientState {
                status: ClientConnectionStatus::Idle,
                handle: HANDLE_NONE,
                ..self
            }
        } else {
            self
        }
    }

    /// The client's page.
    pub open spec fn region(self) -> Region {
        Region { addr: self.smem_addr as usize, len: self.channel_size.page_size() as usize }
    }
}

/// The client end of a channel.
pub struct ClientConnection {
    status: ClientConnectionStatus,
    handle: SysHandle,
    smem_addr: u64,
    channel_size: ChannelSize,
}

impl View for ClientConnection {
    type V = ClientState;

    closed spec fn view(&self) -> ClientState {
        ClientState {
            status: self.status,
            handle: self.handle,
            smem_addr: self.smem_addr,
            channel_size: self.channel_size,
        }
    }
}

impl ClientConnection {
    /// The call that maps the page of a new client: one page, readable and
    /// writable.
    pub fn page(channel_size: ChannelSize) -> (call: MapCall)
        ensures
            call == crate::sys::map_one_page(MAP_READ_WRITE, channel_size.page_size()),
    {
        MapCall {
            address_space: HANDLE_SELF,
            flags: MAP_READ_WRITE,
            phys_addr: ANY_ADDRESS,
            virt_addr: ANY_ADDRESS,
            page_size: channel_size.size() as u64,
            num_pages: 1,
        }
    }

    /// A new client, given the reply to [`ClientConnection::page`]: the address
    /// of its page.
    pub fn new(channel_size: ChannelSize, mapped: Result<u64, ErrorCode>) -> (client: Result<
        Self,
        ErrorCode,
    >)
        ensures
            match mapped {
                Ok(addr) => client is Ok && client->Ok_0@ == ClientState::fresh(addr, channel_size),
                Err(e) => client == Err::<Self, ErrorCode>(e),
            },
    {
        match mapped {
            Ok(smem_addr) => Ok(
                ClientConnection {
                    status: ClientConnectionStatus::Idle,
                    handle: HANDLE_NONE,
                    smem_addr,
                    channel_size,
                },
            ),
            Err(e) => Err(e),
        }
    }

    /// Whether the client can be connected: it has neither a channel nor a handle
    /// left of one.
    pub fn can_connect(&self) -> (can: bool)
        ensures
            can == self@.idle(),
    {
        self.status == ClientConnectionStatus::Idle && self.handle == HANDLE_NONE
    }

    /// The call that connects the client to the server that listens at `url`:
    /// it gets at an object. Its reply goes to [`ClientConnection::connect_done`].
    pub fn connect(&self, url: &str) -> (call: OpenCall)
        requires
            self@.idle(),
        ensures
            call@ == (crate::sys::OpenCallView {
                parent: HANDLE_SELF,
                flags: 0,
                url: crate::url::shared_url(url@, self@.smem_addr, self@.channel_size),
            }),
    {
        OpenCall {
            parent: HANDLE_SELF,
            flags: 0,
            url: make_shared_url(url, self.smem_addr, self.channel_size),
        }
    }

    /// Takes the reply to [`ClientConnection::connect`]. With a handle the client
    /// is connected; an error is handed on and changes nothing.
    pub fn connect_done(&mut self, reply: Result<SysHandle, ErrorCode>) -> (result: Result<
        (),
        ErrorCode,
    >)
        requires
            old(self)@.idle(),
        ensures
            final(self)@ == old(self)@.after_connect(reply),
            result == (match reply {
                Ok(_) => Ok::<(), ErrorCode>(()),
                Err(e) => Err(e),
            }),
    {
        match reply {
            Ok(handle) => {
                self.handle = handle;
                self.status = ClientConnectionStatus::Connected;
                Ok(())
            },
            Err(e) => Err(e),
        }
    }

    /// Gives up the channel, if there is one: the result is then its handle, for
    /// the caller to close.
    pub fn disconnect(&mut self) -> (put: Option<SysHandle>)
        ensures
            final(self)@ == old(self)@.after_disconnect(),
            put == (if old(self)@.handle != HANDLE_NONE {
                Some(old(self)@.handle)
            } else {
                None
            }),
    {
        if self.handle != HANDLE_NONE {
            let handle: SysHandle = self.handle;
            self.handle = HANDLE_NONE;
            self.status = ClientConnectionStatus::Idle;
            Some(handle)
        } else {
            None
        }
    }

    /// Whether the channel works.
    pub fn connected(&self) -> (connected: bool)
        ensures
            connected == (self@.status is Connected),
    {
        self.status == ClientConnectionStatus::Connected
    }

    /// The client's page, to be read.
    pub fn data(&self) -> (region: Region)
        ensures
            region == self@.region(),
    {
        Region { addr: self.smem_addr as usize, len: self.channel_size.size() }
    }

    /// The client's page, to be written.
    pub fn data_mut(&mut self) -> (region: Region)
        ensures
            region == old(self)@.region(),
            final(self)@ == old(self)@,
    {
        Region { addr: self.smem_addr as usize, len: self.channel_size.size() }
    }

    /// The call that lets the server work on the request in the page: it hands
    /// the processor to the server, and sleeps until the server wakes this thread
    /// or `timeout` passes. Its reply goes to [`ClientConnection::do_rpc_done`].
    /// An error if the client is not connected.
    pub fn do_rpc(&self, timeout: Option<u64>) -> (call: Result<WaitCall, ErrorCode>)
        ensures
            match call {
                Ok(call) => self@.status is Connected && call@ == (crate::sys::WaitCallView {
                    handles: seq![self@.handle],
                    swap_target: self@.handle,
                    wake_target: HANDLE_NONE,
                    timeout,
                }),
                Err(e) => !(self@.status is Connected) && e == E_INVALID_ARGUMENT,
            },
    {
        if self.connected() {
            let mut handles: Vec<SysHandle> = Vec::new();
            handles.push(self.handle);
            assert(handles@ =~= seq![self@.handle]);
            Ok(
                WaitCall {
                    handles,
                    swap_target: self.handle,
                    wake_target: HANDLE_NONE,
                    timeout,
                },
            )
        } else {
            Err(E_INVALID_ARGUMENT)
        }
    }

    /// Takes the reply to [`ClientConnection::do_rpc`], and the handle that the
    /// kernel left in the call's list, and hands the reply on. If the handle was
    /// bad, the server is gone and the client no longer connected; the kernel
    /// then names the only handle that was waited for.
    pub fn do_rpc_done(&mut self, reply: Result<(), ErrorCode>, left: SysHandle) -> (result: Result<
        (),
        ErrorCode,
    >)
        requires
            old(self)@.status is Connected,
            reply == Err::<(), ErrorCode>(E_BAD_HANDLE) ==> left == old(self)@.handle,
        ensures
            final(self)@ == old(self)@.after_rpc(reply),
            result == reply,
    {
        if let Err(e) = reply {
            if e == E_BAD_HANDLE {
                assert(left == self.handle);
                self.status = ClientConnectionStatus::Error;
            }
        }
        reply
    }

    /// The bytes of a request at the start of the client's page `mem`, to be
    /// written.
    pub fn req<'a, T: Sized>(&mut self, mem: &'a mut [u8]) -> (bytes: &'a mut [u8])
        requires
            old(mem)@.len() == old(self)@.region().len,
            vstd::layout::size_of::<T>() <= old(self)@.region().len,
        ensures
            final(self)@ == old(self)@,
            bytes@ == old(mem)@.take(vstd::layout::size_of::<T>() as int),
            final(mem)@ == crate::channel::spliced(
                old(mem)@,
                0,
                vstd::layout::size_of::<T>() as int,
                final(bytes)@,
            ),
    {
        self.raw_channel().get_mut::<T>(mem)
    }

    /// The bytes of a response at the start of the client's page `mem`.
    pub fn resp<'a, T: Sized>(&self, mem: &'a [u8]) -> (bytes: &'a [u8])
        requires
            mem@.len() == self@.region().len,
            vstd::layout::size_of::<T>() <= self@.region().len,
        ensures
            bytes@ == mem@.take(vstd::layout::size_of::<T>() as int),
    {
        self.raw_channel().get::<T>(mem)
    }

    /// The client's page, for access apart from the client.
    pub fn raw_channel(&self) -> (channel: RawChannel)
        ensures
            channel@ == self@.region(),
    {
        RawChannel::at(self.data())
    }

    /// The end of the client: what it still holds of the kernel, for the caller
    /// to give back.
    pub fn release(self) -> (calls: Vec<Cleanup>)
        ensures
            calls@ == crate::sys::release(self@.handle, self@.smem_addr),
    {
        let mut calls: Vec<Cleanup> = Vec::new();
        push_release(&mut calls, self.handle, self.smem_addr);
        assert(calls@ =~= crate::sys::release(self@.handle, self@.smem_addr));
        calls
    }
}

} // verus!
