//! The server end of a channel.
//!
//! A server end reserves a page, listens at a URL until a client connects, and
//! then answers the client's calls one by one. The page gets its memory from the
//! client. The functions here decide which system calls that takes and what
//! their replies mean; the caller makes the calls.

use crate::channel::{ChannelSize, RawChannel, Region};
use crate::sys::{
    push_release, Cleanup, ErrorCode, MapCall, OpenCall, SysHandle, ANY_ADDRESS, E_BAD_HANDLE,
    E_INVALID_ARGUMENT, HANDLE_NONE, HANDLE_SELF, MAP_RESERVED,
};
use crate::url::make_shared_url;
use vstd::prelude::*;

verus! {

/// Where a server end stands.
#[derive(Clone, Copy, PartialEq, Eq, Debug, Structural)]
pub enum LocalServerConnectionStatus {
    /// Waits for a client.
    Listening,
    /// Has a client.
    Connected,
    /// Has not listened yet, or has lost its client.
    Idle,
}

/// What a server end's behaviour depends on, and what its user has attached.
pub struct ConnectionState<E> {
    pub status: LocalServerConnectionStatus,
    pub handle: SysHandle,
    pub smem_addr: u64,
    pub channel_size: ChannelSize,
    pub extension: E,
}

impl<E> ConnectionState<E> {
    /// A server end that has a page, and nothing else.
    pub open spec fn fresh(smem_addr: u64, channel_size: ChannelSize, extension: E) -> Self {
        ConnectionState {
            status: LocalServerConnectionStatus::Idle,
            handle: HANDLE_NONE,
            smem_addr,
            channel_size,
            extension,
        }
    }

    /// A server end can start to listen.
    pub open spec fn idle(self) -> bool {
        self.status is Idle && self.handle == HANDLE_NONE
    }

    /// The server end that listens through `handle`.
    pub open spec fn listening(self, handle: SysHandle) -> Self {
        ConnectionState { status: LocalServerConnectionStatus::Listening, handle, ..self }
    }

    /// The server end once a client has connected.
    pub open spec fn accepted(self) -> Self {
        ConnectionState { status: LocalServerConnectionStatus::Connected, ..self }
    }

    /// The server end without its channel.
    pub open spec fn after_disconnect(self) -> Self {
        ConnectionState {
            status: LocalServerConnectionStatus::Idle,
            handle: if self.status is Idle {
                self.handle
            } else {
                HANDLE_NONE
            },
            ..self
        }
    }

    /// The handle to close when the channel is given up.
    pub open spec fn open_handle(self) -> Option<SysHandle> {
        if self.status is Idle {
            None
        } else {
            Some(self.handle)
        }
    }

    /// The server end once it has tried to wake its client.
    pub open spec fn after_finish_rpc(self, reply: Result<(), ErrorCode>) -> Self {
        if reply is Err {
            self.after_disconnect()
        } else {
            self
        }
    }

    /// What the server end holds of the kernel.
    pub open spec fn release(self) -> Seq<Cleanup> {
        crate::sys::release(self.handle, self.smem_addr)
    }

    /// What it takes to give up the channel and then the server end.
    pub open spec fn close(self) -> Seq<Cleanup> {
        (match self.open_handle() {
            Some(handle) => seq![Cleanup::Put(handle)],
            None => seq![],
        }) + self.after_disconnect().release()
    }

    /// The page of the server end.
    pub open spec fn region(self) -> Region {
        Region { addr: self.smem_addr as usize, len: self.channel_size.page_size() as usize }
    }
}

/// The server end of a channel. `E` is what its user attaches to it.
///
/// `E` may be a value whose type is known only when it runs. Which type that is, is
/// for the caller to ask of the value; here it is kept and handed out whole.
pub struct LocalServerConnection<E> {
    status: LocalServerConnectionStatus,
    handle: SysHandle,
    smem_addr: u64,
    channel_size: ChannelSize,
    extension: E,
}

impl<E> View for LocalServerConnection<E> {
    type V = ConnectionState<E>;

    closed spec fn view(&self) -> ConnectionState<E> {
        ConnectionState {
            status: self.status,
            handle: self.handle,
            smem_addr: self.smem_addr,
            channel_size: self.channel_size,
            extension: self.extension,
        }
    }
}

impl<E> LocalServerConnection<E> {
    /// The call that reserves the page of a new server end: one page, with no
    /// memory behind it.
    pub fn page(channel_size: ChannelSize) -> (call: MapCall)
        ensures
            call == crate::sys::map_one_page(MAP_RESERVED, channel_size.page_size()),
    {
        MapCall {
            address_space: HANDLE_SELF,
            flags: MAP_RESERVED,
            phys_addr: ANY_ADDRESS,
            virt_addr: ANY_ADDRESS,
            page_size: channel_size.size() as u64,
            num_pages: 1,
        }
    }

    /// A new server end, given the reply to [`LocalServerConnection::page`], the
    /// address of its page, and what is attached to it at first.
    pub fn new(channel_size: ChannelSize, mapped: Result<u64, ErrorCode>, extension: E) -> (conn:
        Result<Self, ErrorCode>)
        ensures
            match mapped {
                Ok(addr) => conn is Ok && conn->Ok_0@ == ConnectionState::fresh(
                    addr,
                    channel_size,
                    extension,
                ),
                Err(e) => conn == Err::<Self, ErrorCode>(e),
            },
    {
        match mapped {
            Ok(smem_addr) => Ok(
                LocalServerConnection {
                    status: LocalServerConnectionStatus::Idle,
                    handle: HANDLE_NONE,
                    smem_addr,
                    channel_size,
                    extension,
                },
            ),
            Err(e) => Err(e),
        }
    }

    /// The call that lets clients connect under `url`: it creates an object. Its
    /// reply goes to [`LocalServerConnection::start_listening_done`].
    pub(crate) fn start_listening(&self, url: &str) -> (call: OpenCall)
        requires
            self@.idle(),
        ensures
            call@ == (crate::sys::OpenCallView {
                parent: HANDLE_SELF,
                flags: 0,
                url: crate::url::shared_url(url@, self@.smem_addr, self@.channel_size),
            }),
    {
        OpenCall {
            parent: HANDLE_SELF,
            flags: 0,
            url: make_shared_url(url, self.smem_addr, self.channel_size),
        }
    }

    /// Takes the reply to [`LocalServerConnection::start_listening`]. With a handle
    /// the server end listens; an error is handed on and changes nothing.
    pub(crate) fn start_listening_done(&mut self, reply: Result<SysHandle, ErrorCode>) -> (result:
        Result<(), ErrorCode>)
        requires
            old(self)@.idle(),
        ensures
            match reply {
                Ok(handle) => result is Ok && final(self)@ == old(self)@.listening(handle),
                Err(e) => result == Err::<(), ErrorCode>(e) && final(self)@ == old(self)@,
            },
    {
        match reply {
            Ok(handle) => {
                self.handle = handle;
                self.status = LocalServerConnectionStatus::Listening;
                Ok(())
            },
            Err(e) => Err(e),
        }
    }

    /// A client has connected.
    pub(crate) fn accept(&mut self)
        requires
            old(self)@.status is Listening,
        ensures
            final(self)@ == old(self)@.accepted(),
    {
        self.status = LocalServerConnectionStatus::Connected;
    }

    /// The number of bytes shared with the client.
    pub fn channel_size(&self) -> (bytes: usize)
        ensures
            bytes == self@.channel_size.page_size(),
    {
        self.channel_size.size()
    }

    /// The page of the server end, to be read.
    pub fn data(&self) -> (region: Region)
        ensures
            region == self@.region(),
    {
        Region { addr: self.smem_addr as usize, len: self.channel_size.size() }
    }

    /// The page of the server end, to be written.
    pub fn data_mut(&mut self) -> (region: Region)
        ensures
            region == old(self)@.region(),
            final(self)@ == old(self)@,
    {
        Region { addr: self.smem_addr as usize, len: self.channel_size.size() }
    }

    /// The page of the server end, for access apart from it.
    pub fn raw_channel(&self) -> (channel: RawChannel)
        ensures
            channel@ == self@.region(),
    {
        RawChannel::at(self.data())
    }

    /// What is attached to the server end.
    pub fn extension(&self) -> (extension: &E)
        ensures
            *extension == self@.extension,
    {
        &self.extension
    }

    /// What is attached to the server end, to be changed.
    pub fn extension_mut(&mut self) -> (extension: &mut E)
        ensures
            *extension == old(self)@.extension,
            final(self)@ == (ConnectionState { extension: *final(extension), ..old(self)@ }),
    {
        &mut self.extension
    }

    /// Attaches `extension` to the server end, in place of what was attached.
    pub fn set_extension(&mut self, extension: E)
        ensures
            final(self)@ == (ConnectionState { extension, ..old(self)@ }),
    {
        self.extension = extension;
    }

    /// Whether the server end has a client.
    pub fn connected(&self) -> (connected: bool)
        ensures
            connected == (self@.status is Connected),
    {
        self.status == LocalServerConnectionStatus::Connected
    }

    /// Gives up the channel, if there is one, whether or not a client has come:
    /// the result is then its handle, for the caller to close.
    pub fn disconnect(&mut self) -> (put: Option<SysHandle>)
        ensures
            final(self)@ == old(self)@.after_disconnect(),
            put == old(self)@.open_handle(),
    {
        match self.status {
            LocalServerConnectionStatus::Listening | LocalServerConnectionStatus::Connected => {
                let handle: SysHandle = self.handle;
                self.handle = HANDLE_NONE;
                self.status = LocalServerConnectionStatus::Idle;
                Some(handle)
            },
            LocalServerConnectionStatus::Idle => None,
        }
    }

    /// The handle to wake when the response in the page is complete. The reply to
    /// that call goes to [`LocalServerConnection::finish_rpc_done`]. An error if
    /// there is no client.
    pub fn finish_rpc(&self) -> (wake: Result<SysHandle, ErrorCode>)
        ensures
            wake == (if self@.status is Connected {
                Ok::<SysHandle, ErrorCode>(self@.handle)
            } else {
                Err(E_INVALID_ARGUMENT)
            }),
    {
        if self.connected() {
            Ok(self.handle)
        } else {
            Err(E_INVALID_ARGUMENT)
        }
    }

    /// Takes the reply to the call of [`LocalServerConnection::finish_rpc`], which
    /// fails only because the client is gone. The channel is then given up: the
    /// second result is its handle, for the caller to close. The first result is
    /// the reply.
    pub fn finish_rpc_done(&mut self, reply: Result<(), ErrorCode>) -> (result: (
        Result<(), ErrorCode>,
        Option<SysHandle>,
    ))
        requires
            old(self)@.status is Connected,
            reply matches Err(e) ==> e == E_BAD_HANDLE,
        ensures
            final(self)@ == old(self)@.after_finish_rpc(reply),
            result.0 == reply,
            result.1 == (if reply is Err {
                Some(old(self)@.handle)
            } else {
                None
            }),
    {
        match reply {
            Ok(()) => (reply, None),
            Err(_) => {
                let put: Option<SysHandle> = self.disconnect();
                (reply, put)
            },
        }
    }

    /// The bytes of a request at the start of the page `mem`.
    pub fn req<'a, T: Sized>(&self, mem: &'a [u8]) -> (bytes: &'a [u8])
        requires
            mem@.len() == self@.region().len,
            vstd::layout::size_of::<T>() <= self@.region().len,
        ensures
            bytes@ == mem@.take(vstd::layout::size_of::<T>() as int),
    {
        self.raw_channel().get::<T>(mem)
    }

    /// The bytes of a response at the start of the page `mem`, to be written.
    pub fn resp<'a, T: Sized>(&mut self, mem: &'a mut [u8]) -> (bytes: &'a mut [u8])
        requires
            old(mem)@.len() == old(self)@.region().len,
            vstd::layout::size_of::<T>() <= old(self)@.region().len,
        ensures
            final(self)@ == old(self)@,
            bytes@ == old(mem)@.take(vstd::layout::size_of::<T>() as int),
            final(mem)@ == crate::channel::spliced(
                old(mem)@,
                0,
                vstd::layout::size_of::<T>() as int,
                final(bytes)@,
            ),
    {
        self.raw_channel().get_mut::<T>(mem)
    }

    /// The handle of the channel; of nothing, if there is none.
    pub fn handle(&self) -> (handle: SysHandle)
        ensures
            handle == self@.handle,
    {
        self.handle
    }

    /// The end of the server end: appends to `calls` what it still holds of the
    /// kernel, for the caller to give back.
    pub fn release(self, calls: &mut Vec<Cleanup>)
        ensures
            final(calls)@ == old(calls)@ + self@.release(),
    {
        push_release(calls, self.handle, self.smem_addr);
    }

    /// Gives up the channel and then the server end: appends to `calls` what that
    /// takes.
    pub(crate) fn close(self, calls: &mut Vec<Cleanup>)
        ensures
            final(calls)@ == old(calls)@ + self@.close(),
    {
        let ghost before = calls@;
        let mut conn: Self = self;
        if let Some(handle) = conn.disconnect() {
            calls.push(Cleanup::Put(handle));
        }
        conn.release(calls);
        assert(calls@ =~= before + self@.close());
    }
}

} // verus!
