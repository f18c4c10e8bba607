//! What a caller can rely on: laws on the arguments and the results of the functions
//! that change a client, a server end, a server or a page.

use crate::channel::{ChannelSize, RawChannel, Region};
use crate::client::ClientConnection;
use crate::connection::{ConnectionState, LocalServerConnection, LocalServerConnectionStatus};
use crate::end_laws::split;
use crate::laws::{gives_back, handles_apart, is_connected, names_own_once};
use crate::model::{ActionView, GoalView, OutcomeView, ServerState, TaskView};
use crate::server::{LocalServer, Step};
use crate::server_laws::{
    asks_for_page, given_back, names_in_order, same_connections, same_settings, waits_for_caller,
};
use crate::sys::{Cleanup, ErrorCode, SysHandle, UnmapCall};
use crate::url::{decimal, url_encoded};
use vstd::prelude::*;

verus! {

/// A new client has the page that was mapped for it, and no channel; without a page
/// there is none.
pub proof fn law_client_made(
    channel_size: ChannelSize,
    mapped: Result<u64, ErrorCode>,
    client: Result<ClientConnection, ErrorCode>,
)
    requires
        call_ensures(ClientConnection::new, (channel_size, mapped), client),
    ensures
        mapped matches Ok(addr) ==> (client matches Ok(client) && client@.status is Idle
            && client@.handle == 0 && client@.smem_addr == addr && client@.channel_size
            == channel_size),
        mapped matches Err(e) ==> client is Err && client->Err_0 == e,
{
}

/// A client is connected if and only if the kernel gives it a handle, which it then
/// has; otherwise the caller gets the kernel's error, and the client is as it was.
pub proof fn law_client_connected(
    reply: Result<SysHandle, ErrorCode>,
    result: Result<(), ErrorCode>,
)
    ensures
        forall|client: &mut ClientConnection| #[trigger]
            call_ensures(ClientConnection::connect_done, (client, reply), result) ==> {
                let before = (*client)@;
                let after = final(client)@;
                &&& reply matches Ok(handle) ==> result is Ok && after.status is Connected
                    && after.handle == handle
                &&& reply matches Err(e) ==> result == Err::<(), ErrorCode>(e) && after == before
                &&& after.smem_addr == before.smem_addr
                &&& after.channel_size == before.channel_size
            },
{
}

/// A call hands on its reply. It leaves the client as it was, so that the next call goes
/// through the same channel, unless the handle was bad: then the client is no longer
/// connected, and keeps its handle and its page.
pub proof fn law_client_called(
    reply: Result<(), ErrorCode>,
    left: SysHandle,
    result: Result<(), ErrorCode>,
)
    ensures
        forall|client: &mut ClientConnection| #[trigger]
            call_ensures(ClientConnection::do_rpc_done, (client, reply, left), result) ==> {
                let before = (*client)@;
                let after = final(client)@;
                &&& result == reply
                &&& reply != Err::<(), ErrorCode>(17) ==> after == before
                &&& reply == Err::<(), ErrorCode>(17) ==> after.status is Error
                &&& after.handle == before.handle
                &&& after.smem_addr == before.smem_addr
                &&& after.channel_size == before.channel_size
            },
{
}

/// A client that is disconnected hands out its handle to be closed, and has it no more.
pub proof fn law_client_disconnected(put: Option<SysHandle>)
    ensures
        forall|client: &mut ClientConnection| #[trigger]
            call_ensures(ClientConnection::disconnect, (client,), put) ==> {
                let before = (*client)@;
                let after = final(client)@;
                &&& before.handle != 0 ==> put == Some(before.handle) && after.status is Idle
                &&& before.handle == 0 ==> put is None && after == before
                &&& after.handle == 0
                &&& after.smem_addr == before.smem_addr
                &&& after.channel_size == before.channel_size
            },
{
}

/// The mapping of this process at `addr`, taken down.
pub open spec fn unmapped(addr: u64) -> Cleanup {
    Cleanup::Unmap(
        UnmapCall { address_space: 2, flags: 0, phys_addr: u64::MAX, virt_addr: addr },
    )
}

/// `calls` closes the handle, if it is one, then takes down the page, if there is one,
/// and does nothing else.
pub open spec fn ends(calls: Seq<Cleanup>, handle: SysHandle, addr: u64) -> bool {
    if handle != 0 && addr != 0 {
        calls.len() == 2 && calls[0] == Cleanup::Put(handle) && calls[1] == unmapped(addr)
    } else if handle != 0 {
        calls.len() == 1 && calls[0] == Cleanup::Put(handle)
    } else if addr != 0 {
        calls.len() == 1 && calls[0] == unmapped(addr)
    } else {
        calls.len() == 0
    }
}

/// A client and a server end tell how they stand, and a server end what is attached to it.
pub proof fn law_ends_tell<E>(
    client: &ClientConnection,
    client_connected: bool,
    can_connect: bool,
    server: &LocalServerConnection<E>,
    server_connected: bool,
    handle: SysHandle,
    extension: &E,
)
    requires
        call_ensures(ClientConnection::connected, (client,), client_connected),
        call_ensures(ClientConnection::can_connect, (client,), can_connect),
        call_ensures(LocalServerConnection::<E>::connected, (server,), server_connected),
        call_ensures(LocalServerConnection::<E>::handle, (server,), handle),
        call_ensures(LocalServerConnection::<E>::extension, (server,), extension),
    ensures
        client_connected <==> client@.status is Connected,
        can_connect <==> client@.status is Idle && client@.handle == 0,
        server_connected <==> server@.status is Connected,
        handle == server@.handle,
        *extension == server@.extension,
{
}

/// A page is the same to be written as to be read, and to ask for it changes neither end.
pub proof fn law_page_to_be_written<E>(page: Region)
    ensures
        forall|client: &mut ClientConnection| #[trigger]
            call_ensures(ClientConnection::data_mut, (client,), page) && (*client)@.smem_addr
                <= usize::MAX ==> final(client)@ == (*client)@ && page.addr == (*client)@.smem_addr
                && page.len == (if (*client)@.channel_size is Small {
                4096usize
            } else {
                2097152usize
            }),
        forall|server: &mut LocalServerConnection<E>| #[trigger]
            call_ensures(LocalServerConnection::<E>::data_mut, (server,), page) && (
            *server)@.smem_addr <= usize::MAX ==> final(server)@ == (*server)@ && page.addr == (
            *server)@.smem_addr && page.len == (if (*server)@.channel_size is Small {
                4096usize
            } else {
                2097152usize
            }),
{
}

/// What is attached to a server end can be changed in place, and nothing else is.
pub proof fn law_extension_changed<E>()
    ensures
        forall|connection: &mut LocalServerConnection<E>, extension: &mut E| #[trigger]
            call_ensures(LocalServerConnection::<E>::extension_mut, (connection,), extension)
                ==> *extension == (*connection)@.extension && final(connection)@ == (
            ConnectionState { extension: *final(extension), ..(*connection)@ }),
{
}

/// At its end a client gives back its handle and its page, and nothing else.
pub proof fn law_client_ended(client: ClientConnection, calls: Vec<Cleanup>)
    requires
        call_ensures(ClientConnection::release, (client,), calls),
    ensures
        ends(calls@, client@.handle, client@.smem_addr),
{
    crate::end_laws::law_endpoint_is_given_back(client@.handle, client@.smem_addr);
}

/// A new server end has the page that was reserved for it and the extension that it was
/// given, and no channel; without a page there is none.
pub proof fn law_server_end_made<E>(
    channel_size: ChannelSize,
    mapped: Result<u64, ErrorCode>,
    extension: E,
    connection: Result<LocalServerConnection<E>, ErrorCode>,
)
    requires
        call_ensures(
            LocalServerConnection::<E>::new,
            (channel_size, mapped, extension),
            connection,
        ),
    ensures
        mapped matches Ok(addr) ==> (connection matches Ok(connection)
            && connection@.status is Idle && connection@.handle == 0 && connection@.smem_addr
            == addr && connection@.channel_size == channel_size && connection@.extension
            == extension),
        mapped matches Err(e) ==> connection is Err && connection->Err_0 == e,
{
}

/// A server end that is disconnected hands out its handle to be closed, whether or not
/// a client has come, and has it no more. Its page and its extension stay.
pub proof fn law_server_end_disconnected<E>(put: Option<SysHandle>)
    ensures
        forall|connection: &mut LocalServerConnection<E>| #[trigger]
            call_ensures(LocalServerConnection::<E>::disconnect, (connection,), put) ==> {
                let before = (*connection)@;
                let after = final(connection)@;
                &&& before.status is Idle ==> put is None && after == before
                &&& !(before.status is Idle) ==> put == Some(before.handle) && after.handle == 0
                &&& after.status is Idle
                &&& after.smem_addr == before.smem_addr
                &&& after.channel_size == before.channel_size
                &&& after.extension == before.extension
            },
{
}

/// An answer that wakes the client leaves the server end as it was. One that does not
/// ends the channel, and hands out the handle to be closed. The caller gets the reply.
pub proof fn law_server_end_answered<E>(
    reply: Result<(), ErrorCode>,
    result: (Result<(), ErrorCode>, Option<SysHandle>),
)
    ensures
        forall|connection: &mut LocalServerConnection<E>| #[trigger]
            call_ensures(
                LocalServerConnection::<E>::finish_rpc_done,
                (connection, reply),
                result,
            ) && (*connection)@.status is Connected ==> {
                let before = (*connection)@;
                let after = final(connection)@;
                &&& result.0 == reply
                &&& reply is Ok ==> after == before && result.1 is None
                &&& reply is Err ==> after.status is Idle && after.handle == 0 && result.1
                    == Some(before.handle)
                &&& after.smem_addr == before.smem_addr
                &&& after.channel_size == before.channel_size
                &&& after.extension == before.extension
            },
{
}

/// What is attached to a server end takes the place of what was, and changes nothing
/// else.
pub proof fn law_extension_attached<E>(extension: E)
    ensures
        forall|connection: &mut LocalServerConnection<E>| #[trigger]
            call_ensures(LocalServerConnection::<E>::set_extension, (connection, extension), ())
                ==> final(connection)@ == (ConnectionState { extension, ..(*connection)@ }),
{
}

/// At its end a server end gives back its handle and its page, after what its caller
/// gives back already, and nothing else.
pub proof fn law_server_end_ended<E>(connection: LocalServerConnection<E>)
    ensures
        forall|calls: &mut Vec<Cleanup>| #[trigger]
            call_ensures(LocalServerConnection::<E>::release, (connection, calls), ()) ==> {
                let before = (*calls)@;
                let after = final(calls)@;
                &&& before.len() <= after.len()
                &&& after.take(before.len() as int) == before
                &&& ends(after.skip(before.len() as int), connection@.handle, connection@.smem_addr)
            },
{
    crate::end_laws::law_endpoint_is_given_back(connection@.handle, connection@.smem_addr);
    let own = crate::sys::release(connection@.handle, connection@.smem_addr);
    assert forall|calls: &mut Vec<Cleanup>| #[trigger]
        call_ensures(LocalServerConnection::<E>::release, (connection, calls), ()) implies {
        let before = (*calls)@;
        let after = final(calls)@;
        &&& before.len() <= after.len()
        &&& after.take(before.len() as int) == before
        &&& ends(after.skip(before.len() as int), connection@.handle, connection@.smem_addr)
    } by {
        let before = (*calls)@;
        let after = final(calls)@;
        assert(after == before + own);
        assert(after.take(before.len() as int) =~= before);
        assert(after.skip(before.len() as int) =~= own);
    }
}

/// Bytes are put into a page if and only if all of them have their place in it, from the
/// address on that the caller names. They are there afterwards, and every other byte is
/// as before; or the page is as before, and the caller gets an error.
pub proof fn law_bytes_put(
    channel: &RawChannel,
    src: &[u8],
    dst_addr: usize,
    result: Result<(), ErrorCode>,
)
    ensures
        forall|mem: &mut [u8]| #[trigger]
            call_ensures(RawChannel::put_bytes, (channel, mem, src, dst_addr), result)
                && (*mem)@.len() == channel@.len ==> {
                let before = (*mem)@;
                let after = final(mem)@;
                let at = dst_addr - channel@.addr;
                &&& result is Ok <==> 0 <= at && at + src@.len() <= channel@.len
                &&& after.len() == before.len()
                &&& result is Ok ==> after.subrange(at, at + src@.len()) == src@
                &&& forall|i: int|
                    0 <= i < before.len() && (result is Err || i < at || at + src@.len() <= i)
                        ==> #[trigger] after[i] == before[i]
                &&& result matches Err(e) ==> e == 7
            },
{
    assert forall|mem: &mut [u8]| #[trigger]
        call_ensures(RawChannel::put_bytes, (channel, mem, src, dst_addr), result)
            && (*mem)@.len() == channel@.len && result is Ok implies ({
        let at = dst_addr - channel@.addr;
        final(mem)@.subrange(at, at + src@.len()) == src@
    }) by {
        let at = dst_addr - channel@.addr;
        assert(final(mem)@.subrange(at, at + src@.len()) =~= src@);
    }
}

/// Bytes are got from a page if and only if all of them are in it, from the address on
/// that the caller names, and they are the ones that are there.
pub proof fn law_bytes_got(
    channel: &RawChannel,
    mem: &[u8],
    start_addr: usize,
    size: usize,
    bytes: Result<&[u8], ErrorCode>,
)
    requires
        mem@.len() == channel@.len,
        call_ensures(RawChannel::get_bytes, (channel, mem, start_addr, size), bytes),
    ensures
        bytes is Ok <==> channel@.addr <= start_addr && start_addr - channel@.addr + size
            <= channel@.len,
        bytes matches Ok(got) ==> got@.len() == size && forall|i: int|
            0 <= i < size ==> #[trigger] got@[i] == mem@[start_addr - channel@.addr + i],
        bytes matches Err(e) ==> e == 7,
{
}

/// Items are got from a page if and only if all of them are in it, from the address on
/// that the caller names, and their bytes are the ones that are there.
pub proof fn law_items_got<T>(
    channel: &RawChannel,
    mem: &[u8],
    start_addr: usize,
    size: usize,
    bytes: Result<&[u8], ErrorCode>,
)
    requires
        mem@.len() == channel@.len,
        call_ensures(RawChannel::get_at::<T>, (channel, mem, start_addr, size), bytes),
    ensures
        ({
            let len = vstd::layout::size_of::<T>() * size;
            &&& bytes is Ok <==> channel@.addr <= start_addr && start_addr - channel@.addr + len
                <= channel@.len
            &&& bytes matches Ok(got) ==> got@.len() == len && forall|i: int|
                0 <= i < len ==> #[trigger] got@[i] == mem@[start_addr - channel@.addr + i]
            &&& bytes matches Err(e) ==> e == 7
        }),
{
    let len = vstd::layout::size_of::<T>() * size;
    assert(len >= 0) by (nonlinear_arith)
        requires
            len == vstd::layout::size_of::<T>() * size,
    ;
}

/// A request, a response and an item at the start of the page are the first bytes of the
/// page, as many as the item has.
pub proof fn law_first_bytes_got<E, T>(
    channel: &RawChannel,
    client: &ClientConnection,
    server: &LocalServerConnection<E>,
    mem: &[u8],
    raw: &[u8],
    response: &[u8],
    request: &[u8],
)
    requires
        vstd::layout::size_of::<T>() <= mem@.len(),
        call_ensures(RawChannel::get::<T>, (channel, mem), raw),
        call_ensures(ClientConnection::resp::<T>, (client, mem), response),
        call_ensures(LocalServerConnection::<E>::req::<T>, (server, mem), request),
    ensures
        raw@.len() == vstd::layout::size_of::<T>(),
        forall|i: int| 0 <= i < raw@.len() ==> #[trigger] raw@[i] == mem@[i],
        response@ == raw@,
        request@ == raw@,
{
}

/// Bytes of a page are lent to be written if and only if all of them are in it. What is
/// written through them is in the page then, and every other byte is as before.
pub proof fn law_bytes_lent(channel: &RawChannel, start_addr: usize, size: usize, e: ErrorCode)
    ensures
        forall|mem: &mut [u8], bytes: &mut [u8]| #[trigger]
            call_ensures(
                RawChannel::get_bytes_mut,
                (channel, mem, start_addr, size),
                Ok::<&mut [u8], ErrorCode>(bytes),
            ) && (*mem)@.len() == channel@.len && final(bytes)@.len() == (*bytes)@.len() ==> lent(
                (*mem)@,
                final(mem)@,
                (*bytes)@,
                final(bytes)@,
                start_addr - channel@.addr,
                size as int,
            ),
        forall|mem: &mut [u8]| #[trigger]
            call_ensures(
                RawChannel::get_bytes_mut,
                (channel, mem, start_addr, size),
                Err::<&mut [u8], ErrorCode>(e),
            ) && (*mem)@.len() == channel@.len ==> e == 7 && final(mem)@ == (*mem)@ && !(
            channel@.addr <= start_addr && start_addr - channel@.addr + size <= channel@.len),
{
}

/// Items of a page are lent to be written if and only if all of them are in it. What is
/// written through them is in the page then, and every other byte is as before.
pub proof fn law_items_lent<T>(channel: &RawChannel, start_addr: usize, size: usize, e: ErrorCode)
    ensures
        forall|mem: &mut [u8], bytes: &mut [u8]| #[trigger]
            call_ensures(
                RawChannel::get_at_mut::<T>,
                (channel, mem, start_addr, size),
                Ok::<&mut [u8], ErrorCode>(bytes),
            ) && (*mem)@.len() == channel@.len && final(bytes)@.len() == (*bytes)@.len() ==> lent(
                (*mem)@,
                final(mem)@,
                (*bytes)@,
                final(bytes)@,
                start_addr - channel@.addr,
                vstd::layout::size_of::<T>() * size,
            ),
        forall|mem: &mut [u8]| #[trigger]
            call_ensures(
                RawChannel::get_at_mut::<T>,
                (channel, mem, start_addr, size),
                Err::<&mut [u8], ErrorCode>(e),
            ) && (*mem)@.len() == channel@.len ==> e == 7 && final(mem)@ == (*mem)@ && !(
            channel@.addr <= start_addr && start_addr - channel@.addr + vstd::layout::size_of::<T>()
                * size <= channel@.len),
{
    let len = vstd::layout::size_of::<T>() * size;
    assert(len >= 0) by (nonlinear_arith)
        requires
            len == vstd::layout::size_of::<T>() * size,
    ;
}

/// The first bytes of a page are lent for a request, a response or another item, as many
/// as the item has. What is written through them is in the page then, and every other
/// byte is as before. Neither end changes.
pub proof fn law_first_bytes_lent<E, T>(channel: &RawChannel)
    ensures
        forall|mem: &mut [u8], bytes: &mut [u8]| #[trigger]
            call_ensures(RawChannel::get_mut::<T>, (channel, mem), bytes)
                && vstd::layout::size_of::<T>() <= (*mem)@.len() && final(bytes)@.len()
                == (*bytes)@.len() ==> lent(
                (*mem)@,
                final(mem)@,
                (*bytes)@,
                final(bytes)@,
                0,
                vstd::layout::size_of::<T>() as int,
            ),
        forall|client: &mut ClientConnection, mem: &mut [u8], bytes: &mut [u8]| #[trigger]
            call_ensures(ClientConnection::req::<T>, (client, mem), bytes)
                && vstd::layout::size_of::<T>() <= (*mem)@.len() && final(bytes)@.len()
                == (*bytes)@.len() ==> final(client)@ == (*client)@ && lent(
                (*mem)@,
                final(mem)@,
                (*bytes)@,
                final(bytes)@,
                0,
                vstd::layout::size_of::<T>() as int,
            ),
        forall|server: &mut LocalServerConnection<E>, mem: &mut [u8], bytes: &mut [u8]| #[trigger]
            call_ensures(LocalServerConnection::<E>::resp::<T>, (server, mem), bytes)
                && vstd::layout::size_of::<T>() <= (*mem)@.len() && final(bytes)@.len()
                == (*bytes)@.len() ==> final(server)@ == (*server)@ && lent(
                (*mem)@,
                final(mem)@,
                (*bytes)@,
                final(bytes)@,
                0,
                vstd::layout::size_of::<T>() as int,
            ),
{
}

/// `part` was lent of the page `before`, `len` bytes from `at` on; it is `written` then,
/// and the page is `after`.
pub open spec fn lent(
    before: Seq<u8>,
    after: Seq<u8>,
    part: Seq<u8>,
    written: Seq<u8>,
    at: int,
    len: int,
) -> bool {
    &&& 0 <= at
    &&& at + len <= before.len()
    &&& part.len() == len
    &&& after.len() == before.len()
    &&& forall|i: int| 0 <= i < len ==> #[trigger] part[i] == before[at + i]
    &&& forall|i: int|
        0 <= i < before.len() ==> #[trigger] after[i] == (if at <= i < at + len {
            written[i - at]
        } else {
            before[i]
        })
}

/// A new server asks for a page for its first listener, or has started if it is to have
/// none; it has the settings that it was given, and no connections yet.
pub proof fn law_server_made<E>(
    url: &str,
    channel_size: ChannelSize,
    max_connections: u64,
    max_listeners: u64,
    server: (LocalServer<E>, Step),
    handle: SysHandle,
)
    requires
        call_ensures(
            LocalServer::<E>::new,
            (url, channel_size, max_connections, max_listeners),
            server,
        ),
    ensures
        server.0@.url == url@,
        server.0@.channel_size == channel_size,
        server.0@.max_connections == max_connections,
        server.0@.max_listeners == max_listeners,
        !server.0@.listeners.contains_key(handle),
        !server.0@.active.contains_key(handle),
        server.1@.cleanup.len() == 0,
        max_listeners == 0 ==> server.1@.action == ActionView::Finished(OutcomeView::Started),
        max_listeners > 0 ==> asks_for_page(server.1@.action, channel_size),
{
    crate::server_laws::law_new_server::<E>(
        url@,
        channel_size,
        max_connections,
        max_listeners,
        handle,
    );
}

/// A server that was `before` is to wait, and is `after` then.
pub open spec fn begins_to_wait<E>(
    before: ServerState<E>,
    after: ServerState<E>,
    step: Step,
    swap_target: SysHandle,
    extra_waiters: Seq<SysHandle>,
    handle: SysHandle,
) -> bool {
    let room = before.listeners.len() < before.max_listeners as usize
        && before.listeners.len() + before.active.len() < before.max_connections as usize;
    &&& same_settings(before, after)
    &&& room ==> asks_for_page(step@.action, before.channel_size) && same_connections(
        before,
        after,
    ) && step@.cleanup.len() == 0 && after.task == TaskView::<E>::Mapping(
        GoalView::Wait { swap_target, extra_waiters },
    )
    &&& !room ==> waits_for_caller(step@.action, swap_target, extra_waiters)
        && after.listeners == before.listeners && (
    step@.action->Wait_0.handles.contains(handle)
        <==> before.listeners.contains_key(handle) || is_connected(before, handle)
        || extra_waiters.contains(handle)) && (after.active.contains_key(handle)
        <==> is_connected(before, handle))
}

/// To wait, a server that has fewer listeners than it should, and room, asks for a page
/// and remembers what its caller has asked for; otherwise it waits as its caller has
/// asked, and for all that it has.
pub proof fn law_server_waits<E>(
    swap_target: SysHandle,
    extra_waiters: &[SysHandle],
    step: Step,
    handle: SysHandle,
)
    ensures
        forall|server: &mut LocalServer<E>| #[trigger]
            call_ensures(
                LocalServer::<E>::wait,
                (server, swap_target, extra_waiters),
                step,
            ) && (*server)@.wf() ==> begins_to_wait(
                (*server)@,
                final(server)@,
                step,
                swap_target,
                extra_waiters@,
                handle,
            ),
{
    assert forall|server: &mut LocalServer<E>| #[trigger]
        call_ensures(LocalServer::<E>::wait, (server, swap_target, extra_waiters), step)
            && (*server)@.wf() implies begins_to_wait(
        (*server)@,
        final(server)@,
        step,
        swap_target,
        extra_waiters@,
        handle,
    ) by {
        let before = (*server)@;
        let goal = GoalView::Wait { swap_target, extra_waiters: extra_waiters@ };
        assert((final(server)@, step@) == before.pursue(goal));
        crate::server_laws::law_wait_is_the_callers(
            before,
            swap_target,
            extra_waiters@,
            0,
            arbitrary::<E>(),
            handle,
        );
        if !before.needs_listener() {
            crate::laws::law_waits_for_all_it_has(before, swap_target, extra_waiters@, handle);
        }
    }
}

/// A server that was `before` has got a page, and is `after` then.
pub open spec fn asks_to_listen<E>(
    before: ServerState<E>,
    after: ServerState<E>,
    step: Step,
    smem_addr: u64,
    extension: E,
) -> bool {
    let call = step@.action->Create_0;
    &&& step@.action is Create
    &&& call.parent == 2
    &&& call.flags == 0
    &&& split(call.url, '=').len() == 5
    &&& split(call.url, '=')[1] == url_encoded(before.url) + ";address"@
    &&& split(call.url, '=')[2] == decimal(smem_addr as nat) + ";page_type"@
    &&& split(call.url, '=')[3] == (match before.channel_size {
        ChannelSize::Small => "small;page_num"@,
        ChannelSize::Mid => "mid;page_num"@,
    })
    &&& step@.cleanup.len() == 0
    &&& same_settings(before, after)
    &&& same_connections(before, after)
    &&& after.task is Creating
    &&& after.task->Creating_1 == before.task->Mapping_0
    &&& after.task->Creating_0.smem_addr == smem_addr
    &&& after.task->Creating_0.channel_size == before.channel_size
    &&& after.task->Creating_0.extension == extension
}

/// With a page, a server asks for a listener at its own URL, over that page, whatever the
/// listener is for, and remembers that.
pub proof fn law_server_mapped<E>(smem_addr: u64, extension: E, step: Step)
    ensures
        forall|server: &mut LocalServer<E>| #[trigger]
            call_ensures(LocalServer::<E>::mapped, (server, Ok(smem_addr), extension), step)
                && (*server)@.task is Mapping ==> asks_to_listen(
                (*server)@,
                final(server)@,
                step,
                smem_addr,
                extension,
            ),
{
    assert forall|server: &mut LocalServer<E>| #[trigger]
        call_ensures(LocalServer::<E>::mapped, (server, Ok(smem_addr), extension), step)
            && (*server)@.task is Mapping implies asks_to_listen(
        (*server)@,
        final(server)@,
        step,
        smem_addr,
        extension,
    ) by {
        let before = (*server)@;
        assert((final(server)@, step@) == before.after_mapped(Ok(smem_addr), extension));
        crate::server_laws::law_listener_listens_at_the_url(before, smem_addr, extension);
        crate::end_laws::law_shared_url_can_be_split(before.url, smem_addr, before.channel_size);
    }
}

/// A server that was `before` has got a listener, and is `after` then.
pub open spec fn has_listener<E>(
    before: ServerState<E>,
    after: ServerState<E>,
    step: Step,
    handle: SysHandle,
    other: SysHandle,
) -> bool {
    let pending = before.task->Creating_0;
    &&& same_settings(before, after)
    &&& after.listeners.contains_key(handle)
    &&& after.listeners[handle] == (ConnectionState {
        status: LocalServerConnectionStatus::Listening,
        handle,
        ..pending
    })
    &&& other != handle ==> (after.listeners.contains_key(other)
        <==> before.listeners.contains_key(other))
    &&& other != handle && before.listeners.contains_key(other)
        ==> after.listeners[other] == before.listeners[other]
    &&& before.task->Creating_1 matches GoalView::Start { remaining } ==> if remaining
        > 0 {
        asks_for_page(step@.action, before.channel_size)
    } else {
        step@.action == ActionView::Finished(OutcomeView::Started)
    }
    &&& before.task->Creating_1 matches GoalView::Wait { swap_target, extra_waiters }
        ==> waits_for_caller(step@.action, swap_target, extra_waiters) || (
    asks_for_page(step@.action, before.channel_size) && after.task
        == TaskView::<E>::Mapping(before.task->Creating_1))
}

/// With a handle, the new listener joins the others. A server that was to start asks for
/// the next page, or has started; one that was to wait asks for the next page, or waits
/// as its caller asked at first.
pub proof fn law_server_created<E>(handle: SysHandle, step: Step, other: SysHandle)
    ensures
        forall|server: &mut LocalServer<E>| #[trigger]
            call_ensures(LocalServer::<E>::created, (server, Ok(handle)), step)
                && (*server)@.task is Creating ==> has_listener(
                (*server)@,
                final(server)@,
                step,
                handle,
                other,
            ),
{
    assert forall|server: &mut LocalServer<E>| #[trigger]
        call_ensures(LocalServer::<E>::created, (server, Ok(handle)), step)
            && (*server)@.task is Creating implies has_listener(
        (*server)@,
        final(server)@,
        step,
        handle,
        other,
    ) by {
        let before = (*server)@;
        assert((final(server)@, step@) == before.after_created(Ok(handle)));
        crate::server_laws::law_new_listener_joins(before, handle, other);
        if let GoalView::Wait { swap_target, extra_waiters } = before.task->Creating_1 {
            crate::server_laws::law_wait_is_the_callers(
                before,
                swap_target,
                extra_waiters,
                0,
                arbitrary::<E>(),
                handle,
            );
        }
    }
}

/// `wakers` have woken a server that was `before`, and is `after` then.
pub open spec fn has_been_woken<E>(
    before: ServerState<E>,
    after: ServerState<E>,
    step: Step,
    wakers: Seq<SysHandle>,
    handle: SysHandle,
) -> bool {
    let comes = before.listeners.contains_key(handle) && wakers.contains(handle);
    &&& step@.action == ActionView::Finished(OutcomeView::Woken(wakers))
    &&& step@.cleanup.len() == 0
    &&& same_settings(before, after)
    &&& after.listeners.contains_key(handle) <==> before.listeners.contains_key(handle)
        && !wakers.contains(handle)
    &&& after.listeners.contains_key(handle) ==> after.listeners[handle]
        == before.listeners[handle]
    &&& after.active.contains_key(handle) <==> before.active.contains_key(handle)
        || comes
    &&& before.active.contains_key(handle) ==> after.active[handle]
        == before.active[handle]
    &&& comes ==> after.active[handle] == (ConnectionState {
        status: LocalServerConnectionStatus::Connected,
        ..before.listeners[handle]
    })
}

/// After a success the caller gets the handles before the first that is none. A listener
/// among them has a client then, with the same handle, page and extension, and all else
/// is as it was.
pub proof fn law_server_woken<E>(handles: Vec<SysHandle>, n: nat, step: Step, handle: SysHandle)
    requires
        n <= handles@.len(),
        forall|i: int| 0 <= i < n ==> #[trigger] handles@[i] != 0,
        n < handles@.len() ==> handles@[n as int] == 0,
    ensures
        forall|server: &mut LocalServer<E>| #[trigger]
            call_ensures(LocalServer::<E>::woken, (server, Ok(()), handles), step)
                && (*server)@.listeners.dom().disjoint((*server)@.active.dom()) ==> has_been_woken(
                (*server)@,
                final(server)@,
                step,
                handles@.take(n as int),
                handle,
            ),
{
    assert forall|server: &mut LocalServer<E>| #[trigger]
        call_ensures(LocalServer::<E>::woken, (server, Ok(()), handles), step)
            && (*server)@.listeners.dom().disjoint((*server)@.active.dom()) implies has_been_woken(
        (*server)@,
        final(server)@,
        step,
        handles@.take(n as int),
        handle,
    ) by {
        let before = (*server)@;
        assert((final(server)@, step@) == before.after_wait(Ok(()), handles@));
        assert forall|i: int| 0 <= i < n implies #[trigger] handles@[i] != 0 && !(
        before.listeners.contains_key(handles@[i]) && before.active.contains_key(handles@[i])) by {
            assert(before.listeners.dom().contains(handles@[i]) ==> !before.active.dom().contains(
                handles@[i],
            ));
        }
        crate::server_laws::law_success(before, handles@, n, handle);
    }
}

/// A wait that fails because of bad handles takes out of the server all of its own that
/// are reported, each of them once, and nothing else; the caller gets the others, in the
/// order in which they were reported.
pub proof fn law_server_has_bad_handles<E>(
    handles: Vec<SysHandle>,
    step: Step,
    handle: SysHandle,
)
    ensures
        forall|server: &mut LocalServer<E>| #[trigger]
            call_ensures(LocalServer::<E>::woken, (server, Err(17u16), handles), step)
                && (*server)@.wf() && (*server)@.task is Waiting && handles_apart((*server)@)
                && names_own_once((*server)@, handles@) ==> drops_bad(
                (*server)@,
                final(server)@,
                step,
                handles@,
                handle,
            ),
{
    assert forall|server: &mut LocalServer<E>| #[trigger]
        call_ensures(LocalServer::<E>::woken, (server, Err(17u16), handles), step)
            && (*server)@.wf() && (*server)@.task is Waiting && handles_apart((*server)@)
            && names_own_once((*server)@, handles@) implies drops_bad(
        (*server)@,
        final(server)@,
        step,
        handles@,
        handle,
    ) by {
        let before = (*server)@;
        assert((final(server)@, step@) == before.after_wait(Err(17u16), handles@));
        crate::laws::law_strangers_are_handed_on(before, handles@);
        if handles@.contains(handle) && handle != 0 {
            crate::laws::law_bad_handles_leave(before, handles@, handle);
            crate::laws::law_bad_handle_is_given_back(before, handles@, handle);
        }
        crate::laws::law_bad_handles_take_nothing_else(before, handles@, handle);
    }
}

/// A server that was `before` has dropped what is bad among `handles`, and is `after`
/// then.
pub open spec fn drops_bad<E>(
    before: ServerState<E>,
    after: ServerState<E>,
    step: Step,
    handles: Seq<SysHandle>,
    handle: SysHandle,
) -> bool {
    let bad = handle != 0 && handles.contains(handle);
    &&& same_settings(before, after)
    &&& after.task is Idle
    &&& step@.action == ActionView::Finished(
        OutcomeView::BadHandles(
            handles.filter(
                |h: SysHandle|
                    h != 0 && !before.listeners.contains_key(h) && !before.active.contains_key(h),
            ),
        ),
    )
    &&& after.listeners.contains_key(handle) <==> before.listeners.contains_key(handle) && !bad
    &&& after.active.contains_key(handle) <==> before.active.contains_key(handle) && !bad
    &&& after.listeners.contains_key(handle) ==> after.listeners[handle]
        == before.listeners[handle]
    &&& after.active.contains_key(handle) ==> after.active[handle] == before.active[handle]
    &&& bad && before.listeners.contains_key(handle) ==> gives_back(
        step@.cleanup,
        before.listeners[handle],
    )
    &&& bad && before.active.contains_key(handle) ==> gives_back(
        step@.cleanup,
        before.active[handle],
    )
}

/// A wait that fails for another reason tells the caller why, and changes nothing.
pub proof fn law_server_wait_failed<E>(e: ErrorCode, handles: Vec<SysHandle>, step: Step)
    requires
        e != 17,
    ensures
        forall|server: &mut LocalServer<E>| #[trigger]
            call_ensures(LocalServer::<E>::woken, (server, Err(e), handles), step)
                ==> step@.action == ActionView::Finished(OutcomeView::WaitFailed(e))
                && step@.cleanup.len() == 0 && same_connections((*server)@, final(server)@)
                && same_settings((*server)@, final(server)@) && final(server)@.task is Idle,
{
}

/// A server that gets no page or no listener tells its caller why, and has not started
/// or not waited. It gives back the page that it has got in vain, and if it was to start
/// all its listeners, of which it keeps none.
pub proof fn law_server_gets_no_listener<E>(e: ErrorCode, extension: E, step: Step)
    ensures
        forall|server: &mut LocalServer<E>| #[trigger]
            call_ensures(LocalServer::<E>::mapped, (server, Err(e), extension), step) && (
            *server)@.wf() && (*server)@.task is Mapping ==> has_no_listener(
                (*server)@,
                final(server)@,
                step,
                (*server)@.task->Mapping_0,
                seq![],
                e,
            ),
        forall|server: &mut LocalServer<E>| #[trigger]
            call_ensures(LocalServer::<E>::created, (server, Err(e)), step) && (*server)@.wf() && (
            *server)@.task is Creating ==> has_no_listener(
                (*server)@,
                final(server)@,
                step,
                (*server)@.task->Creating_1,
                (*server)@.task->Creating_0.release(),
                e,
            ),
{
    assert forall|server: &mut LocalServer<E>| #[trigger]
        call_ensures(LocalServer::<E>::mapped, (server, Err(e), extension), step) && (*server)@.wf()
            && (*server)@.task is Mapping implies has_no_listener(
        (*server)@,
        final(server)@,
        step,
        (*server)@.task->Mapping_0,
        seq![],
        e,
    ) by {
        assert((final(server)@, step@) == (*server)@.after_mapped(Err(e), extension));
        if (*server)@.task->Mapping_0 is Start {
            crate::laws::law_failed_start_gives_back_all((*server)@, e);
        }
    }
    assert forall|server: &mut LocalServer<E>| #[trigger]
        call_ensures(LocalServer::<E>::created, (server, Err(e)), step) && (*server)@.wf() && (
        *server)@.task is Creating implies has_no_listener(
        (*server)@,
        final(server)@,
        step,
        (*server)@.task->Creating_1,
        (*server)@.task->Creating_0.release(),
        e,
    ) by {
        assert((final(server)@, step@) == (*server)@.after_created(Err(e)));
        if (*server)@.task->Creating_1 is Start {
            crate::laws::law_failed_start_gives_back_all((*server)@, e);
        }
    }
}

/// A server that was `before` could not get a listener for `goal`, has got `in_vain`
/// what is to be given back, and is `after` then.
pub open spec fn has_no_listener<E>(
    before: ServerState<E>,
    after: ServerState<E>,
    step: Step,
    goal: GoalView,
    in_vain: Seq<Cleanup>,
    e: ErrorCode,
) -> bool {
    &&& same_settings(before, after)
    &&& after.task is Idle
    &&& goal is Start ==> step@.action == ActionView::Finished(OutcomeView::StartFailed(e))
        && step@.cleanup == before.release() && after.listeners.dom() == Set::<SysHandle>::empty()
        && after.active.dom() == Set::<SysHandle>::empty()
    &&& goal is Wait ==> step@.action == ActionView::Finished(OutcomeView::ListenerFailed(e))
        && step@.cleanup == in_vain && same_connections(before, after)
}

/// At its end a server gives back the page of a listener to be, then its listeners and
/// then its connections, each in ascending order, and nothing else.
pub proof fn law_server_ended<E>(
    server: LocalServer<E>,
    calls: Vec<Cleanup>,
    listening: Seq<SysHandle>,
    active: Seq<SysHandle>,
)
    requires
        call_ensures(LocalServer::<E>::release, (server,), calls),
        names_in_order(listening, |h: SysHandle| server@.listeners.contains_key(h)),
        names_in_order(active, |h: SysHandle| server@.active.contains_key(h)),
    ensures
        ({
            let rest = given_back(server@.listeners, listening) + given_back(
                server@.active,
                active,
            );
            &&& server@.task matches TaskView::Creating(listener, _) ==> calls@
                == listener.release() + rest
            &&& !(server@.task is Creating) ==> calls@ == rest
        }),
{
    crate::server_laws::law_end_in_order(server@, listening, active);
}

/// The caller gets at a connection by its handle, if the server has one, and what
/// becomes of the connection then is what the server has under that handle; nothing else
/// changes.
pub proof fn law_connection_got<E>(handle: SysHandle, other: SysHandle)
    ensures
        forall|server: &mut LocalServer<E>, connection: &mut LocalServerConnection<E>| #[trigger]
            call_ensures(LocalServer::<E>::get_connection, (server, handle), Some(connection)) ==> {
                let before = (*server)@;
                let after = final(server)@;
                &&& before.active.contains_key(handle)
                &&& (*connection)@ == before.active[handle]
                &&& after.active.contains_key(other) <==> before.active.contains_key(other)
                &&& after.active[handle] == final(connection)@
                &&& other != handle && before.active.contains_key(other) ==> after.active[other]
                    == before.active[other]
                &&& after.listeners == before.listeners
                &&& after.task == before.task
                &&& same_settings(before, after)
            },
        forall|server: &mut LocalServer<E>| #[trigger]
            call_ensures(
                LocalServer::<E>::get_connection,
                (server, handle),
                None::<&mut LocalServerConnection<E>>,
            ) ==> !(*server)@.active.contains_key(handle) && final(server)@ == (*server)@,
{
}

} // verus!
