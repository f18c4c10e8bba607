//! What holds of the library as a whole.

use crate::channel::{spliced, ChannelSize, Region};
use crate::client::ClientState;
use crate::connection::ConnectionState;
use crate::keys::{ascending, lists};
use crate::model::{
    expel, release_all, stale, usable, ActionView, GoalView, OutcomeView, ServerState,
    TaskView,
};
use crate::sys::{Cleanup, ErrorCode, SysHandle, E_BAD_HANDLE, HANDLE_NONE};
use crate::url::{decimal, escaped, shared_url, url_encoded};
use vstd::prelude::*;

verus! {

/// What is written into a page can be read back from the same address, and the
/// page stays as long as it was.
pub proof fn law_write_then_read(page: Region, mem: Seq<u8>, addr: int, bytes: Seq<u8>)
    requires
        mem.len() == page.len,
        page.covers(addr, bytes.len() as int),
    ensures
        ({
            let at = page.offset(addr);
            let written = spliced(mem, at, at + bytes.len(), bytes);
            &&& written.subrange(at, at + bytes.len()) == bytes
            &&& written.len() == mem.len()
        }),
{
    let at = page.offset(addr);
    assert(spliced(mem, at, at + bytes.len(), bytes).subrange(at, at + bytes.len()) =~= bytes);
}

/// A write leaves alone what is elsewhere in the page: a read that does not touch
/// the bytes written gives what it gave before.
pub proof fn law_write_is_local(
    page: Region,
    mem: Seq<u8>,
    addr: int,
    bytes: Seq<u8>,
    read_addr: int,
    read_len: int,
)
    requires
        mem.len() == page.len,
        page.covers(addr, bytes.len() as int),
        page.covers(read_addr, read_len),
        0 <= read_len,
        read_addr + read_len <= addr || addr + bytes.len() <= read_addr,
    ensures
        ({
            let at = page.offset(addr);
            let from = page.offset(read_addr);
            spliced(mem, at, at + bytes.len(), bytes).subrange(from, from + read_len)
                == mem.subrange(from, from + read_len)
        }),
{
    let at = page.offset(addr);
    let from = page.offset(read_addr);
    assert(spliced(mem, at, at + bytes.len(), bytes).subrange(from, from + read_len)
        =~= mem.subrange(from, from + read_len));
}

/// The last of two writes to one place is the one that counts.
pub proof fn law_last_write_counts(page: Region, mem: Seq<u8>, addr: int, a: Seq<u8>, b: Seq<u8>)
    requires
        mem.len() == page.len,
        a.len() == b.len(),
        page.covers(addr, a.len() as int),
    ensures
        ({
            let at = page.offset(addr);
            spliced(spliced(mem, at, at + a.len(), a), at, at + b.len(), b) == spliced(
                mem,
                at,
                at + b.len(),
                b,
            )
        }),
{
    let at = page.offset(addr);
    assert(spliced(spliced(mem, at, at + a.len(), a), at, at + b.len(), b) =~= spliced(
        mem,
        at,
        at + b.len(),
        b,
    ));
}

/// The two ends of a channel share the bytes `mem`: the server reads the request
/// that the client has written, and the client the response that the server has
/// written, whatever the page held before.
pub proof fn law_request_and_response_arrive<E>(
    client: ClientState,
    server: ConnectionState<E>,
    mem: Seq<u8>,
    request: Seq<u8>,
    response: Seq<u8>,
)
    requires
        client.channel_size == server.channel_size,
        mem.len() == client.region().len,
        request.len() <= client.region().len,
        response.len() <= server.region().len,
    ensures
        ({
            let asked = spliced(mem, 0, request.len() as int, request);
            let answered = spliced(asked, 0, response.len() as int, response);
            &&& asked.len() == server.region().len
            &&& asked.take(request.len() as int) == request
            &&& answered.len() == client.region().len
            &&& answered.take(response.len() as int) == response
        }),
{
    let asked = spliced(mem, 0, request.len() as int, request);
    let answered = spliced(asked, 0, response.len() as int, response);
    assert(asked.take(request.len() as int) =~= request);
    assert(answered.take(response.len() as int) =~= response);
}

/// A URL that is written inside another one holds neither `:` nor `=`, which end
/// the kind of the other one and the names in it. A `;` is written as it is.
pub proof fn law_encoded_url_is_plain(url: Seq<char>, i: int)
    requires
        0 <= i < url_encoded(url).len(),
    ensures
        url_encoded(url)[i] != ':',
        url_encoded(url)[i] != '=',
    decreases url.len(),
{
    let first = escaped(url.first());
    if i >= first.len() {
        law_encoded_url_is_plain(url.drop_first(), i - first.len());
    }
}

/// Different URLs are still different when they are written inside another one.
pub proof fn law_encoding_keeps_urls_apart(a: Seq<char>, b: Seq<char>)
    requires
        url_encoded(a) == url_encoded(b),
    ensures
        a == b,
    decreases a.len(),
{
    if a.len() == 0 {
        if b.len() > 0 {
            assert(escaped(b.first()).len() > 0);
        }
        assert(a =~= b);
    } else if b.len() == 0 {
        assert(escaped(a.first()).len() > 0);
    } else {
        let ea = escaped(a.first());
        let eb = escaped(b.first());
        let all = url_encoded(a);
        assert(all[0] == ea[0]);
        assert(all[0] == eb[0]);
        if ea.len() > 1 && eb.len() > 1 {
            assert(all[1] == ea[1]);
            assert(all[1] == eb[1]);
        }
        assert(a.first() == b.first());
        assert(all.skip(ea.len() as int) =~= url_encoded(a.drop_first()));
        assert(all.skip(eb.len() as int) =~= url_encoded(b.drop_first()));
        law_encoding_keeps_urls_apart(a.drop_first(), b.drop_first());
        assert(a =~= seq![a.first()] + a.drop_first());
        assert(b =~= seq![b.first()] + b.drop_first());
    }
}

/// A number has one decimal form, which is not empty and holds digits only; and
/// different numbers have different ones.
pub proof fn law_decimal_is_unambiguous(m: nat, n: nat)
    ensures
        decimal(m).len() > 0,
        forall|i: int| 0 <= i < decimal(m).len() ==> '0' <= #[trigger] decimal(m)[i] <= '9',
        decimal(m) == decimal(n) ==> m == n,
    decreases m + n,
{
    if m >= 10 {
        law_decimal_is_unambiguous(m / 10, n / 10);
    }
    if decimal(m) == decimal(n) {
        if n >= 10 {
            law_decimal_is_unambiguous(n / 10, 0);
        }
        assert(decimal(m).last() == decimal(n).last());
        if m >= 10 && n >= 10 {
            assert(decimal(m).drop_last() =~= decimal(m / 10));
            assert(decimal(n).drop_last() =~= decimal(n / 10));
        }
    }
}

/// The URL that opens one end of a channel can be read back: it tells the service,
/// the address of the page, and the size of the channel.
pub proof fn law_shared_url_is_unambiguous(
    a: Seq<char>,
    a_addr: u64,
    a_size: ChannelSize,
    b: Seq<char>,
    b_addr: u64,
    b_size: ChannelSize,
)
    requires
        shared_url(a, a_addr, a_size) == shared_url(b, b_addr, b_size),
    ensures
        a == b,
        a_addr == b_addr,
        a_size == b_size,
{
    reveal_strlit(";address=");
    reveal_strlit(";page_type=");
    reveal_strlit("small");
    reveal_strlit("mid");
    let before = "shared:url="@.len() as int;
    let url = shared_url(a, a_addr, a_size);
    let ea = url_encoded(a);
    let eb = url_encoded(b);
    lemma_encoded_ends_first(a, a_addr, a_size, b, b_addr, b_size);
    lemma_encoded_ends_first(b, b_addr, b_size, a, a_addr, a_size);
    assert(url.subrange(before, before + ea.len()) =~= ea);
    assert(url.subrange(before, before + eb.len()) =~= eb);
    law_encoding_keeps_urls_apart(a, b);

    let da = decimal(a_addr as nat);
    let db = decimal(b_addr as nat);
    let middle = before + ea.len() + 9;
    law_decimal_is_unambiguous(a_addr as nat, b_addr as nat);
    law_decimal_is_unambiguous(b_addr as nat, a_addr as nat);
    if da.len() < db.len() {
        assert(url[middle + da.len()] == ';');
        assert(url[middle + da.len()] == db[da.len() as int]);
    }
    if db.len() < da.len() {
        assert(url[middle + db.len()] == ';');
        assert(url[middle + db.len()] == da[db.len() as int]);
    }
    assert(url.subrange(middle, middle + da.len()) =~= da);
    assert(url.subrange(middle, middle + db.len()) =~= db);

    let last = middle + da.len() + 11;
    assert(url[last] == a_size.page_type()[0]);
    assert(url[last] == b_size.page_type()[0]);
}

/// Of two equal URLs that open channels, neither names a shorter service.
proof fn lemma_encoded_ends_first(
    a: Seq<char>,
    a_addr: u64,
    a_size: ChannelSize,
    b: Seq<char>,
    b_addr: u64,
    b_size: ChannelSize,
)
    requires
        shared_url(a, a_addr, a_size) == shared_url(b, b_addr, b_size),
    ensures
        url_encoded(a).len() >= url_encoded(b).len(),
{
    reveal_strlit(";address=");
    let before = "shared:url="@.len() as int;
    let url = shared_url(a, a_addr, a_size);
    let ea = url_encoded(a);
    let eb = url_encoded(b);
    if ea.len() < eb.len() {
        let sign = ea.len() as int + 8;
        let at = before + sign;
        assert(url[at] == '=');
        if sign < eb.len() {
            assert(url[at] == eb[sign]);
            law_encoded_url_is_plain(b, sign);
        } else {
            assert(url[at] == ";address="@[sign - eb.len()]);
        }
    }
}

/// What always holds of a client: one without a channel has no handle of one.
pub open spec fn client_wf(client: ClientState) -> bool {
    client.status is Idle ==> client.handle == HANDLE_NONE
}

/// A client without a channel has no handle of one, at first and whatever is done
/// with it.
pub proof fn law_idle_client_has_no_handle(
    client: ClientState,
    smem_addr: u64,
    channel_size: ChannelSize,
    opened: Result<SysHandle, ErrorCode>,
    waited: Result<(), ErrorCode>,
)
    requires
        client_wf(client),
    ensures
        client_wf(ClientState::fresh(smem_addr, channel_size)),
        client_wf(client.after_connect(opened)),
        client_wf(client.after_rpc(waited)),
        client_wf(client.after_disconnect()),
{
}

/// To disconnect undoes to connect.
pub proof fn law_disconnect_undoes_connect(client: ClientState, handle: SysHandle)
    requires
        client.idle(),
        handle != HANDLE_NONE,
    ensures
        client.after_connect(Ok(handle)).status is Connected,
        client.after_connect(Ok(handle)).after_disconnect() == client,
{
}

/// A client whose server is gone is not connected until it has been disconnected
/// and connected anew; it keeps its handle, to be closed.
pub proof fn law_lost_server(client: ClientState, handle: SysHandle)
    requires
        client.status is Connected,
        client.handle != HANDLE_NONE,
    ensures
        !(client.after_rpc(Err(E_BAD_HANDLE)).status is Connected),
        !client.after_rpc(Err(E_BAD_HANDLE)).idle(),
        client.after_rpc(Err(E_BAD_HANDLE)).handle == client.handle,
        client.after_rpc(Err(E_BAD_HANDLE)).after_disconnect().idle(),
        client.after_rpc(Err(E_BAD_HANDLE)).after_disconnect().after_connect(Ok(handle)).status is Connected,
{
}

/// A client gives back the same, whether or not it is disconnected first: no
/// handle is closed twice, and none is left open.
pub proof fn law_client_gives_back_once(client: ClientState)
    requires
        client.handle != HANDLE_NONE,
    ensures
        seq![Cleanup::Put(client.handle)] + crate::sys::release(
            client.after_disconnect().handle,
            client.after_disconnect().smem_addr,
        ) == crate::sys::release(client.handle, client.smem_addr),
{
    assert(seq![Cleanup::Put(client.handle)] + crate::sys::release(
        client.after_disconnect().handle,
        client.after_disconnect().smem_addr,
    ) =~= crate::sys::release(client.handle, client.smem_addr));
}

/// A server end with a channel gives back the same, whether or not it is
/// disconnected first.
pub proof fn law_connection_gives_back_once<E>(connection: ConnectionState<E>)
    requires
        !(connection.status is Idle),
        connection.handle != HANDLE_NONE,
    ensures
        connection.close() == connection.release(),
{
    assert(connection.close() =~= connection.release());
}

/// Whatever the user of a server does with a connection, it stays under its
/// handle: it keeps the handle, or has lost its client and has none.
pub proof fn law_connection_keeps_its_place<E>(
    handle: SysHandle,
    connection: ConnectionState<E>,
    reply: Result<(), ErrorCode>,
    extension: E,
)
    requires
        ServerState::<E>::connection_ok(handle, connection),
    ensures
        ServerState::<E>::connection_ok(handle, connection.after_disconnect()),
        ServerState::<E>::connection_ok(handle, connection.after_finish_rpc(reply)),
        ServerState::<E>::connection_ok(handle, ConnectionState { extension, ..connection }),
{
}

/// A server between two operations stays well formed, and its handles stay apart,
/// when one of its connections is changed in place.
pub proof fn law_connection_can_be_used<E>(
    server: ServerState<E>,
    handle: SysHandle,
    connection: ConnectionState<E>,
)
    requires
        server.wf(),
        server.task is Idle,
        server.active.contains_key(handle),
        ServerState::<E>::connection_ok(handle, connection),
    ensures
        ({
            let after = ServerState { active: server.active.insert(handle, connection), ..server };
            &&& after.wf()
            &&& handles_apart(server) && (connection.status is Connected
                ==> server.active[handle].status is Connected) ==> handles_apart(after)
        }),
{
    let after = ServerState { active: server.active.insert(handle, connection), ..server };
    assert(after.active.dom() =~= server.active.dom());
    if handles_apart(server) && (connection.status is Connected
        ==> server.active[handle].status is Connected) {
        assert forall|h: SysHandle| #[trigger]
            after.listeners.contains_key(h) implies !is_connected(after, h) by {
            assert(server.listeners.contains_key(h));
            assert(is_connected(after, h) ==> is_connected(server, h));
        }
    }
}

/// What is attached to a server end is what is read of it, until something else is
/// attached, whether it starts to listen, gets a client, answers it or loses it in
/// between; and what was attached before is gone.
pub proof fn law_extension_lasts<E>(
    connection: ConnectionState<E>,
    extension: E,
    handle: SysHandle,
    reply: Result<(), ErrorCode>,
)
    ensures
        ({
            let attached = ConnectionState { extension, ..connection };
            &&& attached.extension == extension
            &&& attached.listening(handle).extension == extension
            &&& attached.accepted().extension == extension
            &&& attached.after_disconnect().extension == extension
            &&& attached.after_finish_rpc(reply).extension == extension
        }),
{
}

/// No step of a server touches what is attached to a connection that it keeps.
pub proof fn law_server_keeps_extensions<E>(
    server: ServerState<E>,
    swap_target: SysHandle,
    extra_waiters: Seq<SysHandle>,
    mapped: Result<u64, ErrorCode>,
    extension: E,
    created: Result<SysHandle, ErrorCode>,
    waited: Result<(), ErrorCode>,
    handles: Seq<SysHandle>,
    handle: SysHandle,
)
    requires
        server.wf(),
        server.active.contains_key(handle),
    ensures
        keeps_extension(
            server,
            server.pursue(GoalView::Wait { swap_target, extra_waiters }).0,
            handle,
        ),
        server.task is Mapping ==> keeps_extension(
            server,
            server.after_mapped(mapped, extension).0,
            handle,
        ),
        server.task is Creating ==> keeps_extension(
            server,
            server.after_created(created).0,
            handle,
        ),
        server.task is Waiting ==> keeps_extension(
            server,
            server.after_wait(waited, handles).0,
            handle,
        ),
{
    if server.task is Waiting {
        if waited is Ok {
            let n = usable(server.listeners, server.active, handles);
            let wakers = handles.take(n as int);
            crate::model::lemma_usable_bounds(server.listeners, server.active, handles);
            if wakers.to_set().contains(handle) {
                let i = choose|i: int| 0 <= i < wakers.len() && wakers[i] == handle;
                assert(handles[i] == handle);
            }
        } else {
            crate::model::lemma_expel_shrinks(server.listeners, server.active, handles);
        }
    }
}

/// If `after` still has the connection with this handle, the same is attached to it.
pub open spec fn keeps_extension<E>(
    before: ServerState<E>,
    after: ServerState<E>,
    handle: SysHandle,
) -> bool {
    after.active.contains_key(handle) ==> after.active[handle].extension
        == before.active[handle].extension
}

/// `handle` is that of a connection that has a client.
pub open spec fn is_connected<E>(server: ServerState<E>, handle: SysHandle) -> bool {
    server.active.contains_key(handle) && server.active[handle].status is Connected
}

/// No listener has the handle of a connection that has a client. A connection that
/// has lost its client has closed its handle, which a listener may get then.
pub open spec fn handles_apart<E>(server: ServerState<E>) -> bool {
    forall|handle: SysHandle| #[trigger]
        server.listeners.contains_key(handle) ==> !is_connected(server, handle)
}

/// A new server has no listener with the handle of a connection.
pub proof fn law_handles_are_apart_at_first<E>(
    url: Seq<char>,
    channel_size: ChannelSize,
    max_connections: u64,
    max_listeners: u64,
)
    ensures
        handles_apart(
            ServerState::<E>::empty(url, channel_size, max_connections, max_listeners).pursue(
                GoalView::Start { remaining: max_listeners },
            ).0,
        ),
{
}

/// As long as the kernel hands out no handle that a connection with a client has,
/// no listener ever has the handle of such a connection. While the server waits, no
/// listener has the handle of any connection.
pub proof fn law_handles_stay_apart<E>(
    server: ServerState<E>,
    swap_target: SysHandle,
    extra_waiters: Seq<SysHandle>,
    mapped: Result<u64, ErrorCode>,
    extension: E,
    created: Result<SysHandle, ErrorCode>,
    waited: Result<(), ErrorCode>,
    handles: Seq<SysHandle>,
)
    requires
        server.wf(),
        handles_apart(server),
        created matches Ok(handle) ==> !is_connected(server, handle),
    ensures
        handles_apart(server.pursue(GoalView::Wait { swap_target, extra_waiters }).0),
        server.task is Mapping ==> handles_apart(server.after_mapped(mapped, extension).0),
        server.task is Creating ==> handles_apart(server.after_created(created).0),
        server.task is Waiting ==> handles_apart(server.after_wait(waited, handles).0),
        server.task is Waiting ==> server.listeners.dom().disjoint(server.active.dom()),
        server.task is Waiting ==> {
            let after = server.after_wait(waited, handles).0;
            after.listeners.dom().disjoint(after.active.dom())
        },
{
    if server.task is Creating {
        if let Ok(handle) = created {
            let next = server.with_listener(handle);
            assert forall|h: SysHandle| #[trigger]
                next.listeners.contains_key(h) implies !is_connected(next, h) by {
                assert(h == handle || server.listeners.contains_key(h));
                assert(is_connected(next, h) == is_connected(server, h));
            }
            lemma_pursue_keeps_apart(next, server.task->Creating_1);
        }
    }
    lemma_pursue_keeps_apart(server, GoalView::Wait { swap_target, extra_waiters });
    if server.task is Mapping {
        let after = server.after_mapped(mapped, extension).0;
        assert forall|h: SysHandle| #[trigger]
            after.listeners.contains_key(h) implies !is_connected(after, h) by {
            assert(server.listeners.contains_key(h));
            assert(is_connected(after, h) == is_connected(server, h));
        }
    }
    if server.task is Creating && created is Err {
        let after = server.after_created(created).0;
        assert forall|h: SysHandle| #[trigger]
            after.listeners.contains_key(h) implies !is_connected(after, h) by {
            assert(server.listeners.contains_key(h));
            assert(is_connected(after, h) == is_connected(server, h));
        }
    }
    if server.task is Waiting {
        lemma_disjoint_while_waiting(server);
        let after = server.after_wait(waited, handles).0;
        crate::model::lemma_expel_shrinks(server.listeners, server.active, handles);
        assert(after.listeners.dom().disjoint(after.active.dom())) by {
            assert forall|h: SysHandle| after.listeners.dom().contains(
                h,
            ) implies !after.active.dom().contains(h) by {
                assert(after.listeners.contains_key(h));
                assert(server.listeners.contains_key(h));
                if after.active.contains_key(h) && waited is Err {
                    assert(server.active.contains_key(h));
                }
            }
        }
        assert forall|h: SysHandle| #[trigger]
            after.listeners.contains_key(h) implies !is_connected(after, h) by {
            assert(after.listeners.dom().contains(h));
        }
    }
}

/// A server that goes on keeps its handles apart.
proof fn lemma_pursue_keeps_apart<E>(server: ServerState<E>, goal: GoalView)
    requires
        handles_apart(server),
    ensures
        handles_apart(server.pursue(goal).0),
{
    let after = server.pursue(goal).0;
    assert forall|h: SysHandle| #[trigger]
        after.listeners.contains_key(h) implies !is_connected(after, h) by {
        assert(server.listeners.contains_key(h));
        assert(is_connected(after, h) ==> is_connected(server, h));
    }
}

/// While a server waits, all its connections have clients, so that no handle is a
/// listener's and a connection's at once.
proof fn lemma_disjoint_while_waiting<E>(server: ServerState<E>)
    requires
        server.wf(),
        server.task is Waiting,
        handles_apart(server),
    ensures
        server.listeners.dom().disjoint(server.active.dom()),
{
    assert forall|h: SysHandle| server.listeners.dom().contains(
        h,
    ) implies !server.active.dom().contains(h) by {
        assert(server.listeners.contains_key(h));
        assert(!is_connected(server, h));
        assert(server.active.contains_key(h) ==> server.active[h].status is Connected);
    }
}

/// As long as handles are apart, a wait that succeeds ends with the handles that
/// have woken the server: all those before the first that is none.
pub proof fn law_success_is_woken<E>(server: ServerState<E>, handles: Seq<SysHandle>, n: nat)
    requires
        server.wf(),
        server.task is Waiting,
        handles_apart(server),
        n <= handles.len(),
        forall|i: int| 0 <= i < n ==> handles[i] != HANDLE_NONE,
        n < handles.len() ==> handles[n as int] == HANDLE_NONE,
    ensures
        server.after_wait(Ok(()), handles).1.action == ActionView::Finished(
            OutcomeView::Woken(handles.take(n as int)),
        ),
{
    lemma_disjoint_while_waiting(server);
    assert forall|i: int| 0 <= i < n implies #[trigger] handles[i] != HANDLE_NONE && !(
    server.listeners.contains_key(handles[i]) && server.active.contains_key(handles[i])) by {
        assert(server.listeners.dom().contains(handles[i]) ==> !server.active.dom().contains(
            handles[i],
        ));
    }
    crate::model::lemma_usable_is(server.listeners, server.active, handles, n);
}

/// A listener that has woken the server is a connection with a client then, and
/// keeps its handle, its page and what is attached to it.
pub proof fn law_woken_listener_is_connected<E>(
    server: ServerState<E>,
    handles: Seq<SysHandle>,
    wakers: Seq<SysHandle>,
    i: int,
)
    requires
        server.wf(),
        server.after_wait(Ok(()), handles).1.action == ActionView::Finished(
            OutcomeView::Woken(wakers),
        ),
        0 <= i < wakers.len(),
        server.listeners.contains_key(wakers[i]),
    ensures
        ({
            let after = server.after_wait(Ok(()), handles).0;
            let listener = server.listeners[wakers[i]];
            &&& !after.listeners.contains_key(wakers[i])
            &&& after.active.contains_key(wakers[i])
            &&& after.active[wakers[i]] == listener.accepted()
            &&& after.active[wakers[i]].status is Connected
            &&& after.active[wakers[i]].handle == wakers[i]
            &&& after.active[wakers[i]].smem_addr == listener.smem_addr
            &&& after.active[wakers[i]].extension == listener.extension
        }),
{
    let n = usable(server.listeners, server.active, handles);
    assert(wakers == handles.take(n as int));
    assert(wakers.to_set().contains(wakers[i]));
}

/// A wait that succeeds leaves alone the listeners that have not woken the server,
/// and all connections.
pub proof fn law_success_keeps_the_rest<E>(
    server: ServerState<E>,
    handles: Seq<SysHandle>,
    wakers: Seq<SysHandle>,
    handle: SysHandle,
)
    requires
        server.after_wait(Ok(()), handles).1.action == ActionView::Finished(
            OutcomeView::Woken(wakers),
        ),
    ensures
        ({
            let after = server.after_wait(Ok(()), handles).0;
            &&& server.listeners.contains_key(handle) && !wakers.contains(handle)
                ==> after.listeners.contains_key(handle) && after.listeners[handle]
                == server.listeners[handle]
            &&& server.active.contains_key(handle) ==> after.active.contains_key(handle)
                && after.active[handle] == server.active[handle]
        }),
{
    let n = usable(server.listeners, server.active, handles);
    crate::model::lemma_usable_bounds(server.listeners, server.active, handles);
    assert(wakers == handles.take(n as int));
    if wakers.to_set().contains(handle) {
        let i = choose|i: int| 0 <= i < wakers.len() && wakers[i] == handle;
        assert(handles[i] == handle);
    }
}

/// As long as handles are apart, no handle that is reported bad is the server's
/// any more.
pub proof fn law_bad_handles_leave<E>(
    server: ServerState<E>,
    handles: Seq<SysHandle>,
    handle: SysHandle,
)
    requires
        server.wf(),
        server.task is Waiting,
        handles_apart(server),
        handles.contains(handle),
        handle != HANDLE_NONE,
    ensures
        !server.after_wait(Err(E_BAD_HANDLE), handles).0.listeners.contains_key(handle),
        !server.after_wait(Err(E_BAD_HANDLE), handles).0.active.contains_key(handle),
{
    lemma_disjoint_while_waiting(server);
    lemma_expelled_is_gone(server.listeners, server.active, handles, handle);
}

proof fn lemma_expelled_is_gone<E>(
    listeners: Map<SysHandle, ConnectionState<E>>,
    active: Map<SysHandle, ConnectionState<E>>,
    bad: Seq<SysHandle>,
    handle: SysHandle,
)
    requires
        listeners.dom().disjoint(active.dom()),
        bad.contains(handle),
        handle != HANDLE_NONE,
    ensures
        !expel(listeners, active, bad).listeners.contains_key(handle),
        !expel(listeners, active, bad).active.contains_key(handle),
    decreases bad.len(),
{
    let so_far = expel(listeners, active, bad.drop_last());
    crate::model::lemma_expel_shrinks(listeners, active, bad.drop_last());
    if bad.last() == handle {
        if so_far.active.contains_key(handle) {
            assert(active.contains_key(handle));
            assert(so_far.listeners.contains_key(handle) ==> listeners.contains_key(handle));
        }
    } else {
        let i = choose|i: int| 0 <= i < bad.len() && bad[i] == handle;
        assert(bad.drop_last()[i] == handle);
        lemma_expelled_is_gone(listeners, active, bad.drop_last(), handle);
    }
}

/// A server keeps what is not reported bad.
pub proof fn law_good_handles_stay<E>(
    server: ServerState<E>,
    handles: Seq<SysHandle>,
    handle: SysHandle,
)
    requires
        !handles.contains(handle),
    ensures
        ({
            let after = server.after_wait(Err(E_BAD_HANDLE), handles).0;
            &&& server.listeners.contains_key(handle) ==> after.listeners.contains_key(handle)
                && after.listeners[handle] == server.listeners[handle]
            &&& server.active.contains_key(handle) ==> after.active.contains_key(handle)
                && after.active[handle] == server.active[handle]
        }),
{
    lemma_not_expelled(server.listeners, server.active, handles, handle);
}

/// Bad handles add nothing to a server, and change nothing of what it keeps. What is not
/// reported bad it keeps.
pub proof fn law_bad_handles_take_nothing_else<E>(
    server: ServerState<E>,
    handles: Seq<SysHandle>,
    handle: SysHandle,
)
    ensures
        ({
            let after = server.after_wait(Err(E_BAD_HANDLE), handles).0;
            &&& after.listeners.contains_key(handle) ==> server.listeners.contains_key(handle)
                && after.listeners[handle] == server.listeners[handle]
            &&& after.active.contains_key(handle) ==> server.active.contains_key(handle)
                && after.active[handle] == server.active[handle]
            &&& handle == HANDLE_NONE || !handles.contains(handle) ==> (
            after.listeners.contains_key(handle) <==> server.listeners.contains_key(handle))
            &&& handle == HANDLE_NONE || !handles.contains(handle) ==> (
            after.active.contains_key(handle) <==> server.active.contains_key(handle))
        }),
{
    crate::model::lemma_expel_shrinks(server.listeners, server.active, handles);
    if !handles.contains(handle) {
        lemma_not_expelled(server.listeners, server.active, handles, handle);
    } else if handle == HANDLE_NONE {
        lemma_none_not_expelled(server.listeners, server.active, handles);
    }
}

/// An empty place takes nothing out of a server.
proof fn lemma_none_not_expelled<E>(
    listeners: Map<SysHandle, ConnectionState<E>>,
    active: Map<SysHandle, ConnectionState<E>>,
    bad: Seq<SysHandle>,
)
    ensures
        ({
            let after = expel(listeners, active, bad);
            &&& after.listeners.contains_key(HANDLE_NONE) == listeners.contains_key(HANDLE_NONE)
            &&& after.active.contains_key(HANDLE_NONE) == active.contains_key(HANDLE_NONE)
        }),
    decreases bad.len(),
{
    if bad.len() > 0 {
        lemma_none_not_expelled(listeners, active, bad.drop_last());
    }
}

proof fn lemma_not_expelled<E>(
    listeners: Map<SysHandle, ConnectionState<E>>,
    active: Map<SysHandle, ConnectionState<E>>,
    bad: Seq<SysHandle>,
    handle: SysHandle,
)
    requires
        !bad.contains(handle),
    ensures
        ({
            let after = expel(listeners, active, bad);
            &&& listeners.contains_key(handle) == after.listeners.contains_key(handle)
            &&& active.contains_key(handle) == after.active.contains_key(handle)
            &&& listeners.contains_key(handle) ==> after.listeners[handle] == listeners[handle]
            &&& active.contains_key(handle) ==> after.active[handle] == active[handle]
        }),
    decreases bad.len(),
{
    if bad.len() > 0 {
        assert(bad.last() != handle) by {
            assert(bad[bad.len() - 1] == bad.last());
        }
        assert(!bad.drop_last().contains(handle)) by {
            if bad.drop_last().contains(handle) {
                let i = choose|i: int| 0 <= i < bad.drop_last().len() && bad.drop_last()[i] == handle;
                assert(bad[i] == handle);
            }
        }
        lemma_not_expelled(listeners, active, bad.drop_last(), handle);
    }
}

/// No handle of the server is in two places of `handles`. There may be any number of
/// empty places, and of places with one and the same other handle.
pub open spec fn names_own_once<E>(server: ServerState<E>, handles: Seq<SysHandle>) -> bool {
    forall|i: int, j: int|
        0 <= i < j < handles.len() && handles[i] == handles[j] ==> handles[i] == HANDLE_NONE || (
        !server.listeners.contains_key(handles[i]) && !server.active.contains_key(handles[i]))
}

/// When each bad handle of the server is reported once, the bad handles handed on to
/// the caller are the ones that are none of the server's, in the order in which they
/// were reported.
pub proof fn law_strangers_are_handed_on<E>(server: ServerState<E>, handles: Seq<SysHandle>)
    requires
        names_own_once(server, handles),
    ensures
        server.after_wait(Err(E_BAD_HANDLE), handles).1.action == ActionView::Finished(
            OutcomeView::BadHandles(
                handles.filter(
                    |handle: SysHandle|
                        handle != HANDLE_NONE && !server.listeners.contains_key(handle)
                            && !server.active.contains_key(handle),
                ),
            ),
        ),
{
    lemma_strangers(server, handles);
}

proof fn lemma_strangers<E>(server: ServerState<E>, bad: Seq<SysHandle>)
    requires
        names_own_once(server, bad),
    ensures
        expel(server.listeners, server.active, bad).strangers == bad.filter(
            |handle: SysHandle|
                handle != HANDLE_NONE && !server.listeners.contains_key(handle)
                    && !server.active.contains_key(handle),
        ),
    decreases bad.len(),
{
    reveal(Seq::filter);
    if bad.len() > 0 {
        let rest = bad.drop_last();
        let last = bad.last();
        assert(names_own_once(server, rest)) by {
            assert forall|i: int, j: int|
                0 <= i < j < rest.len() && rest[i] == rest[j] implies rest[i] == HANDLE_NONE || (
            !server.listeners.contains_key(rest[i]) && !server.active.contains_key(rest[i])) by {
                assert(bad[i] == bad[j]);
            }
        }
        lemma_strangers(server, rest);
        crate::model::lemma_expel_shrinks(server.listeners, server.active, rest);
        if last != HANDLE_NONE && (server.listeners.contains_key(last)
            || server.active.contains_key(last)) {
            assert(!rest.contains(last)) by {
                if rest.contains(last) {
                    let i = choose|i: int| 0 <= i < rest.len() && rest[i] == last;
                    assert(bad[i] == bad[bad.len() - 1]);
                }
            }
            lemma_not_expelled(server.listeners, server.active, rest, last);
        }
    }
}

/// A server waits only when it has as many listeners as it should, or no room for
/// more.
pub proof fn law_waits_with_its_listeners<E>(
    server: ServerState<E>,
    swap_target: SysHandle,
    extra_waiters: Seq<SysHandle>,
)
    ensures
        server.pursue(GoalView::Wait { swap_target, extra_waiters }).1.action is Wait <==> !(
        server.listeners.len() < server.max_listeners as usize && server.listeners.len()
            + server.active.len() < server.max_connections as usize),
{
}

/// A server waits for its listeners, for its connections that have a client, for
/// the extra handles, and for nothing else; and the connections without a client
/// are gone.
pub proof fn law_waits_for_all_it_has<E>(
    server: ServerState<E>,
    swap_target: SysHandle,
    extra_waiters: Seq<SysHandle>,
    handle: SysHandle,
)
    requires
        server.wf(),
        !server.needs_listener(),
    ensures
        ({
            let next = server.pursue(GoalView::Wait { swap_target, extra_waiters });
            let waited_for = next.1.action->Wait_0.handles;
            let connected = server.active.contains_key(handle)
                && server.active[handle].status is Connected;
            &&& waited_for.contains(handle) <==> server.listeners.contains_key(handle)
                || connected || extra_waiters.contains(handle)
            &&& next.0.active.contains_key(handle) <==> connected
        }),
{
    let kept = server.active.remove_keys(stale(server.active));
    vstd::set_lib::lemma_len_subset(kept.dom(), server.active.dom());
    lemma_ascending_contains(server.listeners.dom(), handle);
    lemma_ascending_contains(kept.dom(), handle);
    let a = ascending(server.listeners.dom());
    let b = ascending(kept.dom());
    lemma_concat_contains(a + b, extra_waiters, handle);
    lemma_concat_contains(a, b, handle);
}

proof fn lemma_concat_contains(a: Seq<SysHandle>, b: Seq<SysHandle>, handle: SysHandle)
    ensures
        (a + b).contains(handle) <==> a.contains(handle) || b.contains(handle),
{
    if a.contains(handle) {
        let i = choose|i: int| 0 <= i < a.len() && a[i] == handle;
        assert((a + b)[i] == handle);
    }
    if b.contains(handle) {
        let i = choose|i: int| 0 <= i < b.len() && b[i] == handle;
        assert((a + b)[a.len() + i] == handle);
    }
    if (a + b).contains(handle) {
        let i = choose|i: int| 0 <= i < (a + b).len() && (a + b)[i] == handle;
        if i < a.len() {
            assert(a[i] == handle);
        } else {
            assert(b[i - a.len()] == handle);
        }
    }
}

proof fn lemma_ascending_contains(handles: Set<SysHandle>, handle: SysHandle)
    requires
        handles.finite(),
    ensures
        ascending(handles).contains(handle) <==> handles.contains(handle),
{
    law_handles_can_be_listed(handles);
    let list = ascending(handles);
    assert(list.to_set().contains(handle) <==> list.contains(handle));
}

/// Any finite set of handles can be listed in ascending order.
pub proof fn law_handles_can_be_listed(handles: Set<SysHandle>)
    requires
        handles.finite(),
    ensures
        lists(ascending(handles), handles),
    decreases handles.len(),
{
    if handles.len() == 0 {
        assert(handles =~= Set::empty());
        assert(Seq::<SysHandle>::empty().to_set() =~= handles);
        assert(lists(Seq::empty(), handles));
    } else {
        let first = handles.choose();
        let last = lemma_greatest(handles, first);
        let rest = handles.remove(last);
        law_handles_can_be_listed(rest);
        let before = ascending(rest);
        let list = before.push(last);
        assert forall|i: int| 0 <= i < before.len() implies before[i] < last by {
            assert(before.to_set().contains(before[i]));
        }
        assert forall|h: SysHandle| handles.contains(h) implies #[trigger] list.to_set().contains(h) by {
            if h == last {
                assert(list[before.len() as int] == h);
            } else {
                assert(before.to_set().contains(h));
                let k = choose|k: int| 0 <= k < before.len() && before[k] == h;
                assert(list[k] == h);
            }
        }
        assert forall|h: SysHandle| #[trigger] list.to_set().contains(h) implies handles.contains(h) by {
            let k = choose|k: int| 0 <= k < list.len() && list[k] == h;
            if k < before.len() {
                assert(before.to_set().contains(before[k]));
            }
        }
        assert(list.to_set() =~= handles);
        assert(lists(list, handles));
    }
}

proof fn lemma_greatest(handles: Set<SysHandle>, from: SysHandle) -> (greatest: SysHandle)
    requires
        handles.contains(from),
    ensures
        handles.contains(greatest),
        forall|h: SysHandle| handles.contains(h) ==> h <= greatest,
    decreases u64::MAX - from,
{
    if exists|h: SysHandle| handles.contains(h) && h > from {
        let h = choose|h: SysHandle| handles.contains(h) && h > from;
        lemma_greatest(handles, h)
    } else {
        from
    }
}

/// Each new listener brings a server that is about to wait one nearer to the
/// number that it should have.
pub proof fn law_new_listener_counts<E>(server: ServerState<E>, handle: SysHandle)
    requires
        server.wf(),
        server.task is Creating,
        !server.listeners.contains_key(handle),
    ensures
        server.after_created(Ok(handle)).0.listeners.len() == server.listeners.len() + 1,
        server.after_created(Ok(handle)).0.listeners.contains_key(handle),
{
    let next = server.with_listener(handle);
    assert(next.listeners.dom() =~= server.listeners.dom().insert(handle));
}

/// How many listeners a server that is starting has still to get.
pub open spec fn still_to_come<E>(server: ServerState<E>) -> int {
    match server.task {
        TaskView::Mapping(GoalView::Start { remaining }) => remaining + 1,
        TaskView::Creating(_, GoalView::Start { remaining }) => remaining + 1,
        _ => 0,
    }
}

/// A new server has all its listeners still to get.
pub proof fn law_start_asks_for_all<E>(
    url: Seq<char>,
    channel_size: ChannelSize,
    max_connections: u64,
    max_listeners: u64,
)
    ensures
        ({
            let server = ServerState::<E>::empty(
                url,
                channel_size,
                max_connections,
                max_listeners,
            ).pursue(GoalView::Start { remaining: max_listeners }).0;
            server.listeners.len() + still_to_come(server) == max_listeners
        }),
{
}

/// While a server is starting, the listeners that it has and those that it has
/// still to get are as many as it should have; so when it has started, it has as
/// many as it should.
pub proof fn law_started_with_all<E>(
    server: ServerState<E>,
    mapped: u64,
    extension: E,
    handle: SysHandle,
)
    requires
        server.wf(),
        still_to_come(server) > 0,
        server.listeners.len() + still_to_come(server) == server.max_listeners,
        !server.listeners.contains_key(handle),
    ensures
        server.task is Mapping ==> {
            let after = server.after_mapped(Ok(mapped), extension).0;
            after.listeners.len() + still_to_come(after) == after.max_listeners
        },
        server.task is Creating ==> {
            let after = server.after_created(Ok(handle));
            &&& after.0.listeners.len() + still_to_come(after.0) == after.0.max_listeners
            &&& after.1.action == ActionView::Finished(OutcomeView::Started)
                ==> after.0.listeners.len() == after.0.max_listeners
        },
{
    if server.task is Creating {
        law_new_listener_counts(server, handle);
    }
}

/// A server never has more listeners than it should, nor more connections, the
/// listeners among them.
pub proof fn law_limits_hold<E>(server: ServerState<E>)
    requires
        server.wf(),
    ensures
        server.listeners.len() <= server.max_listeners,
        server.listeners.len() + server.active.len() <= server.max_connections,
{
}

/// A server that cannot start gives back all that it has got.
pub proof fn law_failed_start_gives_back_all<E>(server: ServerState<E>, e: ErrorCode)
    requires
        server.wf(),
        still_to_come(server) > 0,
    ensures
        server.task is Mapping ==> forall|extension: E|
            (#[trigger] server.after_mapped(Err(e), extension)).1.cleanup == server.release()
                && server.after_mapped(Err(e), extension).0.release() == Seq::<Cleanup>::empty(),
        server.task is Creating ==> server.after_created(Err(e)).1.cleanup == server.release()
            && server.after_created(Err(e)).0.release() == Seq::<Cleanup>::empty(),
{
    lemma_nothing_to_release::<E>();
    if server.task is Mapping {
        assert forall|extension: E| (#[trigger] server.after_mapped(Err(e), extension)).1.cleanup
            == server.release() && server.after_mapped(Err(e), extension).0.release() == Seq::<
            Cleanup,
        >::empty() by {
            assert(server.after_mapped(Err(e), extension).1.cleanup =~= server.release());
            assert(server.after_mapped(Err(e), extension).0.release() =~= Seq::empty());
        }
    } else {
        assert(server.after_created(Err(e)).1.cleanup =~= server.release());
        assert(server.after_created(Err(e)).0.release() =~= Seq::empty());
    }
}

proof fn lemma_nothing_to_release<E>()
    ensures
        release_all(Map::<SysHandle, ConnectionState<E>>::empty(), ascending(Set::empty()))
            == Seq::<Cleanup>::empty(),
        Map::<SysHandle, ConnectionState<E>>::empty().dom() == Set::<SysHandle>::empty(),
{
    assert(Seq::<SysHandle>::empty().to_set() =~= Set::empty());
    crate::keys::lemma_ascending(Seq::empty(), Set::empty());
    assert(Map::<SysHandle, ConnectionState<E>>::empty().dom() =~= Set::<SysHandle>::empty());
}

/// All that a connection holds of the kernel is among `calls`.
pub open spec fn gives_back<E>(calls: Seq<Cleanup>, connection: ConnectionState<E>) -> bool {
    &&& connection.handle != HANDLE_NONE ==> calls.contains(Cleanup::Put(connection.handle))
    &&& connection.smem_addr != 0 ==> calls.contains(
        Cleanup::Unmap(crate::sys::unmap_at(connection.smem_addr)),
    )
}

/// A connection that a server drops because it has lost its client is given back.
pub proof fn law_lost_client_is_given_back<E>(
    server: ServerState<E>,
    swap_target: SysHandle,
    extra_waiters: Seq<SysHandle>,
    handle: SysHandle,
)
    requires
        server.wf(),
        !server.needs_listener(),
        server.active.contains_key(handle),
        !(server.active[handle].status is Connected),
    ensures
        gives_back(
            server.pursue(GoalView::Wait { swap_target, extra_waiters }).1.cleanup,
            server.active[handle],
        ),
{
    let lost = stale(server.active);
    vstd::set_lib::lemma_len_subset(lost, server.active.dom());
    lemma_ascending_contains(lost, handle);
    let calls = release_all(server.active, ascending(lost));
    let i = lemma_release_all_holds(server.active, ascending(lost), handle);
    lemma_release_within(calls, i, server.active[handle]);
}

/// What a server drops because its handle is bad is given back.
pub proof fn law_bad_handle_is_given_back<E>(
    server: ServerState<E>,
    handles: Seq<SysHandle>,
    handle: SysHandle,
)
    requires
        server.wf(),
        server.task is Waiting,
        handles_apart(server),
        handles.contains(handle),
        handle != HANDLE_NONE,
    ensures
        ({
            let cleanup = server.after_wait(Err(E_BAD_HANDLE), handles).1.cleanup;
            &&& server.active.contains_key(handle) ==> gives_back(cleanup, server.active[handle])
            &&& server.listeners.contains_key(handle) ==> gives_back(
                cleanup,
                server.listeners[handle],
            )
        }),
{
    if server.active.contains_key(handle) || server.listeners.contains_key(handle) {
        lemma_disjoint_while_waiting(server);
        lemma_expelled_is_given_back(server, handles, handle);
    }
}

proof fn lemma_expelled_is_given_back<E>(
    server: ServerState<E>,
    bad: Seq<SysHandle>,
    handle: SysHandle,
)
    requires
        server.wf(),
        server.task is Waiting,
        server.listeners.dom().disjoint(server.active.dom()),
        bad.contains(handle),
        handle != HANDLE_NONE,
        server.active.contains_key(handle) || server.listeners.contains_key(handle),
    ensures
        gives_back(
            expel(server.listeners, server.active, bad).cleanup,
            if server.active.contains_key(handle) {
                server.active[handle]
            } else {
                server.listeners[handle]
            },
        ),
    decreases bad.len(),
{
    let connection = if server.active.contains_key(handle) {
        server.active[handle]
    } else {
        server.listeners[handle]
    };
    let rest = bad.drop_last();
    let before = expel(server.listeners, server.active, rest).cleanup;
    let after = expel(server.listeners, server.active, bad).cleanup;
    if rest.contains(handle) {
        lemma_expelled_is_given_back(server, rest, handle);
        lemma_more_gives_back(before, after, connection);
    } else {
        let i = choose|i: int| 0 <= i < bad.len() && bad[i] == handle;
        assert(bad.last() == handle) by {
            if i < rest.len() {
                assert(rest[i] == handle);
            }
        }
        lemma_not_expelled(server.listeners, server.active, rest, handle);
        law_connection_gives_back_once(connection);
        let at = before.len() as int;
        assert(after.subrange(at, at + connection.release().len()) =~= connection.release());
        lemma_release_within(after, at, connection);
    }
}

/// What is given back stays so when more calls follow.
proof fn lemma_more_gives_back<E>(
    calls: Seq<Cleanup>,
    more: Seq<Cleanup>,
    connection: ConnectionState<E>,
)
    requires
        calls.is_prefix_of(more),
        gives_back(calls, connection),
    ensures
        gives_back(more, connection),
{
    assert forall|call: Cleanup| calls.contains(call) implies more.contains(call) by {
        let i = choose|i: int| 0 <= i < calls.len() && calls[i] == call;
        assert(more[i] == call);
    }
}

/// A listener whose handle the kernel hands out anew is given back when the new one
/// takes its place.
pub proof fn law_replaced_listener_is_given_back<E>(server: ServerState<E>, handle: SysHandle)
    requires
        server.task is Creating,
        server.listeners.contains_key(handle),
    ensures
        gives_back(server.after_created(Ok(handle)).1.cleanup, server.listeners[handle]),
{
    let cleanup = server.after_created(Ok(handle)).1.cleanup;
    let listener = server.listeners[handle];
    assert(cleanup.subrange(0, listener.release().len() as int) =~= listener.release());
    lemma_release_within(cleanup, 0, listener);
}

/// At its end a server closes every handle and takes down every page that it has.
pub proof fn law_end_gives_back_all<E>(server: ServerState<E>, handle: SysHandle)
    requires
        server.wf(),
    ensures
        server.listeners.contains_key(handle) ==> gives_back(
            server.release(),
            server.listeners[handle],
        ),
        server.active.contains_key(handle) ==> gives_back(server.release(), server.active[handle]),
        server.task matches TaskView::Creating(listener, _) ==> gives_back(
            server.release(),
            listener,
        ),
{
    law_handles_can_be_listed(server.listeners.dom());
    law_handles_can_be_listed(server.active.dom());
    let pending = match server.task {
        TaskView::Creating(listener, _) => listener.release(),
        _ => seq![],
    };
    if let TaskView::Creating(listener, _) = server.task {
        assert(server.release().subrange(0, pending.len() as int) =~= listener.release());
        lemma_release_within(server.release(), 0, listener);
    }
    let a = release_all(server.listeners, ascending(server.listeners.dom()));
    let b = release_all(server.active, ascending(server.active.dom()));
    if server.listeners.contains_key(handle) {
        let listener = server.listeners[handle];
        lemma_ascending_contains(server.listeners.dom(), handle);
        let i = lemma_release_all_holds(
            server.listeners,
            ascending(server.listeners.dom()),
            handle,
        );
        assert(server.release().subrange(pending.len() + i, pending.len() + i + listener.release().len())
            =~= listener.release());
        lemma_release_within(server.release(), pending.len() + i, listener);
    }
    if server.active.contains_key(handle) {
        let connection = server.active[handle];
        lemma_ascending_contains(server.active.dom(), handle);
        let i = lemma_release_all_holds(server.active, ascending(server.active.dom()), handle);
        let j = pending.len() + a.len() + i;
        assert(server.release().subrange(j, j + connection.release().len())
            =~= connection.release());
        lemma_release_within(server.release(), j, connection);
    }
}

/// What is given back of all connections has, somewhere, what is given back of
/// each.
proof fn lemma_release_all_holds<E>(
    connections: Map<SysHandle, ConnectionState<E>>,
    handles: Seq<SysHandle>,
    handle: SysHandle,
) -> (at: int)
    requires
        handles.contains(handle),
    ensures
        0 <= at,
        at + connections[handle].release().len() <= release_all(connections, handles).len(),
        release_all(connections, handles).subrange(at, at + connections[handle].release().len())
            == connections[handle].release(),
    decreases handles.len(),
{
    let rest = handles.drop_last();
    let before = release_all(connections, rest);
    let all = release_all(connections, handles);
    if handles.last() == handle {
        let at = before.len() as int;
        assert(all.subrange(at, at + connections[handle].release().len())
            =~= connections[handle].release());
        at
    } else {
        let k = choose|k: int| 0 <= k < handles.len() && handles[k] == handle;
        assert(rest[k] == handle);
        let at = lemma_release_all_holds(connections, rest, handle);
        assert(all.subrange(at, at + connections[handle].release().len()) =~= before.subrange(
            at,
            at + connections[handle].release().len(),
        ));
        at
    }
}

proof fn lemma_release_within<E>(calls: Seq<Cleanup>, at: int, connection: ConnectionState<E>)
    requires
        0 <= at,
        at + connection.release().len() <= calls.len(),
        calls.subrange(at, at + connection.release().len()) == connection.release(),
    ensures
        gives_back(calls, connection),
{
    let mine = connection.release();
    if connection.handle != HANDLE_NONE {
        assert(mine[0] == Cleanup::Put(connection.handle));
        assert(calls[at] == calls.subrange(at, at + mine.len())[0]);
    }
    if connection.smem_addr != 0 {
        let k = mine.len() - 1;
        assert(mine[k] == Cleanup::Unmap(crate::sys::unmap_at(connection.smem_addr)));
        assert(calls[at + k] == calls.subrange(at, at + mine.len())[k]);
    }
}

} // verus!
