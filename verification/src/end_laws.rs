//! What holds of the URL, of the page and of the two ends of a channel: what each
//! call says, what each operation changes and what it leaves alone.

use crate::channel::{spliced, ChannelSize, RawChannel, Region};
use crate::client::{ClientConnection, ClientConnectionStatus, ClientState};
use crate::connection::{ConnectionState, LocalServerConnection, LocalServerConnectionStatus};
use crate::sys::{
    map_one_page, release, Cleanup, ErrorCode, MapCall, OpenCall, SysHandle, UnmapCall, WaitCall,
    E_BAD_HANDLE, HANDLE_NONE, MAP_READ_WRITE, MAP_RESERVED,
};
use crate::url::{decimal, make_shared_url, shared_url, url_encoded};
use vstd::prelude::*;

verus! {

/// The number that a text of decimal digits stands for.
pub open spec fn number(digits: Seq<char>) -> int
    decreases digits.len(),
{
    if digits.len() == 0 {
        0
    } else {
        10 * number(digits.drop_last()) + (digits.last() as int - '0' as int)
    }
}

/// A number is read back from its decimal form, which has no zero in front.
pub proof fn law_decimal_is_read_back(n: nat)
    ensures
        number(decimal(n)) == n,
        decimal(n).len() > 0,
        decimal(n)[0] == '0' ==> n == 0 && decimal(n).len() == 1,
    decreases n,
{
    if n < 10 {
        reveal_with_fuel(number, 2);
    } else {
        law_decimal_is_read_back(n / 10);
        assert(decimal(n).drop_last() =~= decimal(n / 10));
    }
}

/// One character is written inside another URL as `&amp;`, `&col;` or `&eq;`, if it
/// is one of the three that mean something there, and as itself otherwise.
pub proof fn law_character_is_encoded(c: char)
    ensures
        c == '&' ==> url_encoded(seq![c]) == "&amp;"@,
        c == ':' ==> url_encoded(seq![c]) == "&col;"@,
        c == '=' ==> url_encoded(seq![c]) == "&eq;"@,
        c != '&' && c != ':' && c != '=' ==> url_encoded(seq![c]) == seq![c],
{
    reveal_with_fuel(url_encoded, 2);
    reveal_strlit("&amp;");
    reveal_strlit("&col;");
    reveal_strlit("&eq;");
    assert(seq![c].drop_first() =~= Seq::<char>::empty());
    assert(c == '&' ==> url_encoded(seq![c]) =~= "&amp;"@);
    assert(c == ':' ==> url_encoded(seq![c]) =~= "&col;"@);
    assert(c == '=' ==> url_encoded(seq![c]) =~= "&eq;"@);
    assert(c != '&' && c != ':' && c != '=' ==> url_encoded(seq![c]) =~= seq![c]);
}

/// Two URLs that are joined are written inside another one as each is on its own.
pub proof fn law_encoding_goes_by_parts(a: Seq<char>, b: Seq<char>)
    ensures
        url_encoded(a + b) == url_encoded(a) + url_encoded(b),
    decreases a.len(),
{
    if a.len() == 0 {
        assert(a + b =~= b);
        assert(url_encoded(a + b) =~= url_encoded(a) + url_encoded(b));
    } else {
        assert((a + b).drop_first() =~= a.drop_first() + b);
        law_encoding_goes_by_parts(a.drop_first(), b);
        assert(url_encoded(a + b) =~= url_encoded(a) + url_encoded(b));
    }
}

/// The parts of `text` between the places where it has the character `at`.
pub open spec fn split(text: Seq<char>, at: char) -> Seq<Seq<char>>
    decreases text.len(),
{
    if text.len() == 0 {
        seq![seq![]]
    } else {
        let rest = split(text.drop_first(), at);
        if text.first() == at {
            seq![seq![]] + rest
        } else {
            seq![seq![text.first()] + rest.first()] + rest.drop_first()
        }
    }
}

/// What stands before the first place to split is the first part.
proof fn lemma_split(part: Seq<char>, at: char, rest: Seq<char>)
    requires
        !part.contains(at),
    ensures
        split(part, at) == seq![part],
        split(part + seq![at] + rest, at) == seq![part] + split(rest, at),
    decreases part.len(),
{
    let text = part + seq![at] + rest;
    if part.len() == 0 {
        assert(part =~= seq![]);
        assert(text.drop_first() =~= rest);
        assert(text.first() == at);
        assert(split(part, at) =~= seq![part]);
        assert(split(text, at) =~= seq![part] + split(rest, at));
    } else {
        let more = part.drop_first();
        assert(part[0] != at);
        assert(!more.contains(at)) by {
            if more.contains(at) {
                let i = choose|i: int| 0 <= i < more.len() && more[i] == at;
                assert(part[i + 1] == at);
            }
        }
        lemma_split(more, at, rest);
        assert(text.drop_first() =~= more + seq![at] + rest);
        assert(text.first() == part.first());
        assert(seq![part.first()] + more =~= part);
        assert((seq![more] + split(rest, at)).first() == more);
        assert((seq![more] + split(rest, at)).drop_first() =~= split(rest, at));
        assert(seq![more].drop_first() =~= Seq::<Seq<char>>::empty());
        assert(split(part, at) =~= seq![part]);
        assert(split(text, at) =~= seq![part] + split(rest, at));
    }
}

/// Whoever splits at each `=` the URL that opens one end of a channel finds the
/// service, as it is written inside another URL, the address of the page in decimal,
/// the kind of page and the number of pages, each before the name of the next.
pub proof fn law_shared_url_can_be_split(url: Seq<char>, smem_addr: u64, channel_size: ChannelSize)
    ensures
        split(shared_url(url, smem_addr, channel_size), '=') == seq![
            "shared:url"@,
            url_encoded(url) + ";address"@,
            decimal(smem_addr as nat) + ";page_type"@,
            (match channel_size {
                ChannelSize::Small => "small;page_num"@,
                ChannelSize::Mid => "mid;page_num"@,
            }),
            "1"@,
        ],
{
    reveal_strlit("shared:url=");
    reveal_strlit("shared:url");
    reveal_strlit(";address=");
    reveal_strlit(";address");
    reveal_strlit(";page_type=");
    reveal_strlit(";page_type");
    reveal_strlit(";page_num=1");
    reveal_strlit("small;page_num");
    reveal_strlit("mid;page_num");
    reveal_strlit("small");
    reveal_strlit("mid");
    reveal_strlit("1");
    let p0 = "shared:url"@;
    let p1 = url_encoded(url) + ";address"@;
    let p2 = decimal(smem_addr as nat) + ";page_type"@;
    let p3 = match channel_size {
        ChannelSize::Small => "small;page_num"@,
        ChannelSize::Mid => "mid;page_num"@,
    };
    let p4 = "1"@;
    let eq = seq!['='];
    let r3 = p3 + eq + p4;
    let r2 = p2 + eq + r3;
    let r1 = p1 + eq + r2;
    assert(shared_url(url, smem_addr, channel_size) =~= p0 + eq + r1);
    assert forall|i: int| 0 <= i < p1.len() implies p1[i] != '=' by {
        if i < url_encoded(url).len() {
            crate::laws::law_encoded_url_is_plain(url, i);
        }
    }
    crate::laws::law_decimal_is_unambiguous(smem_addr as nat, 0);
    assert forall|i: int| 0 <= i < p2.len() implies p2[i] != '=' by {
        if i < decimal(smem_addr as nat).len() {
            assert('0' <= decimal(smem_addr as nat)[i] <= '9');
        }
    }
    lemma_split(p0, '=', r1);
    lemma_split(p1, '=', r2);
    lemma_split(p2, '=', r3);
    lemma_split(p3, '=', p4);
    lemma_split(p4, '=', p4);
    assert(split(shared_url(url, smem_addr, channel_size), '=') =~= seq![p0, p1, p2, p3, p4]);
}

/// A client asks for one page of its own process, wherever it fits, readable and
/// writable; a server end for one with nothing behind it. Either is 4 KiB or 2 MiB.
pub proof fn law_pages_are_asked_for(channel_size: ChannelSize)
    ensures
        ({
            let bytes: u64 = if channel_size is Small {
                4096
            } else {
                2097152
            };
            let one = MapCall {
                address_space: 2,
                flags: 0,
                phys_addr: u64::MAX,
                virt_addr: u64::MAX,
                page_size: bytes,
                num_pages: 1,
            };
            &&& map_one_page(MAP_RESERVED, channel_size.page_size()) == one
            &&& map_one_page(MAP_READ_WRITE, channel_size.page_size()) == (MapCall {
                flags: 3,
                ..one
            })
        }),
{
}

/// An endpoint gives back its handle and then its page, each once, if it has them,
/// and nothing else.
pub proof fn law_endpoint_is_given_back(handle: SysHandle, smem_addr: u64)
    ensures
        ({
            let calls = release(handle, smem_addr);
            let unmap = Cleanup::Unmap(
                UnmapCall {
                    address_space: 2,
                    flags: 0,
                    phys_addr: u64::MAX,
                    virt_addr: smem_addr,
                },
            );
            &&& handle != 0 && smem_addr != 0 ==> calls.len() == 2 && calls[0] == Cleanup::Put(
                handle,
            ) && calls[1] == unmap
            &&& handle != 0 && smem_addr == 0 ==> calls.len() == 1 && calls[0] == Cleanup::Put(
                handle,
            )
            &&& handle == 0 && smem_addr != 0 ==> calls.len() == 1 && calls[0] == unmap
            &&& handle == 0 && smem_addr == 0 ==> calls.len() == 0
        }),
{
}

/// `addr` is an address in the page, or the one right behind it.
pub open spec fn within(page: Region, addr: int) -> bool {
    page.addr <= addr <= page.addr + page.len
}

/// Bytes lie inside a page if and only if the address of each, and the one behind the
/// last, is within it. Whether they do can always be told when no address overflows,
/// and when they start below the page. The first byte of a page is at offset nought,
/// and offsets go as addresses do.
pub proof fn law_page_holds_its_bytes(page: Region, start: int, len: int, more: int)
    requires
        0 <= len,
    ensures
        page.covers(start, len) <==> forall|addr: int|
            start <= addr <= start + len ==> #[trigger] within(page, addr),
        page.addr + page.len <= usize::MAX && start + len <= usize::MAX ==> page.comparable(
            start,
            len,
        ),
        start < page.addr ==> page.comparable(start, len),
        page.offset(page.addr as int) == 0,
        page.offset(start + more) == page.offset(start) + more,
{
    assert(within(page, start) && within(page, start + len) ==> page.covers(start, len));
}

/// What is written over a part of a page is there afterwards, byte by byte, and every
/// other byte is as before.
pub proof fn law_each_byte_written(mem: Seq<u8>, from: int, bytes: Seq<u8>, i: int)
    requires
        0 <= from,
        from + bytes.len() <= mem.len(),
        0 <= i < mem.len(),
    ensures
        ({
            let written = spliced(mem, from, from + bytes.len(), bytes);
            &&& written.len() == mem.len()
            &&& from <= i < from + bytes.len() ==> written[i] == bytes[i - from]
            &&& !(from <= i < from + bytes.len()) ==> written[i] == mem[i]
        }),
{
}

/// A new client has the page that it was given, and no channel.
pub proof fn law_new_client(smem_addr: u64, channel_size: ChannelSize)
    ensures
        ({
            let client = ClientState::fresh(smem_addr, channel_size);
            &&& client.status is Idle
            &&& client.handle == 0
            &&& client.smem_addr == smem_addr
            &&& client.channel_size == channel_size
            &&& client.idle()
        }),
{
}

/// A client can be connected if and only if it has neither a channel nor a handle.
pub proof fn law_client_can_be_connected(client: ClientState)
    ensures
        client.idle() <==> client.status is Idle && client.handle == 0,
{
}

/// A client's page is where it was mapped, and as long as its channel is.
pub proof fn law_client_page(client: ClientState)
    requires
        client.smem_addr <= usize::MAX,
    ensures
        client.region().addr == client.smem_addr,
        client.channel_size is Small ==> client.region().len == 4096,
        client.channel_size is Mid ==> client.region().len == 2097152,
{
}

/// A client that is connected has the handle that the kernel gave it; one that is
/// refused is as it was. Its page stays.
pub proof fn law_connected_client(client: ClientState, reply: Result<SysHandle, ErrorCode>)
    ensures
        ({
            let after = client.after_connect(reply);
            &&& reply matches Ok(handle) ==> after.status is Connected && after.handle == handle
            &&& reply is Err ==> after == client
            &&& after.smem_addr == client.smem_addr
            &&& after.channel_size == client.channel_size
        }),
{
}

/// A call that ends otherwise than with a bad handle leaves the client as it was, so
/// that the next call goes through the same channel. After a bad handle the client is
/// no longer connected, and is otherwise as it was.
pub proof fn law_call_keeps_the_channel(client: ClientState, reply: Result<(), ErrorCode>)
    ensures
        reply != Err::<(), ErrorCode>(E_BAD_HANDLE) ==> client.after_rpc(reply) == client,
        reply == Err::<(), ErrorCode>(E_BAD_HANDLE) ==> client.after_rpc(reply) == (ClientState {
            status: ClientConnectionStatus::Error,
            ..client
        }),
{
}

/// Any number of calls that end well goes through one and the same channel.
pub proof fn law_calls_keep_the_channel(client: ClientState, replies: Seq<Result<(), ErrorCode>>)
    requires
        forall|i: int| 0 <= i < replies.len() ==> #[trigger] replies[i] is Ok,
    ensures
        replies.fold_left(
            client,
            |c: ClientState, reply: Result<(), ErrorCode>| c.after_rpc(reply),
        ) == client,
    decreases replies.len(),
{
    if replies.len() > 0 {
        assert(replies[replies.len() - 1] is Ok);
        law_calls_keep_the_channel(client, replies.drop_last());
    }
}

/// A client that is disconnected has no handle, and can be connected anew if it had
/// one; without one it is as it was. Its page stays.
pub proof fn law_disconnected_client(client: ClientState)
    ensures
        ({
            let after = client.after_disconnect();
            &&& after.handle == 0
            &&& client.handle != 0 ==> after.status is Idle && after.idle()
            &&& client.handle == 0 ==> after == client
            &&& after.smem_addr == client.smem_addr
            &&& after.channel_size == client.channel_size
        }),
{
}

/// A new server end has the page and the extension that it was given, and can start
/// to listen.
pub proof fn law_new_server_end<E>(smem_addr: u64, channel_size: ChannelSize, extension: E)
    ensures
        ({
            let connection = ConnectionState::fresh(smem_addr, channel_size, extension);
            &&& connection.status is Idle
            &&& connection.handle == 0
            &&& connection.smem_addr == smem_addr
            &&& connection.channel_size == channel_size
            &&& connection.extension == extension
            &&& connection.idle()
        }),
{
}

/// A server end can start to listen if and only if it has neither a channel nor a
/// handle.
pub proof fn law_server_end_can_listen<E>(connection: ConnectionState<E>)
    ensures
        connection.idle() <==> connection.status is Idle && connection.handle == 0,
{
}

/// The page of a server end is where it was reserved, and as long as its channel is.
pub proof fn law_server_end_page<E>(connection: ConnectionState<E>)
    requires
        connection.smem_addr <= usize::MAX,
    ensures
        connection.region().addr == connection.smem_addr,
        connection.channel_size is Small ==> connection.region().len == 4096,
        connection.channel_size is Mid ==> connection.region().len == 2097152,
{
}

/// Nothing that happens to a server end moves its page or changes its size.
pub proof fn law_server_end_keeps_its_page<E>(
    connection: ConnectionState<E>,
    handle: SysHandle,
    reply: Result<(), ErrorCode>,
)
    ensures
        connection.listening(handle).smem_addr == connection.smem_addr,
        connection.listening(handle).channel_size == connection.channel_size,
        connection.accepted().smem_addr == connection.smem_addr,
        connection.accepted().channel_size == connection.channel_size,
        connection.after_disconnect().smem_addr == connection.smem_addr,
        connection.after_disconnect().channel_size == connection.channel_size,
        connection.after_finish_rpc(reply).smem_addr == connection.smem_addr,
        connection.after_finish_rpc(reply).channel_size == connection.channel_size,
        connection.listening(handle).region() == connection.region(),
        connection.accepted().region() == connection.region(),
        connection.after_disconnect().region() == connection.region(),
        connection.after_finish_rpc(reply).region() == connection.region(),
{
}

/// A server end listens through the handle that the kernel gave it, and keeps that
/// handle when a client connects.
pub proof fn law_listener_keeps_its_handle<E>(connection: ConnectionState<E>, handle: SysHandle)
    ensures
        connection.listening(handle).status is Listening,
        connection.listening(handle).handle == handle,
        connection.listening(handle).accepted().status is Connected,
        connection.listening(handle).accepted().handle == handle,
        connection.accepted() == (ConnectionState {
            status: LocalServerConnectionStatus::Connected,
            ..connection
        }),
{
}

/// A server end that is disconnected closes the handle that it had, whether or not a
/// client has come, and has none then; one without a channel is as it was.
pub proof fn law_disconnected_server_end<E>(connection: ConnectionState<E>)
    ensures
        connection.after_disconnect().status is Idle,
        connection.status is Idle ==> connection.after_disconnect() == connection
            && connection.open_handle() is None,
        !(connection.status is Idle) ==> connection.after_disconnect().handle == 0
            && connection.open_handle() == Some(connection.handle),
{
}

/// An answer that wakes the client leaves the server end as it was, ready for the next
/// request. One that does not ends the channel as a disconnect does.
pub proof fn law_answer_keeps_the_channel<E>(connection: ConnectionState<E>, e: ErrorCode)
    ensures
        connection.after_finish_rpc(Ok(())) == connection,
        connection.after_finish_rpc(Err(e)).status is Idle,
        !(connection.status is Idle) ==> connection.after_finish_rpc(Err(e)).handle == 0,
        connection.after_finish_rpc(Err(e)).extension == connection.extension,
{
}

/// Any number of answers that wake the client leaves the server end as it was.
pub proof fn law_answers_keep_the_channel<E>(
    connection: ConnectionState<E>,
    replies: Seq<Result<(), ErrorCode>>,
)
    requires
        forall|i: int| 0 <= i < replies.len() ==> #[trigger] replies[i] is Ok,
    ensures
        replies.fold_left(
            connection,
            |c: ConnectionState<E>, reply: Result<(), ErrorCode>| c.after_finish_rpc(reply),
        ) == connection,
    decreases replies.len(),
{
    if replies.len() > 0 {
        assert(replies[replies.len() - 1] is Ok);
        law_answers_keep_the_channel(connection, replies.drop_last());
    }
}

/// The URL that is made for a service has the service, the address and the kind of page
/// in it, and nothing else that varies.
pub proof fn law_made_url_can_be_split(
    url: &str,
    smem_addr: u64,
    channel_size: ChannelSize,
    full_url: String,
)
    requires
        call_ensures(make_shared_url, (url, smem_addr, channel_size), full_url),
    ensures
        split(full_url@, '=') == seq![
            "shared:url"@,
            url_encoded(url@) + ";address"@,
            decimal(smem_addr as nat) + ";page_type"@,
            (match channel_size {
                ChannelSize::Small => "small;page_num"@,
                ChannelSize::Mid => "mid;page_num"@,
            }),
            "1"@,
        ],
{
    law_shared_url_can_be_split(url@, smem_addr, channel_size);
}

/// The page that a client maps is as large as its channel, and can be read and written;
/// the one that a server end reserves is as large as its channel, and nothing more.
pub proof fn law_page_calls<E>(channel_size: ChannelSize, client: MapCall, server: MapCall)
    requires
        call_ensures(ClientConnection::page, (channel_size,), client),
        call_ensures(LocalServerConnection::<E>::page, (channel_size,), server),
    ensures
        client.flags == 3,
        server.flags == 0,
        client.page_size == server.page_size,
        server.page_size == (if channel_size is Small {
            4096u64
        } else {
            2097152u64
        }),
        client.address_space == 2 && server.address_space == 2,
        client.num_pages == 1 && server.num_pages == 1,
        client.phys_addr == u64::MAX && client.virt_addr == u64::MAX,
        server.phys_addr == u64::MAX && server.virt_addr == u64::MAX,
{
}

/// A client connects to the service that its caller names, over its own page.
pub proof fn law_connect_call(client: &ClientConnection, url: &str, call: OpenCall)
    requires
        call_ensures(ClientConnection::connect, (client, url), call),
    ensures
        call.parent == 2,
        call.flags == 0,
        split(call.url@, '=')[1] == url_encoded(url@) + ";address"@,
        split(call.url@, '=')[2] == decimal(client@.smem_addr as nat) + ";page_type"@,
        split(call.url@, '=')[3] == (match client@.channel_size {
            ChannelSize::Small => "small;page_num"@,
            ChannelSize::Mid => "mid;page_num"@,
        }),
{
    law_shared_url_can_be_split(url@, client@.smem_addr, client@.channel_size);
}

/// A connected client calls the server at the other end of its channel, for as long as
/// its caller says; another client cannot call.
pub proof fn law_rpc_call(
    client: &ClientConnection,
    timeout: Option<u64>,
    call: Result<WaitCall, ErrorCode>,
)
    requires
        call_ensures(ClientConnection::do_rpc, (client, timeout), call),
    ensures
        call is Ok <==> client@.status is Connected,
        call matches Ok(wait) ==> wait.handles@.len() == 1 && wait.handles@[0] == client@.handle
            && wait.swap_target == client@.handle && wait.wake_target == 0 && wait.timeout
            == timeout,
        call matches Err(e) ==> e == 7,
{
}

/// A client that is connected and has made any number of calls that ended well makes
/// the next one through the handle that the kernel gave it.
pub proof fn law_next_rpc_call(
    before: ClientState,
    handle: SysHandle,
    replies: Seq<Result<(), ErrorCode>>,
    client: &ClientConnection,
    timeout: Option<u64>,
    call: Result<WaitCall, ErrorCode>,
)
    requires
        forall|i: int| 0 <= i < replies.len() ==> #[trigger] replies[i] is Ok,
        client@ == replies.fold_left(
            before.after_connect(Ok(handle)),
            |c: ClientState, reply: Result<(), ErrorCode>| c.after_rpc(reply),
        ),
        call_ensures(ClientConnection::do_rpc, (client, timeout), call),
    ensures
        call matches Ok(wait) && wait.handles@ == seq![handle] && wait.swap_target == handle,
{
    law_calls_keep_the_channel(before.after_connect(Ok(handle)), replies);
}

/// A server end with a client wakes it through its own handle; one without cannot.
pub proof fn law_wake_call<E>(
    connection: &LocalServerConnection<E>,
    wake: Result<SysHandle, ErrorCode>,
)
    requires
        call_ensures(LocalServerConnection::<E>::finish_rpc, (connection,), wake),
    ensures
        connection@.status is Connected ==> wake == Ok::<SysHandle, ErrorCode>(connection@.handle),
        !(connection@.status is Connected) ==> wake == Err::<SysHandle, ErrorCode>(7),
{
}

/// Both ends tell where their page is and how long it is, and give raw access to
/// exactly that page.
pub proof fn law_pages_told<E>(
    client: &ClientConnection,
    client_page: Region,
    client_raw: RawChannel,
    server: &LocalServerConnection<E>,
    server_page: Region,
    server_raw: RawChannel,
    server_size: usize,
)
    requires
        client@.smem_addr <= usize::MAX,
        server@.smem_addr <= usize::MAX,
        call_ensures(ClientConnection::data, (client,), client_page),
        call_ensures(ClientConnection::raw_channel, (client,), client_raw),
        call_ensures(LocalServerConnection::<E>::data, (server,), server_page),
        call_ensures(LocalServerConnection::<E>::raw_channel, (server,), server_raw),
        call_ensures(LocalServerConnection::<E>::channel_size, (server,), server_size),
    ensures
        client_page.addr == client@.smem_addr,
        client_page.len == (if client@.channel_size is Small {
            4096usize
        } else {
            2097152usize
        }),
        client_raw@ == client_page,
        server_page.addr == server@.smem_addr,
        server_page.len == (if server@.channel_size is Small {
            4096usize
        } else {
            2097152usize
        }),
        server_raw@ == server_page,
        server_size == server_page.len,
{
}

/// What a server end holds of the kernel is its handle and its page. To close it gives
/// back the same, in the same order, if it has a channel and a handle; and its page
/// alone, if it has lost both.
pub proof fn law_server_end_is_given_back<E>(connection: ConnectionState<E>)
    ensures
        connection.release() == release(connection.handle, connection.smem_addr),
        !(connection.status is Idle) && connection.handle != 0 ==> connection.close()
            == connection.release(),
        connection.status is Idle ==> connection.close() == connection.release(),
{
    if !(connection.status is Idle) && connection.handle != HANDLE_NONE {
        crate::laws::law_connection_gives_back_once(connection);
    }
    if connection.status is Idle {
        assert(connection.close() =~= connection.release());
    }
}

} // verus!
