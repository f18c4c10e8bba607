use moto_ipc::channel::{ChannelSize, Region};
use moto_ipc::client::ClientConnection;
use moto_ipc::connection::LocalServerConnection;
use moto_ipc::sys::{Cleanup, MapCall, UnmapCall, E_BAD_HANDLE, E_INVALID_ARGUMENT};

/// Some error of the kernel that has no meaning of its own here.
const E_OTHER: u16 = 5;

fn fresh(channel_size: ChannelSize, addr: u64) -> ClientConnection {
    match ClientConnection::new(channel_size, Ok(addr)) {
        Ok(client) => client,
        Err(e) => panic!("{}", e),
    }
}

fn connected(handle: u64) -> ClientConnection {
    let mut client = fresh(ChannelSize::Small, 8192);
    assert_eq!(client.connect_done(Ok(handle)), Ok(()));
    client
}

fn unmap(addr: u64) -> Cleanup {
    Cleanup::Unmap(UnmapCall {
        address_space: 2,
        flags: 0,
        phys_addr: u64::MAX,
        virt_addr: addr,
    })
}

#[test]
fn client_page_is_readable_and_writable() {
    assert_eq!(
        ClientConnection::page(ChannelSize::Small),
        MapCall {
            address_space: 2,
            flags: 3,
            phys_addr: u64::MAX,
            virt_addr: u64::MAX,
            page_size: 4096,
            num_pages: 1,
        }
    );
    assert_eq!(ClientConnection::page(ChannelSize::Mid).page_size, 2097152);
}

#[test]
fn client_without_a_page_is_an_error() {
    assert_eq!(
        ClientConnection::new(ChannelSize::Small, Err(E_OTHER)).err(),
        Some(E_OTHER)
    );
}

#[test]
fn new_client_is_not_connected() {
    let mut client = fresh(ChannelSize::Mid, 0x4000_0000);
    assert!(!client.connected());
    assert!(client.can_connect());
    assert_eq!(client.data(), Region { addr: 0x4000_0000, len: 2097152 });
    assert_eq!(client.data_mut(), Region { addr: 0x4000_0000, len: 2097152 });
    assert_eq!(client.raw_channel().addr(), 0x4000_0000);
    assert_eq!(client.raw_channel().size(), 2097152);
    assert_eq!(client.do_rpc(None).err(), Some(E_INVALID_ARGUMENT));
    assert_eq!(client.disconnect(), None);
}

#[test]
fn connect_asks_for_the_service() {
    let client = fresh(ChannelSize::Small, 8192);
    let call = client.connect("motor:svc");
    assert_eq!(call.parent, 2);
    assert_eq!(call.flags, 0);
    assert_eq!(
        call.url,
        "shared:url=motor&col;svc;address=8192;page_type=small;page_num=1"
    );
}

#[test]
fn refused_client_can_try_again() {
    let mut client = fresh(ChannelSize::Small, 8192);
    assert_eq!(client.connect_done(Err(E_OTHER)), Err(E_OTHER));
    assert!(!client.connected());
    assert!(client.can_connect());
    assert_eq!(client.connect_done(Ok(40)), Ok(()));
    assert!(client.connected());
    assert!(!client.can_connect());
}

#[test]
fn call_swaps_to_the_server_and_waits_for_it() {
    let client = connected(40);
    let call = client.do_rpc(Some(123)).unwrap();
    assert_eq!(call.handles, vec![40]);
    assert_eq!(call.swap_target, 40);
    assert_eq!(call.wake_target, 0);
    assert_eq!(call.timeout, Some(123));
    assert_eq!(client.do_rpc(None).unwrap().timeout, None);
}

#[test]
fn call_that_succeeds_or_times_out_keeps_the_channel() {
    let mut client = connected(40);
    assert_eq!(client.do_rpc_done(Ok(()), 40), Ok(()));
    assert!(client.connected());
    assert_eq!(client.do_rpc_done(Err(E_OTHER), 0), Err(E_OTHER));
    assert!(client.connected());
}

#[test]
fn lost_server_ends_the_channel() {
    let mut client = connected(40);
    assert_eq!(client.do_rpc_done(Err(E_BAD_HANDLE), 40), Err(E_BAD_HANDLE));
    assert!(!client.connected());
    assert!(!client.can_connect());
    assert_eq!(client.do_rpc(None).err(), Some(E_INVALID_ARGUMENT));
    assert_eq!(client.disconnect(), Some(40));
    assert!(client.can_connect());
    assert_eq!(client.connect_done(Ok(41)), Ok(()));
    assert!(client.connected());
}

#[test]
fn disconnect_undoes_connect() {
    let mut client = connected(40);
    assert_eq!(client.disconnect(), Some(40));
    assert!(!client.connected());
    assert!(client.can_connect());
    assert_eq!(client.disconnect(), None);
    assert_eq!(client.release(), vec![unmap(8192)]);
}

#[test]
fn client_gives_back_handle_and_page() {
    assert_eq!(connected(40).release(), vec![Cleanup::Put(40), unmap(8192)]);
    let mut lost = connected(40);
    assert_eq!(lost.do_rpc_done(Err(E_BAD_HANDLE), 40), Err(E_BAD_HANDLE));
    assert_eq!(lost.release(), vec![Cleanup::Put(40), unmap(8192)]);
    assert_eq!(fresh(ChannelSize::Mid, 4096).release(), vec![unmap(4096)]);
    assert_eq!(fresh(ChannelSize::Small, 0).release(), vec![]);
}

#[test]
fn request_and_response_go_through_the_page() {
    let mut client = fresh(ChannelSize::Small, 8192);
    let mut server = match LocalServerConnection::new(ChannelSize::Small, Ok(16384), ()) {
        Ok(server) => server,
        Err(e) => panic!("{}", e),
    };
    let mut page = vec![0xee; 4096];
    client.req::<u32>(&mut page).copy_from_slice(&[1, 2, 3, 4]);
    assert_eq!(server.req::<u32>(&page), &[1, 2, 3, 4]);
    server.resp::<u16>(&mut page).copy_from_slice(&[8, 9]);
    assert_eq!(client.resp::<u16>(&page), &[8, 9]);
    assert_eq!(&page[..5], &[8, 9, 3, 4, 0xee]);
}
