use moto_ipc::channel::{ChannelSize, Region};
use moto_ipc::connection::LocalServerConnection;
use moto_ipc::server::{Action, LocalServer, Outcome, Step};
use moto_ipc::sys::{Cleanup, MapCall, UnmapCall, E_BAD_HANDLE, E_INVALID_ARGUMENT};

fn fresh(channel_size: ChannelSize, addr: u64) -> LocalServerConnection<u32> {
    match LocalServerConnection::new(channel_size, Ok(addr), 1) {
        Ok(connection) => connection,
        Err(e) => panic!("{}", e),
    }
}

fn unmap(addr: u64) -> Cleanup {
    Cleanup::Unmap(UnmapCall {
        address_space: 2,
        flags: 0,
        phys_addr: u64::MAX,
        virt_addr: addr,
    })
}

/// A server with one connection, which has the handle 30 and a client.
fn server_with_a_client() -> LocalServer<u32> {
    let (mut server, _) = LocalServer::new("svc", ChannelSize::Small, 1, 1);
    server.mapped(Ok(4096), 1);
    server.created(Ok(30));
    server.wait(0, &[]);
    let step: Step = server.woken(Ok(()), vec![30]);
    assert!(matches!(step.action, Action::Finished(Outcome::Woken(_))));
    server
}

#[test]
fn server_page_is_only_reserved() {
    assert_eq!(
        LocalServerConnection::<u32>::page(ChannelSize::Mid),
        MapCall {
            address_space: 2,
            flags: 0,
            phys_addr: u64::MAX,
            virt_addr: u64::MAX,
            page_size: 2097152,
            num_pages: 1,
        }
    );
    assert_eq!(
        LocalServerConnection::<u32>::page(ChannelSize::Small).page_size,
        4096
    );
}

#[test]
fn server_end_without_a_page_is_an_error() {
    assert_eq!(
        LocalServerConnection::new(ChannelSize::Small, Err(3), 1u32).err(),
        Some(3)
    );
}

#[test]
fn new_server_end_has_no_client() {
    let mut connection = fresh(ChannelSize::Small, 4096);
    assert!(!connection.connected());
    assert_eq!(connection.handle(), 0);
    assert_eq!(connection.channel_size(), 4096);
    assert_eq!(connection.data(), Region { addr: 4096, len: 4096 });
    assert_eq!(connection.data_mut(), Region { addr: 4096, len: 4096 });
    assert_eq!(connection.raw_channel().addr(), 4096);
    assert_eq!(connection.finish_rpc(), Err(E_INVALID_ARGUMENT));
    assert_eq!(connection.disconnect(), None);
}

#[test]
fn mid_size_server_end() {
    let connection = fresh(ChannelSize::Mid, 4096);
    assert_eq!(connection.channel_size(), 2097152);
    assert_eq!(connection.raw_channel().size(), 2097152);
}

#[test]
fn extension_can_be_read_changed_and_replaced() {
    let mut connection = fresh(ChannelSize::Small, 4096);
    assert_eq!(*connection.extension(), 1);
    *connection.extension_mut() += 10;
    assert_eq!(*connection.extension(), 11);
    connection.set_extension(99);
    assert_eq!(*connection.extension(), 99);
}

#[test]
fn answer_wakes_the_client() {
    let mut server = server_with_a_client();
    let connection = server.get_connection(30).unwrap();
    assert!(connection.connected());
    assert_eq!(connection.handle(), 30);
    assert_eq!(connection.finish_rpc(), Ok(30));
    assert_eq!(connection.finish_rpc_done(Ok(())), (Ok(()), None));
    assert!(connection.connected());
}

#[test]
fn answer_to_a_lost_client_ends_the_channel() {
    let mut server = server_with_a_client();
    let connection = server.get_connection(30).unwrap();
    assert_eq!(
        connection.finish_rpc_done(Err(E_BAD_HANDLE)),
        (Err(E_BAD_HANDLE), Some(30))
    );
    assert!(!connection.connected());
    assert_eq!(connection.handle(), 0);
    assert_eq!(connection.finish_rpc(), Err(E_INVALID_ARGUMENT));
    assert_eq!(connection.disconnect(), None);
}

#[test]
fn server_end_can_be_disconnected() {
    let mut server = server_with_a_client();
    let connection = server.get_connection(30).unwrap();
    assert_eq!(connection.disconnect(), Some(30));
    assert!(!connection.connected());
    assert_eq!(connection.handle(), 0);
    assert_eq!(connection.disconnect(), None);
}

#[test]
fn server_end_gives_back_its_page() {
    let mut calls = vec![Cleanup::Put(7)];
    fresh(ChannelSize::Small, 4096).release(&mut calls);
    assert_eq!(calls, vec![Cleanup::Put(7), unmap(4096)]);
    let mut calls = Vec::new();
    fresh(ChannelSize::Small, 0).release(&mut calls);
    assert_eq!(calls, vec![]);
}

#[test]
fn disconnected_server_end_gives_back_the_same() {
    let together = server_with_a_client().release();
    assert_eq!(together, vec![Cleanup::Put(30), unmap(4096)]);

    let mut server = server_with_a_client();
    let put = server.get_connection(30).unwrap().disconnect().unwrap();
    let mut apart = vec![Cleanup::Put(put)];
    apart.extend(server.release());
    assert_eq!(apart, together);
}

#[test]
fn server_end_reads_requests_and_writes_responses() {
    let mut connection = fresh(ChannelSize::Small, 4096);
    let mut page: Vec<u8> = vec![5; 4096];
    assert_eq!(connection.req::<[u8; 3]>(&page), &[5, 5, 5]);
    connection.resp::<[u8; 2]>(&mut page)[1] = 6;
    assert_eq!(&page[..4], &[5, 6, 5, 5]);
}

#[test]
fn extension_of_any_type_is_read_back_by_its_type() {
    let first: Box<dyn std::any::Any> = Box::new(());
    let mut connection = match LocalServerConnection::new(ChannelSize::Small, Ok(4096), first) {
        Ok(connection) => connection,
        Err(e) => panic!("{}", e),
    };
    assert!(connection.extension().downcast_ref::<()>().is_some());
    connection.set_extension(Box::new(7u64));
    assert_eq!(connection.disconnect(), None);
    assert_eq!(connection.extension().downcast_ref::<u64>(), Some(&7));
    assert!(connection.extension().downcast_ref::<()>().is_none());
    assert!(connection.extension().downcast_ref::<u32>().is_none());
    *connection.extension_mut().downcast_mut::<u64>().unwrap() = 8;
    assert_eq!(connection.extension().downcast_ref::<u64>(), Some(&8));
}
