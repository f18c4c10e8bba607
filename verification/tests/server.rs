use moto_ipc::channel::ChannelSize;
use moto_ipc::server::{Action, LocalServer, Outcome, Step};
use moto_ipc::sys::{Cleanup, MapCall, UnmapCall, E_BAD_HANDLE};

const E_OTHER: u16 = 5;

fn unmap(addr: u64) -> Cleanup {
    Cleanup::Unmap(UnmapCall {
        address_space: 2,
        flags: 0,
        phys_addr: u64::MAX,
        virt_addr: addr,
    })
}

fn asks_for_page(step: &Step) -> bool {
    match &step.action {
        Action::MapPage(call) => {
            *call
                == MapCall {
                    address_space: 2,
                    flags: 0,
                    phys_addr: u64::MAX,
                    virt_addr: u64::MAX,
                    page_size: 4096,
                    num_pages: 1,
                }
        }
        _ => false,
    }
}

fn created_url(step: &Step) -> &str {
    match &step.action {
        Action::Create(call) => {
            assert_eq!(call.parent, 2);
            assert_eq!(call.flags, 0);
            &call.url
        }
        other => panic!("{:?}", other),
    }
}

fn waited_for(step: &Step) -> Vec<u64> {
    match &step.action {
        Action::Wait(call) => {
            assert_eq!(call.wake_target, 0);
            assert_eq!(call.timeout, None);
            call.handles.clone()
        }
        other => panic!("{:?}", other),
    }
}

fn woken_by(step: &Step) -> Vec<u64> {
    match &step.action {
        Action::Finished(Outcome::Woken(handles)) => handles.clone(),
        other => panic!("{:?}", other),
    }
}

fn bad_extras(step: &Step) -> Vec<u64> {
    match &step.action {
        Action::Finished(Outcome::BadHandles(handles)) => handles.clone(),
        other => panic!("{:?}", other),
    }
}

/// Gives a server that asks for pages one listener for each of `handles`. The page
/// of a listener is at its handle times 4096.
fn add_listeners(server: &mut LocalServer<u32>, first: Step, handles: &[u64]) -> Step {
    let mut step = first;
    for handle in handles {
        assert!(asks_for_page(&step));
        step = server.mapped(Ok(handle * 4096), 0);
        assert!(matches!(step.action, Action::Create(_)));
        assert!(step.cleanup.is_empty());
        step = server.created(Ok(*handle));
    }
    step
}

/// A server that has started, with these listeners.
fn started(max_connections: u64, listeners: &[u64]) -> LocalServer<u32> {
    let (mut server, step) = LocalServer::new(
        "svc",
        ChannelSize::Small,
        max_connections,
        listeners.len() as u64,
    );
    let step = add_listeners(&mut server, step, listeners);
    assert!(step.cleanup.is_empty());
    assert!(matches!(step.action, Action::Finished(Outcome::Started)));
    server
}

#[test]
fn server_without_listeners_starts_at_once() {
    let (server, step) = LocalServer::<u32>::new("svc", ChannelSize::Small, 0, 0);
    assert!(step.cleanup.is_empty());
    assert!(matches!(step.action, Action::Finished(Outcome::Started)));
    assert_eq!(server.release(), vec![]);
}

#[test]
fn server_starts_with_all_its_listeners() {
    let (mut server, step) = LocalServer::<u32>::new("svc:1", ChannelSize::Small, 5, 2);
    assert!(asks_for_page(&step));
    let step = server.mapped(Ok(8192), 0);
    assert_eq!(
        created_url(&step),
        "shared:url=svc&col;1;address=8192;page_type=small;page_num=1"
    );
    let step = server.created(Ok(12));
    assert!(asks_for_page(&step));
    let step = server.mapped(Ok(12288), 0);
    assert_eq!(
        created_url(&step),
        "shared:url=svc&col;1;address=12288;page_type=small;page_num=1"
    );
    let step = server.created(Ok(11));
    assert!(matches!(step.action, Action::Finished(Outcome::Started)));
    let step = server.wait(0, &[]);
    assert_eq!(waited_for(&step), vec![11, 12]);
}

#[test]
fn mid_size_server_asks_for_mid_size_pages() {
    let (mut server, step) = LocalServer::<u32>::new("svc", ChannelSize::Mid, 1, 1);
    match step.action {
        Action::MapPage(call) => assert_eq!(call.page_size, 2097152),
        other => panic!("{:?}", other),
    }
    let step = server.mapped(Ok(2097152), 0);
    assert_eq!(
        created_url(&step),
        "shared:url=svc;address=2097152;page_type=mid;page_num=1"
    );
}

#[test]
fn server_that_gets_no_page_does_not_start() {
    let (mut server, _) = LocalServer::<u32>::new("svc", ChannelSize::Small, 3, 3);
    server.mapped(Ok(4096), 0);
    server.created(Ok(20));
    server.mapped(Ok(8192), 0);
    server.created(Ok(10));
    let step = server.mapped(Err(E_OTHER), 0);
    assert!(matches!(
        step.action,
        Action::Finished(Outcome::StartFailed(E_OTHER))
    ));
    assert_eq!(
        step.cleanup,
        vec![Cleanup::Put(10), unmap(8192), Cleanup::Put(20), unmap(4096)]
    );
    assert_eq!(server.release(), vec![]);
}

#[test]
fn server_that_may_not_listen_does_not_start() {
    let (mut server, _) = LocalServer::<u32>::new("svc", ChannelSize::Small, 2, 2);
    server.mapped(Ok(4096), 0);
    server.created(Ok(20));
    server.mapped(Ok(8192), 0);
    let step = server.created(Err(E_OTHER));
    assert!(matches!(
        step.action,
        Action::Finished(Outcome::StartFailed(E_OTHER))
    ));
    assert_eq!(
        step.cleanup,
        vec![unmap(8192), Cleanup::Put(20), unmap(4096)]
    );
    assert_eq!(server.release(), vec![]);
}

#[test]
fn listener_with_a_known_handle_replaces_the_other() {
    let (mut server, _) = LocalServer::<u32>::new("svc", ChannelSize::Small, 2, 2);
    server.mapped(Ok(4096), 0);
    server.created(Ok(20));
    server.mapped(Ok(8192), 0);
    let step = server.created(Ok(20));
    assert_eq!(step.cleanup, vec![Cleanup::Put(20), unmap(4096)]);
    assert!(matches!(step.action, Action::Finished(Outcome::Started)));
    assert_eq!(server.release(), vec![Cleanup::Put(20), unmap(8192)]);
}

#[test]
fn server_waits_for_listeners_then_connections_then_extras() {
    let mut server = started(4, &[30, 10]);
    let step = server.wait(77, &[5, 99]);
    match &step.action {
        Action::Wait(call) => assert_eq!(call.swap_target, 77),
        other => panic!("{:?}", other),
    }
    assert_eq!(waited_for(&step), vec![10, 30, 5, 99]);
    let step = server.woken(Ok(()), vec![10, 0, 0, 0]);
    assert_eq!(woken_by(&step), vec![10]);

    let step = server.wait(0, &[5]);
    let step = add_listeners(&mut server, step, &[20]);
    assert_eq!(waited_for(&step), vec![20, 30, 10, 5]);
}

#[test]
fn woken_listener_is_a_connection() {
    let mut server = started(2, &[10, 20]);
    assert!(server.get_connection(10).is_none());
    server.wait(0, &[]);
    assert_eq!(woken_by(&server.woken(Ok(()), vec![20, 0])), vec![20]);
    assert!(server.get_connection(10).is_none());
    let connection = server.get_connection(20).unwrap();
    assert!(connection.connected());
    assert_eq!(connection.handle(), 20);
    assert_eq!(connection.data().addr, 20 * 4096);
}

#[test]
fn wakers_end_at_the_first_that_is_none() {
    let mut server = started(2, &[10, 20]);
    server.wait(0, &[7]);
    let step = server.woken(Ok(()), vec![7, 10, 0, 20]);
    assert!(step.cleanup.is_empty());
    assert_eq!(woken_by(&step), vec![7, 10]);
    assert!(server.get_connection(10).is_some());
    assert!(server.get_connection(20).is_none());
    assert!(server.get_connection(7).is_none());
}

#[test]
fn wakers_may_be_all_or_none() {
    let mut server = started(2, &[10, 20]);
    server.wait(0, &[]);
    assert_eq!(woken_by(&server.woken(Ok(()), vec![20, 10])), vec![20, 10]);
    server.wait(0, &[]);
    assert_eq!(woken_by(&server.woken(Ok(()), vec![0, 0])), vec![]);
    server.wait(0, &[]);
    assert_eq!(woken_by(&server.woken(Ok(()), vec![])), vec![]);
}

#[test]
fn connection_that_makes_a_call_stays() {
    let mut server = started(1, &[10]);
    server.wait(0, &[]);
    server.woken(Ok(()), vec![10]);
    let step = server.wait(0, &[]);
    assert_eq!(waited_for(&step), vec![10]);
    assert_eq!(woken_by(&server.woken(Ok(()), vec![10])), vec![10]);
    assert!(server.get_connection(10).unwrap().connected());
}

#[test]
fn changes_to_a_connection_last() {
    let mut server = started(1, &[10]);
    server.wait(0, &[]);
    server.woken(Ok(()), vec![10]);
    server.get_connection(10).unwrap().set_extension(42);
    assert_eq!(*server.get_connection(10).unwrap().extension(), 42);
    *server.get_connection(10).unwrap().extension_mut() = 43;
    assert_eq!(*server.get_connection(10).unwrap().extension(), 43);
}

#[test]
fn server_makes_up_its_listeners_before_it_waits() {
    let mut server = started(3, &[10, 20]);
    server.wait(0, &[]);
    server.woken(Ok(()), vec![10, 20]);
    // There is room for one more.
    let step = server.wait(0, &[]);
    let step = add_listeners(&mut server, step, &[30]);
    assert_eq!(waited_for(&step), vec![30, 10, 20]);
    server.woken(Ok(()), vec![30, 0, 0]);
    // There is no room.
    let step = server.wait(0, &[]);
    assert_eq!(waited_for(&step), vec![10, 20, 30]);
}

#[test]
fn connection_without_a_client_is_dropped_before_the_wait() {
    let mut server = started(2, &[10, 20]);
    server.wait(0, &[]);
    server.woken(Ok(()), vec![10, 20]);
    assert_eq!(server.get_connection(20).unwrap().disconnect(), Some(20));
    assert!(server.get_connection(20).is_some());
    // It still counts while the server looks for room.
    let step = server.wait(0, &[]);
    assert_eq!(step.cleanup, vec![unmap(20 * 4096)]);
    assert_eq!(waited_for(&step), vec![10]);
    assert!(server.get_connection(20).is_none());
    server.woken(Ok(()), vec![10]);
    let step = server.wait(0, &[]);
    let step = add_listeners(&mut server, step, &[20]);
    assert_eq!(waited_for(&step), vec![20, 10]);
}

#[test]
fn bad_handles_leave_the_server() {
    let mut server = started(3, &[10, 20]);
    server.wait(0, &[]);
    server.woken(Ok(()), vec![10, 0]);
    let step = server.wait(0, &[7, 8, 9]);
    let step = add_listeners(&mut server, step, &[30]);
    assert_eq!(waited_for(&step), vec![20, 30, 10, 7, 8, 9]);
    let step = server.woken(Err(E_BAD_HANDLE), vec![0, 30, 10, 9, 0, 7]);
    assert_eq!(
        step.cleanup,
        vec![
            Cleanup::Put(30),
            unmap(30 * 4096),
            Cleanup::Put(10),
            unmap(10 * 4096)
        ]
    );
    assert_eq!(bad_extras(&step), vec![9, 7]);
    assert!(server.get_connection(10).is_none());
    assert_eq!(server.release(), vec![Cleanup::Put(20), unmap(20 * 4096)]);
}

#[test]
fn handle_that_is_bad_twice_is_no_longer_the_servers() {
    let mut server = started(1, &[10]);
    server.wait(0, &[]);
    let step = server.woken(Err(E_BAD_HANDLE), vec![10, 10]);
    assert_eq!(step.cleanup, vec![Cleanup::Put(10), unmap(10 * 4096)]);
    assert_eq!(bad_extras(&step), vec![10]);
}

#[test]
fn bad_extras_leave_the_server_as_it_was() {
    let mut server = started(1, &[10]);
    server.wait(0, &[7]);
    let step = server.woken(Err(E_BAD_HANDLE), vec![7, 0]);
    assert!(step.cleanup.is_empty());
    assert_eq!(bad_extras(&step), vec![7]);
    assert_eq!(waited_for(&server.wait(0, &[])), vec![10]);
}

#[test]
fn server_lists_its_listeners_again_after_bad_handles() {
    let mut server = started(2, &[10, 20]);
    server.wait(0, &[]);
    server.woken(Err(E_BAD_HANDLE), vec![10, 20]);
    let step = server.wait(0, &[]);
    let step = add_listeners(&mut server, step, &[11, 12]);
    assert_eq!(waited_for(&step), vec![11, 12]);
}

#[test]
fn other_failure_of_a_wait_is_reported() {
    let mut server = started(1, &[10]);
    server.wait(0, &[]);
    let step = server.woken(Err(E_OTHER), vec![10]);
    assert!(step.cleanup.is_empty());
    assert!(matches!(
        step.action,
        Action::Finished(Outcome::WaitFailed(E_OTHER))
    ));
    assert_eq!(server.release(), vec![Cleanup::Put(10), unmap(10 * 4096)]);
}

#[test]
fn server_that_gets_no_page_does_not_wait() {
    let mut server = started(2, &[10]);
    server.wait(0, &[]);
    server.woken(Ok(()), vec![10]);
    assert!(asks_for_page(&server.wait(0, &[])));
    let step = server.mapped(Err(E_OTHER), 0);
    assert!(step.cleanup.is_empty());
    assert!(matches!(
        step.action,
        Action::Finished(Outcome::ListenerFailed(E_OTHER))
    ));
    assert!(server.get_connection(10).is_some());
}

#[test]
fn server_that_may_not_listen_does_not_wait() {
    let mut server = started(2, &[10]);
    server.wait(0, &[]);
    server.woken(Ok(()), vec![10]);
    server.wait(0, &[]);
    server.mapped(Ok(4096), 0);
    let step = server.created(Err(E_OTHER));
    assert_eq!(step.cleanup, vec![unmap(4096)]);
    assert!(matches!(
        step.action,
        Action::Finished(Outcome::ListenerFailed(E_OTHER))
    ));
}

#[test]
fn handle_of_a_listener_and_a_connection_is_reported() {
    let mut server = started(2, &[10]);
    server.wait(0, &[]);
    server.woken(Ok(()), vec![10]);
    let step = server.wait(0, &[7]);
    let step = add_listeners(&mut server, step, &[10]);
    assert_eq!(waited_for(&step), vec![10, 10, 7]);
    let step = server.woken(Ok(()), vec![7, 10, 0]);
    assert!(step.cleanup.is_empty());
    assert!(matches!(
        step.action,
        Action::Finished(Outcome::HandleInUse(10))
    ));
}

#[test]
fn server_gives_back_listeners_then_connections() {
    let mut server = started(4, &[30, 10]);
    server.wait(0, &[]);
    server.woken(Ok(()), vec![10, 0]);
    let step = server.wait(0, &[]);
    add_listeners(&mut server, step, &[20]);
    server.woken(Ok(()), vec![20, 0, 0]);
    assert_eq!(
        server.release(),
        vec![
            Cleanup::Put(30),
            unmap(30 * 4096),
            Cleanup::Put(10),
            unmap(10 * 4096),
            Cleanup::Put(20),
            unmap(20 * 4096)
        ]
    );
}

#[test]
fn server_gives_back_a_listener_to_be() {
    let mut server = started(2, &[10]);
    server.wait(0, &[]);
    server.woken(Ok(()), vec![10]);
    server.wait(0, &[]);
    server.mapped(Ok(4096), 0);
    assert_eq!(
        server.release(),
        vec![unmap(4096), Cleanup::Put(10), unmap(10 * 4096)]
    );
}

#[test]
fn bad_extra_is_handed_on_each_time_among_empty_places() {
    let mut server = started(1, &[10]);
    server.wait(0, &[7, 8, 7]);
    let step = server.woken(Err(E_BAD_HANDLE), vec![0, 7, 0, 7]);
    assert!(step.cleanup.is_empty());
    assert_eq!(bad_extras(&step), vec![7, 7]);
    assert_eq!(server.release(), vec![Cleanup::Put(10), unmap(10 * 4096)]);
}

#[test]
fn handle_of_a_lost_connection_may_come_again() {
    let mut server = started(3, &[10]);
    server.wait(0, &[]);
    server.woken(Ok(()), vec![10]);
    assert_eq!(server.get_connection(10).unwrap().disconnect(), Some(10));
    assert!(asks_for_page(&server.wait(0, &[])));
    server.mapped(Ok(8192), 5);
    let step = server.created(Ok(10));
    assert_eq!(step.cleanup, vec![unmap(10 * 4096)]);
    assert_eq!(waited_for(&step), vec![10]);
    assert!(server.get_connection(10).is_none());
    assert_eq!(woken_by(&server.woken(Ok(()), vec![10])), vec![10]);
    let connection = server.get_connection(10).unwrap();
    assert!(connection.connected());
    assert_eq!(connection.data().addr, 8192);
    assert_eq!(*connection.extension(), 5);
}

#[test]
fn extension_lasts_from_the_listener_to_the_lost_client() {
    let (mut server, _) = LocalServer::new("svc", ChannelSize::Small, 2, 2);
    server.mapped(Ok(4096), 21u32);
    server.created(Ok(10));
    server.mapped(Ok(8192), 22);
    server.created(Ok(20));
    server.wait(0, &[]);
    server.woken(Ok(()), vec![10, 0]);
    assert_eq!(*server.get_connection(10).unwrap().extension(), 21);
    server.get_connection(10).unwrap().set_extension(31);
    server.wait(0, &[]);
    server.woken(Ok(()), vec![20, 10]);
    assert_eq!(*server.get_connection(10).unwrap().extension(), 31);
    assert_eq!(*server.get_connection(20).unwrap().extension(), 22);
    let connection = server.get_connection(10).unwrap();
    connection.finish_rpc_done(Ok(())).0.unwrap();
    assert_eq!(*connection.extension(), 31);
    assert!(connection.finish_rpc_done(Err(E_BAD_HANDLE)).0.is_err());
    assert_eq!(*connection.extension(), 31);
    server.wait(0, &[]);
    server.woken(Err(E_BAD_HANDLE), vec![0, 0]);
    assert_eq!(*server.get_connection(20).unwrap().extension(), 22);
}
