//! What holds of a server at each step: what it asks for, what becomes of each of its
//! listeners and connections, and what it gives back.

use crate::channel::ChannelSize;
use crate::connection::{ConnectionState, LocalServerConnectionStatus};
use crate::keys::{ascending, lists};
use crate::laws::is_connected;
use crate::model::{
    expel, promote, release_all, stale, usable, ActionView, GoalView, OutcomeView, ServerState,
    StepView, TaskView,
};
use crate::server::{Action, Outcome, Step};
use crate::sys::{
    Cleanup, ErrorCode, MapCall, OpenCallView, SysHandle, WaitCallView, E_BAD_HANDLE, HANDLE_NONE,
};
use vstd::prelude::*;

verus! {

/// Both servers have the same URL, channel size and limits.
pub open spec fn same_settings<E>(a: ServerState<E>, b: ServerState<E>) -> bool {
    &&& a.url == b.url
    &&& a.channel_size == b.channel_size
    &&& a.max_connections == b.max_connections
    &&& a.max_listeners == b.max_listeners
}

/// Both servers have the same listeners and connections.
pub open spec fn same_connections<E>(a: ServerState<E>, b: ServerState<E>) -> bool {
    &&& a.listeners == b.listeners
    &&& a.active == b.active
}

/// No step of a server changes its URL, its channel size or its limits.
pub proof fn law_settings_stay<E>(
    server: ServerState<E>,
    goal: GoalView,
    mapped: Result<u64, ErrorCode>,
    extension: E,
    created: Result<SysHandle, ErrorCode>,
    waited: Result<(), ErrorCode>,
    handles: Seq<SysHandle>,
)
    ensures
        same_settings(server, server.pursue(goal).0),
        server.task is Mapping ==> same_settings(server, server.after_mapped(mapped, extension).0),
        server.task is Creating ==> same_settings(server, server.after_created(created).0),
        server.task is Waiting ==> same_settings(server, server.after_wait(waited, handles).0),
{
}

/// A new server has the settings that it was given, and neither listeners nor
/// connections. It asks for its first page, or has started if it needs no listener.
pub proof fn law_new_server<E>(
    url: Seq<char>,
    channel_size: ChannelSize,
    max_connections: u64,
    max_listeners: u64,
    handle: SysHandle,
)
    ensures
        ({
            let next = ServerState::<E>::empty(
                url,
                channel_size,
                max_connections,
                max_listeners,
            ).pursue(GoalView::Start { remaining: max_listeners });
            &&& next.0.url == url
            &&& next.0.channel_size == channel_size
            &&& next.0.max_connections == max_connections
            &&& next.0.max_listeners == max_listeners
            &&& !next.0.listeners.contains_key(handle)
            &&& !next.0.active.contains_key(handle)
            &&& next.1.cleanup.len() == 0
            &&& max_listeners == 0 ==> next.1.action == ActionView::Finished(OutcomeView::Started)
                && next.0.task is Idle
            &&& max_listeners > 0 ==> asks_for_page(next.1.action, channel_size)
                && next.0.task == TaskView::<E>::Mapping(
                GoalView::Start { remaining: (max_listeners - 1) as u64 },
            )
        }),
{
}

/// The action reserves one page for a channel of this size, and no memory behind it.
pub open spec fn asks_for_page(action: ActionView, channel_size: ChannelSize) -> bool {
    action == ActionView::MapPage(
        MapCall {
            address_space: 2,
            flags: 0,
            phys_addr: u64::MAX,
            virt_addr: u64::MAX,
            page_size: if channel_size is Small {
                4096
            } else {
                2097152
            },
            num_pages: 1,
        },
    )
}

/// The action waits on behalf of a caller who has named `swap_target` and
/// `extra_waiters`: the processor goes to the former, the latter end the list, nobody
/// else is woken, and there is no limit in time.
pub open spec fn waits_for_caller(
    action: ActionView,
    swap_target: SysHandle,
    extra_waiters: Seq<SysHandle>,
) -> bool {
    action matches ActionView::Wait(call) && {
        let own = call.handles.len() - extra_waiters.len();
        &&& call.swap_target == swap_target
        &&& call.wake_target == 0
        &&& call.timeout is None
        &&& 0 <= own
        &&& call.handles.skip(own) == extra_waiters
    }
}

/// A wait is what its caller has asked for, however many listeners are made up in
/// between: the server keeps the caller's swap target and extra handles while it asks
/// for pages and creates listeners, and at last waits with them.
pub proof fn law_wait_is_the_callers<E>(
    server: ServerState<E>,
    swap_target: SysHandle,
    extra_waiters: Seq<SysHandle>,
    smem_addr: u64,
    extension: E,
    handle: SysHandle,
)
    ensures
        ({
            let goal = GoalView::Wait { swap_target, extra_waiters };
            let first = server.pursue(goal);
            let mapped = server.after_mapped(Ok(smem_addr), extension);
            let created = server.after_created(Ok(handle));
            &&& (waits_for_caller(first.1.action, swap_target, extra_waiters)
                && first.0.task is Waiting) || (asks_for_page(
                first.1.action,
                server.channel_size,
            ) && first.0.task == TaskView::<E>::Mapping(goal) && same_connections(server, first.0)
                && first.1.cleanup.len() == 0)
            &&& server.task == TaskView::<E>::Mapping(goal) ==> mapped.1.action is Create
                && mapped.0.task is Creating && mapped.0.task->Creating_1 == goal
            &&& server.task is Creating && server.task->Creating_1 == goal ==> (waits_for_caller(
                created.1.action,
                swap_target,
                extra_waiters,
            ) && created.0.task is Waiting) || (asks_for_page(
                created.1.action,
                server.channel_size,
            ) && created.0.task == TaskView::<E>::Mapping(goal))
        }),
{
    lemma_ends_with(server, swap_target, extra_waiters);
    lemma_ends_with(server.with_listener(handle), swap_target, extra_waiters);
}

proof fn lemma_ends_with<E>(
    server: ServerState<E>,
    swap_target: SysHandle,
    extra_waiters: Seq<SysHandle>,
)
    ensures
        waits_for_caller(
            server.start_waiting(swap_target, extra_waiters).1.action,
            swap_target,
            extra_waiters,
        ),
{
    let call = server.start_waiting(swap_target, extra_waiters).1.action->Wait_0;
    assert(call.handles.skip(call.handles.len() - extra_waiters.len()) =~= extra_waiters);
}

/// A server that was to wait goes on to make up listeners as long as it has fewer than
/// it should and room for one more, and waits as soon as that is no longer so.
pub proof fn law_listeners_are_made_up<E>(server: ServerState<E>, handle: SysHandle)
    requires
        server.wf(),
        server.task is Creating,
        server.task->Creating_1 is Wait,
    ensures
        ({
            let listeners = server.listeners.len() + (if server.listeners.contains_key(handle) {
                0int
            } else {
                1int
            });
            let room = listeners < server.max_listeners as usize && listeners
                + server.active.len() < server.max_connections as usize;
            let action = server.after_created(Ok(handle)).1.action;
            &&& room ==> asks_for_page(action, server.channel_size)
            &&& !room ==> action is Wait
        }),
{
    let next = server.with_listener(handle);
    assert(next.listeners.dom() =~= server.listeners.dom().insert(handle));
}

/// A start goes on until all listeners are there: each page asked for is one fewer to
/// come, and with none to come the server has started.
pub proof fn law_start_counts_down<E>(
    server: ServerState<E>,
    remaining: u64,
    smem_addr: u64,
    extension: E,
    handle: SysHandle,
)
    ensures
        ({
            let goal = GoalView::Start { remaining };
            let mapped = server.after_mapped(Ok(smem_addr), extension);
            let created = server.after_created(Ok(handle));
            &&& server.task == TaskView::<E>::Mapping(goal) ==> mapped.1.action is Create
                && mapped.0.task is Creating && mapped.0.task->Creating_1 == goal
            &&& server.task is Creating && server.task->Creating_1 == goal && remaining > 0
                ==> asks_for_page(created.1.action, server.channel_size) && created.0.task
                == TaskView::<E>::Mapping(GoalView::Start { remaining: (remaining - 1) as u64 })
            &&& server.task is Creating && server.task->Creating_1 == goal && remaining == 0
                ==> created.1.action == ActionView::Finished(OutcomeView::Started)
                && created.0.task is Idle
        }),
{
}

/// Whatever a server adds a listener for, the listener is to listen at the server's
/// URL, over the page that was reserved for it, which is of the server's channel size.
pub proof fn law_listener_listens_at_the_url<E>(
    server: ServerState<E>,
    smem_addr: u64,
    extension: E,
)
    requires
        server.task is Mapping,
    ensures
        ({
            let next = server.after_mapped(Ok(smem_addr), extension);
            &&& next.1.action == ActionView::Create(
                OpenCallView {
                    parent: 2,
                    flags: 0,
                    url: crate::url::shared_url(server.url, smem_addr, server.channel_size),
                },
            )
            &&& next.1.cleanup.len() == 0
            &&& same_connections(server, next.0)
            &&& next.0.task matches TaskView::Creating(listener, goal) && {
                &&& goal == server.task->Mapping_0
                &&& listener.status is Idle
                &&& listener.handle == 0
                &&& listener.smem_addr == smem_addr
                &&& listener.channel_size == server.channel_size
                &&& listener.extension == extension
            }
        }),
{
}

/// A server that gets no page, or may not listen, tells its caller why. If it was to
/// start it has no listener left; if it was to wait it keeps what it had, and gives
/// back only the page of the listener that came to nothing.
pub proof fn law_no_listener<E>(
    server: ServerState<E>,
    e: ErrorCode,
    extension: E,
    handle: SysHandle,
)
    ensures
        server.task matches TaskView::Mapping(goal) ==> {
            let next = server.after_mapped(Err(e), extension);
            &&& next.0.task is Idle
            &&& goal is Start ==> next.1.action == ActionView::Finished(OutcomeView::StartFailed(e))
                && !next.0.listeners.contains_key(handle) && !next.0.active.contains_key(handle)
            &&& goal is Wait ==> next.1.action == ActionView::Finished(
                OutcomeView::ListenerFailed(e),
            ) && same_connections(server, next.0) && next.1.cleanup.len() == 0
        },
        server.task matches TaskView::Creating(listener, goal) ==> {
            let next = server.after_created(Err(e));
            &&& next.0.task is Idle
            &&& goal is Start ==> next.1.action == ActionView::Finished(OutcomeView::StartFailed(e))
                && !next.0.listeners.contains_key(handle) && !next.0.active.contains_key(handle)
            &&& goal is Wait ==> next.1.action == ActionView::Finished(
                OutcomeView::ListenerFailed(e),
            ) && same_connections(server, next.0) && next.1.cleanup == listener.release()
        },
{
}

/// A new listener is kept under the handle that the kernel gave it, with the page, the
/// size and the extension that it was made with. All other listeners stay as they are.
/// A connection stays as it is too, unless it has lost its client and the server waits
/// now.
pub proof fn law_new_listener_joins<E>(
    server: ServerState<E>,
    handle: SysHandle,
    other: SysHandle,
)
    requires
        server.task is Creating,
    ensures
        ({
            let pending = server.task->Creating_0;
            let next = server.after_created(Ok(handle));
            let listener = next.0.listeners[handle];
            let leaves = next.1.action is Wait && server.active.contains_key(other)
                && !is_connected(server, other);
            &&& next.0.listeners.contains_key(handle)
            &&& listener.status is Listening
            &&& listener.handle == handle
            &&& listener.smem_addr == pending.smem_addr
            &&& listener.channel_size == pending.channel_size
            &&& listener.extension == pending.extension
            &&& other != handle ==> (next.0.listeners.contains_key(other)
                <==> server.listeners.contains_key(other))
            &&& other != handle && server.listeners.contains_key(other)
                ==> next.0.listeners[other] == server.listeners[other]
            &&& next.0.active.contains_key(other) <==> server.active.contains_key(other) && !leaves
            &&& next.0.active.contains_key(other) ==> next.0.active[other] == server.active[other]
        }),
{
}

/// `list` names each handle that `picked` picks, once, and nothing else, in ascending
/// order.
pub open spec fn names_in_order(list: Seq<SysHandle>, picked: spec_fn(SysHandle) -> bool) -> bool {
    &&& forall|i: int, j: int| 0 <= i < j < list.len() ==> list[i] < list[j]
    &&& forall|h: SysHandle| #[trigger] list.contains(h) <==> picked(h)
}

/// There is such a list of the handles in any finite set.
pub proof fn law_handles_have_an_order(handles: Set<SysHandle>) -> (list: Seq<SysHandle>)
    requires
        handles.finite(),
    ensures
        names_in_order(list, |h: SysHandle| handles.contains(h)),
{
    crate::laws::law_handles_can_be_listed(handles);
    let list = ascending(handles);
    assert forall|h: SysHandle| #[trigger] list.contains(h) <==> handles.contains(h) by {
        assert(list.to_set().contains(h) <==> list.contains(h));
    }
    list
}

proof fn lemma_names_all(list: Seq<SysHandle>, handles: Set<SysHandle>)
    requires
        names_in_order(list, |h: SysHandle| handles.contains(h)),
    ensures
        ascending(handles) == list,
{
    assert forall|h: SysHandle| list.to_set().contains(h) <==> handles.contains(h) by {
        assert(list.to_set().contains(h) <==> list.contains(h));
    }
    assert(list.to_set() =~= handles);
    assert(lists(list, handles));
    crate::keys::lemma_ascending(list, handles);
}

proof fn lemma_names_same(
    list: Seq<SysHandle>,
    picked: spec_fn(SysHandle) -> bool,
    handles: Set<SysHandle>,
)
    requires
        names_in_order(list, picked),
        forall|h: SysHandle| #[trigger] handles.contains(h) <==> picked(h),
    ensures
        ascending(handles) == list,
{
    assert(names_in_order(list, |h: SysHandle| handles.contains(h))) by {
        assert forall|h: SysHandle| #[trigger] list.contains(h) <==> handles.contains(h) by {
            assert(list.contains(h) <==> picked(h));
        }
    }
    lemma_names_all(list, handles);
}

/// What is given back of the connections with these handles: of one after the other.
pub open spec fn given_back<E>(
    connections: Map<SysHandle, ConnectionState<E>>,
    handles: Seq<SysHandle>,
) -> Seq<Cleanup> {
    handles.map_values(|h: SysHandle| connections[h].release()).flatten()
}

proof fn lemma_given_back<E>(
    connections: Map<SysHandle, ConnectionState<E>>,
    handles: Seq<SysHandle>,
)
    ensures
        release_all(connections, handles) == given_back(connections, handles),
    decreases handles.len(),
{
    let each = |h: SysHandle| connections[h].release();
    if handles.len() == 0 {
        assert(handles.map_values(each) =~= Seq::<Seq<Cleanup>>::empty());
        assert(release_all(connections, handles) =~= given_back(connections, handles));
    } else {
        let rest = handles.drop_last();
        lemma_given_back(connections, rest);
        assert(handles.map_values(each) =~= rest.map_values(each).push(
            connections[handles.last()].release(),
        ));
        rest.map_values(each).lemma_flatten_push(connections[handles.last()].release());
    }
}

/// A server that has its listeners waits for these in ascending order, then for the
/// connections that have a client in ascending order, then for the extra handles. It
/// drops the other connections, gives them back in ascending order and nothing else,
/// and keeps all the rest as it was.
pub proof fn law_wait_list<E>(
    server: ServerState<E>,
    swap_target: SysHandle,
    extra_waiters: Seq<SysHandle>,
    listening: Seq<SysHandle>,
    connected: Seq<SysHandle>,
    lost: Seq<SysHandle>,
    handle: SysHandle,
)
    requires
        names_in_order(listening, |h: SysHandle| server.listeners.contains_key(h)),
        names_in_order(connected, |h: SysHandle| is_connected(server, h)),
        names_in_order(
            lost,
            |h: SysHandle| server.active.contains_key(h) && !is_connected(server, h),
        ),
        !(server.listeners.len() < server.max_listeners as usize && server.listeners.len()
            + server.active.len() < server.max_connections as usize),
    ensures
        ({
            let next = server.pursue(GoalView::Wait { swap_target, extra_waiters });
            &&& next.1.action matches ActionView::Wait(call) && call.handles == listening
                + connected + extra_waiters && call.swap_target == swap_target
            &&& next.1.cleanup == given_back(server.active, lost)
            &&& next.0.task is Waiting
            &&& next.0.listeners == server.listeners
            &&& next.0.active.contains_key(handle) <==> is_connected(server, handle)
            &&& next.0.active.contains_key(handle) ==> next.0.active[handle]
                == server.active[handle]
        }),
{
    lemma_wait_list(server, swap_target, extra_waiters, listening, connected, lost);
}

proof fn lemma_wait_list<E>(
    server: ServerState<E>,
    swap_target: SysHandle,
    extra_waiters: Seq<SysHandle>,
    listening: Seq<SysHandle>,
    connected: Seq<SysHandle>,
    lost: Seq<SysHandle>,
)
    requires
        names_in_order(listening, |h: SysHandle| server.listeners.contains_key(h)),
        names_in_order(connected, |h: SysHandle| is_connected(server, h)),
        names_in_order(
            lost,
            |h: SysHandle| server.active.contains_key(h) && !is_connected(server, h),
        ),
    ensures
        server.start_waiting(swap_target, extra_waiters).1.action->Wait_0.handles == listening
            + connected + extra_waiters,
        server.start_waiting(swap_target, extra_waiters).1.cleanup == given_back(
            server.active,
            lost,
        ),
{
    let kept = server.active.remove_keys(stale(server.active));
    lemma_names_same(
        listening,
        |h: SysHandle| server.listeners.contains_key(h),
        server.listeners.dom(),
    );
    lemma_names_same(connected, |h: SysHandle| is_connected(server, h), kept.dom());
    lemma_names_same(
        lost,
        |h: SysHandle| server.active.contains_key(h) && !is_connected(server, h),
        stale(server.active),
    );
    lemma_given_back(server.active, lost);
}

/// When a listener is added, what is given back is the listener that had the same
/// handle, if there was one, and then, if the server waits now, the connections that
/// have lost their client. The list that it waits for has the new listener in it.
pub proof fn law_new_listener_gives_back<E>(
    server: ServerState<E>,
    handle: SysHandle,
    listening: Seq<SysHandle>,
    connected: Seq<SysHandle>,
    lost: Seq<SysHandle>,
)
    requires
        server.task is Creating,
        names_in_order(
            listening,
            |h: SysHandle| h == handle || server.listeners.contains_key(h),
        ),
        names_in_order(connected, |h: SysHandle| is_connected(server, h)),
        names_in_order(
            lost,
            |h: SysHandle| server.active.contains_key(h) && !is_connected(server, h),
        ),
    ensures
        ({
            let step = server.after_created(Ok(handle)).1;
            let replaced = if server.listeners.contains_key(handle) {
                server.listeners[handle].release()
            } else {
                seq![]
            };
            &&& step.action is Wait ==> step.cleanup == replaced + given_back(server.active, lost)
            &&& !(step.action is Wait) ==> step.cleanup == replaced
            &&& step.action matches ActionView::Wait(call) ==> (server.task->Creating_1 matches GoalView::Wait {
                extra_waiters,
                ..
            } && call.handles == listening + connected + extra_waiters)
        }),
{
    let next = server.with_listener(handle);
    let step = server.after_created(Ok(handle)).1;
    assert(names_in_order(listening, |h: SysHandle| next.listeners.contains_key(h))) by {
        let joined = |h: SysHandle| h == handle || server.listeners.contains_key(h);
        assert forall|h: SysHandle| #[trigger] listening.contains(h) <==> next.listeners.contains_key(
            h,
        ) by {
            assert(listening.contains(h) <==> joined(h));
        }
    }
    assert(names_in_order(connected, |h: SysHandle| is_connected(next, h))) by {
        let before = |h: SysHandle| is_connected(server, h);
        assert forall|h: SysHandle| #[trigger] connected.contains(h) <==> is_connected(next, h) by {
            assert(connected.contains(h) <==> before(h));
        }
    }
    assert(names_in_order(
        lost,
        |h: SysHandle| next.active.contains_key(h) && !is_connected(next, h),
    )) by {
        let before = |h: SysHandle| server.active.contains_key(h) && !is_connected(server, h);
        assert forall|h: SysHandle| #[trigger] lost.contains(h) <==> next.active.contains_key(h)
            && !is_connected(next, h) by {
            assert(lost.contains(h) <==> before(h));
        }
    }
    match server.task->Creating_1 {
        GoalView::Wait { swap_target, extra_waiters } => {
            lemma_wait_list(next, swap_target, extra_waiters, listening, connected, lost);
        },
        GoalView::Start { .. } => {},
    }
    assert(!(step.action is Wait) ==> step.cleanup =~= (if server.listeners.contains_key(handle) {
        server.listeners[handle].release()
    } else {
        seq![]
    }));
}

/// After a success, the handles before the first that is none have woken the server. A
/// listener among them has a client then, and is otherwise as it was; everything else
/// is as it was. If one of them is a listener's and a connection's at once, the server
/// stops there and says so.
pub proof fn law_success<E>(
    server: ServerState<E>,
    handles: Seq<SysHandle>,
    n: nat,
    handle: SysHandle,
)
    requires
        n <= handles.len(),
        forall|i: int|
            0 <= i < n ==> #[trigger] handles[i] != 0 && !(server.listeners.contains_key(handles[i])
                && server.active.contains_key(handles[i])),
        n < handles.len() ==> handles[n as int] == 0 || (server.listeners.contains_key(
            handles[n as int],
        ) && server.active.contains_key(handles[n as int])),
    ensures
        ({
            let next = server.after_wait(Ok(()), handles);
            let wakers = handles.take(n as int);
            let comes = server.listeners.contains_key(handle) && wakers.contains(handle);
            &&& next.0.task is Idle
            &&& next.1.cleanup.len() == 0
            &&& n == handles.len() || handles[n as int] == 0 ==> next.1.action
                == ActionView::Finished(OutcomeView::Woken(wakers))
            &&& n < handles.len() && handles[n as int] != 0 ==> next.1.action
                == ActionView::Finished(OutcomeView::HandleInUse(handles[n as int]))
            &&& next.0.listeners.contains_key(handle) <==> server.listeners.contains_key(handle)
                && !wakers.contains(handle)
            &&& next.0.listeners.contains_key(handle) ==> next.0.listeners[handle]
                == server.listeners[handle]
            &&& next.0.active.contains_key(handle) <==> server.active.contains_key(handle) || comes
            &&& server.active.contains_key(handle) ==> next.0.active[handle]
                == server.active[handle]
            &&& comes ==> next.0.active[handle] == (ConnectionState {
                status: LocalServerConnectionStatus::Connected,
                ..server.listeners[handle]
            })
        }),
{
    crate::model::lemma_usable_is(server.listeners, server.active, handles, n);
    let wakers = handles.take(n as int);
    assert(wakers.to_set().contains(handle) <==> wakers.contains(handle));
    if wakers.contains(handle) {
        let i = choose|i: int| 0 <= i < wakers.len() && wakers[i] == handle;
        assert(handles[i] == handle);
    }
}

/// With no bad handle to report, a server is as it was, and gives back nothing.
pub proof fn law_no_bad_handle<E>(server: ServerState<E>)
    ensures
        ({
            let next = server.after_wait(Err(E_BAD_HANDLE), seq![]);
            &&& next.0 == (ServerState { task: TaskView::Idle, ..server })
            &&& next.1 == (StepView {
                cleanup: seq![],
                action: ActionView::Finished(OutcomeView::BadHandles(seq![])),
            })
        }),
{
}

/// One more bad handle makes this difference. An empty place makes none. The handle of
/// a connection, or else of a listener, takes it out of the server and gives it back
/// after all the others. Any other handle goes to the caller after all the others.
pub proof fn law_one_more_bad_handle<E>(
    server: ServerState<E>,
    handles: Seq<SysHandle>,
    handle: SysHandle,
)
    requires
        server.wf(),
        server.task is Waiting,
    ensures
        ({
            let before = server.after_wait(Err(E_BAD_HANDLE), handles);
            let after = server.after_wait(Err(E_BAD_HANDLE), handles.push(handle));
            let strangers = before.1.action->Finished_0->BadHandles_0;
            &&& before.0.task is Idle
            &&& before.1.action == ActionView::Finished(OutcomeView::BadHandles(strangers))
            &&& handle == 0 ==> after == before
            &&& handle != 0 && before.0.active.contains_key(handle) ==> after.0 == (ServerState {
                active: before.0.active.remove(handle),
                ..before.0
            }) && after.1 == (StepView {
                cleanup: before.1.cleanup + server.active[handle].release(),
                ..before.1
            })
            &&& handle != 0 && !before.0.active.contains_key(handle)
                && before.0.listeners.contains_key(handle) ==> after.0 == (ServerState {
                listeners: before.0.listeners.remove(handle),
                ..before.0
            }) && after.1 == (StepView {
                cleanup: before.1.cleanup + server.listeners[handle].release(),
                ..before.1
            })
            &&& handle != 0 && !before.0.active.contains_key(handle)
                && !before.0.listeners.contains_key(handle) ==> after.0 == before.0 && after.1 == (
            StepView {
                action: ActionView::Finished(OutcomeView::BadHandles(strangers.push(handle))),
                ..before.1
            })
        }),
{
    let so_far = expel(server.listeners, server.active, handles);
    assert(handles.push(handle).drop_last() =~= handles);
    crate::model::lemma_expel_shrinks(server.listeners, server.active, handles);
    if handle != HANDLE_NONE {
        if so_far.active.contains_key(handle) {
            assert(server.active.contains_key(handle));
            crate::end_laws::law_server_end_is_given_back(server.active[handle]);
        } else if so_far.listeners.contains_key(handle) {
            assert(server.listeners.contains_key(handle));
            crate::end_laws::law_server_end_is_given_back(server.listeners[handle]);
        }
    }
}

/// A wait that fails otherwise than by a bad handle tells the caller why, and changes
/// and gives back nothing.
pub proof fn law_other_failure<E>(server: ServerState<E>, e: ErrorCode, handles: Seq<SysHandle>)
    requires
        e != 17,
    ensures
        ({
            let next = server.after_wait(Err(e), handles);
            &&& next.0 == (ServerState { task: TaskView::Idle, ..server })
            &&& next.1 == (StepView {
                cleanup: seq![],
                action: ActionView::Finished(OutcomeView::WaitFailed(e)),
            })
        }),
{
}

/// At its end a server gives back the page of a listener to be, then its listeners and
/// then its connections, each in ascending order, and nothing else.
pub proof fn law_end_in_order<E>(
    server: ServerState<E>,
    listening: Seq<SysHandle>,
    active: Seq<SysHandle>,
)
    requires
        names_in_order(listening, |h: SysHandle| server.listeners.contains_key(h)),
        names_in_order(active, |h: SysHandle| server.active.contains_key(h)),
    ensures
        ({
            let rest = given_back(server.listeners, listening) + given_back(server.active, active);
            &&& server.task matches TaskView::Creating(listener, _) ==> server.release()
                == listener.release() + rest
            &&& !(server.task is Creating) ==> server.release() == rest
        }),
{
    lemma_names_same(
        listening,
        |h: SysHandle| server.listeners.contains_key(h),
        server.listeners.dom(),
    );
    lemma_names_same(
        active,
        |h: SysHandle| server.active.contains_key(h),
        server.active.dom(),
    );
    lemma_given_back(server.listeners, listening);
    lemma_given_back(server.active, active);
    let rest = given_back(server.listeners, listening) + given_back(server.active, active);
    assert(!(server.task is Creating) ==> server.release() =~= rest);
}

/// All listeners and connections, and a listener to be, are of the server's channel
/// size.
pub open spec fn sizes_agree<E>(server: ServerState<E>) -> bool {
    &&& forall|h: SysHandle| #[trigger]
        server.listeners.contains_key(h) ==> server.listeners[h].channel_size
            == server.channel_size
    &&& forall|h: SysHandle| #[trigger]
        server.active.contains_key(h) ==> server.active[h].channel_size == server.channel_size
    &&& server.task matches TaskView::Creating(listener, _) ==> listener.channel_size
        == server.channel_size
}

/// A new server has only listeners and connections of its own channel size.
pub proof fn law_sizes_agree_at_first<E>(
    url: Seq<char>,
    channel_size: ChannelSize,
    max_connections: u64,
    max_listeners: u64,
)
    ensures
        sizes_agree(
            ServerState::<E>::empty(url, channel_size, max_connections, max_listeners).pursue(
                GoalView::Start { remaining: max_listeners },
            ).0,
        ),
{
}

/// The listeners and connections of a server stay of its channel size at every step,
/// and when a connection is answered, disconnected or given an extension.
pub proof fn law_sizes_agree<E>(
    server: ServerState<E>,
    goal: GoalView,
    mapped: Result<u64, ErrorCode>,
    extension: E,
    created: Result<SysHandle, ErrorCode>,
    waited: Result<(), ErrorCode>,
    handles: Seq<SysHandle>,
    handle: SysHandle,
)
    requires
        sizes_agree(server),
    ensures
        sizes_agree(server.pursue(goal).0),
        server.task is Mapping ==> sizes_agree(server.after_mapped(mapped, extension).0),
        server.task is Creating ==> sizes_agree(server.after_created(created).0),
        server.task is Waiting ==> sizes_agree(server.after_wait(waited, handles).0),
        server.active.contains_key(handle) ==> {
            let connection = server.active[handle];
            let with = |c: ConnectionState<E>|
                ServerState { active: server.active.insert(handle, c), ..server };
            &&& sizes_agree(with(connection.after_disconnect()))
            &&& sizes_agree(with(connection.after_finish_rpc(waited)))
            &&& sizes_agree(with(ConnectionState { extension, ..connection }))
        },
{
    lemma_pursue_keeps_sizes(server, goal);
    if server.task is Creating {
        if let Ok(h) = created {
            let next = server.with_listener(h);
            assert(sizes_agree(next));
            lemma_pursue_keeps_sizes(next, server.task->Creating_1);
        }
    }
    if server.task is Waiting {
        let after = server.after_wait(waited, handles).0;
        if waited is Ok {
            let n = usable(server.listeners, server.active, handles);
            let woken = handles.take(n as int).to_set();
            let next = promote(server.listeners, server.active, woken);
            assert forall|h: SysHandle| #[trigger]
                next.listeners.contains_key(h) implies next.listeners[h].channel_size
                == server.channel_size by {
                assert(server.listeners.contains_key(h));
            }
            assert forall|h: SysHandle| #[trigger]
                next.active.contains_key(h) implies next.active[h].channel_size
                == server.channel_size by {
                assert(server.listeners.contains_key(h) || server.active.contains_key(h));
            }
        } else {
            crate::model::lemma_expel_shrinks(server.listeners, server.active, handles);
            assert forall|h: SysHandle| #[trigger]
                after.listeners.contains_key(h) implies after.listeners[h].channel_size
                == server.channel_size by {
                assert(server.listeners.contains_key(h));
            }
            assert forall|h: SysHandle| #[trigger]
                after.active.contains_key(h) implies after.active[h].channel_size
                == server.channel_size by {
                assert(server.active.contains_key(h));
            }
        }
    }
}

proof fn lemma_pursue_keeps_sizes<E>(server: ServerState<E>, goal: GoalView)
    requires
        sizes_agree(server),
    ensures
        sizes_agree(server.pursue(goal).0),
{
    let after = server.pursue(goal).0;
    assert forall|h: SysHandle| #[trigger]
        after.active.contains_key(h) implies after.active[h].channel_size == server.channel_size by {
        assert(server.active.contains_key(h));
    }
}

/// In a server that is as it should be, a listener listens under its own handle; a
/// connection has a client and its own handle, or neither; and while the server waits,
/// every connection has a client.
pub proof fn law_everything_in_its_place<E>(server: ServerState<E>, handle: SysHandle)
    requires
        server.wf(),
    ensures
        server.listeners.contains_key(handle) ==> server.listeners[handle].status is Listening
            && server.listeners[handle].handle == handle,
        server.active.contains_key(handle) ==> (server.active[handle].status is Connected
            && server.active[handle].handle == handle) || (server.active[handle].status is Idle
            && server.active[handle].handle == 0),
        server.task is Waiting && server.active.contains_key(handle)
            ==> server.active[handle].status is Connected,
        server.task matches TaskView::Creating(listener, _) ==> listener.status is Idle
            && listener.handle == 0 && listener.channel_size == server.channel_size,
{
}

/// A server expects the reply to the call that it has asked for, and after an outcome
/// the next operation.
pub proof fn law_expects_the_reply<E>(server: ServerState<E>, action: ActionView)
    requires
        server.expects(action),
    ensures
        action is MapPage <==> server.task is Mapping,
        action is Create <==> server.task is Creating,
        action is Wait <==> server.task is Waiting,
        action is Finished <==> server.task is Idle,
{
}

/// A step says what it holds.
pub proof fn law_step_says_what_it_holds(step: Step)
    ensures
        step@.cleanup == step.cleanup@,
        match step.action {
            Action::MapPage(call) => step@.action == ActionView::MapPage(call),
            Action::Create(call) => step@.action == ActionView::Create(
                OpenCallView { parent: call.parent, flags: call.flags, url: call.url@ },
            ),
            Action::Wait(call) => step@.action == ActionView::Wait(
                WaitCallView {
                    handles: call.handles@,
                    swap_target: call.swap_target,
                    wake_target: call.wake_target,
                    timeout: call.timeout,
                },
            ),
            Action::Finished(outcome) => step@.action == ActionView::Finished(
                match outcome {
                    Outcome::Started => OutcomeView::Started,
                    Outcome::StartFailed(e) => OutcomeView::StartFailed(e),
                    Outcome::Woken(handles) => OutcomeView::Woken(handles@),
                    Outcome::BadHandles(handles) => OutcomeView::BadHandles(handles@),
                    Outcome::ListenerFailed(e) => OutcomeView::ListenerFailed(e),
                    Outcome::WaitFailed(e) => OutcomeView::WaitFailed(e),
                    Outcome::HandleInUse(handle) => OutcomeView::HandleInUse(handle),
                },
            ),
        },
{
}

} // verus!
