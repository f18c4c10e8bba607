//! What a server does, as mathematics: its state, and the state and the next
//! step that follow from each thing that can happen to it.

use crate::channel::ChannelSize;
use crate::connection::ConnectionState;
use crate::keys::ascending;
use crate::sys::{
    Cleanup, ErrorCode, MapCall, OpenCallView, SysHandle, WaitCallView, E_BAD_HANDLE, HANDLE_NONE,
    HANDLE_SELF, MAP_RESERVED,
};
use vstd::prelude::*;

verus! {

/// What a server adds listeners for.
#[verifier::ext_equal]
pub enum GoalView {
    /// To start, with so many listeners still to be asked for.
    Start { remaining: u64 },
    /// To wait, for these handles besides its own.
    Wait { swap_target: SysHandle, extra_waiters: Seq<SysHandle> },
}

/// The system call that a server has asked for and has had no reply to.
#[verifier::ext_equal]
pub enum TaskView<E> {
    /// None.
    Idle,
    /// The one that reserves a page for a new listener.
    Mapping(GoalView),
    /// The one that lets the new listener listen.
    Creating(ConnectionState<E>, GoalView),
    /// The one that waits.
    Waiting,
}

/// How an operation of a server ends.
#[verifier::ext_equal]
pub enum OutcomeView {
    Started,
    StartFailed(ErrorCode),
    Woken(Seq<SysHandle>),
    BadHandles(Seq<SysHandle>),
    ListenerFailed(ErrorCode),
    WaitFailed(ErrorCode),
    HandleInUse(SysHandle),
}

/// What a server wants next.
#[verifier::ext_equal]
pub enum ActionView {
    MapPage(MapCall),
    Create(OpenCallView),
    Wait(WaitCallView),
    Finished(OutcomeView),
}

/// What is to be given back, and what a server wants then.
#[verifier::ext_equal]
pub struct StepView {
    pub cleanup: Seq<Cleanup>,
    pub action: ActionView,
}

/// What a server's behaviour depends on.
#[verifier::ext_equal]
pub struct ServerState<E> {
    pub max_connections: u64,
    pub max_listeners: u64,
    pub channel_size: ChannelSize,
    pub url: Seq<char>,
    /// The server ends that wait for a client, by handle.
    pub listeners: Map<SysHandle, ConnectionState<E>>,
    /// The server ends that have, or have had, a client, by the handle that they
    /// had then.
    pub active: Map<SysHandle, ConnectionState<E>>,
    pub task: TaskView<E>,
}

/// What it takes to give back the connections with these handles, one by one.
pub open spec fn release_all<E>(
    connections: Map<SysHandle, ConnectionState<E>>,
    handles: Seq<SysHandle>,
) -> Seq<Cleanup>
    decreases handles.len(),
{
    if handles.len() == 0 {
        seq![]
    } else {
        release_all(connections, handles.drop_last()) + connections[handles.last()].release()
    }
}

/// The handles under which connections are kept that are not connected.
pub open spec fn stale<E>(active: Map<SysHandle, ConnectionState<E>>) -> Set<SysHandle> {
    active.dom().filter(|handle: SysHandle| !(active[handle].status is Connected))
}

/// A server's connections, and what came of the handles that it was told of.
#[verifier::ext_equal]
pub struct Expelled<E> {
    pub listeners: Map<SysHandle, ConnectionState<E>>,
    pub active: Map<SysHandle, ConnectionState<E>>,
    pub cleanup: Seq<Cleanup>,
    /// The handles that are none of the server's.
    pub strangers: Seq<SysHandle>,
}

/// The handles `bad` are bad. One after the other is looked up, among the
/// connections first and then among the listeners; what is found is closed and
/// leaves the server.
pub open spec fn expel<E>(
    listeners: Map<SysHandle, ConnectionState<E>>,
    active: Map<SysHandle, ConnectionState<E>>,
    bad: Seq<SysHandle>,
) -> Expelled<E>
    decreases bad.len(),
{
    if bad.len() == 0 {
        Expelled { listeners, active, cleanup: seq![], strangers: seq![] }
    } else {
        let so_far = expel(listeners, active, bad.drop_last());
        let handle = bad.last();
        if handle == HANDLE_NONE {
            so_far
        } else if so_far.active.contains_key(handle) {
            Expelled {
                active: so_far.active.remove(handle),
                cleanup: so_far.cleanup + so_far.active[handle].close(),
                ..so_far
            }
        } else if so_far.listeners.contains_key(handle) {
            Expelled {
                listeners: so_far.listeners.remove(handle),
                cleanup: so_far.cleanup + so_far.listeners[handle].close(),
                ..so_far
            }
        } else {
            Expelled { strangers: so_far.strangers.push(handle), ..so_far }
        }
    }
}

/// A server's connections.
#[verifier::ext_equal]
pub struct Connections<E> {
    pub listeners: Map<SysHandle, ConnectionState<E>>,
    pub active: Map<SysHandle, ConnectionState<E>>,
}

/// The handles `wakers` have woken the server. A listener among them has got a
/// client, and is a connection from then on.
pub open spec fn promote<E>(
    listeners: Map<SysHandle, ConnectionState<E>>,
    active: Map<SysHandle, ConnectionState<E>>,
    wakers: Set<SysHandle>,
) -> Connections<E> {
    Connections {
        listeners: listeners.remove_keys(wakers),
        active: active.union_prefer_right(
            listeners.restrict(wakers).map_values(
                |listener: ConnectionState<E>| listener.accepted(),
            ),
        ),
    }
}

/// How many of `handles` come before the first that is no handle, or that is a
/// listener's and a connection's at once.
pub open spec fn usable<E>(
    listeners: Map<SysHandle, ConnectionState<E>>,
    active: Map<SysHandle, ConnectionState<E>>,
    handles: Seq<SysHandle>,
) -> nat
    decreases handles.len(),
{
    if handles.len() == 0 {
        0
    } else {
        let first = handles.first();
        if first == HANDLE_NONE || (listeners.contains_key(first) && active.contains_key(first)) {
            0
        } else {
            1 + usable(listeners, active, handles.drop_first())
        }
    }
}

impl<E> ServerState<E> {
    /// A server without connections.
    pub open spec fn empty(
        url: Seq<char>,
        channel_size: ChannelSize,
        max_connections: u64,
        max_listeners: u64,
    ) -> Self {
        ServerState {
            max_connections,
            max_listeners,
            channel_size,
            url,
            listeners: Map::empty(),
            active: Map::empty(),
            task: TaskView::Idle,
        }
    }

    /// The server has too few listeners, and room for one more connection.
    pub open spec fn needs_listener(self) -> bool {
        &&& self.listeners.len() < self.max_listeners as usize
        &&& self.listeners.len() + self.active.len() < self.max_connections as usize
    }

    /// What it takes to give back the server's listeners and connections.
    pub open spec fn release_connections(self) -> Seq<Cleanup> {
        release_all(self.listeners, ascending(self.listeners.dom())) + release_all(
            self.active,
            ascending(self.active.dom()),
        )
    }

    /// What it takes to give back all that the server holds.
    pub open spec fn release(self) -> Seq<Cleanup> {
        (match self.task {
            TaskView::Creating(listener, _) => listener.release(),
            _ => seq![],
        }) + self.release_connections()
    }

    /// The server asks for a page for a new listener.
    pub open spec fn ask_for_page(self, goal: GoalView) -> (Self, ActionView) {
        (
            ServerState { task: TaskView::Mapping(goal), ..self },
            ActionView::MapPage(
                crate::sys::map_one_page(MAP_RESERVED, self.channel_size.page_size()),
            ),
        )
    }

    /// The server drops the connections that have lost their client, and waits
    /// for the listeners, the connections and the extra handles, in this order.
    pub open spec fn start_waiting(self, swap_target: SysHandle, extra_waiters: Seq<SysHandle>) -> (
        Self,
        StepView,
    ) {
        let active = self.active.remove_keys(stale(self.active));
        (
            ServerState { active, task: TaskView::Waiting, ..self },
            StepView {
                cleanup: release_all(self.active, ascending(stale(self.active))),
                action: ActionView::Wait(
                    WaitCallView {
                        handles: ascending(self.listeners.dom()) + ascending(active.dom())
                            + extra_waiters,
                        swap_target,
                        wake_target: HANDLE_NONE,
                        timeout: None,
                    },
                ),
            },
        )
    }

    /// The server has its listeners so far, and goes on with `goal`.
    pub open spec fn pursue(self, goal: GoalView) -> (Self, StepView) {
        match goal {
            GoalView::Start { remaining } => if remaining > 0 {
                let next = self.ask_for_page(GoalView::Start { remaining: (remaining - 1) as u64 });
                (next.0, StepView { cleanup: seq![], action: next.1 })
            } else {
                (
                    ServerState { task: TaskView::Idle, ..self },
                    StepView {
                        cleanup: seq![],
                        action: ActionView::Finished(OutcomeView::Started),
                    },
                )
            },
            GoalView::Wait { swap_target, extra_waiters } => if self.needs_listener() {
                let next = self.ask_for_page(goal);
                (next.0, StepView { cleanup: seq![], action: next.1 })
            } else {
                self.start_waiting(swap_target, extra_waiters)
            },
        }
    }

    /// The server could not get a listener, for the reason `e`, and first gives
    /// back `cleanup`. A server that was to start does not; one that was to wait
    /// cannot.
    pub open spec fn give_up(self, goal: GoalView, e: ErrorCode, cleanup: Seq<Cleanup>) -> (
        Self,
        StepView,
    ) {
        match goal {
            GoalView::Start { .. } => (
                ServerState {
                    listeners: Map::empty(),
                    active: Map::empty(),
                    task: TaskView::Idle,
                    ..self
                },
                StepView {
                    cleanup: cleanup + self.release_connections(),
                    action: ActionView::Finished(OutcomeView::StartFailed(e)),
                },
            ),
            GoalView::Wait { .. } => (
                ServerState { task: TaskView::Idle, ..self },
                StepView {
                    cleanup,
                    action: ActionView::Finished(OutcomeView::ListenerFailed(e)),
                },
            ),
        }
    }

    /// The kernel has answered the request for a page.
    pub open spec fn after_mapped(self, reply: Result<u64, ErrorCode>, extension: E) -> (
        Self,
        StepView,
    ) {
        let goal = self.task->Mapping_0;
        match reply {
            Ok(smem_addr) => (
                ServerState {
                    task: TaskView::Creating(
                        ConnectionState::fresh(smem_addr, self.channel_size, extension),
                        goal,
                    ),
                    ..self
                },
                StepView {
                    cleanup: seq![],
                    action: ActionView::Create(
                        OpenCallView {
                            parent: HANDLE_SELF,
                            flags: 0,
                            url: crate::url::shared_url(self.url, smem_addr, self.channel_size),
                        },
                    ),
                },
            ),
            Err(e) => self.give_up(goal, e, seq![]),
        }
    }

    /// The server with one listener more. A listener that had the same handle is
    /// replaced.
    pub open spec fn with_listener(self, handle: SysHandle) -> Self {
        ServerState {
            listeners: self.listeners.insert(handle, self.task->Creating_0.listening(handle)),
            task: TaskView::Idle,
            ..self
        }
    }

    /// The kernel has answered the request to let the new listener listen.
    pub open spec fn after_created(self, reply: Result<SysHandle, ErrorCode>) -> (Self, StepView) {
        let goal = self.task->Creating_1;
        match reply {
            Ok(handle) => {
                let next = self.with_listener(handle).pursue(goal);
                let replaced = if self.listeners.contains_key(handle) {
                    self.listeners[handle].release()
                } else {
                    seq![]
                };
                (next.0, StepView { cleanup: replaced + next.1.cleanup, ..next.1 })
            },
            Err(e) => self.give_up(goal, e, self.task->Creating_0.release()),
        }
    }

    /// The wait is over. After a success `handles` begins with the handles that
    /// have woken the server; if one was bad, it holds those that were.
    pub open spec fn after_wait(self, reply: Result<(), ErrorCode>, handles: Seq<SysHandle>) -> (
        Self,
        StepView,
    ) {
        match reply {
            Ok(()) => {
                let n = usable(self.listeners, self.active, handles) as int;
                let next = promote(self.listeners, self.active, handles.take(n).to_set());
                (
                    ServerState {
                        listeners: next.listeners,
                        active: next.active,
                        task: TaskView::Idle,
                        ..self
                    },
                    StepView {
                        cleanup: seq![],
                        action: ActionView::Finished(
                            if n < handles.len() && handles[n] != HANDLE_NONE {
                                OutcomeView::HandleInUse(handles[n])
                            } else {
                                OutcomeView::Woken(handles.take(n))
                            },
                        ),
                    },
                )
            },
            Err(e) => if e == E_BAD_HANDLE {
                let next = expel(self.listeners, self.active, handles);
                (
                    ServerState {
                        listeners: next.listeners,
                        active: next.active,
                        task: TaskView::Idle,
                        ..self
                    },
                    StepView {
                        cleanup: next.cleanup,
                        action: ActionView::Finished(OutcomeView::BadHandles(next.strangers)),
                    },
                )
            } else {
                (
                    ServerState { task: TaskView::Idle, ..self },
                    StepView {
                        cleanup: seq![],
                        action: ActionView::Finished(OutcomeView::WaitFailed(e)),
                    },
                )
            },
        }
    }

    /// A listener is kept under its own handle.
    pub open spec fn listener_ok(handle: SysHandle, listener: ConnectionState<E>) -> bool {
        listener.status is Listening && listener.handle == handle
    }

    /// A connection is kept under the handle that it has, or that it had before
    /// it lost its client.
    pub open spec fn connection_ok(handle: SysHandle, connection: ConnectionState<E>) -> bool {
        match connection.status {
            crate::connection::LocalServerConnectionStatus::Listening => false,
            crate::connection::LocalServerConnectionStatus::Connected => connection.handle
                == handle,
            crate::connection::LocalServerConnectionStatus::Idle => connection.handle
                == HANDLE_NONE,
        }
    }

    /// There is room for the listener that is being added for `goal`.
    pub open spec fn has_room(self, goal: GoalView) -> bool {
        match goal {
            GoalView::Start { remaining } => self.active.len() == 0 && self.listeners.len()
                + remaining < self.max_listeners,
            GoalView::Wait { .. } => self.needs_listener(),
        }
    }

    /// The server is in the state that goes with what it wants: it can take the
    /// reply to the call that `action` asks for, or start its next operation.
    pub open spec fn expects(self, action: ActionView) -> bool {
        match action {
            ActionView::MapPage(_) => self.task is Mapping,
            ActionView::Create(_) => self.task is Creating,
            ActionView::Wait(_) => self.task is Waiting,
            ActionView::Finished(_) => self.task is Idle,
        }
    }

    /// What always holds of a server's connections.
    pub open spec fn connections_wf(self) -> bool {
        &&& self.max_listeners <= self.max_connections
        &&& self.listeners.dom().finite()
        &&& self.active.dom().finite()
        &&& self.listeners.len() <= self.max_listeners
        &&& self.listeners.len() + self.active.len() <= self.max_connections
        &&& forall|handle: SysHandle| #[trigger]
            self.listeners.contains_key(handle) ==> Self::listener_ok(
                handle,
                self.listeners[handle],
            )
        &&& forall|handle: SysHandle| #[trigger]
            self.active.contains_key(handle) ==> Self::connection_ok(handle, self.active[handle])
    }

    /// What always holds of a server.
    pub open spec fn wf(self) -> bool {
        &&& self.connections_wf()
        &&& match self.task {
            TaskView::Idle => true,
            TaskView::Mapping(goal) => self.has_room(goal),
            TaskView::Creating(listener, goal) => listener.idle() && listener.channel_size
                == self.channel_size && self.has_room(goal),
            TaskView::Waiting => forall|handle: SysHandle| #[trigger]
                self.active.contains_key(handle) ==> self.active[handle].status is Connected,
        }
    }

    /// A server that goes on stays well formed.
    pub(crate) proof fn lemma_pursue_wf(self, goal: GoalView)
        requires
            self.connections_wf(),
            goal matches GoalView::Start { remaining } ==> self.active.len() == 0
                && self.listeners.len() + remaining <= self.max_listeners,
        ensures
            self.pursue(goal).0.wf(),
    {
        let active = self.active.remove_keys(stale(self.active));
        vstd::set_lib::lemma_len_subset(active.dom(), self.active.dom());
    }

    /// A server that gives up stays well formed.
    pub(crate) proof fn lemma_give_up_wf(self, goal: GoalView, e: ErrorCode, cleanup: Seq<Cleanup>)
        requires
            self.connections_wf(),
        ensures
            self.give_up(goal, e, cleanup).0.wf(),
    {
    }

    /// A server stays well formed when it gets a page for a listener, or none.
    pub(crate) proof fn lemma_mapped_wf(self, reply: Result<u64, ErrorCode>, extension: E)
        requires
            self.wf(),
            self.task is Mapping,
        ensures
            self.after_mapped(reply, extension).0.wf(),
    {
        if let Err(e) = reply {
            self.lemma_give_up_wf(self.task->Mapping_0, e, seq![]);
        }
    }

    /// A server stays well formed when it gets a listener, or none.
    pub(crate) proof fn lemma_created_wf(self, reply: Result<SysHandle, ErrorCode>)
        requires
            self.wf(),
            self.task is Creating,
        ensures
            self.after_created(reply).0.wf(),
    {
        let goal = self.task->Creating_1;
        match reply {
            Ok(handle) => {
                let max_connections = self.max_connections;
                let max_listeners = self.max_listeners;
                assert(max_connections as usize <= max_connections) by (bit_vector);
                assert(max_listeners as usize <= max_listeners) by (bit_vector);
                let next = self.with_listener(handle);
                assert(next.listeners.dom() =~= self.listeners.dom().insert(handle));
                next.lemma_pursue_wf(goal);
            },
            Err(e) => {
                self.lemma_give_up_wf(goal, e, self.task->Creating_0.release());
            },
        }
    }

    /// A server stays well formed when a wait ends.
    pub(crate) proof fn lemma_wait_wf(self, reply: Result<(), ErrorCode>, handles: Seq<SysHandle>)
        requires
            self.wf(),
            self.task is Waiting,
        ensures
            self.after_wait(reply, handles).0.wf(),
    {
        match reply {
            Ok(()) => {
                let n = usable(self.listeners, self.active, handles);
                lemma_usable_bounds(self.listeners, self.active, handles);
                lemma_promote_len(self.listeners, self.active, handles.take(n as int).to_set());
                let next = promote(self.listeners, self.active, handles.take(n as int).to_set());
                vstd::set_lib::lemma_len_subset(next.listeners.dom(), self.listeners.dom());
                assert forall|h: SysHandle| #[trigger]
                    next.active.contains_key(h) implies Self::connection_ok(h, next.active[h]) by {
                    assert(self.active.contains_key(h) || self.listeners.contains_key(h));
                }
                assert forall|h: SysHandle| #[trigger]
                    next.listeners.contains_key(h) implies Self::listener_ok(h, next.listeners[h]) by {
                    assert(self.listeners.contains_key(h));
                }
            },
            Err(_) => {
                lemma_expel_shrinks(self.listeners, self.active, handles);
                let next = expel(self.listeners, self.active, handles);
                assert(next.listeners.dom().subset_of(self.listeners.dom())) by {
                    assert forall|h: SysHandle| next.listeners.dom().contains(
                        h,
                    ) implies self.listeners.dom().contains(h) by {
                        assert(next.listeners.contains_key(h));
                    }
                }
                assert(next.active.dom().subset_of(self.active.dom())) by {
                    assert forall|h: SysHandle| next.active.dom().contains(
                        h,
                    ) implies self.active.dom().contains(h) by {
                        assert(next.active.contains_key(h));
                    }
                }
                vstd::set_lib::lemma_len_subset(next.listeners.dom(), self.listeners.dom());
                vstd::set_lib::lemma_len_subset(next.active.dom(), self.active.dom());
            },
        }
    }
}

/// What is expelled leaves the rest as it was.
pub(crate) proof fn lemma_expel_shrinks<E>(
    listeners: Map<SysHandle, ConnectionState<E>>,
    active: Map<SysHandle, ConnectionState<E>>,
    bad: Seq<SysHandle>,
)
    ensures
        forall|handle: SysHandle| #[trigger]
            expel(listeners, active, bad).listeners.contains_key(handle) ==> listeners.contains_key(
                handle,
            ) && expel(listeners, active, bad).listeners[handle] == listeners[handle],
        forall|handle: SysHandle| #[trigger]
            expel(listeners, active, bad).active.contains_key(handle) ==> active.contains_key(
                handle,
            ) && expel(listeners, active, bad).active[handle] == active[handle],
    decreases bad.len(),
{
    if bad.len() > 0 {
        lemma_expel_shrinks(listeners, active, bad.drop_last());
        let so_far = expel(listeners, active, bad.drop_last());
        let next = expel(listeners, active, bad);
        assert forall|handle: SysHandle| #[trigger]
            next.listeners.contains_key(handle) implies listeners.contains_key(handle)
            && next.listeners[handle] == listeners[handle] by {
            assert(so_far.listeners.contains_key(handle));
        }
        assert forall|handle: SysHandle| #[trigger]
            next.active.contains_key(handle) implies active.contains_key(handle)
            && next.active[handle] == active[handle] by {
            assert(so_far.active.contains_key(handle));
        }
    }
}

/// The usable handles are the first ones, and end at the first that is not.
pub(crate) proof fn lemma_usable_bounds<E>(
    listeners: Map<SysHandle, ConnectionState<E>>,
    active: Map<SysHandle, ConnectionState<E>>,
    handles: Seq<SysHandle>,
)
    ensures
        usable(listeners, active, handles) <= handles.len(),
        forall|i: int|
            0 <= i < usable(listeners, active, handles) ==> #[trigger] handles[i] != HANDLE_NONE
                && !(listeners.contains_key(handles[i]) && active.contains_key(handles[i])),
    decreases handles.len(),
{
    if handles.len() > 0 {
        let rest = handles.drop_first();
        lemma_usable_bounds(listeners, active, rest);
        assert forall|i: int| 0 <= i < usable(listeners, active, handles) implies #[trigger] handles[i]
            != HANDLE_NONE && !(listeners.contains_key(handles[i]) && active.contains_key(
            handles[i],
        )) by {
            if i > 0 {
                assert(handles[i] == rest[i - 1]);
            }
        }
    }
}

/// The first handle that is not usable tells how many are.
pub proof fn lemma_usable_is<E>(
    listeners: Map<SysHandle, ConnectionState<E>>,
    active: Map<SysHandle, ConnectionState<E>>,
    handles: Seq<SysHandle>,
    n: nat,
)
    requires
        n <= handles.len(),
        forall|i: int|
            0 <= i < n ==> #[trigger] handles[i] != HANDLE_NONE && !(listeners.contains_key(
                handles[i],
            ) && active.contains_key(handles[i])),
        n < handles.len() ==> handles[n as int] == HANDLE_NONE || (listeners.contains_key(
            handles[n as int],
        ) && active.contains_key(handles[n as int])),
    ensures
        usable(listeners, active, handles) == n,
    decreases handles.len(),
{
    if n > 0 {
        let rest = handles.drop_first();
        assert(handles[0] == handles.first());
        assert forall|i: int| 0 <= i < n - 1 implies #[trigger] rest[i] != HANDLE_NONE && !(
        listeners.contains_key(rest[i]) && active.contains_key(rest[i])) by {
            assert(rest[i] == handles[i + 1]);
        }
        lemma_usable_is(listeners, active, rest, (n - 1) as nat);
    }
}

/// When listeners become connections, there are no more of both than before.
pub(crate) proof fn lemma_promote_len<E>(
    listeners: Map<SysHandle, ConnectionState<E>>,
    active: Map<SysHandle, ConnectionState<E>>,
    wakers: Set<SysHandle>,
)
    requires
        listeners.dom().finite(),
        active.dom().finite(),
    ensures
        promote(listeners, active, wakers).listeners.dom().finite(),
        promote(listeners, active, wakers).active.dom().finite(),
        promote(listeners, active, wakers).listeners.len() + promote(
            listeners,
            active,
            wakers,
        ).active.len() <= listeners.len() + active.len(),
{
    let next = promote(listeners, active, wakers);
    let moved = listeners.dom().intersect(wakers);
    let stay = listeners.dom().difference(wakers);
    vstd::set_lib::lemma_set_disjoint_lens(stay, moved);
    assert(stay.union(moved) =~= listeners.dom());
    assert(next.listeners.dom() =~= stay);
    assert(next.active.dom() =~= active.dom().union(moved));
    vstd::set_lib::lemma_len_union(active.dom(), moved);
}

} // verus!
