//! A server: a set of server ends that listen at one URL, or have a client.
//!
//! An operation of a server takes several system calls, and which ones depends
//! on the replies. So each function here takes what has happened, brings the
//! server up to date, and returns a [`Step`]: what is to be given back to the
//! kernel, and then either the next call to make, whose reply goes to the
//! function that is named with the call, or the outcome of the operation.

use crate::channel::ChannelSize;
use crate::connection::LocalServerConnection;
use crate::keys::{sorted_keys, value_mut};
use crate::model::{ActionView, GoalView, OutcomeView, ServerState, StepView, TaskView};
use crate::sys::{
    Cleanup, ErrorCode, MapCall, OpenCall, SysHandle, WaitCall, E_BAD_HANDLE, HANDLE_NONE,
};
use std::collections::BTreeMap;
use vstd::prelude::*;

verus! {

/// How an operation of a server ends.
#[derive(Debug)]
pub enum Outcome {
    /// The server has started.
    Started,
    /// The server could not get a listener and has not started. It is empty.
    StartFailed(ErrorCode),
    /// These handles have woken the server: those of its connections, new ones
    /// among them, and extra ones.
    Woken(Vec<SysHandle>),
    /// Some handles were bad. The server has dropped those that were its own;
    /// these are the others.
    BadHandles(Vec<SysHandle>),
    /// The server could not get a listener, and has not waited. The caller is to
    /// treat this as fatal.
    ListenerFailed(ErrorCode),
    /// The wait failed otherwise than by a bad handle. The caller is to treat
    /// this as fatal.
    WaitFailed(ErrorCode),
    /// This handle has woken the server, and is a listener's and a connection's
    /// at once. The caller is to treat this as fatal.
    HandleInUse(SysHandle),
}

/// What a server wants next.
#[derive(Debug)]
pub enum Action {
    /// Reserve a page; the reply goes to [`LocalServer::mapped`].
    MapPage(MapCall),
    /// Create an object; the reply goes to [`LocalServer::created`].
    Create(OpenCall),
    /// Wait; the reply goes to [`LocalServer::woken`].
    Wait(WaitCall),
    /// Nothing: the operation is over.
    Finished(Outcome),
}

/// What is to be given back, in this order, and what a server wants then.
#[derive(Debug)]
pub struct Step {
    pub cleanup: Vec<Cleanup>,
    pub action: Action,
}

impl View for Outcome {
    type V = OutcomeView;

    open spec fn view(&self) -> OutcomeView {
        match self {
            Outcome::Started => OutcomeView::Started,
            Outcome::StartFailed(e) => OutcomeView::StartFailed(*e),
            Outcome::Woken(handles) => OutcomeView::Woken(handles@),
            Outcome::BadHandles(handles) => OutcomeView::BadHandles(handles@),
            Outcome::ListenerFailed(e) => OutcomeView::ListenerFailed(*e),
            Outcome::WaitFailed(e) => OutcomeView::WaitFailed(*e),
            Outcome::HandleInUse(handle) => OutcomeView::HandleInUse(*handle),
        }
    }
}

impl View for Action {
    type V = ActionView;

    open spec fn view(&self) -> ActionView {
        match self {
            Action::MapPage(call) => ActionView::MapPage(*call),
            Action::Create(call) => ActionView::Create(call@),
            Action::Wait(call) => ActionView::Wait(call@),
            Action::Finished(outcome) => ActionView::Finished(outcome@),
        }
    }
}

impl View for Step {
    type V = StepView;

    open spec fn view(&self) -> StepView {
        StepView { cleanup: self.cleanup@, action: self.action@ }
    }
}

/// What a server adds listeners for.
enum Goal {
    Start { remaining: u64 },
    Wait { swap_target: SysHandle, extra_waiters: Vec<SysHandle> },
}

/// The system call that a server has asked for and has had no reply to.
enum Task<E> {
    Idle,
    Mapping(Goal),
    Creating(LocalServerConnection<E>, Goal),
    Waiting,
}

impl View for Goal {
    type V = GoalView;

    closed spec fn view(&self) -> GoalView {
        match self {
            Goal::Start { remaining } => GoalView::Start { remaining: *remaining },
            Goal::Wait { swap_target, extra_waiters } => GoalView::Wait {
                swap_target: *swap_target,
                extra_waiters: extra_waiters@,
            },
        }
    }
}

impl<E> View for Task<E> {
    type V = TaskView<E>;

    closed spec fn view(&self) -> TaskView<E> {
        match self {
            Task::Idle => TaskView::Idle,
            Task::Mapping(goal) => TaskView::Mapping(goal@),
            Task::Creating(listener, goal) => TaskView::Creating(listener@, goal@),
            Task::Waiting => TaskView::Waiting,
        }
    }
}

/// The connections in a map, by what they are.
spec fn viewed<E>(connections: Map<SysHandle, LocalServerConnection<E>>) -> Map<
    SysHandle,
    crate::connection::ConnectionState<E>,
> {
    connections.map_values(|connection: LocalServerConnection<E>| connection@)
}

/// A server. `E` is what its user attaches to its connections.
pub struct LocalServer<E> {
    max_connections: u64,
    max_listeners: u64,
    channel_size: ChannelSize,
    url: String,
    listeners: BTreeMap<SysHandle, LocalServerConnection<E>>,
    active_conns: BTreeMap<SysHandle, LocalServerConnection<E>>,
    task: Task<E>,
}

impl<E> View for LocalServer<E> {
    type V = ServerState<E>;

    closed spec fn view(&self) -> ServerState<E> {
        ServerState {
            max_connections: self.max_connections,
            max_listeners: self.max_listeners,
            channel_size: self.channel_size,
            url: self.url@,
            listeners: viewed(self.listeners@),
            active: viewed(self.active_conns@),
            task: self.task@,
        }
    }
}

/// Takes the connections with these handles out of `connections`, and appends to
/// `calls` what it takes to give them back.
fn release_each<E>(
    connections: &mut BTreeMap<SysHandle, LocalServerConnection<E>>,
    handles: &Vec<SysHandle>,
    calls: &mut Vec<Cleanup>,
)
    requires
        handles@.no_duplicates(),
        forall|i: int| 0 <= i < handles@.len() ==> old(connections)@.contains_key(handles@[i]),
    ensures
        viewed(final(connections)@) == viewed(old(connections)@).remove_keys(handles@.to_set()),
        final(calls)@ == old(calls)@ + crate::model::release_all(
            viewed(old(connections)@),
            handles@,
        ),
{
    broadcast use vstd::std_specs::btree::group_btree_axioms;

    let ghost connections0 = connections@;
    let ghost calls0 = calls@;
    let mut i: usize = 0;
    while i < handles.len()
        invariant
            i <= handles@.len(),
            handles@.no_duplicates(),
            forall|j: int| 0 <= j < handles@.len() ==> connections0.contains_key(handles@[j]),
            connections@ == connections0.remove_keys(handles@.take(i as int).to_set()),
            calls@ == calls0 + crate::model::release_all(
                viewed(connections0),
                handles@.take(i as int),
            ),
        decreases handles@.len() - i,
    {
        let handle: SysHandle = handles[i];
        let ghost done = handles@.take(i as int);
        assert(!done.to_set().contains(handle));
        if let Some(connection) = connections.remove(&handle) {
            connection.release(calls);
        }
        proof {
            let more = handles@.take(i + 1);
            assert(more.drop_last() =~= done);
            assert(more.to_set() =~= done.to_set().insert(handle)) by {
                assert(more =~= done.push(handle));
                assert forall|h: SysHandle| done.to_set().insert(handle).contains(h) implies #[trigger] more.to_set().contains(h) by {
                    if h == handle {
                        assert(more[i as int] == h);
                    } else {
                        let k = choose|k: int| 0 <= k < done.len() && done[k] == h;
                        assert(more[k] == h);
                    }
                }
            }
            assert(connections@ =~= connections0.remove_keys(more.to_set()));
        }
        i = i + 1;
    }
    assert(handles@.take(i as int) =~= handles@);
    assert(viewed(connections@) =~= viewed(connections0).remove_keys(handles@.to_set()));
}

impl<E> LocalServer<E> {
    /// Takes out all listeners and connections, and appends to `calls` what it
    /// takes to give them back.
    fn release_connections(&mut self, calls: &mut Vec<Cleanup>)
        ensures
            final(self)@ == (ServerState {
                listeners: Map::empty(),
                active: Map::empty(),
                ..old(self)@
            }),
            final(calls)@ == old(calls)@ + old(self)@.release_connections(),
    {
        let ghost calls0 = calls@;
        let ghost listeners0 = viewed(self.listeners@);
        let ghost active0 = viewed(self.active_conns@);
        let listeners: Vec<SysHandle> = sorted_keys(&self.listeners);
        assert(self.listeners@.dom() =~= listeners0.dom());
        proof {
            crate::keys::lemma_listing_keys(listeners@, self.listeners@.dom());
        }
        release_each(&mut self.listeners, &listeners, calls);
        let active: Vec<SysHandle> = sorted_keys(&self.active_conns);
        assert(self.active_conns@.dom() =~= active0.dom());
        proof {
            crate::keys::lemma_listing_keys(active@, self.active_conns@.dom());
        }
        release_each(&mut self.active_conns, &active, calls);
        assert(self@.listeners =~= Map::empty());
        assert(self@.active =~= Map::empty());
        assert(calls@ =~= calls0 + old(self)@.release_connections());
    }

    /// The server could not get a listener: see [`ServerState::give_up`].
    fn give_up(&mut self, goal: Goal, e: ErrorCode, cleanup: Vec<Cleanup>) -> (step: Step)
        ensures
            (final(self)@, step@) == old(self)@.give_up(goal@, e, cleanup@),
    {
        let mut cleanup: Vec<Cleanup> = cleanup;
        self.task = Task::Idle;
        match goal {
            Goal::Start { .. } => {
                self.release_connections(&mut cleanup);
                Step { cleanup, action: Action::Finished(Outcome::StartFailed(e)) }
            },
            Goal::Wait { .. } => {
                Step { cleanup, action: Action::Finished(Outcome::ListenerFailed(e)) }
            },
        }
    }

    /// Whether the server has too few listeners, and room for one more connection.
    fn needs_listener(&self) -> (needs: bool)
        ensures
            needs == self@.needs_listener(),
    {
        broadcast use vstd::std_specs::btree::group_btree_axioms;

        assert(viewed(self.listeners@).dom() =~= self.listeners@.dom());
        assert(viewed(self.active_conns@).dom() =~= self.active_conns@.dom());
        let max_connections: usize = self.max_connections as usize;
        self.listeners.len() < self.max_listeners as usize && self.listeners.len() < max_connections
            && self.active_conns.len() < max_connections - self.listeners.len()
    }

    /// Drops the connections that have lost their client, and waits for the rest:
    /// see [`ServerState::start_waiting`]. What is to be given back goes after
    /// `cleanup`.
    fn start_waiting(
        &mut self,
        swap_target: SysHandle,
        extra_waiters: &Vec<SysHandle>,
        cleanup: Vec<Cleanup>,
    ) -> (step: Step)
        ensures
            final(self)@ == old(self)@.start_waiting(swap_target, extra_waiters@).0,
            step@.action == old(self)@.start_waiting(swap_target, extra_waiters@).1.action,
            step@.cleanup == cleanup@ + old(self)@.start_waiting(
                swap_target,
                extra_waiters@,
            ).1.cleanup,
    {
        broadcast use vstd::std_specs::btree::group_btree_axioms;

        let ghost active0 = viewed(self.active_conns@);
        let mut cleanup: Vec<Cleanup> = cleanup;
        let mut waiters: Vec<SysHandle> = sorted_keys(&self.listeners);
        assert(viewed(self.listeners@).dom() =~= self.listeners@.dom());
        assert(active0.dom() =~= self.active_conns@.dom());

        let keys: Vec<SysHandle> = sorted_keys(&self.active_conns);
        let ghost listening = waiters@;
        let ghost connected = |h: SysHandle| active0[h].status is Connected;
        let ghost gone = |h: SysHandle| !(active0[h].status is Connected);
        let mut bad_connections: Vec<SysHandle> = Vec::new();
        let mut i: usize = 0;
        while i < keys.len()
            invariant
                i <= keys@.len(),
                crate::keys::lists(keys@, active0.dom()),
                active0 == viewed(self.active_conns@),
                active0.dom() == self.active_conns@.dom(),
                connected == (|h: SysHandle| active0[h].status is Connected),
                gone == (|h: SysHandle| !(active0[h].status is Connected)),
                waiters@ == listening + keys@.take(i as int).filter(connected),
                bad_connections@ == keys@.take(i as int).filter(gone),
            decreases keys@.len() - i,
        {
            let key: SysHandle = keys[i];
            proof {
                reveal(Seq::filter);
                assert(keys@.to_set().contains(key));
                assert(keys@.take(i + 1).drop_last() =~= keys@.take(i as int));
                assert(keys@.take(i + 1).last() == key);
            }
            let is_connected: bool = match self.active_conns.get(&key) {
                Some(connection) => connection.connected(),
                None => false,
            };
            assert(is_connected == connected(key));
            if is_connected {
                waiters.push(key);
            } else {
                bad_connections.push(key);
            }
            i = i + 1;
        }
        proof {
            assert(keys@.take(i as int) =~= keys@);
            let stale = crate::model::stale(active0);
            crate::keys::lemma_filter_lists(keys@, active0.dom(), connected);
            crate::keys::lemma_filter_lists(keys@, active0.dom(), gone);
            assert(active0.dom().filter(gone) =~= stale);
            assert(active0.dom().filter(connected) =~= active0.remove_keys(stale).dom());
            crate::keys::lemma_ascending(keys@.filter(connected), active0.remove_keys(stale).dom());
            crate::keys::lemma_ascending(bad_connections@, stale);
            crate::keys::lemma_listing_keys(bad_connections@, stale);
        }
        release_each(&mut self.active_conns, &bad_connections, &mut cleanup);

        let mut j: usize = 0;
        let ghost own = waiters@;
        while j < extra_waiters.len()
            invariant
                j <= extra_waiters@.len(),
                waiters@ == own + extra_waiters@.take(j as int),
            decreases extra_waiters@.len() - j,
        {
            waiters.push(extra_waiters[j]);
            j = j + 1;
        }
        assert(extra_waiters@.take(j as int) =~= extra_waiters@);
        self.task = Task::Waiting;
        Step {
            cleanup,
            action: Action::Wait(
                WaitCall {
                    handles: waiters,
                    swap_target,
                    wake_target: HANDLE_NONE,
                    timeout: None,
                },
            ),
        }
    }

    /// Goes on with `goal`: see [`ServerState::pursue`]. What is to be given back
    /// goes after `cleanup`.
    fn pursue(&mut self, goal: Goal, cleanup: Vec<Cleanup>) -> (step: Step)
        ensures
            final(self)@ == old(self)@.pursue(goal@).0,
            step@.action == old(self)@.pursue(goal@).1.action,
            step@.cleanup == cleanup@ + old(self)@.pursue(goal@).1.cleanup,
    {
        match goal {
            Goal::Start { remaining } => {
                if remaining > 0 {
                    self.task = Task::Mapping(Goal::Start { remaining: remaining - 1 });
                    Step {
                        cleanup,
                        action: Action::MapPage(LocalServerConnection::<E>::page(self.channel_size)),
                    }
                } else {
                    self.task = Task::Idle;
                    Step { cleanup, action: Action::Finished(Outcome::Started) }
                }
            },
            Goal::Wait { swap_target, extra_waiters } => {
                if self.needs_listener() {
                    self.task = Task::Mapping(Goal::Wait { swap_target, extra_waiters });
                    Step {
                        cleanup,
                        action: Action::MapPage(LocalServerConnection::<E>::page(self.channel_size)),
                    }
                } else {
                    self.start_waiting(swap_target, &extra_waiters, cleanup)
                }
            },
        }
    }

    /// The pending task, which is then no longer pending.
    fn take_task(&mut self) -> (task: Task<E>)
        ensures
            task@ == old(self)@.task,
            final(self)@ == (ServerState { task: TaskView::Idle, ..old(self)@ }),
    {
        let mut task: Task<E> = Task::Idle;
        core::mem::swap(&mut task, &mut self.task);
        task
    }

    /// Starts a server at `url`, with at most `max_connections` connections and
    /// `max_listeners` listeners. It has started once it has that many listeners.
    pub fn new(url: &str, channel_size: ChannelSize, max_connections: u64, max_listeners: u64) -> (
        server: (Self, Step))
        requires
            max_connections >= max_listeners,
        ensures
            (server.0@, server.1@) == ServerState::<E>::empty(
                url@,
                channel_size,
                max_connections,
                max_listeners,
            ).pursue(GoalView::Start { remaining: max_listeners }),
            server.0@.wf(),
            server.0@.expects(server.1@.action),
    {
        let mut server: Self = LocalServer {
            max_connections,
            max_listeners,
            channel_size,
            url: url.to_owned(),
            listeners: BTreeMap::new(),
            active_conns: BTreeMap::new(),
            task: Task::Idle,
        };
        assert(server@.listeners =~= Map::empty());
        assert(server@.active =~= Map::empty());
        proof {
            server@.lemma_pursue_wf(GoalView::Start { remaining: max_listeners });
        }
        let step: Step = server.pursue(Goal::Start { remaining: max_listeners }, Vec::new());
        (server, step)
    }

    /// Waits until a client connects or makes a call, or one of `extra_waiters`
    /// wakes this thread. First the server makes up its listeners; `swap_target`
    /// gets the processor meanwhile.
    pub fn wait(&mut self, swap_target: SysHandle, extra_waiters: &[SysHandle]) -> (step: Step)
        requires
            old(self)@.wf(),
            old(self)@.task is Idle,
        ensures
            (final(self)@, step@) == old(self)@.pursue(
                GoalView::Wait { swap_target, extra_waiters: extra_waiters@ },
            ),
            final(self)@.wf(),
            final(self)@.expects(step@.action),
    {
        let extra_waiters: Vec<SysHandle> = vstd::slice::slice_to_vec(extra_waiters);
        proof {
            self@.lemma_pursue_wf(
                GoalView::Wait { swap_target, extra_waiters: extra_waiters@ },
            );
        }
        self.pursue(Goal::Wait { swap_target, extra_waiters }, Vec::new())
    }

    /// Takes the reply to [`Action::MapPage`]: the address of the page for a new
    /// listener. `extension` is what is attached to the listener at first.
    pub fn mapped(&mut self, reply: Result<u64, ErrorCode>, extension: E) -> (step: Step)
        requires
            old(self)@.wf(),
            old(self)@.task is Mapping,
        ensures
            (final(self)@, step@) == old(self)@.after_mapped(reply, extension),
            final(self)@.wf(),
            final(self)@.expects(step@.action),
    {
        proof {
            self@.lemma_mapped_wf(reply, extension);
        }
        match self.take_task() {
            Task::Mapping(goal) => match LocalServerConnection::new(
                self.channel_size,
                reply,
                extension,
            ) {
                Ok(listener) => {
                    let call: OpenCall = listener.start_listening(self.url.as_str());
                    self.task = Task::Creating(listener, goal);
                    Step { cleanup: Vec::new(), action: Action::Create(call) }
                },
                Err(e) => self.give_up(goal, e, Vec::new()),
            },
            _ => vstd::pervasive::unreached(),
        }
    }

    /// Takes the reply to [`Action::Create`]: the handle of the new listener.
    pub fn created(&mut self, reply: Result<SysHandle, ErrorCode>) -> (step: Step)
        requires
            old(self)@.wf(),
            old(self)@.task is Creating,
        ensures
            (final(self)@, step@) == old(self)@.after_created(reply),
            final(self)@.wf(),
            final(self)@.expects(step@.action),
    {
        broadcast use vstd::std_specs::btree::group_btree_axioms;

        proof {
            self@.lemma_created_wf(reply);
        }
        match self.take_task() {
            Task::Creating(listener, goal) => {
                let mut listener: LocalServerConnection<E> = listener;
                let mut cleanup: Vec<Cleanup> = Vec::new();
                match listener.start_listening_done(reply) {
                    Ok(()) => {
                        let handle: SysHandle = listener.handle();
                        if let Some(replaced) = self.listeners.insert(handle, listener) {
                            replaced.release(&mut cleanup);
                        }
                        assert(self@.listeners =~= old(self)@.with_listener(handle).listeners);
                        self.pursue(goal, cleanup)
                    },
                    Err(e) => {
                        listener.release(&mut cleanup);
                        self.give_up(goal, e, cleanup)
                    },
                }
            },
            _ => vstd::pervasive::unreached(),
        }
    }

    /// Takes the reply to [`Action::Wait`], and what the kernel left in the call's
    /// list of handles: those that have woken the server, with no handle behind
    /// them, or those that are bad.
    pub fn woken(&mut self, reply: Result<(), ErrorCode>, handles: Vec<SysHandle>) -> (step: Step)
        requires
            old(self)@.wf(),
            old(self)@.task is Waiting,
        ensures
            (final(self)@, step@) == old(self)@.after_wait(reply, handles@),
            final(self)@.wf(),
            final(self)@.expects(step@.action),
    {
        proof {
            self@.lemma_wait_wf(reply, handles@);
        }
        match reply {
            Ok(()) => {
                let outcome: Outcome = self.wakers(&handles);
                Step { cleanup: Vec::new(), action: Action::Finished(outcome) }
            },
            Err(e) => {
                if e == E_BAD_HANDLE {
                    self.bad_handles(&handles)
                } else {
                    self.task = Task::Idle;
                    Step {
                        cleanup: Vec::new(),
                        action: Action::Finished(Outcome::WaitFailed(e)),
                    }
                }
            },
        }
    }

    /// The wait has succeeded.
    fn wakers(&mut self, handles: &Vec<SysHandle>) -> (outcome: Outcome)
        requires
            old(self)@.wf(),
            old(self)@.task is Waiting,
        ensures
            final(self)@ == old(self)@.after_wait(Ok(()), handles@).0,
            ActionView::Finished(outcome@) == old(self)@.after_wait(Ok(()), handles@).1.action,
    {
        broadcast use vstd::std_specs::btree::group_btree_axioms;

        let ghost listeners0 = self@.listeners;
        let ghost active0 = self@.active;
        self.task = Task::Idle;
        let mut wakers: Vec<SysHandle> = Vec::new();
        let mut i: usize = 0;
        while i < handles.len()
            invariant
                i <= handles@.len(),
                listeners0 == old(self)@.listeners,
                active0 == old(self)@.active,
                old(self)@.wf(),
                wakers@ == handles@.take(i as int),
                self@ == (ServerState {
                    listeners: crate::model::promote(
                        listeners0,
                        active0,
                        handles@.take(i as int).to_set(),
                    ).listeners,
                    active: crate::model::promote(
                        listeners0,
                        active0,
                        handles@.take(i as int).to_set(),
                    ).active,
                    task: TaskView::Idle,
                    ..old(self)@
                }),
                forall|j: int|
                    0 <= j < i ==> #[trigger] handles@[j] != HANDLE_NONE && !(
                    listeners0.contains_key(handles@[j]) && active0.contains_key(handles@[j])),
            decreases handles@.len() - i,
        {
            let handle: SysHandle = handles[i];
            let ghost done = handles@.take(i as int);
            let ghost more = handles@.take(i + 1);
            let ghost held = self.listeners@;
            let ghost listeners1 = self@.listeners;
            let ghost active1 = self@.active;
            if handle == HANDLE_NONE {
                proof {
                    crate::model::lemma_usable_is(listeners0, active0, handles@, i as nat);
                }
                return Outcome::Woken(wakers);
            }
            proof {
                assert(done.to_set().contains(handle) ==> exists|j: int|
                    0 <= j < i && handles@[j] == handle) by {
                    if done.to_set().contains(handle) {
                        let j = choose|j: int| 0 <= j < done.len() && done[j] == handle;
                        assert(handles@[j] == handle);
                    }
                }
                assert(self.listeners@.dom() =~= listeners1.dom());
                assert(self.active_conns@.dom() =~= active1.dom());
                assert(more.to_set() =~= done.to_set().insert(handle)) by {
                    assert(more =~= done.push(handle));
                    assert forall|h: SysHandle| done.to_set().insert(handle).contains(
                        h,
                    ) implies #[trigger] more.to_set().contains(h) by {
                        if h == handle {
                            assert(more[i as int] == h);
                        } else {
                            let k = choose|k: int| 0 <= k < done.len() && done[k] == h;
                            assert(more[k] == h);
                        }
                    }
                }
            }
            if self.listeners.contains_key(&handle) && self.active_conns.contains_key(&handle) {
                proof {
                    crate::model::lemma_usable_is(listeners0, active0, handles@, i as nat);
                }
                return Outcome::HandleInUse(handle);
            }
            if let Some(connection) = self.listeners.remove(&handle) {
                let mut connection: LocalServerConnection<E> = connection;
                assert(viewed(held)[handle] == connection@);
                assert(connection@ == listeners0[handle]);
                connection.accept();
                let prev: Option<LocalServerConnection<E>> = self.active_conns.insert(
                    handle,
                    connection,
                );
                assert(prev is None);
                assert(self@.listeners =~= listeners1.remove(handle));
                assert(self@.active =~= active1.insert(handle, listeners0[handle].accepted()));
            }
            proof {
                let next = crate::model::promote(listeners0, active0, more.to_set());
                assert(listeners1.contains_key(handle) == held.contains_key(handle));
                assert(self@.listeners =~= listeners1.remove(handle));
                assert(self@.listeners =~= next.listeners);
                assert(self@.active =~= next.active);
            }
            wakers.push(handle);
            i = i + 1;
        }
        proof {
            crate::model::lemma_usable_is(listeners0, active0, handles@, i as nat);
        }
        Outcome::Woken(wakers)
    }

    /// The wait has failed because of bad handles.
    fn bad_handles(&mut self, handles: &Vec<SysHandle>) -> (step: Step)
        requires
            old(self)@.wf(),
            old(self)@.task is Waiting,
        ensures
            (final(self)@, step@) == old(self)@.after_wait(Err(E_BAD_HANDLE), handles@),
    {
        broadcast use vstd::std_specs::btree::group_btree_axioms;

        let ghost listeners0 = self@.listeners;
        let ghost active0 = self@.active;
        self.task = Task::Idle;
        let mut cleanup: Vec<Cleanup> = Vec::new();
        let mut bad_extras: Vec<SysHandle> = Vec::new();
        let mut i: usize = 0;
        while i < handles.len()
            invariant
                i <= handles@.len(),
                listeners0 == old(self)@.listeners,
                active0 == old(self)@.active,
                old(self)@.wf(),
                old(self)@.task is Waiting,
                self@ == (ServerState {
                    listeners: crate::model::expel(
                        listeners0,
                        active0,
                        handles@.take(i as int),
                    ).listeners,
                    active: crate::model::expel(
                        listeners0,
                        active0,
                        handles@.take(i as int),
                    ).active,
                    task: TaskView::Idle,
                    ..old(self)@
                }),
                cleanup@ == crate::model::expel(
                    listeners0,
                    active0,
                    handles@.take(i as int),
                ).cleanup,
                bad_extras@ == crate::model::expel(
                    listeners0,
                    active0,
                    handles@.take(i as int),
                ).strangers,
            decreases handles@.len() - i,
        {
            let handle: SysHandle = handles[i];
            let ghost so_far = crate::model::expel(listeners0, active0, handles@.take(i as int));
            proof {
                assert(handles@.take(i + 1).drop_last() =~= handles@.take(i as int));
                crate::model::lemma_expel_shrinks(listeners0, active0, handles@.take(i as int));
                assert(self.listeners@.dom() =~= so_far.listeners.dom());
                assert(self.active_conns@.dom() =~= so_far.active.dom());
            }
            i = i + 1;
            if handle == HANDLE_NONE {
                continue;
            }
            if let Some(connection) = self.active_conns.remove(&handle) {
                assert(connection@ == so_far.active[handle]);
                assert(connection@.status is Connected);
                connection.close(&mut cleanup);
                assert(self@.active =~= so_far.active.remove(handle));
            } else if let Some(listener) = self.listeners.remove(&handle) {
                listener.close(&mut cleanup);
                assert(self@.listeners =~= so_far.listeners.remove(handle));
                assert(self@.active =~= so_far.active);
            } else {
                bad_extras.push(handle);
                assert(self@.listeners =~= so_far.listeners);
                assert(self@.active =~= so_far.active);
            }
        }
        assert(handles@.take(i as int) =~= handles@);
        Step { cleanup, action: Action::Finished(Outcome::BadHandles(bad_extras)) }
    }

    /// The connection with this handle, to be used and changed.
    pub fn get_connection(&mut self, handle: SysHandle) -> (connection: Option<
        &mut LocalServerConnection<E>,
    >)
        ensures
            match connection {
                Some(connection) => {
                    &&& old(self)@.active.contains_key(handle)
                    &&& connection@ == old(self)@.active[handle]
                    &&& final(self)@ == (ServerState {
                        active: old(self)@.active.insert(handle, final(connection)@),
                        ..old(self)@
                    })
                },
                None => !old(self)@.active.contains_key(handle) && final(self)@ == old(self)@,
            },
    {
        value_mut(&mut self.active_conns, handle)
    }

    /// The end of the server: what it still holds of the kernel, for the caller to
    /// give back.
    pub fn release(self) -> (calls: Vec<Cleanup>)
        ensures
            calls@ == self@.release(),
    {
        let mut server: Self = self;
        let mut calls: Vec<Cleanup> = Vec::new();
        if let Task::Creating(listener, _) = server.take_task() {
            listener.release(&mut calls);
        }
        server.release_connections(&mut calls);
        assert(calls@ =~= self@.release());
        calls
    }
}

} // verus!
