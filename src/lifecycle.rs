//! Decisions of the service loop that keeps one worker process attached to
//! the desktop session that should be served.
//!
//! The loop itself (session queries, the control channel, process spawning)
//! runs outside; each of its observations is handed to a transition here,
//! which updates the state and answers with the commands to carry out, in
//! order.
use vstd::prelude::*;

verus! {

/// The session id that the OS reports when it has no active session.
pub const NO_SESSION: u32 = 0xFFFF_FFFF;

/// A message read from the control channel.
#[derive(Clone, Copy, Debug, PartialEq, Eq, Structural)]
pub enum ControlMessage {
    /// Shut the service down.
    Close,
    /// Forward a secure-attention request to the OS.
    RequestSecureAttention,
    /// Serve the given session from now on.
    OverrideSession(u32),
}

/// What the loop holds of the worker process.
#[derive(Clone, Copy, Debug, PartialEq, Eq, Structural)]
pub enum WorkerState {
    /// No worker handle is held.
    Absent,
    /// A handle is held and the process was running when last seen.
    Running,
    /// A handle is held but the process has ended.
    Exited,
}

/// An action for the loop to carry out.
#[derive(Clone, Copy, Debug, PartialEq, Eq, Structural)]
pub enum Command {
    /// Send a close notification to the worker over the control channel,
    /// ignoring failure, and wait briefly.
    NotifyClose,
    /// Close the handle of the worker process that is held.
    ReleaseWorker,
    /// Spawn a worker bound to this session, then report the outcome with
    /// `worker_launched`.
    LaunchWorker(u32),
    /// Forward a secure-attention request to the OS.
    SecureAttention,
    /// Report terminal status and leave the loop.
    Stop,
}

/// The state of the service loop.
#[derive(Clone, Copy, Debug, PartialEq, Eq, Structural)]
pub struct LifecycleState {
    /// The session being served.
    pub current: Option<u32>,
    /// The session last chosen by an override message.
    pub override_session: Option<u32>,
    /// The worker process.
    pub worker: WorkerState,
}

/// The OS's raw answer to "which session is active", with `NO_SESSION`
/// read as a failed query.
pub open spec fn session_of(raw: u32) -> Option<u32> {
    if raw == NO_SESSION {
        None
    } else {
        Some(raw)
    }
}

/// Reads the OS's raw active-session answer.
pub fn session_from_raw(raw: u32) -> (r: Option<u32>)
    ensures
        r == session_of(raw),
{
    if raw == NO_SESSION {
        None
    } else {
        Some(raw)
    }
}

/// The commands that relaunch the worker for `sid`: a close notification
/// first if asked for, then the release of the handle held, if any, then
/// the launch.
pub open spec fn relaunch(held: bool, close_first: bool, sid: u32) -> Seq<Command> {
    (if close_first {
        seq![Command::NotifyClose]
    } else {
        Seq::empty()
    }) + (if held {
        seq![Command::ReleaseWorker]
    } else {
        Seq::empty()
    }) + seq![Command::LaunchWorker(sid)]
}

/// The commands that shut the loop down: a close notification and the
/// release of the handle, if one is held, then the stop.
pub open spec fn shutdown(held: bool) -> Seq<Command> {
    (if held {
        seq![Command::NotifyClose, Command::ReleaseWorker]
    } else {
        Seq::empty()
    }) + seq![Command::Stop]
}

/// How many of `cmds` release the worker handle.
pub open spec fn release_count(cmds: Seq<Command>) -> nat
    decreases cmds.len(),
{
    if cmds.len() == 0 {
        0
    } else {
        release_count(cmds.drop_last()) + if cmds.last() == Command::ReleaseWorker {
            1nat
        } else {
            0nat
        }
    }
}

/// The commands of a transition from `before` to `after` release the worker
/// handle exactly once when the transition drops a held handle, and never
/// otherwise.
pub open spec fn releases_dropped_handle(
    before: LifecycleState,
    after: LifecycleState,
    cmds: Seq<Command>,
) -> bool {
    release_count(cmds) == if before.holds_worker() && !after.holds_worker() {
        1nat
    } else {
        0nat
    }
}

proof fn lemma_release_count_append(a: Seq<Command>, b: Seq<Command>)
    ensures
        release_count(a + b) == release_count(a) + release_count(b),
    decreases b.len(),
{
    if b.len() == 0 {
        assert(a + b =~= a);
    } else {
        lemma_release_count_append(a, b.drop_last());
        assert((a + b).drop_last() =~= a + b.drop_last());
    }
}

proof fn lemma_release_count_one(c: Command)
    ensures
        release_count(seq![c]) == if c == Command::ReleaseWorker {
            1nat
        } else {
            0nat
        },
{
    assert(seq![c].drop_last() =~= Seq::<Command>::empty());
    assert(release_count(Seq::<Command>::empty()) == 0);
    assert(seq![c].last() == c);
}

/// A relaunch releases the handle once if one is held, and never otherwise.
pub proof fn lemma_relaunch_releases(held: bool, close_first: bool, sid: u32)
    ensures
        release_count(relaunch(held, close_first, sid)) == if held {
            1nat
        } else {
            0nat
        },
{
    let first: Seq<Command> = if close_first {
        seq![Command::NotifyClose]
    } else {
        Seq::empty()
    };
    let middle: Seq<Command> = if held {
        seq![Command::ReleaseWorker]
    } else {
        Seq::empty()
    };
    lemma_release_count_one(Command::NotifyClose);
    lemma_release_count_one(Command::ReleaseWorker);
    lemma_release_count_one(Command::LaunchWorker(sid));
    lemma_release_count_append(first, middle);
    lemma_release_count_append(first + middle, seq![Command::LaunchWorker(sid)]);
}

/// A shutdown releases the handle once if one is held, and never otherwise.
pub proof fn lemma_shutdown_releases(held: bool)
    ensures
        release_count(shutdown(held)) == if held {
            1nat
        } else {
            0nat
        },
{
    lemma_release_count_one(Command::NotifyClose);
    lemma_release_count_one(Command::ReleaseWorker);
    lemma_release_count_one(Command::Stop);
    lemma_release_count_append(seq![Command::NotifyClose], seq![Command::ReleaseWorker]);
    assert(seq![Command::NotifyClose] + seq![Command::ReleaseWorker] =~= seq![
        Command::NotifyClose,
        Command::ReleaseWorker,
    ]);
    let first: Seq<Command> = if held {
        seq![Command::NotifyClose, Command::ReleaseWorker]
    } else {
        Seq::empty()
    };
    lemma_release_count_append(first, seq![Command::Stop]);
}

impl LifecycleState {
    /// A worker handle is held.
    pub open spec fn holds_worker(self) -> bool {
        self.worker != WorkerState::Absent
    }

    /// The session being served is the one that an override chose, so
    /// auto-detection leaves it alone.
    pub open spec fn override_in_force(self) -> bool {
        self.override_session is Some && self.override_session == self.current
    }

    /// The session being served has to be checked against the active one:
    /// there is none, it is no longer available, or sharing is off.
    pub open spec fn needs_session_check(self, available: Seq<u32>, sharing: bool) -> bool {
        self.current is None || !available.contains(self.current->0) || !sharing
    }

    /// The worker has to be started again: none is held, or it has ended.
    pub open spec fn worker_down(self) -> bool {
        self.worker != WorkerState::Running
    }

    /// The state the loop starts in: no session, no override, no worker.
    pub fn new() -> (r: Self)
        ensures
            r.current is None,
            r.override_session is None,
            r.worker == WorkerState::Absent,
    {
        LifecycleState { current: None, override_session: None, worker: WorkerState::Absent }
    }

    fn relaunch_commands(held: bool, close_first: bool, sid: u32) -> (r: Vec<Command>)
        ensures
            r@ == relaunch(held, close_first, sid),
    {
        let mut r: Vec<Command> = Vec::new();
        if close_first {
            r.push(Command::NotifyClose);
        }
        if held {
            r.push(Command::ReleaseWorker);
        }
        r.push(Command::LaunchWorker(sid));
        assert(r@ =~= relaunch(held, close_first, sid));
        r
    }

    /// Start of an iteration, after querying the available sessions, whether
    /// sharing is enabled, and the active session (`None` if the query
    /// failed).
    ///
    /// If the served session needs checking and the active one differs from
    /// it, the active one becomes the served session and the worker is
    /// relaunched for it, closing the previous one first.
    pub fn on_poll(&mut self, available: &Vec<u32>, sharing: bool, active: Option<u32>) -> (r: Vec<
        Command,
    >)
        ensures
            ({
                let s = *old(self);
                if s.needs_session_check(available@, sharing) && active is Some && active
                    != s.current {
                    &&& *final(self) == LifecycleState {
                        current: active,
                        worker: WorkerState::Absent,
                        ..s
                    }
                    &&& r@ == relaunch(s.holds_worker(), true, active->0)
                } else {
                    *final(self) == s && r@ == Seq::<Command>::empty()
                }
            }),
            releases_dropped_handle(*old(self), *final(self), r@),
    {
        proof {
            if active is Some {
                lemma_relaunch_releases(old(self).holds_worker(), true, active->0);
            }
        }
        let check = match self.current {
            None => true,
            Some(c) => !vec_contains(available, c) || !sharing,
        };
        match active {
            Some(a) => {
                if check && self.current != Some(a) {
                    let held = self.worker != WorkerState::Absent;
                    self.current = Some(a);
                    self.worker = WorkerState::Absent;
                    return Self::relaunch_commands(held, true, a);
                }
            },
            None => {},
        }
        Vec::new()
    }

    /// A message arrived on the control channel.
    ///
    /// `Close` shuts down: close notification and release of the worker, if
    /// one is held, then the stop. `RequestSecureAttention` is forwarded and
    /// changes nothing. `OverrideSession(sid)` for a session other than the
    /// served one records the override, serves `sid`, and relaunches the
    /// worker for it, closing the previous one first.
    pub fn on_message(&mut self, msg: ControlMessage) -> (r: Vec<Command>)
        ensures
            ({
                let s = *old(self);
                match msg {
                    ControlMessage::Close => {
                        &&& *final(self) == LifecycleState { worker: WorkerState::Absent, ..s }
                        &&& r@ == shutdown(s.holds_worker())
                    },
                    ControlMessage::RequestSecureAttention => {
                        &&& *final(self) == s
                        &&& r@ == seq![Command::SecureAttention]
                    },
                    ControlMessage::OverrideSession(sid) => if s.current != Some(sid) {
                        &&& *final(self) == LifecycleState {
                            current: Some(sid),
                            override_session: Some(sid),
                            worker: WorkerState::Absent,
                        }
                        &&& r@ == relaunch(s.holds_worker(), true, sid)
                    } else {
                        *final(self) == s && r@ == Seq::<Command>::empty()
                    },
                }
            }),
            releases_dropped_handle(*old(self), *final(self), r@),
    {
        proof {
            lemma_shutdown_releases(old(self).holds_worker());
            lemma_release_count_one(Command::SecureAttention);
            if let ControlMessage::OverrideSession(sid) = msg {
                lemma_relaunch_releases(old(self).holds_worker(), true, sid);
            }
        }
        match msg {
            ControlMessage::Close => {
                let mut r: Vec<Command> = Vec::new();
                if self.worker != WorkerState::Absent {
                    r.push(Command::NotifyClose);
                    r.push(Command::ReleaseWorker);
                }
                r.push(Command::Stop);
                self.worker = WorkerState::Absent;
                assert(r@ =~= shutdown(old(self).holds_worker()));
                r
            },
            ControlMessage::RequestSecureAttention => {
                let mut r: Vec<Command> = Vec::new();
                r.push(Command::SecureAttention);
                assert(r@ =~= seq![Command::SecureAttention]);
                r
            },
            ControlMessage::OverrideSession(sid) => {
                if self.current != Some(sid) {
                    let held = self.worker != WorkerState::Absent;
                    self.current = Some(sid);
                    self.override_session = Some(sid);
                    self.worker = WorkerState::Absent;
                    Self::relaunch_commands(held, true, sid)
                } else {
                    Vec::new()
                }
            },
        }
    }

    /// No connection came within the poll interval. `active` is the active
    /// session (`None` if the query failed) and `worker_exited` whether the
    /// held worker process has ended.
    ///
    /// A failed query changes nothing but the worker's liveness. Otherwise,
    /// if the active session differs from the served one and no override is
    /// in force, the loop switches to it: close notification, then a relaunch
    /// without another one. Failing that, a worker that is absent or has
    /// ended is relaunched for the served session, closing first.
    pub fn on_timeout(&mut self, active: Option<u32>, worker_exited: bool) -> (r: Vec<Command>)
        ensures
            ({
                let s0 = *old(self);
                let s = if s0.worker == WorkerState::Running && worker_exited {
                    LifecycleState { worker: WorkerState::Exited, ..s0 }
                } else {
                    s0
                };
                if active is None {
                    *final(self) == s && r@ == Seq::<Command>::empty()
                } else if active != s.current && !s.override_in_force() {
                    &&& *final(self) == LifecycleState {
                        current: active,
                        worker: WorkerState::Absent,
                        ..s
                    }
                    &&& r@ == seq![Command::NotifyClose] + relaunch(
                        s.holds_worker(),
                        false,
                        active->0,
                    )
                } else if s.worker_down() && s.current is Some {
                    &&& *final(self) == LifecycleState { worker: WorkerState::Absent, ..s }
                    &&& r@ == relaunch(s.holds_worker(), true, s.current->0)
                } else {
                    *final(self) == s && r@ == Seq::<Command>::empty()
                }
            }),
            releases_dropped_handle(*old(self), *final(self), r@),
    {
        proof {
            let held = old(self).holds_worker();
            lemma_release_count_one(Command::NotifyClose);
            if let Some(a) = active {
                lemma_relaunch_releases(held, false, a);
                lemma_release_count_append(seq![Command::NotifyClose], relaunch(held, false, a));
            }
            if let Some(c) = old(self).current {
                lemma_relaunch_releases(held, true, c);
            }
        }
        if self.worker == WorkerState::Running && worker_exited {
            self.worker = WorkerState::Exited;
        }
        let a = match active {
            None => return Vec::new(),
            Some(a) => a,
        };
        let override_in_force = match self.override_session {
            Some(o) => self.current == Some(o),
            None => false,
        };
        let held = self.worker != WorkerState::Absent;
        if self.current != Some(a) && !override_in_force {
            self.current = Some(a);
            self.worker = WorkerState::Absent;
            let mut r: Vec<Command> = Vec::new();
            r.push(Command::NotifyClose);
            let mut rest = Self::relaunch_commands(held, false, a);
            r.append(&mut rest);
            assert(r@ =~= seq![Command::NotifyClose] + relaunch(held, false, a));
            return r;
        }
        if self.worker != WorkerState::Running {
            match self.current {
                Some(c) => {
                    self.worker = WorkerState::Absent;
                    return Self::relaunch_commands(held, true, c);
                },
                None => {},
            }
        }
        Vec::new()
    }

    /// Reports the outcome of a `LaunchWorker` command: a started worker is
    /// running; a failed launch leaves none, to be retried later.
    pub fn worker_launched(&mut self, started: bool)
        requires
            old(self).worker == WorkerState::Absent,
        ensures
            final(self).current == old(self).current,
            final(self).override_session == old(self).override_session,
            final(self).worker == (if started {
                WorkerState::Running
            } else {
                WorkerState::Absent
            }),
    {
        self.worker = if started {
            WorkerState::Running
        } else {
            WorkerState::Absent
        };
    }
}

/// Whether `v` holds `x`.
pub fn vec_contains(v: &Vec<u32>, x: u32) -> (r: bool)
    ensures
        r == v@.contains(x),
{
    let mut i: usize = 0;
    while i < v.len()
        invariant
            i <= v.len(),
            forall|j: int| 0 <= j < i ==> v@[j] != x,
        decreases v.len() - i,
    {
        if v[i] == x {
            return true;
        }
        i += 1;
    }
    false
}

} // verus!
