//! The daemon core: the single owner of configuration, enablement, axis
//! state and the client registry.  Every mutation of that state goes
//! through the decision functions here; the caller runs the event loop,
//! performs I/O, and carries out the returned [`Effect`].

use vstd::prelude::*;

use crate::SCALE_LIMIT;
use crate::axis::{AxisCollection, AxisValue};
use crate::command::{state_wf, Command, CommandV};
use crate::config::{lemma_resolve_wf, spec_transform, Config};
use crate::ident::UsbDevice;
use crate::output::OutputMap;

verus! {

/// One connected control client, tracked by its session id.
#[derive(Copy, Clone, Debug, PartialEq, Eq, Structural)]
pub struct ClientSession {
    /// Session id, assigned at accept time.
    pub id: u32,
    /// Whether the session subscribed to periodic state broadcasts.
    pub listening: bool,
}

/// Work the caller must carry out after a decision: the daemon core itself
/// performs no I/O and spawns no tasks.
#[derive(Debug, PartialEq)]
pub enum Effect {
    /// Nothing to do.
    Nothing,
    /// Open the named input device and start ingesting it; answer the
    /// client with [`Daemon::bind_reply`] of the outcome.
    OpenDevice {
        /// Filesystem path of the device event node.
        path: String,
    },
    /// Start the periodic broadcast timer.
    StartTimer,
    /// Cancel the periodic broadcast timer.
    StopTimer,
    /// Persist the current configuration outside the core.
    PersistConfig,
}

/// No two sessions share an id.
pub open spec fn ids_unique(cs: Seq<ClientSession>) -> bool {
    forall|i: int, j: int| 0 <= i < j < cs.len() ==> (#[trigger] cs[i]).id != (#[trigger] cs[j]).id
}

/// Index of the first session with an id, if any.
pub open spec fn index_of_id(cs: Seq<ClientSession>, id: u32) -> Option<int>
    decreases cs.len(),
{
    if cs.len() == 0 {
        None
    } else if cs[0].id == id {
        Some(0int)
    } else {
        match index_of_id(cs.skip(1), id) {
            Some(i) => Some(i + 1),
            None => None,
        }
    }
}

/// The ids of the listening sessions, in registry order.
pub open spec fn listening_ids(cs: Seq<ClientSession>) -> Seq<u32>
    decreases cs.len(),
{
    if cs.len() == 0 {
        Seq::empty()
    } else if cs[0].listening {
        seq![cs[0].id] + listening_ids(cs.skip(1))
    } else {
        listening_ids(cs.skip(1))
    }
}

/// The registry with the listening flag of one session raised; unchanged
/// when the id is not registered.
pub open spec fn mark_listening(cs: Seq<ClientSession>, id: u32) -> Seq<ClientSession> {
    match index_of_id(cs, id) {
        Some(j) => cs.update(j, ClientSession { id, listening: true }),
        None => cs,
    }
}

/// Whether any session is subscribed to broadcasts.
pub open spec fn has_listener(cs: Seq<ClientSession>) -> bool {
    exists|i: int| 0 <= i < cs.len() && (#[trigger] cs[i]).listening
}

/// The registry without the first session of an id; unchanged when the id
/// is not registered.
pub open spec fn remove_session(cs: Seq<ClientSession>, id: u32) -> Seq<ClientSession> {
    match index_of_id(cs, id) {
        Some(j) => cs.remove(j),
        None => cs,
    }
}

/// The daemon state: owned by one task; everything else reads snapshots or
/// sends requests through the caller's channels.
#[derive(Debug)]
pub struct Daemon {
    /// The live remapping configuration.
    pub config: Config,
    /// The output emission gate.
    pub enabled: bool,
    /// Last known normalized value of every axis.
    pub state: AxisCollection<i64>,
    /// Connected sessions, in accept order.
    pub clients: Vec<ClientSession>,
    /// The id the next accepted session gets; wraps on overflow.
    pub next_id: u32,
    /// Whether axis state changed since the last broadcast tick.
    pub changed: bool,
    /// Whether the periodic broadcast timer is running.
    pub timer_running: bool,
}

/// The messages one broadcast tick sends: the listening sessions' ids when
/// state changed since the last tick, nothing otherwise.
pub open spec fn spec_tick_msgs(d: Daemon) -> Seq<u32> {
    if d.changed {
        listening_ids(d.clients@)
    } else {
        Seq::empty()
    }
}

/// The daemon state after one broadcast tick: the change flag cleared.
pub open spec fn spec_tick_next(d: Daemon) -> Daemon {
    if d.changed {
        Daemon { changed: false, ..d }
    } else {
        d
    }
}

impl Daemon {
    /// The core's invariant: a well-formed configuration, a normalized
    /// snapshot, and unique session ids.
    pub open spec fn wf(self) -> bool {
        &&& self.config@.wf()
        &&& state_wf(self.state)
        &&& ids_unique(self.clients@)
    }

    /// A fresh daemon over a configuration: output enabled, every axis at
    /// rest, no clients, no pending broadcast, timer stopped.
    pub fn new(config: Config) -> (r: Daemon)
        requires
            config@.wf(),
        ensures
            r == (Daemon {
                config,
                enabled: true,
                state: AxisCollection { x: 0i64, y: 0i64, z: 0i64, rx: 0i64, ry: 0i64, rz: 0i64 },
                clients: r.clients,
                next_id: 0,
                changed: false,
                timer_running: false,
            }),
            r.clients@ == Seq::<ClientSession>::empty(),
            r.wf(),
    {
        Daemon {
            config,
            enabled: true,
            state: AxisCollection { x: 0, y: 0, z: 0, rx: 0, ry: 0, rz: 0 },
            clients: Vec::new(),
            next_id: 0,
            changed: false,
            timer_running: false,
        }
    }

    /// Registers a newly accepted session and returns its id.  Ids are
    /// assigned monotonically and wrap on overflow; a wrapped id replaces
    /// the stale session that still held it.
    pub fn attach_client(&mut self) -> (id: u32)
        requires
            old(self).wf(),
        ensures
            id == old(self).next_id,
            final(self).next_id == (if old(self).next_id == 0xffff_ffffu32 {
                0u32
            } else {
                (old(self).next_id + 1) as u32
            }),
            final(self).clients@ == (match index_of_id(old(self).clients@, id) {
                Some(j) => old(self).clients@.update(
                    j,
                    ClientSession { id, listening: false },
                ),
                None => old(self).clients@.push(ClientSession { id, listening: false }),
            }),
            final(self).config == old(self).config,
            final(self).enabled == old(self).enabled,
            final(self).state == old(self).state,
            final(self).changed == old(self).changed,
            final(self).timer_running == old(self).timer_running,
            final(self).wf(),
    {
        let id = self.next_id;
        self.next_id = self.next_id.wrapping_add(1);
        let n = self.clients.len();
        let mut i: usize = 0;
        while i < n
            invariant
                i <= n,
                n == self.clients@.len(),
                old(self).wf(),
                id == old(self).next_id,
                self.clients@ == old(self).clients@,
                self.config == old(self).config,
                self.enabled == old(self).enabled,
                self.state == old(self).state,
                self.changed == old(self).changed,
                self.timer_running == old(self).timer_running,
                ids_unique(self.clients@),
                self.next_id == (if id == 0xffff_ffffu32 {
                    0u32
                } else {
                    (id + 1) as u32
                }),
                forall|k: int| 0 <= k < i ==> (#[trigger] self.clients@[k]).id != id,
            decreases n - i,
        {
            if self.clients[i].id == id {
                let fresh = ClientSession { id, listening: false };
                proof {
                    lemma_index_of_id_at(self.clients@, id, i as int);
                }
                self.clients.set(i, fresh);
                proof {
                    lemma_ids_unique_update(old(self).clients@, i as int, fresh);
                }
                return id;
            }
            i += 1;
        }
        let fresh = ClientSession { id, listening: false };
        proof {
            lemma_index_of_id_none(self.clients@, id);
            lemma_ids_unique_push(self.clients@, fresh);
        }
        self.clients.push(fresh);
        id
    }

    /// One decision of the control table: the reply owed to the client (if
    /// any) and the outside work the caller must perform.  Requests that
    /// are pure reports get no reply.
    pub fn handle_command(&mut self, client: u32, cmd: Command) -> (r: (Option<Command>, Effect))
        requires
            old(self).wf(),
            cmd@.wf(),
        ensures
            final(self).wf(),
            final(self).next_id == old(self).next_id,
            final(self).state == old(self).state,
            final(self).changed == old(self).changed,
            match cmd@ {
                CommandV::Ping => r.0 == Some(Command::Okay) && r.1 is Nothing && *final(self)
                    == *old(self),
                CommandV::Bind { event } => {
                    &&& r.0 is None
                    &&& r.1 matches Effect::OpenDevice { path } && path@ == event
                    &&& *final(self) == *old(self)
                },
                CommandV::Listen => {
                    &&& r.0 == Some(Command::Okay)
                    &&& final(self).clients@ == mark_listening(old(self).clients@, client)
                    &&& final(self).timer_running
                    &&& r.1 == (if old(self).timer_running {
                        Effect::Nothing
                    } else {
                        Effect::StartTimer
                    })
                    &&& final(self).config == old(self).config
                    &&& final(self).enabled == old(self).enabled
                },
                CommandV::GetState => {
                    &&& r.0 == Some(Command::State(old(self).state))
                    &&& r.1 is Nothing
                    &&& *final(self) == *old(self)
                },
                CommandV::GetConfig => {
                    &&& r.0 matches Some(c) && c@ == CommandV::SetConfig(old(self).config@)
                    &&& r.1 is Nothing
                    &&& *final(self) == *old(self)
                },
                CommandV::Enable { enabled } => {
                    &&& r.0 == Some(Command::Okay)
                    &&& r.1 is Nothing
                    &&& final(self).enabled == enabled
                    &&& final(self).config == old(self).config
                    &&& final(self).clients == old(self).clients
                    &&& final(self).timer_running == old(self).timer_running
                },
                CommandV::SetConfig(c) => {
                    &&& r.0 == Some(Command::Okay)
                    &&& r.1 is Nothing
                    &&& final(self).config@ == c
                    &&& final(self).enabled == old(self).enabled
                    &&& final(self).clients == old(self).clients
                    &&& final(self).timer_running == old(self).timer_running
                },
                CommandV::WriteConfig => {
                    &&& r.0 is None
                    &&& r.1 is PersistConfig
                    &&& *final(self) == *old(self)
                },
                CommandV::Disconnect => {
                    &&& r.0 is None
                    &&& final(self).clients@ == remove_session(old(self).clients@, client)
                    &&& final(self).timer_running == (old(self).timer_running && has_listener(
                        final(self).clients@,
                    ))
                    &&& r.1 == (if old(self).timer_running && !final(self).timer_running {
                        Effect::StopTimer
                    } else {
                        Effect::Nothing
                    })
                    &&& final(self).config == old(self).config
                    &&& final(self).enabled == old(self).enabled
                },
                _ => r.0 is None && r.1 is Nothing && *final(self) == *old(self),
            },
    {
        match cmd {
            Command::Ping => (Some(Command::Okay), Effect::Nothing),
            Command::Bind { event } => (None, Effect::OpenDevice { path: event }),
            Command::Listen => {
                self.mark_client_listening(client);
                let effect = if self.timer_running {
                    Effect::Nothing
                } else {
                    Effect::StartTimer
                };
                self.timer_running = true;
                (Some(Command::Okay), effect)
            },
            Command::GetState => (Some(Command::State(self.state)), Effect::Nothing),
            Command::GetConfig => (
                Some(Command::SetConfig(self.config.clone())),
                Effect::Nothing,
            ),
            Command::Enable { enabled } => {
                self.enabled = enabled;
                (Some(Command::Okay), Effect::Nothing)
            },
            Command::SetConfig(c) => {
                self.config = c;
                (Some(Command::Okay), Effect::Nothing)
            },
            Command::WriteConfig => (None, Effect::PersistConfig),
            Command::Disconnect => {
                self.remove_client(client);
                let listening = self.any_listening();
                let effect = if self.timer_running && !listening {
                    Effect::StopTimer
                } else {
                    Effect::Nothing
                };
                self.timer_running = self.timer_running && listening;
                (None, effect)
            },
            _ => (None, Effect::Nothing),
        }
    }

    /// Raises the listening flag of one session.
    fn mark_client_listening(&mut self, client: u32)
        requires
            old(self).wf(),
        ensures
            final(self).clients@ == mark_listening(old(self).clients@, client),
            *final(self) == (Daemon { clients: final(self).clients, ..*old(self) }),
            final(self).wf(),
    {
        let n = self.clients.len();
        let mut i: usize = 0;
        while i < n
            invariant
                i <= n,
                n == self.clients@.len(),
                old(self).wf(),
                *self == *old(self),
                forall|k: int| 0 <= k < i ==> (#[trigger] self.clients@[k]).id != client,
            decreases n - i,
        {
            if self.clients[i].id == client {
                proof {
                    lemma_index_of_id_at(self.clients@, client, i as int);
                }
                let updated = ClientSession { id: client, listening: true };
                self.clients.set(i, updated);
                proof {
                    lemma_ids_unique_update(old(self).clients@, i as int, updated);
                }
                return ;
            }
            i += 1;
        }
        proof {
            lemma_index_of_id_none(self.clients@, client);
        }
    }

    /// Removes the session of an id, if registered.
    fn remove_client(&mut self, client: u32)
        requires
            old(self).wf(),
        ensures
            final(self).clients@ == remove_session(old(self).clients@, client),
            *final(self) == (Daemon { clients: final(self).clients, ..*old(self) }),
            final(self).wf(),
    {
        let n = self.clients.len();
        let mut i: usize = 0;
        while i < n
            invariant
                i <= n,
                n == self.clients@.len(),
                old(self).wf(),
                *self == *old(self),
                forall|k: int| 0 <= k < i ==> (#[trigger] self.clients@[k]).id != client,
            decreases n - i,
        {
            if self.clients[i].id == client {
                proof {
                    lemma_index_of_id_at(self.clients@, client, i as int);
                }
                self.clients.remove(i);
                proof {
                    lemma_ids_unique_remove(old(self).clients@, i as int);
                }
                return ;
            }
            i += 1;
        }
        proof {
            lemma_index_of_id_none(self.clients@, client);
        }
    }

    /// Whether any session is listening.
    fn any_listening(&self) -> (r: bool)
        ensures
            r == has_listener(self.clients@),
    {
        let n = self.clients.len();
        let mut i: usize = 0;
        while i < n
            invariant
                i <= n,
                n == self.clients@.len(),
                forall|k: int| 0 <= k < i ==> !(#[trigger] self.clients@[k]).listening,
            decreases n - i,
        {
            if self.clients[i].listening {
                return true;
            }
            i += 1;
        }
        false
    }

    /// The reply a bind attempt earns once the caller has tried to open
    /// the device: positive on success, negative on failure.
    pub fn bind_reply(ok: bool) -> (r: Command)
        ensures
            r == (if ok {
                Command::Okay
            } else {
                Command::Failed
            }),
    {
        if ok {
            Command::Okay
        } else {
            Command::Failed
        }
    }

    /// Handles one normalized device sample.  The sample always updates
    /// the axis snapshot and marks it changed; when the output gate is
    /// open, the resolved channel and the transformed value are returned
    /// for emission — state tracking and emission are independent.
    pub fn handle_axis_event(&mut self, dev: &UsbDevice, av: AxisValue) -> (out: Option<
        (OutputMap, i64),
    >)
        requires
            old(self).wf(),
            av.wf(),
        ensures
            final(self).state == old(self).state.spec_set(av.a, av.v),
            final(self).changed,
            *final(self) == (Daemon {
                state: final(self).state,
                changed: true,
                ..*old(self)
            }),
            final(self).wf(),
            out is Some <==> old(self).enabled,
            out matches Some((m, v)) ==> {
                &&& m == old(self).config.spec_resolve(*dev).spec_get(av.a).map
                &&& v == spec_transform(
                    old(self).config.spec_resolve(*dev).spec_get(av.a),
                    av.v as int,
                )
                &&& -SCALE_LIMIT <= v <= SCALE_LIMIT
            },
    {
        proof {
            lemma_resolve_wf(self.config, *dev);
        }
        let cfg = *self.config.resolve(dev).get(av.a);
        let out = if self.enabled {
            Some((cfg.map, cfg.transform(av.v)))
        } else {
            None
        };
        self.state.set(av.a, av.v);
        self.changed = true;
        out
    }

    /// One broadcast tick: when state changed since the last tick, returns
    /// the listening sessions' ids (each exactly once, in registry order)
    /// and clears the change flag; otherwise returns nothing and changes
    /// nothing.
    pub fn handle_tick(&mut self) -> (ids: Vec<u32>)
        requires
            old(self).wf(),
        ensures
            ids@ == spec_tick_msgs(*old(self)),
            *final(self) == spec_tick_next(*old(self)),
            final(self).wf(),
    {
        if !self.changed {
            return Vec::new();
        }
        self.changed = false;
        let n = self.clients.len();
        let mut ids: Vec<u32> = Vec::new();
        let mut i: usize = 0;
        proof {
            assert(self.clients@.skip(0) =~= self.clients@);
            assert(ids@ + listening_ids(self.clients@) =~= listening_ids(self.clients@));
        }
        while i < n
            invariant
                i <= n,
                n == self.clients@.len(),
                *self == *final(self),
                listening_ids(self.clients@) == ids@ + listening_ids(
                    self.clients@.skip(i as int),
                ),
            decreases n - i,
        {
            proof {
                assert(self.clients@.skip(i as int)[0] == self.clients@[i as int]);
                assert(self.clients@.skip(i as int).skip(1) =~= self.clients@.skip(i + 1));
            }
            let ghost ids0 = ids@;
            let c = self.clients[i];
            if c.listening {
                ids.push(c.id);
            }
            i += 1;
            proof {
                if c.listening {
                    assert(ids0 + (seq![c.id] + listening_ids(self.clients@.skip(i as int)))
                        =~= ids@ + listening_ids(self.clients@.skip(i as int)));
                }
            }
        }
        proof {
            assert(self.clients@.skip(n as int) =~= Seq::<ClientSession>::empty());
            assert(listening_ids(Seq::<ClientSession>::empty()) =~= Seq::<u32>::empty());
            assert(ids@ + Seq::<u32>::empty() =~= ids@);
        }
        ids
    }

    /// The broadcast message for the current snapshot.
    pub fn state_message(&self) -> (r: Command)
        requires
            self.wf(),
        ensures
            r == Command::State(self.state),
            r@.wf(),
    {
        Command::State(self.state)
    }
}

/// The first session with the scanned id stands where the scan stopped.
proof fn lemma_index_of_id_at(cs: Seq<ClientSession>, id: u32, i: int)
    requires
        0 <= i < cs.len(),
        forall|k: int| 0 <= k < i ==> (#[trigger] cs[k]).id != id,
        cs[i].id == id,
    ensures
        index_of_id(cs, id) == Some(i),
    decreases i,
{
    if i > 0 {
        assert forall|k: int| 0 <= k < i - 1 implies (#[trigger] cs.skip(1)[k]).id != id by {
            assert(cs.skip(1)[k] == cs[k + 1]);
        }
        assert(cs.skip(1)[i - 1] == cs[i]);
        lemma_index_of_id_at(cs.skip(1), id, i - 1);
    }
}

/// A registry without the scanned id has no session of it.
proof fn lemma_index_of_id_none(cs: Seq<ClientSession>, id: u32)
    requires
        forall|k: int| 0 <= k < cs.len() ==> (#[trigger] cs[k]).id != id,
    ensures
        index_of_id(cs, id) is None,
    decreases cs.len(),
{
    if cs.len() > 0 {
        assert forall|k: int| 0 <= k < cs.skip(1).len() implies (#[trigger] cs.skip(1)[k]).id
            != id by {
            assert(cs.skip(1)[k] == cs[k + 1]);
        }
        lemma_index_of_id_none(cs.skip(1), id);
    }
}

/// Replacing a session with one of the same id keeps ids unique.
proof fn lemma_ids_unique_update(cs: Seq<ClientSession>, i: int, s: ClientSession)
    requires
        ids_unique(cs),
        0 <= i < cs.len(),
        cs[i].id == s.id,
    ensures
        ids_unique(cs.update(i, s)),
{
}

/// Appending a session with a fresh id keeps ids unique.
proof fn lemma_ids_unique_push(cs: Seq<ClientSession>, s: ClientSession)
    requires
        ids_unique(cs),
        forall|k: int| 0 <= k < cs.len() ==> (#[trigger] cs[k]).id != s.id,
    ensures
        ids_unique(cs.push(s)),
{
}

/// Removing a session keeps ids unique.
proof fn lemma_ids_unique_remove(cs: Seq<ClientSession>, i: int)
    requires
        ids_unique(cs),
        0 <= i < cs.len(),
    ensures
        ids_unique(cs.remove(i)),
{
    assert forall|a: int, b: int|
        0 <= a < b < cs.remove(i).len() implies (#[trigger] cs.remove(i)[a]).id != (#[trigger] cs
        .remove(i)[b]).id by {
        let a0 = if a < i {
            a
        } else {
            a + 1
        };
        let b0 = if b < i {
            b
        } else {
            b + 1
        };
        assert(cs.remove(i)[a] == cs[a0]);
        assert(cs.remove(i)[b] == cs[b0]);
    }
}

/// A session id is broadcast to exactly when a listening session holds it.
proof fn lemma_listening_ids_contains(cs: Seq<ClientSession>, x: u32)
    ensures
        listening_ids(cs).contains(x) <==> exists|i: int|
            0 <= i < cs.len() && (#[trigger] cs[i]).id == x && cs[i].listening,
    decreases cs.len(),
{
    if cs.len() > 0 {
        lemma_listening_ids_contains(cs.skip(1), x);
        assert(forall|i: int| 0 <= i < cs.skip(1).len() ==> #[trigger] cs.skip(1)[i] == cs[i + 1]);
        if exists|i: int| 0 <= i < cs.len() && (#[trigger] cs[i]).id == x && cs[i].listening {
            let i = choose|i: int| 0 <= i < cs.len() && (#[trigger] cs[i]).id == x
                && cs[i].listening;
            if i == 0 {
                assert(listening_ids(cs)[0] == x);
                assert(listening_ids(cs).contains(x));
            } else {
                assert(cs.skip(1)[i - 1] == cs[i]);
                assert(listening_ids(cs.skip(1)).contains(x));
                let j = choose|j: int| 0 <= j < listening_ids(cs.skip(1)).len()
                    && listening_ids(cs.skip(1))[j] == x;
                if cs[0].listening {
                    assert(listening_ids(cs)[j + 1] == x);
                } else {
                    assert(listening_ids(cs)[j] == x);
                }
                assert(listening_ids(cs).contains(x));
            }
        }
        if listening_ids(cs).contains(x) {
            let j = choose|j: int| 0 <= j < listening_ids(cs).len() && listening_ids(cs)[j] == x;
            if cs[0].listening {
                if j == 0 {
                    assert(cs[0].id == x && cs[0].listening);
                } else {
                    assert(listening_ids(cs.skip(1))[j - 1] == x);
                    assert(listening_ids(cs.skip(1)).contains(x));
                }
            } else {
                assert(listening_ids(cs.skip(1)).contains(x));
            }
        }
    }
}

/// With unique session ids, no id is broadcast to twice.
proof fn lemma_listening_ids_distinct(cs: Seq<ClientSession>)
    requires
        ids_unique(cs),
    ensures
        forall|a: int, b: int|
            0 <= a < b < listening_ids(cs).len() ==> listening_ids(cs)[a] != listening_ids(cs)[b],
    decreases cs.len(),
{
    if cs.len() > 0 {
        assert(forall|i: int| 0 <= i < cs.skip(1).len() ==> #[trigger] cs.skip(1)[i] == cs[i + 1]);
        lemma_listening_ids_distinct(cs.skip(1));
        if cs[0].listening {
            assert forall|a: int, b: int|
                0 <= a < b < listening_ids(cs).len() implies listening_ids(cs)[a] != listening_ids(
                cs,
            )[b] by {
                if a == 0 {
                    assert(listening_ids(cs)[b] == listening_ids(cs.skip(1))[b - 1]);
                    lemma_listening_ids_contains(cs.skip(1), cs[0].id);
                    assert(listening_ids(cs.skip(1)).contains(listening_ids(cs.skip(1))[b - 1]));
                } else {
                    assert(listening_ids(cs)[a] == listening_ids(cs.skip(1))[a - 1]);
                    assert(listening_ids(cs)[b] == listening_ids(cs.skip(1))[b - 1]);
                }
            }
        }
    }
}

/// Broadcast throttling: on a tick after state changed, every listening
/// session's id is broadcast to exactly once — it appears in the tick's
/// id list, and the list holds no id twice; and a tick that follows with
/// no event in between broadcasts nothing at all.
pub proof fn lemma_tick_throttle(d: Daemon, j: int)
    requires
        d.wf(),
        d.changed,
        0 <= j < d.clients@.len(),
        d.clients@[j].listening,
    ensures
        spec_tick_msgs(d).contains(d.clients@[j].id),
        forall|a: int, b: int|
            0 <= a < b < spec_tick_msgs(d).len() ==> spec_tick_msgs(d)[a] != spec_tick_msgs(d)[b],
        spec_tick_msgs(spec_tick_next(d)) == Seq::<u32>::empty(),
{
    lemma_listening_ids_contains(d.clients@, d.clients@[j].id);
    lemma_listening_ids_distinct(d.clients@);
}

/// Only listening sessions are broadcast to: an id in a tick's list always
/// belongs to a listening session.
pub proof fn lemma_tick_only_listeners(d: Daemon, x: u32)
    requires
        spec_tick_msgs(d).contains(x),
    ensures
        d.changed,
        exists|i: int| 0 <= i < d.clients@.len() && (#[trigger] d.clients@[i]).id == x
            && d.clients@[i].listening,
{
    lemma_listening_ids_contains(d.clients@, x);
}

} // verus!
