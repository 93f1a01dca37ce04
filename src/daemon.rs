//! The supervisor's decisions: one command in, the registries updated and
//! one effect out for the surrounding event loop to carry out.
use vstd::prelude::*;
use crate::registry::{handle_entries, state_entries, HandleTable, StateTable};
use crate::state::{
    initial_state, opt_state_view, InfoHash, Magnet, TorrentState, TorrentStateView, TorrentStatus,
};
use crate::wire::{Message, MessageView};

verus! {

/// Bounded capacity of the daemon's internal command queue.
pub const COMMAND_QUEUE_CAPACITY: usize = 300;

/// Address that the daemon listens on unless told otherwise.
pub const DEFAULT_LISTENER: &'static str = "127.0.0.1:3030";

pub struct DaemonConfig {
    /// The address that control connections are accepted on.
    pub listen: String,
    /// The directory in which torrents are downloaded.
    pub download_dir: String,
    /// Whether to quit once every torrent is seeding.
    pub quit_after_complete: bool,
}

#[derive(Clone, Copy, Debug, PartialEq, Eq, Structural)]
pub enum DaemonError {
    NoDuplicateTorrent,
    TorrentDoesNotExist,
}

/// The daemon's registries and its auto-quit latches.
pub struct Daemon {
    pub config: DaemonConfig,
    states: StateTable,
    handles: HandleTable,
    /// Set once a torrent has been admitted.
    admitted: bool,
    /// Set once auto-quit has enqueued its `Quit`.
    quit_enqueued: bool,
}

pub ghost struct DaemonView {
    pub listen: Seq<char>,
    pub download_dir: Seq<char>,
    pub states: Map<Seq<u8>, TorrentStateView>,
    pub handles: Map<Seq<u8>, u64>,
    pub quit_after_complete: bool,
    pub admitted: bool,
    pub quit_enqueued: bool,
}

impl View for Daemon {
    type V = DaemonView;

    closed spec fn view(&self) -> DaemonView {
        DaemonView {
            listen: self.config.listen@,
            download_dir: self.config.download_dir@,
            states: state_entries(self.states),
            handles: handle_entries(self.handles),
            quit_after_complete: self.config.quit_after_complete,
            admitted: self.admitted,
            quit_enqueued: self.quit_enqueued,
        }
    }
}

/// Every torrent with a handle has a state, and each state is stored under
/// its own info hash.
pub open spec fn registries_wf(s: DaemonView) -> bool {
    &&& forall|k: Seq<u8>| #[trigger] s.handles.contains_key(k) ==> s.states.contains_key(k)
    &&& forall|k: Seq<u8>| #[trigger] s.states.contains_key(k) ==> s.states[k].info_hash == k
}

/// The two registries hold the same info hashes.
pub open spec fn keys_agree(s: DaemonView) -> bool {
    s.states.dom() == s.handles.dom()
}

pub open spec fn all_seeding(states: Map<Seq<u8>, TorrentStateView>) -> bool {
    forall|k: Seq<u8>| #[trigger]
        states.contains_key(k) ==> states[k].status == TorrentStatus::Seeding
}

/// A command as the supervisor sees it.
#[derive(Debug)]
pub enum Command {
    /// Admit a torrent; its worker will be known by the given handle.
    AddTorrent(Magnet, u64),
    TorrentState(TorrentState),
    RequestTorrentState(InfoHash),
    TogglePause(InfoHash),
    /// Replace a torrent's worker handle.
    MutateTorrent(InfoHash, u64),
    PrintTorrentStatus,
    Quit,
}

pub ghost enum CommandView {
    AddTorrent(Seq<u8>, Seq<char>, u64),
    TorrentState(TorrentStateView),
    RequestTorrentState(Seq<u8>),
    TogglePause(Seq<u8>),
    MutateTorrent(Seq<u8>, u64),
    PrintTorrentStatus,
    Quit,
}

impl View for Command {
    type V = CommandView;

    open spec fn view(&self) -> CommandView {
        match self {
            Command::AddTorrent(m, w) => CommandView::AddTorrent(
                m.info_hash@,
                m.display_name@,
                *w,
            ),
            Command::TorrentState(s) => CommandView::TorrentState(s@),
            Command::RequestTorrentState(h) => CommandView::RequestTorrentState(h@),
            Command::TogglePause(h) => CommandView::TogglePause(h@),
            Command::MutateTorrent(h, w) => CommandView::MutateTorrent(h@, *w),
            Command::PrintTorrentStatus => CommandView::PrintTorrentStatus,
            Command::Quit => CommandView::Quit,
        }
    }
}

/// Whether a published state makes auto-quit enqueue its `Quit`: it is
/// enabled, a torrent has been admitted, it has not fired yet, and after the
/// upsert every torrent is seeding.
pub open spec fn auto_quit_fires(s: DaemonView, st: TorrentStateView) -> bool {
    &&& s.quit_after_complete
    &&& s.admitted
    &&& !s.quit_enqueued
    &&& all_seeding(s.states.insert(st.info_hash, st))
}

/// The registries and latches after one command.
pub open spec fn next_state(s: DaemonView, c: CommandView) -> DaemonView {
    match c {
        CommandView::AddTorrent(h, name, w) => {
            if s.states.contains_key(h) {
                s
            } else {
                DaemonView {
                    states: s.states.insert(h, initial_state(h, name)),
                    handles: s.handles.insert(h, w),
                    admitted: true,
                    ..s
                }
            }
        },
        CommandView::TorrentState(st) => DaemonView {
            states: s.states.insert(st.info_hash, st),
            quit_enqueued: s.quit_enqueued || auto_quit_fires(s, st),
            ..s
        },
        CommandView::MutateTorrent(h, w) => {
            if s.handles.contains_key(h) {
                DaemonView { handles: s.handles.insert(h, w), ..s }
            } else {
                s
            }
        },
        _ => s,
    }
}

/// What the event loop does after a command.
pub enum Effect {
    /// The torrent was admitted: start its worker.
    Admitted,
    /// The command was refused; nothing to do.
    Rejected(DaemonError),
    /// Answer the requester.
    Reply(Option<TorrentState>),
    /// Send `TogglePause` to this worker.
    TogglePause(u64),
    /// Enqueue `Quit` on the daemon's own queue.
    EnqueueQuit,
    /// Print these states.
    PrintStatus(Vec<TorrentState>),
    /// Send `Quit` to these workers and to the disk worker, stop accepting
    /// connections and leave the loop.
    Shutdown(Vec<(InfoHash, u64)>),
    Nothing,
}

/// `v` lists the states of `m`: each listed state is the one stored under
/// its info hash, and each stored state is listed exactly once.
pub open spec fn lists_states(v: Seq<TorrentState>, m: Map<Seq<u8>, TorrentStateView>) -> bool {
    &&& forall|i: int|
        #![trigger v[i]]
        0 <= i < v.len() ==> m.contains_key(v[i]@.info_hash) && m[v[i]@.info_hash] == v[i]@
    &&& forall|k: Seq<u8>|
        #[trigger] m.contains_key(k) ==> exists|i: int|
            #![trigger v[i]]
            0 <= i < v.len() && v[i]@.info_hash == k
    &&& forall|i: int, j: int|
        #![trigger v[i], v[j]]
        0 <= i < j < v.len() ==> v[i]@.info_hash != v[j]@.info_hash
    &&& v.len() == m.len()
}

/// `v` lists the entries of `m`, each exactly once.
pub open spec fn lists_workers(v: Seq<(InfoHash, u64)>, m: Map<Seq<u8>, u64>) -> bool {
    &&& forall|i: int|
        #![trigger v[i]]
        0 <= i < v.len() ==> m.contains_key(v[i].0@) && m[v[i].0@] == v[i].1
    &&& forall|k: Seq<u8>|
        #[trigger] m.contains_key(k) ==> exists|i: int| #![trigger v[i]] 0 <= i < v.len() && v[i].0@ == k
    &&& forall|i: int, j: int| #![trigger v[i], v[j]] 0 <= i < j < v.len() ==> v[i].0@ != v[j].0@
    &&& v.len() == m.len()
}

/// The effect that command `c` has on state `s`.
pub open spec fn effect_agrees(s: DaemonView, c: CommandView, e: Effect) -> bool {
    match c {
        CommandView::AddTorrent(h, _, _) => if s.states.contains_key(h) {
            e == Effect::Rejected(DaemonError::NoDuplicateTorrent)
        } else {
            e is Admitted
        },
        CommandView::TorrentState(st) => if auto_quit_fires(s, st) {
            e is EnqueueQuit
        } else {
            e is Nothing
        },
        CommandView::RequestTorrentState(h) => e matches Effect::Reply(r) && opt_state_view(r) == (
        if s.states.contains_key(h) {
            Some(s.states[h])
        } else {
            None
        }),
        CommandView::TogglePause(h) => if s.handles.contains_key(h) {
            e == Effect::TogglePause(s.handles[h])
        } else {
            e == Effect::Rejected(DaemonError::TorrentDoesNotExist)
        },
        CommandView::MutateTorrent(_, _) => e is Nothing,
        CommandView::PrintTorrentStatus => e matches Effect::PrintStatus(v) && lists_states(
            v@,
            s.states,
        ),
        CommandView::Quit => e matches Effect::Shutdown(v) && lists_workers(v@, s.handles),
    }
}

/// `r` holds `TorrentState` frames only, each of a state of `m`, every
/// state has a frame, and there are as many frames as states: one frame per
/// state.
pub open spec fn frames_of_states(r: Seq<Message>, m: Map<Seq<u8>, TorrentStateView>) -> bool {
    &&& forall|i: int|
        #![trigger r[i]]
        0 <= i < r.len() ==> (r[i]@ matches MessageView::TorrentState(Some(sv)) && m.contains_key(
            sv.info_hash,
        ) && m[sv.info_hash] == sv)
    &&& forall|k: Seq<u8>|
        #[trigger] m.contains_key(k) ==> exists|i: int|
            #![trigger r[i]]
            0 <= i < r.len() && r[i]@ == MessageView::TorrentState(Some(m[k]))
    &&& r.len() == m.len()
}

/// What a control session does with a frame from its client.
pub enum Inbound {
    /// Read the link as a magnet and, if it is one, post `AddTorrent`.
    NewTorrent(String),
    /// Post `RequestTorrentState` and send the answer back in a
    /// `TorrentState` frame.
    Request(InfoHash),
    /// Post this command as it is.
    Post(Command),
    /// Nothing: clients do not publish states.
    Ignore,
}

/// Each frame maps to the command of the same name; a `TorrentState` frame
/// from a client is ignored.
pub open spec fn inbound_agrees(m: MessageView, r: Inbound) -> bool {
    match m {
        MessageView::NewTorrent(link) => r matches Inbound::NewTorrent(l) && l@ == link,
        MessageView::TorrentState(_) => r is Ignore,
        MessageView::RequestTorrentState(h) => r matches Inbound::Request(x) && x@ == h,
        MessageView::TogglePause(h) => r matches Inbound::Post(c) && c@ == CommandView::TogglePause(h),
        MessageView::Quit => r matches Inbound::Post(c) && c@ == CommandView::Quit,
        MessageView::PrintTorrentStatus => r matches Inbound::Post(c) && c@
            == CommandView::PrintTorrentStatus,
    }
}

/// Translates a frame from a control client into what its session does.
pub fn inbound(msg: Message) -> (r: Inbound)
    ensures
        inbound_agrees(msg@, r),
{
    match msg {
        Message::NewTorrent(link) => Inbound::NewTorrent(link),
        Message::TorrentState(_) => Inbound::Ignore,
        Message::RequestTorrentState(h) => Inbound::Request(h),
        Message::TogglePause(h) => Inbound::Post(Command::TogglePause(h)),
        Message::Quit => Inbound::Post(Command::Quit),
        Message::PrintTorrentStatus => Inbound::Post(Command::PrintTorrentStatus),
    }
}

/// Distinct keys that are exactly the keys of `m` are as many as `m` has.
proof fn lemma_distinct_keys_len<V>(ks: Seq<Seq<u8>>, m: Map<Seq<u8>, V>)
    requires
        ks.no_duplicates(),
        forall|i: int| 0 <= i < ks.len() ==> m.contains_key(#[trigger] ks[i]),
        forall|k: Seq<u8>| #[trigger] m.contains_key(k) ==> exists|i: int| 0 <= i < ks.len() && ks[i] == k,
    ensures
        ks.len() == m.len(),
{
    ks.unique_seq_to_set();
    assert(ks.to_set() =~= m.dom());
}

impl Daemon {
    /// Every torrent with a handle has a state, and each state is stored
    /// under its own info hash.
    pub closed spec fn wf(&self) -> bool {
        registries_wf(self@)
    }

    /// A daemon with the given configuration, empty registries and both
    /// latches clear.
    pub fn with_config(config: DaemonConfig) -> (r: Daemon)
        ensures
            r@.states.is_empty(),
            r@.handles.is_empty(),
            r@.quit_after_complete == config.quit_after_complete,
            !r@.admitted,
            !r@.quit_enqueued,
            r.wf(),
            r@.listen == config.listen@,
            r@.download_dir == config.download_dir@,
    {
        Daemon {
            config,
            states: StateTable::new(),
            handles: HandleTable::new(),
            admitted: false,
            quit_enqueued: false,
        }
    }

    /// A daemon that downloads into `download_dir`, listens on the default
    /// address and does not quit by itself.
    pub fn new(download_dir: String) -> (r: Daemon)
        ensures
            r@.states.is_empty(),
            r@.handles.is_empty(),
            !r@.quit_after_complete,
            !r@.admitted,
            !r@.quit_enqueued,
            r.wf(),
            r@.download_dir == download_dir@,
            r@.listen == DEFAULT_LISTENER@,
    {
        let config = DaemonConfig {
            listen: DEFAULT_LISTENER.to_owned(),
            download_dir,
            quit_after_complete: false,
        };
        Daemon::with_config(config)
    }

    /// Admits a torrent: its default state goes into the state registry and
    /// `worker` into the handle registry. A torrent already in the state
    /// registry is refused.
    pub fn add_torrent(&mut self, magnet: &Magnet, worker: u64) -> (r: Result<(), DaemonError>)
        ensures
            final(self)@ == next_state(
                old(self)@,
                CommandView::AddTorrent(magnet.info_hash@, magnet.display_name@, worker),
            ),
            r is Err <==> old(self)@.states.contains_key(magnet.info_hash@),
            r is Err ==> r == Err::<(), DaemonError>(DaemonError::NoDuplicateTorrent),
            old(self).wf() ==> final(self).wf(),
    {
        if self.states.get(&magnet.info_hash).is_some() {
            return Err(DaemonError::NoDuplicateTorrent);
        }
        let state = TorrentState::initial(magnet.info_hash, magnet.display_name.clone());
        self.states.insert(state);
        self.handles.insert(magnet.info_hash, worker);
        self.admitted = true;
        Ok(())
    }

    /// The worker to send `TogglePause` to.
    pub fn toggle_pause(&self, info_hash: &InfoHash) -> (r: Result<u64, DaemonError>)
        ensures
            self@.handles.contains_key(info_hash@) ==> r == Ok::<u64, DaemonError>(
                self@.handles[info_hash@],
            ),
            !self@.handles.contains_key(info_hash@) ==> r == Err::<u64, DaemonError>(
                DaemonError::TorrentDoesNotExist,
            ),
    {
        match self.handles.get(info_hash) {
            Some(w) => Ok(w),
            None => Err(DaemonError::TorrentDoesNotExist),
        }
    }

    /// The latest state of a torrent, if it is known.
    pub fn request_state(&self, info_hash: &InfoHash) -> (r: Option<TorrentState>)
        ensures
            opt_state_view(r) == (if self@.states.contains_key(info_hash@) {
                Some(self@.states[info_hash@])
            } else {
                None
            }),
    {
        self.states.get(info_hash)
    }

    /// Every state in the registry, in no particular order.
    pub fn states(&self) -> (r: Vec<TorrentState>)
        requires
            self.wf(),
        ensures
            lists_states(r@, self@.states),
    {
        let v = self.states.entries();
        let ghost m = self@.states;
        assert(m == state_entries(self.states));
        let mut r: Vec<TorrentState> = Vec::new();
        let mut i: usize = 0;
        while i < v.len()
            invariant
                i <= v@.len(),
                r@.len() == i,
                m == self@.states,
                registries_wf(self@),
                forall|j: int| #![trigger r@[j]] 0 <= j < i ==> r@[j]@ == v@[j].1@,
                forall|j: int|
                    #![trigger v@[j]]
                    0 <= j < v@.len() ==> m.contains_key(v@[j].0@) && m[v@[j].0@] == v@[j].1@,
            decreases v@.len() - i,
        {
            r.push(v[i].1.snapshot());
            i = i + 1;
        }
        assert forall|k: Seq<u8>| #[trigger] m.contains_key(k) implies exists|j: int|
            #![trigger r@[j]]
            0 <= j < r@.len() && r@[j]@.info_hash == k by {
            let j = choose|j: int| #![trigger v@[j]] 0 <= j < v@.len() && v@[j].0@ == k;
            assert(r@[j]@ == v@[j].1@);
        }
        assert forall|j: int| #![trigger r@[j]] 0 <= j < r@.len() implies m.contains_key(
            r@[j]@.info_hash,
        ) && m[r@[j]@.info_hash] == r@[j]@ by {
            assert(r@[j]@ == v@[j].1@);
            assert(m.contains_key(v@[j].0@));
        }
        proof {
            let ks = v@.map_values(|e: (InfoHash, TorrentState)| e.0@);
            assert forall|a: int, b: int|
                0 <= a < ks.len() && 0 <= b < ks.len() && a != b implies ks[a] != ks[b] by {
                if a < b {
                    assert(v@[a].0@ != v@[b].0@);
                } else {
                    assert(v@[b].0@ != v@[a].0@);
                }
            }
            assert forall|a: int| 0 <= a < ks.len() implies m.contains_key(#[trigger] ks[a]) by {
                assert(m.contains_key(v@[a].0@));
            }
            assert forall|k: Seq<u8>| #[trigger] m.contains_key(k) implies exists|a: int|
                0 <= a < ks.len() && ks[a] == k by {
                let a = choose|a: int| #![trigger v@[a]] 0 <= a < v@.len() && v@[a].0@ == k;
                assert(ks[a] == k);
            }
            lemma_distinct_keys_len(ks, m);
            assert forall|a: int, b: int| #![trigger r@[a], r@[b]] 0 <= a < b < r@.len() implies r@[a]@.info_hash
                != r@[b]@.info_hash by {
                assert(r@[a]@ == v@[a].1@);
                assert(r@[b]@ == v@[b].1@);
                assert(m.contains_key(v@[a].0@));
                assert(m.contains_key(v@[b].0@));
                assert(v@[a].0@ != v@[b].0@);
            }
        }
        r
    }

    fn all_seeding_now(&self) -> (r: bool)
        ensures
            r == all_seeding(self@.states),
    {
        let v = self.states.entries();
        let ghost m = self@.states;
        assert(m == state_entries(self.states));
        let mut i: usize = 0;
        while i < v.len()
            invariant
                i <= v@.len(),
                m == self@.states,
                forall|j: int| 0 <= j < i ==> (#[trigger] v@[j]).1@.status == TorrentStatus::Seeding,
                forall|j: int|
                    #![trigger v@[j]]
                    0 <= j < v@.len() ==> m.contains_key(v@[j].0@) && m[v@[j].0@] == v@[j].1@,
                forall|k: Seq<u8>|
                    #[trigger] m.contains_key(k) ==> exists|j: int|
                        #![trigger v@[j]]
                        0 <= j < v@.len() && v@[j].0@ == k,
            decreases v@.len() - i,
        {
            if !v[i].1.is_seeding() {
                assert(m.contains_key(v@[i as int].0@));
                return false;
            }
            i = i + 1;
        }
        assert forall|k: Seq<u8>| #[trigger] m.contains_key(k) implies m[k].status
            == TorrentStatus::Seeding by {
            let j = choose|j: int| #![trigger v@[j]] 0 <= j < v@.len() && v@[j].0@ == k;
            assert(v@[j].1@.status == TorrentStatus::Seeding);
        }
        true
    }

    /// Upserts a published state; returns whether auto-quit fires now, in
    /// which case it will not fire again.
    pub fn on_torrent_state(&mut self, state: TorrentState) -> (r: bool)
        ensures
            final(self)@ == next_state(old(self)@, CommandView::TorrentState(state@)),
            r == auto_quit_fires(old(self)@, state@),
            old(self).wf() ==> final(self).wf(),
    {
        self.states.insert(state);
        if self.config.quit_after_complete && self.admitted && !self.quit_enqueued {
            if self.all_seeding_now() {
                self.quit_enqueued = true;
                return true;
            }
        }
        false
    }

    /// Replaces the worker handle of a known torrent; an unknown one is left
    /// alone.
    pub fn mutate_torrent(&mut self, info_hash: &InfoHash, worker: u64)
        ensures
            final(self)@ == next_state(old(self)@, CommandView::MutateTorrent(info_hash@, worker)),
            old(self).wf() ==> final(self).wf(),
    {
        if self.handles.get(info_hash).is_some() {
            self.handles.insert(*info_hash, worker);
        }
    }

    /// The workers that are told to quit at shutdown, with their torrents.
    pub fn quit(&self) -> (r: Vec<(InfoHash, u64)>)
        ensures
            lists_workers(r@, self@.handles),
    {
        assert(self@.handles == handle_entries(self.handles));
        let r = self.handles.entries();
        proof {
            let m = self@.handles;
            let ks = r@.map_values(|e: (InfoHash, u64)| e.0@);
            assert forall|a: int, b: int|
                0 <= a < ks.len() && 0 <= b < ks.len() && a != b implies ks[a] != ks[b] by {
                if a < b {
                    assert(r@[a].0@ != r@[b].0@);
                } else {
                    assert(r@[b].0@ != r@[a].0@);
                }
            }
            assert forall|a: int| 0 <= a < ks.len() implies m.contains_key(#[trigger] ks[a]) by {
                assert(m.contains_key(r@[a].0@));
            }
            assert forall|k: Seq<u8>| #[trigger] m.contains_key(k) implies exists|a: int|
                0 <= a < ks.len() && ks[a] == k by {
                let a = choose|a: int| #![trigger r@[a]] 0 <= a < r@.len() && r@[a].0@ == k;
                assert(ks[a] == k);
            }
            lemma_distinct_keys_len(ks, m);
        }
        r
    }

    /// The frames pushed to a control client on each tick: one
    /// `TorrentState` frame per registered state.
    pub fn draw(&self) -> (r: Vec<Message>)
        requires
            self.wf(),
        ensures
            frames_of_states(r@, self@.states),
    {
        let v = self.states();
        let ghost m = self@.states;
        let mut r: Vec<Message> = Vec::new();
        let mut i: usize = 0;
        while i < v.len()
            invariant
                i <= v@.len(),
                r@.len() == i,
                m == self@.states,
                lists_states(v@, m),
                forall|j: int|
                    #![trigger r@[j]]
                    0 <= j < i ==> r@[j]@ == MessageView::TorrentState(Some(v@[j]@)),
            decreases v@.len() - i,
        {
            r.push(Message::TorrentState(Some(v[i].snapshot())));
            i = i + 1;
        }
        assert forall|k: Seq<u8>| #[trigger] m.contains_key(k) implies exists|j: int|
            #![trigger r@[j]]
            0 <= j < r@.len() && r@[j]@ == MessageView::TorrentState(Some(m[k])) by {
            let j = choose|j: int| #![trigger v@[j]] 0 <= j < v@.len() && v@[j]@.info_hash == k;
            assert(r@[j]@ == MessageView::TorrentState(Some(v@[j]@)));
        }
        assert forall|j: int| #![trigger r@[j]] 0 <= j < r@.len() implies (r@[j]@ matches MessageView::TorrentState(Some(sv)) && m.contains_key(
            sv.info_hash,
        ) && m[sv.info_hash] == sv) by {
            assert(r@[j]@ == MessageView::TorrentState(Some(v@[j]@)));
        }
        r
    }

    /// Handles one command: updates the registries and says what the event
    /// loop does next.
    pub fn step(&mut self, c: Command) -> (e: Effect)
        requires
            old(self).wf(),
        ensures
            final(self).wf(),
            final(self)@ == next_state(old(self)@, c@),
            effect_agrees(old(self)@, c@, e),
    {
        match c {
            Command::AddTorrent(m, w) => match self.add_torrent(&m, w) {
                Ok(()) => Effect::Admitted,
                Err(err) => Effect::Rejected(err),
            },
            Command::TorrentState(st) => {
                if self.on_torrent_state(st) {
                    Effect::EnqueueQuit
                } else {
                    Effect::Nothing
                }
            },
            Command::RequestTorrentState(h) => Effect::Reply(self.request_state(&h)),
            Command::TogglePause(h) => match self.toggle_pause(&h) {
                Ok(w) => Effect::TogglePause(w),
                Err(err) => Effect::Rejected(err),
            },
            Command::MutateTorrent(h, w) => {
                self.mutate_torrent(&h, w);
                Effect::Nothing
            },
            Command::PrintTorrentStatus => Effect::PrintStatus(self.states()),
            Command::Quit => Effect::Shutdown(self.quit()),
        }
    }
}

} // verus!
