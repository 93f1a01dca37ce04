//! What holds of the supervisor over any sequence of commands.
use vstd::prelude::*;
use crate::daemon::{
    all_seeding, auto_quit_fires, effect_agrees, keys_agree, next_state, registries_wf,
    CommandView, DaemonView, Effect,
};

verus! {

/// The registries and latches after the commands `cs`, one after another.
pub open spec fn run(s: DaemonView, cs: Seq<CommandView>) -> DaemonView
    decreases cs.len(),
{
    if cs.len() == 0 {
        s
    } else {
        run(next_state(s, cs[0]), cs.drop_first())
    }
}

/// Every published state in `cs` is of a torrent that the state registry
/// holds when it arrives (workers publish their own torrent's state only).
pub open spec fn published_by_admitted(s: DaemonView, cs: Seq<CommandView>) -> bool
    decreases cs.len(),
{
    if cs.len() == 0 {
        true
    } else {
        (cs[0] matches CommandView::TorrentState(st) ==> s.states.contains_key(st.info_hash))
            && published_by_admitted(next_state(s, cs[0]), cs.drop_first())
    }
}

/// How many `AddTorrent` of `h` in `cs` succeed.
pub open spec fn admissions(s: DaemonView, cs: Seq<CommandView>, h: Seq<u8>) -> nat
    decreases cs.len(),
{
    if cs.len() == 0 {
        0
    } else {
        (if cs[0] matches CommandView::AddTorrent(h2, _, _) && h2 == h && !s.states.contains_key(h) {
            1nat
        } else {
            0nat
        }) + admissions(next_state(s, cs[0]), cs.drop_first(), h)
    }
}

/// How many times auto-quit enqueues `Quit` during `cs`.
pub open spec fn auto_quits(s: DaemonView, cs: Seq<CommandView>) -> nat
    decreases cs.len(),
{
    if cs.len() == 0 {
        0
    } else {
        (if cs[0] matches CommandView::TorrentState(st) && auto_quit_fires(s, st) {
            1nat
        } else {
            0nat
        }) + auto_quits(next_state(s, cs[0]), cs.drop_first())
    }
}

/// Whether `cs` holds an `AddTorrent` of `h`.
pub open spec fn adds(cs: Seq<CommandView>, h: Seq<u8>) -> bool {
    exists|i: int|
        0 <= i < cs.len() && (#[trigger] cs[i] matches CommandView::AddTorrent(h2, _, _) && h2 == h)
}

/// Every handle has a state, and each state sits under its own info hash,
/// after any sequence of commands.
pub proof fn lemma_registries_stay_wf(s: DaemonView, cs: Seq<CommandView>)
    requires
        registries_wf(s),
    ensures
        registries_wf(run(s, cs)),
    decreases cs.len(),
{
    if cs.len() > 0 {
        let n = next_state(s, cs[0]);
        assert(registries_wf(n));
        lemma_registries_stay_wf(n, cs.drop_first());
    }
}

/// The two registries hold the same info hashes after every command, as
/// long as states are published only for torrents that are registered.
pub proof fn lemma_keys_agree(s: DaemonView, cs: Seq<CommandView>)
    requires
        keys_agree(s),
        published_by_admitted(s, cs),
    ensures
        keys_agree(run(s, cs)),
    decreases cs.len(),
{
    if cs.len() > 0 {
        let n = next_state(s, cs[0]);
        match cs[0] {
            CommandView::AddTorrent(h, _, _) => {
                if !s.states.contains_key(h) {
                    assert(n.states.dom() =~= n.handles.dom());
                }
            },
            CommandView::TorrentState(st) => {
                assert(n.states.dom() =~= n.handles.dom());
            },
            CommandView::MutateTorrent(h, _) => {
                if s.handles.contains_key(h) {
                    assert(n.states.dom() =~= n.handles.dom());
                }
            },
            _ => {},
        }
        lemma_keys_agree(n, cs.drop_first());
    }
}

/// A registered state is never removed: a torrent stays known.
pub proof fn lemma_state_stays(s: DaemonView, cs: Seq<CommandView>, h: Seq<u8>)
    requires
        s.states.contains_key(h),
    ensures
        run(s, cs).states.contains_key(h),
    decreases cs.len(),
{
    if cs.len() > 0 {
        lemma_state_stays(next_state(s, cs[0]), cs.drop_first(), h);
    }
}

/// At most one `AddTorrent` of a given info hash ever succeeds, and none
/// once the hash is registered.
pub proof fn lemma_single_admission(s: DaemonView, cs: Seq<CommandView>, h: Seq<u8>)
    ensures
        admissions(s, cs, h) <= 1,
        s.states.contains_key(h) ==> admissions(s, cs, h) == 0,
    decreases cs.len(),
{
    if cs.len() > 0 {
        let n = next_state(s, cs[0]);
        lemma_single_admission(n, cs.drop_first(), h);
        if cs[0] matches CommandView::AddTorrent(h2, _, _) && h2 == h && !s.states.contains_key(h) {
            assert(n.states.contains_key(h));
        }
    }
}

/// A torrent that is registered is still reported after any commands; one
/// that was neither registered, added, nor published stays unknown.
pub proof fn lemma_request_after_commands(s: DaemonView, cs: Seq<CommandView>, h: Seq<u8>)
    ensures
        s.states.contains_key(h) ==> run(s, cs).states.contains_key(h),
        !s.states.contains_key(h) && !adds(cs, h) && published_by_admitted(s, cs)
            ==> !run(s, cs).states.contains_key(h),
    decreases cs.len(),
{
    if s.states.contains_key(h) {
        lemma_state_stays(s, cs, h);
    }
    if cs.len() > 0 {
        let n = next_state(s, cs[0]);
        let rest = cs.drop_first();
        lemma_request_after_commands(n, rest, h);
        if !adds(cs, h) {
            assert(!adds(rest, h)) by {
                if adds(rest, h) {
                    let i = choose|i: int|
                        0 <= i < rest.len() && (#[trigger] rest[i] matches CommandView::AddTorrent(
                            h2,
                            _,
                            _,
                        ) && h2 == h);
                    assert(cs[i + 1] == rest[i]);
                }
            }
            assert(!(cs[0] matches CommandView::AddTorrent(h2, _, _) && h2 == h)) by {
                if cs[0] matches CommandView::AddTorrent(h2, _, _) && h2 == h {
                    assert(adds(cs, h));
                }
            }
        }
    }
}

/// A `RequestTorrentState` after any commands is answered with a state for
/// a torrent that was registered before them, and with none for a torrent
/// that was neither registered, added, nor published.
pub proof fn lemma_request_answer(s: DaemonView, cs: Seq<CommandView>, h: Seq<u8>, e: Effect)
    requires
        effect_agrees(run(s, cs), CommandView::RequestTorrentState(h), e),
    ensures
        s.states.contains_key(h) ==> e matches Effect::Reply(Some(_)),
        !s.states.contains_key(h) && !adds(cs, h) && published_by_admitted(s, cs) ==> e matches Effect::Reply(None),
{
    lemma_request_after_commands(s, cs, h);
}

/// With auto-quit off, no `Quit` is ever enqueued by it.
pub proof fn lemma_no_auto_quit_when_off(s: DaemonView, cs: Seq<CommandView>)
    requires
        !s.quit_after_complete,
    ensures
        auto_quits(s, cs) == 0,
    decreases cs.len(),
{
    if cs.len() > 0 {
        lemma_no_auto_quit_when_off(next_state(s, cs[0]), cs.drop_first());
    }
}

/// Auto-quit enqueues `Quit` at most once over any commands, and not at all
/// once it has fired.
pub proof fn lemma_auto_quit_once(s: DaemonView, cs: Seq<CommandView>)
    ensures
        auto_quits(s, cs) <= 1,
        s.quit_enqueued ==> auto_quits(s, cs) == 0,
    decreases cs.len(),
{
    if cs.len() > 0 {
        let n = next_state(s, cs[0]);
        lemma_auto_quit_once(n, cs.drop_first());
    }
}

/// With auto-quit on and a torrent admitted, the first published state that
/// leaves every torrent seeding enqueues `Quit`.
pub proof fn lemma_auto_quit_fires(s: DaemonView, st: crate::state::TorrentStateView)
    requires
        s.quit_after_complete,
        s.admitted,
        !s.quit_enqueued,
        all_seeding(next_state(s, CommandView::TorrentState(st)).states),
    ensures
        auto_quit_fires(s, st),
        next_state(s, CommandView::TorrentState(st)).quit_enqueued,
{
}

} // verus!
