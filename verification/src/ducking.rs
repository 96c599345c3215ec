//! Audio ducking decisions. While recording, other processes' audio sessions
//! are muted; on stop exactly those are unmuted again, and recovery (at
//! startup and on stop/cancel) unmutes every session and revives silenced
//! ones so audio can never stay stuck muted. The session enumeration and the
//! mute calls themselves belong to the platform layer; this module decides
//! which sessions to touch and remembers what it muted.
use vstd::prelude::*;

verus! {

/// One active audio render session as the platform reports it.
#[derive(Clone, Copy, Debug)]
pub struct AudioSession {
    pub process_id: u32,
    pub muted: bool,
    /// The session's volume is effectively zero (at most 0.001).
    pub silent: bool,
}

/// What recovery does to one session.
#[derive(Clone, Copy, Debug, PartialEq, Eq, Structural)]
pub struct SessionRepair {
    pub unmute: bool,
    pub reset_volume: bool,
}

/// The processes whose sessions ducking muted and has not yet restored.
pub struct DuckingState {
    muted_process_ids: Vec<u32>,
}

impl View for DuckingState {
    type V = Seq<u32>;

    closed spec fn view(&self) -> Seq<u32> {
        self.muted_process_ids@
    }
}

impl DuckingState {
    /// Nothing muted.
    pub fn new() -> (r: Self)
        ensures
            r@ == Seq::<u32>::empty(),
    {
        DuckingState { muted_process_ids: Vec::new() }
    }

    /// The processes currently muted by ducking, in the order they were muted.
    pub fn muted_process_ids(&self) -> (r: Vec<u32>)
        ensures
            r@ == self@,
    {
        self.muted_process_ids.clone()
    }
}

/// Ducking mutes a session when it belongs to a known process other than
/// this one and is not muted already.
pub open spec fn should_duck(s: AudioSession, current_process_id: u32) -> bool {
    s.process_id != 0 && s.process_id != current_process_id && !s.muted
}

/// The processes ducking mutes among `sessions`, each once, in the order of
/// their first ducked session.
pub open spec fn ducked_ids(sessions: Seq<AudioSession>, current_process_id: u32) -> Seq<u32>
    decreases sessions.len(),
{
    if sessions.len() == 0 {
        Seq::empty()
    } else {
        let prev = ducked_ids(sessions.drop_last(), current_process_id);
        let s = sessions.last();
        if should_duck(s, current_process_id) && !prev.contains(s.process_id) {
            prev.push(s.process_id)
        } else {
            prev
        }
    }
}

fn contains_id(ids: &Vec<u32>, id: u32) -> (r: bool)
    ensures
        r == ids@.contains(id),
{
    let mut i: usize = 0;
    while i < ids.len()
        invariant
            i <= ids@.len(),
            forall|j: int| 0 <= j < i ==> ids@[j] != id,
        decreases ids@.len() - i,
    {
        if ids[i] == id {
            return true;
        }
        i = i + 1;
    }
    false
}

/// Mutes other processes while recording. Returns, for each session, whether
/// to mute it, and remembers the processes it muted (replacing whatever was
/// remembered before).
pub fn duck_audio(
    state: &mut DuckingState,
    sessions: &[AudioSession],
    current_process_id: u32,
) -> (mute: Vec<bool>)
    ensures
        mute@.len() == sessions@.len(),
        forall|i: int|
            0 <= i < sessions@.len() ==> #[trigger] mute@[i] == should_duck(
                sessions@[i],
                current_process_id,
            ),
        final(state)@ == ducked_ids(sessions@, current_process_id),
{
    let mut mute: Vec<bool> = Vec::new();
    let mut ids: Vec<u32> = Vec::new();
    let mut i: usize = 0;
    while i < sessions.len()
        invariant
            i <= sessions@.len(),
            mute@.len() == i,
            forall|j: int|
                0 <= j < i ==> #[trigger] mute@[j] == should_duck(sessions@[j], current_process_id),
            ids@ == ducked_ids(sessions@.take(i as int), current_process_id),
        decreases sessions@.len() - i,
    {
        let s = sessions[i];
        let duck = s.process_id != 0 && s.process_id != current_process_id && !s.muted;
        assert(sessions@.take(i + 1).drop_last() == sessions@.take(i as int));
        if duck && !contains_id(&ids, s.process_id) {
            ids.push(s.process_id);
        }
        mute.push(duck);
        i = i + 1;
    }
    assert(sessions@.take(sessions@.len() as int) == sessions@);
    state.muted_process_ids = ids;
    mute
}

/// Unmutes what ducking muted. Returns, for each session, whether to unmute
/// it (its process was muted by ducking), and forgets the muted processes.
pub fn unduck_audio(state: &mut DuckingState, sessions: &[AudioSession]) -> (unmute: Vec<bool>)
    ensures
        unmute@.len() == sessions@.len(),
        forall|i: int|
            0 <= i < sessions@.len() ==> #[trigger] unmute@[i] == old(state)@.contains(
                sessions@[i].process_id,
            ),
        final(state)@ == Seq::<u32>::empty(),
{
    let mut unmute: Vec<bool> = Vec::new();
    let mut i: usize = 0;
    while i < sessions.len()
        invariant
            i <= sessions@.len(),
            unmute@.len() == i,
            state@ == old(state)@,
            forall|j: int|
                0 <= j < i ==> #[trigger] unmute@[j] == old(state)@.contains(sessions@[j].process_id),
        decreases sessions@.len() - i,
    {
        let found = contains_id(&state.muted_process_ids, sessions[i].process_id);
        unmute.push(found);
        i = i + 1;
    }
    state.muted_process_ids = Vec::new();
    unmute
}

/// Recovery: unmutes every muted session, brings every silenced session back
/// to full volume, and forgets what ducking muted.
pub fn restore_audio(state: &mut DuckingState, sessions: &[AudioSession]) -> (repairs: Vec<
    SessionRepair,
>)
    ensures
        repairs@.len() == sessions@.len(),
        forall|i: int|
            0 <= i < sessions@.len() ==> #[trigger] repairs@[i] == (SessionRepair {
                unmute: sessions@[i].muted,
                reset_volume: sessions@[i].silent,
            }),
        final(state)@ == Seq::<u32>::empty(),
{
    let mut repairs: Vec<SessionRepair> = Vec::new();
    let mut i: usize = 0;
    while i < sessions.len()
        invariant
            i <= sessions@.len(),
            repairs@.len() == i,
            forall|j: int|
                0 <= j < i ==> #[trigger] repairs@[j] == (SessionRepair {
                    unmute: sessions@[j].muted,
                    reset_volume: sessions@[j].silent,
                }),
        decreases sessions@.len() - i,
    {
        repairs.push(SessionRepair { unmute: sessions[i].muted, reset_volume: sessions[i].silent });
        i = i + 1;
    }
    state.muted_process_ids = Vec::new();
    repairs
}

/// The processes ducking remembers are exactly those of the sessions it
/// mutes: each appears once, none is process 0 or this process, and every
/// muted session's process is remembered.
pub proof fn lemma_ducked_ids_are_the_ducked_processes(
    sessions: Seq<AudioSession>,
    current_process_id: u32,
)
    ensures
        ducked_ids(sessions, current_process_id).no_duplicates(),
        forall|k: int|
            0 <= k < ducked_ids(sessions, current_process_id).len() ==> exists|i: int|
                0 <= i < sessions.len() && should_duck(sessions[i], current_process_id)
                    && #[trigger] ducked_ids(sessions, current_process_id)[k]
                    == sessions[i].process_id,
        forall|i: int|
            0 <= i < sessions.len() && should_duck(#[trigger] sessions[i], current_process_id)
                ==> ducked_ids(sessions, current_process_id).contains(sessions[i].process_id),
    decreases sessions.len(),
{
    if sessions.len() > 0 {
        let init = sessions.drop_last();
        lemma_ducked_ids_are_the_ducked_processes(init, current_process_id);
        let prev = ducked_ids(init, current_process_id);
        let ids = ducked_ids(sessions, current_process_id);
        assert forall|k: int| 0 <= k < ids.len() implies exists|i: int|
            0 <= i < sessions.len() && should_duck(sessions[i], current_process_id)
                && #[trigger] ids[k] == sessions[i].process_id by {
            if k < prev.len() {
                let i = choose|i: int|
                    0 <= i < init.len() && should_duck(init[i], current_process_id)
                        && prev[k] == init[i].process_id;
                assert(sessions[i] == init[i]);
            } else {
                assert(ids[k] == sessions[sessions.len() - 1].process_id);
            }
        }
        assert forall|i: int|
            0 <= i < sessions.len() && should_duck(#[trigger] sessions[i], current_process_id)
                implies ids.contains(sessions[i].process_id) by {
            if i < init.len() {
                assert(sessions[i] == init[i]);
                assert(prev.contains(init[i].process_id));
                let k = choose|k: int| 0 <= k < prev.len() && prev[k] == init[i].process_id;
                assert(ids[k] == prev[k]);
            } else {
                if !prev.contains(sessions[i].process_id) {
                    assert(ids[ids.len() - 1] == sessions[i].process_id);
                }
            }
        }
    }
}

/// A session's mute state after `duck_audio`'s decision is applied to it.
pub open spec fn muted_after_duck(s: AudioSession, current_process_id: u32) -> bool {
    s.muted || should_duck(s, current_process_id)
}

/// A session's mute state after ducking over `sessions` and then
/// `unduck_audio`'s decision, which unmutes every session of a process that
/// ducking remembered.
pub open spec fn muted_after_round_trip(
    sessions: Seq<AudioSession>,
    current_process_id: u32,
    i: int,
) -> bool {
    muted_after_duck(sessions[i], current_process_id) && !ducked_ids(
        sessions,
        current_process_id,
    ).contains(sessions[i].process_id)
}

/// Ducking and then unducking the same sessions gives each session its mute
/// state back. The one exception is left out: a session that was already
/// muted while another session of its process was ducked, since unducking
/// unmutes a ducked process as a whole.
pub proof fn lemma_duck_unduck_round_trip(
    sessions: Seq<AudioSession>,
    current_process_id: u32,
    i: int,
)
    requires
        0 <= i < sessions.len(),
        !(sessions[i].muted && ducked_ids(sessions, current_process_id).contains(
            sessions[i].process_id,
        )),
    ensures
        muted_after_round_trip(sessions, current_process_id, i) == sessions[i].muted,
{
    lemma_ducked_ids_are_the_ducked_processes(sessions, current_process_id);
}

} // verus!
