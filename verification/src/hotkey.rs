//! Edge detection for the global trigger key. The OS repeats key-down events
//! while the key is held; the latch collapses them so that one physical press
//! is exactly one `Down` edge, and a release is reported only after a press.
use vstd::prelude::*;

verus! {

/// The raw state a global-shortcut event reports.
#[derive(Clone, Copy, Debug, PartialEq, Eq, Structural)]
pub enum ShortcutState {
    Pressed,
    Released,
}

/// A paired edge: the start or the end of one physical key press.
#[derive(Clone, Copy, Debug, PartialEq, Eq, Structural)]
pub enum HotkeyEdge {
    Down,
    Up,
}

/// True between a physical key-down and its matching key-up.
pub struct HotkeyLatch {
    down: bool,
}

impl View for HotkeyLatch {
    type V = bool;

    closed spec fn view(&self) -> bool {
        self.down
    }
}

impl HotkeyLatch {
    /// A latch with the key released.
    pub fn new() -> (r: Self)
        ensures
            r@ == false,
    {
        HotkeyLatch { down: false }
    }

    /// Whether the key is currently held.
    pub fn is_down(&self) -> (r: bool)
        ensures
            r == self@,
    {
        self.down
    }
}

/// One event applied to the latch state `down`: the new state, and the edge
/// it emits, if any.
pub open spec fn edge_step(down: bool, state: ShortcutState) -> (bool, Option<HotkeyEdge>) {
    match state {
        ShortcutState::Pressed => (true, if down { None } else { Some(HotkeyEdge::Down) }),
        ShortcutState::Released => (false, if down { Some(HotkeyEdge::Up) } else { None }),
    }
}

/// The latch state after `events`, starting from `down`, and every edge they
/// emit, in order.
pub open spec fn run_edges(down: bool, events: Seq<ShortcutState>) -> (bool, Seq<HotkeyEdge>)
    decreases events.len(),
{
    if events.len() == 0 {
        (down, Seq::empty())
    } else {
        let (next, edge) = edge_step(down, events[0]);
        let (last, rest) = run_edges(next, events.drop_first());
        match edge {
            Some(e) => (last, seq![e] + rest),
            None => (last, rest),
        }
    }
}

/// The `i`-th edge of a strictly alternating sequence that starts from a
/// latch in state `start_down`.
pub open spec fn alternating_edge(start_down: bool, i: int) -> HotkeyEdge {
    if (i % 2 == 0) != start_down {
        HotkeyEdge::Down
    } else {
        HotkeyEdge::Up
    }
}

/// Collapse repeated native events into one paired down/up edge sequence.
pub fn hotkey_edge(latch: &mut HotkeyLatch, state: ShortcutState) -> (r: Option<HotkeyEdge>)
    ensures
        (final(latch)@, r) == edge_step(old(latch)@, state),
{
    match state {
        ShortcutState::Pressed => {
            let was_down = latch.down;
            latch.down = true;
            if was_down {
                None
            } else {
                Some(HotkeyEdge::Down)
            }
        },
        ShortcutState::Released => {
            let was_down = latch.down;
            latch.down = false;
            if was_down {
                Some(HotkeyEdge::Up)
            } else {
                None
            }
        },
    }
}

/// Re-registering the hotkey drops any in-flight key-up, so clear the latch or
/// the next press would be swallowed as a repeat.
pub fn reset_hotkey_latch(latch: &mut HotkeyLatch)
    ensures
        final(latch)@ == false,
{
    latch.down = false;
}

/// Whatever events arrive, the edges emitted alternate strictly, starting
/// with `Down` from a released latch (`Up` from a held one): repeats never
/// produce a second `Down`, and an `Up` only ever answers a `Down`. The latch
/// ends up held exactly when an odd number of edges changed it.
pub proof fn lemma_edges_alternate(down: bool, events: Seq<ShortcutState>)
    ensures
        forall|i: int|
            0 <= i < run_edges(down, events).1.len() ==> #[trigger] run_edges(down, events).1[i]
                == alternating_edge(down, i),
        run_edges(down, events).0 == (down != (run_edges(down, events).1.len() % 2 == 1)),
    decreases events.len(),
{
    if events.len() > 0 {
        let (next, edge) = edge_step(down, events[0]);
        lemma_edges_alternate(next, events.drop_first());
        let rest = run_edges(next, events.drop_first()).1;
        match edge {
            Some(e) => {
                let all = seq![e] + rest;
                assert forall|i: int| 0 <= i < all.len() implies #[trigger] all[i]
                    == alternating_edge(down, i) by {
                    if i > 0 {
                        assert(all[i] == rest[i - 1]);
                    }
                }
            },
            None => {},
        }
    }
}

/// Starting from a released latch, the edges are `Down, Up, Down, Up, ...`.
pub proof fn lemma_released_latch_starts_with_down(events: Seq<ShortcutState>)
    ensures
        forall|i: int|
            0 <= i < run_edges(false, events).1.len() ==> #[trigger] run_edges(false, events).1[i]
                == (if i % 2 == 0 {
                HotkeyEdge::Down
            } else {
                HotkeyEdge::Up
            }),
{
    lemma_edges_alternate(false, events);
    assert forall|i: int| 0 <= i < run_edges(false, events).1.len() implies #[trigger] run_edges(
        false,
        events,
    ).1[i] == (if i % 2 == 0 {
        HotkeyEdge::Down
    } else {
        HotkeyEdge::Up
    }) by {
        assert(run_edges(false, events).1[i] == alternating_edge(false, i));
    }
}

/// `n` copies of the same event.
pub open spec fn repeated(state: ShortcutState, n: nat) -> Seq<ShortcutState> {
    Seq::new(n, |i: int| state)
}

proof fn lemma_repeats_after_edge_are_silent(
    down: bool,
    state: ShortcutState,
    n: nat,
    rest: Seq<ShortcutState>,
)
    requires
        down == (state == ShortcutState::Pressed),
    ensures
        run_edges(down, repeated(state, n) + rest) == run_edges(down, rest),
    decreases n,
{
    if n > 0 {
        let all = repeated(state, n) + rest;
        assert(all[0] == state);
        assert(all.drop_first() == repeated(state, (n - 1) as nat) + rest);
        lemma_repeats_after_edge_are_silent(down, state, (n - 1) as nat, rest);
    }
}

/// A key held down (however many repeated `Pressed` events the OS sends) and
/// then let go (however many `Released` events follow) is exactly one
/// press: one `Down` edge, one `Up` edge, and the latch is released again.
pub proof fn lemma_held_key_is_one_press(presses: nat, releases: nat)
    requires
        presses > 0,
        releases > 0,
    ensures
        run_edges(
            false,
            repeated(ShortcutState::Pressed, presses) + repeated(ShortcutState::Released, releases),
        ) == (false, seq![HotkeyEdge::Down, HotkeyEdge::Up]),
{
    let p = repeated(ShortcutState::Pressed, presses);
    let r = repeated(ShortcutState::Released, releases);
    let all = p + r;
    assert(all[0] == ShortcutState::Pressed);
    assert(all.drop_first() == repeated(ShortcutState::Pressed, (presses - 1) as nat) + r);
    lemma_repeats_after_edge_are_silent(true, ShortcutState::Pressed, (presses - 1) as nat, r);
    assert(r[0] == ShortcutState::Released);
    assert(r.drop_first() == repeated(ShortcutState::Released, (releases - 1) as nat) + Seq::<
        ShortcutState,
    >::empty());
    lemma_repeats_after_edge_are_silent(
        false,
        ShortcutState::Released,
        (releases - 1) as nat,
        Seq::<ShortcutState>::empty(),
    );
    assert(run_edges(true, r) == (false, seq![HotkeyEdge::Up] + Seq::<HotkeyEdge>::empty()));
    assert(seq![HotkeyEdge::Down] + (seq![HotkeyEdge::Up] + Seq::<HotkeyEdge>::empty()) =~= seq![
        HotkeyEdge::Down,
        HotkeyEdge::Up,
    ]);
}

} // verus!
