//! Placement of the floating overlay window. The compact bubble sits near the
//! taskbar; the settings panel grows upwards from it and is kept inside the
//! monitor's work area, and collapsing puts the bubble back exactly where it
//! was before the panel opened.
use vstd::prelude::*;

verus! {

/// Where the overlay has been placed so far.
pub struct OverlayState {
    positioned: bool,
    compact_anchor: Option<(i32, i32)>,
}

impl View for OverlayState {
    type V = (bool, Option<(i32, i32)>);

    closed spec fn view(&self) -> (bool, Option<(i32, i32)>) {
        (self.positioned, self.compact_anchor)
    }
}

/// What the window must do after it has been resized.
#[derive(Clone, Copy, Debug, PartialEq, Eq, Structural)]
pub enum Placement {
    /// First showing: centre it above the taskbar.
    NearTaskbar,
    /// The panel grew: shift it so it stays inside the work area.
    ClampIntoWorkArea,
    /// The panel collapsed: return to this remembered physical position.
    MoveTo(i32, i32),
    /// Leave the window where it is.
    Stay,
}

impl OverlayState {
    /// An overlay that has never been shown.
    pub fn new() -> (r: Self)
        ensures
            r@ == (false, None::<(i32, i32)>),
    {
        OverlayState { positioned: false, compact_anchor: None }
    }
}

/// One resize applied to the placement state: the new state and the action.
/// `anchor_before` is where the window was before this resize, when known.
pub open spec fn placement_step(
    state: (bool, Option<(i32, i32)>),
    expanding: bool,
    anchor_before: Option<(i32, i32)>,
) -> ((bool, Option<(i32, i32)>), Placement) {
    if !state.0 {
        ((true, state.1), Placement::NearTaskbar)
    } else if expanding {
        (
            (true, if state.1 is None {
                anchor_before
            } else {
                state.1
            }),
            Placement::ClampIntoWorkArea,
        )
    } else {
        match state.1 {
            Some(p) => ((true, None), Placement::MoveTo(p.0, p.1)),
            None => ((true, None), Placement::Stay),
        }
    }
}

/// Decides where the overlay goes after it is resized to the compact bubble
/// (`expanding == false`) or to the taller settings panel.
pub fn place_overlay(
    state: &mut OverlayState,
    expanding: bool,
    anchor_before: Option<(i32, i32)>,
) -> (r: Placement)
    ensures
        (final(state)@, r) == placement_step(old(state)@, expanding, anchor_before),
{
    if !state.positioned {
        state.positioned = true;
        Placement::NearTaskbar
    } else if expanding {
        if state.compact_anchor.is_none() {
            state.compact_anchor = anchor_before;
        }
        Placement::ClampIntoWorkArea
    } else {
        match state.compact_anchor {
            Some(p) => {
                state.compact_anchor = None;
                Placement::MoveTo(p.0, p.1)
            },
            None => Placement::Stay,
        }
    }
}

/// The state after a run of expansions, each with its own `anchor_before`.
pub open spec fn expand_many(
    state: (bool, Option<(i32, i32)>),
    anchors: Seq<Option<(i32, i32)>>,
) -> (bool, Option<(i32, i32)>)
    decreases anchors.len(),
{
    if anchors.len() == 0 {
        state
    } else {
        expand_many(placement_step(state, true, anchors[0]).0, anchors.drop_first())
    }
}

/// Once the bubble has been placed, opening the panel from position `p` and
/// then resizing the panel any number of times (from wherever it has been
/// dragged) and finally collapsing it moves the bubble back to exactly `p`,
/// and forgets `p` so the next expansion records a fresh anchor.
pub proof fn lemma_collapse_returns_to_anchor(
    p: (i32, i32),
    later: Seq<Option<(i32, i32)>>,
)
    ensures
        ({
            let opened = placement_step((true, None), true, Some(p)).0;
            let resized = expand_many(opened, later);
            placement_step(resized, false, None) == ((true, None::<(i32, i32)>), Placement::MoveTo(
                p.0,
                p.1,
            ))
        }),
    decreases later.len(),
{
    if later.len() > 0 {
        lemma_expanding_keeps_anchor(p, later);
    }
}

/// Expanding an already expanded panel never changes the remembered anchor.
pub proof fn lemma_expanding_keeps_anchor(p: (i32, i32), anchors: Seq<Option<(i32, i32)>>)
    ensures
        expand_many((true, Some(p)), anchors) == (true, Some(p)),
    decreases anchors.len(),
{
    if anchors.len() > 0 {
        lemma_expanding_keeps_anchor(p, anchors.drop_first());
    }
}

/// `v` limited to `[lo, hi]`, as `i32::clamp` computes it (`lo <= hi`).
pub open spec fn clamp(v: int, lo: int, hi: int) -> int {
    if v < lo {
        lo
    } else if v > hi {
        hi
    } else {
        v
    }
}

pub open spec fn min(a: int, b: int) -> int {
    if a <= b {
        a
    } else {
        b
    }
}

pub open spec fn max(a: int, b: int) -> int {
    if a >= b {
        a
    } else {
        b
    }
}

/// A monitor's work area and a window's size, all in physical pixels.
#[derive(Clone, Copy, Debug)]
pub struct Frame {
    pub area_x: i32,
    pub area_y: i32,
    pub area_width: i32,
    pub area_height: i32,
    pub width: i32,
    pub height: i32,
    pub margin: i32,
}

/// The arithmetic of `frame` stays within `i32`.
pub open spec fn frame_fits(f: Frame) -> bool {
    &&& i32::MIN <= f.area_x + f.margin <= i32::MAX
    &&& i32::MIN <= f.area_y + f.margin <= i32::MAX
    &&& i32::MIN <= f.area_width - f.width <= i32::MAX
    &&& i32::MIN <= f.area_height - f.height <= i32::MAX
    &&& i32::MIN <= f.area_width - f.width - f.margin <= i32::MAX
    &&& i32::MIN <= f.area_height - f.height - f.margin <= i32::MAX
    &&& i32::MIN <= f.area_x + (f.area_width - f.width - f.margin) <= i32::MAX
    &&& i32::MIN <= f.area_y + (f.area_height - f.height - f.margin) <= i32::MAX
    &&& i32::MIN <= f.area_x + max((f.area_width - f.width) / 2, 0) <= i32::MAX
}

/// Top-left corner of a window centred horizontally at the bottom of the
/// work area, `margin` above its lower edge.
pub open spec fn near_taskbar_spec(f: Frame) -> (int, int) {
    (
        f.area_x + max((f.area_width - f.width) / 2, 0),
        f.area_y + (f.area_height - f.height - f.margin),
    )
}

/// The first position is centred above the taskbar: the window's bottom
/// edge sits `margin` above the work area's bottom edge, and the gaps to
/// the work area's left and right edges are equal, the right one a pixel
/// wider when they cannot be; a window wider than the work area starts at
/// its left edge.
pub proof fn lemma_near_taskbar_is_centred(f: Frame)
    ensures
        ({
            let (x, y) = near_taskbar_spec(f);
            let left_gap = x - f.area_x;
            let right_gap = (f.area_x + f.area_width) - (x + f.width);
            &&& y + f.height + f.margin == f.area_y + f.area_height
            &&& f.width <= f.area_width ==> 0 <= right_gap - left_gap <= 1
            &&& f.width > f.area_width ==> x == f.area_x
        }),
{
}

/// Where the window goes when first shown: centred above the taskbar.
pub fn position_near_taskbar(f: Frame) -> (r: (i32, i32))
    requires
        frame_fits(f),
    ensures
        (r.0 as int, r.1 as int) == near_taskbar_spec(f),
{
    let spare = f.area_width - f.width;
    let half = if spare > 0 {
        spare / 2
    } else {
        0
    };
    (f.area_x + half, f.area_y + (f.area_height - f.height - f.margin))
}

/// The position of the window at `pos` moved the least distance that keeps
/// it inside the work area (less `margin`), each axis on its own.
pub open spec fn clamped_position(f: Frame, pos: (i32, i32)) -> (int, int) {
    let min_x = f.area_x + f.margin;
    let max_x = f.area_x + (f.area_width - f.width - f.margin);
    let min_y = f.area_y + f.margin;
    let max_y = f.area_y + (f.area_height - f.height - f.margin);
    (
        clamp(pos.0 as int, min(min_x, max_x), max(max_x, min_x)),
        clamp(pos.1 as int, min(min_y, max_y), max(max_y, min_y)),
    )
}

/// When the work area (less margins) is wide and tall enough for the window,
/// the clamped position keeps the whole window inside it; a window already
/// inside stays where it is.
pub proof fn lemma_clamped_window_fits(f: Frame, pos: (i32, i32))
    requires
        f.area_width - f.width - 2 * f.margin >= 0,
        f.area_height - f.height - 2 * f.margin >= 0,
    ensures
        ({
            let (x, y) = clamped_position(f, pos);
            &&& f.area_x + f.margin <= x
            &&& x + f.width + f.margin <= f.area_x + f.area_width
            &&& f.area_y + f.margin <= y
            &&& y + f.height + f.margin <= f.area_y + f.area_height
        }),
        (f.area_x + f.margin <= pos.0 && pos.0 + f.width + f.margin <= f.area_x + f.area_width
            && f.area_y + f.margin <= pos.1 && pos.1 + f.height + f.margin <= f.area_y
            + f.area_height) ==> clamped_position(f, pos) == (pos.0 as int, pos.1 as int),
{
}

/// The distance between `a` and `b`.
pub open spec fn distance(a: int, b: int) -> int {
    if a >= b {
        a - b
    } else {
        b - a
    }
}

/// Clamping moves the window as little as possible: along each axis the new
/// coordinate lies between the work area's edge plus the margin and the far
/// edge less the window and the margin (in either order when the window is
/// too large), and no coordinate in that range is nearer the old one.
pub proof fn lemma_clamp_moves_least(f: Frame, pos: (i32, i32))
    ensures
        ({
            let (x, y) = clamped_position(f, pos);
            let a = f.area_x + f.margin;
            let b = f.area_x + f.area_width - f.width - f.margin;
            &&& min(a, b) <= x <= max(a, b)
            &&& forall|c: int|
                min(a, b) <= c <= max(a, b) ==> distance(x, pos.0 as int) <= #[trigger] distance(
                    c,
                    pos.0 as int,
                )
        }),
        ({
            let (x, y) = clamped_position(f, pos);
            let a = f.area_y + f.margin;
            let b = f.area_y + f.area_height - f.height - f.margin;
            &&& min(a, b) <= y <= max(a, b)
            &&& forall|c: int|
                min(a, b) <= c <= max(a, b) ==> distance(y, pos.1 as int) <= #[trigger] distance(
                    c,
                    pos.1 as int,
                )
        }),
{
}

/// Shift the window so its whole height stays inside the monitor work area:
/// the new position, or `None` when it is already inside.
pub fn clamp_into_work_area(f: Frame, pos: (i32, i32)) -> (r: Option<(i32, i32)>)
    requires
        frame_fits(f),
    ensures
        r is None <==> clamped_position(f, pos) == (pos.0 as int, pos.1 as int),
        r matches Some(p) ==> (p.0 as int, p.1 as int) == clamped_position(f, pos),
{
    let min_x = f.area_x + f.margin;
    let max_x = f.area_x + (f.area_width - f.width - f.margin);
    let min_y = f.area_y + f.margin;
    let max_y = f.area_y + (f.area_height - f.height - f.margin);
    let lo_x = if min_x <= max_x { min_x } else { max_x };
    let hi_x = if max_x >= min_x { max_x } else { min_x };
    let lo_y = if min_y <= max_y { min_y } else { max_y };
    let hi_y = if max_y >= min_y { max_y } else { min_y };
    let x = if pos.0 < lo_x { lo_x } else if pos.0 > hi_x { hi_x } else { pos.0 };
    let y = if pos.1 < lo_y { lo_y } else if pos.1 > hi_y { hi_y } else { pos.1 };
    if x == pos.0 && y == pos.1 {
        None
    } else {
        Some((x, y))
    }
}

} // verus!
