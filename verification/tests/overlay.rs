use orcavoice::overlay::{
    clamp_into_work_area, place_overlay, position_near_taskbar, Frame, OverlayState, Placement,
};

#[test]
fn first_showing_goes_near_the_taskbar() {
    let mut state = OverlayState::new();
    assert_eq!(place_overlay(&mut state, false, Some((1, 2))), Placement::NearTaskbar);
    assert_eq!(place_overlay(&mut state, false, Some((1, 2))), Placement::Stay);
}

#[test]
fn collapsing_returns_to_where_the_bubble_was() {
    let mut state = OverlayState::new();
    place_overlay(&mut state, false, None);
    assert_eq!(place_overlay(&mut state, true, Some((100, 900))), Placement::ClampIntoWorkArea);
    assert_eq!(place_overlay(&mut state, true, Some((100, 400))), Placement::ClampIntoWorkArea);
    assert_eq!(place_overlay(&mut state, false, Some((100, 400))), Placement::MoveTo(100, 900));
    assert_eq!(place_overlay(&mut state, false, None), Placement::Stay);
}

fn frame() -> Frame {
    Frame {
        area_x: 0,
        area_y: 0,
        area_width: 1920,
        area_height: 1040,
        width: 396,
        height: 660,
        margin: 8,
    }
}

#[test]
fn taskbar_position_is_centred_above_the_bottom() {
    let f = Frame { margin: 30, width: 310, height: 60, ..frame() };
    assert_eq!(position_near_taskbar(f), (805, 950));
    let narrow = Frame { area_width: 100, ..f };
    assert_eq!(position_near_taskbar(narrow).0, 0);
}

#[test]
fn panel_is_pulled_back_into_the_work_area() {
    assert_eq!(clamp_into_work_area(frame(), (800, 900)), Some((800, 372)));
    assert_eq!(clamp_into_work_area(frame(), (800, 300)), None);
    assert_eq!(clamp_into_work_area(frame(), (-50, -50)), Some((8, 8)));
}
