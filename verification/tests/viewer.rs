use nanotracer::float_bits::Vec3;
use nanotracer::view::{
    bounding_box, expired_frames, next_version, pause_change, pick_format, splat_update,
    surface_extent, viewport_resize, viewport_side, Button, FlyStep, InputState, Key, SplatUpdate,
    Tab, TrainStats, TrainingFeed, ViewAction, ViewEvent,
};

fn b(x: f32) -> u32 {
    x.to_bits()
}

fn cursor(x: f64, y: f64) -> ViewEvent {
    ViewEvent::CursorMoved { x: x.to_bits(), y: y.to_bits(), captured: false }
}

fn button(button: Button, pressed: bool) -> ViewEvent {
    ViewEvent::MouseInput { button, pressed, captured: false }
}

fn key(key: Key, pressed: bool) -> ViewEvent {
    ViewEvent::Keyboard { key, pressed, consumed: false }
}

#[test]
fn a_drag_starts_at_rest() {
    let mut input = InputState::default();
    assert_eq!(input.window_event(cursor(5.0, 5.0)), ViewAction::Nothing);
    input.window_event(button(Button::Left, true));
    assert_eq!(input.window_event(cursor(10.0, 20.0)), ViewAction::Nothing);
    assert_eq!(
        input.window_event(cursor(11.0, 21.0)),
        ViewAction::Orbit { from_x: 10.0f64.to_bits(), from_y: 20.0f64.to_bits() }
    );
    input.window_event(button(Button::Left, false));
    assert_eq!((input.last_x, input.last_y), (0, 0));
}

#[test]
fn the_right_button_pans() {
    let mut input = InputState::default();
    input.window_event(button(Button::Right, true));
    input.window_event(cursor(1.0, 2.0));
    assert_eq!(
        input.window_event(cursor(3.0, 4.0)),
        ViewAction::Pan { from_x: 1.0f64.to_bits(), from_y: 2.0f64.to_bits() }
    );
    input.window_event(button(Button::Left, true));
    input.window_event(button(Button::Right, false));
    assert_eq!(input.last_x, 3.0f64.to_bits());
    assert_eq!(
        input.window_event(cursor(5.0, 6.0)),
        ViewAction::Orbit { from_x: 3.0f64.to_bits(), from_y: 4.0f64.to_bits() }
    );
    input.window_event(button(Button::Other, true));
    input.window_event(button(Button::Left, false));
    assert_eq!(input, InputState::default());
}

#[test]
fn a_negative_zero_is_no_position() {
    let mut input = InputState::default();
    input.window_event(button(Button::Left, true));
    input.window_event(cursor(-0.0, 0.0));
    assert_eq!(input.window_event(cursor(3.0, 4.0)), ViewAction::Nothing);
}

#[test]
fn captured_input_is_left_alone() {
    let mut input = InputState::default();
    let events = [
        ViewEvent::MouseInput { button: Button::Left, pressed: true, captured: true },
        ViewEvent::MouseWheel { captured: true },
        ViewEvent::Keyboard { key: Key::Escape, pressed: true, consumed: true },
        ViewEvent::Keyboard { key: Key::W, pressed: true, consumed: true },
    ];
    for e in events {
        assert_eq!(input.window_event(e), ViewAction::Nothing);
        assert_eq!(input, InputState::default());
    }
}

#[test]
fn keys_fly_and_escape_leaves() {
    let mut input = InputState::default();
    for k in [Key::Q, Key::A, Key::W, Key::E] {
        input.window_event(key(k, true));
    }
    assert_eq!(
        input.fly_steps(),
        vec![FlyStep::Forward, FlyStep::Left, FlyStep::Up, FlyStep::Down]
    );
    input.window_event(key(Key::W, false));
    input.window_event(key(Key::S, true));
    input.window_event(key(Key::D, true));
    assert_eq!(
        input.fly_steps(),
        vec![FlyStep::Back, FlyStep::Right, FlyStep::Left, FlyStep::Up, FlyStep::Down]
    );
    assert_eq!(input.window_event(key(Key::Other, true)), ViewAction::Nothing);
    assert_eq!(input.window_event(key(Key::Escape, false)), ViewAction::Nothing);
    assert_eq!(input.window_event(key(Key::Escape, true)), ViewAction::Exit);
}

#[test]
fn window_events_ask_for_their_actions() {
    let mut input = InputState::default();
    assert_eq!(input.window_event(ViewEvent::CloseRequested), ViewAction::Exit);
    assert_eq!(input.window_event(ViewEvent::RedrawRequested), ViewAction::Draw);
    assert_eq!(input.window_event(ViewEvent::Other), ViewAction::Nothing);
    assert_eq!(input.window_event(ViewEvent::MouseWheel { captured: false }), ViewAction::Zoom);
    assert_eq!(
        input.window_event(ViewEvent::Resized { width: 3, height: 4 }),
        ViewAction::Resize { width: 3, height: 4 }
    );
    assert_eq!(
        input.window_event(ViewEvent::Resized { width: 3, height: 0 }),
        ViewAction::Nothing
    );
}

#[test]
fn old_frames_expire_from_the_front() {
    assert_eq!(expired_frames(&[b(1.5), b(1.01), b(1.0), b(1.2), b(0.0)]), 2);
    assert_eq!(expired_frames(&[b(0.5)]), 0);
    assert_eq!(expired_frames(&[]), 0);
}

#[test]
fn each_snapshot_is_shown_once() {
    let mut feed = TrainingFeed::new();
    let stats = |mse: f32| TrainStats { iter: 0, mse: b(mse), splat_count: 1 };
    assert!(!feed.observe(0, &stats(9.0)));
    assert!(feed.observe(1, &stats(0.5)));
    assert!(!feed.observe(1, &stats(0.5)));
    assert!(feed.observe(4, &stats(0.25)));
    assert!(!feed.observe(3, &stats(0.3)));
    assert_eq!(feed.history, vec![b(0.5), b(0.25)]);
    assert_eq!(feed.last_seen_version, 4);
    assert_eq!(next_version(4), 5);
    assert_eq!(next_version(u64::MAX), 0);
}

#[test]
fn only_changes_reach_the_trainer_and_the_device() {
    assert_eq!(pause_change(false, true), Some(true));
    assert_eq!(pause_change(true, true), None);
    assert_eq!(splat_update(5, 5), SplatUpdate::Sync);
    assert_eq!(splat_update(6, 5), SplatUpdate::Reallocate { projected_bytes: 288 });
    assert_eq!(viewport_resize((960, 720), (960, 720)), None);
    assert_eq!(viewport_resize((960, 720), (0, 64)), Some((1, 64)));
    assert_eq!(surface_extent(0, 7), (1, 7));
}

#[test]
fn viewports_are_whole_tiles() {
    assert_eq!(viewport_side(0), 64);
    assert_eq!(viewport_side(64), 64);
    assert_eq!(viewport_side(65), 80);
    assert_eq!(viewport_side(96), 96);
    assert_eq!(viewport_side(u32::MAX - 15), u32::MAX - 15);
}

#[test]
fn srgb_formats_come_first() {
    assert_eq!(pick_format(&[false, true, true]), 1);
    assert_eq!(pick_format(&[false, false]), 0);
}

#[test]
fn tabs_have_titles() {
    assert_eq!(Tab::Viewport.title(), "Viewport");
    assert_eq!(Tab::Inspector.title(), "Inspector");
    assert_eq!(Tab::Training.title(), "Training");
}

#[test]
fn the_bounding_box_is_tight() {
    let p = |x: f32, y: f32, z: f32| Vec3::new(b(x), b(y), b(z));
    let ps = [p(1.0, -2.0, 3.0), p(-4.0, 5.0, 3.5), p(0.0, 0.0, -6.0)];
    assert_eq!(bounding_box(&ps), Some((p(-4.0, -2.0, -6.0), p(1.0, 5.0, 3.5))));
    assert_eq!(bounding_box(&[]), None);
}
