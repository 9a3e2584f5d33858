use voxer::config::Config;
use voxer::harness::ApplicationHarness;
use voxer::input::{Controls, DeviceAction, DeviceInput, Key, Keyboard, WindowAction, WindowInput};
use voxer::pool::Pool;
use voxer::render::{diffuse_dispatch, surface_size};
use voxer::timing::{stage_times, TickLog, FRAME_END, FRAME_START, TIMING_QUERY_COUNT};

#[test]
fn config_from_args() {
    let args = vec!["voxer".to_string(), "vox/castle.vox".to_string()];
    assert_eq!(Config::from_args(&args).world_model, "vox/castle.vox");
    let args = vec!["voxer".to_string()];
    assert_eq!(Config::from_args(&args).world_model, "vox/colors.vox");
    assert_eq!(Config::default().world_model, "vox/colors.vox");
}

#[test]
fn pool_is_last_in_first_out() {
    let mut pool: Pool<u32> = Pool::new();
    assert_eq!(pool.take(), None);
    pool.give_back(1);
    pool.give_back(2);
    assert_eq!(pool.len(), 2);
    assert_eq!(pool.take(), Some(2));
    pool.give_back(3);
    assert_eq!(pool.take(), Some(3));
    assert_eq!(pool.take(), Some(1));
    assert_eq!(pool.take(), None);
}

#[test]
fn ticks_use_consecutive_slots() {
    let mut log = TickLog::new();
    assert_eq!(log.tick("Render Setup"), 0);
    assert_eq!(log.tick("Before Render"), 1);
    let r = log.end_frame();
    assert_eq!(r.frame_end_query, 2);
    assert_eq!(r.query_count, 3);
    assert_eq!(r.stages, vec!["Render Setup", "Before Render", FRAME_END]);
    assert_eq!(r.readback_len, 24);
    assert_eq!(r.frame_start_query, 0);
    assert_eq!(log.len(), 1);
    assert_eq!(log.tick("Render World"), 1);
    let r = log.end_frame();
    assert_eq!(r.stages, vec![FRAME_START, "Render World", FRAME_END]);
}

#[test]
fn tick_log_fills_all_slots() {
    let mut log = TickLog::new();
    for n in 0..TIMING_QUERY_COUNT - 1 {
        assert_eq!(log.tick("stage"), n);
    }
    let r = log.end_frame();
    assert_eq!(r.query_count, TIMING_QUERY_COUNT);
}

#[test]
fn stage_times_are_relative_to_frame_start() {
    let stages = vec![FRAME_START, "Logic", FRAME_END];
    let times = stage_times(&stages, &[100, 130, 175]);
    assert_eq!(times, vec![("Logic", 30), (FRAME_END, 75)]);
    assert_eq!(stage_times(&vec![], &[]), vec![]);
    assert_eq!(stage_times(&vec![FRAME_START], &[5]), vec![]);
}

#[test]
fn surface_is_at_least_one_pixel() {
    assert_eq!(surface_size(0, 0), (1, 1));
    assert_eq!(surface_size(1280, 0), (1280, 1));
    assert_eq!(surface_size(800, 600), (800, 600));
}

#[test]
fn diffuse_dispatch_rounds_up_to_tiles() {
    let d = diffuse_dispatch(1280, 721);
    assert_eq!((d.width, d.height, d.groups_x, d.groups_y), (1280, 736, 80, 46));
    let d = diffuse_dispatch(1, 0);
    assert_eq!((d.width, d.height, d.groups_x, d.groups_y), (16, 0, 1, 0));
}

#[test]
fn keyboard_tracks_held_and_down() {
    let mut kb = Keyboard::new();
    kb.update_button(Key::KeyW, true);
    assert!(kb.pressed(Key::KeyW) && kb.down(Key::KeyW));
    kb.reset();
    assert!(kb.pressed(Key::KeyW) && !kb.down(Key::KeyW));
    kb.update_button(Key::KeyW, true);
    assert!(!kb.down(Key::KeyW));
    kb.update_button(Key::KeyW, false);
    assert!(!kb.pressed(Key::KeyW));
    kb.update_button(Key::Other, true);
    assert!(!kb.pressed(Key::Other));
}

#[test]
fn click_captures_and_escape_releases() {
    let mut c = Controls::new();
    assert!(c.offers_to_gui());
    let click = WindowInput::MouseButton { left: true, pressed: true };
    assert_eq!(c.on_window_event(click, true), WindowAction::Nothing);
    assert!(!c.cursor_trap);
    assert_eq!(c.on_window_event(click, false), WindowAction::CaptureCursor);
    assert!(c.cursor_trap && !c.offers_to_gui());
    assert_eq!(c.on_window_event(click, false), WindowAction::Nothing);
    let w = WindowInput::KeyboardKey { key: Some(Key::KeyW), pressed: true, repeat: false };
    assert_eq!(c.on_window_event(w, false), WindowAction::Nothing);
    assert!(c.keyboard.pressed(Key::KeyW));
    let esc = WindowInput::KeyboardKey { key: Some(Key::Escape), pressed: true, repeat: false };
    let esc_repeat = WindowInput::KeyboardKey { key: Some(Key::Escape), pressed: true, repeat: true };
    assert_eq!(c.on_window_event(esc_repeat, false), WindowAction::Nothing);
    assert!(c.cursor_trap);
    assert_eq!(c.on_window_event(esc, false), WindowAction::ReleaseCursor);
    assert!(!c.cursor_trap);
    assert!(!c.keyboard.pressed(Key::Escape));
    let d = WindowInput::KeyboardKey { key: Some(Key::KeyD), pressed: true, repeat: false };
    assert_eq!(c.on_window_event(d, false), WindowAction::Nothing);
    assert!(!c.keyboard.pressed(Key::KeyD));
}

#[test]
fn window_events_map_to_actions() {
    let mut c = Controls::new();
    assert_eq!(c.on_window_event(WindowInput::CloseRequested, false), WindowAction::Exit);
    assert_eq!(c.on_window_event(WindowInput::RedrawRequested, false), WindowAction::Tick);
    assert_eq!(
        c.on_window_event(WindowInput::Resized { width: 0, height: 7 }, false),
        WindowAction::Resize { width: 0, height: 7 }
    );
    assert_eq!(c.on_window_event(WindowInput::Other, false), WindowAction::Nothing);
    assert_eq!(c.on_window_event(WindowInput::CloseRequested, true), WindowAction::Nothing);
}

#[test]
fn motion_moves_camera_only_when_captured() {
    let mut c = Controls::new();
    assert_eq!(c.on_device_event(DeviceInput::Motion { axis: 1 }), DeviceAction::Nothing);
    c.on_window_event(WindowInput::MouseButton { left: true, pressed: true }, false);
    assert_eq!(c.on_device_event(DeviceInput::Motion { axis: 1 }), DeviceAction::CenterAndMove { axis: 1 });
    assert_eq!(c.on_device_event(DeviceInput::Other), DeviceAction::Nothing);
}

#[test]
fn tick_controls_read_keys() {
    let mut c = Controls::new();
    c.on_window_event(WindowInput::MouseButton { left: true, pressed: true }, false);
    for (key, pressed) in [(Key::KeyD, true), (Key::KeyA, true), (Key::Space, true), (Key::KeyW, true), (Key::ShiftLeft, true), (Key::KeyP, true)] {
        c.on_window_event(WindowInput::KeyboardKey { key: Some(key), pressed, repeat: false }, false);
    }
    let t = c.tick_controls();
    assert_eq!((t.move_x, t.move_y, t.move_z), (0, 1, -1));
    assert!(t.sprint && t.toggle_cpu_bench && !t.toggle_gpu_bench);
    c.reset();
    let t = c.tick_controls();
    assert!(!t.toggle_cpu_bench && t.sprint);
}

#[test]
fn harness_starts_once() {
    let mut h: ApplicationHarness<&str, u32> = ApplicationHarness::new("config");
    assert!(h.application().is_none());
    assert_eq!(h.resumed(), Some("config"));
    assert_eq!(h.resumed(), None);
    assert!(h.application().is_none());
    h.initialized(7);
    assert_eq!(h.resumed(), None);
    *h.application().unwrap() += 1;
    assert_eq!(h.application().copied(), Some(8));
}

#[test]
fn dispatch_covers_surface_with_whole_tiles() {
    for n in [0u32, 1, 15, 16, 17, 1919, 1920, 4096] {
        let d = diffuse_dispatch(n, n);
        assert!(d.width >= n && d.width < n + 16);
        assert_eq!(d.width % 16, 0);
        assert_eq!(d.groups_x * 16, d.width);
    }
}
