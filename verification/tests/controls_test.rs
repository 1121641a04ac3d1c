use rustyray::controls::{
    handle_event, CameraCommand, EventAction, InputEvent, Key, PlayerMoves,
};
use rustyray::options::RenderingOpts;

fn down(key: Key, left_shift: bool) -> InputEvent {
    InputEvent::KeyDown { key, left_shift, repeat: false }
}

fn run(o: &mut RenderingOpts, m: &mut PlayerMoves, e: InputEvent) -> Result<EventAction, String> {
    handle_event(o, m, &e)
}

#[test]
fn default_player_moves() {
    let m = PlayerMoves::default();
    assert!(!m.moving_forward && !m.moving_back && !m.moving_left && !m.moving_right);
    assert_eq!(m.mousex, 0);
    assert_eq!(m.mousey, 0);
}

#[test]
fn quit_and_escape_answer_break_and_change_nothing() {
    let mut o = RenderingOpts::default();
    let mut m = PlayerMoves::default();
    assert_eq!(run(&mut o, &mut m, InputEvent::Quit), Err("break".to_string()));
    assert_eq!(run(&mut o, &mut m, down(Key::Escape, false)), Err("break".to_string()));
    assert_eq!(
        run(&mut o, &mut m, InputEvent::KeyDown { key: Key::Escape, left_shift: true, repeat: true }),
        Err("break".to_string())
    );
    assert_eq!(o, RenderingOpts::default());
    assert_eq!(m, PlayerMoves::default());
}

#[test]
fn c_captures_the_mouse() {
    let mut o = RenderingOpts::default();
    let mut m = PlayerMoves::default();
    assert_eq!(run(&mut o, &mut m, down(Key::C, false)), Ok(EventAction::CaptureMouse));
    assert_eq!(o, RenderingOpts::default());
}

#[test]
fn o_raises_and_shift_o_lowers_split() {
    let mut o = RenderingOpts::default();
    let mut m = PlayerMoves::default();
    // Shift-O at split 1 raises the split, as the game does.
    assert_eq!(run(&mut o, &mut m, down(Key::O, true)), Ok(EventAction::RebuildViews));
    assert_eq!(o.split, 2);
    assert_eq!(run(&mut o, &mut m, down(Key::O, false)), Ok(EventAction::RebuildViews));
    assert_eq!(o.split, 3);
    assert_eq!(run(&mut o, &mut m, down(Key::O, true)), Ok(EventAction::RebuildViews));
    assert_eq!(o.split, 2);
}

#[test]
fn o_then_shift_o_restores() {
    for split in 1u8..255 {
        let start = RenderingOpts { split, ..RenderingOpts::default() };
        let mut o = start;
        let mut m = PlayerMoves::default();
        run(&mut o, &mut m, down(Key::O, false)).unwrap();
        run(&mut o, &mut m, down(Key::O, true)).unwrap();
        assert_eq!(o, start);
    }
}

#[test]
fn p_changes_depth_but_not_below_one() {
    let mut o = RenderingOpts::default();
    let mut m = PlayerMoves::default();
    assert_eq!(run(&mut o, &mut m, down(Key::P, false)), Ok(EventAction::Nothing));
    assert_eq!(o.depth, 3);
    run(&mut o, &mut m, down(Key::P, true)).unwrap();
    run(&mut o, &mut m, down(Key::P, true)).unwrap();
    assert_eq!(o.depth, 1);
    run(&mut o, &mut m, down(Key::P, true)).unwrap();
    assert_eq!(o.depth, 1);
}

#[test]
fn toggles_twice_restore() {
    for key in [Key::B, Key::T, Key::L] {
        let start = RenderingOpts::default();
        let mut o = start;
        let mut m = PlayerMoves::default();
        let a = run(&mut o, &mut m, down(key, false)).unwrap();
        assert_ne!(o, start);
        let b = run(&mut o, &mut m, down(key, true)).unwrap();
        assert_eq!(a, b);
        assert_eq!(o, start);
        let expected = if key == Key::B { EventAction::RebuildViews } else { EventAction::Nothing };
        assert_eq!(a, expected);
    }
}

#[test]
fn toggle_keys_flip_their_switch() {
    let mut o = RenderingOpts::default();
    let mut m = PlayerMoves::default();
    run(&mut o, &mut m, down(Key::B, false)).unwrap();
    assert!(o.bordering_split);
    run(&mut o, &mut m, down(Key::T, false)).unwrap();
    assert!(!o.parallel_mode);
    run(&mut o, &mut m, down(Key::L, false)).unwrap();
    assert!(o.limit_fps);
}

#[test]
fn repeated_key_down_is_ignored() {
    let mut o = RenderingOpts::default();
    let mut m = PlayerMoves::default();
    for key in [Key::C, Key::O, Key::B, Key::P, Key::T, Key::L, Key::Z, Key::S, Key::Q, Key::D] {
        let r = run(&mut o, &mut m, InputEvent::KeyDown { key, left_shift: false, repeat: true });
        assert_eq!(r, Ok(EventAction::Nothing));
    }
    assert_eq!(o, RenderingOpts::default());
    assert_eq!(m, PlayerMoves::default());
}

#[test]
fn movement_keys_press_and_release() {
    let mut o = RenderingOpts::default();
    let mut m = PlayerMoves::default();
    run(&mut o, &mut m, down(Key::Z, false)).unwrap();
    run(&mut o, &mut m, down(Key::S, false)).unwrap();
    run(&mut o, &mut m, down(Key::Q, true)).unwrap();
    run(&mut o, &mut m, down(Key::D, false)).unwrap();
    assert!(m.moving_forward && m.moving_back && m.moving_left && m.moving_right);
    for key in [Key::Z, Key::S, Key::Q, Key::D] {
        assert_eq!(run(&mut o, &mut m, InputEvent::KeyUp { key }), Ok(EventAction::Nothing));
    }
    assert_eq!(m, PlayerMoves::default());
    assert_eq!(o, RenderingOpts::default());
}

#[test]
fn mouse_motion_accumulates() {
    let mut o = RenderingOpts::default();
    let mut m = PlayerMoves::default();
    run(&mut o, &mut m, InputEvent::MouseMotion { xrel: 5, yrel: -3 }).unwrap();
    run(&mut o, &mut m, InputEvent::MouseMotion { xrel: -2, yrel: -4 }).unwrap();
    assert_eq!(m.mousex, 3);
    assert_eq!(m.mousey, -7);
}

#[test]
fn other_events_do_nothing() {
    let mut o = RenderingOpts::default();
    let mut m = PlayerMoves::default();
    assert_eq!(run(&mut o, &mut m, InputEvent::Other), Ok(EventAction::Nothing));
    assert_eq!(run(&mut o, &mut m, down(Key::Other, false)), Ok(EventAction::Nothing));
    assert_eq!(run(&mut o, &mut m, InputEvent::KeyUp { key: Key::O }), Ok(EventAction::Nothing));
    assert_eq!(o, RenderingOpts::default());
    assert_eq!(m, PlayerMoves::default());
}

#[test]
fn counts_stay_positive_under_shift_keys() {
    let mut o = RenderingOpts::default();
    let mut m = PlayerMoves::default();
    for _ in 0..10 {
        run(&mut o, &mut m, down(Key::O, true)).unwrap();
        run(&mut o, &mut m, down(Key::P, true)).unwrap();
        assert!(o.split >= 1);
        assert!(o.depth >= 1);
    }
}

#[test]
fn take_update_orders_commands_and_consumes_mouse() {
    let mut m = PlayerMoves {
        moving_forward: true,
        moving_back: false,
        moving_left: true,
        moving_right: true,
        mousex: -4,
        mousey: 9,
    };
    let cmds = m.take_update();
    assert_eq!(
        cmds,
        vec![
            CameraCommand::Forward,
            CameraCommand::Left,
            CameraCommand::Right,
            CameraCommand::Turn(-4),
            CameraCommand::Tilt(9)
        ]
    );
    assert_eq!(m.mousex, 0);
    assert_eq!(m.mousey, 0);
    assert!(m.moving_forward && m.moving_left && m.moving_right && !m.moving_back);
    let again = m.take_update();
    assert_eq!(again, vec![CameraCommand::Forward, CameraCommand::Left, CameraCommand::Right]);
}

#[test]
fn take_update_idle() {
    let mut m = PlayerMoves::default();
    assert!(m.take_update().is_empty());
    let mut m = PlayerMoves { moving_back: true, mousey: -1, ..PlayerMoves::default() };
    assert_eq!(m.take_update(), vec![CameraCommand::Back, CameraCommand::Tilt(-1)]);
}
