use vstd::prelude::*;
use vstd::string::*;

use crate::options::RenderingOpts;

verus! {

/// What the player is doing between two frames: which movement keys are
/// held, and how far the mouse moved since the last update.
#[derive(Debug, Clone, Copy, PartialEq, Eq)]
pub struct PlayerMoves {
    pub moving_forward: bool,
    pub moving_back: bool,
    pub moving_left: bool,
    pub moving_right: bool,
    pub mousex: i32,
    pub mousey: i32,
}

impl PlayerMoves {
    /// No key held and no mouse motion.
    pub fn default() -> (m: PlayerMoves)
        ensures
            m == (PlayerMoves {
                moving_forward: false,
                moving_back: false,
                moving_left: false,
                moving_right: false,
                mousex: 0,
                mousey: 0,
            }),
    {
        PlayerMoves {
            moving_forward: false,
            moving_back: false,
            moving_left: false,
            moving_right: false,
            mousex: 0,
            mousey: 0,
        }
    }
}

/// The keys the game reacts to; every other key is `Other`.
#[derive(Debug, Clone, Copy, PartialEq, Eq)]
pub enum Key {
    Escape,
    C,
    O,
    B,
    P,
    T,
    L,
    Z,
    S,
    Q,
    D,
    Other,
}

/// An input event, as far as the game reads it.
#[derive(Debug, Clone, Copy, PartialEq, Eq)]
pub enum InputEvent {
    Quit,
    KeyDown { key: Key, left_shift: bool, repeat: bool },
    KeyUp { key: Key },
    MouseMotion { xrel: i32, yrel: i32 },
    Other,
}

/// What the surrounding program has to do after an event was handled.
#[derive(Debug, Clone, Copy, PartialEq, Eq)]
pub enum EventAction {
    /// Nothing beyond the state change.
    Nothing,
    /// Capture the mouse, hide the cursor and switch to relative mouse mode.
    CaptureMouse,
    /// Recompute the view zones from the (changed) rendering options.
    RebuildViews,
}

/// Whether handling `event` keeps every counter within its integer type.
pub open spec fn event_fits(o: RenderingOpts, m: PlayerMoves, event: InputEvent) -> bool {
    match event {
        InputEvent::KeyDown { key: Key::O, left_shift, repeat: false } =>
            !(left_shift && o.split > 1) ==> o.split < 255,
        InputEvent::KeyDown { key: Key::P, left_shift, repeat: false } =>
            !left_shift ==> o.depth < 255,
        InputEvent::MouseMotion { xrel, yrel } =>
            i32::MIN <= m.mousex + xrel <= i32::MAX && i32::MIN <= m.mousey + yrel <= i32::MAX,
        _ => true,
    }
}

/// The options with `split` replaced.
pub open spec fn with_split(o: RenderingOpts, split: int) -> RenderingOpts {
    RenderingOpts { split: split as u8, ..o }
}

/// The options with `depth` replaced.
pub open spec fn with_depth(o: RenderingOpts, depth: int) -> RenderingOpts {
    RenderingOpts { depth: depth as u8, ..o }
}

/// The effect of a held or released movement key on the player's moves.
pub open spec fn set_moving(m: PlayerMoves, key: Key, held: bool) -> PlayerMoves {
    match key {
        Key::Z => PlayerMoves { moving_forward: held, ..m },
        Key::S => PlayerMoves { moving_back: held, ..m },
        Key::Q => PlayerMoves { moving_left: held, ..m },
        Key::D => PlayerMoves { moving_right: held, ..m },
        _ => m,
    }
}

/// One step of the control state machine: the options and moves after
/// `event`, and the action to perform, or `None` when the event ends the game.
pub open spec fn event_step(o: RenderingOpts, m: PlayerMoves, event: InputEvent)
    -> (RenderingOpts, PlayerMoves, Option<EventAction>)
{
    match event {
        InputEvent::Quit => (o, m, None),
        InputEvent::KeyDown { key: Key::Escape, .. } => (o, m, None),
        InputEvent::KeyDown { key, left_shift, repeat: false } => match key {
            Key::C => (o, m, Some(EventAction::CaptureMouse)),
            Key::O => if left_shift && o.split > 1 {
                (with_split(o, o.split - 1), m, Some(EventAction::RebuildViews))
            } else {
                (with_split(o, o.split + 1), m, Some(EventAction::RebuildViews))
            },
            Key::B => (RenderingOpts { bordering_split: !o.bordering_split, ..o }, m,
                Some(EventAction::RebuildViews)),
            Key::P => if left_shift {
                if o.depth > 1 {
                    (with_depth(o, o.depth - 1), m, Some(EventAction::Nothing))
                } else {
                    (o, m, Some(EventAction::Nothing))
                }
            } else {
                (with_depth(o, o.depth + 1), m, Some(EventAction::Nothing))
            },
            Key::T => (RenderingOpts { parallel_mode: !o.parallel_mode, ..o }, m,
                Some(EventAction::Nothing)),
            Key::L => (RenderingOpts { limit_fps: !o.limit_fps, ..o }, m,
                Some(EventAction::Nothing)),
            _ => (o, set_moving(m, key, true), Some(EventAction::Nothing)),
        },
        InputEvent::KeyUp { key } => (o, set_moving(m, key, false), Some(EventAction::Nothing)),
        InputEvent::MouseMotion { xrel, yrel } => (o, PlayerMoves {
            mousex: (m.mousex + xrel) as i32,
            mousey: (m.mousey + yrel) as i32,
            ..m
        }, Some(EventAction::Nothing)),
        _ => (o, m, Some(EventAction::Nothing)),
    }
}

/// Handles one input event: updates the rendering options and the player's
/// moves, and says what the caller has to do next. A quit request (the window
/// closing, or Escape pressed) is answered with the error `"break"` and
/// changes nothing.
pub fn handle_event(opts: &mut RenderingOpts, moves: &mut PlayerMoves, event: &InputEvent)
    -> (r: Result<EventAction, String>)
    requires
        event_fits(*old(opts), *old(moves), *event),
    ensures
        *final(opts) == event_step(*old(opts), *old(moves), *event).0,
        *final(moves) == event_step(*old(opts), *old(moves), *event).1,
        match r {
            Ok(a) => event_step(*old(opts), *old(moves), *event).2 == Some(a),
            Err(s) => event_step(*old(opts), *old(moves), *event).2 is None && s@ == "break"@,
        },
{
    match *event {
        InputEvent::Quit => Err(String::from_str("break")),
        InputEvent::KeyDown { key: Key::Escape, .. } => Err(String::from_str("break")),
        InputEvent::KeyDown { key, left_shift, repeat: false } => match key {
            Key::C => Ok(EventAction::CaptureMouse),
            Key::O => {
                if left_shift && opts.split > 1 {
                    opts.split = opts.split - 1;
                } else {
                    opts.split = opts.split + 1;
                }
                Ok(EventAction::RebuildViews)
            },
            Key::B => {
                opts.bordering_split = !opts.bordering_split;
                Ok(EventAction::RebuildViews)
            },
            Key::P => {
                if left_shift {
                    if opts.depth > 1 {
                        opts.depth = opts.depth - 1;
                    }
                } else {
                    opts.depth = opts.depth + 1;
                }
                Ok(EventAction::Nothing)
            },
            Key::T => {
                opts.parallel_mode = !opts.parallel_mode;
                Ok(EventAction::Nothing)
            },
            Key::L => {
                opts.limit_fps = !opts.limit_fps;
                Ok(EventAction::Nothing)
            },
            Key::Z => {
                moves.moving_forward = true;
                Ok(EventAction::Nothing)
            },
            Key::S => {
                moves.moving_back = true;
                Ok(EventAction::Nothing)
            },
            Key::Q => {
                moves.moving_left = true;
                Ok(EventAction::Nothing)
            },
            Key::D => {
                moves.moving_right = true;
                Ok(EventAction::Nothing)
            },
            _ => Ok(EventAction::Nothing),
        },
        InputEvent::KeyUp { key } => {
            match key {
                Key::Z => { moves.moving_forward = false; },
                Key::S => { moves.moving_back = false; },
                Key::Q => { moves.moving_left = false; },
                Key::D => { moves.moving_right = false; },
                _ => {},
            }
            Ok(EventAction::Nothing)
        },
        InputEvent::MouseMotion { xrel, yrel } => {
            moves.mousex = moves.mousex + xrel;
            moves.mousey = moves.mousey + yrel;
            Ok(EventAction::Nothing)
        },
        _ => Ok(EventAction::Nothing),
    }
}

/// A camera movement that one frame's update asks for. The float amounts
/// (speed times frame time) are applied by the caller.
#[derive(Debug, Clone, Copy, PartialEq, Eq)]
pub enum CameraCommand {
    /// Move along the view direction.
    Forward,
    /// Move against the view direction.
    Back,
    /// Move sideways to the left.
    Left,
    /// Move sideways to the right.
    Right,
    /// Turn around the vertical axis by the given horizontal mouse motion.
    Turn(i32),
    /// Tilt the view up or down by the given vertical mouse motion.
    Tilt(i32),
}

/// The camera commands of one frame, in the order they are applied: the held
/// movement keys (forward, back, left, right), then a turn if the mouse moved
/// horizontally, then a tilt if it moved vertically.
pub open spec fn update_commands(m: PlayerMoves) -> Seq<CameraCommand> {
    (if m.moving_forward { seq![CameraCommand::Forward] } else { Seq::empty() })
        + (if m.moving_back { seq![CameraCommand::Back] } else { Seq::empty() })
        + (if m.moving_left { seq![CameraCommand::Left] } else { Seq::empty() })
        + (if m.moving_right { seq![CameraCommand::Right] } else { Seq::empty() })
        + (if m.mousex != 0 { seq![CameraCommand::Turn(m.mousex)] } else { Seq::empty() })
        + (if m.mousey != 0 { seq![CameraCommand::Tilt(m.mousey)] } else { Seq::empty() })
}

impl PlayerMoves {
    /// The decisions of one frame's update: the camera commands that the held
    /// keys and the mouse motion call for. The mouse motion is consumed: it is
    /// zero afterwards, while the held keys stay as they are.
    pub fn take_update(&mut self) -> (cmds: Vec<CameraCommand>)
        ensures
            cmds@ == update_commands(*old(self)),
            *final(self) == (PlayerMoves { mousex: 0, mousey: 0, ..*old(self) }),
    {
        let mut cmds: Vec<CameraCommand> = Vec::new();
        let ghost m = *self;
        if self.moving_forward {
            cmds.push(CameraCommand::Forward);
        }
        if self.moving_back {
            cmds.push(CameraCommand::Back);
        }
        if self.moving_left {
            cmds.push(CameraCommand::Left);
        }
        if self.moving_right {
            cmds.push(CameraCommand::Right);
        }
        if self.mousex != 0 {
            cmds.push(CameraCommand::Turn(self.mousex));
        }
        if self.mousey != 0 {
            cmds.push(CameraCommand::Tilt(self.mousey));
        }
        self.mousex = 0;
        self.mousey = 0;
        assert(cmds@ =~= update_commands(m));
        cmds
    }
}

/// Whether a key is one of the movement keys.
pub open spec fn is_movement_key(key: Key) -> bool {
    key == Key::Z || key == Key::S || key == Key::Q || key == Key::D
}

/// Whether a key flips one of the switches of the rendering options.
pub open spec fn is_toggle_key(key: Key) -> bool {
    key == Key::B || key == Key::T || key == Key::L
}

/// Once the zone count and the reflection depth are at least one, no event
/// brings either of them below one.
pub proof fn lemma_counts_stay_positive(o: RenderingOpts, m: PlayerMoves, event: InputEvent)
    requires
        o.split >= 1,
        o.depth >= 1,
        event_fits(o, m, event),
    ensures
        event_step(o, m, event).0.split >= 1,
        event_step(o, m, event).0.depth >= 1,
{
}

/// An event that ends the game changes neither the options nor the moves.
pub proof fn lemma_quit_keeps_state(o: RenderingOpts, m: PlayerMoves, event: InputEvent)
    requires
        event_step(o, m, event).2 is None,
    ensures
        event_step(o, m, event).0 == o,
        event_step(o, m, event).1 == m,
{
}

/// The view zones are to be rebuilt exactly when an event changes one of the
/// two options they are computed from: the zone count or the bordered split.
pub proof fn lemma_rebuild_iff_layout_changes(o: RenderingOpts, m: PlayerMoves, event: InputEvent)
    requires
        event_fits(o, m, event),
    ensures
        event_step(o, m, event).2 == Some(EventAction::RebuildViews) <==> (
            event_step(o, m, event).0.split != o.split
            || event_step(o, m, event).0.bordering_split != o.bordering_split),
{
}

/// Pressing a switch key twice gives back the options and moves one started from.
pub proof fn lemma_toggle_twice(o: RenderingOpts, m: PlayerMoves, key: Key, left_shift: bool)
    requires
        is_toggle_key(key),
    ensures
        ({
            let e = InputEvent::KeyDown { key, left_shift, repeat: false };
            let first = event_step(o, m, e);
            let second = event_step(first.0, first.1, e);
            second.0 == o && second.1 == m
        }),
{
}

/// Raising the zone count with O and lowering it with Shift-O gives back the
/// options one started from.
pub proof fn lemma_split_up_then_down(o: RenderingOpts, m: PlayerMoves)
    requires
        1 <= o.split < 255,
    ensures
        ({
            let up = event_step(o, m, InputEvent::KeyDown { key: Key::O, left_shift: false, repeat: false });
            let down = event_step(up.0, up.1, InputEvent::KeyDown { key: Key::O, left_shift: true, repeat: false });
            down.0 == o && down.1 == m
        }),
{
}

/// Raising the reflection depth with P and lowering it with Shift-P gives back
/// the options one started from.
pub proof fn lemma_depth_up_then_down(o: RenderingOpts, m: PlayerMoves)
    requires
        1 <= o.depth < 255,
    ensures
        ({
            let up = event_step(o, m, InputEvent::KeyDown { key: Key::P, left_shift: false, repeat: false });
            let down = event_step(up.0, up.1, InputEvent::KeyDown { key: Key::P, left_shift: true, repeat: false });
            down.0 == o && down.1 == m
        }),
{
}

/// Pressing a movement key and releasing it gives back the moves one started
/// from when that key was not held before; the options never change.
pub proof fn lemma_press_then_release(o: RenderingOpts, m: PlayerMoves, key: Key, left_shift: bool)
    requires
        is_movement_key(key),
        set_moving(m, key, false) == m,
    ensures
        ({
            let down = event_step(o, m, InputEvent::KeyDown { key, left_shift, repeat: false });
            let up = event_step(down.0, down.1, InputEvent::KeyUp { key });
            up.0 == o && up.1 == m
        }),
{
}

/// After an update has consumed the mouse motion, the next update asks for
/// no turn and no tilt.
pub proof fn lemma_update_consumes_mouse(m: PlayerMoves)
    ensures
        forall|i: int| 0 <= i < update_commands(PlayerMoves { mousex: 0, mousey: 0, ..m }).len() ==> {
            let c = #[trigger] update_commands(PlayerMoves { mousex: 0, mousey: 0, ..m })[i];
            !(c is Turn) && !(c is Tilt)
        },
{
    let z = PlayerMoves { mousex: 0, mousey: 0, ..m };
    assert(update_commands(z) =~= (if m.moving_forward { seq![CameraCommand::Forward] } else { Seq::empty() })
        + (if m.moving_back { seq![CameraCommand::Back] } else { Seq::empty() })
        + (if m.moving_left { seq![CameraCommand::Left] } else { Seq::empty() })
        + (if m.moving_right { seq![CameraCommand::Right] } else { Seq::empty() }));
}

proof fn lemma_concat_contains(a: Seq<CameraCommand>, b: Seq<CameraCommand>, x: CameraCommand)
    ensures
        (a + b).contains(x) <==> a.contains(x) || b.contains(x),
{
    if a.contains(x) {
        let i: int = choose|i: int| 0 <= i < a.len() && a[i] == x;
        assert((a + b)[i] == x);
    }
    if b.contains(x) {
        let i: int = choose|i: int| 0 <= i < b.len() && b[i] == x;
        assert((a + b)[a.len() + i] == x);
    }
    if (a + b).contains(x) {
        let i: int = choose|i: int| 0 <= i < (a + b).len() && (a + b)[i] == x;
        if i < a.len() {
            assert(a[i] == x);
        } else {
            assert(b[i - a.len()] == x);
        }
    }
}

proof fn lemma_piece_contains(flag: bool, c: CameraCommand, x: CameraCommand)
    ensures
        (if flag { seq![c] } else { Seq::<CameraCommand>::empty() }).contains(x) <==> (flag && c == x),
{
    if flag {
        assert(seq![c][0] == c);
    }
}

/// One frame's commands follow the state they are computed from: a movement
/// command is there exactly when its key is held; a turn is there exactly when
/// the mouse moved horizontally, whichever way, and it turns by exactly that
/// motion; likewise a tilt for vertical motion; and no command comes twice.
pub proof fn lemma_update_commands_follow_state(m: PlayerMoves)
    ensures
        update_commands(m).contains(CameraCommand::Forward) <==> m.moving_forward,
        update_commands(m).contains(CameraCommand::Back) <==> m.moving_back,
        update_commands(m).contains(CameraCommand::Left) <==> m.moving_left,
        update_commands(m).contains(CameraCommand::Right) <==> m.moving_right,
        forall|t: i32| #[trigger] update_commands(m).contains(CameraCommand::Turn(t))
            <==> (m.mousex != 0 && t == m.mousex),
        forall|t: i32| #[trigger] update_commands(m).contains(CameraCommand::Tilt(t))
            <==> (m.mousey != 0 && t == m.mousey),
        update_commands(m).len() == (if m.moving_forward { 1int } else { 0 })
            + (if m.moving_back { 1int } else { 0 })
            + (if m.moving_left { 1int } else { 0 })
            + (if m.moving_right { 1int } else { 0 })
            + (if m.mousex != 0 { 1int } else { 0 })
            + (if m.mousey != 0 { 1int } else { 0 }),
{
    let s1 = if m.moving_forward { seq![CameraCommand::Forward] } else { Seq::<CameraCommand>::empty() };
    let s2 = if m.moving_back { seq![CameraCommand::Back] } else { Seq::<CameraCommand>::empty() };
    let s3 = if m.moving_left { seq![CameraCommand::Left] } else { Seq::<CameraCommand>::empty() };
    let s4 = if m.moving_right { seq![CameraCommand::Right] } else { Seq::<CameraCommand>::empty() };
    let s5 = if m.mousex != 0 { seq![CameraCommand::Turn(m.mousex)] } else { Seq::<CameraCommand>::empty() };
    let s6 = if m.mousey != 0 { seq![CameraCommand::Tilt(m.mousey)] } else { Seq::<CameraCommand>::empty() };
    assert(update_commands(m) == s1 + s2 + s3 + s4 + s5 + s6);
    assert forall|x: CameraCommand| #[trigger] update_commands(m).contains(x) <==> (
        (m.moving_forward && x == CameraCommand::Forward)
        || (m.moving_back && x == CameraCommand::Back)
        || (m.moving_left && x == CameraCommand::Left)
        || (m.moving_right && x == CameraCommand::Right)
        || (m.mousex != 0 && x == CameraCommand::Turn(m.mousex))
        || (m.mousey != 0 && x == CameraCommand::Tilt(m.mousey))) by {
        lemma_concat_contains(s1 + s2 + s3 + s4 + s5, s6, x);
        lemma_concat_contains(s1 + s2 + s3 + s4, s5, x);
        lemma_concat_contains(s1 + s2 + s3, s4, x);
        lemma_concat_contains(s1 + s2, s3, x);
        lemma_concat_contains(s1, s2, x);
        lemma_piece_contains(m.moving_forward, CameraCommand::Forward, x);
        lemma_piece_contains(m.moving_back, CameraCommand::Back, x);
        lemma_piece_contains(m.moving_left, CameraCommand::Left, x);
        lemma_piece_contains(m.moving_right, CameraCommand::Right, x);
        lemma_piece_contains(m.mousex != 0, CameraCommand::Turn(m.mousex), x);
        lemma_piece_contains(m.mousey != 0, CameraCommand::Tilt(m.mousey), x);
    }
    assert(update_commands(m).contains(CameraCommand::Forward) <==> m.moving_forward);
    assert(update_commands(m).contains(CameraCommand::Back) <==> m.moving_back);
    assert(update_commands(m).contains(CameraCommand::Left) <==> m.moving_left);
    assert(update_commands(m).contains(CameraCommand::Right) <==> m.moving_right);
    assert forall|t: i32| #[trigger] update_commands(m).contains(CameraCommand::Turn(t))
        <==> (m.mousex != 0 && t == m.mousex) by {
        assert(update_commands(m).contains(CameraCommand::Turn(t)) <==> (m.mousex != 0 && CameraCommand::Turn(t) == CameraCommand::Turn(m.mousex)));
    }
    assert forall|t: i32| #[trigger] update_commands(m).contains(CameraCommand::Tilt(t))
        <==> (m.mousey != 0 && t == m.mousey) by {
        assert(update_commands(m).contains(CameraCommand::Tilt(t)) <==> (m.mousey != 0 && CameraCommand::Tilt(t) == CameraCommand::Tilt(m.mousey)));
    }
}

/// Each switch key flips its own switch of the rendering options and nothing
/// else: B the bordered split (and asks for the views to be rebuilt), T the
/// parallel mode, L the frame limit; the zone count, the depth, the other
/// switches and the player's moves stay as they were.
pub proof fn lemma_switch_keys_flip_only_their_switch(o: RenderingOpts, m: PlayerMoves, left_shift: bool)
    ensures
        ({
            let r = event_step(o, m, InputEvent::KeyDown { key: Key::B, left_shift, repeat: false });
            &&& r.0.bordering_split == !o.bordering_split
            &&& r.0.parallel_mode == o.parallel_mode
            &&& r.0.limit_fps == o.limit_fps
            &&& r.0.split == o.split && r.0.depth == o.depth && r.0.enable_bp == o.enable_bp
            &&& r.1 == m
            &&& r.2 == Some(EventAction::RebuildViews)
        }),
        ({
            let r = event_step(o, m, InputEvent::KeyDown { key: Key::T, left_shift, repeat: false });
            &&& r.0.parallel_mode == !o.parallel_mode
            &&& r.0.bordering_split == o.bordering_split
            &&& r.0.limit_fps == o.limit_fps
            &&& r.0.split == o.split && r.0.depth == o.depth && r.0.enable_bp == o.enable_bp
            &&& r.1 == m
            &&& r.2 == Some(EventAction::Nothing)
        }),
        ({
            let r = event_step(o, m, InputEvent::KeyDown { key: Key::L, left_shift, repeat: false });
            &&& r.0.limit_fps == !o.limit_fps
            &&& r.0.bordering_split == o.bordering_split
            &&& r.0.parallel_mode == o.parallel_mode
            &&& r.0.split == o.split && r.0.depth == o.depth && r.0.enable_bp == o.enable_bp
            &&& r.1 == m
            &&& r.2 == Some(EventAction::Nothing)
        }),
{
}

/// O changes only the zone count: Shift-O lowers it by one while it is above
/// one, every other O raises it by one; Shift-P lowers the depth by one while it
/// is above one, every other P raises it by one, and changes nothing else.
pub proof fn lemma_count_keys_change_only_their_count(o: RenderingOpts, m: PlayerMoves, left_shift: bool)
    requires
        !(left_shift && o.split > 1) ==> o.split < 255,
        !left_shift ==> o.depth < 255,
    ensures
        ({
            let r = event_step(o, m, InputEvent::KeyDown { key: Key::O, left_shift, repeat: false });
            &&& (left_shift && o.split > 1 ==> r.0.split + 1 == o.split)
            &&& (!(left_shift && o.split > 1) ==> r.0.split == o.split + 1)
            &&& r.0.depth == o.depth && r.0.enable_bp == o.enable_bp
            &&& r.0.parallel_mode == o.parallel_mode && r.0.limit_fps == o.limit_fps
            &&& r.0.bordering_split == o.bordering_split
            &&& r.1 == m
            &&& r.2 == Some(EventAction::RebuildViews)
        }),
        ({
            let r = event_step(o, m, InputEvent::KeyDown { key: Key::P, left_shift, repeat: false });
            &&& (left_shift && o.depth > 1 ==> r.0.depth + 1 == o.depth)
            &&& (left_shift && o.depth <= 1 ==> r.0.depth == o.depth)
            &&& (!left_shift ==> r.0.depth == o.depth + 1)
            &&& r.0.split == o.split && r.0.enable_bp == o.enable_bp
            &&& r.0.parallel_mode == o.parallel_mode && r.0.limit_fps == o.limit_fps
            &&& r.0.bordering_split == o.bordering_split
            &&& r.1 == m
            &&& r.2 == Some(EventAction::Nothing)
        }),
{
}

/// Releasing a key never changes the rendering options and asks for nothing;
/// it only clears the held flag of a released movement key, and leaves the
/// other flags and the mouse motion alone.
pub proof fn lemma_key_release_keeps_options(o: RenderingOpts, m: PlayerMoves, key: Key)
    ensures
        ({
            let r = event_step(o, m, InputEvent::KeyUp { key });
            &&& r.0 == o
            &&& r.2 == Some(EventAction::Nothing)
            &&& r.1.moving_forward == (m.moving_forward && key != Key::Z)
            &&& r.1.moving_back == (m.moving_back && key != Key::S)
            &&& r.1.moving_left == (m.moving_left && key != Key::Q)
            &&& r.1.moving_right == (m.moving_right && key != Key::D)
            &&& r.1.mousex == m.mousex && r.1.mousey == m.mousey
        }),
{
}

/// Pressing a movement key never changes the rendering options; it only sets
/// the held flag of that key.
pub proof fn lemma_movement_press_sets_only_its_flag(o: RenderingOpts, m: PlayerMoves, key: Key, left_shift: bool)
    requires
        is_movement_key(key),
    ensures
        ({
            let r = event_step(o, m, InputEvent::KeyDown { key, left_shift, repeat: false });
            &&& r.0 == o
            &&& r.2 == Some(EventAction::Nothing)
            &&& r.1.moving_forward == (m.moving_forward || key == Key::Z)
            &&& r.1.moving_back == (m.moving_back || key == Key::S)
            &&& r.1.moving_left == (m.moving_left || key == Key::Q)
            &&& r.1.moving_right == (m.moving_right || key == Key::D)
            &&& r.1.mousex == m.mousex && r.1.mousey == m.mousey
        }),
{
}

/// Mouse motion adds up and changes nothing else.
pub proof fn lemma_mouse_motion_adds_up(o: RenderingOpts, m: PlayerMoves, xrel: i32, yrel: i32)
    requires
        event_fits(o, m, InputEvent::MouseMotion { xrel, yrel }),
    ensures
        ({
            let r = event_step(o, m, InputEvent::MouseMotion { xrel, yrel });
            &&& r.0 == o
            &&& r.2 == Some(EventAction::Nothing)
            &&& r.1.mousex == m.mousex + xrel && r.1.mousey == m.mousey + yrel
            &&& r.1.moving_forward == m.moving_forward && r.1.moving_back == m.moving_back
            &&& r.1.moving_left == m.moving_left && r.1.moving_right == m.moving_right
        }),
{
}

/// A repeated key press other than Escape, and any event the game does not
/// know, change nothing and ask for nothing; C changes nothing and only asks
/// for the mouse to be captured.
pub proof fn lemma_ignored_events(o: RenderingOpts, m: PlayerMoves, key: Key, left_shift: bool)
    requires
        key != Key::Escape,
    ensures
        event_step(o, m, InputEvent::KeyDown { key, left_shift, repeat: true }) == (o, m, Some(EventAction::Nothing)),
        event_step(o, m, InputEvent::Other) == (o, m, Some(EventAction::Nothing)),
        event_step(o, m, InputEvent::KeyDown { key: Key::Other, left_shift, repeat: false }) == (o, m, Some(EventAction::Nothing)),
        event_step(o, m, InputEvent::KeyDown { key: Key::C, left_shift, repeat: false }) == (o, m, Some(EventAction::CaptureMouse)),
{
}

/// Exactly the quit request and a press of Escape (repeated or not, with or
/// without shift) end the game; every other event is handled and answered.
pub proof fn lemma_only_quit_and_escape_end(o: RenderingOpts, m: PlayerMoves, event: InputEvent)
    ensures
        event_step(o, m, event).2 is None <==> (event == InputEvent::Quit
            || event matches InputEvent::KeyDown { key: Key::Escape, .. }),
{
}

} // verus!
