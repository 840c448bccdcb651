//! What the keys and the pointer ask for.

use vstd::prelude::*;

verus! {

/// The keys that the monitor tells apart.
#[derive(Clone, Copy, Debug, PartialEq, Eq, Structural)]
pub enum Key {
    Tab,
    B,
    F,
    N,
    S,
    Minus,
    Equals,
    Num0,
    Num1,
    Num2,
    Num3,
    Num4,
    Num5,
    Num6,
    Num7,
    Num8,
    Num9,
    Other,
}

/// A key going down (`pressed`) or up.
#[derive(Clone, Copy, Debug, PartialEq, Eq, Structural)]
pub struct KeyEvent {
    pub key: Key,
    pub pressed: bool,
}

/// Where the window is to stand among the others.
#[derive(Clone, Copy, Debug, PartialEq, Eq, Structural)]
pub enum WindowCommand {
    /// Behind all others.
    AlwaysOnBottom,
    /// Among the others, as usual.
    Normal,
}

/// The slot of the pattern that a key selects.
pub open spec fn slot_of(key: Key) -> Option<usize> {
    match key {
        Key::Num1 => Some(0),
        Key::Num2 => Some(1),
        Key::Num3 => Some(2),
        Key::Num4 => Some(3),
        Key::Num5 => Some(4),
        Key::Num6 => Some(5),
        Key::Num7 => Some(6),
        Key::Num8 => Some(7),
        Key::Num9 => Some(8),
        Key::Num0 => Some(9),
        Key::Minus => Some(10),
        Key::Equals => Some(11),
        Key::N => Some(1),
        Key::S => Some(2),
        _ => None,
    }
}

/// The window command that a key gives.
pub open spec fn command_of(key: Key) -> Option<WindowCommand> {
    match key {
        Key::B => Some(WindowCommand::AlwaysOnBottom),
        Key::F => Some(WindowCommand::Normal),
        _ => None,
    }
}

/// The slot of the pattern that a key selects.
pub fn key_slot(key: Key) -> (r: Option<usize>)
    ensures
        r == slot_of(key),
{
    match key {
        Key::Num1 => Some(0),
        Key::Num2 => Some(1),
        Key::Num3 => Some(2),
        Key::Num4 => Some(3),
        Key::Num5 => Some(4),
        Key::Num6 => Some(5),
        Key::Num7 => Some(6),
        Key::Num8 => Some(7),
        Key::Num9 => Some(8),
        Key::Num0 => Some(9),
        Key::Minus => Some(10),
        Key::Equals => Some(11),
        Key::N => Some(1),
        Key::S => Some(2),
        _ => None,
    }
}

/// The window command that a key gives.
pub fn key_command(key: Key) -> (r: Option<WindowCommand>)
    ensures
        r == command_of(key),
{
    match key {
        Key::B => Some(WindowCommand::AlwaysOnBottom),
        Key::F => Some(WindowCommand::Normal),
        _ => None,
    }
}

/// What the pointer asks the window to do.
#[derive(Clone, Copy, Debug, PartialEq, Eq, Structural)]
pub struct PointerRequest {
    /// Follow the pointer.
    pub start_drag: bool,
    /// Take the keyboard focus.
    pub focus: bool,
}

/// What a frame's pointer state asks for. A press takes the focus; a press that also moves the
/// pointer starts a drag, unless the window is pinned.
pub fn pointer_request(pinned: bool, pressed: bool, moving: bool) -> (r: PointerRequest)
    ensures
        r.start_drag <==> !pinned && pressed && moving,
        r.focus <==> pressed,
{
    PointerRequest { start_drag: !pinned && pressed && moving, focus: pressed }
}

/// Whether the window is pinned, from the value of `PIN` where it is set. Only `0` unpins it.
pub fn pinned_by(pin: Option<String>) -> (r: bool)
    ensures
        !r <==> (pin matches Some(value) && value@ == seq!['0']),
{
    match pin {
        Some(value) => {
            let chars = crate::text::chars_of(value.as_str());
            let zero: bool = chars.len() == 1 && chars[0] == '0';
            proof {
                if zero {
                    assert(value@ == seq!['0']);
                }
            }
            !zero
        },
        None => true,
    }
}

/// The number keys 1 to 9 and 0 stand for the first ten slots, minus and equals for the two that
/// follow, N and S for the same slots as 2 and 3; no other key stands for a slot.
pub proof fn law_keys_stand_for_slots(key: Key)
    ensures
        slot_of(Key::Num1) == Some(0usize),
        slot_of(Key::Num2) == Some(1usize),
        slot_of(Key::Num3) == Some(2usize),
        slot_of(Key::Num4) == Some(3usize),
        slot_of(Key::Num5) == Some(4usize),
        slot_of(Key::Num6) == Some(5usize),
        slot_of(Key::Num7) == Some(6usize),
        slot_of(Key::Num8) == Some(7usize),
        slot_of(Key::Num9) == Some(8usize),
        slot_of(Key::Num0) == Some(9usize),
        slot_of(Key::Minus) == Some(10usize),
        slot_of(Key::Equals) == Some(11usize),
        slot_of(Key::N) == slot_of(Key::Num2),
        slot_of(Key::S) == slot_of(Key::Num3),
        slot_of(key) is None <==> key == Key::Tab || key == Key::B || key == Key::F || key
            == Key::Other,
{
}

/// B sends the window behind all others and F brings it back among them; no other key moves it.
pub proof fn law_keys_move_the_window(key: Key)
    ensures
        command_of(key) == Some(WindowCommand::AlwaysOnBottom) <==> key == Key::B,
        command_of(key) == Some(WindowCommand::Normal) <==> key == Key::F,
{
}

} // verus!
