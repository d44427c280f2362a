use vstd::prelude::*;

verus! {

/// A key as the windowing system reports it: the keys the UI understands and the modifier
/// keys; every other key is `Other`.
#[derive(Clone, Copy, Debug, PartialEq, Eq, Structural)]
pub enum VirtualKeyCode {
    Down, Left, Right, Up, Escape, Tab, Back, Return, Space, Insert, Delete, Home, End, PageUp, PageDown, Numpad0, Numpad1, Numpad2, Numpad3, Numpad4, Numpad5, Numpad6, Numpad7, Numpad8, Numpad9, Key0, Key1, Key2, Key3, Key4, Key5, Key6, Key7, Key8, Key9, A, B, C, D, E, F, G, H, I, J, K, L, M, N, O, P, Q, R, S, T, U, V, W, X, Y, Z, LAlt, RAlt, LControl, RControl, LShift, RShift, LWin, RWin, Other,
}

/// A key of the UI.
#[derive(Clone, Copy, Debug, PartialEq, Eq, Structural)]
pub enum Key {
    ArrowDown, ArrowLeft, ArrowRight, ArrowUp, Escape, Tab, Backspace, Enter, Space, Insert, Delete, Home, End, PageUp, PageDown, Num0, Num1, Num2, Num3, Num4, Num5, Num6, Num7, Num8, Num9, A, B, C, D, E, F, G, H, I, J, K, L, M, N, O, P, Q, R, S, T, U, V, W, X, Y, Z,
}

/// A mouse button as the windowing system reports it.
#[derive(Clone, Copy, Debug, PartialEq, Eq, Structural)]
pub enum MouseButton {
    Left,
    Right,
    Middle,
    Other(u16),
}

/// A pointer button of the UI.
#[derive(Clone, Copy, Debug, PartialEq, Eq, Structural)]
pub enum PointerButton {
    Primary,
    Secondary,
    Middle,
}

/// The cursor the UI asks for.
#[derive(Clone, Copy, Debug, PartialEq, Eq, Structural)]
pub enum EguiCursorIcon {
    Default, Hidden, ContextMenu, Help, PointingHand, Progress, Wait, Cell, Crosshair, Text, VerticalText, Alias, Copy, Move, NoDrop, NotAllowed, Grab, Grabbing, AllScroll, ResizeHorizontal, ResizeNeSw, ResizeNwSe, ResizeVertical, ZoomIn, ZoomOut,
}

/// A cursor of the windowing system.
#[derive(Clone, Copy, Debug, PartialEq, Eq, Structural)]
pub enum WinitCursorIcon {
    Default, ContextMenu, Help, Hand, Progress, Wait, Cell, Crosshair, Text, VerticalText, Alias, Copy, Move, NoDrop, NotAllowed, Grab, Grabbing, AllScroll, EwResize, NeswResize, NwseResize, NsResize, ZoomIn, ZoomOut,
}

/// The modifier keys held, as the UI sees them.
#[derive(Clone, Copy, Debug, PartialEq, Eq, Structural)]
pub struct Modifiers {
    pub alt: bool,
    pub ctrl: bool,
    pub shift: bool,
    pub mac_cmd: bool,
    pub command: bool,
}

/// An input event for the UI that key presses produce.
#[derive(Clone, Copy, Debug, PartialEq, Eq, Structural)]
pub enum InputEvent {
    Cut,
    Copy,
    Key { key: Key, pressed: bool, modifiers: Modifiers },
}

pub open spec fn spec_egui_key(key: VirtualKeyCode) -> Option<Key> {
    match key {
        VirtualKeyCode::Down => Some(Key::ArrowDown),
        VirtualKeyCode::Left => Some(Key::ArrowLeft),
        VirtualKeyCode::Right => Some(Key::ArrowRight),
        VirtualKeyCode::Up => Some(Key::ArrowUp),
        VirtualKeyCode::Escape => Some(Key::Escape),
        VirtualKeyCode::Tab => Some(Key::Tab),
        VirtualKeyCode::Back => Some(Key::Backspace),
        VirtualKeyCode::Return => Some(Key::Enter),
        VirtualKeyCode::Space => Some(Key::Space),
        VirtualKeyCode::Insert => Some(Key::Insert),
        VirtualKeyCode::Delete => Some(Key::Delete),
        VirtualKeyCode::Home => Some(Key::Home),
        VirtualKeyCode::End => Some(Key::End),
        VirtualKeyCode::PageUp => Some(Key::PageUp),
        VirtualKeyCode::PageDown => Some(Key::PageDown),
        VirtualKeyCode::Numpad0 | VirtualKeyCode::Key0 => Some(Key::Num0),
        VirtualKeyCode::Numpad1 | VirtualKeyCode::Key1 => Some(Key::Num1),
        VirtualKeyCode::Numpad2 | VirtualKeyCode::Key2 => Some(Key::Num2),
        VirtualKeyCode::Numpad3 | VirtualKeyCode::Key3 => Some(Key::Num3),
        VirtualKeyCode::Numpad4 | VirtualKeyCode::Key4 => Some(Key::Num4),
        VirtualKeyCode::Numpad5 | VirtualKeyCode::Key5 => Some(Key::Num5),
        VirtualKeyCode::Numpad6 | VirtualKeyCode::Key6 => Some(Key::Num6),
        VirtualKeyCode::Numpad7 | VirtualKeyCode::Key7 => Some(Key::Num7),
        VirtualKeyCode::Numpad8 | VirtualKeyCode::Key8 => Some(Key::Num8),
        VirtualKeyCode::Numpad9 | VirtualKeyCode::Key9 => Some(Key::Num9),
        VirtualKeyCode::A => Some(Key::A),
        VirtualKeyCode::B => Some(Key::B),
        VirtualKeyCode::C => Some(Key::C),
        VirtualKeyCode::D => Some(Key::D),
        VirtualKeyCode::E => Some(Key::E),
        VirtualKeyCode::F => Some(Key::F),
        VirtualKeyCode::G => Some(Key::G),
        VirtualKeyCode::H => Some(Key::H),
        VirtualKeyCode::I => Some(Key::I),
        VirtualKeyCode::J => Some(Key::J),
        VirtualKeyCode::K => Some(Key::K),
        VirtualKeyCode::L => Some(Key::L),
        VirtualKeyCode::M => Some(Key::M),
        VirtualKeyCode::N => Some(Key::N),
        VirtualKeyCode::O => Some(Key::O),
        VirtualKeyCode::P => Some(Key::P),
        VirtualKeyCode::Q => Some(Key::Q),
        VirtualKeyCode::R => Some(Key::R),
        VirtualKeyCode::S => Some(Key::S),
        VirtualKeyCode::T => Some(Key::T),
        VirtualKeyCode::U => Some(Key::U),
        VirtualKeyCode::V => Some(Key::V),
        VirtualKeyCode::W => Some(Key::W),
        VirtualKeyCode::X => Some(Key::X),
        VirtualKeyCode::Y => Some(Key::Y),
        VirtualKeyCode::Z => Some(Key::Z),
        _ => None,
    }
}

/// The UI key for a key of the windowing system, if the UI has one.
pub fn egui_key(key: VirtualKeyCode) -> (r: Option<Key>)
    ensures
        r == spec_egui_key(key),
{
    match key {
        VirtualKeyCode::Down => Some(Key::ArrowDown),
        VirtualKeyCode::Left => Some(Key::ArrowLeft),
        VirtualKeyCode::Right => Some(Key::ArrowRight),
        VirtualKeyCode::Up => Some(Key::ArrowUp),
        VirtualKeyCode::Escape => Some(Key::Escape),
        VirtualKeyCode::Tab => Some(Key::Tab),
        VirtualKeyCode::Back => Some(Key::Backspace),
        VirtualKeyCode::Return => Some(Key::Enter),
        VirtualKeyCode::Space => Some(Key::Space),
        VirtualKeyCode::Insert => Some(Key::Insert),
        VirtualKeyCode::Delete => Some(Key::Delete),
        VirtualKeyCode::Home => Some(Key::Home),
        VirtualKeyCode::End => Some(Key::End),
        VirtualKeyCode::PageUp => Some(Key::PageUp),
        VirtualKeyCode::PageDown => Some(Key::PageDown),
        VirtualKeyCode::Numpad0 | VirtualKeyCode::Key0 => Some(Key::Num0),
        VirtualKeyCode::Numpad1 | VirtualKeyCode::Key1 => Some(Key::Num1),
        VirtualKeyCode::Numpad2 | VirtualKeyCode::Key2 => Some(Key::Num2),
        VirtualKeyCode::Numpad3 | VirtualKeyCode::Key3 => Some(Key::Num3),
        VirtualKeyCode::Numpad4 | VirtualKeyCode::Key4 => Some(Key::Num4),
        VirtualKeyCode::Numpad5 | VirtualKeyCode::Key5 => Some(Key::Num5),
        VirtualKeyCode::Numpad6 | VirtualKeyCode::Key6 => Some(Key::Num6),
        VirtualKeyCode::Numpad7 | VirtualKeyCode::Key7 => Some(Key::Num7),
        VirtualKeyCode::Numpad8 | VirtualKeyCode::Key8 => Some(Key::Num8),
        VirtualKeyCode::Numpad9 | VirtualKeyCode::Key9 => Some(Key::Num9),
        VirtualKeyCode::A => Some(Key::A),
        VirtualKeyCode::B => Some(Key::B),
        VirtualKeyCode::C => Some(Key::C),
        VirtualKeyCode::D => Some(Key::D),
        VirtualKeyCode::E => Some(Key::E),
        VirtualKeyCode::F => Some(Key::F),
        VirtualKeyCode::G => Some(Key::G),
        VirtualKeyCode::H => Some(Key::H),
        VirtualKeyCode::I => Some(Key::I),
        VirtualKeyCode::J => Some(Key::J),
        VirtualKeyCode::K => Some(Key::K),
        VirtualKeyCode::L => Some(Key::L),
        VirtualKeyCode::M => Some(Key::M),
        VirtualKeyCode::N => Some(Key::N),
        VirtualKeyCode::O => Some(Key::O),
        VirtualKeyCode::P => Some(Key::P),
        VirtualKeyCode::Q => Some(Key::Q),
        VirtualKeyCode::R => Some(Key::R),
        VirtualKeyCode::S => Some(Key::S),
        VirtualKeyCode::T => Some(Key::T),
        VirtualKeyCode::U => Some(Key::U),
        VirtualKeyCode::V => Some(Key::V),
        VirtualKeyCode::W => Some(Key::W),
        VirtualKeyCode::X => Some(Key::X),
        VirtualKeyCode::Y => Some(Key::Y),
        VirtualKeyCode::Z => Some(Key::Z),
        _ => None,
    }
}

/// Whether a UI key is a digit.
pub open spec fn is_digit_key(k: Key) -> bool {
    ||| k == Key::Num0 ||| k == Key::Num1 ||| k == Key::Num2 ||| k == Key::Num3 ||| k == Key::Num4
    ||| k == Key::Num5 ||| k == Key::Num6 ||| k == Key::Num7 ||| k == Key::Num8 ||| k == Key::Num9
}

/// Distinct window keys give distinct UI keys, except for the digits, which both the number
/// row and the numeric keypad type.
#[verifier::rlimit(60)]
pub proof fn lemma_egui_key_distinct(a: VirtualKeyCode, b: VirtualKeyCode)
    requires
        a != b,
        spec_egui_key(a) is Some,
        spec_egui_key(a) == spec_egui_key(b),
    ensures
        is_digit_key(spec_egui_key(a)->0),
{
    match a {
        VirtualKeyCode::Down => {},
        VirtualKeyCode::Left => {},
        VirtualKeyCode::Right => {},
        VirtualKeyCode::Up => {},
        VirtualKeyCode::Escape => {},
        VirtualKeyCode::Tab => {},
        VirtualKeyCode::Back => {},
        VirtualKeyCode::Return => {},
        VirtualKeyCode::Space => {},
        VirtualKeyCode::Insert => {},
        VirtualKeyCode::Delete => {},
        VirtualKeyCode::Home => {},
        VirtualKeyCode::End => {},
        VirtualKeyCode::PageUp => {},
        VirtualKeyCode::PageDown => {},
        _ => {},
    }
}

/// Every UI key is typed by some window key.
#[verifier::rlimit(60)]
pub proof fn lemma_egui_key_onto(k: Key)
    ensures
        exists|a: VirtualKeyCode| spec_egui_key(a) == Some(k),
{
    let a = match k {
        Key::ArrowDown => VirtualKeyCode::Down, Key::ArrowLeft => VirtualKeyCode::Left,
        Key::ArrowRight => VirtualKeyCode::Right, Key::ArrowUp => VirtualKeyCode::Up,
        Key::Escape => VirtualKeyCode::Escape, Key::Tab => VirtualKeyCode::Tab,
        Key::Backspace => VirtualKeyCode::Back, Key::Enter => VirtualKeyCode::Return,
        Key::Space => VirtualKeyCode::Space, Key::Insert => VirtualKeyCode::Insert,
        Key::Delete => VirtualKeyCode::Delete, Key::Home => VirtualKeyCode::Home,
        Key::End => VirtualKeyCode::End, Key::PageUp => VirtualKeyCode::PageUp,
        Key::PageDown => VirtualKeyCode::PageDown, Key::Num0 => VirtualKeyCode::Key0,
        Key::Num1 => VirtualKeyCode::Key1, Key::Num2 => VirtualKeyCode::Key2,
        Key::Num3 => VirtualKeyCode::Key3, Key::Num4 => VirtualKeyCode::Key4,
        Key::Num5 => VirtualKeyCode::Key5, Key::Num6 => VirtualKeyCode::Key6,
        Key::Num7 => VirtualKeyCode::Key7, Key::Num8 => VirtualKeyCode::Key8,
        Key::Num9 => VirtualKeyCode::Key9, Key::A => VirtualKeyCode::A, Key::B => VirtualKeyCode::B,
        Key::C => VirtualKeyCode::C, Key::D => VirtualKeyCode::D, Key::E => VirtualKeyCode::E,
        Key::F => VirtualKeyCode::F, Key::G => VirtualKeyCode::G, Key::H => VirtualKeyCode::H,
        Key::I => VirtualKeyCode::I, Key::J => VirtualKeyCode::J, Key::K => VirtualKeyCode::K,
        Key::L => VirtualKeyCode::L, Key::M => VirtualKeyCode::M, Key::N => VirtualKeyCode::N,
        Key::O => VirtualKeyCode::O, Key::P => VirtualKeyCode::P, Key::Q => VirtualKeyCode::Q,
        Key::R => VirtualKeyCode::R, Key::S => VirtualKeyCode::S, Key::T => VirtualKeyCode::T,
        Key::U => VirtualKeyCode::U, Key::V => VirtualKeyCode::V, Key::W => VirtualKeyCode::W,
        Key::X => VirtualKeyCode::X, Key::Y => VirtualKeyCode::Y, Key::Z => VirtualKeyCode::Z,
    };
    assert(spec_egui_key(a) == Some(k));
}

pub open spec fn spec_egui_mouse_button(mouse_button: MouseButton) -> Option<PointerButton> {
    match mouse_button {
        MouseButton::Left => Some(PointerButton::Primary),
        MouseButton::Middle => Some(PointerButton::Middle),
        MouseButton::Right => Some(PointerButton::Secondary),
        _ => None,
    }
}

/// The UI pointer button for a mouse button, if the UI has one.
pub fn egui_mouse_button(mouse_button: MouseButton) -> (r: Option<PointerButton>)
    ensures
        r == spec_egui_mouse_button(mouse_button),
{
    match mouse_button {
        MouseButton::Left => Some(PointerButton::Primary),
        MouseButton::Middle => Some(PointerButton::Middle),
        MouseButton::Right => Some(PointerButton::Secondary),
        _ => None,
    }
}

pub open spec fn spec_winit_mouse_cursor(egui_cursor: EguiCursorIcon) -> Option<WinitCursorIcon> {
    match egui_cursor {
        EguiCursorIcon::Default => Some(WinitCursorIcon::Default),
        EguiCursorIcon::Hidden => None,
        EguiCursorIcon::ContextMenu => Some(WinitCursorIcon::ContextMenu),
        EguiCursorIcon::Help => Some(WinitCursorIcon::Help),
        EguiCursorIcon::PointingHand => Some(WinitCursorIcon::Hand),
        EguiCursorIcon::Progress => Some(WinitCursorIcon::Progress),
        EguiCursorIcon::Wait => Some(WinitCursorIcon::Wait),
        EguiCursorIcon::Cell => Some(WinitCursorIcon::Cell),
        EguiCursorIcon::Crosshair => Some(WinitCursorIcon::Crosshair),
        EguiCursorIcon::Text => Some(WinitCursorIcon::Text),
        EguiCursorIcon::VerticalText => Some(WinitCursorIcon::VerticalText),
        EguiCursorIcon::Alias => Some(WinitCursorIcon::Alias),
        EguiCursorIcon::Copy => Some(WinitCursorIcon::Copy),
        EguiCursorIcon::Move => Some(WinitCursorIcon::Move),
        EguiCursorIcon::NoDrop => Some(WinitCursorIcon::NoDrop),
        EguiCursorIcon::NotAllowed => Some(WinitCursorIcon::NotAllowed),
        EguiCursorIcon::Grab => Some(WinitCursorIcon::Grab),
        EguiCursorIcon::Grabbing => Some(WinitCursorIcon::Grabbing),
        EguiCursorIcon::AllScroll => Some(WinitCursorIcon::AllScroll),
        EguiCursorIcon::ResizeHorizontal => Some(WinitCursorIcon::EwResize),
        EguiCursorIcon::ResizeNeSw => Some(WinitCursorIcon::NeswResize),
        EguiCursorIcon::ResizeNwSe => Some(WinitCursorIcon::NwseResize),
        EguiCursorIcon::ResizeVertical => Some(WinitCursorIcon::NsResize),
        EguiCursorIcon::ZoomIn => Some(WinitCursorIcon::ZoomIn),
        EguiCursorIcon::ZoomOut => Some(WinitCursorIcon::ZoomOut),
    }
}

/// Distinct mouse buttons that the UI knows give distinct pointer buttons, and every pointer
/// button comes from some mouse button.
pub proof fn lemma_mouse_button_one_to_one(a: MouseButton, b: MouseButton, p: PointerButton)
    ensures
        spec_egui_mouse_button(a) is Some && spec_egui_mouse_button(a) == spec_egui_mouse_button(b) ==> a == b,
        exists|m: MouseButton| spec_egui_mouse_button(m) == Some(p),
{
    let m = match p {
        PointerButton::Primary => MouseButton::Left,
        PointerButton::Secondary => MouseButton::Right,
        PointerButton::Middle => MouseButton::Middle,
    };
    assert(spec_egui_mouse_button(m) == Some(p));
}

/// Distinct cursors of the UI give distinct cursors of the windowing system; only the hidden
/// cursor gives none.
#[verifier::rlimit(40)]
pub proof fn lemma_winit_cursor_one_to_one(a: EguiCursorIcon, b: EguiCursorIcon)
    ensures
        spec_winit_mouse_cursor(a) is None <==> a == EguiCursorIcon::Hidden,
        spec_winit_mouse_cursor(a) is Some && spec_winit_mouse_cursor(a) == spec_winit_mouse_cursor(b) ==> a == b,
{
}

/// The cursor of the windowing system for the cursor the UI asks for; `None` hides it.
pub fn winit_mouse_cursor(egui_cursor: EguiCursorIcon) -> (r: Option<WinitCursorIcon>)
    ensures
        r == spec_winit_mouse_cursor(egui_cursor),
{
    match egui_cursor {
        EguiCursorIcon::Default => Some(WinitCursorIcon::Default),
        EguiCursorIcon::Hidden => None,
        EguiCursorIcon::ContextMenu => Some(WinitCursorIcon::ContextMenu),
        EguiCursorIcon::Help => Some(WinitCursorIcon::Help),
        EguiCursorIcon::PointingHand => Some(WinitCursorIcon::Hand),
        EguiCursorIcon::Progress => Some(WinitCursorIcon::Progress),
        EguiCursorIcon::Wait => Some(WinitCursorIcon::Wait),
        EguiCursorIcon::Cell => Some(WinitCursorIcon::Cell),
        EguiCursorIcon::Crosshair => Some(WinitCursorIcon::Crosshair),
        EguiCursorIcon::Text => Some(WinitCursorIcon::Text),
        EguiCursorIcon::VerticalText => Some(WinitCursorIcon::VerticalText),
        EguiCursorIcon::Alias => Some(WinitCursorIcon::Alias),
        EguiCursorIcon::Copy => Some(WinitCursorIcon::Copy),
        EguiCursorIcon::Move => Some(WinitCursorIcon::Move),
        EguiCursorIcon::NoDrop => Some(WinitCursorIcon::NoDrop),
        EguiCursorIcon::NotAllowed => Some(WinitCursorIcon::NotAllowed),
        EguiCursorIcon::Grab => Some(WinitCursorIcon::Grab),
        EguiCursorIcon::Grabbing => Some(WinitCursorIcon::Grabbing),
        EguiCursorIcon::AllScroll => Some(WinitCursorIcon::AllScroll),
        EguiCursorIcon::ResizeHorizontal => Some(WinitCursorIcon::EwResize),
        EguiCursorIcon::ResizeNeSw => Some(WinitCursorIcon::NeswResize),
        EguiCursorIcon::ResizeNwSe => Some(WinitCursorIcon::NwseResize),
        EguiCursorIcon::ResizeVertical => Some(WinitCursorIcon::NsResize),
        EguiCursorIcon::ZoomIn => Some(WinitCursorIcon::ZoomIn),
        EguiCursorIcon::ZoomOut => Some(WinitCursorIcon::ZoomOut),
    }
}

/// A character is printable unless it is in a private use area or an ASCII control character
/// (special keys come as private use characters; newlines and tabs are keys of their own).
pub open spec fn spec_is_printable_char(chr: char) -> bool {
    let is_in_private_use_area = '\u{e000}' <= chr && chr <= '\u{f8ff}'
        || '\u{f0000}' <= chr && chr <= '\u{ffffd}'
        || '\u{100000}' <= chr && chr <= '\u{10fffd}';
    !is_in_private_use_area && !(chr <= '\u{1f}' || chr == '\u{7f}')
}

/// Whether a received character is text for the UI.
pub fn is_printable_char(chr: char) -> (r: bool)
    ensures
        r == spec_is_printable_char(chr),
{
    let is_in_private_use_area = '\u{e000}' <= chr && chr <= '\u{f8ff}'
        || '\u{f0000}' <= chr && chr <= '\u{ffffd}'
        || '\u{100000}' <= chr && chr <= '\u{10fffd}';
    !is_in_private_use_area && !(chr <= '\u{1f}' || chr == '\u{7f}')
}

/// A received character goes to the UI as text when it is printable and neither control nor
/// command is held.
pub fn accepts_text(chr: char, modifiers: &Modifiers) -> (r: bool)
    ensures
        r == (spec_is_printable_char(chr) && !modifiers.ctrl && !modifiers.mac_cmd),
{
    is_printable_char(chr) && !modifiers.ctrl && !modifiers.mac_cmd
}

/// The modifiers after a key goes down (`pressed`) or up. On macOS the command key is the
/// Windows key; elsewhere it is control.
pub open spec fn spec_modifiers_after(m: Modifiers, keycode: VirtualKeyCode, pressed: bool, macos: bool) -> Modifiers {
    let alt = if keycode == VirtualKeyCode::LAlt || keycode == VirtualKeyCode::RAlt { pressed } else { m.alt };
    let ctrl = if keycode == VirtualKeyCode::LControl || keycode == VirtualKeyCode::RControl { pressed } else { m.ctrl };
    let shift = if keycode == VirtualKeyCode::LShift || keycode == VirtualKeyCode::RShift { pressed } else { m.shift };
    let is_win = keycode == VirtualKeyCode::LWin || keycode == VirtualKeyCode::RWin;
    let mac_cmd = if macos { if is_win { pressed } else { m.mac_cmd } } else { false };
    let command = if macos { if is_win { pressed } else { m.command } } else { ctrl };
    Modifiers { alt, ctrl, shift, mac_cmd, command }
}

/// The events a key press adds: cut or copy for command-X and command-C going down, then the
/// key itself with the modifiers held.
pub open spec fn spec_key_events(m: Modifiers, key: Key, pressed: bool) -> Seq<InputEvent> {
    let clipboard: Seq<InputEvent> = if pressed && m.command && key == Key::X {
        seq![InputEvent::Cut]
    } else if pressed && m.command && key == Key::C {
        seq![InputEvent::Copy]
    } else {
        Seq::empty()
    };
    clipboard.push(InputEvent::Key { key, pressed, modifiers: m })
}

/// A modifier key sets its modifier to whether it is down and leaves the others; off macOS
/// the command modifier follows control and the macOS command modifier is never held; on
/// macOS the Windows key drives both command modifiers.
pub proof fn lemma_modifier_keys(m: Modifiers, keycode: VirtualKeyCode, pressed: bool, macos: bool)
    ensures
        ({
            let a = spec_modifiers_after(m, keycode, pressed, macos);
            let is_win = keycode == VirtualKeyCode::LWin || keycode == VirtualKeyCode::RWin;
            &&& a.alt == if keycode == VirtualKeyCode::LAlt || keycode == VirtualKeyCode::RAlt { pressed } else { m.alt }
            &&& a.ctrl == if keycode == VirtualKeyCode::LControl || keycode == VirtualKeyCode::RControl { pressed } else { m.ctrl }
            &&& a.shift == if keycode == VirtualKeyCode::LShift || keycode == VirtualKeyCode::RShift { pressed } else { m.shift }
            &&& !macos ==> a.command == a.ctrl && !a.mac_cmd
            &&& macos && is_win ==> a.mac_cmd == pressed && a.command == pressed
            &&& macos && !is_win ==> a.mac_cmd == m.mac_cmd && a.command == m.command
        }),
{
}

/// A key adds one event for itself, with the modifiers held, preceded by a cut for command-X
/// going down or a copy for command-C going down.
pub proof fn lemma_key_events_shape(m: Modifiers, key: Key, pressed: bool)
    ensures
        ({
            let ev = spec_key_events(m, key, pressed);
            let clip = pressed && m.command && (key == Key::X || key == Key::C);
            &&& ev.len() == if clip { 2int } else { 1int }
            &&& ev[ev.len() - 1] == InputEvent::Key { key, pressed, modifiers: m }
            &&& clip && key == Key::X ==> ev[0] == InputEvent::Cut
            &&& clip && key == Key::C ==> ev[0] == InputEvent::Copy
        }),
{
}

/// Updates the modifiers for a key going down or up and adds the UI events it produces.
pub fn handle_key_press(
    modifiers: &mut Modifiers,
    events: &mut Vec<InputEvent>,
    keycode: Option<VirtualKeyCode>,
    pressed: bool,
    macos: bool,
)
    ensures
        keycode is None ==> *final(modifiers) == *old(modifiers) && final(events)@ == old(events)@,
        keycode is Some ==> {
            let m = spec_modifiers_after(*old(modifiers), keycode->0, pressed, macos);
            &&& *final(modifiers) == m
            &&& final(events)@ == match spec_egui_key(keycode->0) {
                Some(key) => old(events)@ + spec_key_events(m, key, pressed),
                None => old(events)@,
            }
        },
{
    if let Some(keycode) = keycode {
        if keycode == VirtualKeyCode::LAlt || keycode == VirtualKeyCode::RAlt {
            modifiers.alt = pressed;
        }
        if keycode == VirtualKeyCode::LControl || keycode == VirtualKeyCode::RControl {
            modifiers.ctrl = pressed;
        }
        if keycode == VirtualKeyCode::LShift || keycode == VirtualKeyCode::RShift {
            modifiers.shift = pressed;
        }
        if macos {
            if keycode == VirtualKeyCode::LWin || keycode == VirtualKeyCode::RWin {
                modifiers.mac_cmd = pressed;
                modifiers.command = pressed;
            }
        } else {
            modifiers.mac_cmd = false;
            modifiers.command = modifiers.ctrl;
        }
        if let Some(key) = egui_key(keycode) {
            let ghost e0 = events@;
            // intercept cut/copy/paste
            if pressed && modifiers.command {
                if key == Key::X {
                    events.push(InputEvent::Cut);
                } else if key == Key::C {
                    events.push(InputEvent::Copy);
                }
            }
            events.push(InputEvent::Key { key, pressed, modifiers: *modifiers });
            proof {
                assert(events@ =~= e0 + spec_key_events(*modifiers, key, pressed));
            }
        }
    }
}

} // verus!
