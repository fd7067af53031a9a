//! Keyboard input: the key table and the event source.
//!
//! A platform hands the library the key code strings its own input events
//! carry; [`parse_code`] maps each to the one [`Key`] the table names, and
//! everything unrecognised to [`Key::Unknown`]. A [`Keyboard`] turns the
//! stream of raw codes into [`Event`]s, in arrival order.

use vstd::prelude::*;

verus! {

/// A key's location where the keyboard has a left and a right one.
#[derive(Clone, Copy, PartialEq, Eq, Structural, Debug)]
pub enum Location {
    Left,
    Right,
}

/// A digit key, on the main rows or the numeric pad.
#[derive(Clone, Copy, PartialEq, Eq, Structural, Debug)]
pub enum Number {
    Zero,
    One,
    Two,
    Three,
    Four,
    Five,
    Six,
    Seven,
    Eight,
    Nine,
}

/// A letter key.
#[derive(Clone, Copy, PartialEq, Eq, Structural, Debug)]
pub enum Alpha {
    A,
    B,
    C,
    D,
    E,
    F,
    G,
    H,
    I,
    J,
    K,
    L,
    M,
    N,
    O,
    P,
    Q,
    R,
    S,
    T,
    U,
    V,
    W,
    X,
    Y,
    Z,
}

/// A key of the numeric pad.
#[derive(Clone, Copy, PartialEq, Eq, Structural, Debug)]
pub enum Numpad {
    Number(Number),
    Add,
    Multiply,
    Decimal,
    Equal,
    Enter,
}

/// A function key.
#[derive(Clone, Copy, PartialEq, Eq, Structural, Debug)]
pub enum Function {
    F1,
    F2,
    F3,
    F4,
    F5,
    F6,
    F7,
    F8,
    F9,
    F10,
    F11,
    F12,
    F13,
    F14,
    F15,
    F16,
    F17,
    F18,
    F19,
    F20,
    F21,
    F22,
    F23,
    F24,
}

/// An arrow key.
#[derive(Clone, Copy, PartialEq, Eq, Structural, Debug)]
pub enum Arrow {
    Up,
    Down,
    Left,
    Right,
}

/// A key of the keyboard.
#[derive(Clone, Copy, PartialEq, Eq, Structural, Debug)]
pub enum Key {
    Escape,
    Number(Number),
    Alpha(Alpha),
    Numpad(Numpad),
    Function(Function),
    Arrow(Arrow),
    Control(Location),
    Shift(Location),
    Alt(Location),
    Meta(Location),
    Dash,
    Equal,
    Backspace,
    Tab,
    OpenBracket,
    CloseBracket,
    Enter,
    Semicolon,
    Quote,
    Backtick,
    Comma,
    Period,
    Slash,
    Backslash,
    Space,
    CapsLock,
    Pause,
    ScrollLock,
    PrintScreen,
    NumLock,
    Home,
    Insert,
    PageUp,
    PageDown,
    End,
    Delete,
    ContextMenu,
    Unknown,
}

/// A key went down or came up.
#[derive(Clone, Copy, PartialEq, Eq, Structural, Debug)]
pub enum Event {
    Down(Key),
    Up(Key),
}

/// The key a code string names, checks in table order; anything the table
/// does not list is [`Key::Unknown`].
pub open spec fn parse_code_spec(s: Seq<char>) -> Key {
    if s == "Escape"@ {
        Key::Escape
    } else if s == "Digit0"@ {
        Key::Number(Number::Zero)
    } else if s == "Digit1"@ {
        Key::Number(Number::One)
    } else if s == "Digit2"@ {
        Key::Number(Number::Two)
    } else if s == "Digit3"@ {
        Key::Number(Number::Three)
    } else if s == "Digit4"@ {
        Key::Number(Number::Four)
    } else if s == "Digit5"@ {
        Key::Number(Number::Five)
    } else if s == "Digit6"@ {
        Key::Number(Number::Six)
    } else if s == "Digit7"@ {
        Key::Number(Number::Seven)
    } else if s == "Digit8"@ {
        Key::Number(Number::Eight)
    } else if s == "Digit9"@ {
        Key::Number(Number::Nine)
    } else if s == "Minus"@ {
        Key::Dash
    } else if s == "Equal"@ {
        Key::Equal
    } else if s == "Backspace"@ {
        Key::Backspace
    } else if s == "Tab"@ {
        Key::Tab
    } else if s == "KeyQ"@ {
        Key::Alpha(Alpha::Q)
    } else if s == "KeyW"@ {
        Key::Alpha(Alpha::W)
    } else if s == "KeyE"@ {
        Key::Alpha(Alpha::E)
    } else if s == "KeyR"@ {
        Key::Alpha(Alpha::R)
    } else if s == "KeyT"@ {
        Key::Alpha(Alpha::T)
    } else if s == "KeyY"@ {
        Key::Alpha(Alpha::Y)
    } else if s == "KeyU"@ {
        Key::Alpha(Alpha::U)
    } else if s == "KeyI"@ {
        Key::Alpha(Alpha::I)
    } else if s == "KeyO"@ {
        Key::Alpha(Alpha::O)
    } else if s == "KeyP"@ {
        Key::Alpha(Alpha::P)
    } else if s == "KeyA"@ {
        Key::Alpha(Alpha::A)
    } else if s == "KeyS"@ {
        Key::Alpha(Alpha::S)
    } else if s == "KeyD"@ {
        Key::Alpha(Alpha::D)
    } else if s == "KeyF"@ {
        Key::Alpha(Alpha::F)
    } else if s == "KeyG"@ {
        Key::Alpha(Alpha::G)
    } else if s == "KeyH"@ {
        Key::Alpha(Alpha::H)
    } else if s == "KeyJ"@ {
        Key::Alpha(Alpha::J)
    } else if s == "KeyK"@ {
        Key::Alpha(Alpha::K)
    } else if s == "KeyL"@ {
        Key::Alpha(Alpha::L)
    } else if s == "KeyZ"@ {
        Key::Alpha(Alpha::Z)
    } else if s == "KeyX"@ {
        Key::Alpha(Alpha::X)
    } else if s == "KeyC"@ {
        Key::Alpha(Alpha::C)
    } else if s == "KeyV"@ {
        Key::Alpha(Alpha::V)
    } else if s == "KeyB"@ {
        Key::Alpha(Alpha::B)
    } else if s == "KeyN"@ {
        Key::Alpha(Alpha::N)
    } else if s == "KeyM"@ {
        Key::Alpha(Alpha::M)
    } else if s == "BracketLeft"@ {
        Key::OpenBracket
    } else if s == "BracketRight"@ {
        Key::CloseBracket
    } else if s == "Enter"@ {
        Key::Enter
    } else if s == "ControlLeft"@ {
        Key::Control(Location::Left)
    } else if s == "ControlRight"@ {
        Key::Control(Location::Right)
    } else if s == "Semicolon"@ {
        Key::Semicolon
    } else if s == "Quote"@ {
        Key::Quote
    } else if s == "Backquote"@ {
        Key::Backtick
    } else if s == "ShiftLeft"@ {
        Key::Shift(Location::Left)
    } else if s == "ShiftRight"@ {
        Key::Shift(Location::Right)
    } else if s == "Comma"@ {
        Key::Comma
    } else if s == "Period"@ {
        Key::Period
    } else if s == "Slash"@ {
        Key::Slash
    } else if s == "NumpadMultiply"@ {
        Key::Numpad(Numpad::Multiply)
    } else if s == "AltLeft"@ {
        Key::Alt(Location::Left)
    } else if s == "AltRight"@ {
        Key::Alt(Location::Right)
    } else if s == "MetaLeft"@ {
        Key::Meta(Location::Left)
    } else if s == "MetaRight"@ {
        Key::Meta(Location::Right)
    } else if s == "Space"@ {
        Key::Space
    } else if s == "CapsLock"@ {
        Key::CapsLock
    } else if s == "F1"@ {
        Key::Function(Function::F1)
    } else if s == "F2"@ {
        Key::Function(Function::F2)
    } else if s == "F3"@ {
        Key::Function(Function::F3)
    } else if s == "F4"@ {
        Key::Function(Function::F4)
    } else if s == "F5"@ {
        Key::Function(Function::F5)
    } else if s == "F6"@ {
        Key::Function(Function::F6)
    } else if s == "F7"@ {
        Key::Function(Function::F7)
    } else if s == "F8"@ {
        Key::Function(Function::F8)
    } else if s == "F9"@ {
        Key::Function(Function::F9)
    } else if s == "F10"@ {
        Key::Function(Function::F10)
    } else if s == "F11"@ {
        Key::Function(Function::F11)
    } else if s == "F12"@ {
        Key::Function(Function::F12)
    } else if s == "F13"@ {
        Key::Function(Function::F13)
    } else if s == "F14"@ {
        Key::Function(Function::F14)
    } else if s == "F15"@ {
        Key::Function(Function::F15)
    } else if s == "F16"@ {
        Key::Function(Function::F16)
    } else if s == "F17"@ {
        Key::Function(Function::F17)
    } else if s == "F18"@ {
        Key::Function(Function::F18)
    } else if s == "F19"@ {
        Key::Function(Function::F19)
    } else if s == "F20"@ {
        Key::Function(Function::F20)
    } else if s == "F21"@ {
        Key::Function(Function::F21)
    } else if s == "F22"@ {
        Key::Function(Function::F22)
    } else if s == "F23"@ {
        Key::Function(Function::F23)
    } else if s == "F24"@ {
        Key::Function(Function::F24)
    } else if s == "Pause"@ {
        Key::Pause
    } else if s == "ScrollLock"@ {
        Key::ScrollLock
    } else if s == "Numpad0"@ {
        Key::Numpad(Numpad::Number(Number::Zero))
    } else if s == "Numpad1"@ {
        Key::Numpad(Numpad::Number(Number::One))
    } else if s == "Numpad2"@ {
        Key::Numpad(Numpad::Number(Number::Two))
    } else if s == "Numpad3"@ {
        Key::Numpad(Numpad::Number(Number::Three))
    } else if s == "Numpad4"@ {
        Key::Numpad(Numpad::Number(Number::Four))
    } else if s == "Numpad5"@ {
        Key::Numpad(Numpad::Number(Number::Five))
    } else if s == "Numpad6"@ {
        Key::Numpad(Numpad::Number(Number::Six))
    } else if s == "Numpad7"@ {
        Key::Numpad(Numpad::Number(Number::Seven))
    } else if s == "Numpad8"@ {
        Key::Numpad(Numpad::Number(Number::Eight))
    } else if s == "Numpad9"@ {
        Key::Numpad(Numpad::Number(Number::Nine))
    } else if s == "NumpadAdd"@ {
        Key::Numpad(Numpad::Add)
    } else if s == "NumpadDecimal"@ {
        Key::Numpad(Numpad::Decimal)
    } else if s == "PrintScreen"@ {
        Key::PrintScreen
    } else if s == "NumpadEqual"@ {
        Key::Numpad(Numpad::Equal)
    } else if s == "NumpadEnter"@ {
        Key::Numpad(Numpad::Enter)
    } else if s == "NumLock"@ {
        Key::NumLock
    } else if s == "Home"@ {
        Key::Home
    } else if s == "Insert"@ {
        Key::Insert
    } else if s == "PageUp"@ {
        Key::PageUp
    } else if s == "PageDown"@ {
        Key::PageDown
    } else if s == "ArrowUp"@ {
        Key::Arrow(Arrow::Up)
    } else if s == "ArrowDown"@ {
        Key::Arrow(Arrow::Down)
    } else if s == "ArrowLeft"@ {
        Key::Arrow(Arrow::Left)
    } else if s == "ArrowRight"@ {
        Key::Arrow(Arrow::Right)
    } else if s == "End"@ {
        Key::End
    } else if s == "Delete"@ {
        Key::Delete
    } else if s == "ContextMenu"@ {
        Key::ContextMenu
    } else if s == "Backslash"@ {
        Key::Backslash
    } else {
        Key::Unknown
    }
}

fn str_eq(a: &str, b: &str) -> (r: bool)
    ensures
        r == (a@ == b@),
{
    let sa: String = a.to_owned();
    let sb: String = b.to_owned();
    sa.eq(&sb)
}

/// Map a platform key code to the key it names: exactly the table of
/// [`parse_code_spec`], with every unlisted code mapped to
/// [`Key::Unknown`].
#[verifier::rlimit(100)]
pub fn parse_code(code: &str) -> (r: Key)
    ensures
        r == parse_code_spec(code@),
{
    if str_eq(code, "Escape") {
        Key::Escape
    } else if str_eq(code, "Digit0") {
        Key::Number(Number::Zero)
    } else if str_eq(code, "Digit1") {
        Key::Number(Number::One)
    } else if str_eq(code, "Digit2") {
        Key::Number(Number::Two)
    } else if str_eq(code, "Digit3") {
        Key::Number(Number::Three)
    } else if str_eq(code, "Digit4") {
        Key::Number(Number::Four)
    } else if str_eq(code, "Digit5") {
        Key::Number(Number::Five)
    } else if str_eq(code, "Digit6") {
        Key::Number(Number::Six)
    } else if str_eq(code, "Digit7") {
        Key::Number(Number::Seven)
    } else if str_eq(code, "Digit8") {
        Key::Number(Number::Eight)
    } else if str_eq(code, "Digit9") {
        Key::Number(Number::Nine)
    } else if str_eq(code, "Minus") {
        Key::Dash
    } else if str_eq(code, "Equal") {
        Key::Equal
    } else if str_eq(code, "Backspace") {
        Key::Backspace
    } else if str_eq(code, "Tab") {
        Key::Tab
    } else if str_eq(code, "KeyQ") {
        Key::Alpha(Alpha::Q)
    } else if str_eq(code, "KeyW") {
        Key::Alpha(Alpha::W)
    } else if str_eq(code, "KeyE") {
        Key::Alpha(Alpha::E)
    } else if str_eq(code, "KeyR") {
        Key::Alpha(Alpha::R)
    } else if str_eq(code, "KeyT") {
        Key::Alpha(Alpha::T)
    } else if str_eq(code, "KeyY") {
        Key::Alpha(Alpha::Y)
    } else if str_eq(code, "KeyU") {
        Key::Alpha(Alpha::U)
    } else if str_eq(code, "KeyI") {
        Key::Alpha(Alpha::I)
    } else if str_eq(code, "KeyO") {
        Key::Alpha(Alpha::O)
    } else if str_eq(code, "KeyP") {
        Key::Alpha(Alpha::P)
    } else if str_eq(code, "KeyA") {
        Key::Alpha(Alpha::A)
    } else if str_eq(code, "KeyS") {
        Key::Alpha(Alpha::S)
    } else if str_eq(code, "KeyD") {
        Key::Alpha(Alpha::D)
    } else if str_eq(code, "KeyF") {
        Key::Alpha(Alpha::F)
    } else if str_eq(code, "KeyG") {
        Key::Alpha(Alpha::G)
    } else if str_eq(code, "KeyH") {
        Key::Alpha(Alpha::H)
    } else if str_eq(code, "KeyJ") {
        Key::Alpha(Alpha::J)
    } else if str_eq(code, "KeyK") {
        Key::Alpha(Alpha::K)
    } else if str_eq(code, "KeyL") {
        Key::Alpha(Alpha::L)
    } else if str_eq(code, "KeyZ") {
        Key::Alpha(Alpha::Z)
    } else if str_eq(code, "KeyX") {
        Key::Alpha(Alpha::X)
    } else if str_eq(code, "KeyC") {
        Key::Alpha(Alpha::C)
    } else if str_eq(code, "KeyV") {
        Key::Alpha(Alpha::V)
    } else if str_eq(code, "KeyB") {
        Key::Alpha(Alpha::B)
    } else if str_eq(code, "KeyN") {
        Key::Alpha(Alpha::N)
    } else if str_eq(code, "KeyM") {
        Key::Alpha(Alpha::M)
    } else if str_eq(code, "BracketLeft") {
        Key::OpenBracket
    } else if str_eq(code, "BracketRight") {
        Key::CloseBracket
    } else if str_eq(code, "Enter") {
        Key::Enter
    } else if str_eq(code, "ControlLeft") {
        Key::Control(Location::Left)
    } else if str_eq(code, "ControlRight") {
        Key::Control(Location::Right)
    } else if str_eq(code, "Semicolon") {
        Key::Semicolon
    } else if str_eq(code, "Quote") {
        Key::Quote
    } else if str_eq(code, "Backquote") {
        Key::Backtick
    } else if str_eq(code, "ShiftLeft") {
        Key::Shift(Location::Left)
    } else if str_eq(code, "ShiftRight") {
        Key::Shift(Location::Right)
    } else if str_eq(code, "Comma") {
        Key::Comma
    } else if str_eq(code, "Period") {
        Key::Period
    } else if str_eq(code, "Slash") {
        Key::Slash
    } else if str_eq(code, "NumpadMultiply") {
        Key::Numpad(Numpad::Multiply)
    } else if str_eq(code, "AltLeft") {
        Key::Alt(Location::Left)
    } else if str_eq(code, "AltRight") {
        Key::Alt(Location::Right)
    } else if str_eq(code, "MetaLeft") {
        Key::Meta(Location::Left)
    } else if str_eq(code, "MetaRight") {
        Key::Meta(Location::Right)
    } else if str_eq(code, "Space") {
        Key::Space
    } else if str_eq(code, "CapsLock") {
        Key::CapsLock
    } else if str_eq(code, "F1") {
        Key::Function(Function::F1)
    } else if str_eq(code, "F2") {
        Key::Function(Function::F2)
    } else if str_eq(code, "F3") {
        Key::Function(Function::F3)
    } else if str_eq(code, "F4") {
        Key::Function(Function::F4)
    } else if str_eq(code, "F5") {
        Key::Function(Function::F5)
    } else if str_eq(code, "F6") {
        Key::Function(Function::F6)
    } else if str_eq(code, "F7") {
        Key::Function(Function::F7)
    } else if str_eq(code, "F8") {
        Key::Function(Function::F8)
    } else if str_eq(code, "F9") {
        Key::Function(Function::F9)
    } else if str_eq(code, "F10") {
        Key::Function(Function::F10)
    } else if str_eq(code, "F11") {
        Key::Function(Function::F11)
    } else if str_eq(code, "F12") {
        Key::Function(Function::F12)
    } else if str_eq(code, "F13") {
        Key::Function(Function::F13)
    } else if str_eq(code, "F14") {
        Key::Function(Function::F14)
    } else if str_eq(code, "F15") {
        Key::Function(Function::F15)
    } else if str_eq(code, "F16") {
        Key::Function(Function::F16)
    } else if str_eq(code, "F17") {
        Key::Function(Function::F17)
    } else if str_eq(code, "F18") {
        Key::Function(Function::F18)
    } else if str_eq(code, "F19") {
        Key::Function(Function::F19)
    } else if str_eq(code, "F20") {
        Key::Function(Function::F20)
    } else if str_eq(code, "F21") {
        Key::Function(Function::F21)
    } else if str_eq(code, "F22") {
        Key::Function(Function::F22)
    } else if str_eq(code, "F23") {
        Key::Function(Function::F23)
    } else if str_eq(code, "F24") {
        Key::Function(Function::F24)
    } else if str_eq(code, "Pause") {
        Key::Pause
    } else if str_eq(code, "ScrollLock") {
        Key::ScrollLock
    } else if str_eq(code, "Numpad0") {
        Key::Numpad(Numpad::Number(Number::Zero))
    } else if str_eq(code, "Numpad1") {
        Key::Numpad(Numpad::Number(Number::One))
    } else if str_eq(code, "Numpad2") {
        Key::Numpad(Numpad::Number(Number::Two))
    } else if str_eq(code, "Numpad3") {
        Key::Numpad(Numpad::Number(Number::Three))
    } else if str_eq(code, "Numpad4") {
        Key::Numpad(Numpad::Number(Number::Four))
    } else if str_eq(code, "Numpad5") {
        Key::Numpad(Numpad::Number(Number::Five))
    } else if str_eq(code, "Numpad6") {
        Key::Numpad(Numpad::Number(Number::Six))
    } else if str_eq(code, "Numpad7") {
        Key::Numpad(Numpad::Number(Number::Seven))
    } else if str_eq(code, "Numpad8") {
        Key::Numpad(Numpad::Number(Number::Eight))
    } else if str_eq(code, "Numpad9") {
        Key::Numpad(Numpad::Number(Number::Nine))
    } else if str_eq(code, "NumpadAdd") {
        Key::Numpad(Numpad::Add)
    } else if str_eq(code, "NumpadDecimal") {
        Key::Numpad(Numpad::Decimal)
    } else if str_eq(code, "PrintScreen") {
        Key::PrintScreen
    } else if str_eq(code, "NumpadEqual") {
        Key::Numpad(Numpad::Equal)
    } else if str_eq(code, "NumpadEnter") {
        Key::Numpad(Numpad::Enter)
    } else if str_eq(code, "NumLock") {
        Key::NumLock
    } else if str_eq(code, "Home") {
        Key::Home
    } else if str_eq(code, "Insert") {
        Key::Insert
    } else if str_eq(code, "PageUp") {
        Key::PageUp
    } else if str_eq(code, "PageDown") {
        Key::PageDown
    } else if str_eq(code, "ArrowUp") {
        Key::Arrow(Arrow::Up)
    } else if str_eq(code, "ArrowDown") {
        Key::Arrow(Arrow::Down)
    } else if str_eq(code, "ArrowLeft") {
        Key::Arrow(Arrow::Left)
    } else if str_eq(code, "ArrowRight") {
        Key::Arrow(Arrow::Right)
    } else if str_eq(code, "End") {
        Key::End
    } else if str_eq(code, "Delete") {
        Key::Delete
    } else if str_eq(code, "ContextMenu") {
        Key::ContextMenu
    } else if str_eq(code, "Backslash") {
        Key::Backslash
    } else {
        Key::Unknown
    }
}

/// The keyboard as an event source: raw key codes go in, parsed events
/// come out, in arrival order.
pub struct Keyboard {
    events: Vec<Event>,
}

impl Keyboard {
    /// The parsed events not yet taken, oldest first.
    pub closed spec fn events(self) -> Seq<Event> {
        self.events@
    }

    /// A keyboard with no pending event.
    pub fn new() -> (r: Keyboard)
        ensures
            r.events() =~= Seq::<Event>::empty(),
    {
        Keyboard { events: Vec::new() }
    }

    /// A key went down: parse the code and append the event.
    pub fn key_down(&mut self, code: &str)
        ensures
            final(self).events() =~= old(self).events().push(
                Event::Down(parse_code_spec(code@)),
            ),
    {
        let key = parse_code(code);
        self.events.push(Event::Down(key));
    }

    /// A key came up: parse the code and append the event.
    pub fn key_up(&mut self, code: &str)
        ensures
            final(self).events() =~= old(self).events().push(Event::Up(parse_code_spec(code@))),
    {
        let key = parse_code(code);
        self.events.push(Event::Up(key));
    }

    /// The oldest pending event, if any.
    pub fn next_event(&mut self) -> (r: Option<Event>)
        ensures
            match r {
                Some(e) => old(self).events().len() > 0 && e == old(self).events()[0] && final(self).events() =~= old(self).events().drop_first(),
                None => old(self).events().len() == 0 && final(self).events() =~= old(self).events(),
            },
    {
        if self.events.len() > 0 {
            Some(self.events.remove(0))
        } else {
            None
        }
    }
}

} // verus!
