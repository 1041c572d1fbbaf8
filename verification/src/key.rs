//! Key events: what was pressed, with which modifiers, and how.

use crate::text;
use vstd::prelude::*;

verus! {

/// A media key.
#[derive(Clone, Copy, Debug, PartialEq, Eq, Structural)]
pub enum MediaKeyCode {
    Play,
    Pause,
    PlayPause,
    Reverse,
    Stop,
    FastForward,
    Rewind,
    TrackNext,
    TrackPrevious,
    Record,
    LowerVolume,
    RaiseVolume,
    MuteVolume,
}

/// A modifier key pressed on its own.
#[derive(Clone, Copy, Debug, PartialEq, Eq, Structural)]
pub enum ModifierKeyCode {
    LeftShift,
    LeftControl,
    LeftAlt,
    LeftSuper,
    LeftHyper,
    LeftMeta,
    RightShift,
    RightControl,
    RightAlt,
    RightSuper,
    RightHyper,
    RightMeta,
    IsoLevel3Shift,
    IsoLevel5Shift,
}

/// A key.
#[derive(Clone, Copy, Debug, PartialEq, Eq, Structural)]
pub enum KeyCode {
    Backspace,
    Enter,
    Left,
    Right,
    Up,
    Down,
    Home,
    End,
    PageUp,
    PageDown,
    Tab,
    /// Shift+Tab.
    BackTab,
    Delete,
    Insert,
    /// A function key: `F(1)` is F1.
    F(u8),
    /// A character.
    Char(char),
    Null,
    Esc,
    CapsLock,
    ScrollLock,
    NumLock,
    PrintScreen,
    Pause,
    Menu,
    KeypadBegin,
    Media(MediaKeyCode),
    Modifier(ModifierKeyCode),
}

/// The modifiers held while a key was pressed.
#[derive(Clone, Copy, Debug, PartialEq, Eq, Structural)]
pub struct KeyModifiers {
    pub shift: bool,
    pub control: bool,
    pub alt: bool,
    pub super_key: bool,
    pub hyper: bool,
    pub meta: bool,
}

impl KeyModifiers {
    /// No modifier.
    pub open spec fn spec_none() -> Self {
        KeyModifiers {
            shift: false,
            control: false,
            alt: false,
            super_key: false,
            hyper: false,
            meta: false,
        }
    }

    /// No modifier.
    #[verifier::when_used_as_spec(spec_none)]
    pub fn none() -> (res: Self)
        ensures
            res == Self::spec_none(),
    {
        KeyModifiers {
            shift: false,
            control: false,
            alt: false,
            super_key: false,
            hyper: false,
            meta: false,
        }
    }

    /// These modifiers and Shift.
    pub fn with_shift(self) -> (res: Self)
        ensures
            res == (KeyModifiers { shift: true, ..self }),
    {
        KeyModifiers { shift: true, ..self }
    }

    /// These modifiers and Ctrl.
    pub fn with_control(self) -> (res: Self)
        ensures
            res == (KeyModifiers { control: true, ..self }),
    {
        KeyModifiers { control: true, ..self }
    }

    /// These modifiers and Alt.
    pub fn with_alt(self) -> (res: Self)
        ensures
            res == (KeyModifiers { alt: true, ..self }),
    {
        KeyModifiers { alt: true, ..self }
    }
}

/// Whether a key went down, is held, or came up.
#[derive(Clone, Copy, Debug, PartialEq, Eq, Structural)]
pub enum KeyEventKind {
    Press,
    Repeat,
    Release,
}

/// The state of the keyboard at a key event, as far as the terminal tells.
#[derive(Clone, Copy, Debug, PartialEq, Eq, Structural)]
pub struct KeyEventState {
    /// Whether the key is on the keypad.
    pub keypad: bool,
    pub caps_lock: bool,
    pub num_lock: bool,
}

impl KeyEventState {
    /// Nothing told.
    pub open spec fn spec_none() -> Self {
        KeyEventState { keypad: false, caps_lock: false, num_lock: false }
    }

    /// Nothing told.
    #[verifier::when_used_as_spec(spec_none)]
    pub fn none() -> (res: Self)
        ensures
            res == Self::spec_none(),
    {
        KeyEventState { keypad: false, caps_lock: false, num_lock: false }
    }
}

/// One key event. Two events are equal if they are the same but for how an
/// upper-case letter is told: by the letter, by Shift, or by both.
#[derive(Clone, Copy, Debug, Eq)]
pub struct KeyEvent {
    pub code: KeyCode,
    pub modifiers: KeyModifiers,
    pub kind: KeyEventKind,
    pub state: KeyEventState,
}

impl PartialEq for KeyEvent {
    fn eq(&self, other: &Self) -> (res: bool) {
        let a = self.normalize_case();
        let b = other.normalize_case();
        a.code == b.code && a.modifiers == b.modifiers && a.kind == b.kind && a.state == b.state
    }
}

impl vstd::std_specs::cmp::PartialEqSpecImpl for KeyEvent {
    open spec fn obeys_eq_spec() -> bool {
        true
    }

    open spec fn eq_spec(&self, other: &Self) -> bool {
        self.normalized() == other.normalized()
    }
}

impl KeyEvent {
    /// The same event, with Shift held if and only if the character is upper
    /// case, where it is a letter.
    pub open spec fn normalized(self) -> Self {
        match self.code {
            KeyCode::Char(c) => if 'A' <= c <= 'Z' {
                KeyEvent { modifiers: (KeyModifiers { shift: true, ..self.modifiers }), ..self }
            } else if self.modifiers.shift {
                KeyEvent { code: KeyCode::Char(text::upper_char(c)), ..self }
            } else {
                self
            },
            _ => self,
        }
    }

    /// The same event, with Shift held if and only if the character is upper
    /// case, where it is a letter.
    fn normalize_case(self) -> (res: Self)
        ensures
            res == self.normalized(),
    {
        match self.code {
            KeyCode::Char(c) => {
                if 'A' <= c && c <= 'Z' {
                    KeyEvent { modifiers: self.modifiers.with_shift(), ..self }
                } else if self.modifiers.shift {
                    KeyEvent { code: KeyCode::Char(text::ascii_upper_char(c)), ..self }
                } else {
                    self
                }
            },
            _ => self,
        }
    }

    /// The press of a key.
    pub open spec fn spec_new(code: KeyCode, modifiers: KeyModifiers) -> Self {
        KeyEvent { code, modifiers, kind: KeyEventKind::Press, state: KeyEventState::none() }
    }

    /// The press of a key.
    #[verifier::when_used_as_spec(spec_new)]
    pub fn new(code: KeyCode, modifiers: KeyModifiers) -> (res: Self)
        ensures
            res == Self::spec_new(code, modifiers),
    {
        KeyEvent { code, modifiers, kind: KeyEventKind::Press, state: KeyEventState::none() }
    }
}

/// Whether an event is of an upper-case character: it is one, or Shift is held.
pub open spec fn upper_case(event: KeyEvent) -> bool {
    event.modifiers.shift || (event.code matches KeyCode::Char(c) && 'A' <= c <= 'Z')
}

/// The letter, in lower case, or the other character of an event.
pub open spec fn letter_of(c: char) -> char {
    if 'A' <= c <= 'Z' {
        (c as u32 + 32) as char
    } else {
        c
    }
}

/// Events of other keys than characters are equal if all of them is. Events of
/// characters are equal if they are of the same letter, both upper case or both
/// not, and all else is equal; characters that are no letters have no case but
/// Shift.
pub proof fn law_equal_events(a: KeyEvent, b: KeyEvent)
    ensures
        ({
            let x = KeyModifiers { shift: false, ..a.modifiers };
            let y = KeyModifiers { shift: false, ..b.modifiers };
            let rest = x == y && a.kind == b.kind && a.state == b.state;
            match (a.code, b.code) {
                (KeyCode::Char(c), KeyCode::Char(d)) => a.normalized() == b.normalized() <==> rest
                    && upper_case(a) == upper_case(b) && letter_of(c) == letter_of(d),
                _ => a.normalized() == b.normalized() <==> a == b,
            }
        }),
{
}

/// A press has the key and the modifiers that it was made of, and nothing is
/// told of the keyboard; no modifier is none at all.
pub proof fn law_presses(code: KeyCode, modifiers: KeyModifiers)
    ensures
        ({
            let event = KeyEvent::new(code, modifiers);
            let none = KeyModifiers::none();
            &&& event.code == code && event.modifiers == modifiers
            &&& event.kind == KeyEventKind::Press
            &&& !event.state.keypad && !event.state.caps_lock && !event.state.num_lock
            &&& !none.shift && !none.control && !none.alt
            &&& !none.super_key && !none.hyper && !none.meta
        }),
{
}

} // verus!
