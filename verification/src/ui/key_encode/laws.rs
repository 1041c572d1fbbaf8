//! What a program in the terminal is sent for each key, in the terms of xterm's
//! manual.

use crate::key::{KeyCode, KeyEvent, KeyEventKind, KeyModifiers};
use crate::ui::key_encode;
use crate::ui::key_encode::EncodeContext;
use vstd::prelude::*;

verus! {

/// Whether Shift, Alt or Ctrl is held.
pub open spec fn any_held(m: KeyModifiers) -> bool {
    m.shift || m.alt || m.control
}

/// The digit by which xterm tells the modifiers: `1`, and 1 more for Shift, 2
/// for Alt, 4 for Ctrl.
pub open spec fn held_digit(m: KeyModifiers) -> u8 {
    match (m.control, m.alt, m.shift) {
        (false, false, false) => 0x31,
        (false, false, true) => 0x32,
        (false, true, false) => 0x33,
        (false, true, true) => 0x34,
        (true, false, false) => 0x35,
        (true, false, true) => 0x36,
        (true, true, false) => 0x37,
        (true, true, true) => 0x38,
    }
}

proof fn lemma_held_digit(m: KeyModifiers)
    ensures
        ({
            let n = key_encode::modifier_number(m.shift, m.control, m.alt);
            &&& (n == 1) == !any_held(m)
            &&& key_encode::decimal_bytes(n as nat) == seq![held_digit(m)]
        }),
{
    let n = key_encode::modifier_number(m.shift, m.control, m.alt);
    assert(key_encode::decimal_bytes(n as nat) =~= seq![held_digit(m)]);
}

/// Whether Alt alone is held of Shift, Alt and Ctrl.
pub open spec fn alt_alone(m: KeyModifiers) -> bool {
    m.alt && !m.shift && !m.control
}

/// A cursor key ends in its xterm letter: A, B, C and D for Up, Down, Right and
/// Left, H for Home, F for End. Bare, the letter follows `ESC [`, or `ESC O` in
/// application mode; with modifiers, `ESC [ 1 ;` and the modifiers, in both
/// modes. Only Alt with Left or Right, where it moves by a word, is another
/// matter.
pub proof fn law_cursor_keys(key: KeyEvent, ctx: EncodeContext, word_movement: bool, letter: char)
    requires
        key.kind != KeyEventKind::Release,
        ({
            ||| key.code == KeyCode::Up && letter == 'A'
            ||| key.code == KeyCode::Down && letter == 'B'
            ||| key.code == KeyCode::Right && letter == 'C'
            ||| key.code == KeyCode::Left && letter == 'D'
            ||| key.code == KeyCode::Home && letter == 'H'
            ||| key.code == KeyCode::End && letter == 'F'
        }),
        !(word_movement && alt_alone(key.modifiers) && (key.code == KeyCode::Left || key.code
            == KeyCode::Right)),
    ensures
        key_encode::encoding(key, ctx, word_movement) == Some(
            if any_held(key.modifiers) {
                seq![0x1b, '[' as u8, '1' as u8, ';' as u8, held_digit(key.modifiers), letter as u8]
            } else if ctx.application_cursor {
                seq![0x1b, 'O' as u8, letter as u8]
            } else {
                seq![0x1b, '[' as u8, letter as u8]
            },
        ),
{
    lemma_held_digit(key.modifiers);
    assert(key_encode::encoding(key, ctx, word_movement)->0 =~= if any_held(key.modifiers) {
        seq![0x1b, '[' as u8, '1' as u8, ';' as u8, held_digit(key.modifiers), letter as u8]
    } else if ctx.application_cursor {
        seq![0x1b, 'O' as u8, letter as u8]
    } else {
        seq![0x1b, '[' as u8, letter as u8]
    });
}

/// Where words can be moved by, Alt alone with Left or Right is `ESC b` or
/// `ESC f`, in both cursor modes.
pub proof fn law_word_motions(key: KeyEvent, ctx: EncodeContext)
    requires
        key.kind != KeyEventKind::Release,
        alt_alone(key.modifiers),
    ensures
        key.code == KeyCode::Left ==> key_encode::encoding(key, ctx, true) == Some(
            seq![0x1bu8, 'b' as u8],
        ),
        key.code == KeyCode::Right ==> key_encode::encoding(key, ctx, true) == Some(
            seq![0x1bu8, 'f' as u8],
        ),
{
}

/// Insert, Delete, PageUp and PageDown are `ESC [`, the key's number (2, 3, 5
/// and 6), and `~`; modifiers stand before the `~`, after a semicolon.
pub proof fn law_editing_keys(
    key: KeyEvent,
    ctx: EncodeContext,
    word_movement: bool,
    number: char,
)
    requires
        key.kind != KeyEventKind::Release,
        ({
            ||| key.code == KeyCode::Insert && number == '2'
            ||| key.code == KeyCode::Delete && number == '3'
            ||| key.code == KeyCode::PageUp && number == '5'
            ||| key.code == KeyCode::PageDown && number == '6'
        }),
    ensures
        key_encode::encoding(key, ctx, word_movement) == Some(
            if any_held(key.modifiers) {
                seq![0x1b, '[' as u8, number as u8, ';' as u8, held_digit(key.modifiers), '~' as u8]
            } else {
                seq![0x1b, '[' as u8, number as u8, '~' as u8]
            },
        ),
{
    lemma_held_digit(key.modifiers);
    assert(key_encode::encoding(key, ctx, word_movement)->0 =~= if any_held(key.modifiers) {
        seq![0x1b, '[' as u8, number as u8, ';' as u8, held_digit(key.modifiers), '~' as u8]
    } else {
        seq![0x1b, '[' as u8, number as u8, '~' as u8]
    });
}

/// F1 to F4 end in P, Q, R and S, after `ESC O` in both cursor modes when they
/// are bare, and after `ESC [ 1 ;` and the modifiers else.
pub proof fn law_first_function_keys(
    key: KeyEvent,
    ctx: EncodeContext,
    word_movement: bool,
    letter: char,
)
    requires
        key.kind != KeyEventKind::Release,
        ({
            ||| key.code == KeyCode::F(1) && letter == 'P'
            ||| key.code == KeyCode::F(2) && letter == 'Q'
            ||| key.code == KeyCode::F(3) && letter == 'R'
            ||| key.code == KeyCode::F(4) && letter == 'S'
        }),
    ensures
        key_encode::encoding(key, ctx, word_movement) == Some(
            if any_held(key.modifiers) {
                seq![0x1b, '[' as u8, '1' as u8, ';' as u8, held_digit(key.modifiers), letter as u8]
            } else {
                seq![0x1b, 'O' as u8, letter as u8]
            },
        ),
{
    lemma_held_digit(key.modifiers);
    assert(key_encode::encoding(key, ctx, word_movement)->0 =~= if any_held(key.modifiers) {
        seq![0x1b, '[' as u8, '1' as u8, ';' as u8, held_digit(key.modifiers), letter as u8]
    } else {
        seq![0x1b, 'O' as u8, letter as u8]
    });
}

/// F5 to F12 have the numbers 15, 17, 18, 19, 20, 21, 23 and 24, between
/// `ESC [` and `~`; modifiers stand before the `~`, after a semicolon.
pub proof fn law_other_function_keys(
    key: KeyEvent,
    ctx: EncodeContext,
    word_movement: bool,
    tens: char,
    ones: char,
)
    requires
        key.kind != KeyEventKind::Release,
        ({
            ||| key.code == KeyCode::F(5) && tens == '1' && ones == '5'
            ||| key.code == KeyCode::F(6) && tens == '1' && ones == '7'
            ||| key.code == KeyCode::F(7) && tens == '1' && ones == '8'
            ||| key.code == KeyCode::F(8) && tens == '1' && ones == '9'
            ||| key.code == KeyCode::F(9) && tens == '2' && ones == '0'
            ||| key.code == KeyCode::F(10) && tens == '2' && ones == '1'
            ||| key.code == KeyCode::F(11) && tens == '2' && ones == '3'
            ||| key.code == KeyCode::F(12) && tens == '2' && ones == '4'
        }),
    ensures
        key_encode::encoding(key, ctx, word_movement) == Some(
            if any_held(key.modifiers) {
                seq![
                    0x1b,
                    '[' as u8,
                    tens as u8,
                    ones as u8,
                    ';' as u8,
                    held_digit(key.modifiers),
                    '~' as u8,
                ]
            } else {
                seq![0x1b, '[' as u8, tens as u8, ones as u8, '~' as u8]
            },
        ),
{
    lemma_held_digit(key.modifiers);
    assert(key_encode::encoding(key, ctx, word_movement)->0 =~= if any_held(key.modifiers) {
        seq![
            0x1b,
            '[' as u8,
            tens as u8,
            ones as u8,
            ';' as u8,
            held_digit(key.modifiers),
            '~' as u8,
        ]
    } else {
        seq![0x1b, '[' as u8, tens as u8, ones as u8, '~' as u8]
    });
}

/// Enter, Tab and Backspace are the bytes 13, 9 and 127 when they are bare; with
/// modifiers, `ESC [ 27 ;`, the modifiers, the number of that byte, and `~`. But
/// Alt alone with Backspace is `ESC` and that byte. BackTab and Esc are the same
/// whatever is held.
pub proof fn law_control_keys(key: KeyEvent, ctx: EncodeContext, word_movement: bool)
    requires
        key.kind != KeyEventKind::Release,
    ensures
        ({
            let bytes = key_encode::encoding(key, ctx, word_movement);
            let held = held_digit(key.modifiers);
            let head = seq![0x1bu8, '[' as u8, '2' as u8, '7' as u8, ';' as u8, held, ';' as u8];
            &&& key.code == KeyCode::Enter ==> bytes == Some(
                if any_held(key.modifiers) {
                    head + seq!['1' as u8, '3' as u8, '~' as u8]
                } else {
                    seq![13u8]
                },
            )
            &&& key.code == KeyCode::Tab ==> bytes == Some(
                if any_held(key.modifiers) {
                    head + seq!['9' as u8, '~' as u8]
                } else {
                    seq![9u8]
                },
            )
            &&& key.code == KeyCode::Backspace ==> bytes == Some(
                if alt_alone(key.modifiers) {
                    seq![0x1bu8, 127u8]
                } else if any_held(key.modifiers) {
                    head + seq!['1' as u8, '2' as u8, '7' as u8, '~' as u8]
                } else {
                    seq![127u8]
                },
            )
            &&& key.code == KeyCode::BackTab ==> bytes == Some(seq![0x1bu8, '[' as u8, 'Z' as u8])
            &&& key.code == KeyCode::Esc ==> bytes == Some(seq![0x1bu8])
        }),
{
    let bytes = key_encode::encoding(key, ctx, word_movement);
    let held = held_digit(key.modifiers);
    let head = seq![0x1bu8, '[' as u8, '2' as u8, '7' as u8, ';' as u8, held, ';' as u8];
    lemma_held_digit(key.modifiers);
    reveal_with_fuel(key_encode::decimal_bytes, 4);
    assert(key_encode::decimal_bytes(13) =~= seq!['1' as u8, '3' as u8]);
    assert(key_encode::decimal_bytes(9) =~= seq!['9' as u8]);
    assert(key_encode::decimal_bytes(127) =~= seq!['1' as u8, '2' as u8, '7' as u8]);
    if any_held(key.modifiers) {
        if key.code == KeyCode::Enter {
            assert(bytes->0 =~= head + seq!['1' as u8, '3' as u8, '~' as u8]);
        }
        if key.code == KeyCode::Tab {
            assert(bytes->0 =~= head + seq!['9' as u8, '~' as u8]);
        }
        if key.code == KeyCode::Backspace && !alt_alone(key.modifiers) {
            assert(bytes->0 =~= head + seq!['1' as u8, '2' as u8, '7' as u8, '~' as u8]);
        }
    }
}

/// The bytes that Ctrl makes of a character: a letter of either case is its
/// place in the alphabet; `@` and the space are 0; `[`, `\`, `]`, `^` and `_`
/// are 27 to 31; `?` is 127; any other character is itself.
pub open spec fn with_control(c: char) -> Seq<u8> {
    if 'a' <= c <= 'z' {
        seq![(c as u8 - 0x60) as u8]
    } else if 'A' <= c <= '_' {
        seq![(c as u8 - 0x40) as u8]
    } else if c == '@' || c == ' ' {
        seq![0u8]
    } else if c == '?' {
        seq![127u8]
    } else {
        vstd::utf8::encode_utf8(seq![c])
    }
}

/// A character is its UTF-8 bytes, or what Ctrl makes of it; Alt puts an escape
/// byte before. Shift makes no difference: it is in the character.
pub proof fn law_characters(key: KeyEvent, ctx: EncodeContext, word_movement: bool, c: char)
    requires
        key.kind != KeyEventKind::Release,
        key.code == KeyCode::Char(c),
    ensures
        ({
            let plain = if key.modifiers.control {
                with_control(c)
            } else {
                vstd::utf8::encode_utf8(seq![c])
            };
            key_encode::encoding(key, ctx, word_movement) == Some(
                if key.modifiers.alt {
                    seq![0x1bu8] + plain
                } else {
                    plain
                },
            )
        }),
{
    assert(key_encode::control_bytes(c) =~= with_control(c));
}

/// A release is never sent, nor is any key but those above; everything else is.
pub proof fn law_what_is_sent(key: KeyEvent, ctx: EncodeContext, word_movement: bool)
    ensures
        key_encode::encoding(key, ctx, word_movement) is None <==> {
            ||| key.kind == KeyEventKind::Release
            ||| key.code == KeyCode::F(0)
            ||| key.code matches KeyCode::F(n) && n > 12
            ||| key.code == KeyCode::Null
            ||| key.code == KeyCode::CapsLock
            ||| key.code == KeyCode::ScrollLock
            ||| key.code == KeyCode::NumLock
            ||| key.code == KeyCode::PrintScreen
            ||| key.code == KeyCode::Pause
            ||| key.code == KeyCode::Menu
            ||| key.code == KeyCode::KeypadBegin
            ||| key.code is Media
            ||| key.code is Modifier
        },
{
}

/// What is sent depends on the key, on Shift, Alt and Ctrl, and on whether the
/// event is a release; nothing else about the event matters.
pub proof fn law_what_matters(
    a: KeyEvent,
    b: KeyEvent,
    ctx: EncodeContext,
    word_movement: bool,
)
    requires
        a.code == b.code,
        a.modifiers.shift == b.modifiers.shift,
        a.modifiers.alt == b.modifiers.alt,
        a.modifiers.control == b.modifiers.control,
        (a.kind == KeyEventKind::Release) == (b.kind == KeyEventKind::Release),
    ensures
        key_encode::encoding(a, ctx, word_movement) == key_encode::encoding(b, ctx, word_movement),
{
}

/// The number that decimal digits denote.
pub open spec fn number_of(digits: Seq<u8>) -> nat
    decreases digits.len(),
{
    if digits.len() == 0 {
        0
    } else {
        number_of(digits.drop_last()) * 10 + (digits.last() - 0x30) as nat
    }
}

/// A number is sent in decimal digits that denote it, without a leading zero
/// but for 0 itself.
pub proof fn law_numbers_are_decimal(n: nat)
    ensures
        ({
            let digits = key_encode::decimal_bytes(n);
            &&& digits.len() > 0
            &&& forall|i: int| 0 <= i < digits.len() ==> 0x30 <= #[trigger] digits[i] <= 0x39
            &&& number_of(digits) == n
            &&& n > 0 ==> digits[0] != 0x30
        }),
    decreases n,
{
    let digits = key_encode::decimal_bytes(n);
    if n >= 10 {
        let front = key_encode::decimal_bytes(n / 10);
        law_numbers_are_decimal(n / 10);
        assert(digits.drop_last() =~= front);
        assert(digits[0] == front[0]);
    } else {
        assert(digits.drop_last() =~= Seq::<u8>::empty());
        assert(number_of(digits.drop_last()) == 0);
    }
}

/// The sequence of any key with a bare form: that form, or with modifiers
/// `ESC [ 27 ;`, their digit, the key's number in decimal, and `~`.
pub proof fn law_modified_form(keycode: u16, m: KeyModifiers, bare: Seq<u8>)
    ensures
        ({
            let bytes = key_encode::modified_or_bytes(keycode, m.shift, m.control, m.alt, bare);
            if any_held(m) {
                let head =
                    seq![0x1bu8, '[' as u8, '2' as u8, '7' as u8, ';' as u8, held_digit(m), ';' as u8];
                &&& bytes.len() > 8
                &&& bytes.take(7) == head
                &&& number_of(bytes.subrange(7, bytes.len() - 1)) == keycode
                &&& bytes.last() == '~' as u8
            } else {
                bytes == bare
            }
        }),
{
    lemma_held_digit(m);
    law_numbers_are_decimal(keycode as nat);
    let bytes = key_encode::modified_or_bytes(keycode, m.shift, m.control, m.alt, bare);
    if any_held(m) {
        let digits = key_encode::decimal_bytes(keycode as nat);
        assert(bytes.subrange(7, bytes.len() - 1) =~= digits);
        assert(bytes.take(7) =~= seq![
            0x1bu8,
            '[' as u8,
            '2' as u8,
            '7' as u8,
            ';' as u8,
            held_digit(m),
            ';' as u8,
        ]);
    }
}

/// The sequence of any cursor letter, and of any number before a `~`.
pub proof fn law_letter_and_tilde_forms(
    letter: u8,
    number: Seq<u8>,
    m: KeyModifiers,
    app_cursor: bool,
)
    ensures
        key_encode::arrow_bytes(letter, m.shift, m.control, m.alt, app_cursor) == if any_held(m) {
            seq![0x1bu8, '[' as u8, '1' as u8, ';' as u8, held_digit(m), letter]
        } else if app_cursor {
            seq![0x1bu8, 'O' as u8, letter]
        } else {
            seq![0x1bu8, '[' as u8, letter]
        },
        key_encode::tilde_bytes(number, m.shift, m.control, m.alt) == if any_held(m) {
            seq![0x1bu8, '[' as u8] + number + seq![';' as u8, held_digit(m), '~' as u8]
        } else {
            seq![0x1bu8, '[' as u8] + number + seq!['~' as u8]
        },
{
    lemma_held_digit(m);
    assert(key_encode::tilde_bytes(number, m.shift, m.control, m.alt) =~= if any_held(m) {
        seq![0x1bu8, '[' as u8] + number + seq![';' as u8, held_digit(m), '~' as u8]
    } else {
        seq![0x1bu8, '[' as u8] + number + seq!['~' as u8]
    });
    assert(key_encode::arrow_bytes(letter, m.shift, m.control, m.alt, app_cursor) =~= if any_held(
        m,
    ) {
        seq![0x1bu8, '[' as u8, '1' as u8, ';' as u8, held_digit(m), letter]
    } else if app_cursor {
        seq![0x1bu8, 'O' as u8, letter]
    } else {
        seq![0x1bu8, '[' as u8, letter]
    });
}

/// A function key is sent by itself as it is as part of an event, and Alt puts
/// an escape byte before any bytes.
pub proof fn law_parts(
    n: u8,
    c: char,
    m: KeyModifiers,
    ctx: EncodeContext,
    word_movement: bool,
    bytes: Seq<u8>,
)
    ensures
        key_encode::function_bytes(n, m.shift, m.control, m.alt) == key_encode::encoding(
            KeyEvent::new(KeyCode::F(n), m),
            ctx,
            word_movement,
        ),
        Some(key_encode::char_bytes(c, m.control, m.alt)) == key_encode::encoding(
            KeyEvent::new(KeyCode::Char(c), m),
            ctx,
            word_movement,
        ),
        key_encode::control_bytes(c) == with_control(c),
        key_encode::with_alt_prefix(true, bytes) == seq![0x1bu8] + bytes,
        key_encode::with_alt_prefix(false, bytes) == bytes,
        key_encode::modifier_number(m.shift, m.control, m.alt) + 0x30 == held_digit(m),
{
    assert(key_encode::control_bytes(c) =~= with_control(c));
}

/// The model of what is sent leaves nothing out.
pub proof fn law_models_are_whole(bytes: Option<Vec<u8>>)
    ensures
        bytes is None ==> key_encode::bytes_view(bytes) is None,
        bytes is Some ==> key_encode::bytes_view(bytes) == Some(bytes->0@),
{
}

} // verus!
