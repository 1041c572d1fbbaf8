//! Encodes key events into the bytes that a program in a terminal expects on
//! its standard input.
//!
//! The sequences are those of xterm: printable characters as UTF-8, Ctrl
//! characters as control bytes, Alt as an `ESC` prefix, arrows and Home / End
//! as CSI or SS3 sequences, the remaining editing keys and F5 to F12 as CSI
//! `~` sequences, and `modifyOtherKeys` for Enter, Tab and Backspace with a
//! modifier.

pub mod laws;

use crate::key::{KeyCode, KeyEvent, KeyEventKind};
use crate::text;
use vstd::prelude::*;

verus! {

/// What the inner program has asked of the terminal that changes how a key is
/// encoded.
#[derive(Clone, Copy, Debug)]
pub struct EncodeContext {
    /// Cursor-key application mode (DECCKM): bare arrows and Home / End use
    /// the SS3 form in place of the CSI form.
    pub application_cursor: bool,
}

impl Default for EncodeContext {
    fn default() -> (res: Self)
        ensures
            !res.application_cursor,
    {
        EncodeContext { application_cursor: false }
    }
}

/// The escape byte.
pub const ESC: u8 = 0x1b;

/// An optional byte vector by its contents.
pub open spec fn bytes_view(bytes: Option<Vec<u8>>) -> Option<Seq<u8>> {
    match bytes {
        Some(b) => Some(b@),
        None => None,
    }
}

/// The decimal digits of `n` as ASCII bytes.
pub open spec fn decimal_bytes(n: nat) -> Seq<u8>
    decreases n,
{
    if n < 10 {
        seq![('0' as u8 + n) as u8]
    } else {
        decimal_bytes(n / 10).push(('0' as u8 + n % 10) as u8)
    }
}

/// Appends `n` in decimal.
fn push_decimal(out: &mut Vec<u8>, n: u16)
    ensures
        final(out)@ == old(out)@ + decimal_bytes(n as nat),
    decreases n,
{
    if n >= 10 {
        push_decimal(out, n / 10);
    }
    out.push('0' as u8 + (n % 10) as u8);
    assert(out@ =~= old(out)@ + decimal_bytes(n as nat));
}

/// The xterm modifier number: 1 for none, plus 1 for Shift, 2 for Alt, 4 for
/// Ctrl.
pub open spec fn modifier_number(shift: bool, ctrl: bool, alt: bool) -> u8 {
    (1 + (if shift { 1int } else { 0 }) + (if alt { 2int } else { 0 }) + (if ctrl {
        4int
    } else {
        0
    })) as u8
}

/// The xterm modifier number of a set of modifiers.
pub fn modifier_code(shift: bool, ctrl: bool, alt: bool) -> (code: u8)
    ensures
        code == modifier_number(shift, ctrl, alt),
        1 <= code <= 8,
{
    let mut code: u8 = 1;
    if shift {
        code += 1;
    }
    if alt {
        code += 2;
    }
    if ctrl {
        code += 4;
    }
    code
}

/// Whether Ctrl with `c` has a control code: a letter, or one of
/// `@ [ \ ] ^ _ ?` and the space.
pub open spec fn has_control_code(c: char) -> bool {
    ||| 'a' <= text::lower_char(c) <= 'z'
    ||| c == '@' || c == ' ' || c == '[' || c == '\\' || c == ']' || c == '^' || c == '_'
    ||| c == '?'
}

/// The control code of Ctrl with `c`, where it has one.
pub open spec fn control_byte(c: char) -> u8
    recommends
        has_control_code(c),
{
    let lower = text::lower_char(c);
    if 'a' <= lower <= 'z' {
        (lower as u8 - 'a' as u8 + 1) as u8
    } else if lower == '@' || lower == ' ' {
        0
    } else if lower == '[' {
        0x1b
    } else if lower == '\\' {
        0x1c
    } else if lower == ']' {
        0x1d
    } else if lower == '^' {
        0x1e
    } else if lower == '_' {
        0x1f
    } else {
        0x7f
    }
}

/// The bytes of Ctrl with `c`: its control code, or the character itself where
/// it has none.
pub open spec fn control_bytes(c: char) -> Seq<u8> {
    if has_control_code(c) {
        seq![control_byte(c)]
    } else {
        vstd::utf8::encode_utf8(seq![c])
    }
}

/// The UTF-8 bytes of a character.
fn utf8_bytes(c: char) -> (res: Vec<u8>)
    ensures
        res@ == vstd::utf8::encode_utf8(seq![c]),
{
    let mut s = String::new();
    s.push(c);
    assert(s@ == seq![c]);
    s.as_str().as_bytes_vec()
}

/// Maps a character typed with Ctrl to its bytes. Letters, and the punctuation
/// that has one, give the classic control code; Ctrl+Space is NUL, Ctrl+? is
/// DEL, and any other character is passed through in UTF-8.
pub fn ctrl_char_bytes(c: char) -> (res: Vec<u8>)
    ensures
        res@ == control_bytes(c),
{
    let lower = text::ascii_lower_char(c);
    let byte: u8 = if 'a' <= lower && lower <= 'z' {
        let b: u8 = lower as u8;
        assert(97u8 <= b <= 122u8 ==> b & 0x1f == b - 96) by (bit_vector);
        b & 0x1f
    } else if lower == '@' {
        0x00
    } else if lower == '[' {
        0x1b
    } else if lower == '\\' {
        0x1c
    } else if lower == ']' {
        0x1d
    } else if lower == '^' {
        0x1e
    } else if lower == '_' {
        0x1f
    } else if lower == '?' {
        0x7f
    } else if lower == ' ' {
        0x00
    } else {
        return utf8_bytes(c);
    };
    vec![byte]
}

/// `bytes`, after an escape byte where Alt is held.
pub open spec fn with_alt_prefix(alt: bool, bytes: Seq<u8>) -> Seq<u8> {
    if alt {
        seq![ESC] + bytes
    } else {
        bytes
    }
}

/// Puts an escape byte before `bytes` where Alt is held.
pub fn prepend_alt(alt: bool, bytes: Vec<u8>) -> (res: Option<Vec<u8>>)
    ensures
        res matches Some(out) && out@ == with_alt_prefix(alt, bytes@),
{
    if alt {
        let mut out: Vec<u8> = vec![ESC];
        let mut rest = bytes;
        out.append(&mut rest);
        Some(out)
    } else {
        Some(bytes)
    }
}

/// The bytes of a character key.
pub open spec fn char_bytes(c: char, ctrl: bool, alt: bool) -> Seq<u8> {
    with_alt_prefix(
        alt,
        if ctrl {
            control_bytes(c)
        } else {
            vstd::utf8::encode_utf8(seq![c])
        },
    )
}

/// Encodes a character key: its control code where Ctrl is held and it has one,
/// else its UTF-8 bytes; after an escape byte where Alt is held.
pub fn encode_char(c: char, ctrl: bool, alt: bool) -> (res: Vec<u8>)
    ensures
        res@ == char_bytes(c, ctrl, alt),
{
    let bytes: Vec<u8> = if ctrl {
        ctrl_char_bytes(c)
    } else {
        utf8_bytes(c)
    };
    if alt {
        let mut out: Vec<u8> = vec![ESC];
        let mut rest = bytes;
        out.append(&mut rest);
        out
    } else {
        bytes
    }
}

/// The bytes of a key that has a bare form and a `modifyOtherKeys` form.
pub open spec fn modified_or_bytes(
    keycode: u16,
    shift: bool,
    ctrl: bool,
    alt: bool,
    bare: Seq<u8>,
) -> Seq<u8> {
    let code = modifier_number(shift, ctrl, alt);
    if code == 1 {
        bare
    } else {
        seq![ESC, '[' as u8, '2' as u8, '7' as u8, ';' as u8] + decimal_bytes(code as nat) + seq![
            ';' as u8,
        ] + decimal_bytes(keycode as nat) + seq!['~' as u8]
    }
}

/// `bare` without modifiers; with one, the xterm `modifyOtherKeys` form
/// `ESC [ 27 ; <modifiers> ; <keycode> ~`.
pub fn modified_or(keycode: u16, shift: bool, ctrl: bool, alt: bool, bare: &[u8]) -> (res: Vec<u8>)
    ensures
        res@ == modified_or_bytes(keycode, shift, ctrl, alt, bare@),
{
    let code = modifier_code(shift, ctrl, alt);
    if code == 1 {
        return vstd::slice::slice_to_vec(bare);
    }
    let mut out: Vec<u8> = vec![ESC, '[' as u8, '2' as u8, '7' as u8, ';' as u8];
    push_decimal(&mut out, code as u16);
    out.push(';' as u8);
    push_decimal(&mut out, keycode);
    out.push('~' as u8);
    assert(out@ =~= modified_or_bytes(keycode, shift, ctrl, alt, bare@));
    out
}

/// The bytes of an arrow, Home or End.
pub open spec fn arrow_bytes(
    letter: u8,
    shift: bool,
    ctrl: bool,
    alt: bool,
    app_cursor: bool,
) -> Seq<u8> {
    let code = modifier_number(shift, ctrl, alt);
    if code == 1 {
        seq![ESC, if app_cursor { 'O' as u8 } else { '[' as u8 }, letter]
    } else {
        seq![ESC, '[' as u8, '1' as u8, ';' as u8] + decimal_bytes(code as nat) + seq![letter]
    }
}

/// The sequence of an arrow, Home or End. Bare, it is `ESC O <letter>` in
/// cursor-key application mode and `ESC [ <letter>` otherwise; with modifiers
/// it is `ESC [ 1 ; <modifiers> <letter>` in both modes.
pub fn arrow_seq(letter: u8, shift: bool, ctrl: bool, alt: bool, app_cursor: bool) -> (res: Vec<u8>)
    ensures
        res@ == arrow_bytes(letter, shift, ctrl, alt, app_cursor),
{
    let code = modifier_code(shift, ctrl, alt);
    if code == 1 {
        if app_cursor {
            vec![ESC, 'O' as u8, letter]
        } else {
            vec![ESC, '[' as u8, letter]
        }
    } else {
        let mut out: Vec<u8> = vec![ESC, '[' as u8, '1' as u8, ';' as u8];
        push_decimal(&mut out, code as u16);
        out.push(letter);
        assert(out@ =~= arrow_bytes(letter, shift, ctrl, alt, app_cursor));
        out
    }
}

/// The bytes of a key of the CSI `~` family.
pub open spec fn tilde_bytes(num: Seq<u8>, shift: bool, ctrl: bool, alt: bool) -> Seq<u8> {
    let code = modifier_number(shift, ctrl, alt);
    seq![ESC, '[' as u8] + num + (if code == 1 {
        Seq::<u8>::empty()
    } else {
        seq![';' as u8] + decimal_bytes(code as nat)
    }) + seq!['~' as u8]
}

/// The sequence `ESC [ <num> ~`, or `ESC [ <num> ; <modifiers> ~` with
/// modifiers.
pub fn tilde_seq(num: &[u8], shift: bool, ctrl: bool, alt: bool) -> (res: Vec<u8>)
    ensures
        res@ == tilde_bytes(num@, shift, ctrl, alt),
{
    let code = modifier_code(shift, ctrl, alt);
    let mut out: Vec<u8> = vec![ESC, '[' as u8];
    out.extend_from_slice(num);
    assert(out@ =~= seq![ESC, '[' as u8] + num@);
    if code != 1 {
        out.push(';' as u8);
        push_decimal(&mut out, code as u16);
    }
    out.push('~' as u8);
    assert(out@ =~= tilde_bytes(num@, shift, ctrl, alt));
    out
}

/// The number of a function key of the CSI `~` family.
pub open spec fn function_number(n: u8) -> Seq<u8> {
    if n == 5 {
        seq!['1' as u8, '5' as u8]
    } else if n == 6 {
        seq!['1' as u8, '7' as u8]
    } else if n == 7 {
        seq!['1' as u8, '8' as u8]
    } else if n == 8 {
        seq!['1' as u8, '9' as u8]
    } else if n == 9 {
        seq!['2' as u8, '0' as u8]
    } else if n == 10 {
        seq!['2' as u8, '1' as u8]
    } else if n == 11 {
        seq!['2' as u8, '3' as u8]
    } else {
        seq!['2' as u8, '4' as u8]
    }
}

/// The bytes of a function key, F1 to F12.
pub open spec fn function_bytes(n: u8, shift: bool, ctrl: bool, alt: bool) -> Option<Seq<u8>> {
    if 1 <= n <= 4 {
        Some(arrow_bytes(('P' as u8 + n - 1) as u8, shift, ctrl, alt, true))
    } else if 5 <= n <= 12 {
        Some(tilde_bytes(function_number(n), shift, ctrl, alt))
    } else {
        None
    }
}

/// Encodes a function key. F1 to F4 are `ESC O P` to `ESC O S`, or
/// `ESC [ 1 ; <modifiers> P` and so on with modifiers; F5 to F12 are of the
/// CSI `~` family; there is no encoding of the others.
pub fn function_key(n: u8, shift: bool, ctrl: bool, alt: bool) -> (res: Option<Vec<u8>>)
    ensures
        bytes_view(res) == function_bytes(n, shift, ctrl, alt),
{
    let code = modifier_code(shift, ctrl, alt);
    if 1 <= n && n <= 4 {
        let letter: u8 = 'P' as u8 + (n - 1);
        if code == 1 {
            Some(vec![ESC, 'O' as u8, letter])
        } else {
            let mut out: Vec<u8> = vec![ESC, '[' as u8, '1' as u8, ';' as u8];
            push_decimal(&mut out, code as u16);
            out.push(letter);
            assert(out@ =~= arrow_bytes(letter, shift, ctrl, alt, true));
            Some(out)
        }
    } else if n == 5 {
        Some(tilde_seq(&['1' as u8, '5' as u8], shift, ctrl, alt))
    } else if n == 6 {
        Some(tilde_seq(&['1' as u8, '7' as u8], shift, ctrl, alt))
    } else if n == 7 {
        Some(tilde_seq(&['1' as u8, '8' as u8], shift, ctrl, alt))
    } else if n == 8 {
        Some(tilde_seq(&['1' as u8, '9' as u8], shift, ctrl, alt))
    } else if n == 9 {
        Some(tilde_seq(&['2' as u8, '0' as u8], shift, ctrl, alt))
    } else if n == 10 {
        Some(tilde_seq(&['2' as u8, '1' as u8], shift, ctrl, alt))
    } else if n == 11 {
        Some(tilde_seq(&['2' as u8, '3' as u8], shift, ctrl, alt))
    } else if n == 12 {
        Some(tilde_seq(&['2' as u8, '4' as u8], shift, ctrl, alt))
    } else {
        None
    }
}

/// Whether a code is one of the arrows, Home or End.
pub open spec fn cursor_letter(code: KeyCode) -> Option<u8> {
    match code {
        KeyCode::Up => Some('A' as u8),
        KeyCode::Down => Some('B' as u8),
        KeyCode::Right => Some('C' as u8),
        KeyCode::Left => Some('D' as u8),
        KeyCode::Home => Some('H' as u8),
        KeyCode::End => Some('F' as u8),
        _ => None,
    }
}

/// The number of an editing key of the CSI `~` family.
pub open spec fn editing_number(code: KeyCode) -> Option<u8> {
    match code {
        KeyCode::Insert => Some('2' as u8),
        KeyCode::Delete => Some('3' as u8),
        KeyCode::PageUp => Some('5' as u8),
        KeyCode::PageDown => Some('6' as u8),
        _ => None,
    }
}

/// Whether `key` is Alt+Left or Alt+Right, with neither Ctrl nor Shift.
pub open spec fn word_motion(key: KeyEvent) -> bool {
    &&& key.code == KeyCode::Left || key.code == KeyCode::Right
    &&& key.modifiers.alt
    &&& !key.modifiers.control
    &&& !key.modifiers.shift
}

/// The bytes of a key event, or none where it is not forwarded.
/// `word_movement` says whether Alt+Left and Alt+Right stand for the word
/// motions `ESC b` and `ESC f`.
pub open spec fn encoding(key: KeyEvent, ctx: EncodeContext, word_movement: bool) -> Option<
    Seq<u8>,
> {
    let shift = key.modifiers.shift;
    let ctrl = key.modifiers.control;
    let alt = key.modifiers.alt;
    if key.kind == KeyEventKind::Release {
        None
    } else if word_movement && word_motion(key) {
        Some(seq![ESC, if key.code == KeyCode::Left { 'b' as u8 } else { 'f' as u8 }])
    } else if let Some(letter) = cursor_letter(key.code) {
        Some(arrow_bytes(letter, shift, ctrl, alt, ctx.application_cursor))
    } else if let Some(number) = editing_number(key.code) {
        Some(tilde_bytes(seq![number], shift, ctrl, alt))
    } else {
        match key.code {
            KeyCode::Char(c) => Some(char_bytes(c, ctrl, alt)),
            KeyCode::Enter => Some(modified_or_bytes(13, shift, ctrl, alt, seq![13u8])),
            KeyCode::Tab => Some(modified_or_bytes(9, shift, ctrl, alt, seq![9u8])),
            KeyCode::BackTab => Some(seq![ESC, '[' as u8, 'Z' as u8]),
            KeyCode::Backspace => if alt && !ctrl && !shift {
                Some(seq![ESC, 127u8])
            } else {
                Some(modified_or_bytes(127, shift, ctrl, alt, seq![127u8]))
            },
            KeyCode::Esc => Some(seq![ESC]),
            KeyCode::F(n) => function_bytes(n, shift, ctrl, alt),
            _ => None,
        }
    }
}

/// Encodes a key event into the bytes to write to the program's terminal.
/// There are none for key releases, and for keys that have no encoding here.
pub fn encode(key: KeyEvent, ctx: EncodeContext) -> (res: Option<Vec<u8>>)
    ensures
        bytes_view(res) == encoding(key, ctx, true),
{
    encode_inner(key, ctx, true)
}

/// Encodes a key event as the key itself: Alt+Left and Alt+Right stay arrows,
/// where `encode` turns them into word motions.
pub fn encode_literal(key: KeyEvent, ctx: EncodeContext) -> (res: Option<Vec<u8>>)
    ensures
        bytes_view(res) == encoding(key, ctx, false),
{
    encode_inner(key, ctx, false)
}

/// The encoder behind `encode` and `encode_literal`.
pub fn encode_inner(key: KeyEvent, ctx: EncodeContext, word_movement: bool) -> (res: Option<
    Vec<u8>,
>)
    ensures
        bytes_view(res) == encoding(key, ctx, word_movement),
{
    if key.kind == KeyEventKind::Release {
        return None;
    }
    let ctrl = key.modifiers.control;
    let alt = key.modifiers.alt;
    let shift = key.modifiers.shift;
    let app = ctx.application_cursor;
    let res = match key.code {
        KeyCode::Char(c) => Some(encode_char(c, ctrl, alt)),
        KeyCode::Enter => Some(modified_or(13, shift, ctrl, alt, &[13u8])),
        KeyCode::Tab => Some(modified_or(9, shift, ctrl, alt, &[9u8])),
        KeyCode::BackTab => Some(vec![ESC, '[' as u8, 'Z' as u8]),
        // Meta+DEL deletes the previous word in shells and line editors; they
        // do not know the `modifyOtherKeys` form of it.
        KeyCode::Backspace => if alt && !ctrl && !shift {
            Some(vec![ESC, 127u8])
        } else {
            Some(modified_or(127, shift, ctrl, alt, &[127u8]))
        },
        KeyCode::Esc => Some(vec![ESC]),
        // Meta-b and Meta-f move by word in shells and line editors; they do
        // not know Alt+arrow.
        KeyCode::Left => if word_movement && alt && !ctrl && !shift {
            Some(vec![ESC, 'b' as u8])
        } else {
            Some(arrow_seq('D' as u8, shift, ctrl, alt, app))
        },
        KeyCode::Right => if word_movement && alt && !ctrl && !shift {
            Some(vec![ESC, 'f' as u8])
        } else {
            Some(arrow_seq('C' as u8, shift, ctrl, alt, app))
        },
        KeyCode::Up => Some(arrow_seq('A' as u8, shift, ctrl, alt, app)),
        KeyCode::Down => Some(arrow_seq('B' as u8, shift, ctrl, alt, app)),
        KeyCode::Home => Some(arrow_seq('H' as u8, shift, ctrl, alt, app)),
        KeyCode::End => Some(arrow_seq('F' as u8, shift, ctrl, alt, app)),
        KeyCode::PageUp => Some(tilde_seq(&['5' as u8], shift, ctrl, alt)),
        KeyCode::PageDown => Some(tilde_seq(&['6' as u8], shift, ctrl, alt)),
        KeyCode::Insert => Some(tilde_seq(&['2' as u8], shift, ctrl, alt)),
        KeyCode::Delete => Some(tilde_seq(&['3' as u8], shift, ctrl, alt)),
        KeyCode::F(n) => function_key(n, shift, ctrl, alt),
        // Lock keys, media keys, modifiers on their own and the like drive no
        // terminal program.
        _ => None,
    };
    res
}

/// Whether a key has an encoding at all.
pub open spec fn has_encoding(code: KeyCode) -> bool {
    match code {
        KeyCode::F(n) => 1 <= n <= 12,
        KeyCode::Null => false,
        KeyCode::CapsLock => false,
        KeyCode::ScrollLock => false,
        KeyCode::NumLock => false,
        KeyCode::PrintScreen => false,
        KeyCode::Pause => false,
        KeyCode::Menu => false,
        KeyCode::KeypadBegin => false,
        KeyCode::Media(_) => false,
        KeyCode::Modifier(_) => false,
        _ => true,
    }
}

/// An event is forwarded if and only if it is no release and its key has an
/// encoding; what is forwarded is never empty.
pub proof fn law_forwards_presses_of_encodable_keys(
    key: KeyEvent,
    ctx: EncodeContext,
    word_movement: bool,
)
    ensures
        encoding(key, ctx, word_movement) is Some <==> key.kind != KeyEventKind::Release
            && has_encoding(key.code),
        encoding(key, ctx, word_movement) matches Some(bytes) ==> bytes.len() > 0,
{
    if let KeyCode::Char(c) = key.code {
        vstd::utf8::encode_utf8_first_scalar(seq![c]);
    }
}

/// A quoted key is encoded like any other, except Alt+Left and Alt+Right: they
/// keep the arrow, where ordinary input moves by a word.
pub proof fn law_literal_differs_only_on_word_motion(key: KeyEvent, ctx: EncodeContext)
    ensures
        !word_motion(key) ==> encoding(key, ctx, true) == encoding(key, ctx, false),
        word_motion(key) && key.kind != KeyEventKind::Release ==> {
            &&& encoding(key, ctx, true) == Some(
                seq![ESC, if key.code == KeyCode::Left { 'b' as u8 } else { 'f' as u8 }],
            )
            &&& encoding(key, ctx, false) == Some(
                seq![
                    ESC,
                    '[' as u8,
                    '1' as u8,
                    ';' as u8,
                    '3' as u8,
                    if key.code == KeyCode::Left { 'D' as u8 } else { 'C' as u8 },
                ],
            )
        },
{
    if word_motion(key) && key.kind != KeyEventKind::Release {
        assert(encoding(key, ctx, false).unwrap() =~= seq![
            ESC,
            '[' as u8,
            '1' as u8,
            ';' as u8,
            '3' as u8,
            if key.code == KeyCode::Left { 'D' as u8 } else { 'C' as u8 },
        ]);
    }
}

/// Cursor-key application mode changes only the bare arrows, Home and End.
pub proof fn law_cursor_mode_changes_only_bare_cursor_keys(
    key: KeyEvent,
    a: EncodeContext,
    b: EncodeContext,
    word_movement: bool,
)
    requires
        cursor_letter(key.code) is None || key.modifiers.shift || key.modifiers.control
            || key.modifiers.alt,
    ensures
        encoding(key, a, word_movement) == encoding(key, b, word_movement),
{
}

/// Alt puts an escape byte before the bytes of a character and changes nothing
/// else.
pub proof fn law_alt_prefixes_characters(key: KeyEvent, ctx: EncodeContext, word_movement: bool)
    requires
        key.code is Char,
        key.modifiers.alt,
        key.kind != KeyEventKind::Release,
    ensures
        encoding(key, ctx, word_movement) == Some(
            seq![ESC] + encoding(
                (KeyEvent {
                    modifiers: (crate::key::KeyModifiers { alt: false, ..key.modifiers }),
                    ..key
                }),
                ctx,
                word_movement,
            ).unwrap(),
        ),
{
}

/// Ctrl with a letter or with one of `@ [ \ ] ^ _` gives the low five bits of
/// the character.
pub proof fn law_control_codes_are_the_low_bits(c: char)
    requires
        '@' <= c <= '_' || 'a' <= c <= 'z',
    ensures
        control_bytes(c) == seq![(c as u8) & 0x1f],
{
    let b: u8 = c as u8;
    assert(64u8 <= b <= 95u8 ==> b & 0x1f == b - 64) by (bit_vector);
    assert(97u8 <= b <= 122u8 ==> b & 0x1f == b - 96) by (bit_vector);
}

/// Ctrl changes nothing about a character that has no control code.
pub proof fn law_other_characters_pass_through(c: char, alt: bool)
    requires
        !has_control_code(c),
    ensures
        char_bytes(c, true, alt) == char_bytes(c, false, alt),
{
}

/// What is sent for a character is valid UTF-8, whatever is held with it.
pub proof fn law_characters_are_sent_as_utf8(c: char, ctrl: bool, alt: bool)
    ensures
        vstd::utf8::valid_utf8(char_bytes(c, ctrl, alt)),
{
    vstd::utf8::encode_utf8_valid_utf8(seq![c]);
    lemma_ascii_is_utf8(ESC);
    let plain = char_bytes(c, ctrl, false);
    if ctrl && has_control_code(c) {
        lemma_ascii_is_utf8(control_byte(c));
    }
    vstd::utf8::valid_utf8_concat(seq![ESC], plain);
}

proof fn lemma_ascii_is_utf8(b: u8)
    requires
        b < 0x80,
    ensures
        vstd::utf8::valid_utf8(seq![b]),
{
    let chars = seq![b as char];
    assert(vstd::utf8::is_ascii_chars(chars));
    vstd::utf8::is_ascii_chars_encode_utf8(chars);
    vstd::utf8::encode_utf8_valid_utf8(chars);
    assert(vstd::utf8::encode_utf8(chars) =~= seq![b]);
}

/// The modifier number tells every combination of Shift, Ctrl and Alt apart.
pub proof fn law_modifier_numbers_are_distinct(
    shift: bool,
    ctrl: bool,
    alt: bool,
    shift2: bool,
    ctrl2: bool,
    alt2: bool,
)
    requires
        modifier_number(shift, ctrl, alt) == modifier_number(shift2, ctrl2, alt2),
    ensures
        shift == shift2,
        ctrl == ctrl2,
        alt == alt2,
{
}

} // verus!
