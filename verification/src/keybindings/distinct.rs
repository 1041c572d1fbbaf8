//! Shortcuts can be told apart: in what a terminal sends for them, and by
//! their tmux names.

use crate::key::{KeyCode, KeyEvent, KeyModifiers};
use crate::keybindings;
use crate::keybindings::laws;
use crate::text;
use crate::ui::key_encode;
use crate::ui::key_encode::EncodeContext;
use vstd::prelude::*;

verus! {

/// What a terminal sends for a possible shortcut, byte by byte.
spec fn sent(code: KeyCode, modifiers: KeyModifiers, ctx: EncodeContext) -> Seq<u8> {
    let n = key_encode::modifier_number(modifiers.shift, modifiers.control, modifiers.alt);
    let letter = match code {
        KeyCode::Up => 'A' as u8,
        KeyCode::Down => 'B' as u8,
        KeyCode::Right => 'C' as u8,
        KeyCode::Left => 'D' as u8,
        KeyCode::F(f) => ('P' as u8 + f - 1) as u8,
        _ => 0,
    };
    match code {
        KeyCode::Char(c) => {
            let byte = if modifiers.control {
                (c as u8 - 96) as u8
            } else {
                c as u8
            };
            if modifiers.alt {
                seq![27u8, byte]
            } else {
                seq![byte]
            }
        },
        KeyCode::F(f) if f > 4 => {
            let number = key_encode::function_number(f);
            if n == 1 {
                seq![27u8, '[' as u8, number[0], number[1], '~' as u8]
            } else {
                seq![
                    27u8,
                    '[' as u8,
                    number[0],
                    number[1],
                    ';' as u8,
                    ('0' as u8 + n) as u8,
                    '~' as u8,
                ]
            }
        },
        _ => if n == 1 {
            seq![
                27u8,
                if code is F || ctx.application_cursor {
                    'O' as u8
                } else {
                    '[' as u8
                },
                letter,
            ]
        } else {
            seq![27u8, '[' as u8, '1' as u8, ';' as u8, ('0' as u8 + n) as u8, letter]
        },
    }
}

proof fn lemma_sent(code: KeyCode, modifiers: KeyModifiers, ctx: EncodeContext)
    requires
        laws::nameable(code, modifiers),
    ensures
        key_encode::encoding(KeyEvent::new(code, modifiers), ctx, false) == Some(
            sent(code, modifiers, ctx),
        ),
{
    let e = key_encode::encoding(KeyEvent::new(code, modifiers), ctx, false)->0;
    match code {
        KeyCode::Char(c) => {
            assert(vstd::utf8::is_ascii_chars(seq![c]));
            vstd::utf8::is_ascii_chars_encode_utf8(seq![c]);
            assert(e =~= sent(code, modifiers, ctx));
        },
        _ => {
            assert(e =~= sent(code, modifiers, ctx));
        },
    }
}

/// Whether a key is sent as a CSI `~` sequence.
spec fn tilde(code: KeyCode) -> bool {
    code matches KeyCode::F(f) && f > 4
}

/// The length tells characters, `~` sequences and the other keys apart, and
/// whether there are modifiers.
proof fn lemma_sent_length(code: KeyCode, modifiers: KeyModifiers, ctx: EncodeContext)
    requires
        laws::nameable(code, modifiers),
    ensures
        ({
            let bare = !modifiers.shift && !modifiers.control && !modifiers.alt;
            sent(code, modifiers, ctx).len() == (if code is Char {
                if modifiers.alt {
                    2int
                } else {
                    1
                }
            } else if tilde(code) {
                if bare {
                    5int
                } else {
                    7
                }
            } else {
                if bare {
                    3int
                } else {
                    6
                }
            })
        }),
{
}

proof fn lemma_characters_apart(
    a: KeyCode,
    a_modifiers: KeyModifiers,
    b: KeyCode,
    b_modifiers: KeyModifiers,
    ctx: EncodeContext,
)
    requires
        laws::nameable(a, a_modifiers),
        laws::nameable(b, b_modifiers),
        a is Char,
        b is Char,
        sent(a, a_modifiers, ctx) == sent(b, b_modifiers, ctx),
    ensures
        a == b,
        a_modifiers == b_modifiers,
{
    let x = sent(a, a_modifiers, ctx);
    let y = sent(b, b_modifiers, ctx);
    assert(x.len() == y.len());
    assert(x.last() == y.last());
}

/// The modifier number among the bytes gives the modifiers back.
proof fn lemma_same_modifiers(a: KeyModifiers, b: KeyModifiers)
    requires
        !a.super_key && !a.hyper && !a.meta,
        !b.super_key && !b.hyper && !b.meta,
        key_encode::modifier_number(a.shift, a.control, a.alt) == key_encode::modifier_number(
            b.shift,
            b.control,
            b.alt,
        ),
    ensures
        a == b,
{
    key_encode::law_modifier_numbers_are_distinct(
        a.shift,
        a.control,
        a.alt,
        b.shift,
        b.control,
        b.alt,
    );
}

proof fn lemma_tildes_apart(
    a: KeyCode,
    a_modifiers: KeyModifiers,
    b: KeyCode,
    b_modifiers: KeyModifiers,
    ctx: EncodeContext,
)
    requires
        laws::nameable(a, a_modifiers),
        laws::nameable(b, b_modifiers),
        tilde(a),
        tilde(b),
        sent(a, a_modifiers, ctx) == sent(b, b_modifiers, ctx),
    ensures
        a == b,
        a_modifiers == b_modifiers,
{
    let x = sent(a, a_modifiers, ctx);
    let y = sent(b, b_modifiers, ctx);
    let n = key_encode::modifier_number(a_modifiers.shift, a_modifiers.control, a_modifiers.alt);
    let m = key_encode::modifier_number(b_modifiers.shift, b_modifiers.control, b_modifiers.alt);
    lemma_sent_length(a, a_modifiers, ctx);
    lemma_sent_length(b, b_modifiers, ctx);
    assert(x[2] == y[2] && x[3] == y[3]);
    assert(n == m) by {
        if n != 1 {
            assert(x[5] == y[5]);
        }
    }
    lemma_same_modifiers(a_modifiers, b_modifiers);
}

proof fn lemma_letters_apart(
    a: KeyCode,
    a_modifiers: KeyModifiers,
    b: KeyCode,
    b_modifiers: KeyModifiers,
    ctx: EncodeContext,
)
    requires
        laws::nameable(a, a_modifiers),
        laws::nameable(b, b_modifiers),
        !(a is Char) && !tilde(a),
        !(b is Char) && !tilde(b),
        sent(a, a_modifiers, ctx) == sent(b, b_modifiers, ctx),
    ensures
        a == b,
        a_modifiers == b_modifiers,
{
    let x = sent(a, a_modifiers, ctx);
    let y = sent(b, b_modifiers, ctx);
    let n = key_encode::modifier_number(a_modifiers.shift, a_modifiers.control, a_modifiers.alt);
    let m = key_encode::modifier_number(b_modifiers.shift, b_modifiers.control, b_modifiers.alt);
    lemma_sent_length(a, a_modifiers, ctx);
    lemma_sent_length(b, b_modifiers, ctx);
    assert(x.last() == y.last());
    assert(n == m) by {
        if n != 1 {
            assert(x[4] == y[4]);
        }
    }
    lemma_same_modifiers(a_modifiers, b_modifiers);
}

/// A terminal sends different bytes for different shortcuts, in either cursor
/// mode.
pub proof fn law_shortcuts_are_sent_apart(
    a: KeyCode,
    a_modifiers: KeyModifiers,
    b: KeyCode,
    b_modifiers: KeyModifiers,
    ctx: EncodeContext,
)
    requires
        laws::nameable(a, a_modifiers),
        laws::nameable(b, b_modifiers),
        key_encode::encoding(KeyEvent::new(a, a_modifiers), ctx, false) == key_encode::encoding(
            KeyEvent::new(b, b_modifiers),
            ctx,
            false,
        ),
    ensures
        a == b,
        a_modifiers == b_modifiers,
{
    lemma_sent(a, a_modifiers, ctx);
    lemma_sent(b, b_modifiers, ctx);
    lemma_sent_length(a, a_modifiers, ctx);
    lemma_sent_length(b, b_modifiers, ctx);
    if a is Char {
        lemma_characters_apart(a, a_modifiers, b, b_modifiers, ctx);
    } else if tilde(a) {
        lemma_tildes_apart(a, a_modifiers, b, b_modifiers, ctx);
    } else {
        lemma_letters_apart(a, a_modifiers, b, b_modifiers, ctx);
    }
}

/// No shortcut is sent as Enter, Tab, Backspace or Escape are.
pub proof fn law_shortcuts_are_no_aliases(
    code: KeyCode,
    modifiers: KeyModifiers,
    plain: KeyCode,
    ctx: EncodeContext,
)
    requires
        laws::nameable(code, modifiers),
        plain == KeyCode::Enter || plain == KeyCode::Tab || plain == KeyCode::Backspace || plain
            == KeyCode::Esc,
    ensures
        key_encode::encoding(KeyEvent::new(code, modifiers), ctx, false) != key_encode::encoding(
            KeyEvent::new(plain, KeyModifiers::none()),
            ctx,
            false,
        ),
{
    lemma_sent(code, modifiers, ctx);
    let x = sent(code, modifiers, ctx);
    let y = key_encode::encoding(KeyEvent::new(plain, KeyModifiers::none()), ctx, false)->0;
    assert(y.len() == 1);
    assert(x[0] != y[0] || x.len() != y.len());
}

/// Whether `s` begins with the tmux prefix of a modifier.
spec fn begins(s: Seq<char>, letter: char) -> bool {
    s.len() >= 2 && s[0] == letter && s[1] == '-'
}

/// A tmux prefix can be seen, and taken off again, where the rest does not
/// begin with it.
proof fn lemma_prefix_apart(
    a_held: bool,
    a_rest: Seq<char>,
    b_held: bool,
    b_rest: Seq<char>,
    prefix: Seq<char>,
)
    requires
        prefix.len() == 2,
        prefix[1] == '-',
        !begins(a_rest, prefix[0]),
        !begins(b_rest, prefix[0]),
        keybindings::prefix_if(a_held, prefix) + a_rest == keybindings::prefix_if(b_held, prefix)
            + b_rest,
    ensures
        a_held == b_held,
        a_rest == b_rest,
{
    let a = keybindings::prefix_if(a_held, prefix) + a_rest;
    let b = keybindings::prefix_if(b_held, prefix) + b_rest;
    assert(a_held ==> begins(a, prefix[0]));
    assert(b_held ==> begins(b, prefix[0]));
    assert(!a_held ==> a =~= a_rest);
    assert(!b_held ==> b =~= b_rest);
    if a_held && b_held {
        assert(a.skip(2) =~= a_rest);
        assert(b.skip(2) =~= b_rest);
    }
}

proof fn lemma_key_names_apart(
    a: KeyCode,
    a_modifiers: KeyModifiers,
    b: KeyCode,
    b_modifiers: KeyModifiers,
)
    requires
        laws::nameable(a, a_modifiers),
        laws::nameable(b, b_modifiers),
        keybindings::key_name(a) == keybindings::key_name(b),
    ensures
        a == b,
{
    let x = keybindings::key_name(a);
    let y = keybindings::key_name(b);
    reveal_strlit("Left");
    reveal_strlit("Right");
    reveal_strlit("Up");
    reveal_strlit("Down");
    reveal_strlit("F");
    laws::lemma_key_name(a, a_modifiers, Seq::empty());
    laws::lemma_key_name(b, b_modifiers, Seq::empty());
    assert(x[0] == y[0]);
    if let KeyCode::F(n) = a {
        if let KeyCode::F(m) = b {
            text::lemmas::lemma_decimal_reads_back(n as nat);
            text::lemmas::lemma_decimal_reads_back(m as nat);
            assert(x.skip(1) =~= text::decimal_text(n as nat));
            assert(y.skip(1) =~= text::decimal_text(m as nat));
        }
    }
}

/// Different shortcuts have different names in tmux.
pub proof fn law_tmux_names_are_distinct(
    a: KeyCode,
    a_modifiers: KeyModifiers,
    b: KeyCode,
    b_modifiers: KeyModifiers,
)
    requires
        laws::nameable(a, a_modifiers),
        laws::nameable(b, b_modifiers),
        keybindings::shortcut_for(a, a_modifiers).tmux == keybindings::shortcut_for(
            b,
            b_modifiers,
        ).tmux,
    ensures
        a == b,
        a_modifiers == b_modifiers,
{
    reveal_strlit("C-");
    reveal_strlit("M-");
    reveal_strlit("S-");
    let x = keybindings::key_name(a);
    let y = keybindings::key_name(b);
    laws::lemma_key_name(a, a_modifiers, Seq::empty());
    laws::lemma_key_name(b, b_modifiers, Seq::empty());
    assert(x.len() >= 2 ==> laws::plain(x[1]));
    assert(y.len() >= 2 ==> laws::plain(y[1]));
    let x1 = keybindings::prefix_if(a_modifiers.shift, "S-"@) + x;
    let y1 = keybindings::prefix_if(b_modifiers.shift, "S-"@) + y;
    let x2 = keybindings::prefix_if(a_modifiers.alt, "M-"@) + x1;
    let y2 = keybindings::prefix_if(b_modifiers.alt, "M-"@) + y1;
    assert(keybindings::shortcut_for(a, a_modifiers).tmux =~= keybindings::prefix_if(
        a_modifiers.control,
        "C-"@,
    ) + x2);
    assert(keybindings::shortcut_for(b, b_modifiers).tmux =~= keybindings::prefix_if(
        b_modifiers.control,
        "C-"@,
    ) + y2);
    lemma_prefix_apart(a_modifiers.control, x2, b_modifiers.control, y2, "C-"@);
    lemma_prefix_apart(a_modifiers.alt, x1, b_modifiers.alt, y1, "M-"@);
    lemma_prefix_apart(a_modifiers.shift, x, b_modifiers.shift, y, "S-"@);
    lemma_key_names_apart(a, a_modifiers, b, b_modifiers);
}

} // verus!
