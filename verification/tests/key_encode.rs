use bosun::key::{KeyCode, KeyEvent, KeyEventKind, KeyModifiers, MediaKeyCode};
use bosun::ui::key_encode::{
    arrow_seq, ctrl_char_bytes, encode as encode_in, encode_literal, function_key, modified_or,
    modifier_code, prepend_alt, tilde_seq, EncodeContext,
};

fn none() -> KeyModifiers {
    KeyModifiers::none()
}

fn control() -> KeyModifiers {
    none().with_control()
}

fn alt() -> KeyModifiers {
    none().with_alt()
}

fn shift() -> KeyModifiers {
    none().with_shift()
}

fn k(code: KeyCode, mods: KeyModifiers) -> KeyEvent {
    KeyEvent::new(code, mods)
}

fn encode(key: KeyEvent) -> Option<Vec<u8>> {
    encode_in(key, EncodeContext::default())
}

#[test]
fn quoted_alt_arrow_preserves_arrow_instead_of_word_motion() {
    let key = KeyEvent::new(KeyCode::Right, alt());
    assert_eq!(encode(key), Some(b"\x1bf".to_vec()));
    assert_eq!(
        encode_literal(key, EncodeContext::default()),
        Some(b"\x1b[1;3C".to_vec())
    );
}

#[test]
fn plain_letter() {
    assert_eq!(
        encode(k(KeyCode::Char('a'), none())),
        Some(b"a".to_vec())
    );
}

#[test]
fn ctrl_letter() {
    assert_eq!(
        encode(k(KeyCode::Char('a'), control())),
        Some(vec![0x01])
    );
    assert_eq!(
        encode(k(KeyCode::Char('c'), control())),
        Some(vec![0x03])
    );
}

#[test]
fn alt_letter_prepends_esc() {
    assert_eq!(
        encode(k(KeyCode::Char('x'), alt())),
        Some(vec![0x1b, b'x'])
    );
}

#[test]
fn enter_is_cr() {
    assert_eq!(
        encode(k(KeyCode::Enter, none())),
        Some(b"\r".to_vec())
    );
}

#[test]
fn shift_enter_uses_modify_other_keys() {
    assert_eq!(
        encode(k(KeyCode::Enter, shift())),
        Some(b"\x1b[27;2;13~".to_vec())
    );
}

#[test]
fn ctrl_enter_uses_modify_other_keys() {
    assert_eq!(
        encode(k(KeyCode::Enter, control())),
        Some(b"\x1b[27;5;13~".to_vec())
    );
}

#[test]
fn ctrl_tab_uses_modify_other_keys() {
    assert_eq!(
        encode(k(KeyCode::Tab, control())),
        Some(b"\x1b[27;5;9~".to_vec())
    );
}

#[test]
fn backspace_is_del() {
    assert_eq!(
        encode(k(KeyCode::Backspace, none())),
        Some(b"\x7f".to_vec())
    );
}

#[test]
fn alt_backspace_deletes_word() {
    assert_eq!(
        encode(k(KeyCode::Backspace, alt())),
        Some(b"\x1b\x7f".to_vec())
    );
}

#[test]
fn ctrl_backspace_uses_modify_other_keys() {
    assert_eq!(
        encode(k(KeyCode::Backspace, control())),
        Some(b"\x1b[27;5;127~".to_vec())
    );
}

#[test]
fn alt_left_right_move_by_word() {
    assert_eq!(
        encode(k(KeyCode::Left, alt())),
        Some(b"\x1bb".to_vec())
    );
    assert_eq!(
        encode(k(KeyCode::Right, alt())),
        Some(b"\x1bf".to_vec())
    );
}

#[test]
fn ctrl_alt_left_falls_through_to_csi() {
    assert_eq!(
        encode(k(KeyCode::Left, alt().with_control())),
        Some(b"\x1b[1;7D".to_vec())
    );
}

#[test]
fn esc_is_esc() {
    assert_eq!(
        encode(k(KeyCode::Esc, none())),
        Some(b"\x1b".to_vec())
    );
}

#[test]
fn arrow_bare() {
    assert_eq!(
        encode(k(KeyCode::Up, none())),
        Some(b"\x1b[A".to_vec())
    );
    assert_eq!(
        encode(k(KeyCode::Left, none())),
        Some(b"\x1b[D".to_vec())
    );
}

#[test]
fn arrow_bare_application_cursor_mode() {
    let ctx = EncodeContext {
        application_cursor: true,
    };
    assert_eq!(
        encode_in(k(KeyCode::Up, none()), ctx),
        Some(b"\x1bOA".to_vec())
    );
    assert_eq!(
        encode_in(k(KeyCode::Down, none()), ctx),
        Some(b"\x1bOB".to_vec())
    );
    assert_eq!(
        encode_in(k(KeyCode::Right, none()), ctx),
        Some(b"\x1bOC".to_vec())
    );
    assert_eq!(
        encode_in(k(KeyCode::Left, none()), ctx),
        Some(b"\x1bOD".to_vec())
    );
}

#[test]
fn arrow_with_modifier_ignores_application_cursor() {
    let ctx = EncodeContext {
        application_cursor: true,
    };
    assert_eq!(
        encode_in(k(KeyCode::Up, shift()), ctx),
        Some(b"\x1b[1;2A".to_vec())
    );
}

#[test]
fn home_end_obey_application_cursor() {
    let ctx = EncodeContext {
        application_cursor: true,
    };
    assert_eq!(
        encode_in(k(KeyCode::Home, none()), ctx),
        Some(b"\x1bOH".to_vec())
    );
    assert_eq!(
        encode_in(k(KeyCode::End, none()), ctx),
        Some(b"\x1bOF".to_vec())
    );
}

#[test]
fn arrow_with_shift() {
    assert_eq!(
        encode(k(KeyCode::Up, shift())),
        Some(b"\x1b[1;2A".to_vec())
    );
}

#[test]
fn arrow_with_ctrl() {
    assert_eq!(
        encode(k(KeyCode::Right, control())),
        Some(b"\x1b[1;5C".to_vec())
    );
}

#[test]
fn pgup_bare_and_with_ctrl() {
    assert_eq!(
        encode(k(KeyCode::PageUp, none())),
        Some(b"\x1b[5~".to_vec())
    );
    assert_eq!(
        encode(k(KeyCode::PageUp, control())),
        Some(b"\x1b[5;5~".to_vec())
    );
}

#[test]
fn f1_uses_ss3() {
    assert_eq!(
        encode(k(KeyCode::F(1), none())),
        Some(b"\x1bOP".to_vec())
    );
}

#[test]
fn f5_uses_tilde() {
    assert_eq!(
        encode(k(KeyCode::F(5), none())),
        Some(b"\x1b[15~".to_vec())
    );
}

#[test]
fn release_is_dropped() {
    let mut ev = KeyEvent::new(KeyCode::Char('a'), none());
    ev.kind = KeyEventKind::Release;
    assert_eq!(encode(ev), None);
}

fn all_modifiers() -> Vec<KeyModifiers> {
    let mut all = Vec::new();
    for bits in 0..8 {
        let mut m = none();
        m.shift = bits % 2 == 1;
        m.alt = bits / 2 % 2 == 1;
        m.control = bits / 4 == 1;
        all.push(m);
    }
    all
}

fn some_codes() -> Vec<KeyCode> {
    let mut codes = vec![
        KeyCode::Backspace,
        KeyCode::Enter,
        KeyCode::Left,
        KeyCode::Right,
        KeyCode::Up,
        KeyCode::Down,
        KeyCode::Home,
        KeyCode::End,
        KeyCode::PageUp,
        KeyCode::PageDown,
        KeyCode::Tab,
        KeyCode::BackTab,
        KeyCode::Delete,
        KeyCode::Insert,
        KeyCode::Esc,
        KeyCode::Char('a'),
        KeyCode::Char('é'),
    ];
    for n in 1..=12 {
        codes.push(KeyCode::F(n));
    }
    codes
}

#[test]
fn modifier_codes_are_those_of_xterm() {
    let codes: Vec<u8> =
        all_modifiers().iter().map(|m| modifier_code(m.shift, m.control, m.alt)).collect();
    assert_eq!(codes, vec![1, 2, 3, 4, 5, 6, 7, 8]);
}

#[test]
fn control_characters() {
    for (c, byte) in [
        ('A', 0x01),
        ('z', 0x1a),
        ('@', 0x00),
        ('[', 0x1b),
        ('\\', 0x1c),
        (']', 0x1d),
        ('^', 0x1e),
        ('_', 0x1f),
        ('?', 0x7f),
        (' ', 0x00),
        ('1', b'1'),
    ] {
        assert_eq!(ctrl_char_bytes(c), vec![byte], "{c}");
        assert_eq!(encode(k(KeyCode::Char(c), control())), Some(vec![byte]), "{c}");
        assert_eq!(
            encode(k(KeyCode::Char(c), control().with_alt())),
            Some(vec![0x1b, byte]),
            "{c}"
        );
    }
}

#[test]
fn characters_without_a_control_code_pass_through() {
    for c in ['1', '!', '~', 'é', '€', 'ă', 'ě', 'あ', '😀'] {
        let bytes = c.to_string().into_bytes();
        assert_eq!(ctrl_char_bytes(c), bytes, "{c}");
        assert_eq!(encode(k(KeyCode::Char(c), control())), Some(bytes.clone()), "{c}");
        let mut prefixed = vec![0x1b];
        prefixed.extend_from_slice(&bytes);
        assert_eq!(encode(k(KeyCode::Char(c), control().with_alt())), Some(prefixed), "{c}");
    }
    assert_eq!(ctrl_char_bytes('€'), vec![0xe2, 0x82, 0xac]);
}

#[test]
fn characters_are_valid_utf8_with_any_modifiers() {
    for c in ('\0'..='\u{17f}').chain(['€', 'あ', '\u{10ffff}']) {
        for m in all_modifiers() {
            assert!(String::from_utf8(encode(k(KeyCode::Char(c), m)).unwrap()).is_ok(), "{c:?}");
        }
    }
}

#[test]
fn control_codes_of_letters_are_their_low_bits() {
    for c in 'a'..='z' {
        assert_eq!(ctrl_char_bytes(c), vec![c as u8 & 0x1f]);
        assert_eq!(ctrl_char_bytes(c.to_ascii_uppercase()), vec![c as u8 & 0x1f]);
    }
}

#[test]
fn characters_are_sent_as_utf8() {
    for c in ['a', 'é', '€', '😀', '\u{7f}', '\u{10ffff}'] {
        let bytes = c.to_string().into_bytes();
        assert_eq!(encode(k(KeyCode::Char(c), none())), Some(bytes.clone()));
        assert_eq!(encode(k(KeyCode::Char(c), shift())), Some(bytes.clone()));
        let mut prefixed = vec![0x1b];
        prefixed.extend_from_slice(&bytes);
        assert_eq!(encode(k(KeyCode::Char(c), alt())), Some(prefixed));
    }
}

#[test]
fn alt_prefix() {
    assert_eq!(prepend_alt(true, vec![b'x']), Some(vec![0x1b, b'x']));
    assert_eq!(prepend_alt(false, vec![b'x']), Some(vec![b'x']));
}

#[test]
fn sequences_with_all_modifiers() {
    assert_eq!(modified_or(13, true, true, true, b"\r"), b"\x1b[27;8;13~".to_vec());
    assert_eq!(modified_or(65535, false, false, true, b""), b"\x1b[27;3;65535~".to_vec());
    assert_eq!(modified_or(13, false, false, false, b"\r"), b"\r".to_vec());
    assert_eq!(arrow_seq(b'A', true, true, true, true), b"\x1b[1;8A".to_vec());
    assert_eq!(tilde_seq(b"24", true, true, true), b"\x1b[24;8~".to_vec());
    assert_eq!(tilde_seq(b"24", false, false, false), b"\x1b[24~".to_vec());
}

#[test]
fn function_keys() {
    let bare: Vec<&[u8]> = vec![
        b"\x1bOP", b"\x1bOQ", b"\x1bOR", b"\x1bOS", b"\x1b[15~", b"\x1b[17~", b"\x1b[18~",
        b"\x1b[19~", b"\x1b[20~", b"\x1b[21~", b"\x1b[23~", b"\x1b[24~",
    ];
    for (i, bytes) in bare.iter().enumerate() {
        assert_eq!(function_key(i as u8 + 1, false, false, false), Some(bytes.to_vec()));
    }
    assert_eq!(function_key(4, true, false, false), Some(b"\x1b[1;2S".to_vec()));
    assert_eq!(function_key(12, false, true, false), Some(b"\x1b[24;5~".to_vec()));
    assert_eq!(function_key(0, false, false, false), None);
    assert_eq!(function_key(13, false, false, false), None);
    assert_eq!(encode(k(KeyCode::F(13), none())), None);
}

#[test]
fn editing_keys() {
    assert_eq!(encode(k(KeyCode::PageDown, none())), Some(b"\x1b[6~".to_vec()));
    assert_eq!(encode(k(KeyCode::Insert, none())), Some(b"\x1b[2~".to_vec()));
    assert_eq!(encode(k(KeyCode::Delete, shift())), Some(b"\x1b[3;2~".to_vec()));
    assert_eq!(encode(k(KeyCode::BackTab, shift())), Some(b"\x1b[Z".to_vec()));
    assert_eq!(encode(k(KeyCode::Esc, alt())), Some(b"\x1b".to_vec()));
    assert_eq!(
        encode(k(KeyCode::Backspace, alt().with_shift())),
        Some(b"\x1b[27;4;127~".to_vec())
    );
}

#[test]
fn keys_without_a_sequence_are_dropped() {
    for code in [
        KeyCode::Null,
        KeyCode::CapsLock,
        KeyCode::Menu,
        KeyCode::KeypadBegin,
        KeyCode::Media(MediaKeyCode::Play),
    ] {
        assert_eq!(encode(k(code, none())), None);
    }
}

#[test]
fn presses_and_repeats_are_sent_alike() {
    for code in some_codes() {
        for m in all_modifiers() {
            let press = k(code, m);
            let mut repeat = press;
            repeat.kind = KeyEventKind::Repeat;
            let mut release = press;
            release.kind = KeyEventKind::Release;
            assert!(encode(press).is_some());
            assert_eq!(encode(repeat), encode(press));
            assert_eq!(encode(release), None);
        }
    }
}

#[test]
fn literal_encoding_differs_for_word_motions_only() {
    for code in some_codes() {
        for m in all_modifiers() {
            let ctx = EncodeContext::default();
            let same = encode_in(k(code, m), ctx) == encode_literal(k(code, m), ctx);
            let word = matches!(code, KeyCode::Left | KeyCode::Right) && m == alt();
            assert_eq!(same, !word);
        }
    }
}

#[test]
fn cursor_mode_matters_for_bare_cursor_keys_only() {
    for code in some_codes() {
        for m in all_modifiers() {
            let off = EncodeContext { application_cursor: false };
            let on = EncodeContext { application_cursor: true };
            let same = encode_in(k(code, m), off) == encode_in(k(code, m), on);
            let cursor = matches!(
                code,
                KeyCode::Left
                    | KeyCode::Right
                    | KeyCode::Up
                    | KeyCode::Down
                    | KeyCode::Home
                    | KeyCode::End
            );
            assert_eq!(same, !(cursor && m == none()));
        }
    }
}
