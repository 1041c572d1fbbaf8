use bosun::key::{KeyCode, KeyEvent, KeyEventKind, KeyEventState, KeyModifiers};
use bosun::keybindings::{
    Action, BindingsConfig, KeyBindings, KeyRouter, PartialBindings, Route, Shortcut,
};
use bosun::ui::key_encode::{encode_literal, EncodeContext};

fn event(s: &str) -> KeyEvent {
    Shortcut::parse(s).unwrap().unwrap().event
}

fn partial_from_toml(text: &str) -> PartialBindings {
    let table: toml::Table = toml::from_str(text).unwrap();
    let field = |name: &str| table.get(name).and_then(|v| v.as_str()).map(str::to_string);
    PartialBindings {
        previous_tab: field("previous_tab"),
        next_tab: field("next_tab"),
        previous_session: field("previous_session"),
        next_session: field("next_session"),
        send_next_key: field("send_next_key"),
    }
}

fn to_toml(config: &BindingsConfig) -> String {
    let mut table = toml::Table::new();
    for (name, value) in [
        ("previous_tab", &config.previous_tab),
        ("next_tab", &config.next_tab),
        ("previous_session", &config.previous_session),
        ("next_session", &config.next_session),
        ("send_next_key", &config.send_next_key),
    ] {
        table.insert(name.to_string(), toml::Value::String(value.clone()));
    }
    toml::to_string(&table).unwrap()
}

fn config(next_tab: &str) -> BindingsConfig {
    BindingsConfig { next_tab: next_tab.into(), ..Default::default() }
}

#[test]
fn remapping_and_disabling_release_original_keys() {
    let config = BindingsConfig {
        next_tab: "Ctrl+Shift+Right".into(),
        previous_tab: "none".into(),
        ..Default::default()
    };
    let keys = config.resolve().unwrap();
    assert_eq!(keys.action(event("Shift+Right")), None);
    assert_eq!(keys.action(event("Shift+Left")), None);
    assert_eq!(keys.action(event("Ctrl+Shift+Right")), Some(Action::NextTab));
    assert_eq!(keys.action(event("Alt+Ctrl+Shift+Right")), None);
}

#[test]
fn quote_is_one_shot_and_can_send_itself_or_detach_key() {
    let keys = KeyBindings::default();
    let mut router = KeyRouter::default();
    for quoted in ["Shift+Right", "Ctrl+v", "Ctrl+q"] {
        assert_eq!(router.route(&keys, event("Ctrl+v")), Route::Arm);
        let mut release = event("Ctrl+v");
        release.kind = KeyEventKind::Release;
        assert_eq!(router.route(&keys, release), Route::Ignore);
        assert!(router.pending);
        assert_eq!(router.route(&keys, event(quoted)), Route::Quoted);
        assert!(!router.pending);
        assert_eq!(
            router.route(&keys, event("Shift+Right")),
            Route::Action(Action::NextTab)
        );
    }
}

#[test]
fn rejects_conflicts_and_ambiguous_keys() {
    for key in [
        "Ctrl+q",
        "Ctrl+Alt+q",
        "Ctrl+i",
        "Ctrl+b",
        "Ctrl+l",
        "Shift+Left",
        "Cmd+Right",
        "Ctrl+Shift+a",
        "a",
        "F13",
    ] {
        assert!(
            BindingsConfig { next_tab: key.into(), ..Default::default() }.resolve().is_err(),
            "{key}"
        );
    }
}

#[test]
fn partial_config_keeps_defaults_and_roundtrips() {
    let config = BindingsConfig::from_partial(partial_from_toml(
        "next_tab = 'Alt+Right'\nprevious_tab = 'none'",
    ));
    let roundtrip = BindingsConfig::from_partial(partial_from_toml(&to_toml(&config)));
    let keys = roundtrip.resolve().unwrap();
    assert_eq!(keys.label(Action::NextTab), "Alt+Right");
    assert_eq!(keys.label(Action::PreviousTab), "disabled");
    assert_eq!(keys.label(Action::SendNextKey), "Ctrl+v");
}

#[test]
fn error_texts() {
    let text = |key: &str| Shortcut::parse(key).unwrap_err();
    assert_eq!(text(" Cmd+Right "), "unknown modifier in \"Cmd+Right\"");
    assert_eq!(text("+a"), "unknown modifier in \"+a\"");
    assert_eq!(text("\"+\n+a"), "unknown modifier in \"\\\"+\\n+a\"");
    assert_eq!(text("F0"), "only F1 through F12 are supported");
    assert_eq!(text("F13"), "only F1 through F12 are supported");
    assert_eq!(text("Shift+f255"), "only F1 through F12 are supported");
    assert_eq!(text("a"), "letter shortcuts require Ctrl or Alt, without Shift");
    assert_eq!(text("Ctrl+Shift+a"), "letter shortcuts require Ctrl or Alt, without Shift");
    for key in ["Ctrl+h", "Ctrl+i", "Ctrl+j", "Ctrl+Alt+m"] {
        assert_eq!(text(key), "Ctrl+H/I/J/M are terminal aliases for Backspace, Tab, or Enter");
    }
    for key in ["F256", "Fx", "Ctrl+", "Ctrl+1", "Ctrl+é", "PageUp", "Ctrl+none"] {
        assert_eq!(
            text(key),
            format!("unsupported key in {key:?}; use arrows, F1–F12, or Ctrl/Alt+letter")
        );
    }
    assert_eq!(
        config("Ctrl+q").resolve().unwrap_err(),
        "Ctrl+q is reserved by Bosun"
    );
    assert_eq!(
        config("Alt+Ctrl+B").resolve().unwrap_err(),
        "Ctrl+Alt+b is reserved by Bosun"
    );
    assert_eq!(
        config("shift+left").resolve().unwrap_err(),
        "Shift+Left is assigned more than once"
    );
}

#[test]
fn spellings() {
    for (spelling, label, tmux) in [
        ("Shift+Left", "Shift+Left", "S-Left"),
        (" control + OPTION + shift + RIGHT ", "Ctrl+Alt+Shift+Right", "C-M-S-Right"),
        ("up", "Up", "Up"),
        ("alt+alt+down", "Alt+Down", "M-Down"),
        ("f12", "F12", "F12"),
        ("Shift+F007", "Shift+F7", "S-F7"),
        ("Alt+H", "Alt+h", "M-h"),
        ("Ctrl+V", "Ctrl+v", "C-v"),
    ] {
        let shortcut = Shortcut::parse(spelling).unwrap().unwrap();
        assert_eq!(shortcut.label, label);
        assert_eq!(shortcut.tmux, tmux);
        let again = Shortcut::parse(label).unwrap().unwrap();
        assert_eq!(again, shortcut);
    }
    for spelling in ["", "  ", "none", " NoNe\t"] {
        assert_eq!(Shortcut::parse(spelling), Ok(None));
    }
}

#[test]
fn matching_is_exact() {
    let shortcut = Shortcut::parse("Shift+Left").unwrap().unwrap();
    assert!(shortcut.matches(event("Shift+Left")));
    let mut held = event("Shift+Left");
    held.kind = KeyEventKind::Repeat;
    assert!(shortcut.matches(held));
    held.kind = KeyEventKind::Release;
    assert!(!shortcut.matches(held));
    assert!(!shortcut.matches(event("Left")));
    assert!(!shortcut.matches(event("Shift+Right")));
    let mut hyper = event("Shift+Left");
    hyper.modifiers.hyper = true;
    assert!(!shortcut.matches(hyper));
}

#[test]
fn events_are_equal_as_in_the_terminal_library() {
    let mut ours = Vec::new();
    let mut theirs = Vec::new();
    for c in ['a', 'A', 'z', 'Z', '1', '[', 'é', 'É'] {
        for shift in [false, true] {
            for caps_lock in [false, true] {
                let mut event = KeyEvent::new(KeyCode::Char(c), KeyModifiers::none());
                event.modifiers.shift = shift;
                event.state.caps_lock = caps_lock;
                ours.push(event);
                let modifiers = if shift {
                    crossterm::event::KeyModifiers::SHIFT
                } else {
                    crossterm::event::KeyModifiers::NONE
                };
                let mut event = crossterm::event::KeyEvent::new(
                    crossterm::event::KeyCode::Char(c),
                    modifiers,
                );
                if caps_lock {
                    event.state = crossterm::event::KeyEventState::CAPS_LOCK;
                }
                theirs.push(event);
            }
        }
    }
    for i in 0..ours.len() {
        for j in 0..ours.len() {
            assert_eq!(ours[i] == ours[j], theirs[i] == theirs[j], "{:?} {:?}", ours[i], ours[j]);
        }
    }
    let upper = KeyEvent::new(KeyCode::Char('A'), KeyModifiers::none());
    assert_eq!(upper, KeyEvent::new(KeyCode::Char('a'), KeyModifiers::none().with_shift()));
    assert_ne!(upper, KeyEvent::new(KeyCode::Char('a'), KeyModifiers::none()));
}

#[test]
fn shortcuts_compare_their_events() {
    let lower = Shortcut::parse("Alt+a").unwrap().unwrap();
    let mut upper = lower.clone();
    upper.event.code = KeyCode::Char('A');
    assert_ne!(lower, upper);
    let mut shifted = lower.clone();
    shifted.event.modifiers.shift = true;
    assert_eq!(upper, shifted);
    assert_eq!(lower.event.state, KeyEventState::none());
    let mut keypad = event("Left");
    keypad.state.keypad = true;
    assert_ne!(keypad, event("Left"));
    assert!(Shortcut::parse("Left").unwrap().unwrap().matches(keypad));
}

#[test]
fn default_bindings() {
    let keys = KeyBindings::default();
    let labels: Vec<&str> = [
        Action::PreviousTab,
        Action::NextTab,
        Action::PreviousSession,
        Action::NextSession,
        Action::SendNextKey,
    ]
    .iter()
    .map(|a| keys.label(*a))
    .collect();
    assert_eq!(labels, ["Shift+Left", "Shift+Right", "Shift+Up", "Shift+Down", "Ctrl+v"]);
    assert_eq!(keys.get(Action::SendNextKey).unwrap().tmux, "C-v");
    assert_eq!(
        keys.get(Action::SendNextKey).unwrap().event,
        KeyEvent::new(KeyCode::Char('v'), KeyModifiers::none().with_control())
    );
    assert_eq!(keys.action(event("Shift+Down")), Some(Action::NextSession));
}

#[test]
fn order_of_bindings_is_that_of_actions() {
    let keys = config("none").resolve().unwrap();
    let actions: Vec<Action> = keys.0.iter().map(|b| b.0).collect();
    assert_eq!(
        actions,
        [
            Action::PreviousTab,
            Action::PreviousSession,
            Action::NextSession,
            Action::SendNextKey
        ]
    );
    assert!(keys.get(Action::NextTab).is_none());
}

#[test]
fn router_forwards_other_keys() {
    let keys = KeyBindings::default();
    let mut router = KeyRouter::default();
    assert_eq!(router.route(&keys, event("Ctrl+q")), Route::Forward);
    assert_eq!(router.route(&keys, event("Shift+Left")), Route::Action(Action::PreviousTab));
    assert!(!router.pending);
}

#[test]
fn shortcuts_are_sent_apart() {
    let ctx = EncodeContext::default();
    let mut seen: Vec<(KeyEvent, Vec<u8>)> = Vec::new();
    let mut keys: Vec<String> =
        ["Left", "Right", "Up", "Down"].iter().map(|k| k.to_string()).collect();
    for n in 1..=12 {
        keys.push(format!("F{n}"));
    }
    for c in 'a'..='z' {
        keys.push(c.to_string());
    }
    for modifiers in ["", "Shift+", "Alt+", "Alt+Shift+", "Ctrl+", "Ctrl+Shift+", "Ctrl+Alt+"] {
        for key in &keys {
            if let Ok(Some(shortcut)) = Shortcut::parse(&format!("{modifiers}{key}")) {
                let bytes = encode_literal(shortcut.event, ctx).unwrap();
                assert!(!["\r", "\t", "\x7f", "\x1b"].contains(&String::from_utf8_lossy(&bytes).as_ref()));
                for (other, sent) in &seen {
                    assert!(*other == shortcut.event || *sent != bytes);
                }
                seen.push((shortcut.event, bytes));
            }
        }
    }
    assert!(seen.len() > 100);
}
