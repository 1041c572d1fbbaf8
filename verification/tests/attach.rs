use bosun::error::BosunError;
use bosun::keybindings::{Action, KeyBindings};
use bosun::tmux::attach::{
    attach_outcome, attach_with_ctrl_q_detach, clear_ctrl_q_bound, clear_quick_jump_bound,
    clear_session_cycle_bound, command_for, ensure_keybindings_bound, ensure_quick_jump_bound,
    hint_for, lists_key, plan, restore_binding, saved_bindings, Attached,
};
use bosun::tmux::command::{Output, Reply};

fn printed(stdout: &[u8], success: bool) -> Reply {
    Reply::Exited(Output { success, stdout: stdout.to_vec(), stderr: Vec::new() })
}

#[test]
fn attaching() {
    let (bind, attach) = attach_with_ctrl_q_detach(Some("sock"), "work");
    assert_eq!(bind.argv(), ["-L", "sock", "bind-key", "-T", "root", "C-q", "detach-client"]);
    assert_eq!(attach.argv(), ["-L", "sock", "attach-session", "-t", "work"]);
    assert_eq!(clear_ctrl_q_bound(None).argv(), ["unbind-key", "-T", "root", "C-q"]);
}

#[test]
fn outcomes_of_attaching() {
    let exited = |success| Attached::Exited { success, status: "exit status: 1".to_string() };
    assert!(attach_outcome("work", exited(true)).is_ok());
    match attach_outcome("work", exited(false)) {
        Err(BosunError::Tmux(text)) => {
            assert_eq!(text, "attach-session -t work failed: exit status: 1")
        }
        other => panic!("{other:?}"),
    }
    match attach_outcome("work", Attached::Failed("no tmux".to_string())) {
        Err(BosunError::Io(text)) => assert_eq!(text, "no tmux"),
        other => panic!("{other:?}"),
    }
}

#[test]
fn quick_jump() {
    assert_eq!(
        ensure_quick_jump_bound(Some("it's")).argv(),
        [
            "-L",
            "it's",
            "bind-key",
            "-T",
            "prefix",
            "o",
            "display-popup",
            "-E",
            "-h",
            "70%",
            "-w",
            "60%",
            "-T",
            " bosun · quick switch ",
            "tmux -L 'it'\\''s' choose-tree -Zs -f '##{!=:##{session_name},__bosun_monitor}'",
        ]
    );
    assert_eq!(clear_quick_jump_bound(None).argv(), ["unbind-key", "-T", "prefix", "o"]);
}

#[test]
fn commands_of_actions() {
    let left = "T=$(tmux list-sessions -F '##{?session_last_attached,##{session_last_attached},0} ##{session_name}' | sort -rnk1 | awk -v cur=\"$(tmux display-message -p '##S')\" '$2 != cur && $2 != \"__bosun_monitor\" {print $2; exit}'); if [ -n \"$T\" ]; then tmux switch-client -t \"$T\"; fi";
    let right = "cur=$(tmux -L 's' display-message -p '##S'); L=$(tmux -L 's' list-sessions -F '##{?session_last_attached,##{session_last_attached},0} ##{session_name}' | sort -rnk1 | awk -v cur=\"$cur\" '$2 != cur && $2 != \"__bosun_monitor\" {print $2}'); T=$(printf '%s\\n' \"$L\" | sed -n '2p'); [ -z \"$T\" ] && T=$(printf '%s\\n' \"$L\" | sed -n '1p'); if [ -n \"$T\" ]; then tmux -L 's' switch-client -t \"$T\"; fi";
    assert_eq!(command_for(Action::PreviousTab, None), ["run-shell", left]);
    assert_eq!(command_for(Action::PreviousSession, None), ["run-shell", left]);
    assert_eq!(command_for(Action::NextTab, Some("s")), ["run-shell", right]);
    assert_eq!(command_for(Action::NextSession, Some("s")), ["run-shell", right]);
    assert_eq!(
        command_for(Action::SendNextKey, None),
        [
            "switch-client",
            "-T",
            "bosun-send-next",
            "\\;",
            "display-message",
            "Send next key to app…"
        ]
    );
}

#[test]
fn plans() {
    let keys = KeyBindings::default();
    let planned = plan(&keys, None);
    let names: Vec<&str> = planned.items().iter().map(|e| e.0.as_str()).collect();
    assert_eq!(names, ["C-v", "S-Down", "S-Left", "S-Right", "S-Up"]);
    assert_eq!(planned.get("S-Left").unwrap()[0], "run-shell");
    let none = plan(&KeyBindings(Vec::new()), None);
    assert_eq!(none.len(), 2);
    assert_eq!(none.get("S-Left").unwrap(), &["send-keys"]);
    assert_eq!(none.get("S-Right").unwrap(), &["send-keys"]);
    assert_eq!(
        hint_for(&KeyBindings(Vec::new())),
        "disabled / disabled cycle · disabled send next"
    );
}

#[test]
fn lines_of_listings() {
    assert!(lists_key("bind-key -r -T root S-Left previous-window", "S-Left"));
    assert!(lists_key("bind-key\t-T\troot\tS-Left", "S-Left"));
    assert!(!lists_key("bind-key -T root S-Left", "S-Right"));
    assert!(!lists_key("bind-key -T root", "root"));
    assert!(!lists_key("S-Left", "S-Left"));
    assert!(lists_key("bind-key -T root F1 switch-client -T other F2", "F1"));
    assert!(!lists_key("bind-key -T root F1 switch-client -T other F2", "F2"));
}

#[test]
fn saved_bindings_are_read_whatever_the_exit_status() {
    let json = b" {\"C-v\": \"x\\u00e9\\n\", \"A\": \"\"}\n";
    for success in [true, false] {
        let saved = saved_bindings(&printed(json, success));
        assert_eq!(saved.len(), 2);
        assert_eq!(saved.get("C-v").unwrap(), "xé\n");
        assert_eq!(saved.get("A").unwrap(), "");
    }
    for bad in [&b""[..], b"\n", b"[]", b"{\"a\": 1}", b"{\"a\": \"b\"} x", b"\xff"] {
        assert_eq!(saved_bindings(&printed(bad, true)).len(), 0);
    }
    assert_eq!(saved_bindings(&Reply::Failed("x".to_string())).len(), 0);
}

#[test]
fn restoring() {
    let requests = restore_binding(Some("s"), "C-v", "bind-key -T root C-v x\n");
    assert_eq!(requests[0].argv(), ["-L", "s", "unbind-key", "-T", "root", "C-v"]);
    assert_eq!(requests[1].argv(), ["-L", "s", "source-file", "-"]);
    assert_eq!(requests[1].input.as_deref(), Some("bind-key -T root C-v x\n"));
    assert_eq!(requests.len(), 2);
    assert_eq!(restore_binding(None, "C-v", "").len(), 1);
}

#[test]
fn clearing_without_saved_bindings() {
    let requests = clear_session_cycle_bound(None, &printed(b"", true));
    let argv: Vec<Vec<String>> = requests.iter().map(|r| r.argv()).collect();
    assert_eq!(argv[0], ["unbind-key", "-a", "-T", "bosun-send-next"]);
    assert_eq!(argv[1], ["set-option", "-gu", "@bosun_input_restore"]);
    assert_eq!(argv[2], ["set-option", "-gu", "@bosun_input_hint"]);
    assert_eq!(argv.len(), 3);
}

#[test]
fn listings_with_bad_bytes_are_read_all_the_same() {
    let mut install = ensure_keybindings_bound(None, &KeyBindings(Vec::new()));
    install.advance(&printed(b"", true));
    install.advance(&printed(b"bind-key -T root S-Left x\xff\r\nbind-key -T root S-Left y\n", true));
    let request = &install.requests()[0];
    assert_eq!(
        request.args,
        [
            "set-option",
            "-g",
            "@bosun_input_restore",
            "{\"S-Left\":\"bind-key -T root S-Left x\u{fffd}\\n\",\"S-Right\":\"\"}"
        ]
    );
}

#[test]
fn listings_of_failed_commands_do_not_count() {
    let mut install = ensure_keybindings_bound(None, &KeyBindings(Vec::new()));
    install.advance(&Reply::Failed("x".to_string()));
    install.advance(&printed(b"bind-key -T root S-Left x\n", false));
    assert_eq!(install.requests()[0].args[3], "{\"S-Left\":\"\",\"S-Right\":\"\"}");
}

#[test]
fn bind_requests_follow_the_order_of_keys() {
    let mut install = ensure_keybindings_bound(None, &KeyBindings::default());
    install.advance(&printed(b"", true));
    install.advance(&printed(b"", true));
    install.advance(&printed(b"", true));
    let keys: Vec<String> = install.requests().iter().map(|r| r.args[3].clone()).collect();
    assert_eq!(
        keys,
        [
            "Any",
            "C-v",
            "S-Down",
            "S-Left",
            "S-Right",
            "S-Up",
            "Shift+Left / Shift+Right cycle · Ctrl+v send next"
        ]
    );
    assert_eq!(
        install.requests()[1].args,
        [
            "bind-key",
            "-T",
            "root",
            "C-v",
            "switch-client",
            "-T",
            "bosun-send-next",
            "\\;",
            "display-message",
            "Send next key to app…"
        ]
    );
    install.advance(&printed(b"", false));
    assert!(install.requests().is_empty());
}
