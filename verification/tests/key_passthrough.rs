use bosun::keybindings::{BindingsConfig, KeyBindings};
use bosun::tmux::attach::{
    clear_session_cycle_bound, emergency_unbind, ensure_ctrl_q_bound, ensure_keybindings_bound,
    ensure_session_cycle_bound, saved_bindings_request, Install, HINT_OPTION, RESTORE_OPTION,
};
use bosun::tmux::command::{Output, Reply, Request};
use std::collections::BTreeMap;

/// A tmux server with one attached client, as far as key tables go.
struct Server {
    root: BTreeMap<String, String>,
    quote_table: bool,
    options: BTreeMap<String, String>,
    client_table: String,
    input: Vec<u8>,
    log: Vec<Vec<String>>,
    fail_on: Option<String>,
}

fn ok(stdout: String) -> Reply {
    Reply::Exited(Output { success: true, stdout: stdout.into_bytes(), stderr: Vec::new() })
}

fn failed() -> Reply {
    Reply::Exited(Output { success: false, stdout: Vec::new(), stderr: b"refused".to_vec() })
}

impl Server {
    fn bare() -> Self {
        let mut s = Server {
            root: BTreeMap::new(),
            quote_table: false,
            options: BTreeMap::new(),
            client_table: "root".to_string(),
            input: Vec::new(),
            log: Vec::new(),
            fail_on: None,
        };
        for line in [
            "bind-key    -T root S-Left               previous-window",
            "bind-key    -T root S-Right              next-window",
            "bind-key -r -T root MouseDown1Pane       select-pane -t =",
        ] {
            s.source(line);
        }
        s
    }

    fn new(keys: &KeyBindings) -> (Self, String) {
        let mut s = Server::bare();
        let request = ensure_ctrl_q_bound(None);
        s.perform(&request);
        let original_root = s.list_root();
        s.install(ensure_keybindings_bound(None, keys));
        (s, original_root)
    }

    fn source(&mut self, line: &str) {
        let words: Vec<&str> = line.split_whitespace().collect();
        let flag = words.iter().position(|w| *w == "-T").unwrap();
        assert_eq!(words[flag + 1], "root");
        self.root.insert(words[flag + 2].to_string(), line.to_string());
    }

    fn list_root(&self) -> String {
        self.root.values().map(|line| format!("{line}\n")).collect()
    }

    fn perform(&mut self, request: &Request) -> Reply {
        self.log.push(request.argv());
        let args: Vec<&str> = request.args.iter().map(|a| a.as_str()).collect();
        if self.fail_on.as_deref() == Some(args[0]) {
            return failed();
        }
        match args.as_slice() {
            ["show-options", "-gqv", name] => {
                let value = self.options.get(*name);
                return ok(value.map(|v| format!("{v}\n")).unwrap_or_default());
            }
            ["set-option", "-g", name, value] => {
                self.options.insert(name.to_string(), value.to_string());
            }
            ["set-option", "-gu", name] => {
                self.options.remove(*name);
            }
            ["list-keys", "-T", "root"] => return ok(self.list_root()),
            ["bind-key", "-T", "root", key, command @ ..] => {
                let line = format!("bind-key -T root {key} {}", command.join(" "));
                self.root.insert(key.to_string(), line);
            }
            ["bind-key", "-T", "bosun-send-next", "Any", "send-keys"] => self.quote_table = true,
            ["unbind-key", "-T", "root", key] => {
                self.root.remove(*key);
            }
            ["unbind-key", "-T", "prefix", _] => {}
            ["unbind-key", "-a", "-T", "bosun-send-next"] => self.quote_table = false,
            ["source-file", "-"] => {
                let text = request.input.clone().unwrap();
                for line in text.lines() {
                    self.source(line);
                }
            }
            other => panic!("{other:?}"),
        }
        ok(String::new())
    }

    fn install(&mut self, mut install: Install) {
        loop {
            let requests = install.requests();
            if requests.is_empty() {
                break;
            }
            let mut last = None;
            for request in &requests {
                last = Some(self.perform(request));
            }
            install.advance(&last.unwrap());
        }
    }

    fn clear(&mut self) {
        let request = saved_bindings_request(None);
        let saved = self.perform(&request);
        for request in clear_session_cycle_bound(None, &saved) {
            self.perform(&request);
        }
    }

    fn send(&mut self, input: &[u8], expected: &[u8]) {
        let mut rest = input;
        while !rest.is_empty() {
            let (name, length) = key_at(rest);
            let (bytes, more) = rest.split_at(length);
            rest = more;
            self.press(&name, bytes);
        }
        assert_eq!(self.input, expected);
    }

    fn press(&mut self, name: &str, bytes: &[u8]) {
        if self.client_table != "root" {
            assert!(self.quote_table);
            self.client_table = "root".to_string();
            self.input.extend_from_slice(bytes);
            return;
        }
        let prefix = format!("bind-key -T root {name} ");
        let command = self.root.get(name).map(|line| line.trim_start_matches(&prefix).to_string());
        match command {
            None => self.input.extend_from_slice(bytes),
            Some(command) if command == "send-keys" => self.input.extend_from_slice(bytes),
            Some(command) if command.starts_with("switch-client -T bosun-send-next \\;") => {
                self.client_table = "bosun-send-next".to_string()
            }
            Some(_) => {}
        }
    }
}

fn key_at(input: &[u8]) -> (String, usize) {
    for (bytes, name) in [
        ("\x1b[1;2D", "S-Left"),
        ("\x1b[1;2C", "S-Right"),
        ("\x1b[1;2A", "S-Up"),
        ("\x1b[1;2B", "S-Down"),
        ("\x1b[1;6C", "C-S-Right"),
        ("\x1b[1;3D", "M-Left"),
        ("\x1b[24~", "F12"),
        ("\x16", "C-v"),
        ("\x11", "C-q"),
    ] {
        if input.starts_with(bytes.as_bytes()) {
            return (name.to_string(), bytes.len());
        }
    }
    ((input[0] as char).to_string(), 1)
}

fn config(
    previous_tab: &str,
    next_tab: &str,
    previous_session: &str,
    next_session: &str,
    send_next_key: &str,
) -> KeyBindings {
    BindingsConfig {
        previous_tab: previous_tab.into(),
        next_tab: next_tab.into(),
        previous_session: previous_session.into(),
        next_session: next_session.into(),
        send_next_key: send_next_key.into(),
    }
    .resolve()
    .unwrap()
}

#[test]
fn quoted_keys_bypass_root_bindings_exactly_once() {
    let (mut s, _) = Server::new(&KeyBindings::default());
    s.send(b"\x16\x1b[1;2C", b"\x1b[1;2C");
    s.send(b"\x1b[1;2Cx", b"\x1b[1;2Cx");
    s.send(b"\x16\x16", b"\x1b[1;2Cx\x16");
    s.send(b"\x16\x11", b"\x1b[1;2Cx\x16\x11");
    s.send(b"z", b"\x1b[1;2Cx\x16\x11z");
    assert_eq!(s.client_table, "root");
}

#[test]
fn remapped_and_disabled_arrows_reach_the_application() {
    let keys = config("none", "Ctrl+Shift+Right", "none", "none", "F12");
    let (mut s, original_root) = Server::new(&keys);
    s.send(
        b"\x1b[1;2D\x1b[1;2C\x1b[1;2A\x1b[1;2B",
        b"\x1b[1;2D\x1b[1;2C\x1b[1;2A\x1b[1;2B",
    );
    s.send(
        b"\x1b[24~\x1b[1;6C",
        b"\x1b[1;2D\x1b[1;2C\x1b[1;2A\x1b[1;2B\x1b[1;6C",
    );
    s.install(ensure_keybindings_bound(None, &keys));
    s.clear();
    let root = s.list_root();
    assert!(!root.contains("bosun-send-next"));
    assert_eq!(root, original_root, "original tmux root bindings restored");
}

#[test]
fn cleanup_restores_existing_custom_bindings() {
    let (mut s, _) = Server::new(&KeyBindings::default());
    s.clear();
    s.source("bind-key -T root C-v display-message \"original quote binding\"");
    for _ in 0..2 {
        s.install(ensure_keybindings_bound(None, &KeyBindings::default()));
    }
    s.clear();
    let binding = s.list_root();
    assert!(binding.contains("original quote binding"), "{binding}");
}

#[test]
fn changed_configuration_removes_old_shortcuts() {
    let (mut s, original_root) = Server::new(&KeyBindings::default());
    let keys = config("Ctrl+Shift+Left", "Ctrl+Shift+Right", "none", "none", "Alt+Left");
    s.install(ensure_keybindings_bound(None, &keys));
    s.send(
        b"\x16\x1b[1;2B\x1b[1;3D\x1b[1;2C",
        b"\x16\x1b[1;2B\x1b[1;2C",
    );
    s.clear();
    assert_eq!(s.list_root(), original_root);
}

#[test]
fn clearing_leaves_nothing_behind() {
    let (mut s, original_root) = Server::new(&KeyBindings::default());
    assert_eq!(
        s.options.get(HINT_OPTION).map(String::as_str),
        Some("Shift+Left / Shift+Right cycle · Ctrl+v send next")
    );
    assert!(s.options.contains_key(RESTORE_OPTION));
    s.clear();
    assert!(s.options.is_empty());
    assert!(!s.quote_table);
    s.clear();
    assert_eq!(s.list_root(), original_root);
}

#[test]
fn saved_bindings_are_a_json_object() {
    let mut s = Server::bare();
    s.source("bind-key -T root C-v display-message \"a \\\\ 'b' é\"");
    s.install(ensure_session_cycle_bound(None));
    assert_eq!(
        s.options[RESTORE_OPTION],
        concat_lines(&[
            "{\"C-v\":\"bind-key -T root C-v display-message \\\"a \\\\\\\\ 'b' é\\\"\\n\",",
            "\"S-Down\":\"\",",
            "\"S-Left\":\"bind-key    -T root S-Left               previous-window\\n\",",
            "\"S-Right\":\"bind-key    -T root S-Right              next-window\\n\",",
            "\"S-Up\":\"\"}",
        ])
    );
}

fn concat_lines(parts: &[&str]) -> String {
    parts.join("")
}

#[test]
fn reinstalling_keeps_originals_and_restores_nothing() {
    let mut s = Server::bare();
    let original_root = s.list_root();
    s.install(ensure_session_cycle_bound(None));
    let saved = s.options[RESTORE_OPTION].clone();
    let bound = s.list_root();
    s.log.clear();
    s.install(ensure_session_cycle_bound(None));
    assert_eq!(s.options[RESTORE_OPTION], saved);
    assert_eq!(s.list_root(), bound);
    assert!(s.log.iter().all(|argv| argv[0] != "unbind-key" && argv[0] != "source-file"));
    s.clear();
    assert_eq!(s.list_root(), original_root);
}

#[test]
fn no_key_is_bound_unless_originals_are_saved() {
    let mut s = Server::bare();
    let original_root = s.list_root();
    s.fail_on = Some("set-option".to_string());
    s.install(ensure_session_cycle_bound(Some("sock")));
    assert_eq!(s.list_root(), original_root);
    let names: Vec<&str> = s.log.iter().map(|argv| argv[2].as_str()).collect();
    assert_eq!(names, ["show-options", "list-keys", "set-option"]);
    assert_eq!(s.log[0], ["-L", "sock", "show-options", "-gqv", "@bosun_input_restore"]);
}

#[test]
fn originals_are_saved_before_the_first_key_is_bound() {
    let mut s = Server::bare();
    s.install(ensure_session_cycle_bound(None));
    let saved = s.log.iter().position(|argv| argv[0] == "set-option").unwrap();
    let bound = s.log.iter().position(|argv| argv[0] == "bind-key").unwrap();
    assert!(saved < bound);
}

#[test]
fn interrupted_installations_can_be_undone() {
    for steps in 0..5 {
        let mut s = Server::bare();
        s.source("bind-key -T root F12 display-message x");
        let original_root = s.list_root();
        s.install(ensure_session_cycle_bound(None));
        let keys = config("none", "Ctrl+Shift+Right", "none", "Shift+Down", "F12");
        let mut install = ensure_keybindings_bound(None, &keys);
        for _ in 0..steps {
            let mut last = None;
            for request in &install.requests() {
                last = Some(s.perform(request));
            }
            if let Some(reply) = last {
                install.advance(&reply);
            }
        }
        if let Some(request) = install.requests().first() {
            s.perform(request);
        }
        s.clear();
        assert_eq!(s.list_root(), original_root, "{steps}");
    }
}

#[test]
fn emergency_cleanup_also_frees_the_detach_key() {
    let (mut s, original_root) = Server::new(&KeyBindings::default());
    let request = saved_bindings_request(None);
    let saved = s.perform(&request);
    let requests = emergency_unbind(None, &saved);
    for request in &requests {
        s.perform(request);
    }
    assert!(original_root.contains("C-q"));
    s.perform(&ensure_ctrl_q_bound(None));
    assert_eq!(s.list_root(), original_root);
    assert_eq!(
        requests.last().unwrap().argv(),
        ["unbind-key", "-T", "prefix", "o"]
    );
}
