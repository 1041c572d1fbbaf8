use bosun::error::BosunError;
use bosun::tmux::command::{Output, Reply};
use bosun::tmux::quote::{shell_quote, tmux_quote};
use bosun::tmux::status_bar::{
    build_hint, configure_session, digit_key, emergency_uninstall, hint_requests, install_globals,
    option_text, outcome, run_targeted, show_option, uninstall_globals, BarSession, Script,
    STATUS_LEFT,
};

fn exited(success: bool, stdout: &str, stderr: &[u8]) -> Reply {
    Reply::Exited(Output {
        success,
        stdout: stdout.as_bytes().to_vec(),
        stderr: stderr.to_vec(),
    })
}

fn ok() -> Reply {
    exited(true, "", b"")
}

fn sessions(n: usize) -> Vec<BarSession> {
    (1..=n)
        .map(|i| BarSession {
            internal: format!("bosun-s{i}-\"\\"),
            display: format!("s{i}"),
            attached: i == 1,
        })
        .collect()
}

fn run_all(mut script: Script, reply: &Reply) -> (Vec<Vec<String>>, Result<(), BosunError>) {
    let mut seen = Vec::new();
    while let Some(request) = script.request() {
        assert!(request.input.is_none());
        seen.push(request.argv());
        script.advance(reply);
    }
    (seen, script.result())
}

#[test]
fn tmux_quote_wraps_and_escapes() {
    assert_eq!(tmux_quote("plain"), "\"plain\"");
    assert_eq!(tmux_quote("has space"), "\"has space\"");
    assert_eq!(tmux_quote("has\"quote"), "\"has\\\"quote\"");
}

#[test]
fn status_left_is_empty() {
    assert_eq!(STATUS_LEFT, "");
}

#[test]
fn hint_includes_shift_arrow_cycle() {
    let hint = build_hint("", "");
    assert!(hint.contains("cycle"));
    assert!(hint.contains("send next"));
    assert!(hint.contains("^Q detach"));
    assert!(hint.contains("1-9 jump"));
}

#[test]
fn digit_key_is_bare_digit() {
    assert_eq!(digit_key(1), "1");
    assert_eq!(digit_key(9), "9");
}

#[test]
fn quotes_escape_backslashes_first() {
    assert_eq!(tmux_quote("a\\\"b"), "\"a\\\\\\\"b\"");
    assert_eq!(tmux_quote(""), "\"\"");
    assert_eq!(shell_quote("it's"), "'it'\\''s'");
    assert_eq!(shell_quote(""), "''");
}

#[test]
fn hints() {
    let default = "#[fg=#7c8495]^Q detach · Shift+Left / Shift+Right cycle · Ctrl+v send next · C-b 1-9 jump ";
    assert_eq!(build_hint("", ""), default);
    assert_eq!(build_hint("None", ""), default);
    assert_eq!(
        build_hint("C-a", "F1 / F2 cycle · F3 send next"),
        "#[fg=#7c8495]^Q detach · F1 / F2 cycle · F3 send next · C-a 1-9 jump "
    );
}

#[test]
fn jump_keys_for_two_sessions() {
    let (seen, result) = run_all(install_globals(Some("sock"), &sessions(2)), &ok());
    assert!(result.is_ok());
    assert_eq!(seen.len(), 9);
    assert_eq!(
        seen[1],
        [
            "-L",
            "sock",
            "bind-key",
            "-T",
            "prefix",
            "2",
            "switch-client -t \"bosun-s2-\\\"\\\\\""
        ]
    );
    assert_eq!(seen[2], ["-L", "sock", "unbind-key", "-T", "prefix", "3"]);
    assert_eq!(seen[8], ["-L", "sock", "unbind-key", "-T", "prefix", "9"]);
}

#[test]
fn only_nine_sessions_have_jump_keys() {
    let (seen, _) = run_all(install_globals(None, &sessions(12)), &ok());
    assert_eq!(seen.len(), 9);
    for (i, argv) in seen.iter().enumerate() {
        assert_eq!(argv[..4], ["bind-key", "-T", "prefix", (i + 1).to_string().as_str()]);
    }
}

#[test]
fn uninstalling_unbinds_what_installing_binds() {
    let (seen, _) = run_all(install_globals(None, &sessions(9)), &ok());
    let removed = uninstall_globals(None);
    assert_eq!(removed.len(), 9);
    for (bind, unbind) in seen.iter().zip(&removed) {
        assert_eq!(unbind.args, ["unbind-key", "-T", "prefix", bind[3].as_str()]);
    }
    let emergency: Vec<Vec<String>> =
        emergency_uninstall(Some("x")).iter().map(|r| r.argv()).collect();
    assert_eq!(emergency[0], ["-L", "x", "unbind-key", "-T", "prefix", "1"]);
    assert_eq!(emergency.len(), 9);
}

#[test]
fn failing_to_bind_a_jump_key_is_an_error() {
    let reply = exited(false, "", b"  no server running\n");
    let (seen, result) = run_all(install_globals(Some("x"), &sessions(3)), &reply);
    assert_eq!(seen.len(), 1);
    match result {
        Err(BosunError::Tmux(text)) => assert_eq!(
            text,
            "tmux [\"bind-key\", \"-T\", \"prefix\", \"1\", \"switch-client -t \\\"bosun-s1-\\\\\\\"\\\\\\\\\\\"\"] failed: no server running"
        ),
        other => panic!("{other:?}"),
    }
}

#[test]
fn failing_to_unbind_a_jump_key_is_none() {
    let (seen, result) = run_all(install_globals(None, &[]), &exited(false, "", b"no"));
    assert_eq!(seen.len(), 9);
    assert!(result.is_ok());
}

#[test]
fn system_errors_are_passed_on() {
    let reply = Reply::Failed("not found".to_string());
    let (seen, result) = run_all(install_globals(None, &sessions(1)), &reply);
    assert_eq!(seen.len(), 1);
    assert!(matches!(result, Err(BosunError::Io(text)) if text == "not found"));
}

#[test]
fn stderr_is_decoded_and_trimmed() {
    let request = show_option(None, "prefix");
    match outcome(&request, &exited(false, "", b"\tbad \xff byte \n")) {
        Err(BosunError::Tmux(text)) => assert_eq!(
            text,
            "tmux [\"show-options\", \"-gqv\", \"prefix\"] failed: bad \u{fffd} byte"
        ),
        other => panic!("{other:?}"),
    }
    assert!(outcome(&request, &ok()).is_ok());
}

#[test]
fn failure_text_lists_arguments_as_debug_does() {
    let request = run_targeted(None, &["-t", "it's \u{1f}"], &["cmd", "a\tb", ""]);
    let args: Vec<&str> = request.args.iter().map(|a| a.as_str()).collect();
    match outcome(&request, &exited(false, "", b"x")) {
        Err(BosunError::Tmux(text)) => {
            assert_eq!(text, format!("tmux {:?} failed: {}", &args[..], "x"))
        }
        other => panic!("{other:?}"),
    }
}

#[test]
fn options() {
    assert_eq!(option_text(&exited(true, " C-a \n", b"")), "C-a");
    assert_eq!(option_text(&exited(false, "C-a\n", b"")), "");
    assert_eq!(option_text(&Reply::Failed("x".to_string())), "");
    assert_eq!(show_option(None, "prefix").argv(), ["show-options", "-gqv", "prefix"]);
}

#[test]
fn hints_are_made_of_two_options() {
    let (prefix, navigation) = hint_requests(Some("s"));
    assert_eq!(prefix.argv(), ["-L", "s", "show-options", "-gqv", "prefix"]);
    assert_eq!(navigation.argv(), ["-L", "s", "show-options", "-gqv", "@bosun_input_hint"]);
}

#[test]
fn targets_follow_the_command() {
    let request = run_targeted(Some("s"), &["-t", "work"], &["set-option", "status", "on"]);
    assert_eq!(request.argv(), ["-L", "s", "set-option", "-t", "work", "status", "on"]);
    assert_eq!(run_targeted(None, &[], &["kill-server"]).argv(), ["kill-server"]);
}

#[test]
fn configuring_a_session() {
    let script = configure_session(
        None,
        "work",
        &sessions(2),
        &exited(true, "C-a\n", b""),
        &Reply::Failed("gone".to_string()),
    );
    let (seen, result) = run_all(script, &ok());
    assert!(result.is_ok());
    let set = |name: &str, value: &str| {
        ["set-option", "-t", "work", name, value].map(str::to_string).to_vec()
    };
    assert_eq!(
        seen,
        [
            set("status", "on"),
            set("status-style", "bg=default,fg=#e6e9ef"),
            set("status-left", ""),
            set("status-left-length", "0"),
            set("status-justify", "left"),
            set("status-right", &build_hint("C-a", "")),
            set("status-right-length", "120"),
        ]
    );
}

#[test]
fn configuring_stops_at_the_first_failure() {
    let mut script = configure_session(None, "work", &[], &ok(), &ok());
    script.advance(&ok());
    script.advance(&exited(false, "", b"first"));
    assert!(script.request().is_none());
    script.advance(&exited(false, "", b"second"));
    match script.result() {
        Err(BosunError::Tmux(text)) => assert!(text.ends_with("failed: first"), "{text}"),
        other => panic!("{other:?}"),
    }
}
