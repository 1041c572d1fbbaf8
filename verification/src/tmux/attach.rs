//! Attaching to sessions, and the key bindings that live on the tmux server
//! meanwhile.
//!
//! Root bindings that are overwritten are saved on the server, in an option,
//! before anything is changed, so that they can be restored at any later time.

pub mod effects;
pub mod laws;

use crate::error;
use crate::error::BosunError;
use crate::keybindings;
use crate::keybindings::{Action, KeyBindings};
use crate::text;
use crate::text_map;
use crate::text_map::TextMap;
use crate::tmux::command;
use crate::tmux::command::{Reply, Request, RequestView};
use crate::tmux::quote;
use crate::tmux::store;
use vstd::prelude::*;

verus! {

/// The key table in which every key is passed to the application.
pub const QUOTE_TABLE: &'static str = "bosun-send-next";

/// The server option that holds the saved bindings.
pub const RESTORE_OPTION: &'static str = "@bosun_input_restore";

/// The server option that holds the hint about the bindings.
pub const HINT_OPTION: &'static str = "@bosun_input_hint";

/// The session that watches the server; it is never shown.
pub const MONITOR_SESSION: &'static str = "__bosun_monitor";

/// Binds C-q to detach.
pub open spec fn bind_ctrl_q(socket: Option<Seq<char>>) -> RequestView {
    command::run_request(socket, seq!["bind-key"@, "-T"@, "root"@, "C-q"@, "detach-client"@])
}

/// The request that binds C-q, without a prefix, to detach. Binding again
/// changes nothing.
pub fn ensure_ctrl_q_bound(socket: Option<&str>) -> (res: Request)
    ensures
        res@ == bind_ctrl_q(command::socket_view(socket)),
{
    let res = command::request(socket, &["bind-key", "-T", "root", "C-q", "detach-client"]);
    assert(res@ =~= bind_ctrl_q(command::socket_view(socket)));
    res
}

/// Unbinds C-q.
pub open spec fn unbind_ctrl_q(socket: Option<Seq<char>>) -> RequestView {
    command::run_request(socket, seq!["unbind-key"@, "-T"@, "root"@, "C-q"@])
}

/// The request that unbinds C-q.
pub fn clear_ctrl_q_bound(socket: Option<&str>) -> (res: Request)
    ensures
        res@ == unbind_ctrl_q(command::socket_view(socket)),
{
    let res = command::request(socket, &["unbind-key", "-T", "root", "C-q"]);
    assert(res@ =~= unbind_ctrl_q(command::socket_view(socket)));
    res
}

/// Attaches to a session.
pub open spec fn attach_request(socket: Option<Seq<char>>, name: Seq<char>) -> RequestView {
    command::run_request(socket, seq!["attach-session"@, "-t"@, name])
}

/// The request that attaches to a session. It takes over the terminal until
/// the user detaches.
pub fn run_attach(socket: Option<&str>, name: &str) -> (res: Request)
    ensures
        res@ == attach_request(command::socket_view(socket), name@),
{
    let res = command::request(socket, &["attach-session", "-t", name]);
    assert(res@ =~= attach_request(command::socket_view(socket), name@));
    res
}

/// The requests to attach to a session that C-q detaches from: first the one
/// that binds C-q, whose outcome does not matter, then the one that attaches.
pub fn attach_with_ctrl_q_detach(socket: Option<&str>, name: &str) -> (res: (Request, Request))
    ensures
        res.0@ == bind_ctrl_q(command::socket_view(socket)),
        res.1@ == attach_request(command::socket_view(socket), name@),
{
    (ensure_ctrl_q_bound(socket), run_attach(socket, name))
}

/// How an attached tmux ended.
#[derive(Clone, Debug)]
pub enum Attached {
    /// It ran; `status` is its exit status in words.
    Exited { success: bool, status: String },
    /// It could not be run; this is the system's message.
    Failed(String),
}

/// What attaching to `name` comes to.
pub open spec fn attach_result(name: Seq<char>, ended: Attached) -> Result<
    (),
    error::BosunErrorView,
> {
    match ended {
        Attached::Exited { success: true, status: _ } => Ok(()),
        Attached::Exited { success: false, status } => Err(
            error::BosunErrorView::Tmux(
                "attach-session -t "@ + name + " failed: "@ + status@,
            ),
        ),
        Attached::Failed(message) => Err(error::BosunErrorView::Io(message@)),
    }
}

/// What attaching to `name` comes to, once it has ended: an error where tmux
/// could not be run or did not succeed.
pub fn attach_outcome(name: &str, ended: Attached) -> (res: Result<(), BosunError>)
    ensures
        error::result_view(res) == attach_result(name@, ended),
{
    match ended {
        Attached::Exited { success, status } => {
            if success {
                Ok(())
            } else {
                let mut text = "attach-session -t ".to_string();
                text.append(name);
                text.append(" failed: ");
                text.append(status.as_str());
                Err(BosunError::Tmux(text))
            }
        },
        Attached::Failed(message) => Err(BosunError::Io(message)),
    }
}

/// The shell command that runs tmux on a socket.
pub open spec fn tmux_program(socket: Option<Seq<char>>) -> Seq<char> {
    match socket {
        Some(s) => "tmux -L "@ + quote::shell_quoted(s),
        None => "tmux"@,
    }
}

/// The shell command that runs tmux on a socket.
pub fn tmux_shell_command(socket: Option<&str>) -> (res: String)
    ensures
        res@ == tmux_program(command::socket_view(socket)),
{
    match socket {
        Some(s) => {
            let mut res = "tmux -L ".to_string();
            res.append(quote::shell_quote(s).as_str());
            res
        },
        None => "tmux".to_string(),
    }
}

/// The quick-jump chooser: all sessions but the monitor.
pub open spec fn chooser_command(socket: Option<Seq<char>>) -> Seq<char> {
    tmux_program(socket) + " choose-tree -Zs -f '##{!=:##{session_name},"@ + MONITOR_SESSION@ + "}'"@
}

/// Binds prefix o to the quick-jump chooser.
pub open spec fn bind_quick_jump(socket: Option<Seq<char>>) -> RequestView {
    command::run_request(
        socket,
        seq![
            "bind-key"@,
            "-T"@,
            "prefix"@,
            "o"@,
            "display-popup"@,
            "-E"@,
            "-h"@,
            "70%"@,
            "-w"@,
            "60%"@,
            "-T"@,
            " bosun · quick switch "@,
            chooser_command(socket),
        ],
    )
}

/// The request that binds prefix o to a popup in which to choose a session.
/// The monitor session is not offered. tmux expands the popup's command once
/// more when the key is pressed, hence the doubled `#`.
pub fn ensure_quick_jump_bound(socket: Option<&str>) -> (res: Request)
    ensures
        res@ == bind_quick_jump(command::socket_view(socket)),
{
    let mut cmd = tmux_shell_command(socket);
    cmd.append(" choose-tree -Zs -f '##{!=:##{session_name},");
    cmd.append(MONITOR_SESSION);
    cmd.append("}'");
    let res = command::request(
        socket,
        &[
            "bind-key",
            "-T",
            "prefix",
            "o",
            "display-popup",
            "-E",
            "-h",
            "70%",
            "-w",
            "60%",
            "-T",
            " bosun · quick switch ",
            cmd.as_str(),
        ],
    );
    assert(res@ =~= bind_quick_jump(command::socket_view(socket)));
    res
}

/// Unbinds prefix o.
pub open spec fn unbind_quick_jump(socket: Option<Seq<char>>) -> RequestView {
    command::run_request(socket, seq!["unbind-key"@, "-T"@, "prefix"@, "o"@])
}

/// The request that unbinds prefix o.
pub fn clear_quick_jump_bound(socket: Option<&str>) -> (res: Request)
    ensures
        res@ == unbind_quick_jump(command::socket_view(socket)),
{
    let res = command::request(socket, &["unbind-key", "-T", "prefix", "o"]);
    assert(res@ =~= unbind_quick_jump(command::socket_view(socket)));
    res
}

/// How sessions are listed: when each was last attached, or 0, then its name.
/// tmux expands a binding's command once more when the key is pressed, hence
/// the doubled `#`.
pub const SESSION_FORMAT: &'static str =
    "##{?session_last_attached,##{session_last_attached},0} ##{session_name}";

/// The shell command that switches to the session attached last, other than
/// the current one.
pub open spec fn toggle_command(socket: Option<Seq<char>>) -> Seq<char> {
    let tmux = tmux_program(socket);
    "T=$("@ + tmux + " list-sessions -F '"@ + SESSION_FORMAT@
        + "' | sort -rnk1 | awk -v cur=\"$("@ + tmux
        + " display-message -p '##S')\" '$2 != cur && $2 != \""@ + MONITOR_SESSION@
        + "\" {print $2; exit}'); if [ -n \"$T\" ]; then "@ + tmux
        + " switch-client -t \"$T\"; fi"@
}

/// The shell command that switches to the session attached last, other than
/// the current one. The monitor session is left out.
pub fn toggle_session_command(socket: Option<&str>) -> (res: String)
    ensures
        res@ == toggle_command(command::socket_view(socket)),
{
    let tmux = tmux_shell_command(socket);
    let mut res = "T=$(".to_string();
    res.append(tmux.as_str());
    res.append(" list-sessions -F '");
    res.append(SESSION_FORMAT);
    res.append("' | sort -rnk1 | awk -v cur=\"$(");
    res.append(tmux.as_str());
    res.append(" display-message -p '##S')\" '$2 != cur && $2 != \"");
    res.append(MONITOR_SESSION);
    res.append("\" {print $2; exit}'); if [ -n \"$T\" ]; then ");
    res.append(tmux.as_str());
    res.append(" switch-client -t \"$T\"; fi");
    res
}

/// The shell command that switches to the session attached second to last,
/// other than the current one, or to the last where there is no second.
pub open spec fn walk_command(socket: Option<Seq<char>>) -> Seq<char> {
    let tmux = tmux_program(socket);
    "cur=$("@ + tmux + " display-message -p '##S'); L=$("@ + tmux + " list-sessions -F '"@
        + SESSION_FORMAT@ + "' | sort -rnk1 | awk -v cur=\"$cur\" '$2 != cur && $2 != \""@
        + MONITOR_SESSION@
        + "\" {print $2}'); T=$(printf '%s\\n' \"$L\" | sed -n '2p'); [ -z \"$T\" ] && T=$(printf '%s\\n' \"$L\" | sed -n '1p'); if [ -n \"$T\" ]; then "@
        + tmux + " switch-client -t \"$T\"; fi"@
}

/// The shell command that switches to the session attached second to last,
/// other than the current one, or to the last where there is no second. The
/// monitor session is left out.
pub fn walk_sessions_command(socket: Option<&str>) -> (res: String)
    ensures
        res@ == walk_command(command::socket_view(socket)),
{
    let tmux = tmux_shell_command(socket);
    let mut res = "cur=$(".to_string();
    res.append(tmux.as_str());
    res.append(" display-message -p '##S'); L=$(");
    res.append(tmux.as_str());
    res.append(" list-sessions -F '");
    res.append(SESSION_FORMAT);
    res.append("' | sort -rnk1 | awk -v cur=\"$cur\" '$2 != cur && $2 != \"");
    res.append(MONITOR_SESSION);
    res.append(
        "\" {print $2}'); T=$(printf '%s\\n' \"$L\" | sed -n '2p'); [ -z \"$T\" ] && T=$(printf '%s\\n' \"$L\" | sed -n '1p'); if [ -n \"$T\" ]; then ",
    );
    res.append(tmux.as_str());
    res.append(" switch-client -t \"$T\"; fi");
    res
}

/// The tmux command that an action's key is bound to.
pub open spec fn action_command(action: Action, socket: Option<Seq<char>>) -> Seq<Seq<char>> {
    match action {
        Action::PreviousTab | Action::PreviousSession => seq!["run-shell"@, toggle_command(socket)],
        Action::NextTab | Action::NextSession => seq!["run-shell"@, walk_command(socket)],
        Action::SendNextKey => seq![
            "switch-client"@,
            "-T"@,
            QUOTE_TABLE@,
            "\\;"@,
            "display-message"@,
            "Send next key to app…"@,
        ],
    }
}

/// The tmux command that an action's key is bound to.
pub fn command_for(action: Action, socket: Option<&str>) -> (res: Vec<String>)
    ensures
        text::texts(res@) == action_command(action, command::socket_view(socket)),
{
    match action {
        Action::PreviousTab | Action::PreviousSession => {
            let shell = toggle_session_command(socket);
            let res = command::owned(&["run-shell", shell.as_str()]);
            assert(text::texts(res@) =~= action_command(action, command::socket_view(socket)));
            res
        },
        Action::NextTab | Action::NextSession => {
            let shell = walk_sessions_command(socket);
            let res = command::owned(&["run-shell", shell.as_str()]);
            assert(text::texts(res@) =~= action_command(action, command::socket_view(socket)));
            res
        },
        Action::SendNextKey => {
            let res = command::owned(
                &[
                    "switch-client",
                    "-T",
                    QUOTE_TABLE,
                    "\\;",
                    "display-message",
                    "Send next key to app…",
                ],
            );
            assert(text::texts(res@) =~= action_command(action, command::socket_view(socket)));
            res
        },
    }
}

/// What the root keys are to be bound to: S-Left and S-Right are passed to the
/// application, unless they are shortcuts, and each shortcut runs its action.
pub open spec fn planned(
    bindings: Seq<(Action, keybindings::ShortcutView)>,
    socket: Option<Seq<char>>,
) -> Map<Seq<char>, Seq<Seq<char>>>
    decreases bindings.len(),
{
    if bindings.len() == 0 {
        Map::empty().insert("S-Left"@, seq!["send-keys"@]).insert("S-Right"@, seq!["send-keys"@])
    } else {
        planned(bindings.drop_last(), socket).insert(
            bindings.last().1.tmux,
            action_command(bindings.last().0, socket),
        )
    }
}

/// A vector of strings, seen deeply, is its texts.
proof fn lemma_deep_texts(strings: Vec<String>)
    ensures
        strings.deep_view() == text::texts(strings@),
{
    assert(strings.deep_view() =~= text::texts(strings@));
}

/// What the root keys are to be bound to. tmux itself binds S-Left and S-Right
/// at the root; binding them to `send-keys` releases them to the application
/// where they are no shortcuts.
pub fn plan(bindings: &KeyBindings, socket: Option<&str>) -> (res: TextMap<Vec<String>>)
    ensures
        res.wf(),
        res.map() == planned(bindings@, command::socket_view(socket)),
{
    let ghost view = command::socket_view(socket);
    let mut res: TextMap<Vec<String>> = TextMap::new();
    let left = command::owned(&["send-keys"]);
    let right = command::owned(&["send-keys"]);
    proof {
        lemma_deep_texts(left);
        lemma_deep_texts(right);
        assert(text::texts(left@) =~= seq!["send-keys"@]);
        assert(text::texts(right@) =~= seq!["send-keys"@]);
    }
    res.insert("S-Left".to_string(), left);
    res.insert("S-Right".to_string(), right);
    let mut i: usize = 0;
    assert(bindings@.take(0).len() == 0);
    while i < bindings.0.len()
        invariant
            i <= bindings.0@.len(),
            view == command::socket_view(socket),
            res.wf(),
            res.map() == planned(bindings@.take(i as int), view),
        decreases bindings.0@.len() - i,
    {
        let command = command_for(bindings.0[i].0, socket);
        proof {
            lemma_deep_texts(command);
            assert(bindings@.take(i + 1).drop_last() == bindings@.take(i as int));
            assert(bindings@.take(i + 1).last() == bindings@[i as int]);
        }
        res.insert(bindings.0[i].1.tmux.clone(), command);
        i += 1;
    }
    assert(bindings@.take(i as int) == bindings@);
    res
}

/// The hint that the status line shows about the bindings.
pub open spec fn binding_hint(bindings: Seq<(Action, keybindings::ShortcutView)>) -> Seq<char> {
    keybindings::label_of(bindings, Action::PreviousTab) + " / "@ + keybindings::label_of(
        bindings,
        Action::NextTab,
    ) + " cycle · "@ + keybindings::label_of(bindings, Action::SendNextKey) + " send next"@
}

/// The hint that the status line shows about the bindings.
pub fn hint_for(bindings: &KeyBindings) -> (res: String)
    ensures
        res@ == binding_hint(bindings@),
{
    let mut res = bindings.label(Action::PreviousTab).to_string();
    res.append(" / ");
    res.append(bindings.label(Action::NextTab));
    res.append(" cycle · ");
    res.append(bindings.label(Action::SendNextKey));
    res.append(" send next");
    res
}

/// Reads the saved bindings.
pub open spec fn read_saved(socket: Option<Seq<char>>) -> RequestView {
    command::run_request(socket, seq!["show-options"@, "-gqv"@, RESTORE_OPTION@])
}

/// The request that reads the saved bindings.
pub fn saved_bindings_request(socket: Option<&str>) -> (res: Request)
    ensures
        res@ == read_saved(command::socket_view(socket)),
{
    let res = command::request(socket, &["show-options", "-gqv", RESTORE_OPTION]);
    assert(res@ =~= read_saved(command::socket_view(socket)));
    res
}

/// The saved bindings that a reply holds: the command that binds each key, or
/// nothing where the key was not bound. A reply that holds none counts as
/// empty, whatever the reason.
pub open spec fn saved_in(reply: Reply) -> Map<Seq<char>, Seq<char>> {
    match reply {
        Reply::Exited(output) => match store::json_map(output.stdout@) {
            Some(map) => map,
            None => Map::empty(),
        },
        Reply::Failed(_) => Map::empty(),
    }
}

/// The saved bindings that a reply holds, or none.
pub fn saved_bindings(reply: &Reply) -> (res: TextMap<String>)
    ensures
        res.wf(),
        res.map() == saved_in(*reply),
{
    match reply {
        Reply::Exited(output) => match store::from_json(output.stdout.as_slice()) {
            Some(items) => TextMap::from_ascending(items),
            None => TextMap::new(),
        },
        Reply::Failed(_) => TextMap::new(),
    }
}

/// Unbinds a root key.
pub open spec fn unbind_root(socket: Option<Seq<char>>, key: Seq<char>) -> RequestView {
    command::run_request(socket, seq!["unbind-key"@, "-T"@, "root"@, key])
}

/// Runs the tmux commands of a text.
pub open spec fn source_text(socket: Option<Seq<char>>, input: Seq<char>) -> RequestView {
    RequestView { socket, args: seq!["source-file"@, "-"@], input: Some(input) }
}

/// Restores one root key.
pub open spec fn restore(
    socket: Option<Seq<char>>,
    key: Seq<char>,
    original: Seq<char>,
) -> Seq<RequestView> {
    if original.len() == 0 {
        seq![unbind_root(socket, key)]
    } else {
        seq![unbind_root(socket, key), source_text(socket, original)]
    }
}

/// The requests that restore one root key: it is unbound, then bound by its
/// original command, where it had one. That command is tmux source as
/// `list-keys` prints it; no shell reads it.
pub fn restore_binding(socket: Option<&str>, key: &str, original: &str) -> (res: Vec<Request>)
    ensures
        command::requests_view(res@) == restore(command::socket_view(socket), key@, original@),
{
    let ghost view = command::socket_view(socket);
    let mut res: Vec<Request> = Vec::new();
    let unbind = command::request(socket, &["unbind-key", "-T", "root", key]);
    assert(unbind@ =~= unbind_root(view, key@));
    res.push(unbind);
    if !original.is_empty() {
        let source = Request {
            socket: command::owned_socket(socket),
            args: command::owned(&["source-file", "-"]),
            input: Some(original.to_string()),
        };
        assert(source@ =~= source_text(view, original@));
        res.push(source);
    }
    assert(command::requests_view(res@) =~= restore(view, key@, original@));
    res
}

/// Restores the saved keys that are not among `kept`, in order.
pub open spec fn restores(
    socket: Option<Seq<char>>,
    saved: Seq<(Seq<char>, Seq<char>)>,
    kept: Set<Seq<char>>,
) -> Seq<RequestView>
    decreases saved.len(),
{
    if saved.len() == 0 {
        Seq::empty()
    } else {
        let before = restores(socket, saved.drop_last(), kept);
        if kept.contains(saved.last().0) {
            before
        } else {
            before + restore(socket, saved.last().0, saved.last().1)
        }
    }
}

/// The requests that restore the saved keys that `kept` has no entry for.
pub fn restore_unplanned(
    socket: Option<&str>,
    saved: &TextMap<String>,
    kept: &TextMap<Vec<String>>,
) -> (res: Vec<Request>)
    requires
        saved.wf(),
        kept.wf(),
    ensures
        command::requests_view(res@) == restores(
            command::socket_view(socket),
            text_map::in_order(saved.map()),
            kept.map().dom(),
        ),
{
    let ghost view = command::socket_view(socket);
    let ghost all = saved.entries();
    let ghost dom = kept.map().dom();
    let mut res: Vec<Request> = Vec::new();
    let mut i: usize = 0;
    assert(command::requests_view(res@) =~= restores(view, all.take(0), dom));
    while i < saved.len()
        invariant
            i <= all.len(),
            view == command::socket_view(socket),
            all == saved.entries(),
            dom == kept.map().dom(),
            kept.wf(),
            command::requests_view(res@) == restores(view, all.take(i as int), dom),
        decreases all.len() - i,
    {
        proof {
            assert(all.take(i + 1).drop_last() == all.take(i as int));
            assert(all.take(i + 1).last() == all[i as int]);
        }
        if !kept.contains_key(saved.key_at(i).as_str()) {
            let ghost before = res@;
            let mut more = restore_binding(
                socket,
                saved.key_at(i).as_str(),
                saved.value_at(i).as_str(),
            );
            let ghost added = more@;
            res.append(&mut more);
            assert(command::requests_view(res@) =~= command::requests_view(before)
                + command::requests_view(added));
        }
        i += 1;
    }
    proof {
        assert(all.take(i as int) == all);
        text_map::lemma_in_order(all);
    }
    res
}

/// Restores the root keys and forgets that anything was saved.
pub open spec fn clear_requests(
    socket: Option<Seq<char>>,
    saved: Map<Seq<char>, Seq<char>>,
) -> Seq<RequestView> {
    restores(socket, text_map::in_order(saved), Set::empty()) + seq![
        command::run_request(socket, seq!["unbind-key"@, "-a"@, "-T"@, QUOTE_TABLE@]),
        command::run_request(socket, seq!["set-option"@, "-gu"@, RESTORE_OPTION@]),
        command::run_request(socket, seq!["set-option"@, "-gu"@, HINT_OPTION@]),
    ]
}

/// The requests that restore the root keys, given the saved bindings, then
/// remove the quoting table and the options. Each is run, whatever became of
/// those before it.
pub fn clear_saved(socket: Option<&str>, saved: &TextMap<String>) -> (res: Vec<Request>)
    requires
        saved.wf(),
    ensures
        command::requests_view(res@) == clear_requests(command::socket_view(socket), saved.map()),
{
    let ghost view = command::socket_view(socket);
    let none: TextMap<Vec<String>> = TextMap::new();
    let mut res = restore_unplanned(socket, saved, &none);
    proof {
        assert(none.map().dom() =~= Set::empty());
    }
    let ghost first = command::requests_view(res@);
    let table = command::request(socket, &["unbind-key", "-a", "-T", QUOTE_TABLE]);
    let restore = command::request(socket, &["set-option", "-gu", RESTORE_OPTION]);
    let hint = command::request(socket, &["set-option", "-gu", HINT_OPTION]);
    proof {
        assert(table@ =~= command::run_request(
            view,
            seq!["unbind-key"@, "-a"@, "-T"@, QUOTE_TABLE@],
        ));
        assert(restore@ =~= command::run_request(
            view,
            seq!["set-option"@, "-gu"@, RESTORE_OPTION@],
        ));
        assert(hint@ =~= command::run_request(view, seq!["set-option"@, "-gu"@, HINT_OPTION@]));
    }
    res.push(table);
    res.push(restore);
    res.push(hint);
    assert(command::requests_view(res@) =~= clear_requests(view, saved.map()));
    res
}

/// The requests that restore the root keys, given the reply to
/// [`saved_bindings_request`], then remove the quoting table and the options.
/// Each is run, whatever became of those before it.
pub fn clear_session_cycle_bound(socket: Option<&str>, saved: &Reply) -> (res: Vec<Request>)
    ensures
        command::requests_view(res@) == clear_requests(
            command::socket_view(socket),
            saved_in(*saved),
        ),
{
    clear_saved(socket, &saved_bindings(saved))
}

/// Restores the root keys, forgets that anything was saved, and unbinds C-q and
/// prefix o.
pub open spec fn emergency_requests(
    socket: Option<Seq<char>>,
    saved: Map<Seq<char>, Seq<char>>,
) -> Seq<RequestView> {
    clear_requests(socket, saved) + seq![unbind_ctrl_q(socket), unbind_quick_jump(socket)]
}

/// The requests for a cleanup in a hurry, given the reply to
/// [`saved_bindings_request`]: the root keys are restored, then C-q and
/// prefix o are unbound. Each is run, whatever became of those before it.
pub fn emergency_unbind(socket: Option<&str>, saved: &Reply) -> (res: Vec<Request>)
    ensures
        command::requests_view(res@) == emergency_requests(
            command::socket_view(socket),
            saved_in(*saved),
        ),
{
    let mut res = clear_session_cycle_bound(socket, saved);
    res.push(clear_ctrl_q_bound(socket));
    res.push(clear_quick_jump_bound(socket));
    assert(command::requests_view(res@) =~= emergency_requests(
        command::socket_view(socket),
        saved_in(*saved),
    ));
    res
}

/// `words` from the first `-T` on.
pub open spec fn from_table_flag(words: Seq<Seq<char>>) -> Seq<Seq<char>>
    decreases words.len(),
{
    if words.len() == 0 || words[0] == "-T"@ {
        words
    } else {
        from_table_flag(words.skip(1))
    }
}

/// The key that a line of `list-keys` is about: the second word after `-T`.
pub open spec fn listed_key(line: Seq<char>) -> Option<Seq<char>> {
    let words = from_table_flag(text::words(line));
    if words.len() > 2 {
        Some(words[2])
    } else {
        None
    }
}

/// Whether a line of `list-keys` is about `key`.
pub fn lists_key(line: &str, key: &str) -> (res: bool)
    ensures
        res == (listed_key(line@) == Some(key@)),
{
    let words = text::split_words(line);
    let ghost all = text::texts(words@);
    let mut i: usize = 0;
    assert(all.skip(0) == all);
    while i < words.len() && !text::same_text(words[i].as_str(), "-T")
        invariant
            i <= words@.len(),
            all == text::texts(words@),
            from_table_flag(all) == from_table_flag(all.skip(i as int)),
        decreases words@.len() - i,
    {
        assert(all.skip(i as int).skip(1) == all.skip(i + 1));
        i += 1;
    }
    assert(from_table_flag(all) == all.skip(i as int));
    words.len() - i > 2 && text::same_text(words[i + 2].as_str(), key)
}

/// The first line about `key`, with a newline behind it, or nothing where no
/// line is about it.
pub open spec fn original_in(lines: Seq<Seq<char>>, key: Seq<char>) -> Seq<char>
    decreases lines.len(),
{
    if lines.len() == 0 {
        Seq::empty()
    } else if listed_key(lines[0]) == Some(key) {
        lines[0].push('\n')
    } else {
        original_in(lines.skip(1), key)
    }
}

/// The command that binds `key` by a listing's lines, or nothing.
fn find_original(lines: &Vec<String>, key: &str) -> (res: String)
    ensures
        res@ == original_in(text::texts(lines@), key@),
{
    let ghost all = text::texts(lines@);
    let mut i: usize = 0;
    assert(all.skip(0) == all);
    while i < lines.len()
        invariant
            i <= lines@.len(),
            all == text::texts(lines@),
            original_in(all, key@) == original_in(all.skip(i as int), key@),
        decreases lines@.len() - i,
    {
        if lists_key(lines[i].as_str(), key) {
            let mut line = lines[i].clone();
            line.push('\n');
            return line;
        }
        assert(all.skip(i as int).skip(1) == all.skip(i + 1));
        i += 1;
    }
    String::new()
}

/// What has to be remembered of a planned key: what was saved of it before, or
/// what the listing says.
pub open spec fn remembered_value(
    saved: Map<Seq<char>, Seq<char>>,
    listing: Seq<char>,
    key: Seq<char>,
) -> Seq<char> {
    if saved.contains_key(key) {
        saved[key]
    } else {
        original_in(text::lines(listing), key)
    }
}

/// What has to be remembered of the planned keys.
pub open spec fn remembered(
    plan: Map<Seq<char>, Seq<Seq<char>>>,
    saved: Map<Seq<char>, Seq<char>>,
    listing: Seq<char>,
) -> Map<Seq<char>, Seq<char>> {
    Map::new(
        |key: Seq<char>| plan.contains_key(key),
        |key: Seq<char>| remembered_value(saved, listing, key),
    )
}

/// What has to be remembered of the planned keys. A key that was saved before
/// keeps what was saved, since the listing may show a binding of this program.
pub fn remember(
    plan: &TextMap<Vec<String>>,
    saved: &TextMap<String>,
    listing: &str,
) -> (res: TextMap<String>)
    requires
        plan.wf(),
        saved.wf(),
    ensures
        res.wf(),
        res.map() == remembered(plan.map(), saved.map(), listing@),
{
    let lines = text::split_lines(listing);
    let ghost value = |key: Seq<char>| remembered_value(saved.map(), listing@, key);
    let ghost keys = plan.entries();
    let mut items: Vec<(String, String)> = Vec::new();
    let mut i: usize = 0;
    while i < plan.len()
        invariant
            i <= keys.len(),
            keys == plan.entries(),
            saved.wf(),
            text::texts(lines@) == text::lines(listing@),
            value == (|key: Seq<char>| remembered_value(saved.map(), listing@, key)),
            items@.len() == i,
            forall|j: int|
                0 <= j < i ==> (#[trigger] text_map::entries_view(items@)[j]) == (
                    keys[j].0,
                    value(keys[j].0),
                ),
        decreases keys.len() - i,
    {
        let key = plan.key_at(i);
        let original = match saved.get(key.as_str()) {
            Some(text) => text.clone(),
            None => find_original(&lines, key.as_str()),
        };
        assert(original@ == value(keys[i as int].0));
        let ghost before = items@;
        items.push((key.clone(), original));
        i += 1;
        assert forall|j: int| 0 <= j < i implies (#[trigger] text_map::entries_view(items@)[j])
            == (keys[j].0, value(keys[j].0)) by {
            if j < i - 1 {
                assert(text_map::entries_view(before)[j] == text_map::entries_view(items@)[j]);
            }
        }
    }
    proof {
        text_map::lemma_same_keys(keys, text_map::entries_view(items@), value);
        assert(text_map::map_of(text_map::entries_view(items@)) =~= remembered(
            plan.map(),
            saved.map(),
            listing@,
        ));
    }
    TextMap::from_ascending(items)
}

/// How far an installation is, with the bindings that are saved.
enum Stage {
    ReadSaved,
    ListRoot(TextMap<String>),
    Persist(TextMap<String>),
    Bind,
    Done,
}

/// How far an installation is, with the bindings that are saved.
pub enum StageView {
    /// The bindings saved before have to be read.
    ReadSaved,
    /// Given those, keys that are no longer wanted have to be restored, and
    /// the root keys have to be listed.
    ListRoot(Map<Seq<char>, Seq<char>>),
    /// These bindings have to be saved.
    Persist(Map<Seq<char>, Seq<char>>),
    /// The keys have to be bound.
    Bind,
    /// Nothing is left to be done.
    Done,
}

/// An installation of key bindings on a tmux server. [`Install::requests`]
/// tells what to run next; [`Install::advance`] takes the reply to the last of
/// these requests. It is over when no request is left.
pub struct Install {
    socket: Option<String>,
    plan: TextMap<Vec<String>>,
    hint: String,
    stage: Stage,
}

/// The model of an installation.
pub struct InstallView {
    pub socket: Option<Seq<char>>,
    pub plan: Map<Seq<char>, Seq<Seq<char>>>,
    pub hint: Seq<char>,
    pub stage: StageView,
}

impl View for Install {
    type V = InstallView;

    closed spec fn view(&self) -> InstallView {
        InstallView {
            socket: command::option_view(self.socket),
            plan: self.plan.map(),
            hint: self.hint@,
            stage: match self.stage {
                Stage::ReadSaved => StageView::ReadSaved,
                Stage::ListRoot(saved) => StageView::ListRoot(saved.map()),
                Stage::Persist(saved) => StageView::Persist(saved.map()),
                Stage::Bind => StageView::Bind,
                Stage::Done => StageView::Done,
            },
        }
    }
}

/// The start of an installation.
pub open spec fn install_start(
    socket: Option<Seq<char>>,
    bindings: Seq<(Action, keybindings::ShortcutView)>,
) -> InstallView {
    InstallView {
        socket,
        plan: planned(bindings, socket),
        hint: binding_hint(bindings),
        stage: StageView::ReadSaved,
    }
}

/// Saves bindings.
pub open spec fn persist(
    socket: Option<Seq<char>>,
    saved: Map<Seq<char>, Seq<char>>,
) -> RequestView {
    command::run_request(
        socket,
        seq!["set-option"@, "-g"@, RESTORE_OPTION@, store::json_text(saved)],
    )
}

/// The request that saves a text of bindings.
pub fn persist_request(socket: Option<&str>, json: &str) -> (res: Request)
    ensures
        res@ == command::run_request(
            command::socket_view(socket),
            seq!["set-option"@, "-g"@, RESTORE_OPTION@, json@],
        ),
{
    let res = command::request(socket, &["set-option", "-g", RESTORE_OPTION, json]);
    assert(res@.args =~= seq!["set-option"@, "-g"@, RESTORE_OPTION@, json@]);
    res
}

/// Whether a reply prints the text of saved bindings as a line.
pub open spec fn prints_saved(reply: Reply, saved: Map<Seq<char>, Seq<char>>) -> bool {
    reply matches Reply::Exited(output) && output.stdout@ == vstd::utf8::encode_utf8(
        store::json_text(saved).push('\n'),
    )
}

/// Binds a root key.
pub open spec fn bind_root(
    socket: Option<Seq<char>>,
    key: Seq<char>,
    command: Seq<Seq<char>>,
) -> RequestView {
    command::run_request(socket, seq!["bind-key"@, "-T"@, "root"@, key] + command)
}

/// Binds the quoting table: any key is passed to the application.
pub open spec fn bind_quote_table(socket: Option<Seq<char>>) -> RequestView {
    command::run_request(socket, seq!["bind-key"@, "-T"@, QUOTE_TABLE@, "Any"@, "send-keys"@])
}

/// Binds the quoting table and the planned root keys, and shows the hint.
pub open spec fn bind_requests(
    socket: Option<Seq<char>>,
    plan: Map<Seq<char>, Seq<Seq<char>>>,
    hint: Seq<char>,
) -> Seq<RequestView> {
    seq![bind_quote_table(socket)] + text_map::in_order(plan).map_values(
        |e: (Seq<char>, Seq<Seq<char>>)| bind_root(socket, e.0, e.1),
    ) + seq![command::run_request(socket, seq!["set-option"@, "-g"@, HINT_OPTION@, hint])]
}

/// The requests that are due.
pub open spec fn due(install: InstallView) -> Seq<RequestView> {
    match install.stage {
        StageView::ReadSaved => seq![read_saved(install.socket)],
        StageView::ListRoot(saved) => restores(
            install.socket,
            text_map::in_order(saved),
            install.plan.dom(),
        ) + seq![command::run_request(install.socket, seq!["list-keys"@, "-T"@, "root"@])],
        StageView::Persist(saved) => seq![persist(install.socket, saved)],
        StageView::Bind => bind_requests(install.socket, install.plan, install.hint),
        StageView::Done => Seq::empty(),
    }
}

/// The stage after the one whose last request was answered by `reply`.
pub open spec fn next_stage(
    plan: Map<Seq<char>, Seq<Seq<char>>>,
    stage: StageView,
    reply: Reply,
) -> StageView {
    match stage {
        StageView::ReadSaved => StageView::ListRoot(saved_in(reply)),
        StageView::ListRoot(saved) => StageView::Persist(remembered(plan, saved, reply.printed())),
        StageView::Persist(_) => if reply.ok() {
            StageView::Bind
        } else {
            StageView::Done
        },
        StageView::Bind => StageView::Done,
        StageView::Done => StageView::Done,
    }
}

/// The installation after `reply`.
pub open spec fn advanced(install: InstallView, reply: Reply) -> InstallView {
    InstallView { stage: next_stage(install.plan, install.stage, reply), ..install }
}

impl Install {
    #[verifier::type_invariant]
    closed spec fn in_order(self) -> bool {
        &&& self.plan.wf()
        &&& match self.stage {
            Stage::ListRoot(saved) => saved.wf(),
            Stage::Persist(saved) => saved.wf(),
            _ => true,
        }
    }

    /// The requests to run next, in order, each whatever became of those
    /// before it. Bindings that these save are read back as they are from a
    /// reply that prints the saved text as a line.
    pub fn requests(&self) -> (res: Vec<Request>)
        ensures
            command::requests_view(res@) == due(self@),
            self@.stage matches StageView::Persist(saved) ==> forall|reply: Reply| #[trigger]
                prints_saved(reply, saved) ==> saved_in(reply) == saved,
    {
        proof {
            use_type_invariant(self);
        }
        let socket: Option<&str> = match &self.socket {
            Some(s) => Some(s.as_str()),
            None => None,
        };
        let ghost view = self@.socket;
        assert(view == command::socket_view(socket));
        match &self.stage {
            Stage::ReadSaved => {
                let res = vec![saved_bindings_request(socket)];
                assert(command::requests_view(res@) =~= due(self@));
                res
            },
            Stage::ListRoot(saved) => {
                let mut res = restore_unplanned(socket, saved, &self.plan);
                let list = command::request(socket, &["list-keys", "-T", "root"]);
                assert(list@ =~= command::run_request(view, seq!["list-keys"@, "-T"@, "root"@]));
                let ghost before = res@;
                res.push(list);
                assert(command::requests_view(res@) =~= command::requests_view(before).push(list@));
                assert(command::requests_view(res@) =~= due(self@));
                res
            },
            Stage::Persist(saved) => {
                let json = store::to_json(saved.items());
                let request = persist_request(socket, json.as_str());
                let res = vec![request];
                assert(command::requests_view(res@) =~= due(self@));
                res
            },
            Stage::Bind => binds(socket, &self.plan, self.hint.as_str()),
            Stage::Done => {
                let res: Vec<Request> = Vec::new();
                assert(command::requests_view(res@) =~= due(self@));
                res
            },
        }
    }

    /// Goes on, given the reply to the last of the requests that were due.
    /// Where the bindings could not be saved, no key is bound.
    pub fn advance(&mut self, reply: &Reply)
        ensures
            final(self)@ == advanced(old(self)@, *reply),
            old(self)@.stage is ListRoot ==> reply.printed_plainly(),
    {
        proof {
            use_type_invariant(&*self);
        }
        let next = match &self.stage {
            Stage::ReadSaved => Stage::ListRoot(saved_bindings(reply)),
            Stage::ListRoot(saved) => {
                let listing = reply.text();
                Stage::Persist(remember(&self.plan, saved, listing.as_str()))
            },
            Stage::Persist(_) => if reply.succeeded() {
                Stage::Bind
            } else {
                Stage::Done
            },
            Stage::Bind => Stage::Done,
            Stage::Done => Stage::Done,
        };
        self.stage = next;
    }
}

/// The requests that bind the planned keys.
fn binds(socket: Option<&str>, plan: &TextMap<Vec<String>>, hint: &str) -> (res: Vec<Request>)
    requires
        plan.wf(),
    ensures
        command::requests_view(res@) == bind_requests(
            command::socket_view(socket),
            plan.map(),
            hint@,
        ),
{
    let ghost view = command::socket_view(socket);
    let ghost all = plan.entries();
    let ghost bind = |e: (Seq<char>, Seq<Seq<char>>)| bind_root(view, e.0, e.1);
    let table = command::request(socket, &["bind-key", "-T", QUOTE_TABLE, "Any", "send-keys"]);
    assert(table@ =~= bind_quote_table(view));
    let mut res: Vec<Request> = Vec::new();
    res.push(table);
    let mut i: usize = 0;
    assert(command::requests_view(res@) =~= seq![bind_quote_table(view)] + all.take(0).map_values(
        bind,
    ));
    while i < plan.len()
        invariant
            i <= all.len(),
            view == command::socket_view(socket),
            all == plan.entries(),
            bind == (|e: (Seq<char>, Seq<Seq<char>>)| bind_root(view, e.0, e.1)),
            command::requests_view(res@) == seq![bind_quote_table(view)] + all.take(
                i as int,
            ).map_values(bind),
        decreases all.len() - i,
    {
        let mut args = command::owned(&["bind-key", "-T", "root", plan.key_at(i).as_str()]);
        let ghost head = text::texts(args@);
        let command = plan.value_at(i);
        let mut tail = copied(command);
        let ghost rest = tail@;
        args.append(&mut tail);
        proof {
            lemma_deep_texts(*command);
            assert(head =~= seq!["bind-key"@, "-T"@, "root"@, all[i as int].0]);
            assert(text::texts(args@) =~= head + text::texts(rest));
        }
        let request = Request { socket: command::owned_socket(socket), args, input: None };
        assert(request@ =~= bind(all[i as int]));
        let ghost before = res@;
        res.push(request);
        i += 1;
        assert(command::requests_view(res@) =~= command::requests_view(before).push(request@));
        assert(all.take(i as int).map_values(bind) =~= all.take(i - 1).map_values(bind).push(
            bind(all[i - 1]),
        ));
    }
    let last = command::request(socket, &["set-option", "-g", HINT_OPTION, hint]);
    assert(last@ =~= command::run_request(view, seq!["set-option"@, "-g"@, HINT_OPTION@, hint@]));
    let ghost before = res@;
    res.push(last);
    proof {
        assert(command::requests_view(res@) =~= command::requests_view(before).push(last@));
        assert(all.take(i as int) == all);
        text_map::lemma_in_order(all);
        assert(command::requests_view(res@) =~= bind_requests(view, plan.map(), hint@));
    }
    res
}

/// A copy of strings.
fn copied(strings: &Vec<String>) -> (res: Vec<String>)
    ensures
        text::texts(res@) == text::texts(strings@),
{
    let mut res: Vec<String> = Vec::new();
    let ghost all = text::texts(strings@);
    let mut i: usize = 0;
    while i < strings.len()
        invariant
            i <= strings@.len(),
            all == text::texts(strings@),
            text::texts(res@) == all.take(i as int),
        decreases strings@.len() - i,
    {
        res.push(strings[i].clone());
        i += 1;
        proof {
            broadcast use text::lemma_texts_push;

            assert(all.take(i as int) =~= all.take(i - 1).push(strings@[i - 1]@));
        }
    }
    assert(all.take(i as int) == all);
    res
}

/// Starts to install the shortcuts and the quoting table. The root bindings
/// that are overwritten are saved on the server first.
pub fn ensure_keybindings_bound(socket: Option<&str>, keys: &KeyBindings) -> (res: Install)
    ensures
        res@ == install_start(command::socket_view(socket), keys@),
{
    Install {
        socket: command::owned_socket(socket),
        plan: plan(keys, socket),
        hint: hint_for(keys),
        stage: Stage::ReadSaved,
    }
}

/// Starts to install the default shortcuts.
pub fn ensure_session_cycle_bound(socket: Option<&str>) -> (res: Install)
    ensures
        res@ == install_start(
            command::socket_view(socket),
            keybindings::laws::default_bindings(),
        ),
{
    let keys = KeyBindings::default();
    ensure_keybindings_bound(socket, &keys)
}

} // verus!
