//! What the requests of this module do, each on the server that it is for.

use crate::error;
use crate::keybindings;
use crate::keybindings::Action;
use crate::text;
use crate::text_map;
use crate::tmux::attach;
use crate::tmux::attach::{Attached, InstallView, StageView};
use crate::tmux::command;
use crate::tmux::command::Reply;
use crate::tmux::effect;
use crate::tmux::effect::Effect;
use crate::tmux::quote;
use crate::tmux::store;
use vstd::prelude::*;

verus! {

/// C-q at the root detaches, and is unbound again.
pub proof fn law_detach_key(socket: Option<Seq<char>>)
    ensures
        effect::does(
            attach::bind_ctrl_q(socket),
            socket,
            Effect::Bind("root"@, "C-q"@, seq!["detach-client"@]),
        ),
        effect::does(attach::unbind_ctrl_q(socket), socket, Effect::Unbind("root"@, "C-q"@)),
{
    effect::lemma_command_names();
    assert(attach::bind_ctrl_q(socket).args.skip(4) =~= seq!["detach-client"@]);
}

/// Attaching is to the session that is named. It succeeds if tmux ran and said
/// so; else the session and tmux's status are told, or the system's message.
pub proof fn law_attaching(socket: Option<Seq<char>>, name: Seq<char>, ended: Attached)
    ensures
        effect::does(attach::attach_request(socket, name), socket, Effect::Attach(name)),
        match ended {
            Attached::Exited { success, status } => if success {
                attach::attach_result(name, ended) is Ok
            } else {
                attach::attach_result(name, ended) == Err::<(), error::BosunErrorView>(
                    error::BosunErrorView::Tmux(
                        "attach-session -t "@ + name + " failed: "@ + status@,
                    ),
                )
            },
            Attached::Failed(message) => attach::attach_result(name, ended) == Err::<
                (),
                error::BosunErrorView,
            >(error::BosunErrorView::Io(message@)),
        },
{
    effect::lemma_command_names();
}

/// Whether a text runs tmux on the server of `socket`: without a socket it is
/// `tmux`; else `tmux -L` and a word that the shell reads as the socket's name.
pub open spec fn runs_tmux(program: Seq<char>, socket: Option<Seq<char>>) -> bool {
    match socket {
        None => program == "tmux"@,
        Some(name) => program == "tmux -L "@ + program.skip(8) && quote::shell_read(
            program.skip(8),
            false,
        ) == Some(name),
    }
}

proof fn lemma_program(socket: Option<Seq<char>>)
    ensures
        runs_tmux(attach::tmux_program(socket), socket),
{
    if let Some(name) = socket {
        reveal_strlit("tmux -L ");
        let program = attach::tmux_program(socket);
        assert(program.skip(8) =~= quote::shell_quoted(name));
        quote::law_shell_quote_reads_back(name);
    }
}

/// Prefix o opens a popup in which to choose a session of the same server, any
/// but the monitor; and is unbound again. The result is the program that the
/// popup runs.
pub proof fn law_quick_jump(socket: Option<Seq<char>>) -> (program: Seq<char>)
    ensures
        runs_tmux(program, socket),
        effect::does(
            attach::bind_quick_jump(socket),
            socket,
            Effect::Bind(
                "prefix"@,
                "o"@,
                seq![
                    "display-popup"@,
                    "-E"@,
                    "-h"@,
                    "70%"@,
                    "-w"@,
                    "60%"@,
                    "-T"@,
                    " bosun · quick switch "@,
                    program + " choose-tree -Zs -f '##{!=:##{session_name},"@ + "__bosun_monitor"@
                        + "}'"@,
                ],
            ),
        ),
        effect::does(attach::unbind_quick_jump(socket), socket, Effect::Unbind("prefix"@, "o"@)),
{
    let program = attach::tmux_program(socket);
    lemma_program(socket);
    effect::lemma_command_names();
    assert(attach::bind_quick_jump(socket).args.skip(4) =~= seq![
        "display-popup"@,
        "-E"@,
        "-h"@,
        "70%"@,
        "-w"@,
        "60%"@,
        "-T"@,
        " bosun · quick switch "@,
        program + " choose-tree -Zs -f '##{!=:##{session_name},"@ + "__bosun_monitor"@ + "}'"@,
    ]);
    program
}

/// The shell pipeline that prints the sessions of a server, the one attached
/// last first, each after the time of that. tmux expands a binding's text once
/// more when its key is pressed, hence the doubled `#`.
pub open spec fn sessions_by_recency(program: Seq<char>) -> Seq<char> {
    program
        + " list-sessions -F '##{?session_last_attached,##{session_last_attached},0} ##{session_name}' | sort -rnk1"@
}

/// The `awk` condition that leaves out the current session, in `cur`, and the
/// monitor.
pub open spec fn other_sessions() -> Seq<char> {
    "$2 != cur && $2 != \"__bosun_monitor\""@
}

/// The shell command that switches to the session in `T`, if there is one.
pub open spec fn switch_if_any(program: Seq<char>) -> Seq<char> {
    "if [ -n \"$T\" ]; then "@ + program + " switch-client -t \"$T\"; fi"@
}

/// The shell command that switches to the first of the other sessions: of those
/// by recency, `awk` prints one and stops.
pub open spec fn switch_to_first(program: Seq<char>) -> Seq<char> {
    "T=$("@ + sessions_by_recency(program) + " | awk -v cur=\"$("@ + program
        + " display-message -p '##S')\" '"@ + other_sessions() + " {print $2; exit}'); "@
        + switch_if_any(program)
}

/// The shell command that switches to the second of the other sessions, or to
/// the first where there is no second: of those by recency, `awk` prints all,
/// and `sed` picks.
pub open spec fn switch_to_second(program: Seq<char>) -> Seq<char> {
    "cur=$("@ + program + " display-message -p '##S'); "@ + "L=$("@ + sessions_by_recency(program)
        + " | awk -v cur=\"$cur\" '"@ + other_sessions() + " {print $2}'); "@
        + "T=$(printf '%s\\n' \"$L\" | sed -n '2p'); "@
        + "[ -z \"$T\" ] && T=$(printf '%s\\n' \"$L\" | sed -n '1p'); "@ + switch_if_any(program)
}

proof fn lemma_texts_of_directions(program: Seq<char>, socket: Option<Seq<char>>)
    requires
        program == attach::tmux_program(socket),
    ensures
        attach::toggle_command(socket) == switch_to_first(program),
        attach::walk_command(socket) == switch_to_second(program),
{
    reveal_strlit("T=$(");
    reveal_strlit(" list-sessions -F '");
    reveal_strlit("##{?session_last_attached,##{session_last_attached},0} ##{session_name}");
    reveal_strlit("' | sort -rnk1 | awk -v cur=\"$(");
    reveal_strlit(" display-message -p '##S')\" '$2 != cur && $2 != \"");
    reveal_strlit("__bosun_monitor");
    reveal_strlit("\" {print $2; exit}'); if [ -n \"$T\" ]; then ");
    reveal_strlit(" switch-client -t \"$T\"; fi");
    reveal_strlit("cur=$(");
    reveal_strlit(" display-message -p '##S'); L=$(");
    reveal_strlit("' | sort -rnk1 | awk -v cur=\"$cur\" '$2 != cur && $2 != \"");
    reveal_strlit(
        "\" {print $2}'); T=$(printf '%s\\n' \"$L\" | sed -n '2p'); [ -z \"$T\" ] && T=$(printf '%s\\n' \"$L\" | sed -n '1p'); if [ -n \"$T\" ]; then ",
    );
    reveal_strlit(
        " list-sessions -F '##{?session_last_attached,##{session_last_attached},0} ##{session_name}' | sort -rnk1",
    );
    reveal_strlit("$2 != cur && $2 != \"__bosun_monitor\"");
    reveal_strlit("if [ -n \"$T\" ]; then ");
    reveal_strlit(" | awk -v cur=\"$(");
    reveal_strlit(" display-message -p '##S')\" '");
    reveal_strlit(" {print $2; exit}'); ");
    reveal_strlit(" display-message -p '##S'); ");
    reveal_strlit("L=$(");
    reveal_strlit(" | awk -v cur=\"$cur\" '");
    reveal_strlit(" {print $2}'); ");
    reveal_strlit("T=$(printf '%s\\n' \"$L\" | sed -n '2p'); ");
    reveal_strlit("[ -z \"$T\" ] && T=$(printf '%s\\n' \"$L\" | sed -n '1p'); ");
    assert(attach::toggle_command(socket) =~= switch_to_first(program));
    assert(attach::walk_command(socket) =~= switch_to_second(program));
}

/// The shortcuts to the previous tab or session switch to the first of the other
/// sessions by recency, those to the next to the second, or to the first where
/// there is no second; for every socket, and every tmux that they run is on the
/// server of that socket. So the two directions always differ. The shortcut to
/// send the next key puts the client into the quoting table and says so. The
/// result is the program that the commands run.
pub proof fn law_what_actions_do(socket: Option<Seq<char>>) -> (program: Seq<char>)
    ensures
        runs_tmux(program, socket),
        attach::action_command(Action::PreviousTab, socket) == seq![
            "run-shell"@,
            switch_to_first(program),
        ],
        attach::action_command(Action::PreviousSession, socket) == seq![
            "run-shell"@,
            switch_to_first(program),
        ],
        attach::action_command(Action::NextTab, socket) == seq![
            "run-shell"@,
            switch_to_second(program),
        ],
        attach::action_command(Action::NextSession, socket) == seq![
            "run-shell"@,
            switch_to_second(program),
        ],
        attach::action_command(Action::SendNextKey, socket) == seq![
            "switch-client"@,
            "-T"@,
            "bosun-send-next"@,
            "\\;"@,
            "display-message"@,
            "Send next key to app…"@,
        ],
        switch_to_first(program) != switch_to_second(program),
        attach::action_command(Action::NextTab, socket) != attach::action_command(
            Action::PreviousTab,
            socket,
        ),
        attach::action_command(Action::NextSession, socket) != attach::action_command(
            Action::PreviousSession,
            socket,
        ),
{
    let program = attach::tmux_program(socket);
    lemma_program(socket);
    lemma_texts_of_directions(program, socket);
    reveal_strlit("T=$(");
    reveal_strlit("cur=$(");
    assert(switch_to_first(program)[0] == 'T');
    assert(switch_to_second(program)[0] == 'c');
    assert(attach::action_command(Action::NextTab, socket)[1] == switch_to_second(program));
    assert(attach::action_command(Action::PreviousTab, socket)[1] == switch_to_first(program));
    assert(attach::action_command(Action::NextSession, socket)[1] == switch_to_second(program));
    assert(attach::action_command(Action::PreviousSession, socket)[1] == switch_to_first(program));
    program
}

/// The hint names the keys of the two tab movements and of sending the next key.
pub proof fn law_hint(bindings: Seq<(Action, keybindings::ShortcutView)>)
    ensures
        attach::binding_hint(bindings) == keybindings::label_of(bindings, Action::PreviousTab)
            + " / "@ + keybindings::label_of(bindings, Action::NextTab) + " cycle · "@
            + keybindings::label_of(bindings, Action::SendNextKey) + " send next"@,
{
}

/// Saved bindings are read from what tmux printed, whatever its exit status; a
/// text that is none, or no text at all, counts as none saved.
pub proof fn law_saved_bindings(reply: Reply, saved: Map<Seq<char>, Seq<char>>)
    ensures
        reply matches Reply::Failed(_) ==> attach::saved_in(reply) == Map::<
            Seq<char>,
            Seq<char>,
        >::empty(),
        reply matches Reply::Exited(output) ==> {
            &&& store::json_map(output.stdout@) is None ==> attach::saved_in(reply) == Map::<
                Seq<char>,
                Seq<char>,
            >::empty()
            &&& store::json_map(output.stdout@) == Some(saved) ==> attach::saved_in(reply) == saved
        },
{
}

/// A root key is restored by unbinding it; where it was bound, the line that
/// bound it is then run again.
pub proof fn law_restoring(socket: Option<Seq<char>>, key: Seq<char>, original: Seq<char>)
    ensures
        ({
            let requests = attach::restore(socket, key, original);
            &&& requests.len() == if original.len() == 0 {
                1int
            } else {
                2int
            }
            &&& effect::does(requests[0], socket, Effect::Unbind("root"@, key))
            &&& original.len() > 0 ==> effect::does(requests[1], socket, Effect::Source(original))
        }),
{
    effect::lemma_command_names();
}

proof fn lemma_restores_here(
    socket: Option<Seq<char>>,
    saved: Seq<(Seq<char>, Seq<char>)>,
    kept: Set<Seq<char>>,
)
    ensures
        ({
            let requests = attach::restores(socket, saved, kept);
            forall|i: int| 0 <= i < requests.len() ==> (#[trigger] requests[i]).socket == socket
        }),
    decreases saved.len(),
{
    if saved.len() > 0 {
        let (key, line) = saved.last();
        let before = attach::restores(socket, saved.drop_last(), kept);
        let requests = attach::restores(socket, saved, kept);
        lemma_restores_here(socket, saved.drop_last(), kept);
        assert forall|i: int| 0 <= i < requests.len() implies (#[trigger] requests[i]).socket
            == socket by {
            if i < before.len() {
                assert(requests[i] == before[i]);
            } else {
                assert(requests[i] == attach::restore(socket, key, line)[i - before.len()]);
            }
        }
    }
}

/// Saved keys are restored one after the other, each as a whole, but for those
/// that are kept.
pub proof fn law_restoring_all(
    socket: Option<Seq<char>>,
    before: Seq<(Seq<char>, Seq<char>)>,
    key: Seq<char>,
    original: Seq<char>,
    kept: Set<Seq<char>>,
)
    ensures
        attach::restores(socket, Seq::empty(), kept).len() == 0,
        attach::restores(socket, before.push((key, original)), kept) == attach::restores(
            socket,
            before,
            kept,
        ) + if kept.contains(key) {
            Seq::empty()
        } else {
            attach::restore(socket, key, original)
        },
{
    assert(before.push((key, original)).drop_last() =~= before);
    assert(attach::restores(socket, before, kept) + Seq::<command::RequestView>::empty()
        =~= attach::restores(socket, before, kept));
}

/// Every request of clearing, and of the cleanup in a hurry, is for the server
/// that it was asked for.
pub proof fn law_clearing_is_on_its_server(
    socket: Option<Seq<char>>,
    saved: Map<Seq<char>, Seq<char>>,
    i: int,
)
    ensures
        0 <= i < attach::clear_requests(socket, saved).len() ==> attach::clear_requests(
            socket,
            saved,
        )[i].socket == socket,
        0 <= i < attach::emergency_requests(socket, saved).len() ==> attach::emergency_requests(
            socket,
            saved,
        )[i].socket == socket,
{
    let entries = text_map::in_order(saved);
    let some = attach::restores(socket, entries, Set::empty());
    lemma_restores_here(socket, entries, Set::empty());
    let clear = attach::clear_requests(socket, saved);
    if 0 <= i < some.len() {
        assert(clear[i] == some[i]);
    }
    if 0 <= i < clear.len() {
        assert(attach::emergency_requests(socket, saved)[i] == clear[i]);
    }
}

/// Clearing restores all saved root keys, in order, then empties the quoting
/// table and unsets the saved bindings and the hint. The cleanup in a hurry does
/// the same, then unbinds C-q at the root and o after the prefix.
pub proof fn law_what_clearing_does(
    socket: Option<Seq<char>>,
    saved: Map<Seq<char>, Seq<char>>,
)
    ensures
        ({
            let restored = attach::restores(socket, text_map::in_order(saved), Set::empty());
            let clear = attach::clear_requests(socket, saved);
            let all = attach::emergency_requests(socket, saved);
            let n = restored.len() as int;
            &&& clear.len() == n + 3
            &&& clear.take(n) == restored
            &&& effect::does(clear[n], socket, Effect::UnbindAll("bosun-send-next"@))
            &&& effect::does(clear[n + 1], socket, Effect::UnsetGlobal("@bosun_input_restore"@))
            &&& effect::does(clear[n + 2], socket, Effect::UnsetGlobal("@bosun_input_hint"@))
            &&& all.len() == n + 5
            &&& all.take(n + 3) == clear
            &&& effect::does(all[n + 3], socket, Effect::Unbind("root"@, "C-q"@))
            &&& effect::does(all[n + 4], socket, Effect::Unbind("prefix"@, "o"@))
        }),
{
    let restored = attach::restores(socket, text_map::in_order(saved), Set::empty());
    let clear = attach::clear_requests(socket, saved);
    let all = attach::emergency_requests(socket, saved);
    let n = restored.len() as int;
    effect::lemma_command_names();
    assert(clear.take(n) =~= restored);
    assert(all.take(n + 3) =~= clear);
}

/// The key that a line of `list-keys` is about: two words after the first `-T`.
pub proof fn law_listed_keys(line: Seq<char>, i: int)
    requires
        0 <= i <= text::words(line).len(),
        forall|j: int| 0 <= j < i ==> #[trigger] text::words(line)[j] != "-T"@,
        i < text::words(line).len() ==> text::words(line)[i] == "-T"@,
    ensures
        i + 2 < text::words(line).len() ==> attach::listed_key(line) == Some(
            text::words(line)[i + 2],
        ),
        i + 2 >= text::words(line).len() ==> attach::listed_key(line) is None,
{
    lemma_from_table_flag(text::words(line), i);
}

proof fn lemma_from_table_flag(words: Seq<Seq<char>>, i: int)
    requires
        0 <= i <= words.len(),
        forall|j: int| 0 <= j < i ==> #[trigger] words[j] != "-T"@,
        i < words.len() ==> words[i] == "-T"@,
    ensures
        attach::from_table_flag(words) == words.skip(i),
    decreases i,
{
    if i > 0 {
        assert(words[0] != "-T"@);
        let rest = words.skip(1);
        assert forall|j: int| 0 <= j < i - 1 implies #[trigger] rest[j] != "-T"@ by {
            assert(words[j + 1] != "-T"@);
        }
        lemma_from_table_flag(rest, i - 1);
        assert(rest.skip(i - 1) =~= words.skip(i));
    } else {
        assert(words.skip(0) =~= words);
    }
}

/// What a listing says of a key is its first line about the key, and nothing
/// where no line is about it.
pub proof fn law_first_line_counts(lines: Seq<Seq<char>>, key: Seq<char>, i: int)
    requires
        0 <= i <= lines.len(),
        forall|j: int| 0 <= j < i ==> attach::listed_key(#[trigger] lines[j]) != Some(key),
        i < lines.len() ==> attach::listed_key(lines[i]) == Some(key),
    ensures
        i < lines.len() ==> attach::original_in(lines, key) == lines[i] + seq!['\n'],
        i == lines.len() ==> attach::original_in(lines, key).len() == 0,
    decreases i,
{
    if i > 0 {
        assert(attach::listed_key(lines[0]) != Some(key));
        let rest = lines.skip(1);
        assert forall|j: int| 0 <= j < i - 1 implies attach::listed_key(#[trigger] rest[j]) != Some(
            key,
        ) by {
            assert(attach::listed_key(lines[j + 1]) != Some(key));
        }
        law_first_line_counts(rest, key, i - 1);
    } else if lines.len() > 0 {
        assert(lines[0].push('\n') =~= lines[0] + seq!['\n']);
    }
}

/// What is remembered is exactly the planned keys: of a key that was saved
/// before, what was saved; of another, what the listing says.
pub proof fn law_what_is_remembered(
    plan: Map<Seq<char>, Seq<Seq<char>>>,
    saved: Map<Seq<char>, Seq<char>>,
    listing: Seq<char>,
    key: Seq<char>,
)
    ensures
        ({
            let all = attach::remembered(plan, saved, listing);
            &&& all.contains_key(key) <==> plan.contains_key(key)
            &&& plan.contains_key(key) && saved.contains_key(key) ==> all[key] == saved[key]
            &&& plan.contains_key(key) && !saved.contains_key(key) ==> all[key]
                == attach::original_in(text::lines(listing), key)
        }),
{
}

/// An installation goes through its stages in turn, each with the result of the
/// reply to the one before; keys are bound if and only if what they replace
/// could be saved.
pub proof fn law_stages(
    socket: Option<Seq<char>>,
    bindings: Seq<(Action, keybindings::ShortcutView)>,
    first: Reply,
    second: Reply,
    third: Reply,
    fourth: Reply,
)
    ensures
        ({
            let start = attach::install_start(socket, bindings);
            let tidying = attach::advanced(start, first);
            let saving = attach::advanced(tidying, second);
            let binding = attach::advanced(saving, third);
            let over = attach::advanced(binding, fourth);
            let plan = attach::planned(bindings, socket);
            let saved = attach::saved_in(first);
            &&& start.stage == StageView::ReadSaved
            &&& tidying.stage == StageView::ListRoot(saved)
            &&& saving.stage == StageView::Persist(
                attach::remembered(plan, saved, second.printed()),
            )
            &&& third.ok() ==> binding.stage == StageView::Bind
            &&& !third.ok() ==> attach::due(binding).len() == 0
            &&& attach::due(over).len() == 0
            &&& same_aims(start, socket, bindings)
            &&& same_aims(tidying, socket, bindings)
            &&& same_aims(saving, socket, bindings)
            &&& same_aims(binding, socket, bindings)
        }),
{
}

/// Whether an installation is of these bindings on this server.
pub open spec fn same_aims(
    install: InstallView,
    socket: Option<Seq<char>>,
    bindings: Seq<(Action, keybindings::ShortcutView)>,
) -> bool {
    install.socket == socket && install.plan == attach::planned(bindings, socket) && install.hint
        == attach::binding_hint(bindings)
}

/// Every request of an installation is for the server that it is on.
pub proof fn law_installing_is_on_its_server(install: InstallView, i: int)
    requires
        0 <= i < attach::due(install).len(),
    ensures
        attach::due(install)[i].socket == install.socket,
{
    if let StageView::ListRoot(saved) = install.stage {
        let some = attach::restores(
            install.socket,
            text_map::in_order(saved),
            install.plan.dom(),
        );
        lemma_restores_here(install.socket, text_map::in_order(saved), install.plan.dom());
        if i < some.len() {
            assert(attach::due(install)[i] == some[i]);
        }
    }
    if install.stage is Bind {
        let entries = text_map::in_order(install.plan);
        if 0 < i <= entries.len() {
            assert(attach::due(install)[i] == attach::bind_root(
                install.socket,
                entries[i - 1].0,
                entries[i - 1].1,
            ));
        }
    }
}

/// What each stage does. The saved bindings are asked for under the name under
/// which they are saved, and unset by clearing. The keys that are saved but no
/// longer planned are restored, then the root keys are listed. The bindings are
/// saved as JSON. Then any key of the quoting table is passed on, each planned
/// key is bound at the root to its command, in order, and the hint is set.
pub proof fn law_what_installing_does(install: InstallView)
    ensures
        ({
            let requests = attach::due(install);
            let socket = install.socket;
            match install.stage {
                StageView::ReadSaved => requests.len() == 1 && effect::does(
                    requests[0],
                    socket,
                    Effect::Ask("@bosun_input_restore"@),
                ),
                StageView::ListRoot(saved) => {
                    let restored = attach::restores(
                        socket,
                        text_map::in_order(saved),
                        install.plan.dom(),
                    );
                    &&& requests.len() == restored.len() + 1
                    &&& requests.drop_last() == restored
                    &&& effect::does(requests.last(), socket, Effect::List("root"@))
                },
                StageView::Persist(saved) => requests.len() == 1 && effect::does(
                    requests[0],
                    socket,
                    Effect::SetGlobal("@bosun_input_restore"@, store::json_text(saved)),
                ),
                StageView::Bind => {
                    let entries = text_map::in_order(install.plan);
                    &&& requests.len() == entries.len() + 2
                    &&& effect::does(
                        requests[0],
                        socket,
                        Effect::Bind("bosun-send-next"@, "Any"@, seq!["send-keys"@]),
                    )
                    &&& forall|i: int|
                        0 <= i < entries.len() && (#[trigger] entries[i]).1.len() > 0
                            ==> effect::does(
                            requests[i + 1],
                            socket,
                            Effect::Bind("root"@, entries[i].0, entries[i].1),
                        )
                    &&& effect::does(
                        requests.last(),
                        socket,
                        Effect::SetGlobal("@bosun_input_hint"@, install.hint),
                    )
                },
                StageView::Done => requests.len() == 0,
            }
        }),
{
    let requests = attach::due(install);
    let socket = install.socket;
    effect::lemma_command_names();
    match install.stage {
        StageView::ListRoot(saved) => {
            let restored = attach::restores(socket, text_map::in_order(saved), install.plan.dom());
            assert(requests.drop_last() =~= restored);
        },
        StageView::Bind => {
            let entries = text_map::in_order(install.plan);
            assert(attach::bind_quote_table(socket).args.skip(4) =~= seq!["send-keys"@]);
            assert(requests[0] == attach::bind_quote_table(socket));
            assert forall|i: int|
                0 <= i < entries.len() && (#[trigger] entries[i]).1.len() > 0 implies effect::does(
                requests[i + 1],
                socket,
                Effect::Bind("root"@, entries[i].0, entries[i].1),
            ) by {
                let bind = attach::bind_root(socket, entries[i].0, entries[i].1);
                assert(requests[i + 1] == bind);
                assert(bind.args.skip(4) =~= entries[i].1);
            }
        },
        _ => {},
    }
}

/// The keys that are bound are the planned ones, each to its planned command;
/// there is always a command.
pub proof fn law_bound_keys_are_the_planned(
    bindings: Seq<(Action, keybindings::ShortcutView)>,
    socket: Option<Seq<char>>,
    key: Seq<char>,
)
    ensures
        ({
            let plan = attach::planned(bindings, socket);
            let entries = text_map::in_order(plan);
            &&& text_map::has_key(entries, key) == plan.contains_key(key)
            &&& forall|i: int|
                0 <= i < entries.len() ==> (#[trigger] entries[i]).1 == plan[entries[i].0]
                    && entries[i].1.len() > 0
        }),
{
    let plan = attach::planned(bindings, socket);
    let entries = text_map::in_order(plan);
    attach::laws::lemma_plan_orderable(bindings, socket);
    text_map::lemma_entry_keys(plan, key);
    assert forall|i: int| 0 <= i < entries.len() implies (#[trigger] entries[i]).1
        == plan[entries[i].0] && entries[i].1.len() > 0 by {
        text_map::lemma_map_of(entries, i);
        attach::laws::lemma_commands(bindings, socket, entries[i].0);
    }
}

/// Each key that is planned is bound to the command of the last shortcut for it,
/// or to passing it on, if it is S-Left or S-Right and no shortcut.
pub proof fn law_planned_commands(
    bindings: Seq<(Action, keybindings::ShortcutView)>,
    socket: Option<Seq<char>>,
    i: int,
)
    ensures
        0 <= i < bindings.len() && (forall|j: int|
            i < j < bindings.len() ==> (#[trigger] bindings[j]).1.tmux != bindings[i].1.tmux)
            ==> attach::planned(bindings, socket).contains_key(bindings[i].1.tmux)
            && attach::planned(bindings, socket)[bindings[i].1.tmux] == attach::action_command(
            bindings[i].0,
            socket,
        ),
        bindings.len() == 0 ==> attach::planned(bindings, socket) == Map::<
            Seq<char>,
            Seq<Seq<char>>,
        >::empty().insert("S-Left"@, seq!["send-keys"@]).insert("S-Right"@, seq!["send-keys"@]),
    decreases bindings.len(),
{
    if bindings.len() > 0 && 0 <= i < bindings.len() - 1 && (forall|j: int|
        i < j < bindings.len() ==> (#[trigger] bindings[j]).1.tmux != bindings[i].1.tmux) {
        let init = bindings.drop_last();
        assert(forall|j: int| 0 <= j < init.len() ==> init[j] == bindings[j]);
        assert(bindings[bindings.len() - 1].1.tmux != bindings[i].1.tmux);
        law_planned_commands(init, socket, i);
    }
}

/// Saved bindings are printed by the line that is their JSON text.
pub proof fn law_saved_line(reply: Reply, saved: Map<Seq<char>, Seq<char>>)
    ensures
        attach::prints_saved(reply, saved) <==> (reply matches Reply::Exited(output)
            && output.stdout@ == vstd::utf8::encode_utf8(store::json_text(saved) + seq!['\n'])),
{
    assert(store::json_text(saved).push('\n') =~= store::json_text(saved) + seq!['\n']);
}

} // verus!
