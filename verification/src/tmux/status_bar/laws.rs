//! What the requests of this module do, each on the server that it is for.

use crate::error;
use crate::text;
use crate::tmux::command::Reply;
use crate::tmux::effect;
use crate::tmux::effect::Effect;
use crate::tmux::quote;
use crate::tmux::status_bar;
use crate::tmux::status_bar::{BarSession, StepView};
use vstd::prelude::*;

verus! {

/// After the prefix, the digit of each of the first nine sessions is bound to
/// switching to the session by its tmux name, which has to succeed; the other
/// digits are unbound, which need not. Uninstalling unbinds each digit.
pub proof fn law_jump_keys(socket: Option<Seq<char>>, names: Seq<Seq<char>>, i: int)
    requires
        0 <= i < 9,
    ensures
        ({
            let digit = seq![(0x31 + i) as char];
            let steps = status_bar::jump_steps(socket, names);
            let removed = status_bar::unbind_jumps(socket);
            &&& steps.len() == 9
            &&& steps[i].required == (i < names.len())
            &&& i < names.len() ==> effect::does(
                steps[i].request,
                socket,
                Effect::Bind(
                    "prefix"@,
                    digit,
                    seq!["switch-client -t "@ + quote::tmux_quoted(names[i])],
                ),
            )
            &&& i >= names.len() ==> effect::does(
                steps[i].request,
                socket,
                Effect::Unbind("prefix"@, digit),
            )
            &&& removed.len() == 9
            &&& effect::does(removed[i], socket, Effect::Unbind("prefix"@, digit))
        }),
{
    let digit = seq![(0x31 + i) as char];
    let steps = status_bar::jump_steps(socket, names);
    effect::lemma_command_names();
    assert(text::decimal_text((i + 1) as nat) =~= digit);
    if i < names.len() {
        assert(steps[i].request.args.skip(4) =~= seq![
            "switch-client -t "@ + quote::tmux_quoted(names[i]),
        ]);
    }
}

/// A session is jumped to by its tmux name, never by the name that people see.
pub proof fn law_sessions_go_by_tmux_names(sessions: Seq<BarSession>, i: int)
    requires
        0 <= i < sessions.len(),
    ensures
        status_bar::internal_names(sessions).len() == sessions.len(),
        status_bar::internal_names(sessions)[i] == sessions[i].internal@,
{
}

/// Whether a step has to succeed and sets an option of one session.
pub open spec fn sets(
    step: StepView,
    socket: Option<Seq<char>>,
    session: Seq<char>,
    name: Seq<char>,
    value: Seq<char>,
) -> bool {
    step.required && effect::does(step.request, socket, Effect::SetFor(session, name, value))
}

/// The bar of a session: it is on, in its colours, with nothing at the left and
/// the hint, up to 120 characters wide, at the right. All of this is set on the
/// one session only.
pub proof fn law_bar(socket: Option<Seq<char>>, session: Seq<char>, hint: Seq<char>)
    ensures
        ({
            let steps = status_bar::bar_steps(socket, session, hint);
            &&& steps.len() == 7
            &&& sets(steps[0], socket, session, "status"@, "on"@)
            &&& sets(steps[1], socket, session, "status-style"@, "bg=default,fg=#e6e9ef"@)
            &&& sets(steps[2], socket, session, "status-left"@, ""@)
            &&& sets(steps[3], socket, session, "status-left-length"@, "0"@)
            &&& sets(steps[4], socket, session, "status-justify"@, "left"@)
            &&& sets(steps[5], socket, session, "status-right"@, hint)
            &&& sets(steps[6], socket, session, "status-right-length"@, "120"@)
        }),
{
    effect::lemma_command_names();
}

/// The hint tells how to detach, how to navigate and how to jump. Without a
/// hint about navigation the default shortcuts are told; without a prefix key,
/// or with `None`, tmux's own.
pub proof fn law_hint(prefix: Seq<char>, navigation: Seq<char>)
    ensures
        ({
            let told = if navigation.len() > 0 {
                navigation
            } else {
                "Shift+Left / Shift+Right cycle · Ctrl+v send next"@
            };
            let key = if prefix.len() > 0 && prefix != "None"@ {
                prefix
            } else {
                "C-b"@
            };
            status_bar::hint_text(prefix, navigation) == "#[fg=#7c8495]^Q detach · "@ + told
                + " · "@ + key + " 1-9 jump "@
        }),
{
}

/// An option is asked for by its name.
pub proof fn law_options(socket: Option<Seq<char>>, opt: Seq<char>)
    ensures
        effect::does(status_bar::read_option(socket, opt), socket, Effect::Ask(opt)),
{
    effect::lemma_command_names();
}

/// A target stands directly behind the name of the command, before its
/// arguments.
pub proof fn law_targets(target: Seq<Seq<char>>, args: Seq<Seq<char>>, i: int)
    requires
        args.len() > 0,
    ensures
        ({
            let all = status_bar::targeted(target, args);
            &&& all.len() == target.len() + args.len()
            &&& all[0] == args[0]
            &&& 0 <= i < target.len() ==> all[1 + i] == target[i]
            &&& 1 <= i < args.len() ==> all[target.len() + i] == args[i]
        }),
{
}

/// A command has failed if and only if tmux could not be run, or ran and said
/// so. The system's message is passed on; of a command that ran, the arguments
/// are told, as debug texts in brackets, and what tmux said.
pub proof fn law_outcomes(args: Seq<Seq<char>>, reply: Reply)
    ensures
        match reply {
            Reply::Failed(message) => status_bar::outcome_of(args, reply) == Err::<
                (),
                error::BosunErrorView,
            >(error::BosunErrorView::Io(message@)),
            Reply::Exited(output) => if output.success {
                status_bar::outcome_of(args, reply) is Ok
            } else {
                status_bar::outcome_of(args, reply) == Err::<(), error::BosunErrorView>(
                    error::BosunErrorView::Tmux(
                        "tmux ["@ + status_bar::joined(
                            args.map_values(|a: Seq<char>| text::debug_text(a)),
                        ) + "] failed: "@ + text::trimmed(text::lossy_text(output.stderr@)),
                    ),
                )
            },
        },
{
    assert(status_bar::debug_texts(args) =~= args.map_values(
        |a: Seq<char>| text::debug_text(a),
    ));
}

/// Between two texts stands a comma and a space.
pub proof fn law_lists(parts: Seq<Seq<char>>, last: Seq<char>)
    ensures
        status_bar::joined(Seq::<Seq<char>>::empty()).len() == 0,
        status_bar::joined(parts.push(last)) == if parts.len() == 0 {
            last
        } else {
            status_bar::joined(parts) + ", "@ + last
        },
        status_bar::failure_text(parts, last) == "tmux ["@ + status_bar::joined(parts)
            + "] failed: "@ + text::trimmed(last),
{
    assert(parts.push(last).drop_last() =~= parts);
}

/// A script takes its steps in turn. A required step that fails ends it with
/// that failure; whatever else becomes of a step, the next is taken and nothing
/// has failed that had not before.
pub proof fn law_steps(script: status_bar::ScriptView, reply: Reply)
    requires
        script.steps.len() > 0,
    ensures
        ({
            let after = status_bar::stepped(script, reply);
            let step = script.steps[0];
            let succeeded = reply matches Reply::Exited(output) && output.success;
            if step.required && !succeeded {
                &&& after.steps.len() == 0
                &&& after.failure == Some(
                    status_bar::outcome_of(step.request.args, reply)->Err_0,
                )
            } else {
                &&& after.steps.len() == script.steps.len() - 1
                &&& forall|i: int|
                    0 <= i < after.steps.len() ==> #[trigger] after.steps[i] == script.steps[i + 1]
                &&& after.failure == script.failure
            }
        }),
{
}

/// A script begins with all its steps, and nothing has failed.
pub proof fn law_scripts_begin(steps: Seq<StepView>)
    ensures
        status_bar::script_of(steps).steps == steps,
        status_bar::script_of(steps).failure is None,
{
}

/// The models of steps and of results leave nothing out.
pub proof fn law_models_are_whole(
    step: status_bar::Step,
    steps: Seq<status_bar::Step>,
    result: Result<(), error::BosunError>,
    i: int,
)
    ensures
        step@.request == step.request@,
        step@.required == step.required,
        status_bar::steps_view(steps).len() == steps.len(),
        0 <= i < steps.len() ==> status_bar::steps_view(steps)[i] == steps[i]@,
        result is Ok == error::result_view(result) is Ok,
        result matches Err(error::BosunError::Io(text)) ==> error::result_view(result) == Err::<
            (),
            error::BosunErrorView,
        >(error::BosunErrorView::Io(text@)),
        result matches Err(error::BosunError::Tmux(text)) ==> error::result_view(result) == Err::<
            (),
            error::BosunErrorView,
        >(error::BosunErrorView::Tmux(text@)),
{
}

} // verus!
