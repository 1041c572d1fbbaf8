//! A status bar for each managed tmux session, and prefix 1 to 9 to jump
//! between sessions.
//!
//! The bar's options are set on single sessions, so that sessions of other
//! tools keep theirs. The jump keys are bound on the server.

pub mod laws;

use crate::error;
use crate::error::BosunError;
use crate::text;
use crate::tmux::attach;
use crate::tmux::command;
use crate::tmux::command::{Reply, Request, RequestView};
use crate::tmux::quote;
use vstd::prelude::*;

verus! {

/// A session that can be jumped to.
#[derive(Debug, Clone)]
pub struct BarSession {
    /// Its tmux name.
    pub internal: String,
    /// The name that people see.
    pub display: String,
    /// Whether a client is attached to it.
    pub attached: bool,
}

/// The left part of the bar. It is empty: the session's name is shown
/// elsewhere.
pub const STATUS_LEFT: &'static str = "";

/// The width of the left part.
pub const STATUS_LEFT_LEN: &'static str = "0";

/// The greatest width of the right part.
pub const STATUS_RIGHT_LEN: &'static str = "120";

/// The bar's colours.
pub const STATUS_STYLE: &'static str = "bg=default,fg=#e6e9ef";

/// `parts` with commas between them.
pub open spec fn joined(parts: Seq<Seq<char>>) -> Seq<char>
    decreases parts.len(),
{
    if parts.len() == 0 {
        Seq::empty()
    } else if parts.len() == 1 {
        parts[0]
    } else {
        joined(parts.drop_last()) + ", "@ + parts.last()
    }
}

/// Puts commas between `parts`.
pub fn join(parts: &Vec<String>) -> (res: String)
    ensures
        res@ == joined(text::texts(parts@)),
{
    let ghost all = text::texts(parts@);
    let mut res = String::new();
    let mut i: usize = 0;
    assert(res@ =~= joined(all.take(0)));
    while i < parts.len()
        invariant
            i <= parts@.len(),
            all == text::texts(parts@),
            res@ == joined(all.take(i as int)),
        decreases parts@.len() - i,
    {
        proof {
            assert(all.take(i + 1).drop_last() == all.take(i as int));
            assert(all.take(i + 1).last() == all[i as int]);
        }
        if i > 0 {
            res.append(", ");
        }
        let ghost before = res@;
        res.append(parts[i].as_str());
        i += 1;
        proof {
            if i == 1 {
                assert(before =~= Seq::<char>::empty());
                assert(res@ =~= all[0]);
            }
        }
    }
    assert(all.take(i as int) == all);
    res
}

/// The message for a tmux command that failed, given its arguments, quoted, and
/// what it said.
pub open spec fn failure_text(quoted: Seq<Seq<char>>, stderr: Seq<char>) -> Seq<char> {
    "tmux ["@ + joined(quoted) + "] failed: "@ + text::trimmed(stderr)
}

/// The message for a tmux command that failed, given its arguments, quoted, and
/// what it said.
pub fn failure_message(quoted: &Vec<String>, stderr: &str) -> (res: String)
    ensures
        res@ == failure_text(text::texts(quoted@), stderr@),
{
    let mut res = "tmux [".to_string();
    res.append(join(quoted).as_str());
    res.append("] failed: ");
    res.append(text::trim(stderr).as_str());
    res
}

/// Arguments by their debug texts.
pub open spec fn debug_texts(args: Seq<Seq<char>>) -> Seq<Seq<char>> {
    args.map_values(|a: Seq<char>| text::debug_text(a))
}

/// What a tmux command comes to.
pub open spec fn outcome_of(args: Seq<Seq<char>>, reply: Reply) -> Result<
    (),
    error::BosunErrorView,
> {
    match reply {
        Reply::Failed(message) => Err(error::BosunErrorView::Io(message@)),
        Reply::Exited(output) => if output.success {
            Ok(())
        } else {
            Err(
                error::BosunErrorView::Tmux(
                    failure_text(debug_texts(args), text::lossy_text(output.stderr@)),
                ),
            )
        },
    }
}

/// Quotes arguments as their debug texts do.
fn quote_args(args: &Vec<String>) -> (res: Vec<String>)
    ensures
        text::texts(res@) == debug_texts(text::texts(args@)),
{
    let ghost all = debug_texts(text::texts(args@));
    let mut res: Vec<String> = Vec::new();
    let mut i: usize = 0;
    while i < args.len()
        invariant
            i <= args@.len(),
            all == debug_texts(text::texts(args@)),
            text::texts(res@) == all.take(i as int),
        decreases args@.len() - i,
    {
        res.push(text::debug_quoted(args[i].as_str()));
        i += 1;
        proof {
            broadcast use text::lemma_texts_push;

            assert(all.take(i as int) =~= all.take(i - 1).push(all[i - 1]));
        }
    }
    assert(all.take(i as int) =~= all);
    res
}

/// What the request comes to that was answered by `reply`: an error where tmux
/// could not be run or did not succeed.
pub fn outcome(request: &Request, reply: &Reply) -> (res: Result<(), BosunError>)
    ensures
        error::result_view(res) == outcome_of(request@.args, *reply),
        reply.complained_plainly(),
{
    match reply {
        Reply::Failed(message) => Err(BosunError::Io(message.clone())),
        Reply::Exited(output) => if output.success {
            Ok(())
        } else {
            let stderr = text::decode_lossy(output.stderr.as_slice());
            let text = failure_message(&quote_args(&request.args), stderr.as_str());
            Err(BosunError::Tmux(text))
        },
    }
}

/// A request, and whether the rest depends on its success.
#[derive(Debug)]
pub struct Step {
    pub request: Request,
    pub required: bool,
}

/// The model of a step.
#[verifier::ext_equal]
pub struct StepView {
    pub request: RequestView,
    pub required: bool,
}

impl View for Step {
    type V = StepView;

    open spec fn view(&self) -> StepView {
        StepView { request: self.request@, required: self.required }
    }
}

/// Steps by their models.
pub open spec fn steps_view(steps: Seq<Step>) -> Seq<StepView> {
    steps.map_values(|s: Step| s@)
}

/// Steps to take one after the other. [`Script::request`] is the one to take
/// next; [`Script::advance`] takes its reply. It is over when none is left.
#[derive(Debug)]
pub struct Script {
    steps: Vec<Step>,
    at: usize,
    failure: Option<BosunError>,
}

/// The model of a script: the steps that are left, and what went wrong.
pub struct ScriptView {
    pub steps: Seq<StepView>,
    pub failure: Option<error::BosunErrorView>,
}

impl View for Script {
    type V = ScriptView;

    closed spec fn view(&self) -> ScriptView {
        ScriptView {
            steps: steps_view(self.steps@).skip(self.at as int),
            failure: match self.failure {
                Some(e) => Some(e@),
                None => None,
            },
        }
    }
}

/// A script before its first step.
pub open spec fn script_of(steps: Seq<StepView>) -> ScriptView {
    ScriptView { steps, failure: None }
}

/// A script after the step that was answered by `reply`. A required step that
/// fails ends it.
pub open spec fn stepped(script: ScriptView, reply: Reply) -> ScriptView {
    if script.steps.len() == 0 {
        script
    } else {
        match outcome_of(script.steps[0].request.args, reply) {
            Err(e) if script.steps[0].required => ScriptView {
                steps: Seq::empty(),
                failure: Some(e),
            },
            _ => ScriptView { steps: script.steps.skip(1), ..script },
        }
    }
}

impl Script {
    #[verifier::type_invariant]
    closed spec fn within(self) -> bool {
        self.at <= self.steps@.len()
    }

    fn new(steps: Vec<Step>) -> (res: Self)
        ensures
            res@ == script_of(steps_view(steps@)),
    {
        assert(steps_view(steps@).skip(0) == steps_view(steps@));
        Script { steps, at: 0, failure: None }
    }

    /// The request to run next.
    pub fn request(&self) -> (res: Option<&Request>)
        ensures
            match res {
                Some(request) => self@.steps.len() > 0 && self@.steps[0].request == request@,
                None => self@.steps.len() == 0,
            },
    {
        proof {
            use_type_invariant(self);
        }
        if self.at < self.steps.len() {
            Some(&self.steps[self.at].request)
        } else {
            None
        }
    }

    /// Goes on, given the reply to the request that was due.
    pub fn advance(&mut self, reply: &Reply)
        ensures
            final(self)@ == stepped(old(self)@, *reply),
            old(self)@.steps.len() > 0 ==> reply.complained_plainly(),
    {
        proof {
            use_type_invariant(&*self);
        }
        if self.at < self.steps.len() {
            let ghost all = steps_view(self.steps@);
            let ghost at = self.at as int;
            let required = self.steps[self.at].required;
            match outcome(&self.steps[self.at].request, reply) {
                Err(e) if required => {
                    self.failure = Some(e);
                    self.at = self.steps.len();
                    assert(all.skip(all.len() as int) =~= Seq::<StepView>::empty());
                },
                _ => {
                    self.at = self.at + 1;
                    assert(all.skip(at).skip(1) =~= all.skip(at + 1));
                },
            }
        }
    }

    /// What the steps so far came to: the error of the required step that
    /// failed.
    pub fn result(self) -> (res: Result<(), BosunError>)
        ensures
            error::result_view(res) == (match self@.failure {
                Some(e) => Err(e),
                None => Ok::<(), error::BosunErrorView>(()),
            }),
    {
        match self.failure {
            Some(e) => Err(e),
            None => Ok(()),
        }
    }
}

/// The key of a digit.
pub fn digit_key(n: usize) -> (res: String)
    ensures
        res@ == text::decimal_text(n as nat),
{
    text::decimal(n)
}

/// Unbinds a key in the prefix table.
pub open spec fn unbind_prefix(socket: Option<Seq<char>>, key: Seq<char>) -> RequestView {
    command::run_request(socket, seq!["unbind-key"@, "-T"@, "prefix"@, key])
}

/// The tmux command that switches to a session.
pub open spec fn jump_command(internal: Seq<char>) -> Seq<char> {
    "switch-client -t "@ + quote::tmux_quoted(internal)
}

/// The names of sessions.
pub open spec fn internal_names(sessions: Seq<BarSession>) -> Seq<Seq<char>> {
    sessions.map_values(|s: BarSession| s.internal@)
}

/// The step for the jump key of the session at `i`, or of none.
pub open spec fn jump_step(socket: Option<Seq<char>>, names: Seq<Seq<char>>, i: int) -> StepView {
    let key = text::decimal_text((i + 1) as nat);
    if i < names.len() {
        StepView {
            request: command::run_request(
                socket,
                seq!["bind-key"@, "-T"@, "prefix"@, key, jump_command(names[i])],
            ),
            required: true,
        }
    } else {
        StepView { request: unbind_prefix(socket, key), required: false }
    }
}

/// The steps for the nine jump keys.
pub open spec fn jump_steps(socket: Option<Seq<char>>, names: Seq<Seq<char>>) -> Seq<StepView> {
    Seq::new(9, |i: int| jump_step(socket, names, i))
}

fn unbind_request(socket: Option<&str>, n: usize) -> (res: Request)
    ensures
        res@ == unbind_prefix(command::socket_view(socket), text::decimal_text(n as nat)),
{
    let key = digit_key(n);
    let res = command::request(socket, &["unbind-key", "-T", "prefix", key.as_str()]);
    assert(res@ =~= unbind_prefix(command::socket_view(socket), key@));
    res
}

/// Binds prefix 1 to 9 to the first nine sessions. Keys without a session are
/// unbound; whether that succeeds does not matter. A session is switched to by
/// its tmux name.
pub fn bind_jump_keys(socket: Option<&str>, sessions: &[BarSession]) -> (res: Script)
    ensures
        res@ == script_of(
            jump_steps(command::socket_view(socket), internal_names(sessions@)),
        ),
{
    let ghost view = command::socket_view(socket);
    let ghost names = internal_names(sessions@);
    let mut steps: Vec<Step> = Vec::new();
    let mut i: usize = 0;
    while i < 9
        invariant
            i <= 9,
            view == command::socket_view(socket),
            names == internal_names(sessions@),
            steps@.len() == i,
            forall|j: int|
                0 <= j < i ==> (#[trigger] steps_view(steps@)[j]) == jump_step(view, names, j),
        decreases 9 - i,
    {
        let step = if i < sessions.len() {
            let key = digit_key(i + 1);
            let mut cmd = "switch-client -t ".to_string();
            cmd.append(quote::tmux_quote(sessions[i].internal.as_str()).as_str());
            let request = command::request(
                socket,
                &["bind-key", "-T", "prefix", key.as_str(), cmd.as_str()],
            );
            assert(request@.args =~= seq![
                "bind-key"@,
                "-T"@,
                "prefix"@,
                key@,
                jump_command(names[i as int]),
            ]);
            Step { request, required: true }
        } else {
            Step { request: unbind_request(socket, i + 1), required: false }
        };
        assert(step@ == jump_step(view, names, i as int));
        let ghost before = steps@;
        steps.push(step);
        i += 1;
        assert forall|j: int| 0 <= j < i implies (#[trigger] steps_view(steps@)[j]) == jump_step(
            view,
            names,
            j,
        ) by {
            if j < i - 1 {
                assert(steps_view(before)[j] == steps_view(steps@)[j]);
            }
        }
    }
    assert(steps_view(steps@) =~= jump_steps(view, names));
    Script::new(steps)
}

/// Unbinds the nine jump keys.
pub open spec fn unbind_jumps(socket: Option<Seq<char>>) -> Seq<RequestView> {
    Seq::new(9, |i: int| unbind_prefix(socket, text::decimal_text((i + 1) as nat)))
}

/// The requests that unbind the nine jump keys. Each is run, whatever became of
/// those before it.
pub fn unbind_jump_keys(socket: Option<&str>) -> (res: Vec<Request>)
    ensures
        command::requests_view(res@) == unbind_jumps(command::socket_view(socket)),
{
    let ghost view = command::socket_view(socket);
    let mut res: Vec<Request> = Vec::new();
    let mut i: usize = 0;
    while i < 9
        invariant
            i <= 9,
            view == command::socket_view(socket),
            command::requests_view(res@) == unbind_jumps(view).take(i as int),
        decreases 9 - i,
    {
        let ghost before = res@;
        let request = unbind_request(socket, i + 1);
        res.push(request);
        i += 1;
        assert(command::requests_view(res@) =~= command::requests_view(before).push(request@));
        assert(unbind_jumps(view).take(i as int) =~= unbind_jumps(view).take(i - 1).push(
            request@,
        ));
    }
    assert(unbind_jumps(view).take(9) =~= unbind_jumps(view));
    res
}

/// Installs what the bar has on the server: the jump keys. Installing again
/// changes nothing.
pub fn install_globals(socket: Option<&str>, sessions: &[BarSession]) -> (res: Script)
    ensures
        res@ == script_of(
            jump_steps(command::socket_view(socket), internal_names(sessions@)),
        ),
{
    bind_jump_keys(socket, sessions)
}

/// The requests that remove what the bar has on the server.
pub fn uninstall_globals(socket: Option<&str>) -> (res: Vec<Request>)
    ensures
        command::requests_view(res@) == unbind_jumps(command::socket_view(socket)),
{
    unbind_jump_keys(socket)
}

/// The requests for a cleanup in a hurry: the same. Options of single sessions
/// are left; they end with their sessions.
pub fn emergency_uninstall(socket: Option<&str>) -> (res: Vec<Request>)
    ensures
        command::requests_view(res@) == unbind_jumps(command::socket_view(socket)),
{
    unbind_jump_keys(socket)
}

/// Reads a server option.
pub open spec fn read_option(socket: Option<Seq<char>>, opt: Seq<char>) -> RequestView {
    command::run_request(socket, seq!["show-options"@, "-gqv"@, opt])
}

/// The request that reads a server option. [`option_text`] takes its reply.
pub fn show_option(socket: Option<&str>, opt: &str) -> (res: Request)
    ensures
        res@ == read_option(command::socket_view(socket), opt@),
{
    let res = command::request(socket, &["show-options", "-gqv", opt]);
    assert(res@ =~= read_option(command::socket_view(socket), opt@));
    res
}

/// The requests that read what the right part of the bar is made of: the user's
/// prefix key, and the hint of the key bindings. [`configure_session`] takes
/// their replies.
pub fn hint_requests(socket: Option<&str>) -> (res: (Request, Request))
    ensures
        res.0@ == read_option(command::socket_view(socket), "prefix"@),
        res.1@ == read_option(command::socket_view(socket), attach::HINT_OPTION@),
{
    (show_option(socket, "prefix"), show_option(socket, attach::HINT_OPTION))
}

/// The option that a reply holds, without white space round it; nothing where
/// tmux could not be run or did not succeed.
pub fn option_text(reply: &Reply) -> (res: String)
    ensures
        res@ == text::trimmed(reply.printed()),
        reply.printed_plainly(),
{
    let printed = reply.text();
    text::trim(printed.as_str())
}

/// The right part of the bar.
pub open spec fn hint_text(prefix: Seq<char>, navigation: Seq<char>) -> Seq<char> {
    "#[fg=#7c8495]^Q detach · "@ + (if navigation.len() == 0 {
        "Shift+Left / Shift+Right cycle · Ctrl+v send next"@
    } else {
        navigation
    }) + " · "@ + (if prefix.len() == 0 || prefix == "None"@ {
        "C-b"@
    } else {
        prefix
    }) + " 1-9 jump "@
}

/// The right part of the bar, given the user's prefix key and the hint about
/// navigation. tmux's own prefix stands in for none, the default shortcuts for
/// no hint.
pub fn build_hint(prefix: &str, navigation: &str) -> (res: String)
    ensures
        res@ == hint_text(prefix@, navigation@),
{
    let mut res = "#[fg=#7c8495]^Q detach · ".to_string();
    if navigation.is_empty() {
        res.append("Shift+Left / Shift+Right cycle · Ctrl+v send next");
    } else {
        res.append(navigation);
    }
    res.append(" · ");
    if prefix.is_empty() || text::same_text(prefix, "None") {
        res.append("C-b");
    } else {
        res.append(prefix);
    }
    res.append(" 1-9 jump ");
    res
}

/// A command with `target` between its name and its arguments.
pub open spec fn targeted(target: Seq<Seq<char>>, args: Seq<Seq<char>>) -> Seq<Seq<char>> {
    seq![args[0]] + target + args.skip(1)
}

/// The request that runs a command on a target. The target stands between the
/// command's name and its arguments.
pub fn run_targeted(socket: Option<&str>, target: &[&str], args: &[&str]) -> (res: Request)
    requires
        args@.len() > 0,
    ensures
        res@ == command::run_request(
            command::socket_view(socket),
            targeted(command::slices(target@), command::slices(args@)),
        ),
{
    let full = command::owned(args);
    let mut middle = command::owned(target);
    let ghost all = text::texts(full@);
    let mut res: Vec<String> = Vec::new();
    let mut i: usize = 1;
    let mut rest: Vec<String> = Vec::new();
    assert(text::texts(rest@) =~= all.subrange(1, 1));
    assert(text::texts(full@).len() == full@.len());
    assert(all.len() == args@.len());
    while i < full.len()
        invariant
            1 <= i <= full@.len(),
            all == text::texts(full@),
            text::texts(rest@) == all.subrange(1, i as int),
        decreases full@.len() - i,
    {
        rest.push(full[i].clone());
        i += 1;
        proof {
            broadcast use text::lemma_texts_push;

            assert(all.subrange(1, i as int) =~= all.subrange(1, i - 1).push(full@[i - 1]@));
        }
    }
    res.push(full[0].clone());
    let ghost first = res@;
    let ghost second = middle@;
    let ghost third = rest@;
    res.append(&mut middle);
    res.append(&mut rest);
    proof {
        assert(text::texts(first) =~= seq![all[0]]);
        assert(text::texts(third) =~= all.skip(1));
        assert(text::texts(res@) =~= text::texts(first) + text::texts(second) + text::texts(third));
    }
    Request { socket: command::owned_socket(socket), args: res, input: None }
}

/// The step that sets one option of a session.
pub open spec fn set_step(
    socket: Option<Seq<char>>,
    session: Seq<char>,
    name: Seq<char>,
    value: Seq<char>,
) -> StepView {
    StepView {
        request: command::run_request(
            socket,
            seq!["set-option"@, "-t"@, session, name, value],
        ),
        required: true,
    }
}

fn set_option(socket: Option<&str>, session: &str, name: &str, value: &str) -> (res: Step)
    ensures
        res@ == set_step(command::socket_view(socket), session@, name@, value@),
{
    let request = run_targeted(socket, &["-t", session], &["set-option", name, value]);
    assert(request@.args =~= seq!["set-option"@, "-t"@, session@, name@, value@]);
    Step { request, required: true }
}

/// The steps that set the options of a session's bar.
pub open spec fn bar_steps(
    socket: Option<Seq<char>>,
    session: Seq<char>,
    hint: Seq<char>,
) -> Seq<StepView> {
    seq![
        set_step(socket, session, "status"@, "on"@),
        set_step(socket, session, "status-style"@, STATUS_STYLE@),
        set_step(socket, session, "status-left"@, STATUS_LEFT@),
        set_step(socket, session, "status-left-length"@, STATUS_LEFT_LEN@),
        set_step(socket, session, "status-justify"@, "left"@),
        set_step(socket, session, "status-right"@, hint),
        set_step(socket, session, "status-right-length"@, STATUS_RIGHT_LEN@),
    ]
}

/// Sets the options of one session's bar, given the replies about the prefix
/// key and about the hint of the key bindings (see [`hint_requests`]). Other
/// sessions are left alone. The bar is the same whatever the sessions are.
pub fn configure_session(
    socket: Option<&str>,
    session: &str,
    _sessions: &[BarSession],
    prefix: &Reply,
    navigation: &Reply,
) -> (res: Script)
    ensures
        res@ == script_of(
            bar_steps(
                command::socket_view(socket),
                session@,
                hint_text(text::trimmed(prefix.printed()), text::trimmed(navigation.printed())),
            ),
        ),
        prefix.printed_plainly(),
        navigation.printed_plainly(),
{
    let prefix = option_text(prefix);
    let navigation = option_text(navigation);
    let hint = build_hint(prefix.as_str(), navigation.as_str());
    let steps = vec![
        set_option(socket, session, "status", "on"),
        set_option(socket, session, "status-style", STATUS_STYLE),
        set_option(socket, session, "status-left", STATUS_LEFT),
        set_option(socket, session, "status-left-length", STATUS_LEFT_LEN),
        set_option(socket, session, "status-justify", "left"),
        set_option(socket, session, "status-right", hint.as_str()),
        set_option(socket, session, "status-right-length", STATUS_RIGHT_LEN),
    ];
    assert(steps_view(steps@) =~= bar_steps(command::socket_view(socket), session@, hint@));
    Script::new(steps)
}

/// Installing and uninstalling are about the same nine keys of the prefix
/// table: the digits from 1 to 9.
pub proof fn law_jump_keys_are_the_digits(
    socket: Option<Seq<char>>,
    names: Seq<Seq<char>>,
    i: int,
)
    requires
        0 <= i < 9,
    ensures
        jump_steps(socket, names).len() == 9,
        unbind_jumps(socket).len() == 9,
        ({
            let install = jump_steps(socket, names)[i].request.args;
            let uninstall = unbind_jumps(socket)[i].args;
            let key = seq![text::digit((i + 1) as nat)];
            &&& install[1] == "-T"@ && install[2] == "prefix"@ && install[3] == key
            &&& uninstall == seq!["unbind-key"@, "-T"@, "prefix"@, key]
        }),
{
    let key = seq![text::digit((i + 1) as nat)];
    assert(text::decimal_text((i + 1) as nat) =~= key);
    assert(unbind_jumps(socket)[i].args =~= seq!["unbind-key"@, "-T"@, "prefix"@, key]);
}

/// A jump key names the session that it is for: the target stands in double
/// quotes, and with its escapes undone it is the session's name.
pub proof fn law_jump_keys_name_their_sessions(
    socket: Option<Seq<char>>,
    names: Seq<Seq<char>>,
    i: int,
)
    requires
        0 <= i < 9,
        i < names.len(),
    ensures
        jump_steps(socket, names)[i].request.args[4] == "switch-client -t "@ + quote::tmux_quoted(
            names[i],
        ),
        quote::tmux_quoted(names[i])[0] == '"',
        quote::double_quotes_read(quote::tmux_quoted(names[i]).skip(1)) == Some(names[i]),
{
    quote::law_tmux_quote_reads_back(names[i]);
}

/// Setting up a bar touches one session only: each command sets a `status`
/// option of that session.
pub proof fn law_bar_is_of_one_session(
    socket: Option<Seq<char>>,
    session: Seq<char>,
    hint: Seq<char>,
    i: int,
)
    requires
        0 <= i < bar_steps(socket, session, hint).len(),
    ensures
        ({
            let args = bar_steps(socket, session, hint)[i].request.args;
            &&& args.len() == 5
            &&& args[0] == "set-option"@ && args[1] == "-t"@ && args[2] == session
            &&& args[3].len() >= 6 && args[3].take(6) == "status"@
        }),
{
    reveal_strlit("status");
    reveal_strlit("status-style");
    reveal_strlit("status-left");
    reveal_strlit("status-left-length");
    reveal_strlit("status-justify");
    reveal_strlit("status-right");
    reveal_strlit("status-right-length");
    assert("status"@.take(6) =~= "status"@);
    assert("status-style"@.take(6) =~= "status"@);
    assert("status-left"@.take(6) =~= "status"@);
    assert("status-left-length"@.take(6) =~= "status"@);
    assert("status-justify"@.take(6) =~= "status"@);
    assert("status-right"@.take(6) =~= "status"@);
    assert("status-right-length"@.take(6) =~= "status"@);
}

/// What steps come to, given the reply to each.
pub open spec fn run_through(script: ScriptView, replies: Seq<Reply>) -> ScriptView
    decreases replies.len(),
{
    if replies.len() == 0 {
        script
    } else {
        run_through(stepped(script, replies[0]), replies.skip(1))
    }
}

/// Whether the step at `i` is required and fails.
pub open spec fn fails_at(steps: Seq<StepView>, replies: Seq<Reply>, i: int) -> bool {
    steps[i].required && outcome_of(steps[i].request.args, replies[i]) is Err
}

/// A script ends with the error of its first required step that fails, and
/// succeeds if there is none.
pub proof fn law_first_failure_is_reported(steps: Seq<StepView>, replies: Seq<Reply>)
    requires
        replies.len() == steps.len(),
    ensures
        ({
            let end = run_through(script_of(steps), replies);
            &&& end.steps.len() == 0
            &&& end.failure is None <==> forall|i: int|
                0 <= i < steps.len() ==> !(#[trigger] fails_at(steps, replies, i))
            &&& forall|i: int| #[trigger]
                fails_at(steps, replies, i) && 0 <= i < steps.len() && (forall|j: int|
                    0 <= j < i ==> !(#[trigger] fails_at(steps, replies, j))) ==> end.failure
                    == Some(outcome_of(steps[i].request.args, replies[i])->Err_0)
        }),
    decreases steps.len(),
{
    let end = run_through(script_of(steps), replies);
    if steps.len() > 0 {
        let rest = steps.skip(1);
        let later = replies.skip(1);
        let next = stepped(script_of(steps), replies[0]);
        assert forall|i: int| 0 <= i < rest.len() implies #[trigger] fails_at(rest, later, i)
            == fails_at(steps, replies, i + 1) by {}
        if fails_at(steps, replies, 0) {
            lemma_over(next, later);
        } else {
            law_first_failure_is_reported(rest, later);
            assert(next == script_of(rest));
            if end.failure is None {
                assert forall|i: int| 0 <= i < steps.len() implies !(#[trigger] fails_at(
                    steps,
                    replies,
                    i,
                )) by {
                    if i > 0 {
                        assert(!fails_at(rest, later, i - 1));
                    }
                }
            }
            assert forall|i: int| #[trigger]
                fails_at(steps, replies, i) && 0 <= i < steps.len() && (forall|j: int|
                    0 <= j < i ==> !(#[trigger] fails_at(steps, replies, j))) implies end.failure
                == Some(outcome_of(steps[i].request.args, replies[i])->Err_0) by {
                assert(fails_at(rest, later, i - 1));
                assert forall|j: int| 0 <= j < i - 1 implies !(#[trigger] fails_at(rest, later, j))
                    by {
                    assert(!fails_at(steps, replies, j + 1));
                }
            }
        }
    }
}

proof fn lemma_over(script: ScriptView, replies: Seq<Reply>)
    requires
        script.steps.len() == 0,
    ensures
        run_through(script, replies) == script,
    decreases replies.len(),
{
    if replies.len() > 0 {
        lemma_over(script, replies.skip(1));
    }
}

} // verus!
