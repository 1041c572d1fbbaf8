//! What a request makes a tmux server do, as tmux's manual has it.

use crate::tmux::command;
use vstd::prelude::*;

verus! {

/// What a request does.
pub enum Effect {
    /// Binds a key of a table to a command.
    Bind(Seq<char>, Seq<char>, Seq<Seq<char>>),
    /// Unbinds a key of a table.
    Unbind(Seq<char>, Seq<char>),
    /// Unbinds all keys of a table.
    UnbindAll(Seq<char>),
    /// Sets an option of the server.
    SetGlobal(Seq<char>, Seq<char>),
    /// Unsets an option of the server.
    UnsetGlobal(Seq<char>),
    /// Sets an option of one session.
    SetFor(Seq<char>, Seq<char>, Seq<char>),
    /// Prints the value of an option of the server.
    Ask(Seq<char>),
    /// Prints the keys of a table.
    List(Seq<char>),
    /// Runs the commands of a text.
    Source(Seq<char>),
    /// Attaches the terminal to a session.
    Attach(Seq<char>),
    /// None of these.
    Other,
}

/// What a request does on its server.
pub open spec fn effect_of(request: command::RequestView) -> Effect {
    let args = request.args;
    match request.input {
        Some(text) => if args == seq!["source-file"@, "-"@] {
            Effect::Source(text)
        } else {
            Effect::Other
        },
        None => if args.len() >= 5 && args[0] == "bind-key"@ && args[1] == "-T"@ {
            Effect::Bind(args[2], args[3], args.skip(4))
        } else if args.len() == 4 && args[0] == "unbind-key"@ && args[1] == "-T"@ {
            Effect::Unbind(args[2], args[3])
        } else if args.len() == 4 && args[0] == "unbind-key"@ && args[1] == "-a"@ && args[2]
            == "-T"@ {
            Effect::UnbindAll(args[3])
        } else if args.len() == 4 && args[0] == "set-option"@ && args[1] == "-g"@ {
            Effect::SetGlobal(args[2], args[3])
        } else if args.len() == 3 && args[0] == "set-option"@ && args[1] == "-gu"@ {
            Effect::UnsetGlobal(args[2])
        } else if args.len() == 5 && args[0] == "set-option"@ && args[1] == "-t"@ {
            Effect::SetFor(args[2], args[3], args[4])
        } else if args.len() == 3 && args[0] == "show-options"@ && args[1] == "-gqv"@ {
            Effect::Ask(args[2])
        } else if args.len() == 3 && args[0] == "list-keys"@ && args[1] == "-T"@ {
            Effect::List(args[2])
        } else if args.len() == 3 && args[0] == "attach-session"@ && args[1] == "-t"@ {
            Effect::Attach(args[2])
        } else {
            Effect::Other
        },
    }
}

/// Whether a request is for the server on `socket` and has an effect there.
pub open spec fn does(
    request: command::RequestView,
    socket: Option<Seq<char>>,
    effect: Effect,
) -> bool {
    request.socket == socket && effect_of(request) == effect
}

/// The names of commands and flags differ.
pub proof fn lemma_command_names()
    ensures
        "bind-key"@ != "unbind-key"@,
        "bind-key"@ != "set-option"@,
        "bind-key"@ != "show-options"@,
        "bind-key"@ != "list-keys"@,
        "bind-key"@ != "attach-session"@,
        "unbind-key"@ != "set-option"@,
        "unbind-key"@ != "show-options"@,
        "unbind-key"@ != "list-keys"@,
        "unbind-key"@ != "attach-session"@,
        "set-option"@ != "show-options"@,
        "set-option"@ != "list-keys"@,
        "set-option"@ != "attach-session"@,
        "show-options"@ != "list-keys"@,
        "show-options"@ != "attach-session"@,
        "list-keys"@ != "attach-session"@,
        "-T"@ != "-a"@,
        "-T"@ != "-t"@,
        "-g"@ != "-gu"@,
        "-g"@ != "-t"@,
        "-gu"@ != "-t"@,
{
    reveal_strlit("bind-key");
    reveal_strlit("unbind-key");
    reveal_strlit("set-option");
    reveal_strlit("show-options");
    reveal_strlit("list-keys");
    reveal_strlit("attach-session");
    reveal_strlit("-T");
    reveal_strlit("-a");
    reveal_strlit("-g");
    reveal_strlit("-gu");
    reveal_strlit("-t");
    assert("bind-key"@.len() == 8 && "unbind-key"@.len() == 10 && "set-option"@.len() == 10
        && "show-options"@.len() == 12 && "list-keys"@.len() == 9 && "attach-session"@.len() == 14);
    assert("-g"@.len() == 2 && "-gu"@.len() == 3 && "-t"@.len() == 2);
    assert("unbind-key"@[0] == 'u' && "set-option"@[0] == 's');
    assert("-T"@[1] == 'T' && "-a"@[1] == 'a' && "-g"@[1] == 'g' && "-t"@[1] == 't');
}

/// tmux is started with its command; the socket, where there is one, stands
/// before it, after `-L`.
pub proof fn law_arguments(request: command::RequestView)
    ensures
        request.socket is None ==> command::argv_of(request) == request.args,
        request.socket matches Some(socket) ==> {
            let argv = command::argv_of(request);
            &&& argv.len() == request.args.len() + 2
            &&& argv[0] == "-L"@
            &&& argv[1] == socket
            &&& forall|i: int|
                0 <= i < request.args.len() ==> #[trigger] argv[i + 2] == request.args[i]
        },
{
}

/// A reply is a success if tmux ran and said so, and only then does what it
/// printed count.
pub proof fn law_replies(reply: command::Reply)
    ensures
        reply matches command::Reply::Failed(_) ==> !reply.ok() && reply.printed().len() == 0,
        reply matches command::Reply::Exited(output) ==> {
            &&& reply.ok() == output.success
            &&& output.success ==> reply.printed() == crate::text::lossy_text(output.stdout@)
            &&& !output.success ==> reply.printed().len() == 0
        },
{
}

/// The models of requests and sockets leave nothing out: a request is told by its
/// socket, each of its arguments and its input, and requests by each of them.
pub proof fn law_models_are_whole(
    request: command::Request,
    requests: Seq<command::Request>,
    socket: Option<&str>,
    i: int,
)
    ensures
        request@.socket is Some == request.socket is Some,
        request.socket is Some ==> request@.socket->0 == request.socket->0@,
        request@.input is Some == request.input is Some,
        request.input is Some ==> request@.input->0 == request.input->0@,
        request@.args.len() == request.args@.len(),
        0 <= i < request.args@.len() ==> request@.args[i] == request.args@[i]@,
        command::requests_view(requests).len() == requests.len(),
        0 <= i < requests.len() ==> command::requests_view(requests)[i] == requests[i]@,
        command::socket_view(socket) is Some == socket is Some,
        socket is Some ==> command::socket_view(socket)->0 == socket->0@,
{
}

/// What tmux printed, or complained of, is taken as it stands where it is valid
/// UTF-8.
pub proof fn law_plain_replies(reply: command::Reply)
    ensures
        reply matches command::Reply::Exited(output) ==> {
            &&& reply.printed_plainly() && output.success && vstd::utf8::valid_utf8(output.stdout@)
                ==> reply.printed() == vstd::utf8::decode_utf8(output.stdout@)
            &&& reply.complained_plainly() && !output.success && vstd::utf8::valid_utf8(
                output.stderr@,
            ) ==> crate::text::lossy_text(output.stderr@) == vstd::utf8::decode_utf8(output.stderr@)
        },
{
}

} // verus!
