//! Requests to a tmux server and its replies.

use crate::text;
use vstd::prelude::*;

verus! {

/// One run of tmux.
#[derive(Clone, Debug)]
pub struct Request {
    /// The server's socket; the default server where there is none.
    pub socket: Option<String>,
    /// The tmux command with its arguments.
    pub args: Vec<String>,
    /// What tmux reads on its standard input.
    pub input: Option<String>,
}

/// The model of a request.
#[verifier::ext_equal]
pub struct RequestView {
    pub socket: Option<Seq<char>>,
    pub args: Seq<Seq<char>>,
    pub input: Option<Seq<char>>,
}

/// An optional string by its characters.
pub open spec fn option_view(s: Option<String>) -> Option<Seq<char>> {
    match s {
        Some(text) => Some(text@),
        None => None,
    }
}

/// An optional string slice by its characters.
pub open spec fn socket_view(s: Option<&str>) -> Option<Seq<char>> {
    match s {
        Some(text) => Some(text@),
        None => None,
    }
}

impl View for Request {
    type V = RequestView;

    open spec fn view(&self) -> RequestView {
        RequestView {
            socket: option_view(self.socket),
            args: text::texts(self.args@),
            input: option_view(self.input),
        }
    }
}

/// Requests by their models.
pub open spec fn requests_view(requests: Seq<Request>) -> Seq<RequestView> {
    requests.map_values(|r: Request| r@)
}

/// The request that runs `args` on `socket`.
pub open spec fn run_request(socket: Option<Seq<char>>, args: Seq<Seq<char>>) -> RequestView {
    RequestView { socket, args, input: None }
}

/// String slices by their characters.
pub open spec fn slices(args: Seq<&str>) -> Seq<Seq<char>> {
    args.map_values(|a: &str| a@)
}

/// Copies string slices.
pub fn owned(args: &[&str]) -> (res: Vec<String>)
    ensures
        text::texts(res@) == slices(args@),
{
    let mut res: Vec<String> = Vec::new();
    let mut i: usize = 0;
    while i < args.len()
        invariant
            i <= args@.len(),
            text::texts(res@) == slices(args@).take(i as int),
        decreases args@.len() - i,
    {
        res.push(args[i].to_string());
        i += 1;
        proof {
            broadcast use text::lemma_texts_push;

            assert(slices(args@).take(i as int) =~= slices(args@).take(i - 1).push(
                args@[i - 1]@,
            ));
        }
    }
    assert(slices(args@).take(i as int) =~= slices(args@));
    res
}

/// Copies the name of a socket.
pub fn owned_socket(socket: Option<&str>) -> (res: Option<String>)
    ensures
        option_view(res) == socket_view(socket),
{
    match socket {
        Some(s) => Some(s.to_string()),
        None => None,
    }
}

/// The request that runs `args` on `socket`.
pub fn request(socket: Option<&str>, args: &[&str]) -> (res: Request)
    ensures
        res@ == run_request(socket_view(socket), slices(args@)),
{
    Request { socket: owned_socket(socket), args: owned(args), input: None }
}

/// The arguments that tmux is started with.
pub open spec fn argv_of(request: RequestView) -> Seq<Seq<char>> {
    match request.socket {
        Some(socket) => seq!["-L"@, socket] + request.args,
        None => request.args,
    }
}

impl Request {
    /// The arguments that tmux is started with: `-L` and the socket, where
    /// there is one, then the command.
    pub fn argv(&self) -> (res: Vec<String>)
        ensures
            text::texts(res@) == argv_of(self@),
    {
        let mut argv: Vec<String> = Vec::new();
        if let Some(socket) = &self.socket {
            argv.push("-L".to_string());
            argv.push(socket.clone());
        }
        let ghost before = text::texts(argv@);
        let ghost all = text::texts(self.args@);
        assert(before =~= (match self@.socket {
            Some(socket) => seq!["-L"@, socket],
            None => Seq::<Seq<char>>::empty(),
        }));
        let mut i: usize = 0;
        assert(text::texts(argv@) =~= before + all.take(0));
        while i < self.args.len()
            invariant
                i <= self.args@.len(),
                all == text::texts(self.args@),
                text::texts(argv@) == before + all.take(i as int),
            decreases self.args@.len() - i,
        {
            argv.push(self.args[i].clone());
            i += 1;
            proof {
                broadcast use text::lemma_texts_push;

                assert(before + all.take(i as int) =~= (before + all.take(i - 1)).push(
                    self.args@[i - 1]@,
                ));
            }
        }
        assert(before + all.take(i as int) =~= argv_of(self@));
        argv
    }
}

/// What a run of tmux left.
#[derive(Clone, Debug)]
pub struct Output {
    /// Whether its exit status is success.
    pub success: bool,
    pub stdout: Vec<u8>,
    pub stderr: Vec<u8>,
}

/// What became of a request.
#[derive(Clone, Debug)]
pub enum Reply {
    /// tmux ran to its end.
    Exited(Output),
    /// tmux could not be run; this is the system's message.
    Failed(String),
}

impl Reply {
    /// Whether tmux ran and succeeded.
    pub open spec fn ok(&self) -> bool {
        match self {
            Reply::Exited(output) => output.success,
            Reply::Failed(_) => false,
        }
    }

    /// Whether tmux ran and succeeded.
    pub fn succeeded(&self) -> (res: bool)
        ensures
            res == self.ok(),
    {
        match self {
            Reply::Exited(output) => output.success,
            Reply::Failed(_) => false,
        }
    }

    /// What tmux printed, if it succeeded.
    pub open spec fn printed(&self) -> Seq<char> {
        match self {
            Reply::Exited(output) => if output.success {
                text::lossy_text(output.stdout@)
            } else {
                Seq::empty()
            },
            Reply::Failed(_) => Seq::empty(),
        }
    }

    /// Whether what tmux printed is taken as it stands where it is valid UTF-8.
    pub open spec fn printed_plainly(&self) -> bool {
        match self {
            Reply::Exited(output) => output.success && vstd::utf8::valid_utf8(output.stdout@)
                ==> self.printed() == vstd::utf8::decode_utf8(output.stdout@),
            Reply::Failed(_) => true,
        }
    }

    /// Whether what tmux complained of, where it did not succeed, is taken as it
    /// stands where it is valid UTF-8.
    pub open spec fn complained_plainly(&self) -> bool {
        match self {
            Reply::Exited(output) => !output.success && vstd::utf8::valid_utf8(output.stderr@)
                ==> text::lossy_text(output.stderr@) == vstd::utf8::decode_utf8(output.stderr@),
            Reply::Failed(_) => true,
        }
    }

    /// What tmux printed, or nothing where it did not succeed.
    pub fn text(&self) -> (res: String)
        ensures
            res@ == self.printed(),
            self.printed_plainly(),
    {
        match self {
            Reply::Exited(output) => if output.success {
                text::decode_lossy(output.stdout.as_slice())
            } else {
                String::new()
            },
            Reply::Failed(_) => String::new(),
        }
    }
}

} // verus!
