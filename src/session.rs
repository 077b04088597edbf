//! The session: working directory and history, and the decisions taken for each
//! chain element of a line. The session never performs outside work itself: each
//! step hands back a [`Request`] (run a process, resolve a directory, print) and
//! takes the outcome back as a [`Reply`].
use vstd::prelude::*;
use crate::command::{command_text, strings_view, Command, CommandChain};
use crate::exit_code::{exit_code_of, parse_exit_code};

verus! {

/// Why running an external command failed.
#[derive(Debug, Clone, Copy, PartialEq, Eq, Structural)]
pub enum ExecError {
    /// The process could not be started.
    Spawn,
    /// Writing to or reading from the process failed.
    Io,
}

/// A builtin called with arguments it does not accept.
#[derive(Debug, Clone, Copy, PartialEq, Eq, Structural)]
pub enum ArgumentError {
    /// `cd` takes exactly one path.
    ExpectedSinglePath,
    /// The argument of `exit` is not a status.
    InvalidExitCode,
}

/// Why one chain element produced no output.
#[derive(Debug, Clone, Copy, PartialEq, Eq, Structural)]
pub enum ElementError {
    Argument(ArgumentError),
    /// The target of `cd` could not be resolved.
    Directory,
    Exec(ExecError),
}

/// What the session asks its driver to do next.
#[derive(Debug, PartialEq, Eq)]
pub enum Request {
    /// Run the command in the working directory, writing `input` to it when present.
    Execute(Command, Option<Vec<u8>>),
    /// Resolve the path against the working directory and canonicalize it.
    ChangeDirectory(String),
    /// Write these bytes to the output as they are.
    Print(Vec<u8>),
    /// Write this text to the output.
    PrintText(String),
    /// The element ended without output, for this reason.
    Discard(ElementError),
    /// End the process with this status.
    Terminate(i32),
    /// Nothing is left of the line.
    Finished,
}

/// A request with its strings and bytes as sequences.
pub enum RequestView {
    Execute(Seq<Seq<char>>, Option<Seq<u8>>),
    ChangeDirectory(Seq<char>),
    Print(Seq<u8>),
    PrintText(Seq<char>),
    Discard(ElementError),
    Terminate(i32),
    Finished,
}

pub open spec fn bytes_view(b: Option<Vec<u8>>) -> Option<Seq<u8>> {
    match b {
        Some(v) => Some(v@),
        None => None,
    }
}

impl View for Request {
    type V = RequestView;

    open spec fn view(&self) -> RequestView {
        match self {
            Request::Execute(c, input) => RequestView::Execute(c@, bytes_view(*input)),
            Request::ChangeDirectory(p) => RequestView::ChangeDirectory(p@),
            Request::Print(b) => RequestView::Print(b@),
            Request::PrintText(t) => RequestView::PrintText(t@),
            Request::Discard(e) => RequestView::Discard(*e),
            Request::Terminate(c) => RequestView::Terminate(*c),
            Request::Finished => RequestView::Finished,
        }
    }
}

/// The outcome of the last request, handed back to the session.
pub enum Reply<P> {
    /// What the process wrote to its output, or why it failed.
    Output(Result<Vec<u8>, ExecError>),
    /// The resolved directory, or `None` if it could not be resolved.
    Directory(Option<P>),
    /// The request needed no answer.
    Done,
}

/// What the element in progress waits for.
pub enum Awaiting {
    Nothing,
    /// The output of a command, to be printed.
    Output,
    /// The output of a pipe's first stage, to be fed to this second stage.
    FirstStage(Command),
    /// The resolved target of `cd`.
    Directory,
}

/// The progress through one parsed line.
pub struct LineRun {
    chains: Vec<CommandChain>,
    awaiting: Awaiting,
}

pub struct LineState {
    /// The elements not started yet, in order.
    pub chains: Seq<CommandChain>,
    pub awaiting: Awaiting,
}

impl View for LineRun {
    type V = LineState;

    closed spec fn view(&self) -> LineState {
        LineState { chains: self.chains@, awaiting: self.awaiting }
    }
}

impl LineRun {
    /// Starts a line with its parsed elements.
    pub fn new(chains: Vec<CommandChain>) -> (r: LineRun)
        ensures
            r@ == (LineState { chains: chains@, awaiting: Awaiting::Nothing }),
    {
        LineRun { chains, awaiting: Awaiting::Nothing }
    }
}

/// The working directory and the history of entered commands.
pub struct CommandRunner<P> {
    pwd: P,
    history: Vec<String>,
}

pub struct RunnerState<P> {
    pub pwd: P,
    pub history: Seq<Seq<char>>,
}

impl<P> View for CommandRunner<P> {
    type V = RunnerState<P>;

    closed spec fn view(&self) -> RunnerState<P> {
        RunnerState { pwd: self.pwd, history: strings_view(self.history@) }
    }
}

/// The history as printed: each entry followed by a newline, oldest first.
pub open spec fn listing(h: Seq<Seq<char>>) -> Seq<char>
    decreases h.len(),
{
    if h.len() == 0 {
        seq![]
    } else {
        listing(h.drop_last()) + h.last() + seq!['\n']
    }
}

pub open spec fn line_state(chains: Seq<CommandChain>, awaiting: Awaiting) -> LineState {
    LineState { chains, awaiting }
}

/// Starts the next element of the line, if any: the new session, line and request.
pub open spec fn advance<P>(r: RunnerState<P>, chains: Seq<CommandChain>) -> (
    RunnerState<P>,
    LineState,
    RequestView,
) {
    if chains.len() == 0 {
        (r, line_state(chains, Awaiting::Nothing), RequestView::Finished)
    } else {
        let rest = chains.drop_first();
        match chains[0] {
            CommandChain::Command(c) => {
                let w = c@;
                let r2 = RunnerState { pwd: r.pwd, history: r.history.push(command_text(w)) };
                if w[0] == "cd"@ {
                    if w.len() == 2 {
                        (
                            r2,
                            line_state(rest, Awaiting::Directory),
                            RequestView::ChangeDirectory(w[1]),
                        )
                    } else {
                        (
                            r2,
                            line_state(rest, Awaiting::Nothing),
                            RequestView::Discard(
                                ElementError::Argument(ArgumentError::ExpectedSinglePath),
                            ),
                        )
                    }
                } else if w[0] == "exit"@ {
                    let code = if w.len() == 1 {
                        Some(0i32)
                    } else {
                        exit_code_of(w[1])
                    };
                    match code {
                        Some(v) => (
                            r2,
                            line_state(seq![], Awaiting::Nothing),
                            RequestView::Terminate(v),
                        ),
                        None => (
                            r2,
                            line_state(rest, Awaiting::Nothing),
                            RequestView::Discard(
                                ElementError::Argument(ArgumentError::InvalidExitCode),
                            ),
                        ),
                    }
                } else if w[0] == "history"@ {
                    (
                        r2,
                        line_state(rest, Awaiting::Nothing),
                        RequestView::PrintText(listing(r.history)),
                    )
                } else {
                    (r2, line_state(rest, Awaiting::Output), RequestView::Execute(w, None))
                }
            },
            CommandChain::Piped(a, b) => (
                r,
                line_state(rest, Awaiting::FirstStage(b)),
                RequestView::Execute(a@, None),
            ),
        }
    }
}

/// One step of a line: the reply answers what the line awaits; a reply that answers
/// something else ends the element and the next one starts.
pub open spec fn transition<P>(r: RunnerState<P>, l: LineState, reply: Reply<P>) -> (
    RunnerState<P>,
    LineState,
    RequestView,
) {
    match l.awaiting {
        Awaiting::Output => match reply {
            Reply::Output(Ok(b)) => (
                r,
                line_state(l.chains, Awaiting::Nothing),
                RequestView::Print(b@),
            ),
            Reply::Output(Err(e)) => (
                r,
                line_state(l.chains, Awaiting::Nothing),
                RequestView::Discard(ElementError::Exec(e)),
            ),
            _ => advance(r, l.chains),
        },
        Awaiting::FirstStage(second) => match reply {
            Reply::Output(Ok(b)) => (
                r,
                line_state(l.chains, Awaiting::Output),
                RequestView::Execute(second@, Some(b@)),
            ),
            Reply::Output(Err(e)) => (
                r,
                line_state(seq![], Awaiting::Nothing),
                RequestView::Discard(ElementError::Exec(e)),
            ),
            _ => advance(r, l.chains),
        },
        Awaiting::Directory => match reply {
            Reply::Directory(Some(p)) => advance(RunnerState { pwd: p, history: r.history }, l.chains),
            Reply::Directory(None) => (
                r,
                line_state(l.chains, Awaiting::Nothing),
                RequestView::Discard(ElementError::Directory),
            ),
            _ => advance(r, l.chains),
        },
        Awaiting::Nothing => advance(r, l.chains),
    }
}

/// A single command that is not a builtin runs with no input, and what it writes
/// to its output is printed exactly as it came.
pub proof fn lemma_single_output_verbatim<P>(
    r: RunnerState<P>,
    c: Command,
    rest: Seq<CommandChain>,
    out: Vec<u8>,
)
    requires
        c@[0] != "cd"@,
        c@[0] != "exit"@,
        c@[0] != "history"@,
    ensures
        ({
            let (r1, l1, q1) = advance(r, seq![CommandChain::Command(c)] + rest);
            &&& q1 == RequestView::Execute(c@, None)
            &&& r1.history == r.history.push(command_text(c@))
            &&& transition(r1, l1, Reply::Output(Ok(out))).2 == RequestView::Print(out@)
        }),
{
    assert((seq![CommandChain::Command(c)] + rest).drop_first() =~= rest);
}

/// A `cd` whose target cannot be resolved leaves the working directory as it was,
/// and the rest of the line then goes on in that directory.
pub proof fn lemma_failed_cd_keeps_pwd<P>(
    r: RunnerState<P>,
    c: Command,
    rest: Seq<CommandChain>,
)
    requires
        c@.len() == 2,
        c@[0] == "cd"@,
    ensures
        ({
            let (r1, l1, q1) = advance(r, seq![CommandChain::Command(c)] + rest);
            let (r2, l2, q2) = transition(r1, l1, Reply::Directory(None));
            &&& q1 == RequestView::ChangeDirectory(c@[1])
            &&& q2 == RequestView::Discard(ElementError::Directory)
            &&& r2.pwd == r.pwd
            &&& l2.chains == rest
            &&& transition(r2, l2, Reply::Done) == advance(r2, rest)
            &&& advance(r2, rest).0.pwd == r.pwd
        }),
{
    assert((seq![CommandChain::Command(c)] + rest).drop_first() =~= rest);
}

/// A line with no element ends at once, prints nothing and records nothing.
pub proof fn lemma_empty_line_is_silent<P>(r: RunnerState<P>, reply: Reply<P>)
    ensures
        transition(r, line_state(seq![], Awaiting::Nothing), reply) == (
            r,
            line_state(seq![], Awaiting::Nothing),
            RequestView::Finished,
        ),
{
}

/// The history as printed.
fn history_listing(h: &Vec<String>) -> (r: String)
    ensures
        r@ == listing(strings_view(h@)),
{
    let ghost hv = strings_view(h@);
    let mut r = String::new();
    let mut i: usize = 0;
    while i < h.len()
        invariant
            i <= h@.len(),
            hv == strings_view(h@),
            r@ == listing(hv.take(i as int)),
        decreases h@.len() - i,
    {
        r.append(h[i].as_str());
        proof {
            reveal_strlit("\n");
        }
        r.append("\n");
        proof {
            assert(hv.take(i + 1).drop_last() =~= hv.take(i as int));
        }
        i = i + 1;
    }
    proof {
        assert(hv.take(i as int) =~= hv);
    }
    r
}

impl<P> CommandRunner<P> {
    /// A session in `pwd` with an empty history.
    pub fn new(pwd: P) -> (r: CommandRunner<P>)
        ensures
            r@.pwd == pwd,
            r@.history == Seq::<Seq<char>>::empty(),
    {
        let r = CommandRunner { pwd, history: Vec::new() };
        proof {
            assert(strings_view(r.history@) =~= Seq::<Seq<char>>::empty());
        }
        r
    }

    /// The working directory.
    pub fn pwd(&self) -> (r: &P)
        ensures
            *r == self@.pwd,
    {
        &self.pwd
    }

    /// The recorded commands, oldest first.
    pub fn history(&self) -> (r: &Vec<String>)
        ensures
            strings_view(r@) == self@.history,
    {
        &self.history
    }

    fn record(&mut self, c: &Command)
        ensures
            final(self)@.pwd == old(self)@.pwd,
            final(self)@.history == old(self)@.history.push(command_text(c@)),
    {
        let t = c.text();
        let ghost before = strings_view(self.history@);
        self.history.push(t);
        proof {
            assert(strings_view(self.history@) =~= before.push(command_text(c@)));
        }
    }

    /// Starts the next element of the line.
    fn start_next(&mut self, line: &mut LineRun) -> (r: Request)
        requires
            old(line).awaiting is Nothing,
        ensures
            (final(self)@, final(line)@, r@) == advance(old(self)@, old(line)@.chains),
    {
        if line.chains.len() == 0 {
            return Request::Finished;
        }
        let chain = line.chains.remove(0);
        proof {
            assert(line.chains@ =~= old(line).chains@.drop_first());
        }
        match chain {
            CommandChain::Command(c) => {
                proof {
                    reveal_strlit("cd");
                    reveal_strlit("exit");
                    reveal_strlit("history");
                }
                let cd = "cd".to_owned();
                let exit = "exit".to_owned();
                let hist = "history".to_owned();
                if c.bin == cd {
                    self.record(&c);
                    if c.args.len() == 1 {
                        line.awaiting = Awaiting::Directory;
                        Request::ChangeDirectory(c.args[0].clone())
                    } else {
                        Request::Discard(ElementError::Argument(ArgumentError::ExpectedSinglePath))
                    }
                } else if c.bin == exit {
                    self.record(&c);
                    let code = if c.args.len() == 0 {
                        Some(0i32)
                    } else {
                        parse_exit_code(c.args[0].as_str())
                    };
                    match code {
                        Some(v) => {
                            line.chains = Vec::new();
                            proof {
                                assert(line.chains@ =~= Seq::<CommandChain>::empty());
                            }
                            Request::Terminate(v)
                        },
                        None => Request::Discard(
                            ElementError::Argument(ArgumentError::InvalidExitCode),
                        ),
                    }
                } else if c.bin == hist {
                    let out = history_listing(&self.history);
                    self.record(&c);
                    Request::PrintText(out)
                } else {
                    self.record(&c);
                    line.awaiting = Awaiting::Output;
                    Request::Execute(c, None)
                }
            },
            CommandChain::Piped(a, b) => {
                line.awaiting = Awaiting::FirstStage(b);
                Request::Execute(a, None)
            },
        }
    }

    /// Takes the outcome of the last request and returns the next request of the line.
    /// A fresh line is started with any reply, `Reply::Done` by convention.
    pub fn step(&mut self, line: &mut LineRun, reply: Reply<P>) -> (r: Request)
        ensures
            (final(self)@, final(line)@, r@) == transition(old(self)@, old(line)@, reply),
    {
        let mut awaiting = Awaiting::Nothing;
        core::mem::swap(&mut line.awaiting, &mut awaiting);
        match awaiting {
            Awaiting::Output => match reply {
                Reply::Output(Ok(b)) => Request::Print(b),
                Reply::Output(Err(e)) => Request::Discard(ElementError::Exec(e)),
                _ => self.start_next(line),
            },
            Awaiting::FirstStage(second) => match reply {
                Reply::Output(Ok(b)) => {
                    line.awaiting = Awaiting::Output;
                    Request::Execute(second, Some(b))
                },
                Reply::Output(Err(e)) => {
                    line.chains = Vec::new();
                    proof {
                        assert(line.chains@ =~= Seq::<CommandChain>::empty());
                    }
                    Request::Discard(ElementError::Exec(e))
                },
                _ => self.start_next(line),
            },
            Awaiting::Directory => match reply {
                Reply::Directory(Some(p)) => {
                    self.pwd = p;
                    self.start_next(line)
                },
                Reply::Directory(None) => Request::Discard(ElementError::Directory),
                _ => self.start_next(line),
            },
            Awaiting::Nothing => self.start_next(line),
        }
    }
}

} // verus!
