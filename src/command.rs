//! Commands and chain elements as plain values.
use vstd::prelude::*;

verus! {

/// The views of a sequence of strings.
pub open spec fn strings_view(v: Seq<String>) -> Seq<Seq<char>> {
    v.map_values(|x: String| x@)
}

/// Words joined by single spaces.
pub open spec fn joined(ws: Seq<Seq<char>>) -> Seq<char>
    decreases ws.len(),
{
    if ws.len() == 0 {
        seq![]
    } else if ws.len() == 1 {
        ws[0]
    } else {
        joined(ws.drop_last()) + seq![' '] + ws.last()
    }
}

/// The textual form of a command given as its words: the executable, a space,
/// then the arguments joined by single spaces.
pub open spec fn command_text(c: Seq<Seq<char>>) -> Seq<char> {
    c[0] + seq![' '] + joined(c.drop_first())
}

/// An executable name with its ordered arguments.
#[derive(Debug, PartialEq, Eq)]
pub struct Command {
    pub bin: String,
    pub args: Vec<String>,
}

impl View for Command {
    /// The command's words: the executable name, then each argument.
    type V = Seq<Seq<char>>;

    open spec fn view(&self) -> Seq<Seq<char>> {
        seq![self.bin@] + strings_view(self.args@)
    }
}

impl Command {
    /// The textual form recorded in the history: `"<bin> <args joined by a space>"`.
    pub fn text(&self) -> (r: String)
        ensures
            r@ == command_text(self@),
    {
        let mut r = self.bin.clone();
        proof {
            reveal_strlit(" ");
        }
        r.append(" ");
        let ghost args = strings_view(self.args@);
        let mut i: usize = 0;
        while i < self.args.len()
            invariant
                i <= self.args@.len(),
                args == strings_view(self.args@),
                r@ == self.bin@ + seq![' '] + joined(args.take(i as int)),
            decreases self.args@.len() - i,
        {
            proof {
                reveal_strlit(" ");
            }
            if i > 0 {
                r.append(" ");
            }
            r.append(self.args[i].as_str());
            proof {
                let p = args.take(i + 1);
                assert(p.drop_last() =~= args.take(i as int));
                if i == 0 {
                    assert(joined(p) == p[0]);
                }
            }
            i = i + 1;
        }
        proof {
            assert(args.take(i as int) =~= args);
            assert(self@.drop_first() =~= args);
        }
        r
    }
}

/// What a chain element holds, as words.
pub enum ChainView {
    Single(Seq<Seq<char>>),
    Piped(Seq<Seq<char>>, Seq<Seq<char>>),
}

/// One `;`-delimited unit of a line: a single command, or two joined by a pipe.
#[derive(Debug, PartialEq, Eq)]
pub enum CommandChain {
    Command(Command),
    Piped(Command, Command),
}

impl View for CommandChain {
    type V = ChainView;

    open spec fn view(&self) -> ChainView {
        match self {
            CommandChain::Command(c) => ChainView::Single(c@),
            CommandChain::Piped(a, b) => ChainView::Piped(a@, b@),
        }
    }
}

/// The views of a sequence of chain elements.
pub open spec fn chains_view(v: Seq<CommandChain>) -> Seq<ChainView> {
    v.map_values(|x: CommandChain| x@)
}

} // verus!
