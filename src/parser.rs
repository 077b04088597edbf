//! The chain grammar: `;`-separated segments, each one command or two joined by `|`.
use vstd::prelude::*;
use crate::command::{chains_view, strings_view, ChainView, Command, CommandChain};
use crate::text::{
    chars_of, find_char, is_ws, lemma_split_last, lemma_split_nonempty, lemma_trim_blank, lemma_split_step,
    lemma_words_skip_run, lemma_words_take, scan_word, skip_ws, split_on, trim, trim_bounds, words,
};

verus! {

/// Why a line was rejected.
#[derive(Debug, PartialEq, Eq)]
pub enum ParseError {
    /// A segment or pipe stage holds no word.
    NoCommand,
    /// A segment holds more than one `|`; the offending segment is carried along.
    UnsupportedPipeline(String),
}

/// A parse error with its segment as characters.
pub enum ParseFailure {
    NoCommand,
    UnsupportedPipeline(Seq<char>),
}

impl View for ParseError {
    type V = ParseFailure;

    open spec fn view(&self) -> ParseFailure {
        match self {
            ParseError::NoCommand => ParseFailure::NoCommand,
            ParseError::UnsupportedPipeline(s) => ParseFailure::UnsupportedPipeline(s@),
        }
    }
}

/// A command is the words of its text; there must be at least one.
pub open spec fn command_parse(s: Seq<char>) -> Result<Seq<Seq<char>>, ParseFailure> {
    if words(s).len() == 0 {
        Err(ParseFailure::NoCommand)
    } else {
        Ok(words(s))
    }
}

/// A segment split on `|`: one piece is a single command, two a pipe, more an error.
pub open spec fn segment_parse(seg: Seq<char>) -> Result<ChainView, ParseFailure> {
    let parts = split_on(seg, '|');
    if parts.len() == 1 {
        match command_parse(parts[0]) {
            Ok(c) => Ok(ChainView::Single(c)),
            Err(e) => Err(e),
        }
    } else if parts.len() == 2 {
        match command_parse(parts[0]) {
            Err(e) => Err(e),
            Ok(a) => match command_parse(parts[1]) {
                Err(e) => Err(e),
                Ok(b) => Ok(ChainView::Piped(a, b)),
            },
        }
    } else {
        Err(ParseFailure::UnsupportedPipeline(seg))
    }
}

/// The segments of a line: the trimmed line split on `;`, an empty last piece dropped.
pub open spec fn segments(line: Seq<char>) -> Seq<Seq<char>> {
    let p = split_on(trim(line), ';');
    if p.last().len() == 0 {
        p.drop_last()
    } else {
        p
    }
}

/// Parses segments in order; the first error is the result.
pub open spec fn parse_segments(segs: Seq<Seq<char>>) -> Result<Seq<ChainView>, ParseFailure>
    decreases segs.len(),
{
    if segs.len() == 0 {
        Ok(seq![])
    } else {
        match parse_segments(segs.drop_last()) {
            Err(e) => Err(e),
            Ok(p) => match segment_parse(segs.last()) {
                Err(e) => Err(e),
                Ok(x) => Ok(p.push(x)),
            },
        }
    }
}

/// What a line parses to.
pub open spec fn line_parse(line: Seq<char>) -> Result<Seq<ChainView>, ParseFailure> {
    parse_segments(segments(line))
}

/// An error in some prefix is the error of the whole.
pub proof fn lemma_parse_prefix_err(a: Seq<Seq<char>>, b: Seq<Seq<char>>)
    requires
        parse_segments(a) is Err,
    ensures
        parse_segments(a + b) == parse_segments(a),
    decreases b.len(),
{
    if b.len() == 0 {
        assert(a + b =~= a);
    } else {
        assert((a + b).drop_last() =~= a + b.drop_last());
        lemma_parse_prefix_err(a, b.drop_last());
    }
}

/// An element that fails makes the whole sequence fail.
proof fn lemma_parse_element_err(segs: Seq<Seq<char>>, i: int)
    requires
        0 <= i < segs.len(),
        segment_parse(segs[i]) is Err,
    ensures
        parse_segments(segs) is Err,
    decreases segs.len(),
{
    if i < segs.len() - 1 {
        lemma_parse_element_err(segs.drop_last(), i);
    }
}

/// A segment with more than one `|` makes the whole line a parse error, so that no
/// element of it runs.
pub proof fn lemma_multi_stage_rejected(line: Seq<char>, i: int)
    requires
        0 <= i < segments(line).len(),
        split_on(segments(line)[i], '|').len() > 2,
    ensures
        line_parse(line) is Err,
{
    lemma_parse_element_err(segments(line), i);
}

/// A line that is empty or holds only whitespace parses to no element at all.
pub proof fn lemma_blank_line(line: Seq<char>)
    requires
        forall|k: int| 0 <= k < line.len() ==> is_ws(#[trigger] line[k]),
    ensures
        line_parse(line) == Ok::<Seq<ChainView>, ParseFailure>(seq![]),
{
    lemma_trim_blank(line);
    let e = Seq::<char>::empty();
    assert(split_on(e, ';') == seq![e]);
    assert(segments(line) =~= Seq::<Seq<char>>::empty());
}

/// The words of `line` over `[lo, hi)`, as strings.
fn split_words(line: &str, s: &Vec<char>, lo: usize, hi: usize) -> (r: Vec<String>)
    requires
        s@ == line@,
        lo <= hi <= s@.len(),
    ensures
        strings_view(r@) == words(s@.subrange(lo as int, hi as int)),
{
    let mut r: Vec<String> = Vec::new();
    let mut i = lo;
    while i < hi
        invariant
            s@ == line@,
            lo <= i <= hi <= s@.len(),
            strings_view(r@) + words(s@.subrange(i as int, hi as int)) == words(
                s@.subrange(lo as int, hi as int),
            ),
        decreases hi - i,
    {
        let j = skip_ws(s, i, hi);
        proof {
            lemma_words_skip_run(s@, i as int, j as int, hi as int);
        }
        if j == hi {
            i = j;
        } else {
            let e = scan_word(s, j, hi);
            proof {
                lemma_words_take(s@, j as int, e as int, hi as int);
            }
            let w = line.substring_char(j, e).to_owned();
            let ghost before = strings_view(r@);
            r.push(w);
            proof {
                assert(strings_view(r@) =~= before.push(s@.subrange(j as int, e as int)));
                assert(strings_view(r@) + words(s@.subrange(e as int, hi as int)) =~= before + (
                seq![s@.subrange(j as int, e as int)] + words(s@.subrange(e as int, hi as int))));
            }
            i = e;
        }
    }
    proof {
        assert(words(s@.subrange(i as int, hi as int)) =~= seq![]);
        assert(strings_view(r@) + seq![] =~= strings_view(r@));
    }
    r
}

/// The command over `[lo, hi)` of `line`.
fn command_in(line: &str, s: &Vec<char>, lo: usize, hi: usize) -> (r: Result<Command, ParseError>)
    requires
        s@ == line@,
        lo <= hi <= s@.len(),
    ensures
        match command_parse(s@.subrange(lo as int, hi as int)) {
            Ok(c) => r is Ok && r->Ok_0@ == c,
            Err(e) => r is Err && r->Err_0@ == e,
        },
{
    let mut ws = split_words(line, s, lo, hi);
    if ws.len() == 0 {
        return Err(ParseError::NoCommand);
    }
    let ghost all = strings_view(ws@);
    let bin = ws.remove(0);
    let cmd = Command { bin, args: ws };
    proof {
        assert(cmd@ =~= all);
    }
    Ok(cmd)
}

/// Parses one command: its words split on whitespace, the first being the executable.
pub fn parse_command(cmd: &str) -> (r: Result<Command, ParseError>)
    ensures
        match command_parse(cmd@) {
            Ok(c) => r is Ok && r->Ok_0@ == c,
            Err(e) => r is Err && r->Err_0@ == e,
        },
{
    let s = chars_of(cmd);
    let r = command_in(cmd, &s, 0, s.len());
    proof {
        assert(s@.subrange(0, s@.len() as int) =~= cmd@);
    }
    r
}

/// The chain element over `[a, b)` of `line`.
fn segment_in(line: &str, s: &Vec<char>, a: usize, b: usize) -> (r: Result<CommandChain, ParseError>)
    requires
        s@ == line@,
        a <= b <= s@.len(),
    ensures
        match segment_parse(s@.subrange(a as int, b as int)) {
            Ok(c) => r is Ok && r->Ok_0@ == c,
            Err(e) => r is Err && r->Err_0@ == e,
        },
{
    let k = find_char(s, '|', a, b);
    if k == b {
        proof {
            lemma_split_last(s@, '|', a as int, b as int);
        }
        let c = command_in(line, s, a, b)?;
        return Ok(CommandChain::Command(c));
    }
    proof {
        lemma_split_step(s@, '|', a as int, k as int, b as int);
    }
    let m = find_char(s, '|', k + 1, b);
    if m == b {
        proof {
            lemma_split_last(s@, '|', k + 1, b as int);
        }
        let first = command_in(line, s, a, k)?;
        let second = command_in(line, s, k + 1, b)?;
        Ok(CommandChain::Piped(first, second))
    } else {
        proof {
            lemma_split_step(s@, '|', k + 1, m as int, b as int);
            lemma_split_nonempty(s@.subrange(m + 1, b as int), '|');
        }
        Err(ParseError::UnsupportedPipeline(line.substring_char(a, b).to_owned()))
    }
}

/// Parses a line into its chain elements, or the first error met.
pub fn parse_cmds(line: &str) -> (r: Result<Vec<CommandChain>, ParseError>)
    ensures
        match line_parse(line@) {
            Ok(v) => r is Ok && chains_view(r->Ok_0@) == v,
            Err(e) => r is Err && r->Err_0@ == e,
        },
{
    let s = chars_of(line);
    let (lo, hi) = trim_bounds(&s);
    let ghost t = s@.subrange(lo as int, hi as int);
    let ghost all = split_on(t, ';');
    let mut chains: Vec<CommandChain> = Vec::new();
    let ghost mut done: Seq<Seq<char>> = seq![];
    let mut i = lo;
    proof {
        assert(chains_view(chains@) =~= seq![]);
        assert(done + all =~= all);
    }
    loop
        invariant
            lo <= i <= hi <= s@.len(),
            s@ == line@,
            t == s@.subrange(lo as int, hi as int),
            t == trim(line@),
            all == split_on(t, ';'),
            done + split_on(s@.subrange(i as int, hi as int), ';') == all,
            parse_segments(done) == Ok::<Seq<ChainView>, ParseFailure>(chains_view(chains@)),
        decreases hi - i,
    {
        let k = find_char(&s, ';', i, hi);
        if k == hi {
            proof {
                lemma_split_last(s@, ';', i as int, hi as int);
                assert(all == done.push(s@.subrange(i as int, hi as int)));
                assert(all.drop_last() =~= done);
            }
            if k == i {
                return Ok(chains);
            }
            let c = segment_in(line, &s, i, hi);
            match c {
                Ok(x) => {
                    let ghost before = chains_view(chains@);
                    chains.push(x);
                    proof {
                        assert(chains_view(chains@) =~= before.push(x@));
                    }
                    return Ok(chains);
                },
                Err(e) => {
                    return Err(e);
                },
            }
        }
        proof {
            lemma_split_step(s@, ';', i as int, k as int, hi as int);
        }
        let ghost piece = s@.subrange(i as int, k as int);
        let ghost rest = split_on(s@.subrange(k + 1, hi as int), ';');
        proof {
            lemma_split_nonempty(s@.subrange(k + 1, hi as int), ';');
            assert(all =~= done.push(piece) + rest);
            assert(all.drop_last() =~= done.push(piece) + rest.drop_last());
            assert(done.push(piece).drop_last() =~= done);
        }
        let c = segment_in(line, &s, i, k);
        match c {
            Err(e) => {
                proof {
                    lemma_parse_prefix_err(done.push(piece), rest);
                    lemma_parse_prefix_err(done.push(piece), rest.drop_last());
                }
                return Err(e);
            },
            Ok(x) => {
                let ghost before = chains_view(chains@);
                chains.push(x);
                proof {
                    assert(chains_view(chains@) =~= before.push(x@));
                    done = done.push(piece);
                    assert(done + rest =~= all);
                }
                i = k + 1;
            },
        }
    }
}

} // verus!
