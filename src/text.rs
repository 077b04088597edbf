//! Characters, whitespace runs and separator splitting over `Seq<char>`.
use vstd::prelude::*;

verus! {

/// Unicode `White_Space`: the characters that `char::is_whitespace` accepts.
pub open spec fn is_ws(c: char) -> bool {
    ('\u{9}' <= c && c <= '\u{d}') || c == ' ' || c == '\u{85}' || c == '\u{a0}' || c == '\u{1680}'
        || ('\u{2000}' <= c && c <= '\u{200a}') || c == '\u{2028}' || c == '\u{2029}'
        || c == '\u{202f}' || c == '\u{205f}' || c == '\u{3000}'
}

/// Length of the run of non-whitespace characters that `s` starts with.
pub open spec fn word_len(s: Seq<char>) -> nat
    decreases s.len(),
{
    if s.len() == 0 || is_ws(s[0]) {
        0
    } else {
        1 + word_len(s.drop_first())
    }
}

/// The maximal runs of non-whitespace characters of `s`, in order.
pub open spec fn words(s: Seq<char>) -> Seq<Seq<char>>
    decreases s.len(),
    via words_decreases
{
    if s.len() == 0 {
        seq![]
    } else if is_ws(s[0]) {
        words(s.drop_first())
    } else {
        let k = word_len(s);
        seq![s.take(k as int)] + words(s.skip(k as int))
    }
}

#[via_fn]
proof fn words_decreases(s: Seq<char>) {
    if s.len() > 0 && !is_ws(s[0]) {
        lemma_word_len_bound(s);
    }
}

proof fn lemma_word_len_bound(s: Seq<char>)
    ensures
        word_len(s) <= s.len(),
        s.len() > 0 && !is_ws(s[0]) ==> word_len(s) >= 1,
    decreases s.len(),
{
    if s.len() > 0 && !is_ws(s[0]) {
        lemma_word_len_bound(s.drop_first());
    }
}

/// Length of the part of `s` before the first `c` (all of `s` if there is none).
pub open spec fn piece_len(s: Seq<char>, c: char) -> nat
    decreases s.len(),
{
    if s.len() == 0 || s[0] == c {
        0
    } else {
        1 + piece_len(s.drop_first(), c)
    }
}

/// The pieces of `s` between occurrences of `c`; there is always at least one.
pub open spec fn split_on(s: Seq<char>, c: char) -> Seq<Seq<char>>
    decreases s.len(),
{
    let k = piece_len(s, c);
    if k >= s.len() {
        seq![s]
    } else {
        seq![s.take(k as int)] + split_on(s.skip(k + 1 as int), c)
    }
}

/// Number of whitespace characters that `s` starts with.
pub open spec fn lead_ws(s: Seq<char>) -> nat
    decreases s.len(),
{
    if s.len() == 0 || !is_ws(s[0]) {
        0
    } else {
        1 + lead_ws(s.drop_first())
    }
}

/// Number of whitespace characters that `s` ends with.
pub open spec fn trail_ws(s: Seq<char>) -> nat
    decreases s.len(),
{
    if s.len() == 0 || !is_ws(s.last()) {
        0
    } else {
        1 + trail_ws(s.drop_last())
    }
}

/// `s` without its leading and trailing whitespace.
pub open spec fn trim(s: Seq<char>) -> Seq<char> {
    let t = s.skip(lead_ws(s) as int);
    t.take(t.len() - trail_ws(t))
}

/// Tests a character for Unicode whitespace.
pub fn is_whitespace_char(c: char) -> (r: bool)
    ensures
        r == is_ws(c),
{
    ('\u{9}' <= c && c <= '\u{d}') || c == ' ' || c == '\u{85}' || c == '\u{a0}' || c == '\u{1680}'
        || ('\u{2000}' <= c && c <= '\u{200a}') || c == '\u{2028}' || c == '\u{2029}'
        || c == '\u{202f}' || c == '\u{205f}' || c == '\u{3000}'
}

/// The characters of `s`, one per element.
pub fn chars_of(s: &str) -> (r: Vec<char>)
    ensures
        r@ == s@,
{
    let n = s.unicode_len();
    let mut r: Vec<char> = Vec::new();
    let mut i: usize = 0;
    while i < n
        invariant
            n == s@.len(),
            i <= n,
            r@ == s@.take(i as int),
        decreases n - i,
    {
        r.push(s.get_char(i));
        i = i + 1;
        assert(r@ =~= s@.take(i as int));
    }
    assert(r@ =~= s@);
    r
}

proof fn lemma_word_len_at(s: Seq<char>, i: int, j: int, hi: int)
    requires
        0 <= i <= j <= hi <= s.len(),
        forall|k: int| i <= k < j ==> !is_ws(#[trigger] s[k]),
        j == hi || is_ws(s[j]),
    ensures
        word_len(s.subrange(i, hi)) == j - i,
    decreases j - i,
{
    if i < j {
        assert(s.subrange(i, hi).drop_first() =~= s.subrange(i + 1, hi));
        lemma_word_len_at(s, i + 1, j, hi);
    }
}

/// A whitespace character at `i` adds no word.
pub proof fn lemma_words_skip(s: Seq<char>, i: int, hi: int)
    requires
        0 <= i < hi <= s.len(),
        is_ws(s[i]),
    ensures
        words(s.subrange(i, hi)) == words(s.subrange(i + 1, hi)),
{
    assert(s.subrange(i, hi).drop_first() =~= s.subrange(i + 1, hi));
}

/// A run of whitespace over `[i, j)` adds no word.
pub proof fn lemma_words_skip_run(s: Seq<char>, i: int, j: int, hi: int)
    requires
        0 <= i <= j <= hi <= s.len(),
        forall|k: int| i <= k < j ==> is_ws(#[trigger] s[k]),
    ensures
        words(s.subrange(i, hi)) == words(s.subrange(j, hi)),
    decreases j - i,
{
    if i < j {
        lemma_words_skip(s, i, hi);
        lemma_words_skip_run(s, i + 1, j, hi);
    }
}

/// A maximal run of non-whitespace characters over `[i, j)` is the next word.
pub proof fn lemma_words_take(s: Seq<char>, i: int, j: int, hi: int)
    requires
        0 <= i < j <= hi <= s.len(),
        forall|k: int| i <= k < j ==> !is_ws(#[trigger] s[k]),
        j == hi || is_ws(s[j]),
    ensures
        words(s.subrange(i, hi)) == seq![s.subrange(i, j)] + words(s.subrange(j, hi)),
{
    lemma_word_len_at(s, i, j, hi);
    let t = s.subrange(i, hi);
    assert(t.take(j - i) =~= s.subrange(i, j));
    assert(t.skip(j - i) =~= s.subrange(j, hi));
}

proof fn lemma_piece_len_at(s: Seq<char>, c: char, i: int, j: int, hi: int)
    requires
        0 <= i <= j <= hi <= s.len(),
        forall|k: int| i <= k < j ==> #[trigger] s[k] != c,
        j == hi || s[j] == c,
    ensures
        piece_len(s.subrange(i, hi), c) == j - i,
    decreases j - i,
{
    if i < j {
        assert(s.subrange(i, hi).drop_first() =~= s.subrange(i + 1, hi));
        lemma_piece_len_at(s, c, i + 1, j, hi);
    }
}

/// With no `c` over `[i, j)` and a `c` at `j`, the first piece is `[i, j)`.
pub proof fn lemma_split_step(s: Seq<char>, c: char, i: int, j: int, hi: int)
    requires
        0 <= i <= j < hi <= s.len(),
        forall|k: int| i <= k < j ==> #[trigger] s[k] != c,
        s[j] == c,
    ensures
        split_on(s.subrange(i, hi), c) == seq![s.subrange(i, j)] + split_on(
            s.subrange(j + 1, hi),
            c,
        ),
{
    lemma_piece_len_at(s, c, i, j, hi);
    let t = s.subrange(i, hi);
    assert(t.take(j - i) =~= s.subrange(i, j));
    assert(t.skip(j - i + 1) =~= s.subrange(j + 1, hi));
}

/// With no `c` over `[i, hi)`, there is a single piece.
pub proof fn lemma_split_last(s: Seq<char>, c: char, i: int, hi: int)
    requires
        0 <= i <= hi <= s.len(),
        forall|k: int| i <= k < hi ==> #[trigger] s[k] != c,
    ensures
        split_on(s.subrange(i, hi), c) == seq![s.subrange(i, hi)],
{
    lemma_piece_len_at(s, c, i, hi, hi);
}

/// Every split has at least one piece.
pub proof fn lemma_split_nonempty(s: Seq<char>, c: char)
    ensures
        split_on(s, c).len() >= 1,
{
}

/// Index of the first non-whitespace character of `s` at or after `i`, below `hi`.
pub fn skip_ws(s: &Vec<char>, i: usize, hi: usize) -> (j: usize)
    requires
        i <= hi <= s@.len(),
    ensures
        i <= j <= hi,
        forall|k: int| i <= k < j ==> is_ws(#[trigger] s@[k]),
        j == hi || !is_ws(s@[j as int]),
{
    let mut j = i;
    while j < hi && is_whitespace_char(s[j])
        invariant
            i <= j <= hi <= s@.len(),
            forall|k: int| i <= k < j ==> is_ws(#[trigger] s@[k]),
        decreases hi - j,
    {
        j = j + 1;
    }
    j
}

/// Index of the first whitespace character of `s` at or after `i`, below `hi`.
pub fn scan_word(s: &Vec<char>, i: usize, hi: usize) -> (j: usize)
    requires
        i <= hi <= s@.len(),
    ensures
        i <= j <= hi,
        forall|k: int| i <= k < j ==> !is_ws(#[trigger] s@[k]),
        j == hi || is_ws(s@[j as int]),
{
    let mut j = i;
    while j < hi && !is_whitespace_char(s[j])
        invariant
            i <= j <= hi <= s@.len(),
            forall|k: int| i <= k < j ==> !is_ws(#[trigger] s@[k]),
        decreases hi - j,
    {
        j = j + 1;
    }
    j
}

/// Index of the first `c` in `s` at or after `i`, below `hi` (`hi` if none).
pub fn find_char(s: &Vec<char>, c: char, i: usize, hi: usize) -> (j: usize)
    requires
        i <= hi <= s@.len(),
    ensures
        i <= j <= hi,
        forall|k: int| i <= k < j ==> #[trigger] s@[k] != c,
        j == hi || s@[j as int] == c,
{
    let mut j = i;
    while j < hi && s[j] != c
        invariant
            i <= j <= hi <= s@.len(),
            forall|k: int| i <= k < j ==> #[trigger] s@[k] != c,
        decreases hi - j,
    {
        j = j + 1;
    }
    j
}

/// The bounds of `s` with leading and trailing whitespace removed.
pub fn trim_bounds(s: &Vec<char>) -> (r: (usize, usize))
    ensures
        r.0 <= r.1 <= s@.len(),
        s@.subrange(r.0 as int, r.1 as int) == trim(s@),
{
    let n = s.len();
    let lo = skip_ws(s, 0, n);
    let mut hi = n;
    while hi > lo && is_whitespace_char(s[hi - 1])
        invariant
            lo <= hi <= n == s@.len(),
            forall|k: int| hi <= k < n ==> is_ws(#[trigger] s@[k]),
        decreases hi,
    {
        hi = hi - 1;
    }
    proof {
        lemma_lead_ws_at(s@, 0, lo as int);
        assert(s@.subrange(0, n as int) =~= s@);
        lemma_trail_ws_at(s@, lo as int, hi as int, n as int);
        let t = s@.skip(lo as int);
        assert(t =~= s@.subrange(lo as int, n as int));
        assert(t.take(hi - lo) =~= s@.subrange(lo as int, hi as int));
    }
    (lo, hi)
}

/// A line of whitespace alone trims to nothing.
pub proof fn lemma_trim_blank(s: Seq<char>)
    requires
        forall|k: int| 0 <= k < s.len() ==> is_ws(#[trigger] s[k]),
    ensures
        trim(s) == Seq::<char>::empty(),
{
    lemma_lead_ws_at(s, 0, s.len() as int);
    assert(s.subrange(0, s.len() as int) =~= s);
    assert(trim(s) =~= Seq::<char>::empty());
}

proof fn lemma_lead_ws_at(s: Seq<char>, i: int, j: int)
    requires
        0 <= i <= j <= s.len(),
        forall|k: int| i <= k < j ==> is_ws(#[trigger] s[k]),
        j == s.len() || !is_ws(s[j]),
    ensures
        lead_ws(s.subrange(i, s.len() as int)) == j - i,
    decreases j - i,
{
    if i < j {
        assert(s.subrange(i, s.len() as int).drop_first() =~= s.subrange(i + 1, s.len() as int));
        lemma_lead_ws_at(s, i + 1, j);
    }
}

proof fn lemma_trail_ws_at(s: Seq<char>, lo: int, hi: int, m: int)
    requires
        0 <= lo <= hi <= m <= s.len(),
        forall|k: int| hi <= k < m ==> is_ws(#[trigger] s[k]),
        hi == lo || !is_ws(s[hi - 1]),
    ensures
        trail_ws(s.subrange(lo, m)) == m - hi,
    decreases m - hi,
{
    if hi < m {
        assert(s.subrange(lo, m).drop_last() =~= s.subrange(lo, m - 1));
        lemma_trail_ws_at(s, lo, hi, m - 1);
    }
}

} // verus!
