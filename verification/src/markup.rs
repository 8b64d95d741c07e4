//! ANSI highlight markers and small string-building helpers shared by the
//! two table renderers.
use itertools::Itertools;
use vstd::prelude::*;
use vstd::string::StringExecFns;

verus! {

/// The length, in characters, of the highlight-start marker.
pub const START_MARKER_LEN: usize = 5;

/// The length, in characters, of the highlight-end marker.
pub const END_MARKER_LEN: usize = 4;

/// The characters of the ANSI escape sequence that switches the terminal
/// to the highlight colour (green).
pub open spec fn start_marker() -> Seq<char> {
    seq!['\x1b', '[', '3', '2', 'm']
}

/// The characters of the ANSI escape sequence that resets the terminal
/// colour.
pub open spec fn end_marker() -> Seq<char> {
    seq!['\x1b', '[', '0', 'm']
}

/// `n` copies of the character `c`.
pub open spec fn char_rep(c: char, n: nat) -> Seq<char> {
    Seq::new(n, |i: int| c)
}

/// The concatenation, in order, of a sequence of character sequences.
pub open spec fn concat_segments(parts: Seq<Seq<char>>) -> Seq<char>
    decreases parts.len(),
{
    if parts.len() == 0 {
        Seq::empty()
    } else {
        concat_segments(parts.drop_last()) + parts.last()
    }
}

/// How many times the character `c` occurs in `s`.
pub open spec fn count_char(s: Seq<char>, c: char) -> int
    decreases s.len(),
{
    if s.len() == 0 {
        0
    } else {
        count_char(s.drop_last(), c) + if s.last() == c {
            1int
        } else {
            0int
        }
    }
}

pub proof fn lemma_count_char_concat(s: Seq<char>, t: Seq<char>, c: char)
    ensures
        count_char(s + t, c) == count_char(s, c) + count_char(t, c),
    decreases t.len(),
{
    if t.len() == 0 {
        assert(s + t =~= s);
    } else {
        lemma_count_char_concat(s, t.drop_last(), c);
        assert((s + t).drop_last() =~= s + t.drop_last());
    }
}

pub proof fn lemma_count_char_nonneg(s: Seq<char>, c: char)
    ensures
        count_char(s, c) >= 0,
    decreases s.len(),
{
    if s.len() > 0 {
        lemma_count_char_nonneg(s.drop_last(), c);
    }
}

/// Each marker holds exactly one escape character, and it holds no corner,
/// fill or separator glyph.
pub proof fn lemma_marker_counts()
    ensures
        count_char(start_marker(), '\x1b') == 1,
        count_char(end_marker(), '\x1b') == 1,
{
    assert(count_char(Seq::<char>::empty(), '\x1b') == 0);
    assert(seq!['\x1b'].drop_last() =~= Seq::<char>::empty());
    assert(count_char(seq!['\x1b'], '\x1b') == 1);
    assert(seq!['\x1b', '['].drop_last() =~= seq!['\x1b']);
    assert(count_char(seq!['\x1b', '['], '\x1b') == 1);
    assert(seq!['\x1b', '[', '3'].drop_last() =~= seq!['\x1b', '[']);
    assert(count_char(seq!['\x1b', '[', '3'], '\x1b') == 1);
    assert(seq!['\x1b', '[', '3', '2'].drop_last() =~= seq!['\x1b', '[', '3']);
    assert(count_char(seq!['\x1b', '[', '3', '2'], '\x1b') == 1);
    assert(start_marker().drop_last() =~= seq!['\x1b', '[', '3', '2']);
    assert(count_char(start_marker(), '\x1b') == 1);
    assert(seq!['\x1b', '[', '0'].drop_last() =~= seq!['\x1b', '[']);
    assert(count_char(seq!['\x1b', '[', '0'], '\x1b') == 1);
    assert(end_marker().drop_last() =~= seq!['\x1b', '[', '0']);
    assert(count_char(end_marker(), '\x1b') == 1);
}

/// A slice of a string without a given character has none of it either.
pub proof fn lemma_count_subrange_zero(line: Seq<char>, x: int, y: int, c: char)
    requires
        0 <= x <= y <= line.len(),
        count_char(line, c) == 0,
    ensures
        count_char(line.subrange(x, y), c) == 0,
{
    assert(line =~= line.subrange(0, x) + line.subrange(x, y) + line.subrange(
        y,
        line.len() as int,
    ));
    lemma_count_char_concat(line.subrange(0, x) + line.subrange(x, y), line.subrange(y, line.len() as int), c);
    lemma_count_char_concat(line.subrange(0, x), line.subrange(x, y), c);
    lemma_count_char_nonneg(line.subrange(0, x), c);
    lemma_count_char_nonneg(line.subrange(x, y), c);
    lemma_count_char_nonneg(line.subrange(y, line.len() as int), c);
}

pub proof fn lemma_count_char_rep(ch: char, n: nat, c: char)
    requires
        c != ch,
    ensures
        count_char(char_rep(ch, n), c) == 0,
    decreases n,
{
    if n > 0 {
        lemma_count_char_rep(ch, (n - 1) as nat, c);
        assert(char_rep(ch, n).drop_last() =~= char_rep(ch, (n - 1) as nat));
    }
}

pub proof fn lemma_concat_segments_push(parts: Seq<Seq<char>>, p: Seq<char>)
    ensures
        concat_segments(parts.push(p)) == concat_segments(parts) + p,
{
    assert(parts.push(p).drop_last() =~= parts);
}

/// The highlight-start marker as a string slice.
pub fn highlight_start() -> (r: &'static str)
    ensures
        r@ == start_marker(),
{
    let s = "\x1b[32m";
    proof {
        reveal_strlit("\x1b[32m");
        assert(s@ =~= start_marker());
    }
    s
}

/// The highlight-end marker as a string slice.
pub fn highlight_end() -> (r: &'static str)
    ensures
        r@ == end_marker(),
{
    let s = "\x1b[0m";
    proof {
        reveal_strlit("\x1b[0m");
        assert(s@ =~= end_marker());
    }
    s
}

/// Appends `n` copies of the single character held by `piece` to `s`.
pub fn push_repeat(s: &mut String, piece: &str, n: usize)
    requires
        piece@.len() == 1,
    ensures
        final(s)@ == old(s)@ + char_rep(piece@[0], n as nat),
{
    proof {
        assert(old(s)@ + char_rep(piece@[0], 0) =~= old(s)@);
    }
    let mut i: usize = 0;
    while i < n
        invariant
            i <= n,
            s@ == old(s)@ + char_rep(piece@[0], i as nat),
        decreases n - i,
    {
        s.append(piece);
        proof {
            assert(old(s)@ + char_rep(piece@[0], i as nat) + piece@ =~= old(s)@ + char_rep(
                piece@[0],
                (i + 1) as nat,
            ));
        }
        i = i + 1;
    }
}

/// Relies on itertools' `Itertools::join` with an empty separator: the
/// result is the concatenation, in order, of the `Display` output of the
/// elements, and a `String`'s `Display` output is its own contents.
#[verifier::external_body]
pub(crate) fn join_segments(parts: &Vec<String>) -> (r: String)
    ensures
        r@ == concat_segments(parts.deep_view()),
{
    parts.iter().join("")
}

} // verus!
