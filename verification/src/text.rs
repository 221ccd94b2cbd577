//! Text building blocks of the image format: whole numbers in decimal, and
//! lines joined by a separator.
use vstd::prelude::*;
use itertools::Itertools;

verus! {

/// The character of one decimal digit.
pub open spec fn digit(d: nat) -> char
    recommends
        d < 10,
{
    seq!['0', '1', '2', '3', '4', '5', '6', '7', '8', '9'][d as int]
}

/// A whole number in decimal: most significant digit first, no sign, no
/// padding, and the single digit `0` for zero.
pub open spec fn decimal(n: nat) -> Seq<char>
    decreases n,
{
    if n < 10 {
        seq![digit(n)]
    } else {
        decimal(n / 10).push(digit(n % 10))
    }
}

/// The parts in order, with the separator between every two neighbours and
/// nowhere else.
pub open spec fn joined(parts: Seq<Seq<char>>, sep: Seq<char>) -> Seq<char>
    decreases parts.len(),
{
    if parts.len() == 0 {
        Seq::empty()
    } else if parts.len() == 1 {
        parts[0]
    } else {
        joined(parts.drop_last(), sep) + sep + parts.last()
    }
}

/// The number of line feeds in a text.
pub open spec fn line_feeds(text: Seq<char>) -> nat
    decreases text.len(),
{
    if text.len() == 0 {
        0
    } else {
        line_feeds(text.drop_last()) + if text.last() == '\n' {
            1nat
        } else {
            0nat
        }
    }
}

/// What each string of a list holds.
pub open spec fn contents(parts: Seq<String>) -> Seq<Seq<char>> {
    Seq::new(parts.len(), |i: int| parts[i]@)
}

/// The one-character text of a decimal digit.
fn digit_str(d: u32) -> (s: &'static str)
    requires
        d < 10,
    ensures
        s@ == seq![digit(d as nat)],
{
    proof {
        reveal_strlit("0");
        reveal_strlit("1");
        reveal_strlit("2");
        reveal_strlit("3");
        reveal_strlit("4");
        reveal_strlit("5");
        reveal_strlit("6");
        reveal_strlit("7");
        reveal_strlit("8");
        reveal_strlit("9");
    }
    let s: &'static str = if d == 0 {
        "0"
    } else if d == 1 {
        "1"
    } else if d == 2 {
        "2"
    } else if d == 3 {
        "3"
    } else if d == 4 {
        "4"
    } else if d == 5 {
        "5"
    } else if d == 6 {
        "6"
    } else if d == 7 {
        "7"
    } else if d == 8 {
        "8"
    } else {
        "9"
    };
    assert(s@ =~= seq![digit(d as nat)]);
    s
}

/// Appends `n` in decimal to `text`.
pub(crate) fn push_decimal(text: &mut String, n: u32)
    ensures
        final(text)@ == old(text)@ + decimal(n as nat),
    decreases n,
{
    if n >= 10 {
        push_decimal(text, n / 10);
    }
    text.append(digit_str(n % 10));
    assert(text@ =~= old(text)@ + decimal(n as nat));
}

/// Appends one space to `text`.
pub(crate) fn push_space(text: &mut String)
    ensures
        final(text)@ == old(text)@.push(' '),
{
    proof {
        reveal_strlit(" ");
    }
    text.append(" ");
    assert(text@ =~= old(text)@.push(' '));
}

/// Joins `parts` with `sep` between them, by `Itertools::join` of the
/// itertools crate. That function writes the first part, then for each later
/// part the separator and the part; the contract says so through
/// [`joined`]. It reserves `sep.len()` bytes per remaining part up front,
/// which is why the product of the two lengths is bounded here.
#[verifier::external_body]
pub(crate) fn join(parts: &Vec<String>, sep: &str) -> (text: String)
    requires
        sep.is_ascii(),
        sep@.len() * parts@.len() <= isize::MAX,
    ensures
        text@ == joined(contents(parts@), sep@),
{
    parts.iter().join(sep)
}

/// The line feeds of two texts put together are those of the one and those
/// of the other.
pub proof fn lemma_line_feeds_add(a: Seq<char>, b: Seq<char>)
    ensures
        line_feeds(a + b) == line_feeds(a) + line_feeds(b),
    decreases b.len(),
{
    if b.len() == 0 {
        assert(a + b =~= a);
    } else {
        assert((a + b).drop_last() =~= a + b.drop_last());
        lemma_line_feeds_add(a, b.drop_last());
    }
}

/// A text of one character holds a line feed if that character is one.
pub proof fn lemma_line_feeds_one(c: char)
    ensures
        line_feeds(seq![c]) == if c == '\n' {
            1nat
        } else {
            0nat
        },
{
    reveal_with_fuel(line_feeds, 2);
    assert(seq![c].drop_last() =~= Seq::<char>::empty());
}

/// A number in decimal holds no line feed.
pub proof fn lemma_decimal_is_one_line(n: nat)
    ensures
        line_feeds(decimal(n)) == 0,
    decreases n,
{
    if n < 10 {
        lemma_line_feeds_one(digit(n));
    } else {
        lemma_decimal_is_one_line(n / 10);
        lemma_line_feeds_one(digit(n % 10));
        lemma_line_feeds_add(decimal(n / 10), seq![digit(n % 10)]);
        assert(decimal(n) =~= decimal(n / 10) + seq![digit(n % 10)]);
    }
}

/// Lines joined by line feeds hold one line feed less than there are
/// lines, provided no line holds one itself.
pub proof fn lemma_joined_line_feeds(lines: Seq<Seq<char>>)
    requires
        lines.len() >= 1,
        forall|i: int| 0 <= i < lines.len() ==> line_feeds(#[trigger] lines[i]) == 0,
    ensures
        line_feeds(joined(lines, seq!['\n'])) == lines.len() - 1,
    decreases lines.len(),
{
    if lines.len() > 1 {
        let front = lines.drop_last();
        assert forall|i: int| 0 <= i < front.len() implies line_feeds(#[trigger] front[i]) == 0 by {
            assert(front[i] == lines[i]);
        }
        lemma_joined_line_feeds(front);
        lemma_line_feeds_one('\n');
        lemma_line_feeds_add(joined(front, seq!['\n']), seq!['\n']);
        lemma_line_feeds_add(joined(front, seq!['\n']) + seq!['\n'], lines.last());
    }
}

} // verus!
