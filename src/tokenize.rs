//! Splitting one line of text into field tokens.
use vstd::prelude::*;

verus! {

/// The fields of `s`, split at every comma, in order. A text without a comma
/// is one field; an empty text is one empty field.
pub open spec fn split_commas(s: Seq<char>) -> Seq<Seq<char>>
    decreases s.len(),
{
    if s.len() == 0 {
        seq![Seq::empty()]
    } else {
        let prev = split_commas(s.drop_last());
        if s.last() == ',' {
            prev.push(Seq::empty())
        } else {
            prev.update(prev.len() - 1, prev.last().push(s.last()))
        }
    }
}

/// `t` with every line feed taken out.
pub open spec fn without_newlines(t: Seq<char>) -> Seq<char>
    decreases t.len(),
{
    if t.len() == 0 {
        t
    } else if t.last() == '\n' {
        without_newlines(t.drop_last())
    } else {
        without_newlines(t.drop_last()).push(t.last())
    }
}

/// Each token of `tokens` with its line feeds taken out.
pub open spec fn cleaned(tokens: Seq<Seq<char>>) -> Seq<Seq<char>> {
    Seq::new(tokens.len(), |i: int| without_newlines(tokens[i]))
}

/// The tokens of a line as they are used: split at commas, then cleaned.
pub open spec fn fields(line: Seq<char>) -> Seq<Seq<char>> {
    cleaned(split_commas(line))
}

/// Relies on String::push: appends one character at the end.
#[verifier::external_body]
pub(crate) fn push_char(s: &mut String, c: char)
    ensures
        final(s)@ == old(s)@.push(c),
{
    s.push(c)
}

/// Splits `line` at every comma. The tokens keep any line feed they hold.
pub fn split_line(line: &str) -> (tokens: Vec<String>)
    ensures
        tokens.deep_view() == split_commas(line@),
{
    let mut tokens: Vec<String> = Vec::new();
    let mut current = String::new();
    for c in it: line.chars()
        invariant
            it.seq() == line@,
            tokens.deep_view().push(current@) == split_commas(line@.take(it.index() as int)),
    {
        let ghost pre = line@.take(it.index() as int);
        let ghost next = line@.take(it.index() + 1);
        proof {
            assert(next.drop_last() =~= pre);
            assert(next.last() == c);
        }
        if c == ',' {
            let done = current;
            tokens.push(done);
            current = String::new();
            assert(tokens.deep_view().push(current@) =~= split_commas(next));
        } else {
            push_char(&mut current, c);
            assert(tokens.deep_view().push(current@) =~= split_commas(next));
        }
    }
    proof {
        assert(line@.take(line@.len() as int) =~= line@);
    }
    tokens.push(current);
    assert(tokens.deep_view() =~= split_commas(line@));
    tokens
}

/// Takes every line feed out of `token`.
pub fn strip_newlines(token: &str) -> (r: String)
    ensures
        r@ == without_newlines(token@),
{
    let mut r = String::new();
    for c in it: token.chars()
        invariant
            it.seq() == token@,
            r@ == without_newlines(token@.take(it.index() as int)),
    {
        let ghost next = token@.take(it.index() + 1);
        proof {
            assert(next.drop_last() =~= token@.take(it.index() as int));
        }
        if c != '\n' {
            push_char(&mut r, c);
        }
    }
    proof {
        assert(token@.take(token@.len() as int) =~= token@);
    }
    r
}

} // verus!
