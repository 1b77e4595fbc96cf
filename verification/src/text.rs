//! Sequences of characters: the shared vocabulary of the string functions.

use vstd::prelude::*;

verus! {

/// `text` with every occurrence of `mark` written twice.
pub open spec fn doubled(text: Seq<char>, mark: char) -> Seq<char>
    decreases text.len(),
{
    if text.len() == 0 {
        Seq::empty()
    } else if text.last() == mark {
        doubled(text.drop_last(), mark).push(mark).push(mark)
    } else {
        doubled(text.drop_last(), mark).push(text.last())
    }
}

/// Doubling goes from left to right.
pub proof fn doubled_concatenates(first: Seq<char>, second: Seq<char>, mark: char)
    ensures
        doubled(first + second, mark) == doubled(first, mark) + doubled(second, mark),
    decreases second.len(),
{
    if second.len() == 0 {
        assert(first + second =~= first);
    } else {
        assert((first + second).drop_last() =~= first + second.drop_last());
        doubled_concatenates(first, second.drop_last(), mark);
    }
}

/// What doubling makes of one character.
pub proof fn doubled_of_one(c: char, mark: char)
    ensures
        doubled(seq![c], mark) == (if c == mark {
            seq![c, c]
        } else {
            seq![c]
        }),
{
    assert(seq![c].drop_last() =~= Seq::empty());
    assert(doubled(seq![c].drop_last(), mark) =~= Seq::empty());
}

/// `std::string::String::from_iter` on a vector of characters: the string holds
/// exactly these characters, in this order.
#[verifier::external_body]
pub(crate) fn string_from_chars(chars: Vec<char>) -> (s: String)
    ensures
        s@ == chars@,
{
    String::from_iter(chars)
}

/// The characters of `s`, in order.
pub fn chars_of(s: &str) -> (chars: Vec<char>)
    ensures
        chars@ == s@,
{
    let mut chars: Vec<char> = Vec::new();
    for c in it: s.chars()
        invariant
            chars@ == it.seq().take(it.index() as int),
            it.seq() == s@,
    {
        chars.push(c);
    }
    chars
}

/// Writes every occurrence of `mark` in `chars` twice.
pub fn double_char(chars: &Vec<char>, mark: char) -> (out: Vec<char>)
    ensures
        out@ == doubled(chars@, mark),
{
    let mut out: Vec<char> = Vec::new();
    for i in 0..chars.len()
        invariant
            out@ == doubled(chars@.take(i as int), mark),
    {
        assert(chars@.take(i + 1).drop_last() =~= chars@.take(i as int));
        let c = chars[i];
        out.push(c);
        if c == mark {
            out.push(c);
        }
    }
    assert(chars@.take(chars@.len() as int) =~= chars@);
    out
}

/// Doubling is a replacement: each occurrence of the mark gives way to two of it, and
/// every other character stays.
pub proof fn doubling_is_a_replacement(text: Seq<char>, mark: char)
    ensures
        doubled(text, mark) == text.flat_map(
            |c: char|
                if c == mark {
                    seq![mark, mark]
                } else {
                    seq![c]
                },
        ),
    decreases text.len(),
{
    let replace = |c: char|
        if c == mark {
            seq![mark, mark]
        } else {
            seq![c]
        };
    if text.len() > 0 {
        let rest = text.drop_last();
        doubling_is_a_replacement(rest, mark);
        assert(text =~= rest.push(text.last()));
        rest.lemma_flat_map_push(replace, text.last());
        assert(doubled(text, mark) =~= rest.flat_map(replace) + replace(text.last()));
    }
}

} // verus!
