//! Texts as sequences of characters: the positions of characters and tokens.

use vstd::prelude::*;
use vstd::string::*;

verus! {

/// Whether `text` holds the character `c` at position `at`.
pub open spec fn char_at(text: Seq<char>, at: int, c: char) -> bool {
    0 <= at < text.len() && text[at] == c
}

/// Whether `text` holds all of `token` from position `at` on.
pub open spec fn token_at(text: Seq<char>, at: int, token: Seq<char>) -> bool {
    &&& 0 <= at
    &&& at + token.len() <= text.len()
    &&& text.subrange(at, at + token.len()) == token
}

/// The first position at or after `from` where `text` holds `c`, or the
/// length of `text` where it holds none.
pub open spec fn first_index(text: Seq<char>, from: int, c: char) -> int
    decreases text.len() - from,
{
    if from < 0 || from >= text.len() {
        text.len() as int
    } else if text[from] == c {
        from
    } else {
        first_index(text, from + 1, c)
    }
}

/// `first_index` is the least position from `from` on that holds `c`.
pub proof fn lemma_first_index(text: Seq<char>, from: int, c: char)
    requires
        0 <= from <= text.len(),
    ensures
        from <= first_index(text, from, c) <= text.len(),
        first_index(text, from, c) < text.len() ==> text[first_index(text, from, c)] == c,
        forall|i: int| from <= i < first_index(text, from, c) ==> text[i] != c,
    decreases text.len() - from,
{
    if from < text.len() && text[from] != c {
        lemma_first_index(text, from + 1, c);
    }
}

/// The characters of a string slice.
pub fn to_chars(s: &str) -> (chars: Vec<char>)
    ensures
        chars@ == s@,
{
    let mut chars: Vec<char> = Vec::new();
    for c in it: s.chars()
        invariant
            chars@ == it.seq().take(it.index() as int),
            it.seq() == s@,
    {
        chars.push(c);
    }
    chars
}

/// Whether `text` holds all of `token` from position `at` on.
pub fn holds_at(text: &Vec<char>, at: usize, token: &Vec<char>) -> (r: bool)
    ensures
        r == token_at(text@, at as int, token@),
{
    if token.len() > text.len() || at > text.len() - token.len() {
        return false;
    }
    let mut i: usize = 0;
    while i < token.len()
        invariant
            i <= token.len(),
            at + token.len() <= text.len(),
            forall|j: int| 0 <= j < i ==> text@[at + j] == token@[j],
        decreases token.len() - i,
    {
        if text[at + i] != token[i] {
            proof {
                let part = text@.subrange(at as int, at + token.len());
                assert(part[i as int] == text@[at + i]);
            }
            return false;
        }
        i += 1;
    }
    assert(text@.subrange(at as int, at + token.len()) =~= token@);
    true
}

/// Whether two texts hold the same characters.
pub fn same_text(a: &str, b: &str) -> (r: bool)
    ensures
        r == (a@ == b@),
{
    let left = to_chars(a);
    let right = to_chars(b);
    if left.len() != right.len() {
        return false;
    }
    let same = holds_at(&left, 0, &right);
    proof {
        assert(left@.subrange(0, left@.len() as int) =~= left@);
    }
    same
}

/// The first position at or after `from` where `text` holds `c`, or the
/// length of `text` where it holds none.
pub fn find_from(text: &Vec<char>, from: usize, c: char) -> (r: usize)
    requires
        from <= text.len(),
    ensures
        r == first_index(text@, from as int, c),
        from <= r <= text.len(),
{
    let mut i: usize = from;
    while i < text.len() && text[i] != c
        invariant
            from <= i <= text.len(),
            first_index(text@, from as int, c) == first_index(text@, i as int, c),
        decreases text.len() - i,
    {
        i += 1;
    }
    i
}

} // verus!
