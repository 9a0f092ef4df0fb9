//! Strings as sequences of characters.

use vstd::prelude::*;

verus! {

/// `String::push` of the standard library appends the one character to
/// the end of the string.
pub assume_specification[ String::push ](text: &mut String, ch: char)
    ensures
        final(text)@ == old(text)@.push(ch),
;

/// The string that holds exactly `chars`.
pub fn string_of(chars: &Vec<char>) -> (text: String)
    ensures
        text@ == chars@,
{
    let mut text = String::new();
    let mut i: usize = 0;
    while i < chars.len()
        invariant
            i <= chars.len(),
            text@ == chars@.take(i as int),
        decreases chars.len() - i,
    {
        text.push(chars[i]);
        i = i + 1;
        assert(chars@.take(i as int) =~= chars@.take(i - 1).push(chars@[i - 1]));
    }
    assert(chars@.take(chars.len() as int) =~= chars@);
    text
}

/// The characters of `text`, one by one.
pub fn chars_of(text: &str) -> (chars: Vec<char>)
    ensures
        chars@ == text@,
{
    let mut chars: Vec<char> = Vec::new();
    for c in it: text.chars()
        invariant
            it.seq() == text@,
            chars@ == it.seq().take(it.index() as int),
    {
        chars.push(c);
        assert(it.seq().take(it.index() + 1) =~= it.seq().take(it.index() as int).push(c));
    }
    assert(text@.take(text@.len() as int) =~= text@);
    chars
}

/// Whether `text` holds `key` as its `n` characters from `pos` on.
pub fn holds_at(key: &Vec<char>, text: &Vec<char>, pos: usize, n: usize) -> (matches: bool)
    ensures
        matches == (pos + n <= text.len() && key@ == text@.subrange(pos as int, pos + n)),
{
    if n > text.len() || pos > text.len() - n || key.len() != n {
        return false;
    }
    let mut i: usize = 0;
    while i < n
        invariant
            key.len() == n,
            pos + n <= text.len(),
            i <= n,
            forall|k: int| 0 <= k < i ==> key[k] == text[pos + k],
        decreases n - i,
    {
        if key[i] != text[pos + i] {
            assert(key@[i as int] != text@.subrange(pos as int, pos + n)[i as int]);
            return false;
        }
        i = i + 1;
    }
    assert(key@ =~= text@.subrange(pos as int, pos + n));
    true
}

/// Appends `chars` to `out`.
pub fn append_chars(out: &mut Vec<char>, chars: &Vec<char>)
    ensures
        final(out)@ == old(out)@ + chars@,
{
    let mut k: usize = 0;
    while k < chars.len()
        invariant
            k <= chars.len(),
            out@ == old(out)@ + chars@.take(k as int),
        decreases chars.len() - k,
    {
        out.push(chars[k]);
        k = k + 1;
        assert(chars@.take(k as int) =~= chars@.take(k - 1).push(chars@[k - 1]));
        assert(out@ =~= old(out)@ + chars@.take(k as int));
    }
    assert(chars@.take(chars.len() as int) =~= chars@);
}

} // verus!
