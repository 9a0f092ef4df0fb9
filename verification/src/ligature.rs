//! Replacing letter sequences by their ligatures.

use crate::normalize::{nfc_chars, nfc_of};
use crate::text::{append_chars, chars_of, holds_at, string_of};
use vstd::prelude::*;

verus! {

/// The letter sequences and their ligatures, in the order in which they
/// are replaced: the longer sequences first, so that none is hidden by a
/// shorter one that it starts with.
pub const LIGATURES: [(&'static str, &'static str); 11] = [
    ("ffl", "ﬄ"),
    ("ffi", "ﬃ"),
    ("ſt", "ﬅ"),
    ("st", "ﬆ"),
    ("oe", "œ"),
    ("ij", "ĳ"),
    ("fl", "ﬂ"),
    ("fi", "ﬁ"),
    ("ff", "ﬀ"),
    ("OE", "Œ"),
    ("IJ", "Ĳ"),
];

/// `text` with every occurrence of `from` replaced by `to`: the
/// occurrences are found from left to right and do not overlap.
pub open spec fn replaced(text: Seq<char>, from: Seq<char>, to: Seq<char>) -> Seq<char>
    decreases text.len(),
{
    if from.len() == 0 || text.len() < from.len() {
        text
    } else if text.take(from.len() as int) == from {
        to + replaced(text.skip(from.len() as int), from, to)
    } else {
        seq![text[0]] + replaced(text.skip(1), from, to)
    }
}

/// `text` after the first `count` replacements of `pairs` were made, one
/// after the other.
pub open spec fn replaced_by(
    text: Seq<char>,
    pairs: Seq<(&'static str, &'static str)>,
    count: nat,
) -> Seq<char>
    decreases count,
{
    if count == 0 || count > pairs.len() {
        text
    } else {
        replaced(
            replaced_by(text, pairs, (count - 1) as nat),
            pairs[count - 1].0@,
            pairs[count - 1].1@,
        )
    }
}

/// A text that holds `from` nowhere comes back unchanged.
pub proof fn lemma_replaced_without_match(text: Seq<char>, from: Seq<char>, to: Seq<char>)
    requires
        forall|i: int|
            0 <= i && i + from.len() <= text.len() ==> #[trigger] text.subrange(
                i,
                i + from.len(),
            ) != from,
    ensures
        replaced(text, from, to) == text,
    decreases text.len(),
{
    if from.len() > 0 && text.len() >= from.len() {
        assert(text.take(from.len() as int) =~= text.subrange(0int, 0int + from.len()));
        let rest = text.skip(1);
        assert forall|i: int| 0 <= i && i + from.len() <= rest.len() implies #[trigger] rest
            .subrange(i, i + from.len()) != from by {
            assert(rest.subrange(i, i + from.len()) =~= text.subrange(i + 1, i + 1 + from.len()));
        }
        lemma_replaced_without_match(rest, from, to);
        assert(seq![text[0]] + rest =~= text);
    }
}

/// Replaces every occurrence of `from` in `text` by `to`.
pub fn replace_all(text: &Vec<char>, from: &Vec<char>, to: &Vec<char>) -> (out: Vec<char>)
    ensures
        out@ == replaced(text@, from@, to@),
{
    let mut out: Vec<char> = Vec::new();
    let mut pos: usize = 0;
    assert(text@.skip(0) =~= text@);
    assert(out@ + replaced(text@, from@, to@) =~= replaced(text@, from@, to@));
    if from.len() == 0 {
        append_chars(&mut out, text);
        assert(out@ =~= text@);
        return out;
    }
    while pos < text.len()
        invariant
            from.len() > 0,
            pos <= text.len(),
            out@ + replaced(text@.skip(pos as int), from@, to@) == replaced(text@, from@, to@),
        decreases text.len() - pos,
    {
        let ghost rest = text@.skip(pos as int);
        let ghost before = out@;
        let n: usize = from.len();
        if text.len() - pos >= n && holds_at(from, text, pos, n) {
            assert(rest.take(n as int) =~= text@.subrange(pos as int, pos + n));
            append_chars(&mut out, to);
            assert(rest.skip(n as int) =~= text@.skip(pos + n));
            assert(out@ + replaced(text@.skip(pos + n), from@, to@) =~= before + replaced(
                rest,
                from@,
                to@,
            ));
            pos = pos + n;
        } else if text.len() - pos < n {
            let ghost tail = replaced(rest, from@, to@);
            assert(tail == rest);
            let mut k: usize = pos;
            while k < text.len()
                invariant
                    pos <= k <= text.len(),
                    out@ == before + text@.subrange(pos as int, k as int),
                decreases text.len() - k,
            {
                out.push(text[k]);
                k = k + 1;
                assert(out@ =~= before + text@.subrange(pos as int, k as int));
            }
            assert(text@.subrange(pos as int, text.len() as int) =~= rest);
            assert(text@.skip(text.len() as int) =~= Seq::<char>::empty());
            assert(out@ + replaced(text@.skip(text.len() as int), from@, to@) =~= before + rest);
            pos = text.len();
        } else {
            assert(rest.take(n as int) =~= text@.subrange(pos as int, pos + n));
            out.push(text[pos]);
            assert(rest.skip(1) =~= text@.skip(pos + 1));
            assert(out@ + replaced(text@.skip(pos + 1), from@, to@) =~= before + replaced(
                rest,
                from@,
                to@,
            ));
            pos = pos + 1;
        }
    }
    assert(text@.skip(text.len() as int) =~= Seq::<char>::empty());
    assert(out@ =~= replaced(text@, from@, to@));
    out
}

/// Brings `s` into Normalization Form C and replaces the letter
/// sequences of `LIGATURES` by their ligatures, one sequence after the
/// other in the order of the table.
pub fn ligaturize(s: &str) -> (ligaturized: String)
    ensures
        ligaturized@ == replaced_by(nfc_of(s@), LIGATURES@, 11),
{
    let mut text = nfc_chars(s);
    let mut i: usize = 0;
    while i < 11
        invariant
            i <= 11,
            text@ == replaced_by(nfc_of(s@), LIGATURES@, i as nat),
        decreases 11 - i,
    {
        let (from, to) = LIGATURES[i];
        let from_chars = chars_of(from);
        let to_chars = chars_of(to);
        text = replace_all(&text, &from_chars, &to_chars);
        i = i + 1;
    }
    string_of(&text)
}

} // verus!
