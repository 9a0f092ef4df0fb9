//! Unicode normalization, done by the crate `unicode_normalization`.

use crate::text::{append_chars, chars_of, string_of};
use unicode_normalization::UnicodeNormalization;
use vstd::prelude::*;

verus! {

/// The four normalization forms.
#[derive(Clone, Copy, Debug, PartialEq, Eq, Structural)]
pub enum Normalization {
    Nfc,
    Nfd,
    Nfkc,
    Nfkd,
}

/// The characters of `text` in Unicode Normalization Form C: canonical
/// decomposition followed by canonical composition.
pub uninterp spec fn nfc_of(text: Seq<char>) -> Seq<char>;

/// The characters of `text` in Unicode Normalization Form D: canonical
/// decomposition.
pub uninterp spec fn nfd_of(text: Seq<char>) -> Seq<char>;

/// The characters of `text` in Unicode Normalization Form KC:
/// compatibility decomposition followed by canonical composition.
pub uninterp spec fn nfkc_of(text: Seq<char>) -> Seq<char>;

/// The characters of `text` in Unicode Normalization Form KD:
/// compatibility decomposition.
pub uninterp spec fn nfkd_of(text: Seq<char>) -> Seq<char>;

/// The characters of `text` in the given form.
pub open spec fn normal_form(form: Normalization, text: Seq<char>) -> Seq<char> {
    match form {
        Normalization::Nfc => nfc_of(text),
        Normalization::Nfd => nfd_of(text),
        Normalization::Nfkc => nfkc_of(text),
        Normalization::Nfkd => nfkd_of(text),
    }
}

/// Calls `UnicodeNormalization::nfc` of the crate `unicode_normalization`
/// on `text` and collects the characters that it yields. Nothing is
/// proved of it; it is taken to yield Normalization Form C of `text`, as
/// a function of the characters of `text` alone.
#[verifier::external_body]
pub(crate) fn nfc_chars(text: &str) -> (normalized: Vec<char>)
    ensures
        normalized@ == nfc_of(text@),
{
    text.nfc().collect()
}

/// Calls `UnicodeNormalization::nfd` of the crate `unicode_normalization`
/// on `text` and collects the characters that it yields. Nothing is
/// proved of it; it is taken to yield Normalization Form D of `text`, as
/// a function of the characters of `text` alone.
#[verifier::external_body]
pub(crate) fn nfd_chars(text: &str) -> (normalized: Vec<char>)
    ensures
        normalized@ == nfd_of(text@),
{
    text.nfd().collect()
}

/// Calls `UnicodeNormalization::nfkc` of the crate
/// `unicode_normalization` on `text` and collects the characters that it
/// yields. Nothing is proved of it; it is taken to yield Normalization
/// Form KC of `text`, as a function of the characters of `text` alone.
#[verifier::external_body]
pub(crate) fn nfkc_chars(text: &str) -> (normalized: Vec<char>)
    ensures
        normalized@ == nfkc_of(text@),
{
    text.nfkc().collect()
}

/// Calls `UnicodeNormalization::nfkd` of the crate
/// `unicode_normalization` on `text` and collects the characters that it
/// yields. Nothing is proved of it; it is taken to yield Normalization
/// Form KD of `text`, as a function of the characters of `text` alone.
#[verifier::external_body]
pub(crate) fn nfkd_chars(text: &str) -> (normalized: Vec<char>)
    ensures
        normalized@ == nfkd_of(text@),
{
    text.nfkd().collect()
}

/// What is written for the input at position `index` of a run of
/// inputs: its normal form, and before it the separator unless it is the
/// first.
pub open spec fn separated(
    form: Normalization,
    separator: Seq<char>,
    index: nat,
    text: Seq<char>,
) -> Seq<char> {
    if index == 0 {
        normal_form(form, text)
    } else {
        separator + normal_form(form, text)
    }
}

/// The characters of `text` in the given normalization form.
fn normal_chars(form: Normalization, text: &str) -> (normalized: Vec<char>)
    ensures
        normalized@ == normal_form(form, text@),
{
    match form {
        Normalization::Nfc => nfc_chars(text),
        Normalization::Nfd => nfd_chars(text),
        Normalization::Nfkc => nfkc_chars(text),
        Normalization::Nfkd => nfkd_chars(text),
    }
}

/// Brings `text` into the given normalization form.
pub fn normalize(form: Normalization, text: &str) -> (normalized: String)
    ensures
        normalized@ == normal_form(form, text@),
{
    string_of(&normal_chars(form, text))
}

/// Gives what is to be written for one input of a run: the inputs are
/// written in their normal form with the separator between them.
pub fn normalize_separated(
    form: Normalization,
    separator: &str,
    index: usize,
    text: &str,
) -> (piece: String)
    ensures
        piece@ == separated(form, separator@, index as nat, text@),
{
    let normalized = normal_chars(form, text);
    if index == 0 {
        string_of(&normalized)
    } else {
        let mut piece = chars_of(separator);
        append_chars(&mut piece, &normalized);
        string_of(&piece)
    }
}

} // verus!
