//! Choosing between a long and a columnar directory listing by the room
//! on the screen.

use crate::text::chars_of;
use vstd::prelude::*;

verus! {

/// The two forms of a listing.
#[derive(Clone, Copy, Debug, PartialEq, Eq, Structural)]
pub enum Listing {
    /// One entry per line, with its details.
    Long,
    /// Names only, arranged in columns.
    Columns,
}

/// The shells whose prompt can be measured.
#[derive(Clone, Copy, Debug, PartialEq, Eq, Structural)]
pub enum Shell {
    /// The prompt is what the shell's prompt function prints.
    Fish,
    /// The prompt is held in a variable of the environment.
    Bash,
}

/// The number of line feeds in `text`.
pub open spec fn line_feeds(text: Seq<char>) -> nat
    decreases text.len(),
{
    if text.len() == 0 {
        0
    } else {
        line_feeds(text.drop_last()) + if text.last() == '\n' {
            1nat
        } else {
            0nat
        }
    }
}

/// The number of lines of `text`: a line ends at a line feed, and at the
/// end of the text if anything stands after the last line feed.
pub open spec fn spec_line_count(text: Seq<char>) -> nat {
    line_feeds(text) + if text.len() > 0 && text.last() != '\n' {
        1nat
    } else {
        0nat
    }
}

/// A text has no more lines than characters.
pub proof fn lemma_line_count_bounded(text: Seq<char>)
    ensures
        line_feeds(text) <= text.len(),
        spec_line_count(text) <= text.len(),
    decreases text.len(),
{
    if text.len() > 0 {
        lemma_line_count_bounded(text.drop_last());
    }
}

/// Counts the lines of `text`.
pub fn line_count(text: &str) -> (count: usize)
    ensures
        count == spec_line_count(text@),
{
    let chars = chars_of(text);
    let mut feeds: usize = 0;
    let mut i: usize = 0;
    while i < chars.len()
        invariant
            i <= chars.len(),
            feeds == line_feeds(chars@.take(i as int)),
            feeds <= i,
        decreases chars.len() - i,
    {
        assert(chars@.take(i + 1).drop_last() =~= chars@.take(i as int));
        if chars[i] == '\n' {
            feeds = feeds + 1;
        }
        i = i + 1;
    }
    assert(chars@.take(chars.len() as int) =~= chars@);
    proof {
        lemma_line_count_bounded(chars@);
    }
    if chars.len() > 0 && chars[chars.len() - 1] != '\n' {
        feeds + 1
    } else {
        feeds
    }
}

/// The long listing is chosen if its lines and the prompt fit on a
/// screen of `height` lines together.
pub fn choose_listing(long_lines: usize, height: usize, prompt_lines: usize) -> (listing: Listing)
    requires
        prompt_lines <= height,
    ensures
        listing == if long_lines <= height - prompt_lines {
            Listing::Long
        } else {
            Listing::Columns
        },
{
    if long_lines <= height - prompt_lines {
        Listing::Long
    } else {
        Listing::Columns
    }
}

/// Tells by the name of its program which shell is in use: `fish` is
/// known by name, any other is taken for a shell in the manner of bash.
pub fn shell_named(name: &str) -> (shell: Shell)
    ensures
        shell == if name@ == "fish"@ {
            Shell::Fish
        } else {
            Shell::Bash
        },
{
    let chars = chars_of(name);
    proof {
        reveal_strlit("fish");
    }
    if chars.len() == 4 && chars[0] == 'f' && chars[1] == 'i' && chars[2] == 's' && chars[3]
        == 'h' {
        assert(name@ =~= "fish"@);
        Shell::Fish
    } else {
        Shell::Bash
    }
}

} // verus!
