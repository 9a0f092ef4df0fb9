//! Writing a path from its last component to its first.

use crate::text::{append_chars, chars_of, string_of};
use vstd::prelude::*;

verus! {

/// The first `count` components from last to first, each followed by the
/// separator; only the first component of a path that does not start at
/// the root stands bare.
pub open spec fn reversed_components(
    components: Seq<String>,
    separator: Seq<char>,
    absolute: bool,
    count: nat,
) -> Seq<char>
    decreases count,
{
    if count == 0 || count > components.len() {
        Seq::empty()
    } else if count == 1 && !absolute {
        components[0]@
    } else {
        components[count - 1]@ + separator + reversed_components(
            components,
            separator,
            absolute,
            (count - 1) as nat,
        )
    }
}

/// The path written backwards. The root alone is written as the
/// separator.
pub open spec fn spec_reversed_path(
    components: Seq<String>,
    separator: Seq<char>,
    absolute: bool,
) -> Seq<char> {
    if components.len() == 0 {
        separator
    } else {
        reversed_components(components, separator, absolute, components.len())
    }
}

/// Writes the path with the given components, named from the root down,
/// from its last component to its first.
pub fn reversed_path(components: &Vec<String>, separator: &str, absolute: bool) -> (reversed:
    String)
    ensures
        reversed@ == spec_reversed_path(components@, separator@, absolute),
{
    let sep = chars_of(separator);
    if components.len() == 0 {
        return string_of(&sep);
    }
    let mut out: Vec<char> = Vec::new();
    let mut count: usize = components.len();
    assert(out@ + reversed_components(components@, sep@, absolute, count as nat)
        =~= reversed_components(components@, sep@, absolute, count as nat));
    while count > 0
        invariant
            count <= components.len(),
            sep@ == separator@,
            out@ + reversed_components(components@, sep@, absolute, count as nat)
                == reversed_components(components@, sep@, absolute, components.len() as nat),
        decreases count,
    {
        let ghost before = out@;
        let ghost rest = reversed_components(components@, sep@, absolute, count as nat);
        let component = chars_of(components[count - 1].as_str());
        append_chars(&mut out, &component);
        if count > 1 || absolute {
            append_chars(&mut out, &sep);
        }
        count = count - 1;
        assert(out@ + reversed_components(components@, sep@, absolute, count as nat) =~= before
            + rest);
    }
    assert(out@ =~= reversed_components(components@, sep@, absolute, components.len() as nat));
    string_of(&out)
}

} // verus!
