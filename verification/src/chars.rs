//! What the standard library knows of a character's case. The tables behind
//! it are Unicode's; the verifier takes the two answers as given.

use vstd::prelude::*;

verus! {

/// Whether a character is uppercase, as `char::is_uppercase` decides it.
pub uninterp spec fn uppercase(chr: char) -> bool;

/// The lowercase mapping of a character, as `char::to_lowercase` yields it.
pub uninterp spec fn lowercase_of(chr: char) -> Seq<char>;

/// `char::is_uppercase`: the answer depends on the character alone.
#[verifier::external_body]
pub(crate) fn is_uppercase(chr: char) -> (upper: bool)
    ensures
        upper == uppercase(chr),
{
    chr.is_uppercase()
}

/// `char::to_lowercase`, collected: the characters of the lowercase mapping
/// in the order in which the iterator yields them. The mapping has at least
/// one character.
#[verifier::external_body]
pub(crate) fn to_lowercase(chr: char) -> (lower: Vec<char>)
    ensures
        lower@ == lowercase_of(chr),
        lower@.len() >= 1,
{
    chr.to_lowercase().collect()
}

} // verus!
