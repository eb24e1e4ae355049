//! Unicode case mapping and normalization, which this library takes from
//! std and from the `unicode-normalization` crate.

use vstd::prelude::*;
use unicode_normalization::UnicodeNormalization;

verus! {

/// What `str::to_lowercase` makes of a string: the Unicode lowercase
/// mapping of each character (with the final-sigma rule), a function of the
/// characters alone.
pub uninterp spec fn spec_lowercase(s: Seq<char>) -> Seq<char>;

/// What `unicode_normalization`'s `nfkc()` yields for a string, collected:
/// its Unicode NFKC normal form, a function of the characters alone.
pub uninterp spec fn spec_nfkc(s: Seq<char>) -> Seq<char>;

/// Calls `str::to_lowercase`. Trusted: the result is taken to be
/// `spec_lowercase` of the argument; nothing more is stated of that mapping.
#[verifier::external_body]
pub(crate) fn to_lowercase(s: &str) -> (r: String)
    ensures
        r@ == spec_lowercase(s@),
{
    s.to_lowercase()
}

/// Calls `UnicodeNormalization::nfkc` on `s` and collects the characters.
/// Trusted: the result is taken to be `spec_nfkc` of the argument; nothing
/// more is stated of the normal form.
#[verifier::external_body]
pub(crate) fn nfkc(s: &str) -> (r: String)
    ensures
        r@ == spec_nfkc(s@),
{
    s.nfkc().collect::<String>()
}

} // verus!
