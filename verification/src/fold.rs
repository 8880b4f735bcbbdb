use vstd::prelude::*;

verus! {

/// The case-folded (lowercased) form of a character sequence, as computed by
/// the standard library's Unicode lowercase mapping. The mapping is left
/// unspecified here; contracts relate stored values to it by name.
pub uninterp spec fn lower_of(s: Seq<char>) -> Seq<char>;

/// Relies on str::to_lowercase: the result is the Unicode lowercase mapping of
/// the input, a function of the input characters alone; every character maps
/// to at least one character, so the result is empty exactly when the input is.
#[verifier::external_body]
pub(crate) fn lowercase(s: &str) -> (r: String)
    ensures
        r@ == lower_of(s@),
        s@.len() == 0 <==> r@.len() == 0,
{
    s.to_lowercase()
}

} // verus!
