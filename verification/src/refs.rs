//! Git reference names, as `git2` judges them.
use vstd::prelude::*;

verus! {

/// `git2::Reference::is_valid_name` accepts `name`.
pub uninterp spec fn git_ref_name_valid(name: Seq<char>) -> bool;

/// Calls `git2::Reference::is_valid_name`; the result is the named judgement.
/// That function panics on a name holding a NUL character, which `requires` rules out.
#[verifier::external_body]
pub(crate) fn ref_name_is_valid(name: &str) -> (r: bool)
    requires
        !name@.contains('\0'),
    ensures
        r == git_ref_name_valid(name@),
{
    git2::Reference::is_valid_name(name)
}

} // verus!
