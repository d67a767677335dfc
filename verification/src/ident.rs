//! Identifiers are stored as `InlinableString`, which keeps short names
//! inline. The type is opaque to the proofs; what they take for granted
//! about it is stated here and nowhere else.

use inlinable_string::InlinableString;
use vstd::prelude::*;

verus! {

/// `inlinable_string::InlinableString`, carried as a value whose inside no
/// proof looks into.
#[verifier::external_type_specification]
#[verifier::external_body]
pub struct ExInlinableString(InlinableString);

/// The characters an identifier holds: those of the string slice that an
/// `InlinableString` dereferences to.
pub uninterp spec fn ident_text(s: InlinableString) -> Seq<char>;

/// Trusted: collecting characters into an `InlinableString`, through its
/// `FromIterator<char>`, pushes them one by one onto an empty string, so the
/// result holds exactly those characters in that order.
#[verifier::external_body]
pub(crate) fn ident_from_chars(chars: &Vec<char>) -> (r: InlinableString)
    ensures
        ident_text(r) == chars@,
{
    chars.iter().copied().collect()
}

/// Trusted: dereferencing an `InlinableString` yields its characters as a
/// string slice.
#[verifier::external_body]
pub(crate) fn ident_as_str(s: &InlinableString) -> (r: &str)
    ensures
        r@ == ident_text(*s),
{
    let r: &str = s;
    r
}

/// Trusted: cloning an `InlinableString` clones the string it holds, so the
/// copy has the same characters.
pub assume_specification[ <InlinableString as Clone>::clone ](s: &InlinableString) -> (r:
    InlinableString)
    ensures
        ident_text(r) == ident_text(*s),
;

/// The texts of a list of identifiers.
pub open spec fn idents_text(s: Seq<InlinableString>) -> Seq<Seq<char>> {
    Seq::new(s.len(), |i: int| ident_text(s[i]))
}

} // verus!
