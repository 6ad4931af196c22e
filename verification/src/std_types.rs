//! Types of the standard library that the library carries through unchanged.

use std::path::PathBuf;
use std::time::Duration;
use vstd::prelude::*;

verus! {

/// A filesystem path, carried through as is.
#[verifier::external_type_specification]
#[verifier::external_body]
pub struct ExPathBuf(PathBuf);

/// `PathBuf::clone` copies the path: the copy is the same path.
pub assume_specification[ <PathBuf as Clone>::clone ](p: &PathBuf) -> (res: PathBuf)
    ensures
        res == *p,
;

/// The path that holds the text `text`.
pub uninterp spec fn path_from_text(text: Seq<char>) -> PathBuf;

/// `PathBuf::from(String)` makes the path that holds the string's text; it
/// depends on that text alone.
pub assume_specification[ <PathBuf as From<String>>::from ](s: String) -> (p: PathBuf)
    ensures
        p == path_from_text(s@),
;

/// `Duration::clone` copies the span: the copy is the same span.
pub assume_specification[ <Duration as Clone>::clone ](d: &Duration) -> (res: Duration)
    ensures
        res == *d,
;

} // verus!
