//! What a request settles before it reads the clock: the checks that need no
//! timestamp, whose outcome stands whatever the clock reads.

use vstd::prelude::*;
use crate::error::{AppError, ErrorView};
use crate::text::{trim_text, trim_view};

verus! {

/// `r` is the outcome `s` gives: nothing settled, the same success, or the
/// same error.
pub open spec fn settles_as(r: Option<Result<(), AppError>>, s: Option<Result<(), ErrorView>>) -> bool {
    match (r, s) {
        (None, None) => true,
        (Some(Ok(_)), Some(Ok(_))) => true,
        (Some(Err(x)), Some(Err(e))) => x@ == e,
        _ => false,
    }
}

/// A text that trims to nothing is refused with `message`.
pub open spec fn blank_settled(text: Seq<char>, message: Seq<char>) -> Option<Result<(), ErrorView>> {
    if trim_view(text).len() == 0 {
        Some(Err(ErrorView::Validation(message)))
    } else {
        None
    }
}

/// Refuses a blank text, as `blank_settled` says.
pub fn settle_blank(text: &str, message: &str) -> (r: Option<Result<(), AppError>>)
    ensures
        settles_as(r, blank_settled(text@, message@)),
{
    if trim_text(text).is_empty() {
        Some(Err(AppError::Validation(message.to_owned())))
    } else {
        None
    }
}

} // verus!
