//! The text shown to a user for an error.

use vstd::prelude::*;

verus! {

/// An error that can be shown to a user.
pub trait ErrorMessage {
    /// The text shown for this error.
    spec fn message_text(&self) -> Seq<char>;

    /// The text shown for this error.
    fn message(&self) -> (s: String)
        ensures
            s@ == self.message_text(),
    ;
}


} // verus!
