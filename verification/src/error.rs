//! The error type of the library.

use vstd::prelude::*;

verus! {

/// An error is the message that is shown to the user.
pub type Error = String;

} // verus!
