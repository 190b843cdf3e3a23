use vstd::prelude::*;

verus! {

/// The one error type of the key-value store: a message that says what
/// failed.
#[derive(Debug)]
pub struct TkvError(pub String);

pub type TkvResult<T> = Result<T, TkvError>;

impl TkvError {
    /// The text of the error.
    pub open spec fn message(self) -> Seq<char> {
        self.0@
    }
}

} // verus!
