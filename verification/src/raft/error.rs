use vstd::prelude::*;

verus! {

/// The one error type of the consensus core: a message that says what failed.
#[derive(Debug)]
pub struct RaftError(pub String);

pub type RaftResult<T> = Result<T, RaftError>;

impl RaftError {
    pub fn new(err: String) -> (error: Self)
        ensures
            error.0 == err,
    {
        Self(err)
    }

    /// The text of the error.
    pub open spec fn message(self) -> Seq<char> {
        self.0@
    }
}

} // verus!
