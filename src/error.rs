use vstd::prelude::*;

verus! {

/// Why an operation on the ledger was refused. A refused operation changes nothing.
#[derive(Clone, Copy, Debug, PartialEq, Eq, Structural)]
pub enum Error {
    /// The caller neither owns the token nor holds an approval for it.
    PermissionDenied,
    /// The batch is malformed, or names a token that has no owner.
    WrongArguments,
    /// A token to be minted is already live.
    TokenIdAlreadyExists,
    /// The token is not live.
    TokenIdDoesntExist,
}

impl Error {
    /// The numeric code under which a host reports this error.
    pub open spec fn spec_code(self) -> u16 {
        match self {
            Error::PermissionDenied => 1,
            Error::WrongArguments => 2,
            Error::TokenIdAlreadyExists => 3,
            Error::TokenIdDoesntExist => 4,
        }
    }

    pub fn code(&self) -> (r: u16)
        ensures
            r == self.spec_code(),
    {
        match self {
            Error::PermissionDenied => 1,
            Error::WrongArguments => 2,
            Error::TokenIdAlreadyExists => 3,
            Error::TokenIdDoesntExist => 4,
        }
    }
}

} // verus!
