use vstd::prelude::*;

verus! {

/// A failure of the transport; the cause is kept as text.
#[derive(Debug)]
pub enum NetworkError {
    ConnectionError(String),
    Other(String),
}

impl NetworkError {
    pub open spec fn spec_describe(&self) -> Seq<char> {
        match self {
            NetworkError::ConnectionError(cause) => "NetworkError: "@ + cause@,
            NetworkError::Other(msg) => "NetworkError: "@ + msg@,
        }
    }

    /// A one-line description of the error.
    pub fn describe(&self) -> (r: String)
        ensures
            r@ == self.spec_describe(),
    {
        match self {
            NetworkError::ConnectionError(cause) => String::from_str("NetworkError: ").concat(cause.as_str()),
            NetworkError::Other(msg) => String::from_str("NetworkError: ").concat(msg.as_str()),
        }
    }
}

} // verus!
