use vstd::prelude::*;

verus! {

/// Why a request to the messaging service could not be built or did not
/// succeed, for the parts decided here.
#[derive(Debug)]
pub enum Error {
    /// A request was built without one of its required parts.
    MissingRequestParam(String),
    /// The service answered with a failure code and message.
    RequestError(i64, String),
}

} // verus!
