use vstd::prelude::*;

verus! {

/// An error of a request, carrying the message shown to the client.
#[derive(Debug)]
pub struct Error(pub String);

impl Error {
    /// An error with the given message.
    pub fn msg(text: &str) -> (e: Error)
        ensures
            e.0@ == text@,
    {
        Error(text.to_owned())
    }
}

} // verus!
