use vstd::prelude::*;

verus! {

/// Why something could not be done, in one message for the user.
#[derive(Debug)]
pub struct Failure {
    pub message: String,
}

impl View for Failure {
    type V = Seq<char>;

    open spec fn view(&self) -> Seq<char> {
        self.message@
    }
}

/// A failure with the given message.
pub fn failure(message: &str) -> (r: Failure)
    ensures
        r@ == message@,
{
    Failure { message: message.to_owned() }
}

/// A failure that takes over the given message.
pub fn failed(message: String) -> (r: Failure)
    ensures
        r@ == message@,
{
    Failure { message }
}

} // verus!
