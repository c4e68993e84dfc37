use vstd::prelude::*;

verus! {

/// A published message: who sent it and what it says.
#[derive(Debug)]
pub struct Message {
    pub sender: String,
    pub body: String,
}

impl View for Message {
    /// Sender and body.
    type V = (Seq<char>, Seq<char>);

    open spec fn view(&self) -> (Seq<char>, Seq<char>) {
        (self.sender@, self.body@)
    }
}

impl Message {
    pub fn new(sender: String, body: String) -> (r: Message)
        ensures
            r.sender@ == sender@,
            r.body@ == body@,
    {
        Message { sender, body }
    }

    /// A copy for one recipient of a fan-out; the original stays untouched.
    pub fn duplicate(&self) -> (r: Message)
        ensures
            r.sender@ == self.sender@,
            r.body@ == self.body@,
            r@ == self@,
    {
        Message { sender: self.sender.clone(), body: self.body.clone() }
    }
}

} // verus!
