use vstd::prelude::*;

verus! {

/// What a verified credential carries: who it names and until when it holds
/// (seconds since the Unix epoch).
#[derive(Debug)]
pub struct Claims {
    pub exp: i64,
    pub username: String,
}

impl Claims {
    pub open spec fn spec_is_current(&self, now: i64) -> bool {
        now <= self.exp
    }

    /// Whether the credential still holds at `now`: it is expired once `now`
    /// has passed its expiry.
    pub fn is_current(&self, now: i64) -> (r: bool)
        ensures
            r == self.spec_is_current(now),
    {
        now <= self.exp
    }
}

} // verus!
