use vstd::prelude::*;

use crate::jwt::Claims;
use crate::message::Message;
use crate::channel::{bound_of, SLOT_CAPACITY};
use crate::registry::{
    fanned_out, is_registered, unique_identities, without, Connections, Outcome, Subscriber,
};
use tokio::sync::mpsc::Receiver;

verus! {

/// Why a join was refused.
#[derive(Debug, Clone, Copy, PartialEq, Eq, Structural)]
pub enum JoinError {
    /// The identity already has a live session.
    AlreadyConnected,
    /// The credential was rejected by the verifier or has expired.
    Unauthenticated,
}

/// The relay: the secret that credentials are signed with and the registry of
/// live sessions.
pub struct HeyoChat {
    jwt_secret: String,
    connections: Connections,
}

/// Whether a join that carries `credential` is authenticated at `now`: the
/// verifier accepted it and it has not expired.
pub open spec fn authenticated(credential: Option<Claims>, now: i64) -> bool {
    credential matches Some(c) && c.spec_is_current(now)
}

impl View for HeyoChat {
    type V = Seq<Subscriber>;

    closed spec fn view(&self) -> Seq<Subscriber> {
        self.connections@
    }
}

impl HeyoChat {
    pub closed spec fn secret(&self) -> Seq<char> {
        self.jwt_secret@
    }

    /// At most one live session per identity.
    pub open spec fn wf(&self) -> bool {
        unique_identities(self@)
    }

    /// A relay with no session, whose credentials are signed with `jwt_secret`.
    pub fn new(jwt_secret: String) -> (r: HeyoChat)
        ensures
            r.wf(),
            r@ == Seq::<Subscriber>::empty(),
            r.secret() == jwt_secret@,
    {
        HeyoChat { jwt_secret, connections: Connections::new() }
    }

    /// The secret that credentials are signed with.
    pub fn jwt_secret(&self) -> (r: &String)
        ensures
            r@ == self.secret(),
    {
        &self.jwt_secret
    }

    /// Whether `identity` has a live session.
    pub fn is_connected(&self, identity: &String) -> (r: bool)
        requires
            self.wf(),
        ensures
            r == is_registered(self@, identity@),
    {
        self.connections.contains(identity)
    }

    /// The identities of all live sessions, in order of joining.
    pub fn roster(&self) -> (r: Vec<String>)
        ensures
            r@.map_values(|s: String| s@) == crate::registry::identities(self@),
    {
        self.connections.roster()
    }

    /// Opens a session for `identity` and hands back the consuming end of its
    /// subscriber channel, unless the identity already has a live session.
    pub fn join_identity(&mut self, identity: String) -> (r: Result<Receiver<Message>, JoinError>)
        requires
            old(self).wf(),
        ensures
            final(self).wf(),
            final(self).secret() == old(self).secret(),
            r is Ok <==> !is_registered(old(self)@, identity@),
            r is Err ==> r == Err::<Receiver<Message>, JoinError>(JoinError::AlreadyConnected)
                && final(self)@ == old(self)@,
            r is Ok ==> final(self)@.drop_last() == old(self)@ && final(self)@.len() == old(
                self,
            )@.len() + 1 && final(self)@.last().identity@ == identity@,
            r is Ok ==> bound_of(final(self)@.last().tx) == SLOT_CAPACITY,
            r is Ok ==> final(self)@.last().queued@ == Seq::<(Seq<char>, Seq<char>)>::empty(),
    {
        match self.connections.register(identity) {
            Ok(rx) => Ok(rx),
            Err(_) => Err(JoinError::AlreadyConnected),
        }
    }

    /// Opens a session for the identity that `credential` names. `credential`
    /// is what the verifier made of the token (`None` when it rejected the
    /// signature); a credential that has expired at `now` is refused too.
    /// Nothing changes on a refused join.
    pub fn join(&mut self, credential: Option<Claims>, now: i64) -> (r: Result<
        Receiver<Message>,
        JoinError,
    >)
        requires
            old(self).wf(),
        ensures
            final(self).wf(),
            final(self).secret() == old(self).secret(),
            r is Err ==> final(self)@ == old(self)@,
            !authenticated(credential, now) ==> r == Err::<Receiver<Message>, JoinError>(
                JoinError::Unauthenticated,
            ),
            authenticated(credential, now) ==> {
                let id = credential->Some_0.username@;
                &&& r is Ok <==> !is_registered(old(self)@, id)
                &&& r is Err ==> r == Err::<Receiver<Message>, JoinError>(
                    JoinError::AlreadyConnected,
                )
                &&& r is Ok ==> final(self)@.drop_last() == old(self)@ && final(self)@.len()
                    == old(self)@.len() + 1 && final(self)@.last().identity@ == id
                &&& r is Ok ==> bound_of(final(self)@.last().tx) == SLOT_CAPACITY
                &&& r is Ok ==> final(self)@.last().queued@ == Seq::<
                    (Seq<char>, Seq<char>),
                >::empty()
            },
    {
        match credential {
            None => Err(JoinError::Unauthenticated),
            Some(claims) => {
                if !claims.is_current(now) {
                    return Err(JoinError::Unauthenticated);
                }
                self.join_identity(claims.username)
            },
        }
    }

    /// Publishes `msg` to every live session, the sender's own included. The
    /// publish itself never fails: each live session is offered one copy, and
    /// the report gives, in order of joining, whether it was queued or dropped.
    pub fn send_message(&mut self, msg: Message) -> (r: Vec<Outcome>)
        requires
            old(self).wf(),
        ensures
            final(self).wf(),
            final(self).secret() == old(self).secret(),
            fanned_out(old(self)@, final(self)@, r@, msg@),
    {
        self.connections.broadcast(&msg)
    }

    /// Ends the session of `identity`, freeing its slot. Leaving twice, or
    /// leaving without a session, does nothing.
    pub fn leave(&mut self, identity: &String)
        requires
            old(self).wf(),
        ensures
            final(self).wf(),
            final(self).secret() == old(self).secret(),
            final(self)@ == without(old(self)@, identity@),
            !is_registered(final(self)@, identity@),
    {
        self.connections.unregister(identity)
    }
}

} // verus!
