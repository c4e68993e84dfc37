use vstd::prelude::*;

use crate::channel::{bound_of, offer, subscriber_channel, Delivery, SLOT_CAPACITY};
use crate::message::Message;
use tokio::sync::mpsc::{Receiver, Sender};

verus! {

/// One live session as the registry sees it: the identity and the producing
/// end of that session's subscriber channel.
pub struct Subscriber {
    pub identity: String,
    pub tx: Sender<Message>,
    /// Every message queued on this channel through `tx`, oldest first.
    pub queued: Ghost<Seq<(Seq<char>, Seq<char>)>>,
}

/// One offer of `m` took `before` to `after`: the entry keeps its identity and
/// channel, and its log gains `m` exactly when the message was queued.
pub open spec fn offered(
    before: Subscriber,
    after: Subscriber,
    delivery: Delivery,
    m: (Seq<char>, Seq<char>),
) -> bool {
    &&& after.identity == before.identity
    &&& after.tx == before.tx
    &&& after.queued@ == if delivery is Queued {
        before.queued@.push(m)
    } else {
        before.queued@
    }
}

/// A fan-out of `m` took the entries `before` to `after` with `report`: every
/// entry, and no other, was offered `m` once, in order, whatever became of
/// the offers to the others.
pub open spec fn fanned_out(
    before: Seq<Subscriber>,
    after: Seq<Subscriber>,
    report: Seq<Outcome>,
    m: (Seq<char>, Seq<char>),
) -> bool {
    &&& after.len() == before.len()
    &&& report.len() == before.len()
    &&& forall|i: int|
        0 <= i < before.len() ==> (#[trigger] report[i]).recipient@ == before[i].identity@
            && offered(before[i], after[i], report[i].delivery, m)
}

/// The outcome of offering one published message to one recipient.
#[derive(Debug)]
pub struct Outcome {
    pub recipient: String,
    pub delivery: Delivery,
}

/// A join was refused because the identity already has a live session.
#[derive(Debug, Clone, Copy, PartialEq, Eq, Structural)]
pub struct Conflict;

/// The mapping from identity to subscriber channel, in order of registration.
pub struct Connections {
    users: Vec<Subscriber>,
}

/// Whether some entry of `users` is registered under `id`.
pub open spec fn is_registered(users: Seq<Subscriber>, id: Seq<char>) -> bool {
    exists|i: int| 0 <= i < users.len() && (#[trigger] users[i]).identity@ == id
}

/// No two entries share an identity.
pub open spec fn unique_identities(users: Seq<Subscriber>) -> bool {
    forall|i: int, j: int|
        0 <= i < users.len() && 0 <= j < users.len() && i != j ==> (#[trigger] users[i]).identity@
            != (#[trigger] users[j]).identity@
}

/// Whether an entry is held by an identity other than `id`.
pub open spec fn held_by_other(id: Seq<char>) -> spec_fn(Subscriber) -> bool {
    |s: Subscriber| s.identity@ != id
}

/// The entries left once `id` has been removed, in their order.
pub open spec fn without(users: Seq<Subscriber>, id: Seq<char>) -> Seq<Subscriber> {
    users.filter(held_by_other(id))
}

/// The identities of the entries, in order of registration.
pub open spec fn identities(users: Seq<Subscriber>) -> Seq<Seq<char>> {
    users.map_values(|s: Subscriber| s.identity@)
}

proof fn lemma_filter_keeps_all(s: Seq<Subscriber>, pred: spec_fn(Subscriber) -> bool)
    requires
        forall|i: int| 0 <= i < s.len() ==> pred(#[trigger] s[i]),
    ensures
        s.filter(pred) == s,
    decreases s.len(),
{
    reveal(Seq::filter);
    if s.len() > 0 {
        lemma_filter_keeps_all(s.drop_last(), pred);
        assert(s.drop_last().push(s.last()) =~= s);
    }
}

proof fn lemma_filter_drops_all(s: Seq<Subscriber>, pred: spec_fn(Subscriber) -> bool)
    requires
        forall|i: int| 0 <= i < s.len() ==> !pred(#[trigger] s[i]),
    ensures
        s.filter(pred) == Seq::<Subscriber>::empty(),
    decreases s.len(),
{
    reveal(Seq::filter);
    if s.len() > 0 {
        lemma_filter_drops_all(s.drop_last(), pred);
    }
}

/// Removing an identity that is held by the entry at `k` alone removes
/// exactly that entry.
proof fn lemma_without_at(users: Seq<Subscriber>, id: Seq<char>, k: int)
    requires
        0 <= k < users.len(),
        users[k].identity@ == id,
        unique_identities(users),
    ensures
        without(users, id) == users.remove(k),
{
    let pred = held_by_other(id);
    let a = users.subrange(0, k);
    let b = seq![users[k]];
    let c = users.subrange(k + 1, users.len() as int);
    assert(users =~= a + b + c);
    Seq::filter_distributes_over_add(a + b, c, pred);
    Seq::filter_distributes_over_add(a, b, pred);
    assert forall|i: int| 0 <= i < a.len() implies pred(#[trigger] a[i]) by {
        assert(a[i] == users[i]);
    }
    assert forall|i: int| 0 <= i < c.len() implies pred(#[trigger] c[i]) by {
        assert(c[i] == users[k + 1 + i]);
    }
    lemma_filter_keeps_all(a, pred);
    lemma_filter_keeps_all(c, pred);
    lemma_filter_drops_all(b, pred);
    assert(a + Seq::<Subscriber>::empty() =~= a);
}

/// Removing an identity that nobody holds changes nothing.
proof fn lemma_without_absent(users: Seq<Subscriber>, id: Seq<char>)
    requires
        !is_registered(users, id),
    ensures
        without(users, id) == users,
{
    let pred = held_by_other(id);
    assert forall|i: int| 0 <= i < users.len() implies pred(#[trigger] users[i]) by {
        if !pred(users[i]) {
            assert(is_registered(users, id));
        }
    }
    lemma_filter_keeps_all(users, pred);
}

/// Registration is exclusive: once an identity has been admitted it is
/// registered, so any further `register` of it is refused, and the registry
/// still holds one entry per identity.
pub proof fn lemma_register_exclusive(users: Seq<Subscriber>, admitted: Subscriber)
    requires
        unique_identities(users),
        !is_registered(users, admitted.identity@),
    ensures
        is_registered(users.push(admitted), admitted.identity@),
        unique_identities(users.push(admitted)),
{
    let after = users.push(admitted);
    assert(after[users.len() as int] == admitted);
    assert forall|i: int, j: int|
        0 <= i < after.len() && 0 <= j < after.len() && i != j implies (#[trigger] after[i]).identity@
        != (#[trigger] after[j]).identity@ by {
        if i < users.len() && j < users.len() {
            assert(after[i] == users[i] && after[j] == users[j]);
        } else if i < users.len() {
            assert(after[i] == users[i]);
        } else {
            assert(after[j] == users[j]);
        }
    }
}

/// A registration stands until its own identity is unregistered: admitting
/// anyone, or removing any other identity, leaves it registered.
pub proof fn lemma_registration_persists(
    users: Seq<Subscriber>,
    id: Seq<char>,
    other: Seq<char>,
    admitted: Subscriber,
)
    requires
        is_registered(users, id),
        other != id,
    ensures
        is_registered(users.push(admitted), id),
        is_registered(without(users, other), id),
{
    let k = choose|k: int| 0 <= k < users.len() && (#[trigger] users[k]).identity@ == id;
    assert(users.push(admitted)[k] == users[k]);
    broadcast use Seq::lemma_filter_contains;
    assert(held_by_other(other)(users[k]));
    assert(without(users, other).contains(users[k]));
    let m = choose|m: int|
        0 <= m < without(users, other).len() && without(users, other)[m] == users[k];
    assert((without(users, other)[m]).identity@ == id);
}

/// Unregistering is idempotent: a second removal of the same identity, or
/// the removal of one that was never registered, changes nothing.
pub proof fn lemma_unregister_idempotent(users: Seq<Subscriber>, id: Seq<char>)
    ensures
        without(without(users, id), id) == without(users, id),
        !is_registered(users, id) ==> without(users, id) == users,
{
    broadcast use Seq::lemma_filter_pred;
    let once = without(users, id);
    assert forall|i: int| 0 <= i < once.len() implies (#[trigger] once[i]).identity@ != id by {
        assert(held_by_other(id)(once[i]));
    }
    lemma_without_absent(once, id);
    if !is_registered(users, id) {
        lemma_without_absent(users, id);
    }
}

/// A slot is reusable: admitting an identity and then unregistering it gives
/// back the registry as it was, so the identity can be admitted again.
pub proof fn lemma_rejoin(users: Seq<Subscriber>, admitted: Subscriber)
    requires
        !is_registered(users, admitted.identity@),
    ensures
        without(users.push(admitted), admitted.identity@) == users,
        !is_registered(without(users.push(admitted), admitted.identity@), admitted.identity@),
{
    let id = admitted.identity@;
    reveal(Seq::filter);
    assert(users.push(admitted).drop_last() =~= users);
    assert(users.push(admitted).last() == admitted);
    lemma_without_absent(users, id);
}

/// Publish order is kept: after two fan-outs, of `m1` and then of `m2`, an
/// entry's log is its earlier log followed by `m1` if that copy was queued,
/// then `m2` if that one was; `m2` is never queued ahead of `m1`.
pub proof fn lemma_publish_order(
    s0: Seq<Subscriber>,
    s1: Seq<Subscriber>,
    s2: Seq<Subscriber>,
    r1: Seq<Outcome>,
    r2: Seq<Outcome>,
    m1: (Seq<char>, Seq<char>),
    m2: (Seq<char>, Seq<char>),
    i: int,
)
    requires
        fanned_out(s0, s1, r1, m1),
        fanned_out(s1, s2, r2, m2),
        0 <= i < s0.len(),
    ensures
        s2[i].identity == s0[i].identity,
        s2[i].tx == s0[i].tx,
        s2[i].queued@ == s0[i].queued@ + (if r1[i].delivery is Queued {
            seq![m1]
        } else {
            Seq::empty()
        }) + (if r2[i].delivery is Queued {
            seq![m2]
        } else {
            Seq::empty()
        }),
{
    assert(offered(s0[i], s1[i], r1[i].delivery, m1));
    assert(offered(s1[i], s2[i], r2[i].delivery, m2));
    if r1[i].delivery is Queued {
        if r2[i].delivery is Queued {
            assert(s2[i].queued@ =~= s0[i].queued@ + seq![m1] + seq![m2]);
        } else {
            assert(s2[i].queued@ =~= s0[i].queued@ + seq![m1] + Seq::empty());
        }
    } else {
        if r2[i].delivery is Queued {
            assert(s2[i].queued@ =~= s0[i].queued@ + Seq::empty() + seq![m2]);
        } else {
            assert(s2[i].queued@ =~= s0[i].queued@ + Seq::empty() + Seq::empty());
        }
    }
}

/// Fan-out is independent per recipient: whatever became of the offer to
/// another entry (its slot full, its session gone), entry `a` is still
/// offered `m`, and `m` is on its channel whenever its offer was queued.
pub proof fn lemma_fan_out_independent(
    before: Seq<Subscriber>,
    after: Seq<Subscriber>,
    report: Seq<Outcome>,
    m: (Seq<char>, Seq<char>),
    a: int,
    b: int,
)
    requires
        fanned_out(before, after, report, m),
        0 <= a < before.len(),
        0 <= b < before.len(),
        a != b,
        report[b].delivery.spec_failed(),
    ensures
        report[a].recipient@ == before[a].identity@,
        report[a].delivery is Queued ==> after[a].queued@ == before[a].queued@.push(m),
        after[b].queued@ == before[b].queued@,
{
    assert(offered(before[a], after[a], report[a].delivery, m));
    assert(offered(before[b], after[b], report[b].delivery, m));
}

/// Whether the offer recorded in an outcome failed.
pub open spec fn undelivered() -> spec_fn(Outcome) -> bool {
    |o: Outcome| o.delivery.spec_failed()
}

/// The recipients whose copy was dropped, in the order of the report.
pub open spec fn failed_of(report: Seq<Outcome>) -> Seq<Seq<char>> {
    report.filter(undelivered()).map_values(|o: Outcome| o.recipient@)
}

/// The recipients of a fan-out whose copy was dropped (slot full or session
/// gone), in the order of the report; these are the failures to log.
pub fn failed_recipients(report: &Vec<Outcome>) -> (r: Vec<String>)
    ensures
        r@.map_values(|s: String| s@) == failed_of(report@),
{
    let mut r: Vec<String> = Vec::new();
    let mut i: usize = 0;
    while i < report.len()
        invariant
            i <= report@.len(),
            r@.map_values(|s: String| s@) == failed_of(report@.subrange(0, i as int)),
        decreases report@.len() - i,
    {
        let ghost before = r@;
        let ghost done = report@.subrange(0, i as int);
        let ghost next = report@.subrange(0, i as int + 1);
        proof {
            reveal(Seq::filter);
            assert(next.drop_last() =~= done);
            assert(next.last() == report@[i as int]);
        }
        if report[i].delivery.failed() {
            r.push(report[i].recipient.clone());
            proof {
                assert(next.filter(undelivered()) == done.filter(undelivered()).push(report@[i as int]));
                assert(r@.map_values(|s: String| s@) =~= before.map_values(|s: String| s@).push(
                    report@[i as int].recipient@,
                ));
                assert(failed_of(next) =~= failed_of(done).push(report@[i as int].recipient@));
            }
        } else {
            proof {
                assert(next.filter(undelivered()) == done.filter(undelivered()));
            }
        }
        i = i + 1;
    }
    assert(report@.subrange(0, report@.len() as int) =~= report@);
    r
}

impl View for Connections {
    type V = Seq<Subscriber>;

    closed spec fn view(&self) -> Seq<Subscriber> {
        self.users@
    }
}

impl Connections {
    /// At most one entry per identity.
    pub open spec fn wf(&self) -> bool {
        unique_identities(self@)
    }

    /// An empty registry.
    pub fn new() -> (r: Connections)
        ensures
            r.wf(),
            r@ == Seq::<Subscriber>::empty(),
    {
        Connections { users: Vec::new() }
    }

    pub fn len(&self) -> (r: usize)
        ensures
            r == self@.len(),
    {
        self.users.len()
    }

    /// Where `id` stands in the registry, if it is registered.
    fn position(&self, id: &String) -> (r: Option<usize>)
        ensures
            r is None ==> !is_registered(self@, id@),
            r matches Some(k) ==> k < self@.len() && self@[k as int].identity@ == id@,
    {
        let mut i: usize = 0;
        while i < self.users.len()
            invariant
                i <= self.users@.len(),
                forall|j: int| 0 <= j < i ==> (#[trigger] self.users@[j]).identity@ != id@,
            decreases self.users@.len() - i,
        {
            if self.users[i].identity == *id {
                return Some(i);
            }
            i = i + 1;
        }
        None
    }

    /// Whether `id` has a live session.
    pub fn contains(&self, id: &String) -> (r: bool)
        ensures
            r == is_registered(self@, id@),
    {
        self.position(id).is_some()
    }

    /// The identities of all live sessions, in order of registration.
    pub fn roster(&self) -> (r: Vec<String>)
        ensures
            r@.map_values(|s: String| s@) == identities(self@),
    {
        let mut r: Vec<String> = Vec::new();
        let mut i: usize = 0;
        while i < self.users.len()
            invariant
                i <= self.users@.len(),
                r@.len() == i,
                forall|j: int| 0 <= j < i ==> (#[trigger] r@[j])@ == self.users@[j].identity@,
            decreases self.users@.len() - i,
        {
            r.push(self.users[i].identity.clone());
            i = i + 1;
        }
        assert(r@.map_values(|s: String| s@) =~= identities(self@));
        r
    }

    /// Admits `id` when it has no live session: a fresh subscriber channel is
    /// made, its producing end is kept under `id`, and its consuming end is
    /// handed back. An identity already present is refused and nothing changes,
    /// so the live session keeps its channel.
    pub fn register(&mut self, id: String) -> (r: Result<Receiver<Message>, Conflict>)
        requires
            old(self).wf(),
        ensures
            final(self).wf(),
            r is Ok <==> !is_registered(old(self)@, id@),
            r is Err ==> final(self)@ == old(self)@,
            r is Ok ==> final(self)@.drop_last() == old(self)@ && final(self)@.len() == old(
                self,
            )@.len() + 1 && final(self)@.last().identity@ == id@,
            r is Ok ==> bound_of(final(self)@.last().tx) == SLOT_CAPACITY,
            r is Ok ==> final(self)@.last().queued@ == Seq::<(Seq<char>, Seq<char>)>::empty(),
    {
        if self.contains(&id) {
            return Err(Conflict);
        }
        let (tx, rx) = subscriber_channel(SLOT_CAPACITY);
        let ghost before = self@;
        let ghost admitted = Subscriber { identity: id, tx, queued: Ghost(Seq::empty()) };
        self.users.push(Subscriber { identity: id, tx, queued: Ghost(Seq::empty()) });
        proof {
            assert(self@ =~= before.push(admitted));
            lemma_register_exclusive(before, admitted);
        }
        Ok(rx)
    }

    /// Ends the registration of `id`, if there is one; every other entry stays,
    /// in its order. Removing an identity that is not registered does nothing.
    pub fn unregister(&mut self, id: &String)
        requires
            old(self).wf(),
        ensures
            final(self).wf(),
            final(self)@ == without(old(self)@, id@),
            !is_registered(final(self)@, id@),
    {
        match self.position(id) {
            None => {
                proof {
                    lemma_without_absent(self@, id@);
                }
            },
            Some(k) => {
                let ghost before = self@;
                self.users.remove(k);
                proof {
                    lemma_without_at(before, id@, k as int);
                    assert(self@ =~= before.remove(k as int));
                    assert forall|i: int| 0 <= i < self@.len() implies (#[trigger] self@[i]).identity@
                        != id@ by {
                        if i < k {
                            assert(self@[i] == before[i]);
                        } else {
                            assert(self@[i] == before[i + 1]);
                        }
                    }
                    assert forall|i: int, j: int|
                        0 <= i < self@.len() && 0 <= j < self@.len() && i != j implies (#[trigger] self@[i]).identity@
                        != (#[trigger] self@[j]).identity@ by {
                        let bi = if i < k { i } else { i + 1 };
                        let bj = if j < k { j } else { j + 1 };
                        assert(self@[i] == before[bi] && self@[j] == before[bj]);
                    }
                }
            },
        }
    }

    /// Offers a copy of `msg` to every registered subscriber, the sender
    /// included, in order of registration, without waiting on any of them. A
    /// failed offer to one recipient is recorded and the fan-out goes on with
    /// the next, so each registered identity gets one offer and one outcome.
    pub fn broadcast(&mut self, msg: &Message) -> (r: Vec<Outcome>)
        requires
            old(self).wf(),
        ensures
            final(self).wf(),
            fanned_out(old(self)@, final(self)@, r@, msg@),
    {
        let ghost before = self.users@;
        let mut report: Vec<Outcome> = Vec::new();
        let mut i: usize = 0;
        while i < self.users.len()
            invariant
                i <= self.users@.len(),
                self.users@.len() == before.len(),
                report@.len() == i,
                forall|j: int|
                    0 <= j < i ==> (#[trigger] report@[j]).recipient@ == before[j].identity@
                        && offered(before[j], self.users@[j], report@[j].delivery, msg@),
                forall|j: int| i <= j < before.len() ==> #[trigger] self.users@[j] == before[j],
            decreases self.users@.len() - i,
        {
            let recipient = self.users[i].identity.clone();
            let delivery = offer(&mut self.users[i], msg.duplicate());
            report.push(Outcome { recipient, delivery });
            i = i + 1;
        }
        proof {
            assert forall|a: int, b: int|
                0 <= a < self@.len() && 0 <= b < self@.len() && a != b implies (#[trigger] self@[a]).identity@
                != (#[trigger] self@[b]).identity@ by {
                assert(offered(before[a], self@[a], report@[a].delivery, msg@));
                assert(offered(before[b], self@[b], report@[b].delivery, msg@));
            }
        }
        report
    }
}

} // verus!
