//! Numbered sessions.
use std::collections::HashMap;
use vstd::prelude::*;

verus! {

/// A table of open sessions; each gets the next number when it is opened.
#[verifier::reject_recursive_types(S)]
pub struct SessionTable<S> {
    sessions: HashMap<u64, S>,
    next_id: u64,
}

impl<S> View for SessionTable<S> {
    type V = Map<u64, S>;

    closed spec fn view(&self) -> Map<u64, S> {
        self.sessions@
    }
}

/// The number after `id`; the largest one is followed by zero.
pub open spec fn id_after(id: u64) -> u64 {
    if id == u64::MAX {
        0
    } else {
        (id + 1) as u64
    }
}

/// Whether all open sessions have numbers below the next one to be given.
pub open spec fn ids_below<S>(sessions: Map<u64, S>, next_id: u64) -> bool {
    forall|id: u64| #[trigger] sessions.contains_key(id) ==> id < next_id
}

impl<S> SessionTable<S> {
    /// The number that the next session gets.
    pub closed spec fn next_id(&self) -> u64 {
        self.next_id
    }

    /// A table without sessions, whose first session will be number 1.
    pub fn new() -> (table: SessionTable<S>)
        ensures
            table@ == Map::<u64, S>::empty(),
            table.next_id() == 1,
    {
        SessionTable { sessions: HashMap::new(), next_id: 1 }
    }

    /// Opens a session under the next number.
    pub fn open(&mut self, session: S) -> (id: u64)
        ensures
            id == old(self).next_id(),
            final(self)@ == old(self)@.insert(id, session),
            final(self).next_id() == id_after(id),
    {
        let id: u64 = self.next_id;
        self.next_id = id.wrapping_add(1);
        self.sessions.insert(id, session);
        id
    }

    /// The session with number `id`.
    pub fn get(&self, id: u64) -> (session: Option<&S>)
        ensures
            match session {
                Some(s) => self@.contains_key(id) && *s == self@[id],
                None => !self@.contains_key(id),
            },
    {
        self.sessions.get(&id)
    }

    /// Takes the session with number `id` out of the table.
    pub fn close(&mut self, id: u64) -> (session: Option<S>)
        ensures
            final(self)@ == old(self)@.remove(id),
            final(self).next_id() == old(self).next_id(),
            match session {
                Some(s) => old(self)@.contains_key(id) && s == old(self)@[id],
                None => !old(self)@.contains_key(id),
            },
    {
        let session = self.sessions.remove(&id);
        assert(session is None ==> self@ =~= old(self)@.remove(id));
        session
    }
}

/// While the numbers have not been used up, a new session gets a number that no open
/// session has, and so does the one after it.
pub proof fn law_new_ids_are_fresh<S>(sessions: Map<u64, S>, next_id: u64, session: S)
    requires
        ids_below(sessions, next_id),
        next_id < u64::MAX,
    ensures
        !sessions.contains_key(next_id),
        ids_below(sessions.insert(next_id, session), id_after(next_id)),
{
}

/// The number of the `i`-th session, counted from zero.
pub open spec fn nth_id(i: nat) -> u64
    decreases i,
{
    if i == 0 {
        1
    } else {
        id_after(nth_id((i - 1) as nat))
    }
}

/// The numbers of the sessions go from 1 up, and round through 0.
pub proof fn law_nth_id(i: nat)
    ensures
        nth_id(i) == (1 + i) % 0x1_0000_0000_0000_0000,
    decreases i,
{
    if i > 0 {
        law_nth_id((i - 1) as nat);
    }
}

/// A session gets a number that none of the 2^64 - 1 sessions before it had, whether they are
/// open or closed.
pub proof fn law_near_ids_differ(i: nat, j: nat)
    requires
        i < j < i + 0x1_0000_0000_0000_0000,
    ensures
        nth_id(i) != nth_id(j),
{
    law_nth_id(i);
    law_nth_id(j);
}

/// Closing a session keeps the numbers of the others below the next one.
pub proof fn law_close_keeps_ids_below<S>(sessions: Map<u64, S>, next_id: u64, id: u64)
    requires
        ids_below(sessions, next_id),
    ensures
        ids_below(sessions.remove(id), next_id),
{
}

} // verus!
