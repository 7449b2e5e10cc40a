//! The live sessions of a server.

use vstd::prelude::*;

use crate::error;
use crate::error::{Error, ErrorModel};
use crate::table::Table;
use crate::text;

verus! {

/// How many sessions can be live at once.
pub const MAX_LIVE_SESSIONS: usize = 64;

/// How many entries of its log a session shows.
pub const SESSION_LOG_TAIL: usize = 25;

/// The live sessions, by id.
#[derive(Debug)]
pub struct Registry<T> {
    sessions: Table<T>,
    started: u64,
}

/// The id of the session with that number.
pub open spec fn session_id(n: nat) -> Seq<char> {
    "sess_"@ + text::decimal(n)
}

impl<T> Registry<T> {
    /// The live sessions.
    pub closed spec fn live(self) -> Map<Seq<char>, T> {
        self.sessions.entries()
    }

    /// How many sessions are live.
    pub closed spec fn count(self) -> nat {
        self.sessions.size()
    }

    /// How many ids were given out.
    pub closed spec fn given(self) -> u64 {
        self.started
    }

    /// No id is there twice, and there are not too many.
    pub closed spec fn valid(self) -> bool {
        &&& self.sessions.valid()
        &&& self.sessions.size() <= MAX_LIVE_SESSIONS
    }

    /// No session is live.
    pub fn new() -> (r: Registry<T>)
        ensures
            r.valid(),
            r.live() == Map::<Seq<char>, T>::empty(),
            r.count() == 0,
            r.given() == 0,
    {
        Registry { sessions: Table::new(), started: 0 }
    }

    /// How many sessions are live: never more than [`MAX_LIVE_SESSIONS`].
    pub fn len(&self) -> (n: usize)
        requires
            self.valid(),
        ensures
            n == self.count(),
            n <= MAX_LIVE_SESSIONS,
    {
        self.sessions.len()
    }

    /// How many ids were given out.
    pub fn ids_given(&self) -> (n: u64)
        ensures
            n == self.given(),
    {
        self.started
    }

    /// Gives out the next id.
    pub fn next_session_id(&mut self) -> (r: String)
        requires
            old(self).valid(),
            old(self).given() < u64::MAX,
        ensures
            final(self).valid(),
            final(self).live() == old(self).live(),
            final(self).count() == old(self).count(),
            final(self).given() == old(self).given() + 1,
            r@ == session_id(old(self).given() as nat),
    {
        let id = text::concat("sess_", text::to_decimal(self.started as u128).as_str());
        self.started = self.started + 1;
        id
    }

    /// Checks that there is room for another session.
    pub fn ensure_session_capacity(&self) -> (r: Result<(), Error>)
        requires
            self.valid(),
        ensures
            error::unit_outcome(r) == (if self.count() < MAX_LIVE_SESSIONS {
                Ok(())
            } else {
                Err(ErrorModel::TooManySessions)
            }),
    {
        if self.sessions.len() >= MAX_LIVE_SESSIONS {
            Err(Error::TooManySessions)
        } else {
            Ok(())
        }
    }

    /// Adds a session, where there is room.
    pub fn insert_session(&mut self, id: String, session: T) -> (r: Result<(), Error>)
        requires
            old(self).valid(),
        ensures
            final(self).valid(),
            final(self).given() == old(self).given(),
            error::unit_outcome(r) == (if old(self).count() < MAX_LIVE_SESSIONS {
                Ok(())
            } else {
                Err(ErrorModel::TooManySessions)
            }),
            r is Ok ==> final(self).live() == old(self).live().insert(id@, session),
            r is Err ==> final(self).live() == old(self).live(),
            r is Err ==> final(self).count() == old(self).count(),
            r is Ok ==> final(self).count() == old(self).count() + if old(
                self,
            ).live().dom().contains(id@) {
                0nat
            } else {
                1nat
            },
    {
        if self.sessions.len() >= MAX_LIVE_SESSIONS {
            return Err(Error::TooManySessions);
        }
        self.sessions.insert(id, session);
        Ok(())
    }

    /// Finds a live session.
    pub fn lookup_session(&self, id: &str) -> (r: Result<&T, Error>)
        requires
            self.valid(),
        ensures
            match r {
                Ok(s) => self.live().dom().contains(id@) && *s == self.live()[id@],
                Err(e) => !self.live().dom().contains(id@) && e.deep_view()
                    == (ErrorModel::UnknownSession { id: id@ }),
            },
    {
        match self.sessions.get(id) {
            Some(s) => Ok(s),
            None => Err(Error::UnknownSession { id: id.to_string() }),
        }
    }

    /// Forgets a session.
    pub fn close_session(&mut self, id: &str) -> (r: Result<(), Error>)
        requires
            old(self).valid(),
        ensures
            final(self).valid(),
            final(self).given() == old(self).given(),
            final(self).live() == old(self).live().remove(id@),
            error::unit_outcome(r) == (if old(self).live().dom().contains(id@) {
                Ok(())
            } else {
                Err(ErrorModel::UnknownSession { id: id@ })
            }),
            r is Ok ==> final(self).count() + 1 == old(self).count(),
            r is Err ==> final(self).count() == old(self).count(),
    {
        let ghost before = self.live();
        match self.sessions.remove(id) {
            Some(_) => Ok(()),
            None => {
                assert(before.remove(id@) =~= before);
                Err(Error::UnknownSession { id: id.to_string() })
            },
        }
    }
}

/// No id is given out twice.
pub proof fn law_session_ids_are_unique(m: nat, n: nat)
    requires
        session_id(m) == session_id(n),
    ensures
        m == n,
{
    let k = "sess_"@.len() as int;
    assert(session_id(m).skip(k) =~= text::decimal(m));
    assert(session_id(n).skip(k) =~= text::decimal(n));
    text::lemma_decimal_injective(m, n);
}

/// The error says that a client went away before it asked for anything, which is no failure.
pub open spec fn clean_disconnect(message: Seq<char>) -> bool {
    let m = text::lowered(message);
    text::has(m, "connection closed"@) && text::has(m, "initialize request"@)
}

/// Whether the error says that a client went away before it asked for anything.
pub fn is_clean_startup_disconnect(message: &str) -> (r: bool)
    ensures
        r == clean_disconnect(message@),
{
    let chars = text::to_chars(message);
    let lower = text::to_lower(chars.as_slice());
    text::contains(lower.as_slice(), "connection closed") && text::contains(
        lower.as_slice(),
        "initialize request",
    )
}

/// A client that went away before it asked for anything is known by two phrases, in whatever case
/// and wherever they stand; one of them alone is not enough.
pub proof fn law_a_clean_disconnect_says_two_things(message: Seq<char>)
    ensures
        clean_disconnect(message) <==> (exists|i: int|
            text::occurs_at(text::lowered(message), "connection closed"@, i)) && (exists|i: int|
            text::occurs_at(text::lowered(message), "initialize request"@, i)),
        session_id(0) == "sess_"@ + seq!['0'],
{
    text::law_numbers_are_written_in_decimal(0);
}

/// A server keeps sixty-four sessions alive, and a session shows twenty-five entries of its log.
pub proof fn law_servers_have_small_limits()
    ensures
        MAX_LIVE_SESSIONS == 64,
        SESSION_LOG_TAIL == 25,
{
}

} // verus!
