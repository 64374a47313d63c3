//! The accept loop: how many connections are served at once, and what to do in between.
use crate::response;
use crate::status::StatusCode;
use vstd::prelude::*;

verus! {

/// How long, in milliseconds, to wait when no connection is pending.
pub const IDLE_PAUSE_MS: u64 = 50;

/// How long, in milliseconds, to wait after a failure to accept.
pub const ERROR_PAUSE_MS: u64 = 100;

/// How long, in milliseconds, requests under way may take to finish after a shutdown signal.
pub const GRACE_PERIOD_MS: u64 = 5000;

/// What `Slots` stand for.
pub struct Occupancy {
    pub active: nat,
    pub max: nat,
}

/// The connections that are being served, of at most so many at once.
pub struct Slots {
    active: usize,
    max: usize,
}

impl View for Slots {
    type V = Occupancy;

    closed spec fn view(&self) -> Occupancy {
        Occupancy { active: self.active as nat, max: self.max as nat }
    }
}

/// Whether there is room for one more connection.
pub open spec fn has_room(o: Occupancy) -> bool {
    o.active < o.max
}

/// With one more connection.
pub open spec fn entered(o: Occupancy) -> Occupancy {
    Occupancy { active: o.active + 1, ..o }
}

/// With one connection less.
pub open spec fn left(o: Occupancy) -> Occupancy {
    Occupancy { active: (o.active - 1) as nat, ..o }
}

impl Slots {
    /// There are never more connections than allowed.
    #[verifier::type_invariant]
    spec fn within_limit(self) -> bool {
        self.active <= self.max
    }

    /// No connection yet.
    pub fn new(max: usize) -> (r: Slots)
        ensures
            r@ == (Occupancy { active: 0, max: max as nat }),
    {
        Slots { active: 0, max }
    }

    /// How many connections there are.
    pub fn active(&self) -> (r: usize)
        ensures
            r == self@.active,
            self@.active <= self@.max,
    {
        proof {
            use_type_invariant(self);
        }
        self.active
    }

    /// Takes a slot for a new connection, if one is free.
    pub fn enter(&mut self) -> (r: bool)
        ensures
            r == has_room(old(self)@),
            final(self)@ == (if r {
                entered(old(self)@)
            } else {
                old(self)@
            }),
            final(self)@.active <= final(self)@.max,
            r == (old(self)@.active < old(self)@.max),
            final(self)@.active == old(self)@.active + (if r {
                1int
            } else {
                0
            }),
            final(self)@.max == old(self)@.max,
    {
        proof {
            use_type_invariant(&*self);
        }
        if self.active >= self.max {
            return false;
        }
        self.active = self.active + 1;
        true
    }

    /// Gives the slot of a connection back.
    pub fn leave(&mut self)
        requires
            old(self)@.active > 0,
        ensures
            final(self)@ == left(old(self)@),
            final(self)@.active < final(self)@.max,
            final(self)@.active == old(self)@.active - 1,
            final(self)@.max == old(self)@.max,
    {
        proof {
            use_type_invariant(&*self);
        }
        self.active = self.active - 1;
    }
}

/// A slot that is taken and given back leaves everything as it was.
pub proof fn leaving_undoes_entering(o: Occupancy)
    ensures
        left(entered(o)) == o,
{
}

/// What came of an attempt to accept a connection.
#[derive(Clone, Copy, Debug, PartialEq, Eq, Structural)]
pub enum Accepted {
    /// A connection.
    Connection,
    /// None is pending.
    WouldBlock,
    /// An error.
    Failed,
}

/// What to do after an attempt to accept a connection.
pub enum AcceptStep {
    /// Serve the connection.
    Serve,
    /// Send these bytes and close the connection.
    Refuse(Vec<u8>),
    /// Wait for so many milliseconds.
    Pause(u64),
    /// Log the error, then wait for so many milliseconds.
    ReportAndPause(u64),
}

/// Decides what to do after an attempt to accept a connection. One that finds no slot is politely
/// refused.
pub fn on_accept(slots: &mut Slots, accepted: Accepted, cache_max_age: u64) -> (r: AcceptStep)
    ensures
        match r {
            AcceptStep::Serve => {
                &&& accepted == Accepted::Connection
                &&& has_room(old(slots)@)
                &&& final(slots)@ == entered(old(slots)@)
            },
            AcceptStep::Refuse(bytes) => {
                &&& accepted == Accepted::Connection
                &&& !has_room(old(slots)@)
                &&& final(slots)@ == old(slots)@
                &&& bytes@ == response::error_bytes(
                    StatusCode::PayloadTooLarge,
                    cache_max_age as nat,
                    false,
                )
            },
            AcceptStep::Pause(ms) => {
                &&& accepted == Accepted::WouldBlock
                &&& final(slots)@ == old(slots)@
                &&& ms == IDLE_PAUSE_MS
            },
            AcceptStep::ReportAndPause(ms) => {
                &&& accepted == Accepted::Failed
                &&& final(slots)@ == old(slots)@
                &&& ms == ERROR_PAUSE_MS
            },
        },
        final(slots)@.active <= final(slots)@.max,
        final(slots)@.max == old(slots)@.max,
        r is Serve ==> final(slots)@.active == old(slots)@.active + 1,
        !(r is Serve) ==> final(slots)@.active == old(slots)@.active,
        r is Refuse <==> accepted == Accepted::Connection && old(slots)@.active >= old(slots)@.max,
{
    proof {
        use_type_invariant(&*slots);
    }
    match accepted {
        Accepted::Connection => {
            if slots.enter() {
                AcceptStep::Serve
            } else {
                let mut out: Vec<u8> = Vec::new();
                // 413 is close enough to say that there is too much at once.
                response::write_error(&mut out, StatusCode::PayloadTooLarge, cache_max_age, false);
                assert(out@ =~= response::error_bytes(
                    StatusCode::PayloadTooLarge,
                    cache_max_age as nat,
                    false,
                ));
                AcceptStep::Refuse(out)
            }
        },
        Accepted::WouldBlock => AcceptStep::Pause(IDLE_PAUSE_MS),
        Accepted::Failed => AcceptStep::ReportAndPause(ERROR_PAUSE_MS),
    }
}

/// Whether to go on waiting for requests under way, so many milliseconds after the shutdown
/// signal.
pub fn keep_draining(active: usize, waited_ms: u64) -> (r: bool)
    ensures
        r == (active > 0 && waited_ms < GRACE_PERIOD_MS),
{
    active > 0 && waited_ms < GRACE_PERIOD_MS
}

} // verus!
