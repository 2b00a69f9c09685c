//! The admission gate of the scanner: which size is fetched next, and when
//! to wait. The decisions are made here; the fetching is the caller's.
//!
//! The candidates are numbered from zero and fetched batch by batch. Within
//! a batch no more fetches are in flight than the concurrency ceiling
//! allows, and a batch is begun only when the one before it has drained.

use vstd::prelude::*;

verus! {

/// What the caller is to do next.
#[derive(Debug, Clone, Copy, PartialEq, Eq, Structural)]
pub enum FetchAction {
    /// Begin the fetch of the candidate with this number.
    Start(usize),
    /// Wait until one of the fetches in flight has ended, and report it.
    Wait,
    /// Every candidate has been fetched.
    Done,
}

/// The first number of the batch that `index` belongs to.
pub open spec fn batch_start(index: int, batch_size: int) -> int {
    index - index % batch_size
}

/// The state of a scheduler as a mathematical value. Fetches are begun in
/// the order of the candidates, so `started` is also the number of the next
/// candidate.
pub struct GateView {
    pub total: nat,
    pub limit: nat,
    pub batch_size: nat,
    pub started: nat,
    pub finished: nat,
}

impl GateView {
    /// The state before anything is begun.
    pub open spec fn initial(total: nat, limit: nat, batch_size: nat) -> GateView {
        GateView { total, limit, batch_size, started: 0, finished: 0 }
    }

    /// How many fetches are in flight.
    pub open spec fn in_flight(self) -> int {
        self.started - self.finished
    }

    /// Whether the next fetch may begin now: a candidate is left, the
    /// ceiling is not reached, and every batch before the candidate's own
    /// has drained.
    pub open spec fn may_start(self) -> bool {
        &&& self.started < self.total
        &&& self.in_flight() < self.limit
        &&& self.finished >= batch_start(self.started as int, self.batch_size as int)
    }

    /// The state after the next fetch has begun.
    pub open spec fn after_start(self) -> GateView {
        GateView { started: self.started + 1, ..self }
    }

    /// The state after a fetch has ended.
    pub open spec fn after_finish(self) -> GateView {
        GateView { finished: self.finished + 1, ..self }
    }

    /// What holds of every state that a scheduler is ever in: no more
    /// fetches have ended than have begun, nor begun than there are
    /// candidates; the fetches in flight are no more than the ceiling; and
    /// they all belong to the batch of the fetch begun last.
    pub open spec fn valid(self) -> bool {
        &&& self.limit > 0
        &&& self.batch_size > 0
        &&& self.finished <= self.started <= self.total
        &&& self.in_flight() <= self.limit
        &&& self.started > 0 ==> self.finished >= batch_start(
            self.started - 1,
            self.batch_size as int,
        )
    }
}

/// The state before anything is begun is valid.
pub proof fn lemma_initial_state_is_valid(total: nat, limit: nat, batch_size: nat)
    requires
        limit > 0,
        batch_size > 0,
    ensures
        GateView::initial(total, limit, batch_size).valid(),
{
}

/// Beginning a fetch that may begin leaves the state valid.
pub proof fn lemma_start_keeps_valid(state: GateView)
    requires
        state.valid(),
        state.may_start(),
    ensures
        state.after_start().valid(),
{
}

/// The end of a fetch in flight leaves the state valid.
pub proof fn lemma_finish_keeps_valid(state: GateView)
    requires
        state.valid(),
        state.finished < state.started,
    ensures
        state.after_finish().valid(),
{
}

/// In a valid state the fetches in flight never exceed the concurrency
/// ceiling, nor the size of a batch.
pub proof fn lemma_in_flight_is_bounded(state: GateView)
    requires
        state.valid(),
    ensures
        0 <= state.in_flight() <= state.limit,
        state.in_flight() <= state.batch_size,
{
    if state.started > 0 {
        let last = state.started - 1;
        let size = state.batch_size as int;
        assert(0 <= last % size < size) by (nonlinear_arith)
            requires
                0 <= last,
                0 < size,
        ;
    }
}

/// In a valid state there is always something to do until all is done: a
/// fetch may begin, or one is in flight, or every candidate is fetched.
pub proof fn lemma_never_stuck(state: GateView)
    requires
        state.valid(),
        !state.may_start(),
        state.finished == state.started,
    ensures
        state.finished == state.total,
{
    let started = state.started as int;
    let size = state.batch_size as int;
    assert(0 <= started % size) by (nonlinear_arith)
        requires
            0 <= started,
            0 < size,
    ;
}

/// The scheduler of the fetches.
pub struct FetchScheduler {
    total: usize,
    limit: usize,
    batch_size: usize,
    started: usize,
    finished: usize,
}

impl View for FetchScheduler {
    type V = GateView;

    closed spec fn view(&self) -> GateView {
        GateView {
            total: self.total as nat,
            limit: self.limit as nat,
            batch_size: self.batch_size as nat,
            started: self.started as nat,
            finished: self.finished as nat,
        }
    }
}

impl FetchScheduler {
    #[verifier::type_invariant]
    spec fn well_formed(&self) -> bool {
        self@.valid()
    }

    /// A scheduler for `total` candidates with nothing begun yet.
    pub fn new(total: usize, concurrent_limit: usize, batch_size: usize) -> (gate: Self)
        requires
            concurrent_limit > 0,
            batch_size > 0,
        ensures
            gate@ == GateView::initial(total as nat, concurrent_limit as nat, batch_size as nat),
    {
        FetchScheduler { total, limit: concurrent_limit, batch_size, started: 0, finished: 0 }
    }

    /// How many fetches are in flight. Whatever was done before, the state
    /// is valid, so this is at most the concurrency ceiling.
    pub fn in_flight(&self) -> (count: usize)
        ensures
            self@.valid(),
            count == self@.in_flight(),
            count <= self@.limit,
            count <= self@.batch_size,
    {
        proof {
            use_type_invariant(self);
            lemma_in_flight_is_bounded(self@);
        }
        self.started - self.finished
    }

    /// Decides what is done next. A fetch is begun whenever one may begin;
    /// otherwise the caller waits for a fetch in flight, and when none is in
    /// flight all is done.
    pub fn next_action(&mut self) -> (action: FetchAction)
        ensures
            old(self)@.valid(),
            old(self)@.may_start() ==> action == FetchAction::Start(old(self)@.started as usize)
                && final(self)@ == old(self)@.after_start(),
            !old(self)@.may_start() ==> final(self)@ == old(self)@,
            !old(self)@.may_start() && old(self)@.in_flight() > 0 ==> action == FetchAction::Wait,
            !old(self)@.may_start() && old(self)@.in_flight() == 0 ==> action == FetchAction::Done
                && old(self)@.finished == old(self)@.total,
    {
        proof {
            use_type_invariant(&*self);
            let started = self.started as int;
            let size = self.batch_size as int;
            assert(0 <= started % size <= started) by (nonlinear_arith)
                requires
                    0 <= started,
                    0 < size,
            ;
            if !self@.may_start() && self.finished == self.started {
                lemma_never_stuck(self@);
            }
        }
        let in_batch = self.started % self.batch_size;
        if self.started < self.total && self.started - self.finished < self.limit
            && self.finished >= self.started - in_batch {
            let index = self.started;
            self.started = self.started + 1;
            FetchAction::Start(index)
        } else if self.finished < self.started {
            FetchAction::Wait
        } else {
            FetchAction::Done
        }
    }

    /// Reports that a fetch in flight has ended, whether it succeeded or
    /// failed. Returns `false`, and changes nothing, if none was in flight.
    pub fn fetch_finished(&mut self) -> (released: bool)
        ensures
            released == (old(self)@.in_flight() > 0),
            released ==> final(self)@ == old(self)@.after_finish(),
            !released ==> final(self)@ == old(self)@,
    {
        proof {
            use_type_invariant(&*self);
        }
        if self.finished < self.started {
            self.finished = self.finished + 1;
            true
        } else {
            false
        }
    }
}

} // verus!
