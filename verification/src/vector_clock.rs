//! A reusable pool of logical clocks.
//!
//! Every in-flight write borrows one clock from the pool, ticks it, and hands
//! it back. Clock ids are dense: a freed id is reused before a new one is
//! allocated, so the ids in use never exceed the peak number of writes that
//! were in flight at once.
//!
//! The pool is a plain value that its owner synchronises. A guard takes the
//! clock's counter with it and brings it back on release, so a guard can be
//! ticked without touching the pool.

use vstd::prelude::*;

verus! {

/// What can be observed of one clock.
pub struct ClockState {
    pub counter: nat,
    pub available: bool,
}

/// The clock after it was ticked `ticks` times.
pub open spec fn ticked(clock: ClockState, ticks: nat) -> ClockState {
    ClockState { counter: clock.counter + ticks, available: clock.available }
}

/// One logical clock: a counter and a flag that tells whether it is free.
#[derive(Debug)]
pub struct Clock {
    clock: u64,
    available: bool,
}

impl View for Clock {
    type V = ClockState;

    closed spec fn view(&self) -> ClockState {
        ClockState { counter: self.clock as nat, available: self.available }
    }
}

impl Clock {
    #[verifier::type_invariant]
    spec fn counter_is_positive(self) -> bool {
        self.clock >= 1
    }

    /// A fresh clock: its counter is 1 and it is already taken.
    pub fn new_locked() -> (clock: Clock)
        ensures
            clock@ == (ClockState { counter: 1, available: false }),
    {
        Clock { clock: 1, available: false }
    }

    /// The current counter.
    pub fn timestamp(&self) -> (now: u64)
        ensures
            now == self@.counter,
            now >= 1,
    {
        proof {
            use_type_invariant(self);
        }
        self.clock
    }

    /// Advances the counter by one and returns the new value.
    pub fn tick(&mut self) -> (now: u64)
        requires
            old(self)@.counter < u64::MAX,
        ensures
            final(self)@ == ticked(old(self)@, 1),
            now == final(self)@.counter,
    {
        self.clock = self.clock + 1;
        self.clock
    }

    /// Takes the clock if it is free. Returns whether it was free; either way
    /// the clock is taken afterwards.
    pub fn lock(&mut self) -> (was_available: bool)
        ensures
            was_available == old(self)@.available,
            final(self)@ == (ClockState { counter: old(self)@.counter, available: false }),
    {
        proof {
            use_type_invariant(&*self);
        }
        let was_available = self.available;
        self.available = false;
        was_available
    }

    /// Frees the clock.
    pub fn release(&mut self)
        ensures
            final(self)@ == (ClockState { counter: old(self)@.counter, available: true }),
    {
        proof {
            use_type_invariant(&*self);
        }
        self.available = true;
    }
}

/// Whether `id` is the clock that the next `occupy` hands out: the first
/// free clock, or a new one behind the last if none is free.
pub open spec fn first_fit(clocks: Seq<ClockState>, id: int) -> bool {
    &&& 0 <= id <= clocks.len()
    &&& id < clocks.len() ==> clocks[id].available
    &&& forall|before: int| 0 <= before < id ==> !(#[trigger] clocks[before]).available
}

/// The pool after clock `id` was handed out: the clock is taken, with its
/// counter as it was; a new clock starts at 1.
pub open spec fn occupied(clocks: Seq<ClockState>, id: int) -> Seq<ClockState> {
    if 0 <= id < clocks.len() {
        clocks.update(id, ClockState { counter: clocks[id].counter, available: false })
    } else {
        clocks.push(ClockState { counter: 1, available: false })
    }
}

/// The pool after a guard for clock `id` came back with its counter at
/// `counter`: the clock is free and its counter is the larger of the two.
/// A guard for a clock that the pool does not have, or that is free, changes
/// nothing.
pub open spec fn released(clocks: Seq<ClockState>, id: int, counter: nat) -> Seq<ClockState> {
    if 0 <= id < clocks.len() && !clocks[id].available {
        clocks.update(
            id,
            ClockState {
                counter: if counter >= clocks[id].counter {
                    counter
                } else {
                    clocks[id].counter
                },
                available: true,
            },
        )
    } else {
        clocks
    }
}

/// A pool of clocks. It only grows, and a clock keeps its id for good.
#[derive(Debug)]
pub struct VectorClock {
    clocks: Vec<Clock>,
}

impl View for VectorClock {
    type V = Seq<ClockState>;

    closed spec fn view(&self) -> Seq<ClockState> {
        self.clocks@.map_values(|clock: Clock| clock@)
    }
}

impl Default for VectorClock {
    fn default() -> (pool: VectorClock)
        ensures
            pool@ == Seq::<ClockState>::empty(),
    {
        VectorClock::new()
    }
}

impl VectorClock {
    /// An empty pool.
    pub fn new() -> (pool: VectorClock)
        ensures
            pool@ == Seq::<ClockState>::empty(),
    {
        let pool = VectorClock { clocks: Vec::new() };
        assert(pool@ =~= Seq::<ClockState>::empty());
        pool
    }

    /// Hands out the first free clock, or a new one if none is free. This
    /// cannot fail.
    pub fn occupy(&mut self) -> (guard: ClockGuard)
        ensures
            first_fit(old(self)@, guard.id_spec() as int),
            final(self)@ == occupied(old(self)@, guard.id_spec() as int),
            guard.timestamp_spec() == final(self)@[guard.id_spec() as int].counter,
    {
        let mut id: usize = 0;
        while id < self.clocks.len()
            invariant
                id <= self.clocks@.len(),
                self@ == old(self)@,
                forall|before: int| 0 <= before < id ==> !(#[trigger] old(self)@[before]).available,
            decreases self.clocks@.len() - id,
        {
            let ghost before = self@;
            if self.clocks[id].lock() {
                let now = self.clocks[id].timestamp();
                assert(self@ =~= occupied(old(self)@, id as int));
                return ClockGuard::new(id, Clock { clock: now, available: false });
            }
            assert(self@ =~= before);
            id = id + 1;
        }
        let id = self.clocks.len();
        self.clocks.push(Clock::new_locked());
        assert(self@ =~= occupied(old(self)@, id as int));
        ClockGuard::new(id, Clock::new_locked())
    }
}

/// Exclusive use of one clock of a pool, from `occupy` to `release`.
#[derive(Debug)]
pub struct ClockGuard {
    id: usize,
    clock: Clock,
}

impl ClockGuard {
    fn new(id: usize, clock: Clock) -> (guard: ClockGuard)
        ensures
            guard.id_spec() == id,
            guard.timestamp_spec() == clock@.counter,
    {
        ClockGuard { id, clock }
    }

    /// The id of the clock.
    pub closed spec fn id_spec(&self) -> nat {
        self.id as nat
    }

    /// The counter of the clock.
    pub closed spec fn timestamp_spec(&self) -> nat {
        self.clock@.counter
    }

    /// The id of the clock.
    pub fn id(&self) -> (id: usize)
        ensures
            id == self.id_spec(),
    {
        self.id
    }

    /// The current counter of the clock.
    pub fn timestamp(&self) -> (now: u64)
        ensures
            now == self.timestamp_spec(),
            now >= 1,
    {
        self.clock.timestamp()
    }

    /// Advances the clock by one and returns the new counter.
    pub fn tick(&mut self) -> (now: u64)
        requires
            old(self).timestamp_spec() < u64::MAX,
        ensures
            now == old(self).timestamp_spec() + 1,
            final(self).timestamp_spec() == now,
            final(self).id_spec() == old(self).id_spec(),
    {
        self.clock.tick()
    }

    /// Gives the clock back to the pool it was taken from. The guard is used
    /// up, so a clock is given back once.
    pub fn release(self, pool: &mut VectorClock)
        ensures
            final(pool)@ == released(old(pool)@, self.id_spec() as int, self.timestamp_spec()),
    {
        let ClockGuard { id, clock } = self;
        if id < pool.clocks.len() && !pool.clocks[id].available {
            let kept = pool.clocks[id].timestamp();
            let brought = clock.timestamp();
            let counter = if brought >= kept {
                brought
            } else {
                kept
            };
            pool.clocks[id] = Clock { clock: counter, available: true };
            assert(pool@ =~= released(old(pool)@, id as int, brought as nat));
        }
    }
}

/// Consecutive ticks of a clock return strictly increasing values: the
/// later of two ticks returns the larger counter.
pub proof fn law_ticks_increase(clock: ClockState, earlier: nat, later: nat)
    requires
        earlier < later,
    ensures
        ticked(clock, earlier).counter < ticked(clock, later).counter,
        ticked(ticked(clock, earlier), 1) == ticked(clock, earlier + 1),
{
}

/// `occupy` has one answer: two clocks that both are the first fit are the
/// same clock.
pub proof fn law_first_fit_is_unique(clocks: Seq<ClockState>, one: int, other: int)
    requires
        first_fit(clocks, one),
        first_fit(clocks, other),
    ensures
        one == other,
{
    if one < other {
        assert(!clocks[one].available);
    } else if other < one {
        assert(!clocks[other].available);
    }
}

/// No two guards carry the same id at a time. `occupy` never hands out a
/// clock that a guard holds, the clock that it hands out is held afterwards,
/// and every clock that a guard held before is still held.
pub proof fn law_occupy_is_exclusive(clocks: Seq<ClockState>, id: int, held: int)
    requires
        first_fit(clocks, id),
        0 <= held < clocks.len(),
        !clocks[held].available,
    ensures
        id != held,
        !occupied(clocks, id)[id].available,
        !occupied(clocks, id)[held].available,
{
}

/// Two guards taken one after the other, with no release between them, carry
/// different ids.
pub proof fn law_guards_differ(clocks: Seq<ClockState>, first: int, second: int)
    requires
        first_fit(clocks, first),
        first_fit(occupied(clocks, first), second),
    ensures
        first != second,
{
    let after = occupied(clocks, first);
    assert(!after[first].available);
}

/// Releasing one guard frees its clock and no other: a clock that another
/// guard holds is still held.
pub proof fn law_release_frees_one(clocks: Seq<ClockState>, id: int, counter: nat, held: int)
    requires
        0 <= held < clocks.len(),
        !clocks[held].available,
        held != id,
    ensures
        !released(clocks, id, counter)[held].available,
        0 <= id < clocks.len() && !clocks[id].available ==> released(
            clocks,
            id,
            counter,
        )[id].available,
{
}

/// A clock that was given back is used again before a new one is made: the
/// next `occupy` hands out that clock or one with a lower id, and the pool
/// does not grow. If every clock with a lower id is held, it hands out that
/// very clock.
pub proof fn law_released_clock_is_reused(clocks: Seq<ClockState>, id: int, counter: nat, next: int)
    requires
        0 <= id < clocks.len(),
        !clocks[id].available,
        first_fit(released(clocks, id, counter), next),
    ensures
        next <= id,
        occupied(released(clocks, id, counter), next).len() == clocks.len(),
        (forall|before: int| 0 <= before < id ==> !(#[trigger] clocks[before]).available) ==> next
            == id,
{
    let after = released(clocks, id, counter);
    assert(after[id].available);
    if next > id {
        assert(!after[id].available);
    }
    if forall|before: int| 0 <= before < id ==> !(#[trigger] clocks[before]).available {
        if next < id {
            assert(!clocks[next].available);
            assert(after[next] == clocks[next]);
        }
    }
}

/// The pool only grows, a clock keeps its place in it, and no counter ever
/// goes back: neither when a clock is handed out nor when one is given back.
pub proof fn law_pool_only_grows(clocks: Seq<ClockState>, id: int, counter: nat, at: int)
    requires
        0 <= at < clocks.len(),
    ensures
        occupied(clocks, id).len() >= clocks.len(),
        occupied(clocks, id)[at].counter == clocks[at].counter,
        released(clocks, id, counter).len() == clocks.len(),
        released(clocks, id, counter)[at].counter >= clocks[at].counter,
{
}

/// A guard that comes back brings its ticks with it: the clock's counter is
/// then what the guard last read, as long as that is no less than what the
/// pool had kept.
pub proof fn law_release_keeps_ticks(clocks: Seq<ClockState>, id: int, counter: nat)
    requires
        0 <= id < clocks.len(),
        !clocks[id].available,
        counter >= clocks[id].counter,
    ensures
        released(clocks, id, counter)[id] == (ClockState { counter, available: true }),
{
}

} // verus!
