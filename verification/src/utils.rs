use vstd::prelude::*;

verus! {

/// The abstract state of a [`TickBarrier`].
pub struct TickBarrierView {
    /// How many times the barrier has been woken: a waiter is released once it changes.
    pub generation: nat,
    /// How many threads have arrived since the last wake.
    pub wait_counter: nat,
    /// Whether the simulation has been told to end.
    pub system_end: bool,
}

/// The bookkeeping of the barrier that paces the simulation: trader threads
/// arrive once per tick and sleep until the exchange wakes them.
///
/// It holds the generation, the arrival counter and the end flag; the blocking
/// itself is done by whoever holds this state under a lock with a condition
/// variable, which asks [`TickBarrier::must_keep_waiting`] whether a sleeper
/// may go on.
pub struct TickBarrier {
    generation: usize,
    wait_counter: usize,
    system_end: bool,
}

/// One arrival: the counter goes up by one (wrapping, as an atomic add does);
/// the arriving thread remembers the current generation.
pub open spec fn spec_arrive(b: TickBarrierView) -> (TickBarrierView, nat) {
    (TickBarrierView {
        wait_counter: if b.wait_counter + 1 > usize::MAX { 0 } else { b.wait_counter + 1 },
        ..b
    }, b.generation)
}

/// A wake: the counter is cleared and the generation advances.
pub open spec fn spec_wake(b: TickBarrierView) -> TickBarrierView {
    TickBarrierView { generation: b.generation + 1, wait_counter: 0, ..b }
}

/// A shutdown: the end flag is raised; nothing else changes.
pub open spec fn spec_shutdown(b: TickBarrierView) -> TickBarrierView {
    TickBarrierView { system_end: true, ..b }
}

/// A thread that arrived in generation `age` still sleeps: no wake has
/// happened since and the simulation has not ended.
pub open spec fn spec_keeps_waiting(b: TickBarrierView, age: nat) -> bool {
    b.generation == age && !b.system_end
}

impl View for TickBarrier {
    type V = TickBarrierView;

    closed spec fn view(&self) -> TickBarrierView {
        TickBarrierView {
            generation: self.generation as nat,
            wait_counter: self.wait_counter as nat,
            system_end: self.system_end,
        }
    }
}

impl TickBarrier {
    /// A barrier in its first generation, with nobody waiting.
    pub fn new() -> (b: Self)
        ensures
            b@ == (TickBarrierView { generation: 0, wait_counter: 0, system_end: false }),
    {
        TickBarrier { generation: 0, wait_counter: 0, system_end: false }
    }

    /// A thread arrives: it is counted, and it receives the generation that it
    /// must see change before it may go on.
    pub fn wait(&mut self) -> (my_age: usize)
        ensures
            (final(self)@, my_age as nat) == spec_arrive(old(self)@),
    {
        self.wait_counter = self.wait_counter.wrapping_add(1);
        self.generation
    }

    /// Whether a thread that arrived in generation `my_age` must go on sleeping.
    pub fn must_keep_waiting(&self, my_age: usize) -> (r: bool)
        ensures
            r == spec_keeps_waiting(self@, my_age as nat),
    {
        self.generation == my_age && !self.system_end
    }

    /// The exchange has finished a tick: the arrivals are cleared and every
    /// sleeper is released.
    pub fn wake(&mut self)
        requires
            old(self)@.generation < usize::MAX,
        ensures
            final(self)@ == spec_wake(old(self)@),
    {
        self.wait_counter = 0;
        self.generation = self.generation + 1;
    }

    /// The simulation ends: every sleeper is released.
    pub fn shutdown(&mut self)
        ensures
            final(self)@ == spec_shutdown(old(self)@),
    {
        self.system_end = true;
    }

    /// How many threads have arrived since the last wake.
    pub fn wait_counter(&self) -> (n: usize)
        ensures
            n as nat == self@.wait_counter,
    {
        self.wait_counter
    }

    /// Whether the simulation has been told to end.
    pub fn system_end(&self) -> (e: bool)
        ensures
            e == self@.system_end,
    {
        self.system_end
    }

    /// The number of wakes so far.
    pub fn generation(&self) -> (g: usize)
        ensures
            g as nat == self@.generation,
    {
        self.generation
    }
}

/// The barrier after `n` more arrivals.
pub open spec fn spec_arrivals(b: TickBarrierView, n: nat) -> TickBarrierView
    decreases n,
{
    if n == 0 {
        b
    } else {
        spec_arrive(spec_arrivals(b, (n - 1) as nat)).0
    }
}

proof fn lemma_arrivals_keep(b: TickBarrierView, n: nat)
    ensures
        spec_arrivals(b, n).generation == b.generation,
        spec_arrivals(b, n).system_end == b.system_end,
    decreases n,
{
    if n > 0 {
        lemma_arrivals_keep(b, (n - 1) as nat);
    }
}

/// Arriving never releases anyone: a thread that has arrived, followed by any
/// number of other threads, still sleeps until a wake or a shutdown.
pub proof fn arrivals_keep_waiting(b: TickBarrierView, n: nat)
    requires
        !b.system_end,
    ensures
        spec_keeps_waiting(spec_arrivals(spec_arrive(b).0, n), spec_arrive(b).1),
{
    lemma_arrivals_keep(spec_arrive(b).0, n);
}

/// A wake releases every thread that arrived since the previous wake, however
/// many others arrived after it.
pub proof fn wake_releases_arrivals(b: TickBarrierView, n: nat)
    ensures
        !spec_keeps_waiting(spec_wake(spec_arrivals(spec_arrive(b).0, n)), spec_arrive(b).1),
{
    lemma_arrivals_keep(spec_arrive(b).0, n);
}

/// A shutdown releases every thread, whenever it arrived.
pub proof fn shutdown_releases_all(b: TickBarrierView, age: nat)
    ensures
        !spec_keeps_waiting(spec_shutdown(b), age),
{
}

/// After a wake the counter counts the arrivals: `n` arrivals leave it at `n`.
pub proof fn wake_then_arrivals_counted(b: TickBarrierView, n: nat)
    requires
        n <= usize::MAX,
    ensures
        spec_arrivals(spec_wake(b), n).wait_counter == n,
    decreases n,
{
    if n > 0 {
        wake_then_arrivals_counted(b, (n - 1) as nat);
    }
}

/// An operation on the barrier: a thread arriving ([`TickBarrier::wait`]),
/// a wake ([`TickBarrier::wake`]) or a shutdown ([`TickBarrier::shutdown`]).
#[derive(Clone, Copy, Debug, PartialEq, Eq, Structural)]
pub enum BarrierEvent {
    Wait,
    Wake,
    Shutdown,
}

/// The barrier after one operation.
pub open spec fn spec_apply(b: TickBarrierView, e: BarrierEvent) -> TickBarrierView {
    match e {
        BarrierEvent::Wait => spec_arrive(b).0,
        BarrierEvent::Wake => spec_wake(b),
        BarrierEvent::Shutdown => spec_shutdown(b),
    }
}

/// The barrier after a run of operations, in order.
pub open spec fn spec_run(b: TickBarrierView, es: Seq<BarrierEvent>) -> TickBarrierView
    decreases es.len(),
{
    if es.len() == 0 {
        b
    } else {
        spec_apply(spec_run(b, es.drop_last()), es.last())
    }
}

/// The number of wakes in a run.
pub open spec fn wakes(es: Seq<BarrierEvent>) -> nat
    decreases es.len(),
{
    if es.len() == 0 {
        0
    } else {
        wakes(es.drop_last()) + if es.last() == BarrierEvent::Wake { 1nat } else { 0nat }
    }
}

/// The number of arrivals in a run since its last wake (or since its start).
pub open spec fn waits_since_wake(es: Seq<BarrierEvent>) -> nat
    decreases es.len(),
{
    if es.len() == 0 {
        0
    } else if es.last() == BarrierEvent::Wake {
        0
    } else if es.last() == BarrierEvent::Wait {
        waits_since_wake(es.drop_last()) + 1
    } else {
        waits_since_wake(es.drop_last())
    }
}

/// Whether a run holds a shutdown.
pub open spec fn has_shutdown(es: Seq<BarrierEvent>) -> bool
    decreases es.len(),
{
    if es.len() == 0 {
        false
    } else {
        es.last() == BarrierEvent::Shutdown || has_shutdown(es.drop_last())
    }
}

/// A new barrier.
pub open spec fn spec_new() -> TickBarrierView {
    TickBarrierView { generation: 0, wait_counter: 0, system_end: false }
}

/// Whatever operations a new barrier goes through, in whatever order: its
/// generation is the number of wakes, it has ended exactly when a shutdown
/// came, and its counter is the number of arrivals since the last wake (while
/// that number fits in a `usize`, past which the counter wraps).
pub proof fn barrier_counts(es: Seq<BarrierEvent>)
    ensures
        spec_run(spec_new(), es).generation == wakes(es),
        spec_run(spec_new(), es).system_end == has_shutdown(es),
        waits_since_wake(es) <= usize::MAX ==> spec_run(spec_new(), es).wait_counter == waits_since_wake(es),
    decreases es.len(),
{
    if es.len() > 0 {
        barrier_counts(es.drop_last());
    }
}

} // verus!
