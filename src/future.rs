use vstd::prelude::*;

verus! {

/// The state of a computation that runs in the background.
#[derive(Clone, Copy, PartialEq, Eq, Structural, Debug)]
pub enum FutureState<T> {
    Running,
    Completed(T),
}

/// One subscriber of a `FutureSignal` to invoke, in order: a value slot (with
/// the signal's state) or a notify slot.
#[derive(Clone, Copy, PartialEq, Eq, Structural, Debug)]
pub enum Dispatch {
    Value(u64),
    Notify(u64),
}

/// A signal whose value is the result of a background computation. Each
/// `set` starts a new computation and hands out a ticket; the result comes
/// back through `complete` with that ticket, and only the ticket of the
/// latest `set` is accepted.
pub struct FutureSignal<T> {
    pub(crate) data: FutureState<T>,
    pub(crate) generation: u64,
    pub(crate) slots: Vec<u64>,
    pub(crate) notif_slots: Vec<u64>,
}

/// The dispatch list for value slots `s` and notify slots `n`, in order.
pub open spec fn dispatch_of(s: Seq<u64>, n: Seq<u64>) -> Seq<Dispatch> {
    s.map_values(|k: u64| Dispatch::Value(k)) + n.map_values(|k: u64| Dispatch::Notify(k))
}

impl<T> FutureSignal<T> {
    pub closed spec fn state(&self) -> FutureState<T> {
        self.data
    }

    /// The ticket of the latest computation started.
    pub closed spec fn generation(&self) -> u64 {
        self.generation
    }

    pub closed spec fn slots(&self) -> Seq<u64> {
        self.slots@
    }

    pub closed spec fn notif_slots(&self) -> Seq<u64> {
        self.notif_slots@
    }

    /// `self` is `old` after a new computation with ticket `t` was started.
    pub open spec fn started_from(&self, old: &Self, t: u64) -> bool {
        &&& old.generation() < u64::MAX
        &&& t == old.generation() + 1
        &&& self.generation() == t
        &&& self.state() == FutureState::<T>::Running
        &&& self.slots() == old.slots()
        &&& self.notif_slots() == old.notif_slots()
    }

    /// `self` is `old` after the result `value` of the computation with ticket
    /// `t` came back, and `r` are the subscribers to invoke.
    pub open spec fn completed_from(&self, old: &Self, t: u64, value: T, r: Seq<Dispatch>) -> bool {
        &&& self.generation() == old.generation()
        &&& self.slots() == old.slots()
        &&& self.notif_slots() == old.notif_slots()
        &&& if t == old.generation() && old.state() == FutureState::<T>::Running {
            &&& self.state() == FutureState::Completed(value)
            &&& r == dispatch_of(old.slots(), old.notif_slots())
        } else {
            &&& self.state() == old.state()
            &&& r.len() == 0
        }
    }

    /// A signal in the `Running` state with no computation started yet.
    pub fn empty() -> (r: Self)
        ensures
            r.state() == FutureState::<T>::Running,
            r.generation() == 0,
            r.slots().len() == 0,
            r.notif_slots().len() == 0,
    {
        FutureSignal {
            data: FutureState::Running,
            generation: 0,
            slots: Vec::new(),
            notif_slots: Vec::new(),
        }
    }

    /// A signal with its first computation started; the ticket of that
    /// computation is returned beside it.
    pub fn new() -> (r: (Self, u64))
        ensures
            r.0.state() == FutureState::<T>::Running,
            r.0.generation() == 1,
            r.1 == 1,
            r.0.slots().len() == 0,
            r.0.notif_slots().len() == 0,
    {
        let mut signal = Self::empty();
        let ticket = signal.set();
        (signal, ticket)
    }

    /// Starts a new computation: the state becomes `Running` at once, and the
    /// returned ticket is the one that `complete` will accept from now on.
    pub fn set(&mut self) -> (ticket: u64)
        requires
            old(self).generation() < u64::MAX,
        ensures
            final(self).started_from(old(self), ticket),
    {
        self.data = FutureState::Running;
        self.generation = self.generation + 1;
        self.generation
    }

    /// Takes the result of the computation with ticket `ticket`. The result of
    /// the latest computation, while it is still running, becomes the state and
    /// the subscribers are returned to be invoked: value slots in order of
    /// registration, then notify slots. The result of an earlier computation is
    /// dropped.
    pub fn complete(&mut self, ticket: u64, value: T) -> (r: Vec<Dispatch>)
        ensures
            final(self).completed_from(old(self), ticket, value, r@),
    {
        let running = match self.data {
            FutureState::Running => true,
            FutureState::Completed(_) => false,
        };
        if ticket == self.generation && running {
            self.data = FutureState::Completed(value);
            let mut r: Vec<Dispatch> = Vec::new();
            let mut i: usize = 0;
            while i < self.slots.len()
                invariant
                    i <= self.slots@.len(),
                    r@ == self.slots@.take(i as int).map_values(|k: u64| Dispatch::Value(k)),
                decreases self.slots@.len() - i,
            {
                r.push(Dispatch::Value(self.slots[i]));
                proof {
                    assert(self.slots@.take(i + 1) =~= self.slots@.take(i as int).push(self.slots@[i as int]));
                }
                i = i + 1;
            }
            proof {
                assert(self.slots@.take(i as int) =~= self.slots@);
            }
            let ghost first = r@;
            let mut j: usize = 0;
            while j < self.notif_slots.len()
                invariant
                    j <= self.notif_slots@.len(),
                    first == self.slots@.map_values(|k: u64| Dispatch::Value(k)),
                    r@ == first + self.notif_slots@.take(j as int).map_values(|k: u64| Dispatch::Notify(k)),
                decreases self.notif_slots@.len() - j,
            {
                r.push(Dispatch::Notify(self.notif_slots[j]));
                proof {
                    assert(self.notif_slots@.take(j + 1) =~= self.notif_slots@.take(j as int).push(self.notif_slots@[j as int]));
                }
                j = j + 1;
            }
            proof {
                assert(self.notif_slots@.take(j as int) =~= self.notif_slots@);
            }
            r
        } else {
            Vec::new()
        }
    }

    /// The ticket of the latest computation started (0 before the first).
    pub fn current_ticket(&self) -> (r: u64)
        ensures
            r == self.generation(),
    {
        self.generation
    }

    /// The current state.
    pub fn get(&self) -> (r: &FutureState<T>)
        ensures
            *r == self.state(),
    {
        &self.data
    }

    /// Registers value slot `slot`, invoked with the state when a result comes in.
    pub fn subscribe(&mut self, slot: u64)
        ensures
            final(self).state() == old(self).state(),
            final(self).generation() == old(self).generation(),
            final(self).slots() == old(self).slots().push(slot),
            final(self).notif_slots() == old(self).notif_slots(),
    {
        self.slots.push(slot);
    }

    /// Registers notify slot `slot`, invoked when a result comes in.
    pub fn notify(&mut self, slot: u64)
        ensures
            final(self).state() == old(self).state(),
            final(self).generation() == old(self).generation(),
            final(self).slots() == old(self).slots(),
            final(self).notif_slots() == old(self).notif_slots().push(slot),
    {
        self.notif_slots.push(slot);
    }
}

/// Starting a computation makes the signal read `Running` at once; when its
/// result comes back it reads `Completed` with that result, and each
/// subscriber registered before is invoked exactly once, in order.
pub proof fn lemma_future_round_trip<T>(
    f0: &FutureSignal<T>,
    f1: &FutureSignal<T>,
    f2: &FutureSignal<T>,
    t: u64,
    value: T,
    r: Seq<Dispatch>,
)
    requires
        f1.started_from(f0, t),
        f2.completed_from(f1, t, value, r),
    ensures
        f1.state() == FutureState::<T>::Running,
        f2.state() == FutureState::Completed(value),
        r == dispatch_of(f0.slots(), f0.notif_slots()),
        forall|j: int| 0 <= j < f0.slots().len() ==> r[j] == Dispatch::Value(#[trigger] f0.slots()[j]),
{
}

/// Once a newer computation was started, the result of an older one is
/// dropped: the state stays as it was and nobody is invoked.
pub proof fn lemma_future_stale_result_dropped<T>(
    f0: &FutureSignal<T>,
    f1: &FutureSignal<T>,
    f2: &FutureSignal<T>,
    old_ticket: u64,
    t: u64,
    value: T,
    r: Seq<Dispatch>,
)
    requires
        old_ticket <= f0.generation(),
        f1.started_from(f0, t),
        f2.completed_from(f1, old_ticket, value, r),
    ensures
        f2.state() == FutureState::<T>::Running,
        r.len() == 0,
{
}

} // verus!
