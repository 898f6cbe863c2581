use vstd::prelude::*;

verus! {

/// A subscriber to the value of a signal: a user slot, named by its key, or a
/// relative signal that is recomputed from this one.
#[derive(Clone, Copy, PartialEq, Eq, Structural, Debug)]
pub enum Listener {
    Slot(u64),
    Relative(usize),
}

/// A subscriber that is only told that something changed: a user slot, a
/// combined subscription that reads all its member signals when it runs, or
/// a relative signal of several sources that is recomputed from them.
#[derive(Clone, Debug, PartialEq, Eq)]
pub enum NotifListener {
    Slot(u64),
    Combined(u64, Vec<usize>),
    Relative(usize),
}

/// What an `Action` stands for, with its member list as a sequence.
pub enum ActionView {
    Call(u64, usize),
    Notify(u64),
    CallCombined(u64, Seq<usize>),
    Propagate(usize),
}

/// One step that the owner of the graph performs after a `set`, in order.
///
/// `Call(k, s)` invokes value slot `k` with the current value of signal `s`;
/// `Notify(k)` invokes notify slot `k`; `CallCombined(k, ms)` invokes slot `k`
/// with the current values of the signals `ms`, read when it runs;
/// `Propagate(s)` runs, in place, the steps of signal `s` (see `SignalGraph::plan`).
#[derive(Clone, Debug, PartialEq, Eq)]
pub enum Action {
    Call(u64, usize),
    Notify(u64),
    CallCombined(u64, Vec<usize>),
    Propagate(usize),
}

impl View for Action {
    type V = ActionView;

    open spec fn view(&self) -> ActionView {
        match self {
            Action::Call(k, s) => ActionView::Call(*k, *s),
            Action::Notify(k) => ActionView::Notify(*k),
            Action::CallCombined(k, ms) => ActionView::CallCombined(*k, ms@),
            Action::Propagate(s) => ActionView::Propagate(*s),
        }
    }
}

/// The views of a list of steps.
pub open spec fn actions_view(r: Seq<Action>) -> Seq<ActionView> {
    r.map_values(|a: Action| a@)
}

/// What a node of the graph is: a mutable root, an immutable constant, a
/// signal recomputed from `source` with the mapping keyed `map`, or a signal
/// recomputed from several sources with the combination keyed `map`.
#[derive(Clone, Copy, PartialEq, Eq, Structural, Debug)]
pub enum SignalKind {
    Root,
    Const,
    Relative(usize, u64),
    Combined(u64),
}

/// One node of the graph: its value, its two subscriber lists, and, for a
/// combination, its sources.
pub struct SignalInner<T> {
    pub(crate) kind: SignalKind,
    pub(crate) data: T,
    pub(crate) sources: Vec<usize>,
    pub(crate) slots: Vec<Listener>,
    pub(crate) notif_slots: Vec<NotifListener>,
}

/// A handle to a signal of a `SignalGraph`.
#[derive(Clone, Copy, PartialEq, Eq, Structural, Debug)]
pub struct Signal {
    pub index: usize,
}

impl Signal {
    /// A new root signal holding `data`, with no subscribers.
    pub fn new<T, M: Fn(u64, &T) -> T, N: Fn(u64, &Vec<&T>) -> T>(graph: &mut SignalGraph<T, M, N>, data: T) -> (r: Signal)
        requires
            old(graph).wf(),
            old(graph).len() < usize::MAX,
        ensures
            final(graph).wf(),
            final(graph).extends(old(graph)),
            final(graph).len() == old(graph).len() + 1,
            r.index == old(graph).len(),
            final(graph).kind(r.index as int) == SignalKind::Root,
            final(graph).value(r.index as int) == data,
            final(graph).slots(r.index as int) == Seq::<Listener>::empty(),
            final(graph).notif_slots(r.index as int) == Seq::<NotifListener>::empty(),
    {
        graph.push_node(SignalKind::Root, data, Vec::new())
    }

    /// A new constant signal holding `data`: it cannot be set and never notifies.
    pub fn constant<T, M: Fn(u64, &T) -> T, N: Fn(u64, &Vec<&T>) -> T>(graph: &mut SignalGraph<T, M, N>, data: T) -> (r: Signal)
        requires
            old(graph).wf(),
            old(graph).len() < usize::MAX,
        ensures
            final(graph).wf(),
            final(graph).extends(old(graph)),
            final(graph).len() == old(graph).len() + 1,
            r.index == old(graph).len(),
            final(graph).kind(r.index as int) == SignalKind::Const,
            final(graph).value(r.index as int) == data,
            final(graph).slots(r.index as int) == Seq::<Listener>::empty(),
            final(graph).notif_slots(r.index as int) == Seq::<NotifListener>::empty(),
    {
        graph.push_node(SignalKind::Const, data, Vec::new())
    }
}

/// A value subscriber of a signal is invoked once for each time it was
/// registered, in the order of registration, with the signal's new value,
/// before the notify subscribers.
pub proof fn lemma_set_calls_slots_in_order<T, M: Fn(u64, &T) -> T, N: Fn(u64, &Vec<&T>) -> T>(
    g: &SignalGraph<T, M, N>,
    s: int,
)
    requires
        g.wf(),
        0 <= s < g.len(),
    ensures
        g.plan_spec(s).len() == g.slots(s).len() + g.notif_slots(s).len(),
        forall|j: int|
            0 <= j < g.slots(s).len() ==> (#[trigger] g.slots(s)[j] matches Listener::Slot(k)
                ==> g.plan_spec(s)[j] == ActionView::Call(k, s as usize)),
{
}

/// At every moment, a relative signal holds what its mapping gives on the
/// current value of its source.
pub proof fn lemma_relative_agrees<T, M: Fn(u64, &T) -> T, N: Fn(u64, &Vec<&T>) -> T>(
    g: &SignalGraph<T, M, N>,
    d: int,
    s: usize,
    m: u64,
)
    requires
        g.wf(),
        0 <= d < g.len(),
        g.kind(d) == SignalKind::Relative(s, m),
    ensures
        s < d,
        call_ensures(g.mapper(), (m, &g.value(s as int)), g.value(d)),
{
    assert(g.relative_holds(d));
}

/// At every moment, a relative signal of several sources holds what its
/// combination gives on the current values of its sources, read in order.
pub proof fn lemma_relative_all_agrees<T, M: Fn(u64, &T) -> T, N: Fn(u64, &Vec<&T>) -> T>(
    g: &SignalGraph<T, M, N>,
    d: int,
    m: u64,
)
    requires
        g.wf(),
        0 <= d < g.len(),
        g.kind(d) == SignalKind::Combined(m),
    ensures
        forall|t: int| 0 <= t < g.sources(d).len() ==> #[trigger] g.sources(d)[t] < d,
        exists|args: Vec<&T>|
            #[trigger] g.args_match(args@, d) && call_ensures(g.combiner(), (m, &args), g.value(d)),
{
    assert(g.relative_holds(d));
}

/// A constant never notifies: the steps that follow it are none.
pub proof fn lemma_const_never_notifies<T, M: Fn(u64, &T) -> T, N: Fn(u64, &Vec<&T>) -> T>(g: &SignalGraph<T, M, N>, c: int)
    requires
        g.wf(),
        0 <= c < g.len(),
        g.kind(c) == SignalKind::Const,
    ensures
        g.plan_spec(c).len() == 0,
{
    assert(g.relative_holds(c));
}

/// Setting a root leaves every constant as it was.
pub proof fn lemma_set_keeps_constants<T, M: Fn(u64, &T) -> T, N: Fn(u64, &Vec<&T>) -> T>(
    g0: &SignalGraph<T, M, N>,
    g1: &SignalGraph<T, M, N>,
    s: int,
    c: int,
)
    requires
        g0.wf(),
        0 <= s < g0.len(),
        0 <= c < g0.len(),
        g0.kind(s) == SignalKind::Root,
        g0.kind(c) == SignalKind::Const,
        g1.set_frame(g0, s),
    ensures
        g1.kind(c) == SignalKind::Const,
        g1.value(c) == g0.value(c),
{
    assert(g1.kind(c) == g0.kind(c));
    assert(!g0.depends_on(c, s));
}

/// A combined subscription on a member runs once for each change of that
/// member, and reads all the members when it runs.
pub proof fn lemma_combined_fires_on_member<T, M: Fn(u64, &T) -> T, N: Fn(u64, &Vec<&T>) -> T>(
    g: &SignalGraph<T, M, N>,
    a: int,
    j: int,
    k: u64,
    ms: Seq<usize>,
)
    requires
        g.wf(),
        0 <= a < g.len(),
        0 <= j < g.notif_slots(a).len(),
        is_combined_entry(g.notif_slots(a)[j], k, ms),
    ensures
        g.plan_spec(a)[g.slots(a).len() + j] == ActionView::CallCombined(k, ms),
{
}

/// A read of a signal's value: either a value of its own or a borrow of the
/// value held in the graph. Either way it stands for one value of `T`.
pub enum SignalRef<'a, T> {
    Owned(T),
    Reference(&'a T),
}

impl<'a, T> SignalRef<'a, T> {
    /// The value read.
    pub open spec fn value(&self) -> T {
        match self {
            SignalRef::Owned(v) => *v,
            SignalRef::Reference(r) => **r,
        }
    }

    /// The value read, by reference.
    pub fn as_ref(&self) -> (r: &T)
        ensures
            *r == self.value(),
    {
        match self {
            SignalRef::Owned(v) => v,
            SignalRef::Reference(r) => r,
        }
    }

    /// A copy of the value read, made with `T`'s `clone`; it never holds on
    /// to the graph.
    pub fn cloned(&self) -> (r: T)
        where
            T: Clone,
        ensures
            vstd::pervasive::cloned(self.value(), r),
    {
        match self {
            SignalRef::Owned(v) => v.clone(),
            SignalRef::Reference(r) => (*r).clone(),
        }
    }
}

/// The step that a value subscriber turns into when signal `s` changes.
pub open spec fn listener_action(l: Listener, s: usize) -> ActionView {
    match l {
        Listener::Slot(k) => ActionView::Call(k, s),
        Listener::Relative(d) => ActionView::Propagate(d),
    }
}

/// The step that a notify subscriber turns into.
pub open spec fn notif_action(n: NotifListener) -> ActionView {
    match n {
        NotifListener::Slot(k) => ActionView::Notify(k),
        NotifListener::Combined(k, ms) => ActionView::CallCombined(k, ms@),
        NotifListener::Relative(d) => ActionView::Propagate(d),
    }
}

/// The arena of all signals of one owning thread. Relative signals are
/// recomputed with `map_fn`, which is called with the relative's mapping key
/// and the value of its source.
#[verifier::reject_recursive_types(T)]
pub struct SignalGraph<T, M: Fn(u64, &T) -> T, N: Fn(u64, &Vec<&T>) -> T> {
    pub(crate) nodes: Vec<SignalInner<T>>,
    pub(crate) map_fn: M,
    pub(crate) combine_fn: N,
}

/// How many times `i` occurs in `ms`.
pub open spec fn occurrences(ms: Seq<usize>, i: int) -> nat
    decreases ms.len(),
{
    if ms.len() == 0 {
        0
    } else {
        occurrences(ms.drop_last(), i) + if ms.last() == i {
            1nat
        } else {
            0nat
        }
    }
}

/// The indices of a list of signal handles.
pub open spec fn indices_of(ms: Seq<Signal>) -> Seq<usize> {
    ms.map_values(|m: Signal| m.index)
}

/// `e` is a combined subscription of slot `k` to the signals `ms`.
pub open spec fn is_combined_entry(e: NotifListener, k: u64, ms: Seq<usize>) -> bool {
    match e {
        NotifListener::Combined(k2, ms2) => k2 == k && ms2@ == ms,
        _ => false,
    }
}

/// A copy of a list of signal indices.
fn clone_indices(v: &Vec<usize>) -> (r: Vec<usize>)
    ensures
        r@ == v@,
{
    let mut r: Vec<usize> = Vec::new();
    let mut i: usize = 0;
    while i < v.len()
        invariant
            i <= v@.len(),
            r@ == v@.take(i as int),
        decreases v@.len() - i,
    {
        r.push(v[i]);
        proof {
            assert(v@.take(i + 1) =~= v@.take(i as int).push(v@[i as int]));
        }
        i = i + 1;
    }
    proof {
        assert(v@.take(i as int) =~= v@);
    }
    r
}

impl<T, M: Fn(u64, &T) -> T, N: Fn(u64, &Vec<&T>) -> T> SignalGraph<T, M, N> {
    pub closed spec fn len(&self) -> nat {
        self.nodes@.len()
    }

    pub closed spec fn kind(&self, i: int) -> SignalKind {
        self.nodes@[i].kind
    }

    pub closed spec fn value(&self, i: int) -> T {
        self.nodes@[i].data
    }

    pub closed spec fn slots(&self, i: int) -> Seq<Listener> {
        self.nodes@[i].slots@
    }

    pub closed spec fn notif_slots(&self, i: int) -> Seq<NotifListener> {
        self.nodes@[i].notif_slots@
    }

    pub closed spec fn sources(&self, i: int) -> Seq<usize> {
        self.nodes@[i].sources@
    }

    /// `args` reads, in order, the current values of the signals `srcs`.
    pub open spec fn args_read(&self, args: Seq<&T>, srcs: Seq<usize>) -> bool {
        &&& args.len() == srcs.len()
        &&& forall|t: int| 0 <= t < args.len() ==> *#[trigger] args[t] == self.value(srcs[t] as int)
    }

    /// `args` reads, in order, the current values of the sources of signal `i`.
    pub open spec fn args_match(&self, args: Seq<&T>, i: int) -> bool {
        self.args_read(args, self.sources(i))
    }

    pub closed spec fn mapper(&self) -> M {
        self.map_fn
    }

    pub closed spec fn combiner(&self) -> N {
        self.combine_fn
    }

    /// The value of a relative signal is what the mapping gives on its source.
    pub open spec fn relative_holds(&self, i: int) -> bool {
        match self.kind(i) {
            SignalKind::Relative(s, m) => s < i && self.kind(s as int) != SignalKind::Const
                && call_ensures(self.mapper(), (m, &self.value(s as int)), self.value(i)),
            SignalKind::Const => self.slots(i).len() == 0 && self.notif_slots(i).len() == 0,
            SignalKind::Root => true,
            SignalKind::Combined(m) => {
                &&& forall|t: int| 0 <= t < self.sources(i).len() ==> #[trigger] self.sources(i)[t] < i
                &&& exists|args: Vec<&T>|
                    #[trigger] self.args_match(args@, i) && call_ensures(
                        self.combiner(),
                        (m, &args),
                        self.value(i),
                    )
            },
        }
    }

    pub open spec fn listeners_in_range(&self, i: int) -> bool {
        &&& forall|j: int|
            0 <= j < self.slots(i).len() ==> match #[trigger] self.slots(i)[j] {
                Listener::Relative(d) => i < d < self.len(),
                Listener::Slot(_) => true,
            }
        &&& forall|j: int|
            0 <= j < self.notif_slots(i).len() ==> match #[trigger] self.notif_slots(i)[j] {
                NotifListener::Combined(_, ms) => forall|t: int|
                    0 <= t < ms@.len() ==> #[trigger] ms@[t] < self.len(),
                NotifListener::Slot(_) => true,
                NotifListener::Relative(d) => i < d < self.len(),
            }
    }

    /// Well-formedness: the mapping accepts every input, every relative signal
    /// agrees with its source, constants have no subscribers, and every index
    /// held by a subscriber names a node.
    pub open spec fn wf(&self) -> bool {
        &&& forall|k: u64, x: &T| #[trigger] call_requires(self.mapper(), (k, x))
        &&& forall|k: u64, xs: &Vec<&T>| #[trigger] call_requires(self.combiner(), (k, xs))
        &&& forall|i: int| 0 <= i < self.len() ==> #[trigger] self.relative_holds(i)
        &&& forall|i: int| 0 <= i < self.len() ==> #[trigger] self.listeners_in_range(i)
    }

    /// Signal `i` is recomputed when signal `s` is set.
    pub open spec fn depends_on(&self, i: int, s: int) -> bool
        decreases i,
    {
        if i <= 0 {
            false
        } else {
            match self.kind(i) {
                SignalKind::Relative(src, _) => src < i && (src == s || self.depends_on(
                    src as int,
                    s,
                )),
                SignalKind::Combined(_) => exists|t: int|
                    0 <= t < self.sources(i).len() && #[trigger] self.sources(i)[t] < i && (
                    self.sources(i)[t] == s || self.depends_on(self.sources(i)[t] as int, s)),
                _ => false,
            }
        }
    }

    /// The steps that follow a change of signal `s`: its value slots in the
    /// order of subscription, then its notify slots in the order of subscription.
    pub open spec fn plan_spec(&self, s: int) -> Seq<ActionView> {
        self.slots(s).map_values(|l: Listener| listener_action(l, s as usize)) + self.notif_slots(
            s,
        ).map_values(|n: NotifListener| notif_action(n))
    }

    /// Nothing but the value of root `s` and of the signals that depend on it changed.
    pub open spec fn set_frame(&self, old: &Self, s: int) -> bool {
        &&& self.len() == old.len()
        &&& self.mapper() == old.mapper()
        &&& self.combiner() == old.combiner()
        &&& forall|i: int|
            #![trigger self.kind(i)]
            #![trigger self.slots(i)]
            #![trigger self.notif_slots(i)]
            0 <= i < self.len() ==> {
                &&& self.kind(i) == old.kind(i)
                &&& self.sources(i) == old.sources(i)
                &&& self.slots(i) == old.slots(i)
                &&& self.notif_slots(i) == old.notif_slots(i)
            }
        &&& forall|i: int|
            0 <= i < self.len() && i != s && !old.depends_on(i, s) ==> #[trigger] self.value(i)
                == old.value(i)
    }

    /// A new graph without signals. Relative signals of one source will use
    /// `map_fn`, those of several sources `combine_fn`.
    pub fn new(map_fn: M, combine_fn: N) -> (r: Self)
        requires
            forall|k: u64, x: &T| #[trigger] call_requires(map_fn, (k, x)),
            forall|k: u64, xs: &Vec<&T>| #[trigger] call_requires(combine_fn, (k, xs)),
        ensures
            r.wf(),
            r.len() == 0,
            r.mapper() == map_fn,
            r.combiner() == combine_fn,
    {
        SignalGraph { nodes: Vec::new(), map_fn, combine_fn }
    }

    fn push_node(&mut self, kind: SignalKind, data: T, sources: Vec<usize>) -> (r: Signal)
        requires
            old(self).wf(),
            old(self).len() < usize::MAX,
            match kind {
                SignalKind::Relative(s, m) => s < old(self).len() && old(self).kind(s as int)
                    != SignalKind::Const && call_ensures(
                    old(self).map_fn,
                    (m, &old(self).value(s as int)),
                    data,
                ),
                SignalKind::Combined(m) => {
                    &&& forall|t: int| 0 <= t < sources@.len() ==> #[trigger] sources@[t] < old(self).len()
                    &&& exists|args: Vec<&T>|
                        #[trigger] old(self).args_read(args@, sources@) && call_ensures(
                            old(self).combiner(),
                            (m, &args),
                            data,
                        )
                },
                _ => true,
            },
        ensures
            final(self).wf(),
            r.index == old(self).len(),
            final(self).len() == old(self).len() + 1,
            final(self).map_fn == old(self).map_fn,
            final(self).combine_fn == old(self).combine_fn,
            final(self).nodes@.take(old(self).len() as int) == old(self).nodes@,
            final(self).kind(r.index as int) == kind,
            final(self).value(r.index as int) == data,
            final(self).sources(r.index as int) == sources@,
            final(self).slots(r.index as int) == Seq::<Listener>::empty(),
            final(self).notif_slots(r.index as int) == Seq::<NotifListener>::empty(),
    {
        let index = self.nodes.len();
        self.nodes.push(SignalInner { kind, data, sources, slots: Vec::new(), notif_slots: Vec::new() });
        proof {
            assert(self.nodes@.take(old(self).len() as int) =~= old(self).nodes@);
            assert forall|k: u64, x: &T| #[trigger] call_requires(self.mapper(), (k, x)) by {
                assert(call_requires(old(self).mapper(), (k, x)));
            }
            assert forall|k: u64, xs: &Vec<&T>| #[trigger] call_requires(self.combiner(), (k, xs)) by {
                assert(call_requires(old(self).combiner(), (k, xs)));
            }
            assert forall|i: int| 0 <= i < self.len() implies #[trigger] self.relative_holds(i) by {
                if i < index {
                    assert(old(self).relative_holds(i));
                    assert(self.nodes@[i] == old(self).nodes@[i]);
                    if let SignalKind::Combined(m) = self.kind(i) {
                        let args = choose|args: Vec<&T>|
                            #[trigger] old(self).args_match(args@, i) && call_ensures(
                                old(self).combiner(),
                                (m, &args),
                                old(self).value(i),
                            );
                        assert(self.args_match(args@, i));
                    }
                } else {
                    if let SignalKind::Combined(m) = kind {
                        let args = choose|args: Vec<&T>|
                            #[trigger] old(self).args_read(args@, self.sources(i)) && call_ensures(
                                old(self).combiner(),
                                (m, &args),
                                data,
                            );
                        assert(self.args_match(args@, i));
                    }
                }
            }
            assert forall|i: int| 0 <= i < self.len() implies #[trigger] self.listeners_in_range(
                i,
            ) by {
                if i < index {
                    assert(old(self).listeners_in_range(i));
                    assert(self.slots(i) == old(self).slots(i));
                    assert(self.notif_slots(i) == old(self).notif_slots(i));
                    assert forall|j: int| 0 <= j < self.notif_slots(i).len() implies match #[trigger] self.notif_slots(i)[j] {
                        NotifListener::Combined(_, ms) => forall|t: int|
                            0 <= t < ms@.len() ==> #[trigger] ms@[t] < self.len(),
                        NotifListener::Slot(_) => true,
                        NotifListener::Relative(d) => i < d < self.len(),
                    } by {
                        assert(old(self).notif_slots(i)[j] == self.notif_slots(i)[j]);
                    }
                }
            }
        }
        Signal { index }
    }

    /// Replaces the value of root `signal` with `data` and recomputes, in order
    /// of creation, every relative signal that depends on it. Returns the steps
    /// that the owner then performs, in order: `plan_spec` of `signal`.
    pub fn set(&mut self, signal: Signal, data: T) -> (r: Vec<Action>)
        requires
            old(self).wf(),
            signal.index < old(self).len(),
            old(self).kind(signal.index as int) == SignalKind::Root,
        ensures
            final(self).wf(),
            final(self).value(signal.index as int) == data,
            final(self).set_frame(old(self), signal.index as int),
            actions_view(r@) == final(self).plan_spec(signal.index as int),
    {
        let s = signal.index;
        let n = self.nodes.len();
        self.nodes[s].data = data;
        proof {
            assert forall|k: u64, x: &T| #[trigger] call_requires(self.mapper(), (k, x)) by {
                assert(call_requires(old(self).mapper(), (k, x)));
            }
            assert forall|k: u64, xs: &Vec<&T>| #[trigger] call_requires(self.combiner(), (k, xs)) by {
                assert(call_requires(old(self).combiner(), (k, xs)));
            }
        }
        let mut dirty: Vec<bool> = Vec::new();
        let mut i: usize = 0;
        while i < n
            invariant
                n == self.len(),
                n == old(self).len(),
                s < n,
                i <= n,
                dirty@.len() == i,
                self.map_fn == old(self).map_fn,
                self.combine_fn == old(self).combine_fn,
                forall|k: u64, x: &T| #[trigger] call_requires(self.mapper(), (k, x)),
                forall|k: u64, xs: &Vec<&T>| #[trigger] call_requires(self.combiner(), (k, xs)),
                forall|j: int|
                    0 <= j < n ==> {
                        &&& #[trigger] self.kind(j) == old(self).kind(j)
                        &&& self.sources(j) == old(self).sources(j)
                        &&& self.slots(j) == old(self).slots(j)
                        &&& self.notif_slots(j) == old(self).notif_slots(j)
                    },
                forall|j: int| 0 <= j < n ==> #[trigger] old(self).relative_holds(j),
                self.kind(s as int) == SignalKind::Root,
                self.value(s as int) == data,
                forall|j: int|
                    0 <= j < i ==> #[trigger] dirty@[j] == (j == s || old(self).depends_on(j, s as int)),
                forall|j: int| i <= j < n && j != s ==> #[trigger] self.value(j) == old(self).value(j),
                forall|j: int|
                    0 <= j < i && !dirty@[j] ==> #[trigger] self.value(j) == old(self).value(j),
                forall|j: int| 0 <= j < i ==> #[trigger] self.relative_holds(j),
            decreases n - i,
        {
            proof {
                assert(self.kind(i as int) == old(self).kind(i as int));
                assert(old(self).relative_holds(i as int));
            }
            let needs = if i == s {
                true
            } else {
                match self.nodes[i].kind {
                    SignalKind::Relative(src, _) => dirty[src],
                    SignalKind::Combined(_) => self.any_dirty(i, &dirty),
                    _ => false,
                }
            };
            proof {
                if i != s {
                    if let SignalKind::Combined(_) = self.kind(i as int) {
                        let srcs = self.sources(i as int);
                        if needs {
                            let t = choose|t: int| 0 <= t < srcs.len() && #[trigger] dirty@[srcs[t] as int];
                            assert(srcs[t] < i);
                            assert(old(self).sources(i as int)[t] == srcs[t]);
                            assert(old(self).depends_on(i as int, s as int));
                        } else {
                            if old(self).depends_on(i as int, s as int) {
                                let t = choose|t: int|
                                    0 <= t < old(self).sources(i as int).len() && #[trigger] old(self).sources(
                                        i as int,
                                    )[t] < i && (old(self).sources(i as int)[t] == s || old(self).depends_on(
                                        old(self).sources(i as int)[t] as int,
                                        s as int,
                                    ));
                                assert(dirty@[srcs[t] as int]);
                            }
                        }
                    }
                }
                assert(needs == (i == s || old(self).depends_on(i as int, s as int)));
            }
            let x = if needs && i != s {
                match self.nodes[i].kind {
                    SignalKind::Relative(src, m) => {
                        proof {
                            assert(call_requires(self.mapper(), (m, &self.nodes@[src as int].data)));
                        }
                        Some((self.map_fn)(m, &self.nodes[src].data))
                    },
                    SignalKind::Combined(m) => Some(self.combine_at(i, m)),
                    _ => None,
                }
            } else {
                None
            };
            let ghost g0 = *self;
            let ghost gx = x;
            if let Some(v) = x {
                self.nodes[i].data = v;
            }
            let changed = needs;
            dirty.push(changed);
            proof {
                assert forall|j: int| 0 <= j < n implies {
                    &&& #[trigger] self.kind(j) == old(self).kind(j)
                    &&& self.sources(j) == old(self).sources(j)
                    &&& self.slots(j) == old(self).slots(j)
                    &&& self.notif_slots(j) == old(self).notif_slots(j)
                    &&& (j != i ==> self.value(j) == g0.value(j))
                } by {
                    assert(g0.kind(j) == old(self).kind(j));
                }
                assert forall|j: int| i < j < n && j != s implies #[trigger] self.value(j)
                    == old(self).value(j) by {
                    assert(g0.value(j) == old(self).value(j));
                }
                assert forall|j: int| 0 <= j < i + 1 && !dirty@[j] implies #[trigger] self.value(j)
                    == old(self).value(j) by {
                    if j < i {
                        assert(g0.value(j) == old(self).value(j));
                    }
                }
                assert forall|j: int| 0 <= j < i implies #[trigger] self.relative_holds(j) by {
                    assert(g0.relative_holds(j));
                    assert forall|u: int| 0 <= u < j implies #[trigger] self.value(u) == g0.value(u)
                        && self.kind(u) == g0.kind(u) by {
                        assert(self.kind(u) == old(self).kind(u));
                        assert(g0.kind(u) == old(self).kind(u));
                    }
                    assert(g0.kind(j) == old(self).kind(j));
                    self.lemma_relative_holds_kept(&g0, j);
                }
                assert forall|k: u64, x: &T| #[trigger] call_requires(self.mapper(), (k, x)) by {
                    assert(call_requires(g0.mapper(), (k, x)));
                }
                assert forall|k: u64, xs: &Vec<&T>| #[trigger] call_requires(self.combiner(), (k, xs)) by {
                    assert(call_requires(g0.combiner(), (k, xs)));
                }
                if let Some(v) = gx {
                    assert(self.value(i as int) == v);
                    match self.kind(i as int) {
                        SignalKind::Relative(src, m) => {
                            assert(self.value(src as int) == g0.value(src as int));
                        },
                        SignalKind::Combined(m) => {
                            let args = choose|args: Vec<&T>|
                                #[trigger] g0.args_match(args@, i as int) && call_ensures(g0.combiner(), (m, &args), v);
                            assert forall|t: int| 0 <= t < args@.len() implies *#[trigger] args@[t] == self.value(
                                self.sources(i as int)[t] as int,
                            ) by {
                                let src = self.sources(i as int)[t];
                                assert(src < i);
                                assert(self.value(src as int) == g0.value(src as int));
                            }
                            assert(self.args_match(args@, i as int));
                        },
                        _ => {},
                    }
                }
                self.lemma_step_holds(old(self), &g0, i as int, s as int, dirty@);
            }
            i = i + 1;
        }
        proof {
            assert forall|j: int| 0 <= j < n implies #[trigger] self.listeners_in_range(j) by {
                assert(self.kind(j) == old(self).kind(j));
                assert(old(self).listeners_in_range(j));
                assert forall|t: int| 0 <= t < self.notif_slots(j).len() implies match #[trigger] self.notif_slots(j)[t] {
                    NotifListener::Combined(_, ms) => forall|u: int|
                        0 <= u < ms@.len() ==> #[trigger] ms@[u] < self.len(),
                    NotifListener::Slot(_) => true,
                    NotifListener::Relative(d) => j < d < self.len(),
                } by {
                    assert(old(self).notif_slots(j)[t] == self.notif_slots(j)[t]);
                }
            }
            assert forall|j: int| 0 <= j < n && j != s && !old(self).depends_on(j, s as int) implies #[trigger] self.value(j) == old(self).value(j) by {
                assert(!dirty@[j]);
            }
        }
        self.plan(signal)
    }

    /// Whether some source of combination `i` is marked in `dirty`.
    fn any_dirty(&self, i: usize, dirty: &Vec<bool>) -> (r: bool)
        requires
            i < self.len(),
            dirty@.len() == i,
            forall|t: int| 0 <= t < self.sources(i as int).len() ==> #[trigger] self.sources(i as int)[t] < i,
        ensures
            r == exists|t: int| 0 <= t < self.sources(i as int).len() && #[trigger] dirty@[self.sources(i as int)[t] as int],
    {
        let srcs = &self.nodes[i].sources;
        let mut any = false;
        let mut t: usize = 0;
        while t < srcs.len()
            invariant
                t <= srcs@.len(),
                srcs@ == self.sources(i as int),
                dirty@.len() == i,
                forall|u: int| 0 <= u < srcs@.len() ==> #[trigger] srcs@[u] < i,
                any == exists|u: int| 0 <= u < t && #[trigger] dirty@[srcs@[u] as int],
            decreases srcs@.len() - t,
        {
            if dirty[srcs[t]] {
                any = true;
            }
            t = t + 1;
        }
        any
    }

    /// The combination keyed `m` of the current values of the sources of `i`.
    fn combine_at(&self, i: usize, m: u64) -> (r: T)
        requires
            i < self.len(),
            forall|t: int| 0 <= t < self.sources(i as int).len() ==> #[trigger] self.sources(i as int)[t] < self.len(),
            forall|k: u64, xs: &Vec<&T>| #[trigger] call_requires(self.combiner(), (k, xs)),
        ensures
            exists|args: Vec<&T>| #[trigger] self.args_match(args@, i as int) && call_ensures(self.combiner(), (m, &args), r),
    {
        let srcs = &self.nodes[i].sources;
        let mut args: Vec<&T> = Vec::new();
        let mut t: usize = 0;
        while t < srcs.len()
            invariant
                t <= srcs@.len(),
                srcs@ == self.sources(i as int),
                forall|u: int| 0 <= u < srcs@.len() ==> #[trigger] srcs@[u] < self.len(),
                args@.len() == t,
                forall|u: int| 0 <= u < t ==> *#[trigger] args@[u] == self.value(srcs@[u] as int),
            decreases srcs@.len() - t,
        {
            args.push(&self.nodes[srcs[t]].data);
            t = t + 1;
        }
        proof {
            assert(call_requires(self.combiner(), (m, &args)));
        }
        let r = (self.combine_fn)(m, &args);
        proof {
            assert(self.args_match(args@, i as int));
        }
        r
    }

    /// After step `i` of `set`, signal `i` agrees with its sources again.
    proof fn lemma_step_holds(&self, old: &Self, g0: &Self, i: int, s: int, dirty: Seq<bool>)
        requires
            0 <= i < self.len(),
            0 <= s < self.len(),
            self.len() == old.len(),
            old.relative_holds(i),
            self.mapper() == old.mapper(),
            self.combiner() == old.combiner(),
            dirty.len() == i + 1,
            forall|j: int|
                0 <= j < self.len() ==> {
                    &&& #[trigger] self.kind(j) == old.kind(j)
                    &&& self.sources(j) == old.sources(j)
                    &&& self.slots(j) == old.slots(j)
                    &&& self.notif_slots(j) == old.notif_slots(j)
                },
            forall|j: int| 0 <= j <= i ==> #[trigger] dirty[j] == (j == s || old.depends_on(j, s)),
            forall|j: int| 0 <= j < i && !dirty[j] ==> #[trigger] self.value(j) == old.value(j),
            self.kind(s) == SignalKind::Root,
            !dirty[i] ==> self.value(i) == old.value(i),
            dirty[i] && i != s ==> match self.kind(i) {
                SignalKind::Relative(src, m) => call_ensures(self.mapper(), (m, &self.value(src as int)), self.value(i)),
                SignalKind::Combined(m) => exists|args: Vec<&T>| #[trigger] self.args_match(args@, i) && call_ensures(self.combiner(), (m, &args), self.value(i)),
                _ => true,
            },
        ensures
            self.relative_holds(i),
    {
        assert(self.kind(i) == old.kind(i));
        match self.kind(i) {
            SignalKind::Relative(src, m) => {
                assert(self.kind(src as int) == old.kind(src as int));
                if !dirty[i] {
                    assert(i != s);
                    assert(!dirty[src as int]);
                    assert(self.value(src as int) == old.value(src as int));
                }
            },
            SignalKind::Combined(m) => {
                if !dirty[i] {
                    let args = choose|args: Vec<&T>|
                        #[trigger] old.args_match(args@, i) && call_ensures(old.combiner(), (m, &args), old.value(i));
                    assert forall|t: int| 0 <= t < args@.len() implies *#[trigger] args@[t] == self.value(
                        self.sources(i)[t] as int,
                    ) by {
                        let src = self.sources(i)[t];
                        assert(src < i);
                        assert(!dirty[src as int]);
                    }
                    assert(self.args_match(args@, i));
                }
            },
            _ => {},
        }
    }

    /// The steps that follow a change of `signal` (see `set`); the owner calls
    /// it for each `Propagate` step that it reaches.
    pub fn plan(&self, signal: Signal) -> (r: Vec<Action>)
        requires
            self.wf(),
            signal.index < self.len(),
        ensures
            actions_view(r@) == self.plan_spec(signal.index as int),
    {
        let s = signal.index;
        let slots = &self.nodes[s].slots;
        let notifs = &self.nodes[s].notif_slots;
        let mut r: Vec<Action> = Vec::new();
        let mut i: usize = 0;
        while i < slots.len()
            invariant
                i <= slots@.len(),
                slots@ == self.slots(s as int),
                actions_view(r@) == slots@.take(i as int).map_values(
                    |l: Listener| listener_action(l, s),
                ),
            decreases slots@.len() - i,
        {
            let a = match slots[i] {
                Listener::Slot(k) => Action::Call(k, s),
                Listener::Relative(d) => Action::Propagate(d),
            };
            let ghost prev = r@;
            r.push(a);
            proof {
                assert(slots@.take(i + 1) =~= slots@.take(i as int).push(slots@[i as int]));
                assert(r@ =~= prev.push(a));
                assert(actions_view(r@) =~= actions_view(prev).push(a@));
            }
            i = i + 1;
        }
        proof {
            assert(slots@.take(i as int) =~= slots@);
        }
        let ghost first = actions_view(r@);
        let mut j: usize = 0;
        while j < notifs.len()
            invariant
                j <= notifs@.len(),
                notifs@ == self.notif_slots(s as int),
                first == slots@.map_values(|l: Listener| listener_action(l, s)),
                actions_view(r@) == first + notifs@.take(j as int).map_values(
                    |n: NotifListener| notif_action(n),
                ),
            decreases notifs@.len() - j,
        {
            let a = match &notifs[j] {
                NotifListener::Slot(k) => Action::Notify(*k),
                NotifListener::Combined(k, ms) => Action::CallCombined(*k, clone_indices(ms)),
                NotifListener::Relative(d) => Action::Propagate(*d),
            };
            let ghost prev = r@;
            r.push(a);
            proof {
                assert(notifs@.take(j + 1) =~= notifs@.take(j as int).push(notifs@[j as int]));
                assert(r@ =~= prev.push(a));
                assert(actions_view(r@) =~= actions_view(prev).push(a@));
            }
            j = j + 1;
        }
        proof {
            assert(notifs@.take(j as int) =~= notifs@);
        }
        r
    }

    /// The graph is `old` with signals added after its last one.
    pub open spec fn extends(&self, old: &Self) -> bool {
        &&& self.len() > old.len()
        &&& self.prefix_unchanged_except(old, old.len() as int, -1)
        &&& forall|i: int| 0 <= i < old.len() ==> #[trigger] self.slots(i) == old.slots(i)
    }

    /// Everything but the subscriber lists of signal `s` is as in `old`.
    pub open spec fn unchanged_except(&self, old: &Self, s: int) -> bool {
        &&& self.len() == old.len()
        &&& self.mapper() == old.mapper()
        &&& self.combiner() == old.combiner()
        &&& forall|i: int|
            #![trigger self.kind(i)]
            #![trigger self.value(i)]
            #![trigger self.slots(i)]
            #![trigger self.notif_slots(i)]
            0 <= i < self.len() ==> {
                &&& self.kind(i) == old.kind(i)
                &&& self.sources(i) == old.sources(i)
                &&& self.value(i) == old.value(i)
                &&& (i != s ==> self.slots(i) == old.slots(i))
                &&& (i != s ==> self.notif_slots(i) == old.notif_slots(i))
            }
    }

    /// The signals before `n` are as in `old`, but for the value subscribers of `s`.
    pub open spec fn prefix_unchanged_except(&self, old: &Self, n: int, s: int) -> bool {
        &&& self.mapper() == old.mapper()
        &&& self.combiner() == old.combiner()
        &&& forall|i: int|
            #![trigger self.kind(i)]
            #![trigger self.value(i)]
            #![trigger self.slots(i)]
            #![trigger self.notif_slots(i)]
            0 <= i < n ==> {
                &&& self.kind(i) == old.kind(i)
                &&& self.sources(i) == old.sources(i)
                &&& self.value(i) == old.value(i)
                &&& self.notif_slots(i) == old.notif_slots(i)
                &&& (i != s ==> self.slots(i) == old.slots(i))
            }
    }

    /// A signal whose kind, sources and value are as in `g0`, and whose
    /// sources hold what they held in `g0`, still agrees with its sources.
    proof fn lemma_relative_holds_kept(&self, g0: &Self, j: int)
        requires
            g0.relative_holds(j),
            self.mapper() == g0.mapper(),
            self.combiner() == g0.combiner(),
            self.kind(j) == g0.kind(j),
            self.sources(j) == g0.sources(j),
            self.value(j) == g0.value(j),
            self.kind(j) == SignalKind::Const ==> self.slots(j) == g0.slots(j)
                && self.notif_slots(j) == g0.notif_slots(j),
            forall|u: int| 0 <= u < j ==> #[trigger] self.value(u) == g0.value(u) && self.kind(u)
                == g0.kind(u),
        ensures
            self.relative_holds(j),
    {
        match self.kind(j) {
            SignalKind::Relative(src, _) => {
                assert(self.value(src as int) == g0.value(src as int));
            },
            SignalKind::Combined(m) => {
                let args = choose|args: Vec<&T>|
                    #[trigger] g0.args_match(args@, j) && call_ensures(g0.combiner(), (m, &args), g0.value(j));
                assert forall|t: int| 0 <= t < args@.len() implies *#[trigger] args@[t] == self.value(
                    self.sources(j)[t] as int,
                ) by {
                    assert(self.value(self.sources(j)[t] as int) == g0.value(self.sources(j)[t] as int));
                }
                assert(self.args_match(args@, j));
            },
            _ => {},
        }
    }

    proof fn lemma_push_slot_wf(&self, g0: &Self, s: int, l: Listener)
        requires
            g0.wf(),
            0 <= s < g0.len(),
            g0.kind(s) != SignalKind::Const,
            self.unchanged_except(g0, s),
            self.notif_slots(s) == g0.notif_slots(s),
            self.slots(s) == g0.slots(s).push(l),
            match l {
                Listener::Relative(d) => s < d < g0.len(),
                Listener::Slot(_) => true,
            },
        ensures
            self.wf(),
    {
        assert forall|k: u64, xs: &Vec<&T>| #[trigger] call_requires(self.combiner(), (k, xs)) by {
            assert(call_requires(g0.combiner(), (k, xs)));
        }
        assert forall|i: int| 0 <= i < self.len() implies #[trigger] self.relative_holds(i) by {
            assert(g0.relative_holds(i));
            assert(self.kind(i) == g0.kind(i));
            assert forall|u: int| 0 <= u < i implies #[trigger] self.value(u) == g0.value(u) && self.kind(u)
                == g0.kind(u) by {
                assert(self.kind(u) == g0.kind(u));
            }
            self.lemma_relative_holds_kept(g0, i);
        }
        assert forall|i: int| 0 <= i < self.len() implies #[trigger] self.listeners_in_range(i) by {
            assert(g0.listeners_in_range(i));
            assert(self.kind(i) == g0.kind(i));
            assert forall|j: int| 0 <= j < self.slots(i).len() implies match #[trigger] self.slots(i)[j] {
                Listener::Relative(d) => i < d < self.len(),
                Listener::Slot(_) => true,
            } by {
                if i != s || j < g0.slots(s).len() {
                    assert(self.slots(i)[j] == g0.slots(i)[j]);
                }
            }
            assert forall|j: int| 0 <= j < self.notif_slots(i).len() implies match #[trigger] self.notif_slots(i)[j] {
                NotifListener::Combined(_, ms) => forall|t: int|
                    0 <= t < ms@.len() ==> #[trigger] ms@[t] < self.len(),
                NotifListener::Slot(_) => true,
                NotifListener::Relative(d) => i < d < self.len(),
            } by {
                assert(self.notif_slots(i)[j] == g0.notif_slots(i)[j]);
            }
        }
    }

    proof fn lemma_push_notif_wf(&self, g0: &Self, s: int, e: NotifListener)
        requires
            g0.wf(),
            0 <= s < g0.len(),
            g0.kind(s) != SignalKind::Const,
            self.unchanged_except(g0, s),
            self.slots(s) == g0.slots(s),
            self.notif_slots(s) == g0.notif_slots(s).push(e),
            match e {
                NotifListener::Combined(_, ms) => forall|t: int|
                    0 <= t < ms@.len() ==> #[trigger] ms@[t] < g0.len(),
                NotifListener::Slot(_) => true,
                NotifListener::Relative(d) => s < d < g0.len(),
            },
        ensures
            self.wf(),
    {
        assert forall|k: u64, xs: &Vec<&T>| #[trigger] call_requires(self.combiner(), (k, xs)) by {
            assert(call_requires(g0.combiner(), (k, xs)));
        }
        assert forall|i: int| 0 <= i < self.len() implies #[trigger] self.relative_holds(i) by {
            assert(g0.relative_holds(i));
            assert(self.kind(i) == g0.kind(i));
            assert forall|u: int| 0 <= u < i implies #[trigger] self.value(u) == g0.value(u) && self.kind(u)
                == g0.kind(u) by {
                assert(self.kind(u) == g0.kind(u));
            }
            self.lemma_relative_holds_kept(g0, i);
        }
        assert forall|i: int| 0 <= i < self.len() implies #[trigger] self.listeners_in_range(i) by {
            assert(g0.listeners_in_range(i));
            assert(self.kind(i) == g0.kind(i));
            assert forall|j: int| 0 <= j < self.slots(i).len() implies match #[trigger] self.slots(i)[j] {
                Listener::Relative(d) => i < d < self.len(),
                Listener::Slot(_) => true,
            } by {
                assert(self.slots(i)[j] == g0.slots(i)[j]);
            }
            assert forall|j: int| 0 <= j < self.notif_slots(i).len() implies match #[trigger] self.notif_slots(i)[j] {
                NotifListener::Combined(_, ms) => forall|t: int|
                    0 <= t < ms@.len() ==> #[trigger] ms@[t] < self.len(),
                NotifListener::Slot(_) => true,
                NotifListener::Relative(d) => i < d < self.len(),
            } by {
                if i != s || j < g0.notif_slots(s).len() {
                    assert(self.notif_slots(i)[j] == g0.notif_slots(i)[j]);
                }
            }
        }
    }

    /// Registers value slot `slot` on `signal`; a constant never changes, so on
    /// a constant nothing is registered.
    pub fn subscribe(&mut self, signal: Signal, slot: u64)
        requires
            old(self).wf(),
            signal.index < old(self).len(),
        ensures
            final(self).wf(),
            final(self).unchanged_except(old(self), signal.index as int),
            final(self).notif_slots(signal.index as int) == old(self).notif_slots(
                signal.index as int,
            ),
            old(self).kind(signal.index as int) == SignalKind::Const ==> final(self).slots(
                signal.index as int,
            ) == old(self).slots(signal.index as int),
            old(self).kind(signal.index as int) != SignalKind::Const ==> final(self).slots(
                signal.index as int,
            ) == old(self).slots(signal.index as int).push(Listener::Slot(slot)),
    {
        let s = signal.index;
        if let SignalKind::Const = self.nodes[s].kind {
            return;
        }
        let ghost g0 = *self;
        self.nodes[s].slots.push(Listener::Slot(slot));
        proof {
            assert forall|i: int| 0 <= i < self.len() implies {
                &&& #[trigger] self.kind(i) == g0.kind(i)
                &&& self.value(i) == g0.value(i)
                &&& (i != s ==> self.slots(i) == g0.slots(i))
                &&& (i != s ==> self.notif_slots(i) == g0.notif_slots(i))
            } by {}
            self.lemma_push_slot_wf(&g0, s as int, Listener::Slot(slot));
        }
    }

    /// Registers notify slot `slot` on `signal`; on a constant nothing is registered.
    pub fn notify(&mut self, signal: Signal, slot: u64)
        requires
            old(self).wf(),
            signal.index < old(self).len(),
        ensures
            final(self).wf(),
            final(self).unchanged_except(old(self), signal.index as int),
            final(self).slots(signal.index as int) == old(self).slots(signal.index as int),
            old(self).kind(signal.index as int) == SignalKind::Const ==> final(self).notif_slots(
                signal.index as int,
            ) == old(self).notif_slots(signal.index as int),
            old(self).kind(signal.index as int) != SignalKind::Const ==> final(self).notif_slots(
                signal.index as int,
            ) == old(self).notif_slots(signal.index as int).push(NotifListener::Slot(slot)),
    {
        let s = signal.index;
        if let SignalKind::Const = self.nodes[s].kind {
            return;
        }
        let ghost g0 = *self;
        self.nodes[s].notif_slots.push(NotifListener::Slot(slot));
        proof {
            assert forall|i: int| 0 <= i < self.len() implies {
                &&& #[trigger] self.kind(i) == g0.kind(i)
                &&& self.value(i) == g0.value(i)
                &&& (i != s ==> self.slots(i) == g0.slots(i))
                &&& (i != s ==> self.notif_slots(i) == g0.notif_slots(i))
            } by {}
            self.lemma_push_notif_wf(&g0, s as int, NotifListener::Slot(slot));
        }
    }

    /// A new signal whose value is the mapping keyed `map` applied to the value
    /// of `source`, recomputed whenever `source` is set. On a constant source
    /// the result is itself a constant, computed once, and nothing is subscribed.
    pub fn relative(&mut self, source: Signal, map: u64) -> (r: Signal)
        requires
            old(self).wf(),
            source.index < old(self).len(),
            old(self).len() < usize::MAX,
        ensures
            final(self).wf(),
            r.index == old(self).len(),
            final(self).len() == old(self).len() + 1,
            final(self).mapper() == old(self).mapper(),
            call_ensures(
                old(self).mapper(),
                (map, &old(self).value(source.index as int)),
                final(self).value(r.index as int),
            ),
            old(self).kind(source.index as int) == SignalKind::Const ==> final(self).kind(
                r.index as int,
            ) == SignalKind::Const,
            old(self).kind(source.index as int) != SignalKind::Const ==> final(self).kind(
                r.index as int,
            ) == SignalKind::Relative(source.index, map),
            final(self).slots(r.index as int) == Seq::<Listener>::empty(),
            final(self).notif_slots(r.index as int) == Seq::<NotifListener>::empty(),
            final(self).prefix_unchanged_except(old(self), old(self).len() as int, source.index as int),
            old(self).kind(source.index as int) == SignalKind::Const ==> final(self).slots(
                source.index as int,
            ) == old(self).slots(source.index as int),
            old(self).kind(source.index as int) != SignalKind::Const ==> final(self).slots(
                source.index as int,
            ) == old(self).slots(source.index as int).push(Listener::Relative(r.index)),
    {
        let s = source.index;
        proof {
            assert(call_requires(self.mapper(), (map, &self.nodes@[s as int].data)));
        }
        let x = (self.map_fn)(map, &self.nodes[s].data);
        let is_const = match self.nodes[s].kind {
            SignalKind::Const => true,
            _ => false,
        };
        let ghost g_old = *self;
        if is_const {
            let r = self.push_node(SignalKind::Const, x, Vec::new());
            proof {
                assert forall|i: int| 0 <= i < g_old.len() implies {
                    &&& #[trigger] self.kind(i) == g_old.kind(i)
                    &&& self.value(i) == g_old.value(i)
                    &&& self.notif_slots(i) == g_old.notif_slots(i)
                    &&& (i != s ==> self.slots(i) == g_old.slots(i))
                } by {
                    assert(self.nodes@[i] == self.nodes@.take(g_old.len() as int)[i]);
                }
            }
            r
        } else {
            let r = self.push_node(SignalKind::Relative(s, map), x, Vec::new());
            let ghost g0 = *self;
            self.nodes[s].slots.push(Listener::Relative(r.index));
            proof {
                assert forall|i: int| 0 <= i < self.len() implies {
                    &&& #[trigger] self.kind(i) == g0.kind(i)
                    &&& self.value(i) == g0.value(i)
                    &&& (i != s ==> self.slots(i) == g0.slots(i))
                    &&& (i != s ==> self.notif_slots(i) == g0.notif_slots(i))
                } by {}
                assert(g0.slots(s as int) == g_old.slots(s as int)) by {
                    assert(g0.nodes@[s as int] == g0.nodes@.take(g_old.len() as int)[s as int]);
                }
                self.lemma_push_slot_wf(&g0, s as int, Listener::Relative(r.index));
                assert forall|i: int| 0 <= i < g_old.len() implies {
                    &&& #[trigger] self.kind(i) == g_old.kind(i)
                    &&& self.value(i) == g_old.value(i)
                    &&& self.notif_slots(i) == g_old.notif_slots(i)
                    &&& (i != s ==> self.slots(i) == g_old.slots(i))
                } by {
                    assert(g0.nodes@[i] == g0.nodes@.take(g_old.len() as int)[i]);
                    assert(self.kind(i) == g0.kind(i));
                }
            }
            r
        }
    }

    /// Subscribes slot `slot` to the combination of `members`: each member that
    /// is not a constant gets a notify subscriber that, when it runs, reads the
    /// current values of all members (`Action::CallCombined`). A member listed
    /// twice gets two such subscribers.
    pub fn subscribe_combined(&mut self, members: &Vec<Signal>, slot: u64)
        requires
            old(self).wf(),
            forall|t: int| 0 <= t < members@.len() ==> #[trigger] members@[t].index < old(self).len(),
        ensures
            final(self).wf(),
            final(self).len() == old(self).len(),
            final(self).mapper() == old(self).mapper(),
            forall|i: int|
                0 <= i < final(self).len() ==> {
                    &&& #[trigger] final(self).kind(i) == old(self).kind(i)
                    &&& final(self).value(i) == old(self).value(i)
                    &&& final(self).slots(i) == old(self).slots(i)
                    &&& final(self).notif_slots(i).len() == old(self).notif_slots(i).len() + (
                    if old(self).kind(i) == SignalKind::Const {
                        0
                    } else {
                        occurrences(indices_of(members@), i)
                    })
                    &&& final(self).notif_slots(i).take(old(self).notif_slots(i).len() as int)
                        == old(self).notif_slots(i)
                    &&& forall|j: int|
                        old(self).notif_slots(i).len() <= j < final(self).notif_slots(i).len()
                            ==> is_combined_entry(
                            #[trigger] final(self).notif_slots(i)[j],
                            slot,
                            indices_of(members@),
                        )
                },
    {
        let mut idx: Vec<usize> = Vec::new();
        let mut t: usize = 0;
        while t < members.len()
            invariant
                t <= members@.len(),
                idx@ == indices_of(members@.take(t as int)),
            decreases members@.len() - t,
        {
            idx.push(members[t].index);
            proof {
                assert(members@.take(t + 1) =~= members@.take(t as int).push(members@[t as int]));
                assert(indices_of(members@.take(t + 1)) =~= indices_of(members@.take(t as int)).push(members@[t as int].index));
            }
            t = t + 1;
        }
        proof {
            assert(members@.take(t as int) =~= members@);
        }
        let mut j: usize = 0;
        while j < idx.len()
            invariant
                j <= idx@.len(),
                idx@ == indices_of(members@),
                forall|t: int| 0 <= t < idx@.len() ==> #[trigger] idx@[t] < old(self).len(),
                self.wf(),
                self.len() == old(self).len(),
                self.map_fn == old(self).map_fn,
                forall|i: int|
                    0 <= i < self.len() ==> {
                        &&& #[trigger] self.kind(i) == old(self).kind(i)
                        &&& self.value(i) == old(self).value(i)
                        &&& self.slots(i) == old(self).slots(i)
                        &&& self.notif_slots(i).len() == old(self).notif_slots(i).len() + (
                        if old(self).kind(i) == SignalKind::Const {
                            0
                        } else {
                            occurrences(idx@.take(j as int), i)
                        })
                        &&& self.notif_slots(i).take(old(self).notif_slots(i).len() as int)
                            == old(self).notif_slots(i)
                        &&& forall|u: int|
                            old(self).notif_slots(i).len() <= u < self.notif_slots(i).len()
                                ==> is_combined_entry(#[trigger] self.notif_slots(i)[u], slot, idx@)
                    },
            decreases idx@.len() - j,
        {
            let m = idx[j];
            proof {
                assert(idx@.take(j + 1).drop_last() =~= idx@.take(j as int));
            }
            if let SignalKind::Const = self.nodes[m].kind {
            } else {
                let ghost g0 = *self;
                let entry = NotifListener::Combined(slot, clone_indices(&idx));
                self.nodes[m].notif_slots.push(entry);
                proof {
                    assert forall|i: int| 0 <= i < self.len() implies {
                        &&& #[trigger] self.kind(i) == g0.kind(i)
                        &&& self.value(i) == g0.value(i)
                        &&& (i != m ==> self.slots(i) == g0.slots(i))
                        &&& (i != m ==> self.notif_slots(i) == g0.notif_slots(i))
                    } by {}
                    assert(self.kind(m as int) == old(self).kind(m as int));
                    self.lemma_push_notif_wf(&g0, m as int, entry);
                    assert forall|i: int| 0 <= i < self.len() implies {
                        &&& #[trigger] self.kind(i) == old(self).kind(i)
                        &&& self.value(i) == old(self).value(i)
                        &&& self.slots(i) == old(self).slots(i)
                        &&& self.notif_slots(i).len() == old(self).notif_slots(i).len() + (
                        if old(self).kind(i) == SignalKind::Const {
                            0
                        } else {
                            occurrences(idx@.take(j + 1), i)
                        })
                        &&& self.notif_slots(i).take(old(self).notif_slots(i).len() as int)
                            == old(self).notif_slots(i)
                        &&& forall|u: int|
                            old(self).notif_slots(i).len() <= u < self.notif_slots(i).len()
                                ==> is_combined_entry(#[trigger] self.notif_slots(i)[u], slot, idx@)
                    } by {
                        assert(g0.kind(i) == old(self).kind(i));
                        if i == m {
                            assert(self.notif_slots(i).take(old(self).notif_slots(i).len() as int)
                                =~= g0.notif_slots(i).take(old(self).notif_slots(i).len() as int));
                            assert forall|u: int|
                                old(self).notif_slots(i).len() <= u < self.notif_slots(i).len()
                                    implies is_combined_entry(#[trigger] self.notif_slots(i)[u], slot, idx@) by {
                                if u < g0.notif_slots(i).len() {
                                    assert(self.notif_slots(i)[u] == g0.notif_slots(i)[u]);
                                }
                            }
                        }
                    }
                }
            }
            j = j + 1;
        }
        proof {
            assert(idx@.take(j as int) =~= idx@);
        }
    }

    /// A new signal whose value is the combination keyed `map` of the values
    /// of `members`, in order, recomputed whenever one of them changes: each
    /// member that is not a constant gets a notify subscriber that recomputes
    /// it (one for each time the member is listed).
    pub fn relative_all(&mut self, members: &Vec<Signal>, map: u64) -> (r: Signal)
        requires
            old(self).wf(),
            forall|t: int| 0 <= t < members@.len() ==> #[trigger] members@[t].index < old(self).len(),
            old(self).len() < usize::MAX,
        ensures
            final(self).wf(),
            r.index == old(self).len(),
            final(self).len() == old(self).len() + 1,
            final(self).mapper() == old(self).mapper(),
            final(self).combiner() == old(self).combiner(),
            final(self).kind(r.index as int) == SignalKind::Combined(map),
            final(self).sources(r.index as int) == indices_of(members@),
            exists|args: Vec<&T>|
                #[trigger] old(self).args_read(args@, indices_of(members@)) && call_ensures(
                    old(self).combiner(),
                    (map, &args),
                    final(self).value(r.index as int),
                ),
            final(self).slots(r.index as int) == Seq::<Listener>::empty(),
            final(self).notif_slots(r.index as int) == Seq::<NotifListener>::empty(),
            forall|i: int|
                0 <= i < old(self).len() ==> {
                    &&& #[trigger] final(self).kind(i) == old(self).kind(i)
                    &&& final(self).sources(i) == old(self).sources(i)
                    &&& final(self).value(i) == old(self).value(i)
                    &&& final(self).slots(i) == old(self).slots(i)
                    &&& final(self).notif_slots(i).len() == old(self).notif_slots(i).len() + (
                    if old(self).kind(i) == SignalKind::Const {
                        0
                    } else {
                        occurrences(indices_of(members@), i)
                    })
                    &&& final(self).notif_slots(i).take(old(self).notif_slots(i).len() as int)
                        == old(self).notif_slots(i)
                    &&& forall|j: int|
                        old(self).notif_slots(i).len() <= j < final(self).notif_slots(i).len()
                            ==> #[trigger] final(self).notif_slots(i)[j] == NotifListener::Relative(r.index)
                },
    {
        let mut idx: Vec<usize> = Vec::new();
        let mut t: usize = 0;
        while t < members.len()
            invariant
                t <= members@.len(),
                idx@ == indices_of(members@.take(t as int)),
            decreases members@.len() - t,
        {
            idx.push(members[t].index);
            proof {
                assert(members@.take(t + 1) =~= members@.take(t as int).push(members@[t as int]));
                assert(indices_of(members@.take(t + 1)) =~= indices_of(members@.take(t as int)).push(members@[t as int].index));
            }
            t = t + 1;
        }
        proof {
            assert(members@.take(t as int) =~= members@);
        }
        let mut args: Vec<&T> = Vec::new();
        let mut u: usize = 0;
        while u < idx.len()
            invariant
                u <= idx@.len(),
                idx@ == indices_of(members@),
                forall|t: int| 0 <= t < members@.len() ==> #[trigger] members@[t].index < self.len(),
                args@.len() == u,
                forall|v: int| 0 <= v < u ==> *#[trigger] args@[v] == self.value(idx@[v] as int),
            decreases idx@.len() - u,
        {
            proof {
                assert(idx@[u as int] == members@[u as int].index);
            }
            args.push(&self.nodes[idx[u]].data);
            u = u + 1;
        }
        proof {
            assert(call_requires(self.combiner(), (map, &args)));
            assert(self.args_read(args@, idx@));
        }
        let x = (self.combine_fn)(map, &args);
        let srcs = clone_indices(&idx);
        proof {
            assert forall|t: int| 0 <= t < srcs@.len() implies #[trigger] srcs@[t] < old(self).len() by {
                assert(srcs@[t] == members@[t].index);
            }
        }
        let ghost g_old = *self;
        let r = self.push_node(SignalKind::Combined(map), x, srcs);
        let d = r.index;
        let ghost g1 = *self;
        proof {
            assert forall|i: int| 0 <= i < g_old.len() implies {
                &&& #[trigger] self.kind(i) == g_old.kind(i)
                &&& self.sources(i) == g_old.sources(i)
                &&& self.value(i) == g_old.value(i)
                &&& self.slots(i) == g_old.slots(i)
                &&& self.notif_slots(i) == g_old.notif_slots(i)
            } by {
                assert(self.nodes@[i] == self.nodes@.take(g_old.len() as int)[i]);
            }
        }
        let mut j: usize = 0;
        while j < idx.len()
            invariant
                j <= idx@.len(),
                idx@ == indices_of(members@),
                forall|t: int| 0 <= t < idx@.len() ==> #[trigger] idx@[t] < g_old.len(),
                d == g_old.len(),
                g1.len() == g_old.len() + 1,
                self.wf(),
                self.len() == g1.len(),
                self.map_fn == g1.map_fn,
                self.combine_fn == g1.combine_fn,
                self.kind(d as int) == g1.kind(d as int),
                self.sources(d as int) == g1.sources(d as int),
                self.value(d as int) == g1.value(d as int),
                self.slots(d as int) == g1.slots(d as int),
                self.notif_slots(d as int) == g1.notif_slots(d as int),
                forall|i: int|
                    0 <= i < g_old.len() ==> {
                        &&& #[trigger] self.kind(i) == g_old.kind(i)
                        &&& self.sources(i) == g_old.sources(i)
                        &&& self.value(i) == g_old.value(i)
                        &&& self.slots(i) == g_old.slots(i)
                        &&& self.notif_slots(i).len() == g_old.notif_slots(i).len() + (
                        if g_old.kind(i) == SignalKind::Const {
                            0
                        } else {
                            occurrences(idx@.take(j as int), i)
                        })
                        &&& self.notif_slots(i).take(g_old.notif_slots(i).len() as int)
                            == g_old.notif_slots(i)
                        &&& forall|v: int|
                            g_old.notif_slots(i).len() <= v < self.notif_slots(i).len()
                                ==> #[trigger] self.notif_slots(i)[v] == NotifListener::Relative(d)
                    },
            decreases idx@.len() - j,
        {
            let m = idx[j];
            proof {
                assert(idx@[j as int] < g_old.len());
                assert(idx@.take(j + 1).drop_last() =~= idx@.take(j as int));
                assert(self.kind(m as int) == g_old.kind(m as int));
            }
            if let SignalKind::Const = self.nodes[m].kind {
            } else {
                let ghost g0 = *self;
                let entry = NotifListener::Relative(d);
                self.nodes[m].notif_slots.push(entry);
                proof {
                    assert forall|i: int| 0 <= i < self.len() implies {
                        &&& #[trigger] self.kind(i) == g0.kind(i)
                        &&& self.sources(i) == g0.sources(i)
                        &&& self.value(i) == g0.value(i)
                        &&& (i != m ==> self.slots(i) == g0.slots(i))
                        &&& (i != m ==> self.notif_slots(i) == g0.notif_slots(i))
                    } by {}
                    self.lemma_push_notif_wf(&g0, m as int, entry);
                    assert forall|i: int| 0 <= i < g_old.len() implies {
                        &&& #[trigger] self.kind(i) == g_old.kind(i)
                        &&& self.sources(i) == g_old.sources(i)
                        &&& self.value(i) == g_old.value(i)
                        &&& self.slots(i) == g_old.slots(i)
                        &&& self.notif_slots(i).len() == g_old.notif_slots(i).len() + (
                        if g_old.kind(i) == SignalKind::Const {
                            0
                        } else {
                            occurrences(idx@.take(j + 1), i)
                        })
                        &&& self.notif_slots(i).take(g_old.notif_slots(i).len() as int)
                            == g_old.notif_slots(i)
                        &&& forall|v: int|
                            g_old.notif_slots(i).len() <= v < self.notif_slots(i).len()
                                ==> #[trigger] self.notif_slots(i)[v] == NotifListener::Relative(d)
                    } by {
                        assert(g0.kind(i) == g_old.kind(i));
                        if i == m {
                            assert(self.notif_slots(i).take(g_old.notif_slots(i).len() as int)
                                =~= g0.notif_slots(i).take(g_old.notif_slots(i).len() as int));
                            assert forall|v: int|
                                g_old.notif_slots(i).len() <= v < self.notif_slots(i).len()
                                    implies #[trigger] self.notif_slots(i)[v] == NotifListener::Relative(d) by {
                                if v < g0.notif_slots(i).len() {
                                    assert(self.notif_slots(i)[v] == g0.notif_slots(i)[v]);
                                }
                            }
                        }
                    }
                    assert(self.kind(d as int) == g0.kind(d as int));
                }
            }
            j = j + 1;
        }
        proof {
            assert(idx@.take(j as int) =~= idx@);
        }
        r
    }

    /// The current value of `signal`.
    pub fn get(&self, signal: Signal) -> (r: &T)
        requires
            signal.index < self.len(),
        ensures
            *r == self.value(signal.index as int),
    {
        &self.nodes[signal.index].data
    }

    /// The current value of `signal`, as a borrow.
    pub fn get_ref(&self, signal: Signal) -> (r: SignalRef<'_, T>)
        requires
            signal.index < self.len(),
        ensures
            r.value() == self.value(signal.index as int),
    {
        SignalRef::Reference(&self.nodes[signal.index].data)
    }

    /// The current values of `members`, in order: the value of a combination
    /// of signals.
    pub fn get_all(&self, members: &Vec<Signal>) -> (r: Vec<&T>)
        requires
            forall|t: int| 0 <= t < members@.len() ==> #[trigger] members@[t].index < self.len(),
        ensures
            r@.len() == members@.len(),
            forall|t: int| 0 <= t < r@.len() ==> *#[trigger] r@[t] == self.value(members@[t].index as int),
    {
        let mut r: Vec<&T> = Vec::new();
        let mut i: usize = 0;
        while i < members.len()
            invariant
                i <= members@.len(),
                forall|t: int| 0 <= t < members@.len() ==> #[trigger] members@[t].index < self.len(),
                r@.len() == i,
                forall|t: int| 0 <= t < i ==> *#[trigger] r@[t] == self.value(members@[t].index as int),
            decreases members@.len() - i,
        {
            r.push(&self.nodes[members[i].index].data);
            i = i + 1;
        }
        r
    }

    /// What kind of signal `signal` is.
    pub fn kind_of(&self, signal: Signal) -> (r: SignalKind)
        requires
            signal.index < self.len(),
        ensures
            r == self.kind(signal.index as int),
    {
        self.nodes[signal.index].kind
    }

    /// The number of signals in the graph.
    pub fn count(&self) -> (r: usize)
        ensures
            r == self.len(),
    {
        self.nodes.len()
    }
}

} // verus!
