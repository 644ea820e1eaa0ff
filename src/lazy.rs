use vstd::prelude::*;
use std::collections::VecDeque;

verus! {

/// What forcing a deferred computation hands back: values for the ready
/// buffer and further computations for the tail of the pending queue, each
/// in the order in which they were added.
pub struct Effects<T, D> {
    values: VecDeque<T>,
    more: VecDeque<D>,
}

impl<T, D> Effects<T, D> {
    pub closed spec fn values(&self) -> Seq<T> {
        self.values@
    }

    pub closed spec fn more(&self) -> Seq<D> {
        self.more@
    }

    /// No values and no further work.
    pub fn new() -> (e: Self)
        ensures
            e.values() == Seq::<T>::empty(),
            e.more() == Seq::<D>::empty(),
    {
        Effects { values: VecDeque::new(), more: VecDeque::new() }
    }

    /// Adds a ready value after those added so far.
    pub fn push(&mut self, x: T)
        ensures
            final(self).values() == old(self).values().push(x),
            final(self).more() == old(self).more(),
    {
        self.values.push_back(x);
    }

    /// Adds a further computation after those added so far.
    pub fn push_thunk(&mut self, d: D)
        ensures
            final(self).values() == old(self).values(),
            final(self).more() == old(self).more().push(d),
    {
        self.more.push_back(d);
    }

    /// The values and the further computations, each in the order added;
    /// lets a caller hand on the work under another computation type.
    pub fn into_parts(self) -> (r: (VecDeque<T>, VecDeque<D>))
        ensures
            r.0@ == self.values(),
            r.1@ == self.more(),
    {
        (self.values, self.more)
    }
}

/// A single-shot deferred computation producing elements of type `T`: the
/// captured environment is the value itself, and forcing consumes it. A type
/// may state, through `can_force` and `forces_to`, when it may run and what
/// it hands back; one that states nothing is taken to do anything.
pub trait Deferred<T>: Sized {
    /// Whether this computation may be forced.
    open spec fn can_force(&self) -> bool {
        true
    }

    /// Relates this computation to what forcing it may hand back.
    open spec fn forces_to(&self, values: Seq<T>, more: Seq<Self>) -> bool {
        true
    }

    /// Consumes the computation and runs it once.
    fn force(self) -> (e: Effects<T, Self>)
        requires
            self.can_force(),
        ensures
            self.forces_to(e.values(), e.more()),
            forall|i: int| 0 <= i < e.more().len() ==> (#[trigger] e.more()[i]).can_force(),
    ;
}

/// Most forcing steps one pull takes before it reports no element: a bound
/// that no computation meant to end comes near.
pub const FORCE_LIMIT: u64 = 0xffff_ffff_ffff_ffff;

/// A sequence's state as its ready buffer and its pending queue.
pub type State<T, D> = (Seq<T>, Seq<D>);

/// `t` comes from `s` by forcing the head of its pending queue, which is done
/// only while nothing is ready: what the computation gave is appended.
pub open spec fn forcing_step<T, D: Deferred<T>>(s: State<T, D>, t: State<T, D>) -> bool {
    let n = s.1.len() - 1;
    &&& s.0.len() == 0
    &&& s.1.len() > 0
    &&& t.1.len() >= n
    &&& t.1.subrange(0, n) == s.1.drop_first()
    &&& s.1[0].forces_to(t.0, t.1.subrange(n, t.1.len() as int))
}

/// Each state of `tr` comes from the one before it by one forcing step.
pub open spec fn forcing_chain<T, D: Deferred<T>>(tr: Seq<State<T, D>>) -> bool
    decreases tr.len(),
{
    tr.len() <= 1 || (forcing_step(tr[0], tr[1]) && forcing_chain(tr.drop_first()))
}

/// Taking the head of the ready buffer of `s`, if any, gives `r` and leaves `after`.
pub open spec fn takes_head<T, D>(s: State<T, D>, r: Option<T>, after: State<T, D>) -> bool {
    if s.0.len() > 0 {
        r == Some(s.0[0]) && after == (s.0.drop_first(), s.1)
    } else {
        r is None && after == s
    }
}

/// A pull on a sequence in state `before` may return `r` and leave `after`:
/// it forces pending work head first while nothing is ready, then takes the
/// head of the ready buffer. It reports no element only where both are empty,
/// or where it gave up after `FORCE_LIMIT` steps.
pub open spec fn pull_outcome<T, D: Deferred<T>>(
    before: State<T, D>,
    r: Option<T>,
    after: State<T, D>,
) -> bool {
    exists|tr: Seq<State<T, D>>|
        {
            &&& #[trigger] forcing_chain(tr)
            &&& tr.len() > 0
            &&& tr[0] == before
            &&& takes_head(tr.last(), r, after)
            &&& tr.last().0.len() == 0 ==> tr.last().1.len() == 0 || tr.len() == FORCE_LIMIT + 1
        }
}

proof fn lemma_chain_push<T, D: Deferred<T>>(tr: Seq<State<T, D>>, s: State<T, D>)
    requires
        forcing_chain(tr),
        tr.len() > 0,
        forcing_step(tr.last(), s),
    ensures
        forcing_chain(tr.push(s)),
    decreases tr.len(),
{
    let u = tr.push(s);
    if tr.len() > 1 {
        lemma_chain_push(tr.drop_first(), s);
        assert(u.drop_first() =~= tr.drop_first().push(s));
    } else {
        assert(u[1] == s);
        assert(forcing_chain(u.drop_first()));
    }
}

proof fn lemma_chain_step<T, D: Deferred<T>>(tr: Seq<State<T, D>>, i: int)
    requires
        forcing_chain(tr),
        0 <= i < tr.len() - 1,
    ensures
        forcing_step(tr[i], tr[i + 1]),
    decreases i,
{
    if i > 0 {
        lemma_chain_step(tr.drop_first(), i - 1);
    }
}

/// Pending computations are forced in the order in which they were queued:
/// after `k` forcing steps from `tr[0]`, the next one to run is the `k`-th
/// of those queued at the start, and work that forcing added waits behind
/// all of them.
pub proof fn lemma_forced_in_fifo_order<T, D: Deferred<T>>(tr: Seq<State<T, D>>, k: int)
    requires
        forcing_chain(tr),
        0 <= k < tr.len(),
        k <= tr[0].1.len(),
    ensures
        tr[k].1.len() >= tr[0].1.len() - k,
        tr[k].1.subrange(0, tr[0].1.len() - k) == tr[0].1.skip(k),
        k < tr.len() - 1 && k < tr[0].1.len() ==> tr[k].1[0] == tr[0].1[k],
    decreases k,
{
    let p0 = tr[0].1;
    if k > 0 {
        lemma_forced_in_fifo_order(tr, k - 1);
        lemma_chain_step(tr, k - 1);
        let s = tr[k - 1];
        let t = tr[k];
        let n = s.1.len() - 1;
        let m = p0.len() - k;
        assert(t.1.subrange(0, m) =~= s.1.subrange(0, m + 1).drop_first());
        assert(s.1.subrange(0, m + 1) =~= p0.skip(k - 1));
        assert(p0.skip(k - 1).drop_first() =~= p0.skip(k));
    } else {
        assert(p0.subrange(0, p0.len() as int) =~= p0.skip(0));
    }
    if k < tr.len() - 1 {
        lemma_chain_step(tr, k);
        if k < p0.len() {
            assert(tr[k].1.subrange(0, p0.len() - k)[0] == tr[k].1[0]);
        }
    }
}

/// `outs` are the results of pulls made one after another, from `states[0]`
/// on, with `states[i + 1]` the state that the pull giving `outs[i]` left.
pub open spec fn pull_run<T, D: Deferred<T>>(states: Seq<State<T, D>>, outs: Seq<Option<T>>) -> bool {
    &&& states.len() == outs.len() + 1
    &&& forall|i: int|
        0 <= i < outs.len() ==> pull_outcome(states[i], #[trigger] outs[i], states[i + 1])
}

/// A pull on a state with values ready forces nothing: it takes the head.
pub proof fn lemma_pull_ready<T, D: Deferred<T>>(before: State<T, D>, r: Option<T>, after: State<T, D>)
    requires
        pull_outcome(before, r, after),
        before.0.len() > 0,
    ensures
        r == Some(before.0[0]),
        after == (before.0.drop_first(), before.1),
{
    let tr = choose|tr: Seq<State<T, D>>|
        {
            &&& #[trigger] forcing_chain(tr)
            &&& tr.len() > 0
            &&& tr[0] == before
            &&& takes_head(tr.last(), r, after)
            &&& tr.last().0.len() == 0 ==> tr.last().1.len() == 0 || tr.len() == FORCE_LIMIT + 1
        };
    assert(tr.len() == 1);
}

/// A pull on a state with nothing ready and nothing pending returns no
/// element and changes nothing.
pub proof fn lemma_pull_empty<T, D: Deferred<T>>(before: State<T, D>, r: Option<T>, after: State<T, D>)
    requires
        pull_outcome(before, r, after),
        before.0.len() == 0,
        before.1.len() == 0,
    ensures
        r is None,
        after == before,
{
    let tr = choose|tr: Seq<State<T, D>>|
        {
            &&& #[trigger] forcing_chain(tr)
            &&& tr.len() > 0
            &&& tr[0] == before
            &&& takes_head(tr.last(), r, after)
            &&& tr.last().0.len() == 0 ==> tr.last().1.len() == 0 || tr.len() == FORCE_LIMIT + 1
        };
    assert(tr.len() == 1);
}

/// A pull that returns no element while nothing is left pending leaves both
/// the ready buffer and the pending queue empty.
pub proof fn lemma_pull_none<T, D: Deferred<T>>(before: State<T, D>, after: State<T, D>)
    requires
        pull_outcome(before, None, after),
        after.1.len() == 0,
    ensures
        after.0.len() == 0,
{
    let tr = choose|tr: Seq<State<T, D>>|
        {
            &&& #[trigger] forcing_chain(tr)
            &&& tr.len() > 0
            &&& tr[0] == before
            &&& takes_head(tr.last(), None, after)
            &&& tr.last().0.len() == 0 ==> tr.last().1.len() == 0 || tr.len() == FORCE_LIMIT + 1
        };
}

/// Values that are ready come out first, in the order in which they were
/// pushed, and while they last no pending computation is forced.
pub proof fn lemma_ready_first<T, D: Deferred<T>>(
    states: Seq<State<T, D>>,
    outs: Seq<Option<T>>,
    i: int,
)
    requires
        pull_run(states, outs),
        0 <= i <= outs.len(),
        i <= states[0].0.len(),
    ensures
        states[i] == (states[0].0.skip(i), states[0].1),
        i < outs.len() && i < states[0].0.len() ==> outs[i] == Some(states[0].0[i]),
    decreases i,
{
    let vs = states[0].0;
    if i > 0 {
        lemma_ready_first(states, outs, i - 1);
        lemma_pull_ready(states[i - 1], outs[i - 1], states[i]);
        assert(vs.skip(i - 1).drop_first() =~= vs.skip(i));
    } else {
        assert(vs.skip(0) =~= vs);
    }
    if i < outs.len() && i < vs.len() {
        lemma_pull_ready(states[i], outs[i], states[i + 1]);
    }
}

/// A sequence built from pushed values alone, `vs`, yields them in push order
/// and then no element at every later pull.
pub proof fn lemma_pushed_values_in_order<T, D: Deferred<T>>(
    states: Seq<State<T, D>>,
    outs: Seq<Option<T>>,
    vs: Seq<T>,
)
    requires
        pull_run(states, outs),
        states[0] == (vs, Seq::<D>::empty()),
    ensures
        forall|i: int|
            0 <= i < outs.len() ==> #[trigger] outs[i] == if i < vs.len() {
                Some(vs[i])
            } else {
                None
            },
{
    assert forall|i: int| 0 <= i < outs.len() implies #[trigger] outs[i] == if i < vs.len() {
        Some(vs[i])
    } else {
        None
    } by {
        if i < vs.len() {
            lemma_ready_first(states, outs, i);
        } else {
            lemma_drained_stays(states, outs, vs.len() as int, i);
        }
    }
}

proof fn lemma_drained_stays<T, D: Deferred<T>>(
    states: Seq<State<T, D>>,
    outs: Seq<Option<T>>,
    k: int,
    i: int,
)
    requires
        pull_run(states, outs),
        states[0].1.len() == 0,
        k == states[0].0.len(),
        k <= i < outs.len(),
    ensures
        states[i] == (Seq::<T>::empty(), Seq::<D>::empty()),
        outs[i] is None,
    decreases i - k,
{
    if i > k {
        lemma_drained_stays(states, outs, k, i - 1);
    } else {
        lemma_ready_first(states, outs, k);
        assert(states[0].0.skip(k) =~= Seq::<T>::empty());
    }
    lemma_pull_empty(states[i], outs[i], states[i + 1]);
}

/// Once a pull has returned no element with nothing left pending, every
/// later pull returns no element and changes nothing: forced work is never
/// brought back.
pub proof fn lemma_end_is_terminal<T, D: Deferred<T>>(
    states: Seq<State<T, D>>,
    outs: Seq<Option<T>>,
    i: int,
)
    requires
        pull_run(states, outs),
        0 <= i < outs.len(),
        outs[i] is None,
        states[i + 1].1.len() == 0,
    ensures
        forall|j: int| i < j < outs.len() ==> #[trigger] outs[j] is None && states[j + 1] == states[i + 1],
{
    lemma_pull_none(states[i], states[i + 1]);
    assert forall|j: int| i < j < outs.len() implies #[trigger] outs[j] is None && states[j + 1]
        == states[i + 1] by {
        lemma_end_stays(states, outs, i, j);
    }
}

proof fn lemma_end_stays<T, D: Deferred<T>>(
    states: Seq<State<T, D>>,
    outs: Seq<Option<T>>,
    i: int,
    j: int,
)
    requires
        pull_run(states, outs),
        0 <= i < j < outs.len(),
        states[i + 1].0.len() == 0,
        states[i + 1].1.len() == 0,
    ensures
        outs[j] is None,
        states[j + 1] == states[i + 1],
        states[j] == states[i + 1],
    decreases j - i,
{
    if j > i + 1 {
        lemma_end_stays(states, outs, i, j - 1);
    }
    lemma_pull_empty(states[j], outs[j], states[j + 1]);
}

/// A lazy sequence: values already computed wait in `ready`, work not yet
/// done waits in `pending`, both first in, first out. Nothing runs until an
/// element is pulled.
pub struct Lazy<T, D> {
    ready: VecDeque<T>,
    pending: VecDeque<D>,
}

impl<T, D: Deferred<T>> Lazy<T, D> {
    /// The computed values not yet delivered, head first.
    pub closed spec fn ready_view(&self) -> Seq<T> {
        self.ready@
    }

    /// The computations not yet forced, head first.
    pub closed spec fn pending_view(&self) -> Seq<D> {
        self.pending@
    }

    /// Every pending computation may be forced.
    pub open spec fn wf(&self) -> bool {
        forall|i: int| 0 <= i < self.pending_view().len() ==> (#[trigger] self.pending_view()[i]).can_force()
    }

    pub open spec fn state(&self) -> State<T, D> {
        (self.ready_view(), self.pending_view())
    }

    /// An empty sequence.
    pub fn new() -> (l: Self)
        ensures
            l.ready_view() == Seq::<T>::empty(),
            l.pending_view() == Seq::<D>::empty(),
            l.wf(),
    {
        Lazy { ready: VecDeque::new(), pending: VecDeque::new() }
    }

    /// Builds an empty sequence and hands it to `setup`, which may seed it
    /// with values and deferred work and hands it back.
    pub fn create<F: FnOnce(Lazy<T, D>) -> Lazy<T, D>>(setup: F) -> (l: Self)
        requires
            forall|l0: Lazy<T, D>| l0.wf() ==> #[trigger] setup.requires((l0,)),
        ensures
            exists|l0: Lazy<T, D>|
                {
                    &&& l0.ready_view() == Seq::<T>::empty()
                    &&& l0.pending_view() == Seq::<D>::empty()
                    &&& #[trigger] setup.ensures((l0,), l)
                },
    {
        let l0 = Lazy::new();
        setup(l0)
    }

    /// Takes the next element. While nothing is ready, the pending
    /// computations are forced head first, each removed from the queue
    /// before it runs; the loop keeps the call stack flat however long the
    /// chain of computations is.
    ///
    /// A pull gives up after `FORCE_LIMIT` forcing steps that made nothing
    /// ready: it then returns `None` with work still pending, which a later
    /// pull resumes. Only this give-up departs from "no element means nothing
    /// is left"; the end is terminal (`lemma_end_is_terminal`) once a `None`
    /// leaves the pending queue empty.
    pub fn next(&mut self) -> (r: Option<T>)
        requires
            old(self).wf(),
        ensures
            final(self).wf(),
            pull_outcome(old(self).state(), r, final(self).state()),
            old(self).ready_view().len() > 0 ==> {
                &&& r == Some(old(self).ready_view()[0])
                &&& final(self).ready_view() == old(self).ready_view().drop_first()
                &&& final(self).pending_view() == old(self).pending_view()
            },
            old(self).ready_view().len() == 0 && old(self).pending_view().len() == 0 ==> {
                &&& r is None
                &&& final(self).state() == old(self).state()
            },
    {
        let ghost start = self.state();
        let ghost mut tr = seq![start];
        let mut steps: u64 = 0;
        while self.ready.len() == 0 && self.pending.len() > 0 && steps < FORCE_LIMIT
            invariant
                self.wf(),
                forcing_chain(tr),
                tr.len() == steps + 1,
                tr[0] == start,
                tr.last() == self.state(),
            decreases FORCE_LIMIT - steps,
        {
            let ghost s = self.state();
            let d = self.pending.pop_front().unwrap();
            let mut e = d.force();
            let ghost vals = e.values();
            let ghost more = e.more();
            self.ready.append(&mut e.values);
            self.pending.append(&mut e.more);
            steps = steps + 1;
            proof {
                let t = self.state();
                let n = s.1.len() - 1;
                assert(t.1.subrange(0, n) =~= s.1.drop_first());
                assert(t.1.subrange(n, t.1.len() as int) =~= more);
                assert(t.0 =~= vals);
                assert(forcing_step(s, t));
                lemma_chain_push(tr, t);
                tr = tr.push(t);
                assert forall|i: int| 0 <= i < self.pending_view().len() implies
                    (#[trigger] self.pending_view()[i]).can_force() by {
                    if i >= n {
                        assert(self.pending_view()[i] == more[i - n]);
                    } else {
                        assert(self.pending_view()[i] == s.1[i + 1]);
                    }
                }
            }
        }
        let r = self.ready.pop_front();
        proof {
            assert(takes_head(tr.last(), r, self.state()));
        }
        r
    }

    /// Pulls up to `n` elements one after another and stops at the first
    /// pull that reports none: the sequence as a stream for consumers that
    /// take or collect.
    pub fn take(&mut self, n: usize) -> (r: Vec<T>)
        requires
            old(self).wf(),
        ensures
            final(self).wf(),
            r@.len() <= n,
            exists|states: Seq<State<T, D>>, outs: Seq<Option<T>>|
                {
                    &&& #[trigger] pull_run(states, outs)
                    &&& states[0] == old(self).state()
                    &&& states.last() == final(self).state()
                    &&& outs.len() == if r@.len() < n {
                        r@.len() + 1int
                    } else {
                        n as int
                    }
                    &&& forall|i: int| 0 <= i < r@.len() ==> outs[i] == Some(#[trigger] r@[i])
                    &&& r@.len() < n ==> outs.last() is None
                },
    {
        let mut out: Vec<T> = Vec::new();
        let ghost mut states = seq![self.state()];
        let ghost mut outs = Seq::<Option<T>>::empty();
        let mut done = false;
        while !done && out.len() < n
            invariant
                self.wf(),
                out@.len() <= n,
                pull_run(states, outs),
                states[0] == old(self).state(),
                states.last() == self.state(),
                outs.len() == if done {
                    out@.len() + 1int
                } else {
                    out@.len() as int
                },
                forall|i: int| 0 <= i < out@.len() ==> outs[i] == Some(#[trigger] out@[i]),
                done ==> outs.last() is None,
                done ==> out@.len() < n,
            decreases n - out@.len() + if done {
                0int
            } else {
                1int
            },
        {
            let ghost before = self.state();
            let x = self.next();
            proof {
                let s2 = states.push(self.state());
                let o2 = outs.push(x);
                assert forall|i: int| 0 <= i < o2.len() implies pull_outcome(
                    s2[i],
                    #[trigger] o2[i],
                    s2[i + 1],
                ) by {
                    if i < outs.len() {
                        assert(o2[i] == outs[i]);
                    }
                }
                states = s2;
                outs = o2;
            }
            match x {
                Some(v) => out.push(v),
                None => done = true,
            }
        }
        out
    }

    /// Appends a ready value; nothing is forced.
    pub fn push(&mut self, x: T)
        requires
            old(self).wf(),
        ensures
            final(self).wf(),
            final(self).ready_view() == old(self).ready_view().push(x),
            final(self).pending_view() == old(self).pending_view(),
    {
        self.ready.push_back(x);
        assert(self.pending_view() == old(self).pending_view());
    }

    /// Appends a deferred computation to the tail of the pending queue; it is
    /// not run here.
    pub fn push_thunk(&mut self, d: D)
        requires
            old(self).wf(),
            d.can_force(),
        ensures
            final(self).wf(),
            final(self).ready_view() == old(self).ready_view(),
            final(self).pending_view() == old(self).pending_view().push(d),
    {
        self.pending.push_back(d);
        proof {
            assert forall|i: int| 0 <= i < self.pending_view().len() implies
                (#[trigger] self.pending_view()[i]).can_force() by {
                if i < old(self).pending_view().len() {
                    assert(self.pending_view()[i] == old(self).pending_view()[i]);
                }
            }
        }
    }
}

/// The deferred step of a lazy map: pulls one element from `source` and,
/// if there is one, delivers its image under `f` and schedules itself again
/// over what is left of the source.
pub struct Mapped<U, B, G> {
    source: Lazy<U, B>,
    f: G,
}

impl<U, B: Deferred<U>, G> Mapped<U, B, G> {
    /// The lazy map of `f` over `source`, not yet started.
    pub fn new<T>(source: Lazy<U, B>, f: G) -> (m: Self) where G: Fn(U) -> T
        requires
            source.wf(),
            forall|x: U| #[trigger] f.requires((x,)),
        ensures
            m.source() == source,
            m.func() == f,
            Deferred::<T>::can_force(&m),
    {
        Mapped { source, f }
    }

    pub closed spec fn source(&self) -> Lazy<U, B> {
        self.source
    }

    pub closed spec fn func(&self) -> G {
        self.f
    }
}

impl<T, U, B: Deferred<U>, G: Fn(U) -> T> Deferred<T> for Mapped<U, B, G> {
    open spec fn can_force(&self) -> bool {
        &&& self.source().wf()
        &&& forall|x: U| #[trigger] self.func().requires((x,))
    }

    open spec fn forces_to(&self, values: Seq<T>, more: Seq<Self>) -> bool {
        exists|r: Option<U>, after: State<U, B>|
            {
                &&& #[trigger] pull_outcome(self.source().state(), r, after)
                &&& match r {
                    None => values.len() == 0 && more.len() == 0,
                    Some(x) => {
                        &&& values.len() == 1
                        &&& self.func().ensures((x,), values[0])
                        &&& more.len() == 1
                        &&& more[0].source().state() == after
                        &&& more[0].func() == self.func()
                    },
                }
            }
    }

    fn force(self) -> (e: Effects<T, Self>) {
        let ghost this = self;
        let Mapped { mut source, f } = self;
        let r = source.next();
        let mut e = Effects::new();
        match r {
            None => {},
            Some(x) => {
                assert(this.func().requires((x,)));
                let y = f(x);
                e.push(y);
                e.push_thunk(Mapped { source, f });
            },
        }
        e
    }
}

/// A lazy map reads its source one element at a time. Forced over a source
/// with values ready and nothing pending, it delivers the image of the first
/// value and schedules itself again over the rest; over an exhausted source
/// it delivers nothing and schedules nothing.
pub proof fn lemma_map_reads_one<T, U, B: Deferred<U>, G: Fn(U) -> T>(
    m: Mapped<U, B, G>,
    values: Seq<T>,
    more: Seq<Mapped<U, B, G>>,
)
    requires
        Deferred::<T>::forces_to(&m, values, more),
        m.source().pending_view().len() == 0,
    ensures
        m.source().ready_view().len() == 0 ==> values.len() == 0 && more.len() == 0,
        m.source().ready_view().len() > 0 ==> {
            &&& values.len() == 1
            &&& m.func().ensures((m.source().ready_view()[0],), values[0])
            &&& more.len() == 1
            &&& more[0].source().ready_view() == m.source().ready_view().drop_first()
            &&& more[0].source().pending_view().len() == 0
            &&& more[0].func() == m.func()
        },
{
    let (r, after) = choose|r: Option<U>, after: State<U, B>|
        {
            &&& #[trigger] pull_outcome(m.source().state(), r, after)
            &&& match r {
                None => values.len() == 0 && more.len() == 0,
                Some(x) => {
                    &&& values.len() == 1
                    &&& m.func().ensures((x,), values[0])
                    &&& more.len() == 1
                    &&& more[0].source().state() == after
                    &&& more[0].func() == m.func()
                },
            }
        };
    if m.source().ready_view().len() > 0 {
        lemma_pull_ready(m.source().state(), r, after);
    } else {
        lemma_pull_empty(m.source().state(), r, after);
    }
}

/// A pull on a sequence whose only work is a lazy map `m` makes exactly one
/// pull on the source. If that gives `x`, the result is the image of `x`
/// and the map waits again over what is left of the source, with nothing
/// else mapped yet; if the source is done, so is the sequence.
pub proof fn lemma_map_pull<T, U, B: Deferred<U>, G: Fn(U) -> T>(
    m: Mapped<U, B, G>,
    r: Option<T>,
    after: State<T, Mapped<U, B, G>>,
)
    requires
        pull_outcome((Seq::<T>::empty(), seq![m]), r, after),
    ensures
        exists|rs: Option<U>, source_after: State<U, B>|
            {
                &&& #[trigger] pull_outcome(m.source().state(), rs, source_after)
                &&& match rs {
                    None => r is None && after.0.len() == 0 && after.1.len() == 0,
                    Some(x) => {
                        &&& r matches Some(y) && m.func().ensures((x,), y)
                        &&& after.0.len() == 0
                        &&& after.1.len() == 1
                        &&& after.1[0].source().state() == source_after
                        &&& after.1[0].func() == m.func()
                    },
                }
            },
{
    let before = (Seq::<T>::empty(), seq![m]);
    let tr = choose|tr: Seq<State<T, Mapped<U, B, G>>>|
        {
            &&& #[trigger] forcing_chain(tr)
            &&& tr.len() > 0
            &&& tr[0] == before
            &&& takes_head(tr.last(), r, after)
            &&& tr.last().0.len() == 0 ==> tr.last().1.len() == 0 || tr.len() == FORCE_LIMIT + 1
        };
    assert(tr.len() >= 2);
    lemma_chain_step(tr, 0);
    let t = tr[1];
    assert(t.1.subrange(0, t.1.len() as int) =~= t.1);
    assert(Deferred::<T>::forces_to(&m, t.0, t.1));
    if tr.len() > 2 {
        lemma_chain_step(tr, 1);
    }
    assert(tr.len() == 2);
    let (rs, sa) = choose|rs: Option<U>, sa: State<U, B>|
        {
            &&& #[trigger] pull_outcome(m.source().state(), rs, sa)
            &&& match rs {
                None => t.0.len() == 0 && t.1.len() == 0,
                Some(x) => {
                    &&& t.0.len() == 1
                    &&& m.func().ensures((x,), t.0[0])
                    &&& t.1.len() == 1
                    &&& t.1[0].source().state() == sa
                    &&& t.1[0].func() == m.func()
                },
            }
        };
    assert(pull_outcome(m.source().state(), rs, sa));
}

impl<T, U, B: Deferred<U>, G: Fn(U) -> T> Lazy<T, Mapped<U, B, G>> {
    /// Schedules a lazy map of `f` over `source`: each forcing step pulls one
    /// element of the source and appends its image, so nothing of the source
    /// is read before it is demanded.
    pub fn push_map(&mut self, source: Lazy<U, B>, f: G)
        requires
            old(self).wf(),
            source.wf(),
            forall|x: U| #[trigger] f.requires((x,)),
        ensures
            final(self).wf(),
            final(self).ready_view() == old(self).ready_view(),
            final(self).pending_view().len() == old(self).pending_view().len() + 1,
            final(self).pending_view().drop_last() == old(self).pending_view(),
            final(self).pending_view().last().source() == source,
            final(self).pending_view().last().func() == f,
    {
        self.push_thunk(Mapped { source, f });
    }
}

} // verus!
