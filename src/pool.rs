use vstd::prelude::*;
use crate::process::{PollEvent, Process, ProcessView};

verus! {

broadcast use vstd::seq_lib::group_seq_properties;

pub open spec fn views_of(ps: Seq<Process>) -> Seq<ProcessView> {
    ps.map_values(|p: Process| p@)
}

/// Holds of a process that a sweep keeps in the pool.
pub open spec fn live() -> spec_fn(ProcessView) -> bool {
    |p: ProcessView| !p.is_finished()
}

/// Holds of a process that a sweep removes from the pool and reports.
pub open spec fn done() -> spec_fn(ProcessView) -> bool {
    |p: ProcessView| p.is_finished()
}

/// Each process of `ps` after the check `events` at its own position.
pub open spec fn observed_each(ps: Seq<ProcessView>, events: Seq<PollEvent>) -> Seq<ProcessView> {
    Seq::new(ps.len(), |i: int| ps[i].observed(events[i]))
}

/// The pool left by one sweep with the checks `events`.
pub open spec fn swept(ps: Seq<ProcessView>, events: Seq<PollEvent>) -> Seq<ProcessView> {
    observed_each(ps, events).filter(live())
}

/// The processes that one sweep with the checks `events` reports, in pool order.
pub open spec fn reported(ps: Seq<ProcessView>, events: Seq<PollEvent>) -> Seq<ProcessView> {
    observed_each(ps, events).filter(done())
}

proof fn lemma_views_push(s: Seq<Process>, p: Process)
    ensures
        views_of(s.push(p)) == views_of(s).push(p@),
{
    assert(views_of(s.push(p)) =~= views_of(s).push(p@));
}

/// The check finds that the process has exited.
pub open spec fn reports_exit(event: PollEvent) -> bool {
    event is Exited || event is ReadFailed
}

/// Every process of `ps` has been spawned: none is still waiting to start.
pub open spec fn all_spawned(ps: Seq<ProcessView>) -> bool {
    forall|i: int| 0 <= i < ps.len() ==> !(#[trigger] ps[i].phase is Created)
}

/// The checks of sweep number `k`, where `poll(pid, k)` is what sweep `k` finds
/// of the process with that id.
pub open spec fn checks(ps: Seq<ProcessView>, poll: spec_fn(u32, nat) -> PollEvent, k: nat) -> Seq<
    PollEvent,
> {
    Seq::new(ps.len(), |i: int| poll(ps[i].pid, k))
}

/// Some sweep among the first `n` sees the process `pid` exit.
pub open spec fn exits_within(poll: spec_fn(u32, nat) -> PollEvent, pid: u32, n: nat) -> bool {
    exists|t: nat| t < n && reports_exit(#[trigger] poll(pid, t))
}

/// The pool after `n` sweeps of the poll loop, the first of them sweep number `k`.
pub open spec fn sweeps(
    ps: Seq<ProcessView>,
    poll: spec_fn(u32, nat) -> PollEvent,
    k: nat,
    n: nat,
) -> Seq<ProcessView>
    decreases n,
{
    if n == 0 {
        ps
    } else {
        sweeps(swept(ps, checks(ps, poll, k)), poll, k + 1, (n - 1) as nat)
    }
}

/// `x` is a running process of `ps`, unchanged, whose check did not see it exit.
spec fn kept_from(ps: Seq<ProcessView>, events: Seq<PollEvent>, x: ProcessView) -> bool {
    exists|i: int|
        0 <= i < ps.len() && x == #[trigger] ps[i] && ps[i].phase is Running && !reports_exit(
            events[i],
        )
}

/// No sweep numbered from `k` up to `k + n` sees the process `pid` exit.
spec fn never_exits(poll: spec_fn(u32, nat) -> PollEvent, pid: u32, k: nat, n: nat) -> bool {
    forall|t: nat| k <= t < k + n ==> !reports_exit(#[trigger] poll(pid, t))
}

/// `x` is a running process of `ps` that no sweep from `k` up to `k + n` saw exit.
spec fn survives(
    ps: Seq<ProcessView>,
    poll: spec_fn(u32, nat) -> PollEvent,
    k: nat,
    n: nat,
    x: ProcessView,
) -> bool {
    exists|i: int| 0 <= i < ps.len() && x == #[trigger] ps[i] && never_exits(poll, ps[i].pid, k, n)
}

/// What a sweep keeps is a running process of the pool, unchanged, whose check
/// did not see it exit.
proof fn lemma_swept_from(ps: Seq<ProcessView>, events: Seq<PollEvent>)
    requires
        events.len() == ps.len(),
        all_spawned(ps),
    ensures
        forall|j: int|
            0 <= j < swept(ps, events).len() ==> kept_from(ps, events, #[trigger] swept(ps, events)[j]),
{
    let obs = observed_each(ps, events);
    assert forall|j: int| 0 <= j < swept(ps, events).len() implies kept_from(
        ps,
        events,
        #[trigger] swept(ps, events)[j],
    ) by {
        let x = swept(ps, events)[j];
        obs.lemma_filter_pred(live(), j);
        assert(obs.filter(live())[j] == x);
        assert(obs.filter(live()).contains(x));
        obs.lemma_filter_contains_rev(live(), x);
        let m = choose|m: int| 0 <= m < obs.len() && obs[m] == x;
        assert(obs[m] == ps[m].observed(events[m]));
        assert(!x.is_finished());
        assert(!(ps[m].phase is Created));
        assert(x == ps[m]);
    }
}

/// Every process left after `n` sweeps from number `k` is a running process
/// of the first pool that none of those sweeps saw exit.
proof fn lemma_sweeps_keep(ps: Seq<ProcessView>, poll: spec_fn(u32, nat) -> PollEvent, k: nat, n: nat)
    requires
        all_spawned(ps),
    ensures
        forall|j: int|
            0 <= j < sweeps(ps, poll, k, n).len() ==> survives(
                ps,
                poll,
                k,
                n,
                #[trigger] sweeps(ps, poll, k, n)[j],
            ),
    decreases n,
{
    let r = sweeps(ps, poll, k, n);
    if n > 0 {
        let n1 = (n - 1) as nat;
        let ev = checks(ps, poll, k);
        let sw = swept(ps, ev);
        lemma_swept_from(ps, ev);
        assert forall|j: int| 0 <= j < sw.len() implies !(#[trigger] sw[j].phase is Created) by {
            assert(kept_from(ps, ev, sw[j]));
        }
        lemma_sweeps_keep(sw, poll, k + 1, n1);
        assert(r == sweeps(sw, poll, k + 1, n1));
        assert forall|j: int| 0 <= j < r.len() implies survives(ps, poll, k, n, #[trigger] r[j]) by {
            assert(survives(sw, poll, k + 1, n1, sweeps(sw, poll, k + 1, n1)[j]));
            let i1 = choose|i1: int|
                0 <= i1 < sw.len() && r[j] == #[trigger] sw[i1] && never_exits(
                    poll,
                    sw[i1].pid,
                    k + 1,
                    n1,
                );
            assert(kept_from(ps, ev, sw[i1]));
            let i0 = choose|i0: int|
                0 <= i0 < ps.len() && sw[i1] == #[trigger] ps[i0] && ps[i0].phase is Running
                    && !reports_exit(ev[i0]);
            assert forall|t: nat| k <= t < k + n implies !reports_exit(
                #[trigger] poll(ps[i0].pid, t),
            ) by {
                if t == k {
                    assert(ev[i0] == poll(ps[i0].pid, k));
                } else {
                    assert(k + 1 <= t < k + 1 + n1);
                }
            }
            assert(never_exits(poll, ps[i0].pid, k, n));
        }
    } else {
        assert forall|j: int| 0 <= j < r.len() implies survives(ps, poll, k, n, #[trigger] r[j]) by {
            assert(r[j] == ps[j]);
            assert(never_exits(poll, ps[j].pid, k, n));
        }
    }
}

/// The processes reported by `n` sweeps from number `k`, in the order reported.
pub open spec fn reports_over(
    ps: Seq<ProcessView>,
    poll: spec_fn(u32, nat) -> PollEvent,
    k: nat,
    n: nat,
) -> Seq<ProcessView>
    decreases n,
{
    if n == 0 {
        Seq::empty()
    } else {
        let ev = checks(ps, poll, k);
        reported(ps, ev) + reports_over(swept(ps, ev), poll, k + 1, (n - 1) as nat)
    }
}

proof fn lemma_filter_split(s: Seq<ProcessView>)
    ensures
        s.filter(live()).len() + s.filter(done()).len() == s.len(),
    decreases s.len(),
{
    if s.len() > 0 {
        let init = s.drop_last();
        lemma_filter_split(init);
        assert(init.push(s.last()) =~= s);
        init.lemma_filter_push(s.last(), live());
        init.lemma_filter_push(s.last(), done());
    } else {
        reveal(Seq::filter);
    }
}

/// A sweep accounts for every process once: each is either kept in the pool
/// or reported, never both and never neither.
pub proof fn lemma_sweep_accounts_for_all(ps: Seq<ProcessView>, events: Seq<PollEvent>)
    requires
        events.len() == ps.len(),
    ensures
        swept(ps, events).len() + reported(ps, events).len() == ps.len(),
{
    lemma_filter_split(observed_each(ps, events));
}

/// Over any number of sweeps, the processes reported and those still in the
/// pool together number the processes the run started with.
pub proof fn lemma_sweeps_account_for_all(
    ps: Seq<ProcessView>,
    poll: spec_fn(u32, nat) -> PollEvent,
    k: nat,
    n: nat,
)
    ensures
        reports_over(ps, poll, k, n).len() + sweeps(ps, poll, k, n).len() == ps.len(),
    decreases n,
{
    if n > 0 {
        let ev = checks(ps, poll, k);
        lemma_sweep_accounts_for_all(ps, ev);
        lemma_sweeps_account_for_all(swept(ps, ev), poll, k + 1, (n - 1) as nat);
    }
}

/// The poll loop drains the pool: when every process in it has been spawned
/// and each one's exit is seen by some sweep among the first `n`, the pool is
/// empty after `n` sweeps, and those sweeps have reported as many processes as
/// the pool held.
pub proof fn lemma_pool_drains(ps: Seq<ProcessView>, poll: spec_fn(u32, nat) -> PollEvent, n: nat)
    requires
        all_spawned(ps),
        forall|i: int| 0 <= i < ps.len() ==> #[trigger] exits_within(poll, ps[i].pid, n),
    ensures
        sweeps(ps, poll, 0, n).len() == 0,
        reports_over(ps, poll, 0, n).len() == ps.len(),
{
    lemma_sweeps_account_for_all(ps, poll, 0, n);
    lemma_sweeps_keep(ps, poll, 0, n);
    let r = sweeps(ps, poll, 0, n);
    if r.len() > 0 {
        assert(survives(ps, poll, 0, n, r[0]));
        let i = choose|i: int|
            0 <= i < ps.len() && r[0] == #[trigger] ps[i] && never_exits(poll, ps[i].pid, 0, n);
        assert(exits_within(poll, ps[i].pid, n));
        let t = choose|t: nat| t < n && reports_exit(#[trigger] poll(ps[i].pid, t));
        assert(!reports_exit(poll(ps[i].pid, t)));
    }
}

/// A slow process does not hold up a fast one: in one sweep, a running
/// process whose check sees it exit is reported with the output that check
/// captured, while a running process whose check finds it still running stays
/// in the pool, whatever the checks of the other processes found.
pub proof fn lemma_sweep_independent(ps: Seq<ProcessView>, events: Seq<PollEvent>, fast: int, slow: int)
    requires
        events.len() == ps.len(),
        0 <= fast < ps.len(),
        0 <= slow < ps.len(),
        ps[fast].phase is Running,
        events[fast] is Exited,
        ps[slow].phase is Running,
        events[slow] is Pending,
    ensures
        reported(ps, events).contains(ps[fast].observed(events[fast])),
        ps[fast].observed(events[fast]).output == events[fast]->Exited_output@,
        ps[fast].observed(events[fast]).phase is Finished,
        swept(ps, events).contains(ps[slow]),
{
    let obs = observed_each(ps, events);
    obs.lemma_filter_contains(done(), fast);
    obs.lemma_filter_contains(live(), slow);
}

/// The ordered collection of processes of one run. The capacity is a sizing
/// hint only: adding beyond it is allowed.
pub struct ProcessPool {
    entries: Vec<Process>,
    capacity: usize,
}

impl View for ProcessPool {
    type V = Seq<ProcessView>;

    closed spec fn view(&self) -> Seq<ProcessView> {
        views_of(self.entries@)
    }
}

impl ProcessPool {
    pub closed spec fn capacity_hint(&self) -> usize {
        self.capacity
    }

    /// An empty pool sized for `capacity` processes.
    pub fn new(capacity: usize) -> (pool: ProcessPool)
        ensures
            pool@ == Seq::<ProcessView>::empty(),
            pool.capacity_hint() == capacity,
    {
        let pool = ProcessPool { entries: Vec::with_capacity(capacity), capacity };
        assert(pool@ =~= Seq::<ProcessView>::empty());
        pool
    }

    pub fn capacity(&self) -> (r: usize)
        ensures
            r == self.capacity_hint(),
    {
        self.capacity
    }

    /// Appends an already spawned process.
    pub fn add(&mut self, process: Process)
        ensures
            final(self)@ == old(self)@.push(process@),
            final(self).capacity_hint() == old(self).capacity_hint(),
    {
        proof {
            lemma_views_push(self.entries@, process);
        }
        self.entries.push(process);
    }

    pub fn len(&self) -> (r: usize)
        ensures
            r == self@.len(),
    {
        self.entries.len()
    }

    pub fn is_empty(&self) -> (r: bool)
        ensures
            r == (self@.len() == 0),
    {
        self.entries.len() == 0
    }

    pub fn get(&self, i: usize) -> (r: &Process)
        requires
            i < self@.len(),
        ensures
            r@ == self@[i as int],
    {
        &self.entries[i]
    }

    /// Removes every finished process, keeping the order of the rest, and
    /// returns the removed ones in pool order.
    pub fn sweep_finished(&mut self) -> (removed: Vec<Process>)
        ensures
            final(self)@ == old(self)@.filter(live()),
            views_of(removed@) == old(self)@.filter(done()),
            final(self).capacity_hint() == old(self).capacity_hint(),
    {
        let ghost orig = self.entries@;
        let ghost vs = self@;
        let n = self.entries.len();
        let mut src: Vec<Process> = Vec::new();
        core::mem::swap(&mut src, &mut self.entries);
        let mut stack: Vec<Process> = Vec::new();
        while src.len() > 0
            invariant
                n == orig.len(),
                src@.len() + stack@.len() == n,
                src@ == orig.take(src@.len() as int),
                forall|k: int| 0 <= k < stack@.len() ==> stack@[k] == orig[n - 1 - k],
            decreases src@.len(),
        {
            let p = src.pop().unwrap();
            stack.push(p);
        }
        let mut removed: Vec<Process> = Vec::new();
        assert(self.entries@ =~= Seq::<Process>::empty());
        assert(vs.take(0) =~= Seq::<ProcessView>::empty());
        assert(views_of(self.entries@) =~= Seq::<ProcessView>::empty());
        assert(views_of(removed@) =~= Seq::<ProcessView>::empty());
        while stack.len() > 0
            invariant
                n == orig.len(),
                vs == views_of(orig),
                stack@.len() <= n,
                self.capacity == old(self).capacity,
                forall|k: int| 0 <= k < stack@.len() ==> stack@[k] == orig[n - 1 - k],
                views_of(self.entries@) == vs.take(n - stack@.len()).filter(live()),
                views_of(removed@) == vs.take(n - stack@.len()).filter(done()),
            decreases stack@.len(),
        {
            let ghost i = n - stack@.len();
            let p = stack.pop().unwrap();
            assert(vs.take(i + 1) =~= vs.take(i).push(p@));
            proof {
                vs.take(i).lemma_filter_push(p@, live());
                vs.take(i).lemma_filter_push(p@, done());
            }
            if p.is_finished() {
                proof {
                    lemma_views_push(removed@, p);
                }
                removed.push(p);
            } else {
                proof {
                    lemma_views_push(self.entries@, p);
                }
                self.entries.push(p);
            }
        }
        assert(vs.take(n as int) =~= vs);
        removed
    }

    /// One sweep of the poll loop: every process takes the check at its own
    /// position (a running one that is seen to exit captures its output and
    /// finishes), then every finished process leaves the pool and is returned,
    /// in pool order.
    pub fn poll_sweep(&mut self, events: Vec<PollEvent>) -> (removed: Vec<Process>)
        requires
            events@.len() == old(self)@.len(),
        ensures
            final(self)@ == swept(old(self)@, events@),
            views_of(removed@) == reported(old(self)@, events@),
            final(self).capacity_hint() == old(self).capacity_hint(),
    {
        let ghost orig = self@;
        let ghost all_events = events@;
        let mut events = events;
        while events.len() > 0
            invariant
                all_events.len() == orig.len(),
                self.entries@.len() == orig.len(),
                self@.len() == orig.len(),
                self.capacity == old(self).capacity,
                events@.len() <= all_events.len(),
                events@ == all_events.take(events@.len() as int),
                forall|j: int| 0 <= j < events@.len() ==> self@[j] == orig[j],
                forall|j: int|
                    events@.len() <= j < orig.len() ==> self@[j] == orig[j].observed(
                        all_events[j],
                    ),
            decreases events@.len(),
        {
            let event = events.pop().unwrap();
            let i = events.len();
            let ghost before = self.entries@;
            self.entries[i].observe(event);
            assert(self@ =~= views_of(before).update(i as int, self.entries@[i as int]@));
        }
        assert(self@ =~= observed_each(orig, all_events));
        self.sweep_finished()
    }
}

} // verus!
