//! Bounded-concurrency dispatch.
//!
//! The dispatcher admits a dynamically produced sequence of deferred tasks
//! under an optional admission limit and collects their results unordered,
//! failing fast on the first error. Running the tasks is the caller's
//! affair — they may be asynchronous operations advanced by an outside event
//! loop — so this module verifies the decisions: when a task may be admitted
//! ([`Dispatcher::wants_task`]), how completions are recorded
//! ([`Dispatcher::task_completed`]), when the whole operation is finished
//! ([`Dispatcher::is_done`]), and that on the first error every in-flight
//! task is handed back for an explicit abandon and nothing further is
//! admitted ([`Dispatcher::fail`]). Each admitted task gets a dense id (its
//! admission rank), which ties a completion report to an admission.

use vstd::prelude::*;

verus! {

/// The admission and completion state of one dispatch run over tasks whose
/// results have type `T`.
pub struct Dispatcher<T> {
    limit: Option<usize>,
    in_flight: Vec<u64>,
    next_id: u64,
    input_done: bool,
    failed: bool,
    outputs: Vec<T>,
    completed: Ghost<Seq<u64>>,
    results: Ghost<Map<u64, T>>,
}

impl<T> Dispatcher<T> {
    /// The admission limit this dispatcher was configured with; `None` is
    /// unbounded.
    pub closed spec fn limit_spec(self) -> Option<usize> {
        self.limit
    }

    /// How many tasks have been admitted; also the next task id.
    pub closed spec fn admitted(self) -> int {
        self.next_id as int
    }

    /// The ids of the admitted tasks not yet resolved, in admission order.
    pub closed spec fn in_flight_ids(self) -> Seq<u64> {
        self.in_flight@
    }

    /// The ids of the completed tasks, in completion order.
    pub closed spec fn completed_ids(self) -> Seq<u64> {
        self.completed@
    }

    /// The collected results, in completion order.
    pub closed spec fn outputs_spec(self) -> Seq<T> {
        self.outputs@
    }

    /// The result each completed task resolved to, by task id.
    pub closed spec fn results_map(self) -> Map<u64, T> {
        self.results@
    }

    /// Whether the input sequence has signalled exhaustion.
    pub closed spec fn input_done_spec(self) -> bool {
        self.input_done
    }

    /// Whether an error has been observed.
    pub closed spec fn failed_spec(self) -> bool {
        self.failed
    }

    /// A further task may be admitted: no error was observed, the input has
    /// not ended, and a slot is free under the limit.
    pub open spec fn wants_task_spec(self) -> bool {
        &&& !self.input_done_spec()
        &&& !self.failed_spec()
        &&& (self.limit_spec() matches Some(l) ==> self.in_flight_ids().len() < l)
    }

    /// The whole operation is complete: the input is exhausted, no task is
    /// in flight, and no error was observed.
    pub open spec fn done_spec(self) -> bool {
        &&& self.input_done_spec()
        &&& self.in_flight_ids().len() == 0
        &&& !self.failed_spec()
    }

    /// Internal consistency: the limit (if any) is positive and respected;
    /// in-flight and completed ids are admitted ids without duplicates and
    /// without overlap; every admitted id is in flight or completed until a
    /// failure abandons the in-flight ones; and the outputs pair up with the
    /// completed ids in completion order.
    pub closed spec fn wf(self) -> bool {
        &&& (self.limit matches Some(l) ==> l >= 1 && self.in_flight@.len() <= l)
        &&& self.in_flight@.no_duplicates()
        &&& forall|i: int| 0 <= i < self.in_flight@.len() ==> self.in_flight@[i] < self.next_id
        &&& self.completed@.no_duplicates()
        &&& forall|i: int| 0 <= i < self.completed@.len() ==> self.completed@[i] < self.next_id
        &&& forall|id: u64|
            self.completed@.contains(id) ==> !self.in_flight@.contains(id)
        &&& self.outputs@.len() == self.completed@.len()
        &&& forall|i: int|
            0 <= i < self.completed@.len() ==> self.results@.contains_key(
                #[trigger] self.completed@[i],
            ) && self.outputs@[i] == self.results@[self.completed@[i]]
        &&& !self.failed ==> self.completed@.len() + self.in_flight@.len() == self.next_id
        &&& !self.failed ==> forall|id: u64|
            0 <= id < self.next_id ==> (self.in_flight@.contains(id)
                || self.completed@.contains(id))
        &&& self.failed ==> self.in_flight@.len() == 0
    }

    /// A fresh dispatcher under the given admission limit (`None` is
    /// unbounded; a limit of zero would never let a task in and is excluded).
    pub fn new(limit: Option<usize>) -> (r: Dispatcher<T>)
        requires
            limit matches Some(l) ==> l >= 1,
        ensures
            r.wf(),
            r.limit_spec() == limit,
            r.admitted() == 0,
            r.in_flight_ids() == Seq::<u64>::empty(),
            r.completed_ids() == Seq::<u64>::empty(),
            r.outputs_spec() == Seq::<T>::empty(),
            !r.input_done_spec(),
            !r.failed_spec(),
    {
        Dispatcher {
            limit,
            in_flight: Vec::new(),
            next_id: 0,
            input_done: false,
            failed: false,
            outputs: Vec::new(),
            completed: Ghost(Seq::<u64>::empty()),
            results: Ghost(Map::<u64, T>::empty()),
        }
    }

    /// Whether a further task may be admitted right now.
    pub fn wants_task(&self) -> (r: bool)
        ensures
            r == self.wants_task_spec(),
    {
        if self.input_done || self.failed {
            false
        } else {
            match self.limit {
                Some(l) => self.in_flight.len() < l,
                None => true,
            }
        }
    }

    /// Let in the next task from the input and return its id, its admission
    /// rank. Admission is attempted again after every event, so slots freed
    /// by completions refill immediately.
    pub fn admit_task(&mut self) -> (id: u64)
        requires
            old(self).wf(),
            old(self).wants_task_spec(),
            old(self).admitted() < u64::MAX,
        ensures
            final(self).wf(),
            id == old(self).admitted(),
            final(self).admitted() == old(self).admitted() + 1,
            final(self).in_flight_ids() == old(self).in_flight_ids().push(id),
            final(self).limit_spec() == old(self).limit_spec(),
            final(self).completed_ids() == old(self).completed_ids(),
            final(self).outputs_spec() == old(self).outputs_spec(),
            final(self).results_map() == old(self).results_map(),
            final(self).input_done_spec() == old(self).input_done_spec(),
            !final(self).failed_spec(),
    {
        let ghost pre = *old(self);
        let id = self.next_id;
        self.next_id = self.next_id + 1;
        self.in_flight.push(id);
        proof {
            let nf = self.in_flight@;
            let pf = pre.in_flight@;
            assert(nf[pf.len() as int] == id);
            assert(nf.contains(id));
            assert forall|x: u64| pf.contains(x) implies nf.contains(x) by {
                let i = choose|i: int| 0 <= i < pf.len() && pf[i] == x;
                assert(nf[i] == x);
            }
            assert forall|x: u64| nf.contains(x) implies pf.contains(x) || x == id by {
                let i = choose|i: int| 0 <= i < nf.len() && nf[i] == x;
                if i < pf.len() {
                    assert(pf[i] == x);
                }
            }
            assert forall|i: int, k: int| 0 <= i < k < nf.len() implies nf[i] != nf[k] by {
                if k < pf.len() {
                    assert(pf[i] != pf[k]);
                } else {
                    assert(pf[i] < id);
                }
            }
            assert(nf.no_duplicates());
        }
        id
    }

    /// The input sequence has signalled exhaustion; nothing further will be
    /// admitted, but in-flight tasks still run to completion.
    pub fn input_exhausted(&mut self)
        requires
            old(self).wf(),
        ensures
            final(self).wf(),
            final(self).input_done_spec(),
            final(self).limit_spec() == old(self).limit_spec(),
            final(self).admitted() == old(self).admitted(),
            final(self).in_flight_ids() == old(self).in_flight_ids(),
            final(self).completed_ids() == old(self).completed_ids(),
            final(self).outputs_spec() == old(self).outputs_spec(),
            final(self).results_map() == old(self).results_map(),
            final(self).failed_spec() == old(self).failed_spec(),
    {
        self.input_done = true;
    }

    /// Whether the given task id is currently in flight.
    pub fn is_in_flight(&self, id: u64) -> (r: bool)
        ensures
            r == self.in_flight_ids().contains(id),
    {
        let mut j: usize = 0;
        while j < self.in_flight.len()
            invariant
                j <= self.in_flight@.len(),
                forall|k: int| 0 <= k < j ==> self.in_flight@[k] != id,
            decreases self.in_flight@.len() - j,
        {
            if self.in_flight[j] == id {
                return true;
            }
            j = j + 1;
        }
        false
    }

    /// Record that the in-flight task `id` resolved successfully to
    /// `output`. Results append in completion order, which is independent of
    /// admission order; the freed slot makes the dispatcher willing to take a task
    /// again at the next opportunity.
    pub fn task_completed(&mut self, id: u64, output: T)
        requires
            old(self).wf(),
            !old(self).failed_spec(),
            old(self).in_flight_ids().contains(id),
        ensures
            final(self).wf(),
            final(self).limit_spec() == old(self).limit_spec(),
            final(self).admitted() == old(self).admitted(),
            final(self).input_done_spec() == old(self).input_done_spec(),
            !final(self).failed_spec(),
            final(self).outputs_spec() == old(self).outputs_spec().push(output),
            final(self).completed_ids() == old(self).completed_ids().push(id),
            final(self).results_map() == old(self).results_map().insert(id, output),
            final(self).in_flight_ids().len() == old(self).in_flight_ids().len() - 1,
            forall|x: u64|
                final(self).in_flight_ids().contains(x) <==> (old(self).in_flight_ids().contains(
                    x,
                ) && x != id),
    {
        let ghost pre = *self;
        let j = find_id(&self.in_flight, id);
        self.in_flight.remove(j);
        let ghost o = output;
        self.outputs.push(output);
        self.completed = Ghost(self.completed@.push(id));
        self.results = Ghost(self.results@.insert(id, o));
        proof {
            let pf = pre.in_flight@;
            lemma_remove_found_id(pf, id, j as int);
            let nc = self.completed@;
            let pc = pre.completed@;
            assert(nc[pc.len() as int] == id);
            assert(nc.contains(id));
            assert(!pc.contains(id));
            assert forall|x: u64| pc.contains(x) implies nc.contains(x) by {
                let i = choose|i: int| 0 <= i < pc.len() && pc[i] == x;
                assert(nc[i] == x);
            }
            assert forall|x: u64| nc.contains(x) implies pc.contains(x) || x == id by {
                let i = choose|i: int| 0 <= i < nc.len() && nc[i] == x;
                if i < pc.len() {
                    assert(pc[i] == x);
                }
            }
            assert forall|i: int, k: int| 0 <= i < k < nc.len() implies nc[i] != nc[k] by {
                if k < pc.len() {
                    assert(pc[i] != pc[k]);
                } else {
                    assert(nc[k] == id);
                    assert(pc[i] != id);
                }
            }
            assert(nc.no_duplicates());
            assert forall|i: int|
                0 <= i < nc.len() implies self.results@.contains_key(#[trigger] nc[i])
                && self.outputs@[i] == self.results@[nc[i]] by {
                if i < pc.len() {
                    assert(pc[i] != id);
                }
            }
        }
    }

    /// Record the first error, from pulling the input or from any task. The
    /// returned ids are every task still in flight, handed back so the
    /// caller can send each an explicit abandon signal; none of their
    /// results will be accepted, and no further task is admitted.
    pub fn fail(&mut self) -> (abandoned: Vec<u64>)
        requires
            old(self).wf(),
            !old(self).failed_spec(),
        ensures
            final(self).wf(),
            final(self).failed_spec(),
            abandoned@ == old(self).in_flight_ids(),
            final(self).in_flight_ids() == Seq::<u64>::empty(),
            final(self).limit_spec() == old(self).limit_spec(),
            final(self).admitted() == old(self).admitted(),
            final(self).completed_ids() == old(self).completed_ids(),
            final(self).outputs_spec() == old(self).outputs_spec(),
            final(self).results_map() == old(self).results_map(),
            final(self).input_done_spec() == old(self).input_done_spec(),
    {
        self.failed = true;
        let mut v: Vec<u64> = Vec::new();
        core::mem::swap(&mut v, &mut self.in_flight);
        v
    }

    /// How many tasks are unresolved right now.
    pub fn in_flight_len(&self) -> (r: usize)
        ensures
            r == self.in_flight_ids().len(),
    {
        self.in_flight.len()
    }

    /// Whether an error has been observed.
    pub fn has_failed(&self) -> (r: bool)
        ensures
            r == self.failed_spec(),
    {
        self.failed
    }

    /// Whether the whole operation is complete: input exhausted, no task in
    /// flight, no error. While the input may still produce or any task is in
    /// flight, the operation is still pending.
    pub fn is_done(&self) -> (r: bool)
        ensures
            r == self.done_spec(),
    {
        self.input_done && self.in_flight.len() == 0 && !self.failed
    }

    /// Surrender the collected results, in completion order; there is one
    /// for every admitted task.
    pub fn into_outputs(self) -> (r: Vec<T>)
        requires
            self.wf(),
            self.done_spec(),
        ensures
            r@ == self.outputs_spec(),
            r@.len() == self.admitted(),
    {
        self.outputs
    }
}

/// The index of `id` in `v`; `v` must hold it.
fn find_id(v: &Vec<u64>, id: u64) -> (j: usize)
    requires
        v@.contains(id),
    ensures
        j < v@.len(),
        v@[j as int] == id,
{
    let mut j: usize = 0;
    while j < v.len()
        invariant
            j <= v@.len(),
            v@.contains(id),
            forall|k: int| 0 <= k < j ==> v@[k] != id,
        decreases v@.len() - j,
    {
        if v[j] == id {
            return j;
        }
        j = j + 1;
    }
    proof {
        let k = choose|k: int| 0 <= k < v@.len() && v@[k] == id;
        assert(false);
    }
    vstd::pervasive::unreached()
}

/// Removing the one occurrence of `id` at index `j` from a duplicate-free
/// sequence keeps it duplicate-free and drops exactly `id` from membership.
proof fn lemma_remove_found_id(s: Seq<u64>, id: u64, j: int)
    requires
        s.no_duplicates(),
        0 <= j < s.len(),
        s[j] == id,
    ensures
        s.remove(j).no_duplicates(),
        forall|x: u64| s.remove(j).contains(x) <==> (s.contains(x) && x != id),
{
    let r = s.remove(j);
    assert(r =~= s.take(j) + s.skip(j + 1));
    assert forall|x: u64| r.contains(x) implies (s.contains(x) && x != id) by {
        let i = choose|i: int| 0 <= i < r.len() && r[i] == x;
        if i < j {
            assert(s[i] == x);
        } else {
            assert(s[i + 1] == x);
        }
    }
    assert forall|x: u64| s.contains(x) && x != id implies r.contains(x) by {
        let i = choose|i: int| 0 <= i < s.len() && s[i] == x;
        if i < j {
            assert(r[i] == x);
        } else {
            assert(i != j);
            assert(r[i - 1] == x);
        }
    }
    assert forall|i: int, k: int| 0 <= i < k < r.len() implies r[i] != r[k] by {
        let si = if i < j { i } else { i + 1 };
        let sk = if k < j { k } else { k + 1 };
        assert(r[i] == s[si]);
        assert(r[k] == s[sk]);
    }
}

/// Bounded admission: under limit `L`, at no instant do more than `L` tasks
/// remain unresolved, and admission stops while `L` are in flight.
pub proof fn lemma_admission_bounded<T>(d: Dispatcher<T>)
    requires
        d.wf(),
    ensures
        d.limit_spec() matches Some(l) ==> d.in_flight_ids().len() <= l,
        (d.limit_spec() matches Some(l) && d.in_flight_ids().len() == l)
            ==> !d.wants_task_spec(),
{
}

/// With no error, the finished dispatcher's outputs account for every
/// admitted task exactly once: one result per admitted id, each id completed
/// once, and the i-th output is the result the i-th completed task resolved
/// to — a permutation of the per-task results, in completion order.
pub proof fn lemma_outputs_complete<T>(d: Dispatcher<T>)
    requires
        d.wf(),
        d.done_spec(),
    ensures
        d.outputs_spec().len() == d.admitted(),
        d.completed_ids().no_duplicates(),
        forall|id: u64| d.completed_ids().contains(id) <==> 0 <= id < d.admitted(),
        forall|i: int|
            0 <= i < d.completed_ids().len() ==> d.outputs_spec()[i] == d.results_map()[(
            #[trigger] d.completed_ids()[i])],
{
    assert forall|id: u64| d.completed_ids().contains(id) implies 0 <= id < d.admitted() by {
        let i = choose|i: int| 0 <= i < d.completed_ids().len() && d.completed_ids()[i] == id;
    }
}

/// Fail-fast: after the first observed error no further task is admitted
/// and the operation never reports successful completion.
pub proof fn lemma_fail_fast<T>(d: Dispatcher<T>)
    requires
        d.failed_spec(),
    ensures
        !d.wants_task_spec(),
        !d.done_spec(),
{
}

} // verus!
