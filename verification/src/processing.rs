//! The work dispatcher: a bounded inbound order queue, a fixed pool of
//! workers fed round-robin, a monotone work-identifier counter, and a result
//! table polled by identifier.
//!
//! The dispatcher is modelled as a state machine.  Its host runs the loop:
//! `enque_work` admits an order (or reports `Busy` on a full queue),
//! `dispatch_next` moves the oldest order to a worker, `worker_run_next`
//! runs a worker's oldest item and collects its result, and
//! `get_work_result` removes a result by identifier.  The host decides when
//! to call each step and how long to wait between them; every property of
//! the data — identifier uniqueness and monotonicity, queue bounds, the
//! result table never holding an identifier twice, a result being claimable
//! at most once — is verified here.

use vstd::prelude::*;

use crate::worker::{Work, WorkId, WorkResult, WorkResultWrapped, WorkWrapped, Worker};

verus! {

/// Capacity of the inbound order queue.
pub const WORK_ORDERS_QUEUE_CAP: usize = 32;

/// Default number of workers in the pool.
pub const WORKERS_COUNT: usize = 2;

/// Errors of work processing.
#[derive(Debug, Clone, Copy, PartialEq, Eq, Structural)]
pub enum ProcessingError {
    /// The inbound order queue stayed full.
    Busy,
    /// The dispatcher is gone or its plumbing failed.
    ServiceFailed,
    /// No result under this identifier (yet).
    NotAvailable,
}

/// What one dispatch step did.
#[derive(Debug, Clone, Copy, PartialEq, Eq, Structural)]
pub enum DispatchStep {
    /// No order was waiting.
    Idle,
    /// Every worker's inbound queue is full; the order stays queued.
    AllWorkersBusy,
    /// The oldest order went to the worker at this index.
    Assigned { worker: usize, id: WorkId },
}

/// The dispatcher state.
pub struct WorkDispatcher {
    orders: Vec<WorkWrapped>,
    workers: Vec<Worker>,
    next_unique_work_id: WorkId,
    assigning_fuzz_factor: usize,
    orders_results: Vec<WorkResultWrapped>,
    issued: Ghost<Seq<WorkId>>,
}

impl WorkDispatcher {
    pub closed spec fn spec_orders(&self) -> Seq<WorkWrapped> {
        self.orders@
    }

    pub closed spec fn spec_workers(&self) -> Seq<Worker> {
        self.workers@
    }

    pub closed spec fn spec_next_id(&self) -> WorkId {
        self.next_unique_work_id
    }

    pub closed spec fn spec_fuzz(&self) -> int {
        self.assigning_fuzz_factor as int
    }

    pub closed spec fn spec_results(&self) -> Seq<WorkResultWrapped> {
        self.orders_results@
    }

    /// All identifiers ever handed out, in order.
    pub closed spec fn spec_issued(&self) -> Seq<WorkId> {
        self.issued@
    }

    /// An order with this identifier waits in the inbound queue.
    pub open spec fn spec_in_orders(&self, id: WorkId) -> bool {
        exists|i: int| 0 <= i < self.spec_orders().len() && (#[trigger] self.spec_orders()[i]).id == id
    }

    /// An item with this identifier waits in some worker's queue.
    pub open spec fn spec_in_workers(&self, id: WorkId) -> bool {
        exists|k: int, i: int|
            0 <= k < self.spec_workers().len() && 0 <= i < self.spec_workers()[
                k
            ].spec_inbound().len() && (#[trigger] self.spec_workers()[k].spec_inbound()[i]).id
                == id
    }

    /// The result table holds this identifier.
    pub open spec fn spec_has_result(&self, id: WorkId) -> bool {
        exists|i: int|
            0 <= i < self.spec_results().len() && (#[trigger] self.spec_results()[i]).id == id
    }

    /// The dispatcher holds this identifier somewhere.
    pub open spec fn spec_holds(&self, id: WorkId) -> bool {
        self.spec_in_orders(id) || self.spec_in_workers(id) || self.spec_has_result(id)
    }

    /// The identifier was used and fully retired: the dispatcher will never
    /// hold it again, so no retrieval of it can succeed.
    pub open spec fn spec_claimed(&self, id: WorkId) -> bool {
        id < self.spec_next_id() && !self.spec_holds(id)
    }

    /// Shape: queue bounds, a non-empty pool, well-formed queued work.
    pub open spec fn wf_shape(&self) -> bool {
        &&& self.spec_orders().len() <= WORK_ORDERS_QUEUE_CAP
        &&& 1 <= self.spec_workers().len()
        &&& 0 <= self.spec_fuzz() < self.spec_workers().len()
        &&& forall|k: int| 0 <= k < self.spec_workers().len() ==> (#[trigger] self.spec_workers()[k]).wf()
        &&& forall|i: int| 0 <= i < self.spec_orders().len() ==> (#[trigger] self.spec_orders()[i]).work.wf()
    }

    /// Freshness: every identifier held anywhere is below the counter, and
    /// the issued history is strictly increasing and below the counter.
    pub open spec fn wf_fresh(&self) -> bool {
        &&& forall|i: int|
            0 <= i < self.spec_orders().len() ==> (#[trigger] self.spec_orders()[i]).id
                < self.spec_next_id()
        &&& forall|k: int, i: int|
            0 <= k < self.spec_workers().len() && 0 <= i < self.spec_workers()[
                k
            ].spec_inbound().len() ==> (#[trigger] self.spec_workers()[k].spec_inbound()[i]).id
                < self.spec_next_id()
        &&& forall|i: int|
            0 <= i < self.spec_results().len() ==> (#[trigger] self.spec_results()[i]).id
                < self.spec_next_id()
        &&& forall|i: int|
            0 <= i < self.spec_issued().len() ==> (#[trigger] self.spec_issued()[i])
                < self.spec_next_id()
        &&& forall|i: int, j: int|
            0 <= i < j < self.spec_issued().len() ==> (#[trigger] self.spec_issued()[i]) < (
            #[trigger] self.spec_issued()[j])
    }

    /// Uniqueness: an identifier occurs at most once across the order queue,
    /// the worker queues and the result table.
    pub open spec fn wf_unique(&self) -> bool {
        &&& forall|i: int, j: int|
            0 <= i < j < self.spec_orders().len() ==> (#[trigger] self.spec_orders()[i]).id != (
            #[trigger] self.spec_orders()[j]).id
        &&& forall|k: int, i: int, j: int|
            0 <= k < self.spec_workers().len() && 0 <= i < j < self.spec_workers()[
                k
            ].spec_inbound().len() ==> (#[trigger] self.spec_workers()[k].spec_inbound()[i]).id
                != (#[trigger] self.spec_workers()[k].spec_inbound()[j]).id
        &&& forall|k: int, l: int, i: int, j: int|
            0 <= k < l < self.spec_workers().len() && 0 <= i < self.spec_workers()[
                k
            ].spec_inbound().len() && 0 <= j < self.spec_workers()[l].spec_inbound().len() ==> (
            #[trigger] self.spec_workers()[k].spec_inbound()[i]).id != (
            #[trigger] self.spec_workers()[l].spec_inbound()[j]).id
        &&& forall|o: int, k: int, i: int|
            0 <= o < self.spec_orders().len() && 0 <= k < self.spec_workers().len() && 0 <= i
                < self.spec_workers()[k].spec_inbound().len() ==> (#[trigger] self.spec_orders()[
                o
            ]).id != (#[trigger] self.spec_workers()[k].spec_inbound()[i]).id
        &&& forall|i: int, j: int|
            0 <= i < j < self.spec_results().len() ==> (#[trigger] self.spec_results()[i]).id != (
            #[trigger] self.spec_results()[j]).id
        &&& forall|o: int, i: int|
            0 <= o < self.spec_orders().len() && 0 <= i < self.spec_results().len() ==> (
            #[trigger] self.spec_orders()[o]).id != (#[trigger] self.spec_results()[i]).id
        &&& forall|k: int, i: int, r: int|
            0 <= k < self.spec_workers().len() && 0 <= i < self.spec_workers()[
                k
            ].spec_inbound().len() && 0 <= r < self.spec_results().len() ==> (
            #[trigger] self.spec_workers()[k].spec_inbound()[i]).id != (
            #[trigger] self.spec_results()[r]).id
    }

    pub open spec fn wf(&self) -> bool {
        self.wf_shape() && self.wf_fresh() && self.wf_unique()
    }

    /// A fresh dispatcher with the default pool, empty queues and an empty
    /// result table.
    pub fn new() -> (d: WorkDispatcher)
        ensures
            d.wf(),
            d.spec_orders().len() == 0,
            d.spec_workers().len() == WORKERS_COUNT,
            d.spec_results().len() == 0,
            d.spec_issued().len() == 0,
            d.spec_next_id() == 0,
    {
        let mut workers: Vec<Worker> = Vec::new();
        let mut k: usize = 0;
        while k < WORKERS_COUNT
            invariant
                k <= WORKERS_COUNT,
                workers@.len() == k,
                forall|i: int| 0 <= i < k ==> (#[trigger] workers@[i]).wf(),
                forall|i: int| 0 <= i < k ==> (#[trigger] workers@[i]).spec_inbound().len() == 0,
            decreases WORKERS_COUNT - k,
        {
            workers.push(Worker::new(k as u32));
            k = k + 1;
        }
        WorkDispatcher {
            orders: Vec::new(),
            workers,
            next_unique_work_id: 0,
            assigning_fuzz_factor: 0,
            orders_results: Vec::new(),
            issued: Ghost(Seq::empty()),
        }
    }

    /// Admit a work order.  On a full inbound queue the order is refused
    /// with `Busy`; otherwise a fresh identifier is allocated, the tagged
    /// order joins the queue, and the identifier is returned.  Identifiers
    /// grow strictly, and a retired identifier never comes back.
    pub fn enque_work(&mut self, work_to_do: Work) -> (r: Result<WorkId, ProcessingError>)
        requires
            old(self).wf(),
            work_to_do.wf(),
        ensures
            final(self).wf(),
            r is Ok <==> old(self).spec_orders().len() < WORK_ORDERS_QUEUE_CAP && old(
                self,
            ).spec_next_id() < WorkId::MAX,
            r matches Err(e) ==> e == ProcessingError::Busy && *final(self) == *old(self),
            r matches Ok(id) ==> {
                &&& id == old(self).spec_next_id()
                &&& final(self).spec_next_id() == old(self).spec_next_id() + 1
                &&& final(self).spec_issued() == old(self).spec_issued().push(id)
                &&& final(self).spec_orders() == old(self).spec_orders().push(
                    WorkWrapped { id, work: work_to_do },
                )
                &&& final(self).spec_workers() == old(self).spec_workers()
                &&& final(self).spec_results() == old(self).spec_results()
                &&& final(self).spec_fuzz() == old(self).spec_fuzz()
            },
            forall|id: WorkId| old(self).spec_claimed(id) ==> final(self).spec_claimed(id),
    {
        if self.orders.len() >= WORK_ORDERS_QUEUE_CAP {
            return Err(ProcessingError::Busy);
        }
        if self.next_unique_work_id == WorkId::MAX {
            // the counter cannot advance; treat the service as saturated
            return Err(ProcessingError::Busy);
        }
        let ghost pre = *self;
        let id = self.next_unique_work_id;
        self.next_unique_work_id = self.next_unique_work_id + 1;
        self.orders.push(WorkWrapped { id, work: work_to_do });
        proof {
            self.issued@ = pre.spec_issued().push(id);
            assert(self.spec_orders() == pre.spec_orders().push(
                WorkWrapped { id, work: work_to_do },
            ));
            assert forall|x: WorkId| pre.spec_claimed(x) implies self.spec_claimed(x) by {
                assert(!pre.spec_holds(x));
                if self.spec_in_orders(x) {
                    let i = choose|i: int|
                        0 <= i < self.spec_orders().len() && (#[trigger] self.spec_orders()[i]).id
                            == x;
                    if i < pre.spec_orders().len() {
                        assert(pre.spec_in_orders(x));
                    }
                }
                assert(!self.spec_in_workers(x) || pre.spec_in_workers(x));
                assert(!self.spec_has_result(x) || pre.spec_has_result(x));
            }
        }
        Ok(id)
    }

    /// Move the oldest order to a worker.  Probing starts at the rotating
    /// offset and wraps once around the pool; the first worker with queue
    /// space receives the order, and the offset advances by one.  With every
    /// worker full the queue is left as it is.
    pub fn dispatch_next(&mut self) -> (r: DispatchStep)
        requires
            old(self).wf(),
        ensures
            final(self).wf(),
            r == DispatchStep::Idle <==> old(self).spec_orders().len() == 0,
            r == DispatchStep::Idle ==> *final(self) == *old(self),
            r == DispatchStep::AllWorkersBusy ==> *final(self) == *old(self) && forall|k: int|
                0 <= k < old(self).spec_workers().len() ==> (#[trigger] old(self).spec_workers()[
                    k
                ]).spec_inbound().len() >= crate::worker::WORKER_INPUT_QUEUE_CAP,
            r matches DispatchStep::Assigned { worker, id } ==> {
                &&& (worker as int) < old(self).spec_workers().len()
                &&& id == old(self).spec_orders()[0].id
                &&& final(self).spec_orders() == old(self).spec_orders().drop_first()
                &&& old(self).spec_workers()[worker as int].spec_inbound().len()
                    < crate::worker::WORKER_INPUT_QUEUE_CAP
                &&& final(self).spec_workers() == old(self).spec_workers().update(
                    worker as int,
                    final(self).spec_workers()[worker as int],
                )
                &&& final(self).spec_workers()[worker as int].spec_inbound() == old(
                    self,
                ).spec_workers()[worker as int].spec_inbound().push(old(self).spec_orders()[0])
                &&& final(self).spec_results() == old(self).spec_results()
                &&& final(self).spec_next_id() == old(self).spec_next_id()
                &&& final(self).spec_issued() == old(self).spec_issued()
                &&& final(self).spec_fuzz() == (old(self).spec_fuzz() + 1) % (old(
                    self,
                ).spec_workers().len() as int)
            },
            forall|id: WorkId| old(self).spec_claimed(id) ==> final(self).spec_claimed(id),
    {
        let ghost pre = *self;
        if self.orders.len() == 0 {
            return DispatchStep::Idle;
        }
        let wcount = self.workers.len();
        let start = self.assigning_fuzz_factor;
        let mut found: bool = false;
        let mut target: usize = 0;
        let mut p: usize = start;
        while p < wcount
            invariant
                start <= p <= wcount,
                wcount == self.spec_workers().len(),
                start == self.spec_fuzz(),
                *self == pre,
                self.wf(),
                found ==> target < wcount && self.spec_workers()[
                    target as int
                ].spec_inbound().len() < crate::worker::WORKER_INPUT_QUEUE_CAP,
                !found ==> forall|s: int|
                    start <= s < p ==> (#[trigger] self.spec_workers()[s]).spec_inbound().len()
                        >= crate::worker::WORKER_INPUT_QUEUE_CAP,
            decreases wcount - p,
        {
            if !found && self.workers[p].queued_count() < crate::worker::WORKER_INPUT_QUEUE_CAP {
                found = true;
                target = p;
            }
            p = p + 1;
        }
        let mut q: usize = 0;
        while q < start
            invariant
                q <= start <= wcount,
                wcount == self.spec_workers().len(),
                start == self.spec_fuzz(),
                *self == pre,
                self.wf(),
                found ==> target < wcount && self.spec_workers()[
                    target as int
                ].spec_inbound().len() < crate::worker::WORKER_INPUT_QUEUE_CAP,
                !found ==> forall|s: int|
                    start <= s < wcount ==> (#[trigger] self.spec_workers()[s]).spec_inbound().len()
                        >= crate::worker::WORKER_INPUT_QUEUE_CAP,
                !found ==> forall|s: int|
                    0 <= s < q ==> (#[trigger] self.spec_workers()[s]).spec_inbound().len()
                        >= crate::worker::WORKER_INPUT_QUEUE_CAP,
            decreases start - q,
        {
            if !found && self.workers[q].queued_count() < crate::worker::WORKER_INPUT_QUEUE_CAP {
                found = true;
                target = q;
            }
            q = q + 1;
        }
        if !found {
            return DispatchStep::AllWorkersBusy;
        }
        let item = self.orders.remove(0);
        let ghost moved = item;
        let id = item.id;
        let wref = &mut self.workers[target];
        let enq = wref.try_enque_work(item);
        proof {
            assert(enq is Ok);
        }
        self.assigning_fuzz_factor = (self.assigning_fuzz_factor + 1) % self.workers.len();
        proof {
            assert(self.spec_orders() =~= pre.spec_orders().drop_first());
            self.lemma_after_assign(pre, target as int, moved);
        }
        DispatchStep::Assigned { worker: target, id }
    }

    /// After moving the oldest order into the worker at `k`, the invariants
    /// hold and no retired identifier comes back.
    proof fn lemma_after_assign(&self, pre: WorkDispatcher, k: int, moved: WorkWrapped)
        requires
            pre.wf(),
            pre.spec_orders().len() > 0,
            moved == pre.spec_orders()[0],
            0 <= k < pre.spec_workers().len(),
            self.spec_orders() == pre.spec_orders().drop_first(),
            self.spec_workers().len() == pre.spec_workers().len(),
            self.spec_workers() == pre.spec_workers().update(k, self.spec_workers()[k]),
            self.spec_workers()[k].wf(),
            self.spec_workers()[k].spec_inbound() == pre.spec_workers()[k].spec_inbound().push(
                moved,
            ),
            self.spec_results() == pre.spec_results(),
            self.spec_next_id() == pre.spec_next_id(),
            self.spec_issued() == pre.spec_issued(),
            0 <= self.spec_fuzz() < self.spec_workers().len(),
        ensures
            self.wf(),
            forall|id: WorkId| pre.spec_claimed(id) ==> self.spec_claimed(id),
    {
        let ow = pre.spec_orders();
        let nw = self.spec_orders();
        let pk = pre.spec_workers()[k].spec_inbound();
        let nk = self.spec_workers()[k].spec_inbound();
        assert(nw.len() == ow.len() - 1);
        assert(forall|i: int| 0 <= i < nw.len() ==> #[trigger] nw[i] == ow[i + 1]);
        assert(nk.len() == pk.len() + 1);
        assert(forall|i: int| 0 <= i < pk.len() ==> #[trigger] nk[i] == pk[i]);
        assert(nk.last() == moved);
        assert forall|l: int| 0 <= l < self.spec_workers().len() && l != k implies
            #[trigger] self.spec_workers()[l] == pre.spec_workers()[l] by {}
        // shape
        assert(self.wf_shape());
        // freshness
        assert(self.wf_fresh());
        // uniqueness: the moved identifier was in the order queue, so it
        // differs from every queued worker item and every result.
        assert(self.wf_unique());
        // a retired identifier is still held nowhere
        assert forall|x: WorkId| pre.spec_claimed(x) implies self.spec_claimed(x) by {
            assert(!pre.spec_holds(x));
            if self.spec_in_orders(x) {
                let i = choose|i: int|
                    0 <= i < nw.len() && (#[trigger] nw[i]).id == x;
                assert(ow[i + 1].id == x);
                assert(pre.spec_in_orders(x));
            }
            if self.spec_in_workers(x) {
                let (l, i): (int, int) = choose|l: int, i: int|
                    0 <= l < self.spec_workers().len() && 0 <= i < self.spec_workers()[
                        l
                    ].spec_inbound().len() && (#[trigger] self.spec_workers()[l].spec_inbound()[
                        i
                    ]).id == x;
                if l != k {
                    assert(pre.spec_workers()[l].spec_inbound()[i].id == x);
                    assert(pre.spec_in_workers(x));
                } else {
                    if i < pk.len() {
                        assert(pre.spec_workers()[k].spec_inbound()[i].id == x);
                        assert(pre.spec_in_workers(x));
                    } else {
                        assert(x == moved.id);
                        assert(pre.spec_in_orders(x));
                    }
                }
            }
            if self.spec_has_result(x) {
                assert(pre.spec_has_result(x));
            }
        }
    }

    /// After moving a worker's oldest item into the result table, the
    /// invariants hold and no retired identifier comes back.
    proof fn lemma_after_complete(&self, pre: WorkDispatcher, k: int, id: WorkId)
        requires
            pre.wf(),
            0 <= k < pre.spec_workers().len(),
            pre.spec_workers()[k].spec_inbound().len() > 0,
            id == pre.spec_workers()[k].spec_inbound().first().id,
            self.spec_orders() == pre.spec_orders(),
            self.spec_workers().len() == pre.spec_workers().len(),
            self.spec_workers() == pre.spec_workers().update(k, self.spec_workers()[k]),
            self.spec_workers()[k].wf(),
            self.spec_workers()[k].spec_inbound() == pre.spec_workers()[k].spec_inbound()
                .drop_first(),
            self.spec_results() == pre.spec_results().push(self.spec_results().last()),
            self.spec_results().last().id == id,
            self.spec_next_id() == pre.spec_next_id(),
            self.spec_issued() == pre.spec_issued(),
            self.spec_fuzz() == pre.spec_fuzz(),
        ensures
            self.wf(),
            forall|x: WorkId| pre.spec_claimed(x) ==> self.spec_claimed(x),
    {
        let pk = pre.spec_workers()[k].spec_inbound();
        let nk = self.spec_workers()[k].spec_inbound();
        assert(nk.len() == pk.len() - 1);
        assert(forall|i: int| 0 <= i < nk.len() ==> #[trigger] nk[i] == pk[i + 1]);
        assert forall|l: int| 0 <= l < self.spec_workers().len() && l != k implies
            #[trigger] self.spec_workers()[l] == pre.spec_workers()[l] by {}
        let nr = self.spec_results();
        let pr = pre.spec_results();
        assert(nr.len() == pr.len() + 1);
        assert(forall|i: int| 0 <= i < pr.len() ==> #[trigger] nr[i] == pr[i]);
        assert(self.wf_shape());
        assert(self.wf_fresh());
        // the completed identifier came out of worker k's queue, so it is in
        // no order, no worker queue, and not yet in the table
        assert forall|i: int| 0 <= i < pr.len() implies (#[trigger] pr[i]).id != id by {
            assert(pk[0].id == id);
        }
        assert(self.wf_unique());
        assert forall|x: WorkId| pre.spec_claimed(x) implies self.spec_claimed(x) by {
            assert(!pre.spec_holds(x));
            if self.spec_in_orders(x) {
                assert(pre.spec_in_orders(x));
            }
            if self.spec_in_workers(x) {
                let (l, i): (int, int) = choose|l: int, i: int|
                    0 <= l < self.spec_workers().len() && 0 <= i < self.spec_workers()[
                        l
                    ].spec_inbound().len() && (#[trigger] self.spec_workers()[l].spec_inbound()[
                        i
                    ]).id == x;
                if l != k {
                    assert(pre.spec_workers()[l].spec_inbound()[i].id == x);
                    assert(pre.spec_in_workers(x));
                } else {
                    assert(pk[i + 1].id == x);
                    assert(pre.spec_in_workers(x));
                }
            }
            if self.spec_has_result(x) {
                let i = choose|i: int|
                    0 <= i < nr.len() && (#[trigger] nr[i]).id == x;
                if i < pr.len() {
                    assert(pre.spec_has_result(x));
                } else {
                    assert(x == id);
                    assert(pk[0].id == x);
                    assert(pre.spec_in_workers(x));
                }
            }
        }
    }

    /// After removing the result at `i`, its identifier is retired and the
    /// rest of the table keeps its bindings.
    proof fn lemma_after_claim(&self, pre: WorkDispatcher, i: int, id: WorkId)
        requires
            pre.wf(),
            0 <= i < pre.spec_results().len(),
            pre.spec_results()[i].id == id,
            self.spec_orders() == pre.spec_orders(),
            self.spec_workers() == pre.spec_workers(),
            self.spec_results() == pre.spec_results().remove(i),
            self.spec_next_id() == pre.spec_next_id(),
            self.spec_issued() == pre.spec_issued(),
            self.spec_fuzz() == pre.spec_fuzz(),
        ensures
            self.wf(),
            !self.spec_has_result(id),
            forall|x: WorkId|
                x != id ==> (self.spec_has_result(x) <==> pre.spec_has_result(x)),
            self.spec_claimed(id),
            forall|x: WorkId| pre.spec_claimed(x) ==> self.spec_claimed(x),
    {
        let pr = pre.spec_results();
        let nr = self.spec_results();
        assert(nr.len() == pr.len() - 1);
        assert forall|j: int| 0 <= j < nr.len() implies #[trigger] nr[j] == (if j < i {
            pr[j]
        } else {
            pr[j + 1]
        }) by {}
        assert(self.wf_shape());
        assert(self.wf_fresh());
        assert(self.wf_unique());
        assert forall|j: int| 0 <= j < nr.len() implies (#[trigger] nr[j]).id != id by {
            if j < i {
                assert(pr[j].id != id);
            } else {
                assert(pr[j + 1].id != id);
            }
        }
        assert(!self.spec_has_result(id));
        assert forall|x: WorkId| x != id implies (self.spec_has_result(x)
            <==> pre.spec_has_result(x)) by {
            if self.spec_has_result(x) {
                let j = choose|j: int| 0 <= j < nr.len() && (#[trigger] nr[j]).id == x;
                if j < i {
                    assert(pr[j].id == x);
                } else {
                    assert(pr[j + 1].id == x);
                }
            }
            if pre.spec_has_result(x) {
                let j = choose|j: int| 0 <= j < pr.len() && (#[trigger] pr[j]).id == x;
                assert(j != i);
                if j < i {
                    assert(nr[j].id == x);
                } else {
                    assert(nr[j - 1].id == x);
                }
            }
        }
        // the claimed identifier is held nowhere: results disjointness put it
        // outside every queue, and it was below the counter
        assert(id < self.spec_next_id());
        if self.spec_in_orders(id) {
            let o = choose|o: int|
                0 <= o < self.spec_orders().len() && (#[trigger] self.spec_orders()[o]).id == id;
            assert(pre.spec_orders()[o].id != pr[i].id);
            assert(false);
        }
        if self.spec_in_workers(id) {
            let (l, j): (int, int) = choose|l: int, j: int|
                0 <= l < self.spec_workers().len() && 0 <= j < self.spec_workers()[
                    l
                ].spec_inbound().len() && (#[trigger] self.spec_workers()[l].spec_inbound()[
                    j
                ]).id == id;
            assert(pre.spec_workers()[l].spec_inbound()[j].id != pr[i].id);
            assert(false);
        }
        assert(self.spec_claimed(id));
        assert forall|x: WorkId| pre.spec_claimed(x) implies self.spec_claimed(x) by {
            assert(!pre.spec_holds(x));
            if self.spec_has_result(x) {
                let j = choose|j: int| 0 <= j < nr.len() && (#[trigger] nr[j]).id == x;
                if j < i {
                    assert(pr[j].id == x);
                } else {
                    assert(pr[j + 1].id == x);
                }
            }
        }
    }

    /// Run the oldest item of the worker at `k` and collect its result in
    /// the table.  The table never holds an identifier twice.
    pub fn worker_run_next(&mut self, k: usize) -> (r: Option<WorkId>)
        requires
            old(self).wf(),
            (k as int) < old(self).spec_workers().len(),
        ensures
            final(self).wf(),
            r is Some <==> old(self).spec_workers()[k as int].spec_inbound().len() > 0,
            r is None ==> final(self).spec_orders() == old(self).spec_orders()
                && final(self).spec_workers() == old(self).spec_workers()
                && final(self).spec_results() == old(self).spec_results()
                && final(self).spec_next_id() == old(self).spec_next_id()
                && final(self).spec_issued() == old(self).spec_issued()
                && final(self).spec_fuzz() == old(self).spec_fuzz(),
            r matches Some(id) ==> {
                &&& id == old(self).spec_workers()[k as int].spec_inbound().first().id
                &&& final(self).spec_workers() == old(self).spec_workers().update(
                    k as int,
                    final(self).spec_workers()[k as int],
                )
                &&& final(self).spec_workers()[k as int].spec_inbound() == old(
                    self,
                ).spec_workers()[k as int].spec_inbound().drop_first()
                &&& final(self).spec_results().len() == old(self).spec_results().len() + 1
                &&& final(self).spec_results() == old(self).spec_results().push(
                    final(self).spec_results().last(),
                )
                &&& final(self).spec_results().last().id == id
                &&& crate::worker::spec_work_result(
                    old(self).spec_workers()[k as int].spec_inbound().first().work,
                    final(self).spec_results().last().work_result,
                )
                &&& final(self).spec_orders() == old(self).spec_orders()
                &&& final(self).spec_next_id() == old(self).spec_next_id()
                &&& final(self).spec_issued() == old(self).spec_issued()
                &&& final(self).spec_fuzz() == old(self).spec_fuzz()
            },
            forall|id: WorkId| old(self).spec_claimed(id) ==> final(self).spec_claimed(id),
    {
        let ghost pre = *self;
        if self.workers[k].queued_count() == 0 {
            return None;
        }
        let wref = &mut self.workers[k];
        let taken = wref.take_next();
        match taken {
            None => {
                proof {
                    assert(false);
                }
                None
            },
            Some(item) => {
                let id = item.id;
                let work_result = Worker::do_work(item.work);
                self.orders_results.push(WorkResultWrapped { id, work_result });
                proof {
                    self.lemma_after_complete(pre, k as int, id);
                }
                Some(id)
            },
        }
    }

    /// Retrieve and remove the result for an identifier; `NotAvailable`
    /// while it has not landed.  A retrieved identifier is retired for good:
    /// it can never be retrieved again.
    pub fn get_work_result(&mut self, work_id: WorkId) -> (r: Result<WorkResult, ProcessingError>)
        requires
            old(self).wf(),
        ensures
            final(self).wf(),
            r is Ok <==> old(self).spec_has_result(work_id),
            r matches Err(e) ==> e == ProcessingError::NotAvailable && *final(self) == *old(self),
            r matches Ok(res) ==> {
                &&& exists|i: int|
                    0 <= i < old(self).spec_results().len() && (#[trigger] old(
                        self,
                    ).spec_results()[i]).id == work_id && old(self).spec_results()[i].work_result
                        == res
                &&& !final(self).spec_has_result(work_id)
                &&& forall|x: WorkId|
                    x != work_id ==> (final(self).spec_has_result(x) <==> old(
                        self,
                    ).spec_has_result(x))
                &&& final(self).spec_orders() == old(self).spec_orders()
                &&& final(self).spec_workers() == old(self).spec_workers()
                &&& final(self).spec_next_id() == old(self).spec_next_id()
                &&& final(self).spec_issued() == old(self).spec_issued()
                &&& old(self).spec_claimed(work_id) == false
                &&& final(self).spec_claimed(work_id)
            },
            forall|id: WorkId| old(self).spec_claimed(id) ==> final(self).spec_claimed(id),
    {
        let ghost pre = *self;
        let n = self.orders_results.len();
        let mut i: usize = 0;
        while i < n
            invariant
                i <= n,
                n == self.spec_results().len(),
                *self == pre,
                pre == *old(self),
                pre.wf(),
                forall|j: int| 0 <= j < i ==> (#[trigger] self.spec_results()[j]).id != work_id,
            decreases n - i,
        {
            if self.orders_results[i].id == work_id {
                proof {
                    assert(pre.spec_results()[i as int].id == work_id);
                    assert(pre.spec_has_result(work_id));
                }
                let found = self.orders_results.remove(i);
                proof {
                    self.lemma_after_claim(pre, i as int, work_id);
                }
                return Ok(found.work_result);
            }
            i = i + 1;
        }
        assert(!self.spec_has_result(work_id));
        Err(ProcessingError::NotAvailable)
    }

    /// Shut the dispatcher down: queues, workers and any unclaimed results
    /// are dropped.
    pub fn shutdown(self) {
    }
}

/// Issued work identifiers are pairwise distinct and monotone: an order
/// admitted later always receives a strictly larger identifier.
pub proof fn lemma_issued_ids_distinct_and_monotone(d: &WorkDispatcher)
    requires
        d.wf(),
    ensures
        forall|i: int, j: int|
            0 <= i < j < d.spec_issued().len() ==> (#[trigger] d.spec_issued()[i]) < (
            #[trigger] d.spec_issued()[j]) && d.spec_issued()[i] != d.spec_issued()[j],
{
}

/// A work result is retrievable at most once.  A successful retrieval leaves
/// its identifier claimed, every dispatcher step keeps a claimed identifier
/// claimed, and while an identifier is claimed the table holds no result for
/// it, so a second retrieval must return `NotAvailable`.
pub proof fn lemma_claimed_result_unavailable(d: &WorkDispatcher, id: WorkId)
    requires
        d.spec_claimed(id),
    ensures
        !d.spec_has_result(id),
{
}

} // verus!
