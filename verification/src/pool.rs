use crate::message::{
    all_stops, lemma_all_stops_shape, lemma_push_stop, lemma_push_work, stop_count, work_ids,
    works_then_stops, Message,
};
use crate::worker::{Phase, Worker};
use vstd::multiset::Multiset;
use vstd::prelude::*;

verus! {

broadcast use
    vstd::multiset::group_multiset_axioms,
    vstd::seq_lib::group_to_multiset_ensures,
;

/// How many workers of `ws` are waiting for a queue entry.
pub open spec fn waiting_count(ws: Seq<Worker>) -> nat
    decreases ws.len(),
{
    if ws.len() == 0 {
        0
    } else {
        (if ws.first().phase is Waiting {
            1nat
        } else {
            0nat
        }) + waiting_count(ws.drop_first())
    }
}

/// How many workers of `ws` are executing a job right now.
pub open spec fn executing_count(ws: Seq<Worker>) -> nat
    decreases ws.len(),
{
    if ws.len() == 0 {
        0
    } else {
        (if ws.first().phase is Executing {
            1nat
        } else {
            0nat
        }) + executing_count(ws.drop_first())
    }
}

/// The job tokens the workers of `ws` hold in flight: dequeued, started, not
/// yet finished.
pub open spec fn inflight(ws: Seq<Worker>) -> Multiset<u64>
    decreases ws.len(),
{
    if ws.len() == 0 {
        Multiset::empty()
    } else {
        (match ws.first().current {
            Some(j) => Multiset::empty().insert(j),
            None => Multiset::empty(),
        }).add(inflight(ws.drop_first()))
    }
}

/// All job tokens the workers of `ws` have finished, as a multiset: which
/// worker ran which job is unspecified, so only the aggregate is meaningful.
pub open spec fn executed_all(ws: Seq<Worker>) -> Multiset<u64>
    decreases ws.len(),
{
    if ws.len() == 0 {
        Multiset::empty()
    } else {
        ws.first().executed@.to_multiset().add(executed_all(ws.drop_first()))
    }
}

/// How many executions the workers of `ws` have finished in all.
pub open spec fn executed_total(ws: Seq<Worker>) -> nat
    decreases ws.len(),
{
    if ws.len() == 0 {
        0
    } else {
        ws.first().executed@.len() + executed_total(ws.drop_first())
    }
}

/// `n` stop signals in a row, as they are enqueued at shutdown.
pub open spec fn stops(n: nat) -> Seq<Message> {
    Seq::new(n, |i: int| Message::Stop)
}

proof fn lemma_workers_push(ws: Seq<Worker>, w: Worker)
    ensures
        waiting_count(ws.push(w)) == waiting_count(ws) + (if w.phase is Waiting {
            1nat
        } else {
            0nat
        }),
        executing_count(ws.push(w)) == executing_count(ws) + (if w.phase is Executing {
            1nat
        } else {
            0nat
        }),
        w.current is None ==> inflight(ws.push(w)) =~= inflight(ws),
        executed_all(ws.push(w)) =~= executed_all(ws).add(w.executed@.to_multiset()),
        executed_total(ws.push(w)) == executed_total(ws) + w.executed@.len(),
    decreases ws.len(),
{
    let p = ws.push(w);
    if ws.len() == 0 {
        assert(p =~= seq![w]);
        assert(p.first() == w);
        assert(p.drop_first() =~= Seq::<Worker>::empty());
        assert(waiting_count(Seq::<Worker>::empty()) == 0);
        assert(executing_count(Seq::<Worker>::empty()) == 0);
        assert(inflight(Seq::<Worker>::empty()) == Multiset::<u64>::empty());
        assert(executed_all(Seq::<Worker>::empty()) == Multiset::<u64>::empty());
        assert(executed_total(Seq::<Worker>::empty()) == 0);
    } else {
        assert(p.first() == ws.first());
        assert(p.drop_first() =~= ws.drop_first().push(w));
        lemma_workers_push(ws.drop_first(), w);
    }
}

/// How one worker's step changes the aggregates: the update of position `i`
/// from `ws[i]` to `nw` is a start, a finish, or a stop, and the counts, the
/// in-flight tokens and the finished tokens move accordingly.
proof fn lemma_update_begin(ws: Seq<Worker>, i: int, nw: Worker, job: u64)
    requires
        0 <= i < ws.len(),
        ws[i].phase is Waiting,
        ws[i].current is None,
        nw.phase is Executing,
        nw.current == Some(job),
        nw.executed@ == ws[i].executed@,
    ensures
        waiting_count(ws.update(i, nw)) + 1 == waiting_count(ws),
        executing_count(ws.update(i, nw)) == executing_count(ws) + 1,
        inflight(ws.update(i, nw)) =~= inflight(ws).insert(job),
        executed_all(ws.update(i, nw)) =~= executed_all(ws),
        executed_total(ws.update(i, nw)) == executed_total(ws),
    decreases ws.len(),
{
    let u = ws.update(i, nw);
    if i == 0 {
        assert(u.first() == nw);
        assert(u.drop_first() =~= ws.drop_first());
    } else {
        assert(u.first() == ws.first());
        assert(u.drop_first() =~= ws.drop_first().update(i - 1, nw));
        lemma_update_begin(ws.drop_first(), i - 1, nw, job);
    }
}

proof fn lemma_update_finish(ws: Seq<Worker>, i: int, nw: Worker, job: u64)
    requires
        0 <= i < ws.len(),
        ws[i].phase is Executing,
        ws[i].current == Some(job),
        nw.phase is Waiting,
        nw.current is None,
        nw.executed@ == ws[i].executed@.push(job),
    ensures
        waiting_count(ws.update(i, nw)) == waiting_count(ws) + 1,
        executing_count(ws.update(i, nw)) + 1 == executing_count(ws),
        inflight(ws) =~= inflight(ws.update(i, nw)).insert(job),
        executed_all(ws.update(i, nw)) =~= executed_all(ws).insert(job),
        executed_total(ws.update(i, nw)) == executed_total(ws) + 1,
    decreases ws.len(),
{
    let u = ws.update(i, nw);
    if i == 0 {
        assert(u.first() == nw);
        assert(u.drop_first() =~= ws.drop_first());
        assert(nw.executed@.to_multiset() =~= ws[0].executed@.to_multiset().insert(job));
    } else {
        assert(u.first() == ws.first());
        assert(u.drop_first() =~= ws.drop_first().update(i - 1, nw));
        lemma_update_finish(ws.drop_first(), i - 1, nw, job);
    }
}

proof fn lemma_update_stop(ws: Seq<Worker>, i: int, nw: Worker)
    requires
        0 <= i < ws.len(),
        ws[i].phase is Waiting,
        ws[i].current is None,
        nw.phase is Terminated,
        nw.current is None,
        nw.executed@ == ws[i].executed@,
    ensures
        waiting_count(ws.update(i, nw)) + 1 == waiting_count(ws),
        executing_count(ws.update(i, nw)) == executing_count(ws),
        inflight(ws.update(i, nw)) =~= inflight(ws),
        executed_all(ws.update(i, nw)) =~= executed_all(ws),
        executed_total(ws.update(i, nw)) == executed_total(ws),
    decreases ws.len(),
{
    let u = ws.update(i, nw);
    if i == 0 {
        assert(u.first() == nw);
        assert(u.drop_first() =~= ws.drop_first());
    } else {
        assert(u.first() == ws.first());
        assert(u.drop_first() =~= ws.drop_first().update(i - 1, nw));
        lemma_update_stop(ws.drop_first(), i - 1, nw);
    }
}

proof fn lemma_no_waiting(ws: Seq<Worker>)
    requires
        forall|k: int| 0 <= k < ws.len() ==> !((#[trigger] ws[k]).phase is Waiting),
    ensures
        waiting_count(ws) == 0,
    decreases ws.len(),
{
    if ws.len() > 0 {
        assert(forall|k: int|
            0 <= k < ws.drop_first().len() ==> #[trigger] ws.drop_first()[k] == ws[k + 1]);
        lemma_no_waiting(ws.drop_first());
    }
}

proof fn lemma_no_executing(ws: Seq<Worker>)
    requires
        forall|k: int| 0 <= k < ws.len() ==> !((#[trigger] ws[k]).phase is Executing),
    ensures
        executing_count(ws) == 0,
    decreases ws.len(),
{
    if ws.len() > 0 {
        assert(forall|k: int|
            0 <= k < ws.drop_first().len() ==> #[trigger] ws.drop_first()[k] == ws[k + 1]);
        lemma_no_executing(ws.drop_first());
    }
}

proof fn lemma_waiting_zero(ws: Seq<Worker>)
    requires
        waiting_count(ws) == 0,
    ensures
        forall|k: int| 0 <= k < ws.len() ==> !((#[trigger] ws[k]).phase is Waiting),
    decreases ws.len(),
{
    if ws.len() > 0 {
        lemma_waiting_zero(ws.drop_first());
        assert(forall|k: int| 1 <= k < ws.len() ==> #[trigger] ws[k] == ws.drop_first()[k - 1]);
    }
}

proof fn lemma_executing_zero(ws: Seq<Worker>)
    requires
        executing_count(ws) == 0,
    ensures
        forall|k: int| 0 <= k < ws.len() ==> !((#[trigger] ws[k]).phase is Executing),
    decreases ws.len(),
{
    if ws.len() > 0 {
        lemma_executing_zero(ws.drop_first());
        assert(forall|k: int| 1 <= k < ws.len() ==> #[trigger] ws[k] == ws.drop_first()[k - 1]);
    }
}

proof fn lemma_no_inflight(ws: Seq<Worker>)
    requires
        forall|k: int| 0 <= k < ws.len() ==> (#[trigger] ws[k]).current is None,
    ensures
        inflight(ws) =~= Multiset::<u64>::empty(),
    decreases ws.len(),
{
    if ws.len() > 0 {
        assert(forall|k: int|
            0 <= k < ws.drop_first().len() ==> #[trigger] ws.drop_first()[k] == ws[k + 1]);
        lemma_no_inflight(ws.drop_first());
    }
}

proof fn lemma_executed_total_is_len(ws: Seq<Worker>)
    ensures
        executed_all(ws).len() == executed_total(ws),
    decreases ws.len(),
{
    if ws.len() > 0 {
        ws.first().executed@.to_multiset_ensures();
        lemma_executed_total_is_len(ws.drop_first());
    }
}

/// The pool: the dispatch queue it feeds (front at index 0), the workers that
/// drain it, and whether shutdown has begun.  `submitted` is the ghost log of
/// every job token ever enqueued; `clock` is the ghost tick counter that
/// timestamps executions — it advances when a job starts and when a job ends,
/// anywhere in the pool, so runs on different workers may overlap while runs
/// on one worker never do.
pub struct ThreadPool {
    pub workers: Vec<Worker>,
    pub queue: Vec<Message>,
    pub shutting_down: bool,
    pub submitted: Ghost<Seq<u64>>,
    pub clock: Ghost<int>,
}

impl ThreadPool {
    /// The number of workers, fixed at construction.
    pub open spec fn size(self) -> nat {
        self.workers@.len()
    }

    /// Well-formedness of the whole pool.
    ///
    /// - the pool always has at least one worker, each well formed, with its
    ///   identifier equal to its position, no finished run past the clock,
    ///   and no running job started at or past the clock;
    /// - the queue keeps work entries ahead of stop entries, holds no stop
    ///   signal before shutdown begins, and, once shutdown has begun, holds
    ///   exactly one stop signal per worker not yet terminated — and at least
    ///   one as long as it is non-empty, so draining never gets stuck;
    /// - every submitted job token is queued, in flight, or finished: jobs
    ///   are neither dropped nor duplicated.
    pub open spec fn wf(self) -> bool {
        &&& self.workers@.len() >= 1
        &&& forall|w: int| 0 <= w < self.workers@.len() ==> (#[trigger] self.workers@[w]).wf()
        &&& forall|w: int| 0 <= w < self.workers@.len() ==> (#[trigger] self.workers@[w]).id == w
        &&& forall|w: int|
            0 <= w < self.workers@.len() ==> (#[trigger] self.workers@[w]).quiet_since(self.clock@)
        &&& forall|w: int|
            0 <= w < self.workers@.len() && (#[trigger] self.workers@[w]).phase is Executing
                ==> self.workers@[w].started@ < self.clock@
        &&& works_then_stops(self.queue@)
        &&& (!self.shutting_down ==> stop_count(self.queue@) == 0)
        &&& (!self.shutting_down ==> waiting_count(self.workers@) + executing_count(self.workers@)
            == self.workers@.len())
        &&& (self.shutting_down ==> stop_count(self.queue@) == waiting_count(self.workers@)
            + executing_count(self.workers@))
        &&& (self.shutting_down && self.queue@.len() > 0 ==> stop_count(self.queue@) >= 1)
        &&& work_ids(self.queue@).to_multiset().add(inflight(self.workers@)).add(
            executed_all(self.workers@),
        ) == self.submitted@.to_multiset()
    }

    /// Create a pool of `size` workers, each waiting on an empty queue, with
    /// identifiers `0 .. size` in construction order.  A size of zero is a
    /// fatal precondition violation and is excluded outright.
    pub fn new(size: usize) -> (pool: ThreadPool)
        requires
            size >= 1,
        ensures
            pool.wf(),
            pool.size() == size,
            !pool.shutting_down,
            pool.queue@ == Seq::<Message>::empty(),
            pool.submitted@ == Seq::<u64>::empty(),
            pool.clock@ == 0,
            forall|w: int|
                0 <= w < size ==> (#[trigger] pool.workers@[w]).phase is Waiting
                    && pool.workers@[w].executed@.len() == 0,
    {
        let mut workers: Vec<Worker> = Vec::new();
        let mut id: usize = 0;
        while id < size
            invariant
                id <= size,
                workers@.len() == id,
                forall|w: int| 0 <= w < id ==> (#[trigger] workers@[w]).wf(),
                forall|w: int| 0 <= w < id ==> (#[trigger] workers@[w]).id == w,
                forall|w: int|
                    0 <= w < id ==> (#[trigger] workers@[w]).phase is Waiting
                        && workers@[w].executed@.len() == 0 && workers@[w].quiet_since(0),
                waiting_count(workers@) == id,
                executing_count(workers@) == 0,
                inflight(workers@) =~= Multiset::<u64>::empty(),
                executed_all(workers@) =~= Multiset::<u64>::empty(),
            decreases size - id,
        {
            let w = Worker::new(id);
            proof {
                lemma_workers_push(workers@, w);
                w.executed@.to_multiset_ensures();
            }
            workers.push(w);
            id = id + 1;
        }
        let pool = ThreadPool {
            workers,
            queue: Vec::new(),
            shutting_down: false,
            submitted: Ghost(Seq::empty()),
            clock: Ghost(0),
        };
        proof {
            assert(work_ids(pool.queue@) =~= Seq::<u64>::empty());
            Seq::<u64>::empty().to_multiset_ensures();
            vstd::multiset::lemma_multiset_empty_len(work_ids(pool.queue@).to_multiset());
            vstd::multiset::lemma_multiset_empty_len(pool.submitted@.to_multiset());
            assert(work_ids(pool.queue@).to_multiset().add(inflight(pool.workers@)).add(
                executed_all(pool.workers@),
            ) =~= pool.submitted@.to_multiset());
        }
        pool
    }

    /// Submit one job, identified by its token: the entry joins the back of
    /// the FIFO queue and the call returns at once, without waiting for any
    /// execution.  Submitting to a pool whose shutdown has begun is a caller
    /// lifecycle fault and is excluded outright.
    pub fn execute(&mut self, job: u64)
        requires
            old(self).wf(),
            !old(self).shutting_down,
        ensures
            final(self).wf(),
            !final(self).shutting_down,
            final(self).queue@ == old(self).queue@.push(Message::Work { job }),
            final(self).submitted@ == old(self).submitted@.push(job),
            final(self).workers@ == old(self).workers@,
            final(self).clock@ == old(self).clock@,
    {
        self.queue.push(Message::Work { job });
        self.submitted = Ghost(self.submitted@.push(job));
        proof {
            lemma_push_work(old(self).queue@, job);
            let wq = work_ids(old(self).queue@);
            assert(wq.push(job).to_multiset() =~= wq.to_multiset().insert(job));
            assert(work_ids(self.queue@).to_multiset().add(inflight(self.workers@)).add(
                executed_all(self.workers@),
            ) =~= self.submitted@.to_multiset());
        }
    }

    /// Begin shutdown: enqueue exactly one stop signal per worker — `size()`
    /// of them, no more, no fewer — behind whatever work is still pending.
    /// Shutdown begins at most once per pool: a second call is a lifecycle
    /// fault and is excluded outright.
    pub fn begin_shutdown(&mut self)
        requires
            old(self).wf(),
            !old(self).shutting_down,
        ensures
            final(self).wf(),
            final(self).shutting_down,
            final(self).queue@ == old(self).queue@ + stops(old(self).size()),
            final(self).workers@ == old(self).workers@,
            final(self).submitted@ == old(self).submitted@,
            final(self).clock@ == old(self).clock@,
    {
        self.shutting_down = true;
        let n = self.workers.len();
        let mut i: usize = 0;
        while i < n
            invariant
                i <= n,
                n == self.workers@.len(),
                self.workers@ == old(self).workers@,
                self.submitted@ == old(self).submitted@,
                self.clock@ == old(self).clock@,
                self.shutting_down,
                self.queue@ =~= old(self).queue@ + stops(i as nat),
                work_ids(self.queue@) == work_ids(old(self).queue@),
                stop_count(self.queue@) == i,
                works_then_stops(self.queue@),
            decreases n - i,
        {
            proof {
                lemma_push_stop(self.queue@);
            }
            self.queue.push(Message::Stop);
            i = i + 1;
            proof {
                assert(self.queue@ =~= old(self).queue@ + stops(i as nat));
            }
        }
        proof {
            assert(stop_count(old(self).queue@) == 0);
        }
    }

    /// Deliver the entry at the front of the queue to worker `w`, which must
    /// be waiting: which worker takes the next entry is the one choice the
    /// pool leaves open, so the caller makes it.  A work entry starts
    /// executing on `w` at the current tick; a stop entry terminates `w`.
    pub fn dispatch(&mut self, w: usize) -> (m: Message)
        requires
            old(self).wf(),
            old(self).queue@.len() > 0,
            w < old(self).workers@.len(),
            old(self).workers@[w as int].phase is Waiting,
        ensures
            final(self).wf(),
            m == old(self).queue@.first(),
            final(self).queue@ == old(self).queue@.drop_first(),
            final(self).workers@.len() == old(self).workers@.len(),
            final(self).shutting_down == old(self).shutting_down,
            final(self).submitted@ == old(self).submitted@,
            forall|k: int|
                0 <= k < old(self).workers@.len() && k != w ==> final(self).workers@[k]
                    == old(self).workers@[k],
            m matches Message::Work { job } ==> {
                &&& final(self).workers@[w as int].phase is Executing
                &&& final(self).workers@[w as int].current == Some(job)
                &&& final(self).workers@[w as int].started@ == old(self).clock@
                &&& final(self).workers@[w as int].executed@
                    == old(self).workers@[w as int].executed@
                &&& final(self).workers@[w as int].runs@ == old(self).workers@[w as int].runs@
                &&& final(self).clock@ == old(self).clock@ + 1
                &&& executing_count(final(self).workers@) == executing_count(old(self).workers@)
                    + 1
            },
            m is Stop ==> {
                &&& final(self).workers@[w as int].phase is Terminated
                &&& final(self).workers@[w as int].executed@
                    == old(self).workers@[w as int].executed@
                &&& final(self).workers@[w as int].runs@ == old(self).workers@[w as int].runs@
                &&& final(self).clock@ == old(self).clock@
                &&& executing_count(final(self).workers@) == executing_count(old(self).workers@)
            },
    {
        let m = self.queue.remove(0);
        proof {
            assert(self.queue@ =~= old(self).queue@.drop_first());
        }
        match m {
            Message::Work { job } => {
                let mut wk = self.workers.remove(w);
                wk.begin_job(job, Ghost(self.clock@));
                self.workers.insert(w, wk);
                self.clock = Ghost(self.clock@ + 1);
                proof {
                    let ws0 = old(self).workers@;
                    assert(self.workers@ =~= ws0.update(w as int, self.workers@[w as int]));
                    lemma_update_begin(ws0, w as int, self.workers@[w as int], job);
                    let oq = old(self).queue@;
                    assert(work_ids(oq) == seq![job] + work_ids(oq.drop_first()));
                    assert(work_ids(oq)[0] == job);
                    assert(work_ids(oq).remove(0) =~= work_ids(oq.drop_first()));
                    assert(work_ids(oq).to_multiset().count(job) > 0) by {
                        assert(work_ids(oq).contains(job));
                    }
                    assert(work_ids(self.queue@).to_multiset().add(inflight(self.workers@)).add(
                        executed_all(self.workers@),
                    ) =~= self.submitted@.to_multiset());
                }
                m
            },
            Message::Stop => {
                let mut wk = self.workers.remove(w);
                wk.stop();
                self.workers.insert(w, wk);
                proof {
                    let ws0 = old(self).workers@;
                    assert(self.workers@ =~= ws0.update(w as int, self.workers@[w as int]));
                    lemma_update_stop(ws0, w as int, self.workers@[w as int]);
                    let oq = old(self).queue@;
                    assert(stop_count(oq) == 1 + stop_count(oq.drop_first()));
                    assert(all_stops(oq.drop_first()));
                    lemma_all_stops_shape(oq.drop_first());
                    assert(old(self).shutting_down);
                    assert(work_ids(self.queue@).to_multiset().add(inflight(self.workers@)).add(
                        executed_all(self.workers@),
                    ) =~= self.submitted@.to_multiset());
                }
                m
            },
        }
    }

    /// Finish the job worker `w` is executing: the run ends at the current
    /// tick, the job's token joins the worker's record, and the worker goes
    /// back to waiting.  Returns the finished job's token.
    pub fn complete(&mut self, w: usize) -> (job: u64)
        requires
            old(self).wf(),
            w < old(self).workers@.len(),
            old(self).workers@[w as int].phase is Executing,
        ensures
            final(self).wf(),
            old(self).workers@[w as int].current == Some(job),
            final(self).queue@ == old(self).queue@,
            final(self).workers@.len() == old(self).workers@.len(),
            final(self).shutting_down == old(self).shutting_down,
            final(self).submitted@ == old(self).submitted@,
            forall|k: int|
                0 <= k < old(self).workers@.len() && k != w ==> final(self).workers@[k]
                    == old(self).workers@[k],
            final(self).workers@[w as int].phase is Waiting,
            final(self).workers@[w as int].executed@
                == old(self).workers@[w as int].executed@.push(job),
            final(self).workers@[w as int].runs@ == old(self).workers@[w as int].runs@.push(
                (old(self).workers@[w as int].started@, old(self).clock@),
            ),
            final(self).clock@ == old(self).clock@ + 1,
            executing_count(final(self).workers@) + 1 == executing_count(old(self).workers@),
    {
        let mut wk = self.workers.remove(w);
        let job = wk.finish_job(Ghost(self.clock@));
        self.workers.insert(w, wk);
        self.clock = Ghost(self.clock@ + 1);
        proof {
            let ws0 = old(self).workers@;
            assert(self.workers@ =~= ws0.update(w as int, self.workers@[w as int]));
            lemma_update_finish(ws0, w as int, self.workers@[w as int], job);
            assert(work_ids(self.queue@).to_multiset().add(inflight(self.workers@)).add(
                executed_all(self.workers@),
            ) =~= self.submitted@.to_multiset()) by {
                assert(inflight(ws0) =~= inflight(self.workers@).insert(job));
            }
        }
        job
    }

    /// Find some worker that is waiting, if any is.
    pub fn find_waiting(&self) -> (r: Option<usize>)
        ensures
            r matches Some(w) ==> w < self.workers@.len()
                && self.workers@[w as int].phase is Waiting,
            r is None ==> waiting_count(self.workers@) == 0,
    {
        let n = self.workers.len();
        let mut i: usize = 0;
        while i < n
            invariant
                i <= n,
                n == self.workers@.len(),
                forall|k: int| 0 <= k < i ==> !((#[trigger] self.workers@[k]).phase is Waiting),
            decreases n - i,
        {
            if matches!(self.workers[i].phase, Phase::Waiting) {
                return Some(i);
            }
            i = i + 1;
        }
        proof {
            lemma_no_waiting(self.workers@);
        }
        None
    }

    /// Find some worker that is executing a job, if any is.
    pub fn find_executing(&self) -> (r: Option<usize>)
        ensures
            r matches Some(w) ==> w < self.workers@.len()
                && self.workers@[w as int].phase is Executing,
            r is None ==> executing_count(self.workers@) == 0,
    {
        let n = self.workers.len();
        let mut i: usize = 0;
        while i < n
            invariant
                i <= n,
                n == self.workers@.len(),
                forall|k: int| 0 <= k < i ==> !((#[trigger] self.workers@[k]).phase is Executing),
            decreases n - i,
        {
            if matches!(self.workers[i].phase, Phase::Executing) {
                return Some(i);
            }
            i = i + 1;
        }
        proof {
            lemma_no_executing(self.workers@);
        }
        None
    }

    /// Drain the pool to the very end: deliver every remaining queue entry,
    /// each to some waiting worker, and finish every running job.  Once
    /// shutdown has begun this terminates with every worker terminated and
    /// every submitted job executed exactly once — none dropped, none
    /// duplicated.
    pub fn drain(&mut self)
        requires
            old(self).wf(),
            old(self).shutting_down,
        ensures
            final(self).wf(),
            final(self).shutting_down,
            final(self).queue@.len() == 0,
            final(self).submitted@ == old(self).submitted@,
            final(self).workers@.len() == old(self).workers@.len(),
            forall|k: int|
                0 <= k < final(self).workers@.len()
                    ==> (#[trigger] final(self).workers@[k]).phase is Terminated,
            executed_all(final(self).workers@) == old(self).submitted@.to_multiset(),
            executed_total(final(self).workers@) == old(self).submitted@.len(),
    {
        loop
            invariant
                self.wf(),
                self.shutting_down,
                self.submitted@ == old(self).submitted@,
                self.workers@.len() == old(self).workers@.len(),
            ensures
                self.queue@.len() == 0,
                executing_count(self.workers@) == 0,
            decreases 2 * self.queue@.len() + executing_count(self.workers@),
        {
            if self.queue.len() > 0 {
                match self.find_waiting() {
                    Some(w) => {
                        self.dispatch(w);
                    },
                    None => {
                        // nobody waits, yet a stop signal is still queued, so
                        // some worker is mid-job: finish it, and it will wait
                        let r = self.find_executing();
                        assert(r is Some) by {
                            assert(stop_count(self.queue@) >= 1);
                        }
                        let w = r.unwrap();
                        self.complete(w);
                    },
                }
            } else {
                match self.find_executing() {
                    Some(w) => {
                        self.complete(w);
                    },
                    None => {
                        break ;
                    },
                }
            }
        }
        proof {
            Self::lemma_shutdown_complete(*self);
            Self::lemma_all_jobs_run(*self);
        }
    }

    /// The whole destruction protocol, as it runs when the pool is torn down:
    /// enqueue one stop signal per worker, then drain to the very end, and
    /// return only when every worker has terminated.  Destruction happens at
    /// most once per pool: a second call is a lifecycle fault and is excluded
    /// outright.
    pub fn shutdown(&mut self)
        requires
            old(self).wf(),
            !old(self).shutting_down,
        ensures
            final(self).wf(),
            final(self).shutting_down,
            final(self).queue@.len() == 0,
            final(self).submitted@ == old(self).submitted@,
            final(self).workers@.len() == old(self).workers@.len(),
            forall|k: int|
                0 <= k < final(self).workers@.len()
                    ==> (#[trigger] final(self).workers@[k]).phase is Terminated,
            executed_all(final(self).workers@) == old(self).submitted@.to_multiset(),
            executed_total(final(self).workers@) == old(self).submitted@.len(),
    {
        self.begin_shutdown();
        self.drain();
    }

    /// Every submitted job runs exactly once: in a well-formed pool whose
    /// queue has fully drained and whose workers have all finished, the
    /// multiset of job tokens the workers have executed is exactly the
    /// multiset of job tokens ever submitted, and the total number of
    /// executions equals the number of submissions.
    pub proof fn lemma_all_jobs_run(pool: ThreadPool)
        requires
            pool.wf(),
            pool.queue@.len() == 0,
            executing_count(pool.workers@) == 0,
        ensures
            executed_all(pool.workers@) == pool.submitted@.to_multiset(),
            executed_total(pool.workers@) == pool.submitted@.len(),
    {
        assert(work_ids(pool.queue@) =~= Seq::<u64>::empty());
        Seq::<u64>::empty().to_multiset_ensures();
        vstd::multiset::lemma_multiset_empty_len(work_ids(pool.queue@).to_multiset());
        lemma_executing_zero(pool.workers@);
        assert(forall|k: int|
            0 <= k < pool.workers@.len() ==> (#[trigger] pool.workers@[k]).current is None);
        lemma_no_inflight(pool.workers@);
        assert(work_ids(pool.queue@).to_multiset().add(inflight(pool.workers@)).add(
            executed_all(pool.workers@),
        ) =~= executed_all(pool.workers@));
        lemma_executed_total_is_len(pool.workers@);
        pool.submitted@.to_multiset_ensures();
    }

    /// Shutdown leaves nobody behind: once shutdown has begun and both the
    /// queue and the running jobs have fully drained, every worker of the
    /// pool has consumed exactly one stop signal and terminated.
    pub proof fn lemma_shutdown_complete(pool: ThreadPool)
        requires
            pool.wf(),
            pool.shutting_down,
            pool.queue@.len() == 0,
            executing_count(pool.workers@) == 0,
        ensures
            forall|k: int|
                0 <= k < pool.workers@.len() ==> (#[trigger] pool.workers@[k]).phase is Terminated,
            forall|k: int|
                0 <= k < pool.workers@.len() ==> (#[trigger] pool.workers@[k]).stops_seen@ == 1,
    {
        assert(stop_count(pool.queue@) == 0);
        lemma_waiting_zero(pool.workers@);
        lemma_executing_zero(pool.workers@);
    }

    /// Jobs on one worker never overlap: within a well-formed pool, any two
    /// recorded runs of the same worker are separated in time — the earlier
    /// one ends no later than the later one starts, and each takes time.
    /// Runs on two different workers are free to overlap.
    pub proof fn lemma_sequential_execution(pool: ThreadPool, w: int, i: int, j: int)
        requires
            pool.wf(),
            0 <= w < pool.workers@.len(),
            0 <= i < j < pool.workers@[w].runs@.len(),
        ensures
            pool.workers@[w].runs@[i].0 < pool.workers@[w].runs@[i].1,
            pool.workers@[w].runs@[i].1 <= pool.workers@[w].runs@[j].0,
            pool.workers@[w].runs@[j].0 < pool.workers@[w].runs@[j].1,
    {
    }
}

} // verus!
