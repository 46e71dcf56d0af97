use vstd::prelude::*;

verus! {

/// The states of a worker's loop: blocked waiting for the next queue entry,
/// running one dequeued job, or terminated after its one stop signal.
/// Termination is the sole terminal state, and it is reached only from
/// waiting: a running worker finishes its job before it can take anything
/// else from the queue.
#[derive(Clone, Copy, PartialEq, Eq, Structural, Debug)]
pub enum Phase {
    Waiting,
    Executing,
    Terminated,
}

/// One worker of the pool: its identifier, its lifecycle phase, the job it is
/// running right now if any, and the jobs it has finished, in order.  On the
/// pool's logical clock, `started` is the tick at which the current job
/// began, and `runs` records the start and end tick of each finished run,
/// matching `executed` index for index; `stops_seen` counts the stop signals
/// the worker has consumed.
pub struct Worker {
    pub id: usize,
    pub phase: Phase,
    pub current: Option<u64>,
    pub started: Ghost<int>,
    pub executed: Vec<u64>,
    pub runs: Ghost<Seq<(int, int)>>,
    pub stops_seen: Ghost<nat>,
}

impl Worker {
    /// Well-formedness: one recorded run per finished job; every run takes
    /// time; runs of one worker never overlap; a job is held exactly while
    /// the worker is executing, and began only after every earlier run ended;
    /// and the worker is terminated exactly when it has consumed exactly one
    /// stop signal.
    pub open spec fn wf(self) -> bool {
        &&& self.runs@.len() == self.executed@.len()
        &&& forall|i: int|
            0 <= i < self.runs@.len() ==> (#[trigger] self.runs@[i]).0 < self.runs@[i].1
        &&& forall|i: int, j: int|
            0 <= i < j < self.runs@.len() ==> (#[trigger] self.runs@[i]).1 <= (
            #[trigger] self.runs@[j]).0
        &&& (self.phase is Executing <==> self.current is Some)
        &&& (self.phase is Executing ==> self.quiet_since(self.started@))
        &&& self.stops_seen@ == (if self.phase is Terminated {
            1nat
        } else {
            0nat
        })
    }

    /// Every finished run of this worker ended no later than tick `t`.
    pub open spec fn quiet_since(self, t: int) -> bool {
        forall|i: int| 0 <= i < self.runs@.len() ==> (#[trigger] self.runs@[i]).1 <= t
    }

    /// A fresh worker: waiting, nothing running, nothing executed, no stop
    /// signal seen.
    pub fn new(id: usize) -> (w: Worker)
        ensures
            w.wf(),
            w.id == id,
            w.phase is Waiting,
            w.current is None,
            w.executed@ == Seq::<u64>::empty(),
            w.runs@ == Seq::<(int, int)>::empty(),
            w.quiet_since(0),
    {
        Worker {
            id,
            phase: Phase::Waiting,
            current: None,
            started: Ghost(0),
            executed: Vec::new(),
            runs: Ghost(Seq::empty()),
            stops_seen: Ghost(0),
        }
    }

    /// Take one dequeued unit of work: the worker starts running it at tick
    /// `now` and holds it until `finish_job`.
    pub fn begin_job(&mut self, job: u64, now: Ghost<int>)
        requires
            old(self).wf(),
            old(self).phase is Waiting,
            old(self).quiet_since(now@),
        ensures
            final(self).wf(),
            final(self).id == old(self).id,
            final(self).phase is Executing,
            final(self).current == Some(job),
            final(self).started == now,
            final(self).executed@ == old(self).executed@,
            final(self).runs@ == old(self).runs@,
            final(self).quiet_since(now@),
    {
        self.phase = Phase::Executing;
        self.current = Some(job);
        self.started = now;
    }

    /// Finish the job the worker is running: at tick `now` the run is over,
    /// the job joins the record of executions, and the worker goes back to
    /// waiting for the next queue entry.
    pub fn finish_job(&mut self, now: Ghost<int>) -> (job: u64)
        requires
            old(self).wf(),
            old(self).phase is Executing,
            old(self).started@ < now@,
        ensures
            final(self).wf(),
            final(self).id == old(self).id,
            final(self).phase is Waiting,
            final(self).current is None,
            old(self).current == Some(job),
            final(self).executed@ == old(self).executed@.push(job),
            final(self).runs@ == old(self).runs@.push((old(self).started@, now@)),
            final(self).quiet_since(now@),
    {
        let job = self.current.unwrap();
        self.current = None;
        self.phase = Phase::Waiting;
        self.executed.push(job);
        self.runs = Ghost(self.runs@.push((self.started@, now@)));
        job
    }

    /// Consume the stop signal: the worker leaves its loop for good.  Only a
    /// waiting worker can take a queue entry, so a running job is always
    /// finished first.
    pub fn stop(&mut self)
        requires
            old(self).wf(),
            old(self).phase is Waiting,
        ensures
            final(self).wf(),
            final(self).id == old(self).id,
            final(self).phase is Terminated,
            final(self).current is None,
            final(self).executed@ == old(self).executed@,
            final(self).runs@ == old(self).runs@,
            final(self).stops_seen@ == 1,
    {
        self.phase = Phase::Terminated;
        self.stops_seen = Ghost(1);
    }
}

} // verus!
