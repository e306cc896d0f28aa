//! The shared state of a thread pool: a FIFO queue of task arguments and a
//! shutdown flag, and the decisions that submitters and workers make on it.
//!
//! The locking, waiting, waking and joining are left to the caller, who holds
//! this state under a mutex.
use vstd::prelude::*;

verus! {

/// What a worker does next.
#[derive(Debug, PartialEq, Eq, Structural)]
pub enum WorkerStep {
    /// Run the task on this argument (after releasing the lock).
    Run(i64),
    /// Nothing to do yet: wait to be woken.
    Wait,
    /// The pool is shutting down and no work is left: stop.
    Exit,
}

/// One worker decision on a queue: the queue afterwards and the step taken.
/// Work left in the queue is always taken before the shutdown is obeyed.
pub open spec fn worker_outcome(queue: Seq<i64>, shutting_down: bool) -> (Seq<i64>, WorkerStep) {
    if queue.len() > 0 {
        (queue.drop_first(), WorkerStep::Run(queue[0]))
    } else if shutting_down {
        (queue, WorkerStep::Exit)
    } else {
        (queue, WorkerStep::Wait)
    }
}

/// The arguments of the tasks that workers run, one decision after another,
/// from a shut-down pool whose queue is `queue`, until one of them exits.
pub open spec fn run_until_exit(queue: Seq<i64>) -> Seq<i64>
    decreases queue.len(),
{
    let (rest, step) = worker_outcome(queue, true);
    match step {
        WorkerStep::Run(num) => seq![num] + run_until_exit(rest),
        _ => Seq::empty(),
    }
}

/// The queue of submitted task arguments and the shutdown flag.
pub struct PoolState {
    queue: std::collections::VecDeque<i64>,
    shutting_down: bool,
}

impl PoolState {
    /// The task arguments waiting to be run, oldest first.
    pub closed spec fn queued(&self) -> Seq<i64> {
        self.queue@
    }

    /// Whether shutdown has begun.
    pub closed spec fn shutdown_begun(&self) -> bool {
        self.shutting_down
    }

    /// A pool with no work that is not shutting down.
    pub fn new() -> (s: Self)
        ensures
            s.queued() == Seq::<i64>::empty(),
            !s.shutdown_begun(),
    {
        PoolState { queue: std::collections::VecDeque::new(), shutting_down: false }
    }

    /// Whether shutdown has begun (after which nothing may be submitted).
    pub fn is_shutting_down(&self) -> (b: bool)
        ensures
            b == self.shutdown_begun(),
    {
        self.shutting_down
    }

    /// Queues one task argument; only allowed before shutdown.
    pub fn submit(&mut self, num: i64)
        requires
            !old(self).shutdown_begun(),
        ensures
            final(self).queued() == old(self).queued().push(num),
            !final(self).shutdown_begun(),
    {
        self.queue.push_back(num);
    }

    /// Begins shutdown; queued work stays queued.
    pub fn begin_shutdown(&mut self)
        ensures
            final(self).queued() == old(self).queued(),
            final(self).shutdown_begun(),
    {
        self.shutting_down = true;
    }

    /// A worker's decision: take the oldest queued argument if there is one,
    /// otherwise stop if shutting down, otherwise wait.
    pub fn next_step(&mut self) -> (step: WorkerStep)
        ensures
            (final(self).queued(), step) == worker_outcome(old(self).queued(), old(self).shutdown_begun()),
            final(self).shutdown_begun() == old(self).shutdown_begun(),
    {
        match self.queue.pop_front() {
            Some(num) => WorkerStep::Run(num),
            None => if self.shutting_down {
                WorkerStep::Exit
            } else {
                WorkerStep::Wait
            },
        }
    }
}

/// After shutdown has begun, workers run every queued task exactly once, in the
/// order the tasks were submitted, and then stop; none of them waits.
pub proof fn lemma_shutdown_drains_queue(queue: Seq<i64>)
    ensures
        run_until_exit(queue) == queue,
        worker_outcome(queue, true).1 != WorkerStep::Wait,
    decreases queue.len(),
{
    if queue.len() > 0 {
        lemma_shutdown_drains_queue(queue.drop_first());
        assert(seq![queue[0]] + queue.drop_first() =~= queue);
    } else {
        assert(queue =~= Seq::<i64>::empty());
    }
}

/// A worker waits only when there is no work and no shutdown, and stops only
/// when there is no work and shutdown has begun; every other decision runs the
/// oldest task.
pub proof fn lemma_worker_waits_or_exits_only_when_idle(queue: Seq<i64>, shutting_down: bool)
    ensures
        worker_outcome(queue, shutting_down).1 == WorkerStep::Wait <==> (queue.len() == 0
            && !shutting_down),
        worker_outcome(queue, shutting_down).1 == WorkerStep::Exit <==> (queue.len() == 0
            && shutting_down),
        queue.len() > 0 ==> worker_outcome(queue, shutting_down).1 == WorkerStep::Run(queue[0]),
{
}

/// A task submitted behind others is run after all of them: submitting never
/// changes which task a worker takes next from a non-empty queue.
pub proof fn lemma_submit_keeps_order(queue: Seq<i64>, num: i64, shutting_down: bool)
    requires
        queue.len() > 0,
    ensures
        worker_outcome(queue.push(num), shutting_down).1 == worker_outcome(queue, shutting_down).1,
        worker_outcome(queue.push(num), shutting_down).0 == worker_outcome(queue, shutting_down).0.push(num),
{
    assert(queue.push(num).drop_first() =~= queue.drop_first().push(num));
}

/// What happens to a pool's state, one event at a time, over a whole run.
pub enum PoolEvent {
    /// [`PoolState::submit`] of this argument.
    Submit(i64),
    /// [`PoolState::begin_shutdown`].
    Shutdown,
    /// [`PoolState::next_step`] by some worker.
    Step,
}

/// Whether a run of `events` from a pool whose shutdown flag is
/// `shutting_down` submits nothing once shutdown has begun (submitting then is
/// refused).
pub open spec fn submits_allowed(shutting_down: bool, events: Seq<PoolEvent>) -> bool
    decreases events.len(),
{
    if events.len() == 0 {
        true
    } else {
        match events[0] {
            PoolEvent::Submit(_) => !shutting_down && submits_allowed(
                shutting_down,
                events.drop_first(),
            ),
            PoolEvent::Shutdown => submits_allowed(true, events.drop_first()),
            PoolEvent::Step => submits_allowed(shutting_down, events.drop_first()),
        }
    }
}

/// The arguments submitted in a run, in order.
pub open spec fn submitted(events: Seq<PoolEvent>) -> Seq<i64>
    decreases events.len(),
{
    if events.len() == 0 {
        Seq::empty()
    } else {
        let rest = submitted(events.drop_first());
        match events[0] {
            PoolEvent::Submit(num) => seq![num] + rest,
            _ => rest,
        }
    }
}

/// A run of `events` from a pool with queue `queue` and shutdown flag
/// `shutting_down`, each event doing what its function's contract says: the
/// final queue, the final flag, the arguments of the tasks run in order, and
/// whether some worker was told to exit.
pub open spec fn run_events(queue: Seq<i64>, shutting_down: bool, events: Seq<PoolEvent>) -> (
    Seq<i64>,
    bool,
    Seq<i64>,
    bool,
)
    decreases events.len(),
{
    if events.len() == 0 {
        (queue, shutting_down, Seq::empty(), false)
    } else {
        let rest = events.drop_first();
        match events[0] {
            PoolEvent::Submit(num) => run_events(queue.push(num), shutting_down, rest),
            PoolEvent::Shutdown => run_events(queue, true, rest),
            PoolEvent::Step => {
                let (next_queue, step) = worker_outcome(queue, shutting_down);
                let (q, flag, ran, exited) = run_events(next_queue, shutting_down, rest);
                match step {
                    WorkerStep::Run(num) => (q, flag, seq![num] + ran, exited),
                    WorkerStep::Exit => (q, flag, ran, true),
                    WorkerStep::Wait => (q, flag, ran, exited),
                }
            },
        }
    }
}

proof fn lemma_nothing_submitted_after_shutdown(events: Seq<PoolEvent>)
    requires
        submits_allowed(true, events),
    ensures
        submitted(events) == Seq::<i64>::empty(),
    decreases events.len(),
{
    if events.len() > 0 {
        lemma_nothing_submitted_after_shutdown(events.drop_first());
    }
}

/// Over any run in which nothing is submitted after shutdown, the tasks run
/// followed by those still queued are the tasks queued at the start followed by
/// those submitted, in order; and once some worker has been told to exit, no
/// task is left: every submitted task has run exactly once.
pub proof fn lemma_run_executes_each_submission_once(
    queue: Seq<i64>,
    shutting_down: bool,
    events: Seq<PoolEvent>,
)
    requires
        submits_allowed(shutting_down, events),
    ensures
        ({
            let (final_queue, _flag, ran, exited) = run_events(queue, shutting_down, events);
            &&& ran + final_queue == queue + submitted(events)
            &&& exited ==> final_queue.len() == 0 && ran == queue + submitted(events)
        }),
    decreases events.len(),
{
    if events.len() == 0 {
        assert(queue + submitted(events) =~= queue);
        assert(Seq::<i64>::empty() + queue =~= queue);
    } else {
        let rest = events.drop_first();
        match events[0] {
            PoolEvent::Submit(num) => {
                lemma_run_executes_each_submission_once(queue.push(num), shutting_down, rest);
                assert(queue.push(num) + submitted(rest) =~= queue + (seq![num] + submitted(rest)));
            },
            PoolEvent::Shutdown => {
                lemma_run_executes_each_submission_once(queue, true, rest);
            },
            PoolEvent::Step => {
                let (next_queue, step) = worker_outcome(queue, shutting_down);
                lemma_run_executes_each_submission_once(next_queue, shutting_down, rest);
                let (q, flag, ran, exited) = run_events(next_queue, shutting_down, rest);
                match step {
                    WorkerStep::Run(num) => {
                        assert(queue =~= seq![num] + next_queue);
                        assert(seq![num] + ran + q =~= seq![num] + (ran + q));
                        assert(queue + submitted(rest) =~= seq![num] + (next_queue + submitted(
                            rest,
                        )));
                        if exited {
                            assert(seq![num] + ran =~= seq![num] + (next_queue + submitted(rest)));
                        }
                    },
                    WorkerStep::Exit => {
                        lemma_nothing_submitted_after_shutdown(rest);
                        assert(next_queue.len() == 0);
                        assert(next_queue + submitted(rest) =~= Seq::<i64>::empty());
                        assert(ran + q =~= Seq::<i64>::empty());
                        assert(q =~= Seq::<i64>::empty());
                        assert(ran + q =~= ran);
                    },
                    WorkerStep::Wait => {},
                }
            },
        }
    }
}

/// A whole run of a new pool: when every task is submitted before shutdown
/// and some worker has been told to exit, the tasks run are exactly the tasks
/// submitted, each once, in the order of submission.
pub proof fn lemma_pool_runs_what_was_submitted(events: Seq<PoolEvent>)
    requires
        submits_allowed(false, events),
        run_events(Seq::empty(), false, events).3,
    ensures
        run_events(Seq::empty(), false, events).2 == submitted(events),
{
    lemma_run_executes_each_submission_once(Seq::empty(), false, events);
    assert(Seq::<i64>::empty() + submitted(events) =~= submitted(events));
}

} // verus!
