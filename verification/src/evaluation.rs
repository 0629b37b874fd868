//! Bookkeeping of a generation's evaluation: worker threads pick up one job
//! per genome and report `(index, fitness)` results in any order; the
//! results are placed back in genome order. Also the decisions of a worker's
//! loop, and the latest-frame cache of a worker that is drawn on screen.

use vstd::prelude::*;

verus! {

/// Fitnesses of a generation of `count` genomes after `results` arrived in
/// that order. Every slot starts at `default`; a result overwrites the slot
/// of its index, and a result whose index is outside the generation is
/// ignored.
pub open spec fn placed<T>(count: nat, default: T, results: Seq<(usize, T)>) -> Seq<T>
    decreases results.len(),
{
    if results.len() == 0 {
        Seq::new(count, |i: int| default)
    } else {
        let before = placed(count, default, results.drop_last());
        let r = results.last();
        if r.0 < count {
            before.update(r.0 as int, r.1)
        } else {
            before
        }
    }
}

/// The value of the last result for genome `i`, if any.
pub open spec fn last_result_for<T>(results: Seq<(usize, T)>, i: int) -> Option<T>
    decreases results.len(),
{
    if results.len() == 0 {
        None
    } else if results.last().0 == i {
        Some(results.last().1)
    } else {
        last_result_for(results.drop_last(), i)
    }
}

/// Places the results of a generation's evaluation in genome order: slot `i`
/// of the outcome is the fitness reported for genome `i`, or `default` when
/// none was reported.
pub fn collect_fitness<T: Copy>(count: usize, default: T, results: &Vec<(usize, T)>) -> (fitness:
    Vec<T>)
    ensures
        fitness@ == placed(count as nat, default, results@),
{
    let mut fitness: Vec<T> = Vec::with_capacity(count);
    let mut k: usize = 0;
    while k < count
        invariant
            k <= count,
            fitness@ =~= Seq::new(k as nat, |i: int| default),
        decreases count - k,
    {
        fitness.push(default);
        k = k + 1;
    }
    let mut r: usize = 0;
    while r < results.len()
        invariant
            r <= results@.len(),
            fitness@ == placed(count as nat, default, results@.take(r as int)),
            fitness@.len() == count,
        decreases results@.len() - r,
    {
        proof {
            assert(results@.take(r + 1).drop_last() =~= results@.take(r as int));
            lemma_placed_len(count as nat, default, results@.take(r as int));
        }
        let index: usize = results[r].0;
        if index < count {
            fitness.set(index, results[r].1);
        }
        r = r + 1;
    }
    proof {
        assert(results@.take(results@.len() as int) =~= results@);
    }
    fitness
}

proof fn lemma_placed_len<T>(count: nat, default: T, results: Seq<(usize, T)>)
    ensures
        placed(count, default, results).len() == count,
    decreases results.len(),
{
    if results.len() > 0 {
        lemma_placed_len(count, default, results.drop_last());
    }
}

/// Every genome of the generation gets the fitness of the last result
/// reported for it, and `default` when no result was reported for it;
/// results for indices outside the generation change nothing.
pub proof fn lemma_fitness_in_genome_order<T>(count: nat, default: T, results: Seq<(usize, T)>)
    ensures
        placed(count, default, results).len() == count,
        forall|i: int|
            0 <= i < count ==> #[trigger] placed(count, default, results)[i] == match last_result_for(
                results,
                i,
            ) {
                Some(v) => v,
                None => default,
            },
    decreases results.len(),
{
    lemma_placed_len(count, default, results);
    if results.len() > 0 {
        lemma_fitness_in_genome_order(count, default, results.drop_last());
    }
}

/// What a worker thread sees next while it waits for or finishes a job.
#[derive(Clone, Copy, PartialEq, Eq, Structural, Debug)]
pub enum WorkerEvent {
    /// A job arrived.
    JobReceived,
    /// No job arrived within the polling interval; `terminate_requested`
    /// tells whether the party asked its workers to stop.
    TimedOut { terminate_requested: bool },
    /// The job channel has no sender any more.
    Disconnected,
    /// The fitness of the last job was delivered.
    ResultSent,
    /// The fitness of the last job could not be delivered: nobody listens.
    ResultSendFailed,
}

/// What a worker thread does next.
#[derive(Clone, Copy, PartialEq, Eq, Structural, Debug)]
pub enum WorkerAction {
    /// Evaluate the job that arrived and report its fitness.
    Evaluate,
    /// Wait for the next job.
    KeepWaiting,
    /// Leave the worker loop.
    Stop,
}

/// The worker loop's decision for each event: evaluate a job that arrives,
/// keep polling on a timeout unless termination was requested, and stop
/// when either channel is disconnected.
pub fn worker_step(event: WorkerEvent) -> (action: WorkerAction)
    ensures
        action == match event {
            WorkerEvent::JobReceived => WorkerAction::Evaluate,
            WorkerEvent::TimedOut { terminate_requested } => if terminate_requested {
                WorkerAction::Stop
            } else {
                WorkerAction::KeepWaiting
            },
            WorkerEvent::Disconnected => WorkerAction::Stop,
            WorkerEvent::ResultSent => WorkerAction::KeepWaiting,
            WorkerEvent::ResultSendFailed => WorkerAction::Stop,
        },
{
    match event {
        WorkerEvent::JobReceived => WorkerAction::Evaluate,
        WorkerEvent::TimedOut { terminate_requested } => {
            if terminate_requested {
                WorkerAction::Stop
            } else {
                WorkerAction::KeepWaiting
            }
        },
        WorkerEvent::Disconnected => WorkerAction::Stop,
        WorkerEvent::ResultSent => WorkerAction::KeepWaiting,
        WorkerEvent::ResultSendFailed => WorkerAction::Stop,
    }
}

/// The most recent frame published by a worker that is drawn on screen.
/// The renderer polls the worker's queue once per frame; when nothing new
/// was published it keeps drawing the last frame it received.
pub struct LatestFrame<T> {
    last: Option<T>,
}

impl<T> View for LatestFrame<T> {
    type V = Option<T>;

    closed spec fn view(&self) -> Option<T> {
        self.last
    }
}

impl<T> LatestFrame<T> {
    /// No frame received yet.
    pub fn new() -> (cache: Self)
        ensures
            cache@ is None,
    {
        LatestFrame { last: None }
    }

    /// Takes the result of polling the queue: a new frame replaces the last
    /// one, nothing new keeps it.
    pub fn receive(&mut self, polled: Option<T>)
        ensures
            final(self)@ == match polled {
                Some(frame) => Some(frame),
                None => old(self)@,
            },
    {
        if let Some(frame) = polled {
            self.last = Some(frame);
        }
    }

    /// The frame to draw.
    pub fn latest(&self) -> (frame: Option<&T>)
        ensures
            frame == match self@ {
                Some(f) => Some(&f),
                None => None::<&T>,
            },
    {
        self.last.as_ref()
    }
}

} // verus!
