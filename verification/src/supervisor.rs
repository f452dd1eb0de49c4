//! The task supervisor's decision logic.
//!
//! One supervisor per resource group consumes install commands in order,
//! runs one job per instance, and answers each event with the actions its
//! surroundings must carry out, in order. A job races against its stop
//! request: whichever settles the race, the job is dropped (forceful
//! cancellation, no second cleanup phase) and only then is the stop confirm
//! sent, so whoever waits on the confirm knows the resource is free. Job
//! failures are logged and otherwise swallowed — no automatic retry.

use vstd::prelude::*;

verus! {

/// One event reaching the supervisor.
#[derive(Clone, Copy, Debug, PartialEq, Eq, Structural)]
pub enum Event {
    /// An install command arrived: start a job for this instance.
    Install { instance: u64 },
    /// The stop of this instance was requested.
    StopRequest { instance: u64 },
    /// This instance's job settled on its own, successfully or not.
    Settled { instance: u64, failed: bool },
}

/// One action the supervisor's surroundings must carry out.
#[derive(Clone, Copy, Debug, PartialEq, Eq, Structural)]
pub enum Action {
    /// Invoke the task factory and run the job of this instance.
    Start { instance: u64 },
    /// Drop this instance's running job: forceful cancellation.
    Cancel { instance: u64 },
    /// Send this instance's stop confirm: its job has fully stopped.
    Confirm { instance: u64 },
    /// Log that this instance's job failed; its slot is simply gone.
    LogFailure { instance: u64 },
}

/// The first position of an instance among the running jobs.
pub open spec fn find_id(jobs: Seq<u64>, x: u64) -> Option<int>
    decreases jobs.len(),
{
    if jobs.len() == 0 {
        None
    } else if jobs[0] == x {
        Some(0int)
    } else {
        match find_id(jobs.drop_first(), x) {
            None => None,
            Some(i) => Some(i + 1),
        }
    }
}

/// What [`find_id`] returns: the least matching position, if any.
pub proof fn lemma_find_id(jobs: Seq<u64>, x: u64)
    ensures
        match find_id(jobs, x) {
            None => forall|i: int| 0 <= i < jobs.len() ==> jobs[i] != x,
            Some(i) => 0 <= i < jobs.len() && jobs[i] == x && forall|j: int|
                0 <= j < i ==> jobs[j] != x,
        },
    decreases jobs.len(),
{
    if jobs.len() > 0 && jobs[0] != x {
        lemma_find_id(jobs.drop_first(), x);
        assert forall|i: int| 1 <= i < jobs.len() implies jobs.drop_first()[i - 1]
            == jobs[i] by {}
    }
}

/// The running jobs after removing the first occurrence of an instance, or
/// unchanged when it is not running.
pub open spec fn remove_first(jobs: Seq<u64>, x: u64) -> Seq<u64> {
    match find_id(jobs, x) {
        None => jobs,
        Some(i) => jobs.remove(i),
    }
}

/// The running jobs after one event: an install starts one more job, a stop
/// request or a settling removes the instance's job.
pub open spec fn step_jobs(jobs: Seq<u64>, e: Event) -> Seq<u64> {
    match e {
        Event::Install { instance } => jobs.push(instance),
        Event::StopRequest { instance } => remove_first(jobs, instance),
        Event::Settled { instance, failed: _ } => remove_first(jobs, instance),
    }
}

/// The actions one event demands, in order. A stop request for a running
/// job first drops it and only then confirms; a settled job is confirmed
/// (after logging a failure); events for unknown instances demand nothing —
/// their race was already settled.
pub open spec fn step_actions(jobs: Seq<u64>, e: Event) -> Seq<Action> {
    match e {
        Event::Install { instance } => seq![Action::Start { instance }],
        Event::StopRequest { instance } => if find_id(jobs, instance) is Some {
            seq![Action::Cancel { instance }, Action::Confirm { instance }]
        } else {
            Seq::empty()
        },
        Event::Settled { instance, failed } => if find_id(jobs, instance) is Some {
            if failed {
                seq![Action::LogFailure { instance }, Action::Confirm { instance }]
            } else {
                seq![Action::Confirm { instance }]
            }
        } else {
            Seq::empty()
        },
    }
}

/// One resource group's supervisor: the running jobs, in install order.
#[derive(Debug)]
pub struct Supervisor {
    pub jobs: Vec<u64>,
}

impl View for Supervisor {
    type V = Seq<u64>;

    open spec fn view(&self) -> Seq<u64> {
        self.jobs@
    }
}

impl Supervisor {
    /// A supervisor with nothing running yet.
    pub fn new() -> (s: Self)
        ensures
            s@ == Seq::<u64>::empty(),
    {
        Supervisor { jobs: Vec::new() }
    }

    /// How many jobs are running.
    pub fn running(&self) -> (n: usize)
        ensures
            n == self@.len(),
    {
        self.jobs.len()
    }

    /// Answers one event: updates the running jobs and returns the actions
    /// to carry out, in order.
    pub fn step(&mut self, event: Event) -> (actions: Vec<Action>)
        ensures
            final(self)@ == step_jobs(old(self)@, event),
            actions@ == step_actions(old(self)@, event),
    {
        let ghost jobs0 = self.jobs@;
        let mut actions: Vec<Action> = Vec::new();
        match event {
            Event::Install { instance } => {
                self.jobs.push(instance);
                actions.push(Action::Start { instance });
                proof {
                    assert(actions@ =~= step_actions(jobs0, event));
                }
            },
            Event::StopRequest { instance } => {
                match self.position(instance) {
                    Some(i) => {
                        proof {
                            lemma_find_id(jobs0, instance);
                        }
                        self.jobs.remove(i);
                        actions.push(Action::Cancel { instance });
                        actions.push(Action::Confirm { instance });
                        proof {
                            assert(actions@ =~= step_actions(jobs0, event));
                        }
                    },
                    None => {
                        proof {
                            assert(actions@ =~= step_actions(jobs0, event));
                        }
                    },
                }
            },
            Event::Settled { instance, failed } => {
                match self.position(instance) {
                    Some(i) => {
                        proof {
                            lemma_find_id(jobs0, instance);
                        }
                        self.jobs.remove(i);
                        if failed {
                            actions.push(Action::LogFailure { instance });
                        }
                        actions.push(Action::Confirm { instance });
                        proof {
                            assert(actions@ =~= step_actions(jobs0, event));
                        }
                    },
                    None => {
                        proof {
                            assert(actions@ =~= step_actions(jobs0, event));
                        }
                    },
                }
            },
        }
        actions
    }

    /// The position of an instance among the running jobs, if it runs.
    pub fn position(&self, instance: u64) -> (r: Option<usize>)
        ensures
            match r {
                None => find_id(self@, instance) is None,
                Some(i) => find_id(self@, instance) == Some(i as int),
            },
    {
        let mut i: usize = 0;
        while i < self.jobs.len()
            invariant
                i <= self.jobs.len(),
                forall|j: int| 0 <= j < i ==> self@[j] != instance,
            decreases self.jobs.len() - i,
        {
            if self.jobs[i] == instance {
                proof {
                    lemma_find_id(self@, instance);
                    match find_id(self@, instance) {
                        None => {
                            assert(self@[i as int] != instance);
                        },
                        Some(k) => {
                            if k < i as int {
                                assert(self@[k] != instance);
                            }
                            if k > i as int {
                                assert(self@[i as int] != instance);
                            }
                        },
                    }
                }
                return Some(i);
            }
            i += 1;
        }
        proof {
            lemma_find_id(self@, instance);
        }
        None
    }
}

/// The running jobs after a whole sequence of events.
pub open spec fn run_jobs(jobs: Seq<u64>, events: Seq<Event>) -> Seq<u64>
    decreases events.len(),
{
    if events.len() == 0 {
        jobs
    } else {
        run_jobs(step_jobs(jobs, events[0]), events.drop_first())
    }
}

/// Every action a whole sequence of events demands, in order.
pub open spec fn run_actions(jobs: Seq<u64>, events: Seq<Event>) -> Seq<Action>
    decreases events.len(),
{
    if events.len() == 0 {
        Seq::empty()
    } else {
        step_actions(jobs, events[0]) + run_actions(step_jobs(jobs, events[0]),
            events.drop_first())
    }
}

/// One stop request per given instance, in order.
pub open spec fn stop_all_events(ids: Seq<u64>) -> Seq<Event> {
    Seq::new(ids.len(), |i: int| Event::StopRequest { instance: ids[i] })
}

/// The teardown actions owed for the given instances: each one dropped,
/// then confirmed, in order.
pub open spec fn teardown_actions(ids: Seq<u64>) -> Seq<Action>
    decreases ids.len(),
{
    if ids.len() == 0 {
        Seq::empty()
    } else {
        seq![
            Action::Cancel { instance: ids[0] },
            Action::Confirm { instance: ids[0] },
        ] + teardown_actions(ids.drop_first())
    }
}

/// How many stop confirms a sequence of actions carries.
pub open spec fn confirm_count(actions: Seq<Action>) -> int
    decreases actions.len(),
{
    if actions.len() == 0 {
        0
    } else {
        (if actions[0] is Confirm {
            1int
        } else {
            0int
        }) + confirm_count(actions.drop_first())
    }
}

/// Tearing down a whole group leaks nothing: stop-requesting every running
/// instance of a supervisor, in order, empties it and yields exactly one
/// cancel followed by one confirm per instance — as many confirms as there
/// were running jobs.
pub proof fn lemma_stop_all(jobs: Seq<u64>)
    requires
        forall|i: int, j: int| 0 <= i < j < jobs.len() ==> jobs[i] != jobs[j],
    ensures
        run_jobs(jobs, stop_all_events(jobs)) == Seq::<u64>::empty(),
        run_actions(jobs, stop_all_events(jobs)) == teardown_actions(jobs),
        confirm_count(run_actions(jobs, stop_all_events(jobs))) == jobs.len(),
    decreases jobs.len(),
{
    let events = stop_all_events(jobs);
    if jobs.len() == 0 {
        assert(run_jobs(jobs, events) =~= Seq::<u64>::empty());
        assert(run_actions(jobs, events) =~= teardown_actions(jobs));
    } else {
        let x = jobs[0];
        assert(events[0] == Event::StopRequest { instance: x });
        assert(find_id(jobs, x) == Some(0int));
        assert(step_jobs(jobs, events[0]) =~= jobs.drop_first());
        assert(step_actions(jobs, events[0]) =~= seq![
            Action::Cancel { instance: x },
            Action::Confirm { instance: x },
        ]);
        assert(events.drop_first() =~= stop_all_events(jobs.drop_first()));
        lemma_stop_all(jobs.drop_first());
        assert(run_actions(jobs, events) == step_actions(jobs, events[0]) + run_actions(
            jobs.drop_first(),
            stop_all_events(jobs.drop_first()),
        ));
        assert(run_actions(jobs, events) =~= teardown_actions(jobs));
        lemma_confirm_count_concat(step_actions(jobs, events[0]), run_actions(
            jobs.drop_first(),
            stop_all_events(jobs.drop_first()),
        ));
        assert(confirm_count(step_actions(jobs, events[0])) == 1) by {
            let a = step_actions(jobs, events[0]);
            assert(a.len() == 2);
            assert(!(a[0] is Confirm));
            assert(a.drop_first()[0] == a[1]);
            assert(a[1] is Confirm);
            assert(a.drop_first().drop_first() =~= Seq::<Action>::empty());
            assert(confirm_count(a.drop_first().drop_first()) == 0);
            assert(confirm_count(a.drop_first()) == 1);
        }
    }
}

/// Confirm counts add up over concatenation.
pub proof fn lemma_confirm_count_concat(a: Seq<Action>, b: Seq<Action>)
    ensures
        confirm_count(a + b) == confirm_count(a) + confirm_count(b),
    decreases a.len(),
{
    if a.len() == 0 {
        assert(a + b =~= b);
    } else {
        assert((a + b).drop_first() =~= a.drop_first() + b);
        lemma_confirm_count_concat(a.drop_first(), b);
    }
}

} // verus!
