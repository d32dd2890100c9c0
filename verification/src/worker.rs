//! Workers: what they return, how it is settled, and what the worker loops do
//! next.

use crate::error::Error;
use crate::job::JobRecord;
use crate::lease_registry::{LeaseRegistry, LeaseState, Renewal};
use crate::options::SettlementEffects;
use crate::time::{millis_of, Duration};
use vstd::prelude::*;

verus! {

/// A failure that is not to be retried.
#[derive(Debug)]
pub struct PermanentFailure {
    /// The reason, recorded as the job's last error.
    pub reason: String,
}

impl PermanentFailure {
    /// A failure with a reason.
    pub fn new(reason: String) -> (r: PermanentFailure)
        ensures
            r.reason == reason,
    {
        PermanentFailure { reason }
    }
}

/// What a worker fails with.
#[derive(Debug)]
pub enum WorkerError {
    /// A failure that is not to be retried.
    Permanent(PermanentFailure),
    /// A failure with effects attached.
    With(Box<FailWith>),
    /// Any other failure, in words.
    Other(String),
}

/// A failure with effects that are applied when it dead-letters the job.
///
/// The failure is settled as it would be without them. Effects on a retried
/// failure are discarded.
#[derive(Debug)]
pub struct FailWith {
    /// The failure itself.
    pub error: WorkerError,
    /// The effects.
    pub effects: SettlementEffects,
}

impl FailWith {
    /// Attaches effects to a failure.
    pub fn new(error: WorkerError, effects: SettlementEffects) -> (r: FailWith)
        ensures
            r.error == error,
            r.effects == effects,
    {
        FailWith { error, effects }
    }
}

/// A failure in words.
pub open spec fn error_text(error: WorkerError) -> Seq<char>
    decreases error,
{
    match error {
        WorkerError::Permanent(failure) => failure.reason@,
        WorkerError::With(wrapped) => error_text(wrapped.error),
        WorkerError::Other(text) => text@,
    }
}

impl WorkerError {
    /// The failure in words.
    pub fn text(&self) -> (r: String)
        ensures
            r@ == error_text(*self),
        decreases self,
    {
        match self {
            WorkerError::Permanent(failure) => failure.reason.clone(),
            WorkerError::With(wrapped) => wrapped.error.text(),
            WorkerError::Other(text) => text.clone(),
        }
    }
}

/// How the outcome of a worker is settled.
#[derive(Debug)]
pub enum Settlement {
    /// The job is acknowledged with the effects.
    Ack(SettlementEffects),
    /// The job is dead-lettered with the effects.
    DeadLetter { reason: String, effects: SettlementEffects },
    /// The attempt failed; the effects are applied once attempts are
    /// exhausted.
    Nack { reason: String, effects: SettlementEffects },
}

/// Whether effects do nothing.
pub open spec fn no_effects(effects: SettlementEffects) -> bool {
    effects.enqueues@.len() == 0 && effects.kv_writes@.len() == 0 && effects.kv_deletes@.len() == 0
}

/// Whether `settlement` is what a failure with the given effects is settled
/// by: a permanent one dead-letters the job, any other counts as a failed
/// attempt.
pub open spec fn failure_settled(error: WorkerError, settlement: Settlement) -> bool {
    match settlement {
        Settlement::Ack(_) => false,
        Settlement::DeadLetter { reason, .. } => error is Permanent && reason@ == error_text(error),
        Settlement::Nack { reason, .. } => !(error is Permanent) && reason@ == error_text(error),
    }
}

impl Settlement {
    /// The effects of a settlement.
    pub open spec fn effects(self) -> SettlementEffects {
        match self {
            Settlement::Ack(effects) => effects,
            Settlement::DeadLetter { effects, .. } => effects,
            Settlement::Nack { effects, .. } => effects,
        }
    }
}

/// How the outcome of a worker is settled. A failure with effects is settled
/// as the failure it wraps.
pub fn route(outcome: Result<SettlementEffects, WorkerError>) -> (r: Settlement)
    ensures
        match outcome {
            Ok(effects) => r == Settlement::Ack(effects),
            Err(WorkerError::With(wrapped)) => failure_settled(wrapped.error, r) && r.effects()
                == wrapped.effects,
            Err(error) => failure_settled(error, r) && no_effects(r.effects()),
        },
{
    match outcome {
        Ok(effects) => Settlement::Ack(effects),
        Err(error) => {
            let (error, effects) = match error {
                WorkerError::With(wrapped) => {
                    let FailWith { error, effects } = *wrapped;
                    (error, effects)
                },
                other => (other, SettlementEffects::default()),
            };
            let reason = error.text();
            match error {
                WorkerError::Permanent(_) => Settlement::DeadLetter { reason, effects },
                _ => Settlement::Nack { reason, effects },
            }
        },
    }
}

/// A failure is settled the same with and without effects attached.
pub proof fn wrapping_leaves_the_settlement(error: WorkerError, a: Settlement, b: Settlement)
    requires
        !(error is With),
        failure_settled(error, a),
        failure_settled(error, b),
    ensures
        a is DeadLetter <==> b is DeadLetter,
        a matches Settlement::DeadLetter { reason, .. } ==> (b matches Settlement::DeadLetter {
            reason: other,
            ..
        } && reason@ == other@),
        a matches Settlement::Nack { reason, .. } ==> (b matches Settlement::Nack {
            reason: other,
            ..
        } && reason@ == other@),
{
}

/// The capability to extend the lease of a claim, handed to the worker. It
/// cannot settle the job.
#[derive(Debug)]
pub struct LeaseHandle {
    /// Queue of the job.
    pub queue: String,
    /// Id of the job.
    pub id: String,
    /// Token of the claim.
    pub token: u64,
}

impl LeaseHandle {
    /// Extends the lease to last at least `span` from `now` and never
    /// shortens it. A claim whose cancellation was requested, or that no
    /// longer holds a lease, is refused. Reports whether the lease changed.
    pub fn ensure_at_least(
        &self,
        registry: &mut LeaseRegistry,
        cancelled: bool,
        now: u64,
        span: Duration,
    ) -> (r: Result<bool, Error>)
        requires
            now + millis_of(span@) <= u64::MAX,
        ensures
            cancelled ==> r == Err::<bool, Error>(Error::CancelRequested) && final(registry)@
                == old(registry)@,
            !cancelled ==> match LeaseRegistry::renewed(
                old(registry)@,
                (self.queue@, self.id@),
                self.token,
                (now + millis_of(span@)) as u64,
                Renewal::AtLeast,
            ) {
                Some((after, changed)) => r == Ok::<bool, Error>(changed) && final(registry)@
                    == after,
                None => r == Err::<bool, Error>(Error::ClaimLost) && final(registry)@ == old(
                    registry,
                )@,
            },
    {
        if cancelled {
            return Err(Error::CancelRequested);
        }
        registry.renew(
            self.queue.as_str(),
            self.id.as_str(),
            self.token,
            now + span.as_millis(),
            Renewal::AtLeast,
        )
    }
}

/// A lease that a worker made sure of lasts at least as long as it asked for,
/// and at least as long as before.
pub proof fn ensured_lease_is_not_shortened(
    leases: Map<(Seq<char>, Seq<char>), LeaseState>,
    key: (Seq<char>, Seq<char>),
    token: u64,
    expires_at: u64,
)
    requires
        LeaseRegistry::renewed(leases, key, token, expires_at, Renewal::AtLeast) is Some,
    ensures
        ({
            let after = LeaseRegistry::renewed(
                leases,
                key,
                token,
                expires_at,
                Renewal::AtLeast,
            ).unwrap().0;
            &&& after.contains_key(key)
            &&& after[key].expires_at >= expires_at
            &&& after[key].expires_at >= leases[key].expires_at
            &&& after[key].token == token
        }),
{
}

/// Processes jobs. What a worker returns decides how the job is settled.
pub trait Worker {
    /// Processes one claimed job and returns the effects to commit with its
    /// acknowledgement.
    fn process_with_effects(&self, job: &JobRecord, lease: &LeaseHandle) -> (r: Result<
        SettlementEffects,
        WorkerError,
    >);
}

/// Has a worker process a claimed job and says how the outcome is settled.
pub fn process<W: Worker>(worker: &W, job: &JobRecord, lease: &LeaseHandle) -> (r: Settlement)
    ensures
        exists|outcome: Result<SettlementEffects, WorkerError>|
            #![trigger call_ensures(W::process_with_effects, (worker, job, lease), outcome)]
            call_ensures(W::process_with_effects, (worker, job, lease), outcome)
                && match outcome {
                Ok(effects) => r == Settlement::Ack(effects),
                Err(WorkerError::With(wrapped)) => failure_settled(wrapped.error, r) && r.effects()
                    == wrapped.effects,
                Err(error) => failure_settled(error, r) && no_effects(r.effects()),
            },
{
    route(worker.process_with_effects(job, lease))
}

/// What happened last in a worker loop.
#[derive(Clone, Copy, Debug, PartialEq, Eq, Structural)]
pub enum WorkerEvent {
    /// The loop starts.
    Started,
    /// A claim returned a job.
    Claimed,
    /// A claim returned nothing.
    Empty,
    /// A job was processed and settled, or its settlement failed.
    Settled { shutdown: bool },
    /// The wait for jobs ended.
    Waited { shutdown: bool },
}

/// What a worker loop does next.
#[derive(Clone, Copy, Debug, PartialEq, Eq, Structural)]
pub enum WorkerAction {
    /// Claim a job.
    Claim,
    /// Process and settle the claimed job, not to be interrupted.
    Process,
    /// Wait for new work, a timeout or the shutdown signal.
    Wait,
    /// End the loop.
    Stop,
}

/// What a worker loop does after an event. A claimed job is processed even
/// where shutdown was signalled meanwhile; the loop ends only between jobs.
pub open spec fn worker_action(event: WorkerEvent) -> WorkerAction {
    match event {
        WorkerEvent::Started => WorkerAction::Claim,
        WorkerEvent::Claimed => WorkerAction::Process,
        WorkerEvent::Empty => WorkerAction::Wait,
        WorkerEvent::Settled { shutdown } => if shutdown {
            WorkerAction::Stop
        } else {
            WorkerAction::Claim
        },
        WorkerEvent::Waited { shutdown } => if shutdown {
            WorkerAction::Stop
        } else {
            WorkerAction::Claim
        },
    }
}

/// What a worker loop does after an event.
pub fn worker_step(event: WorkerEvent) -> (r: WorkerAction)
    ensures
        r == worker_action(event),
{
    match event {
        WorkerEvent::Started => WorkerAction::Claim,
        WorkerEvent::Claimed => WorkerAction::Process,
        WorkerEvent::Empty => WorkerAction::Wait,
        WorkerEvent::Settled { shutdown } | WorkerEvent::Waited { shutdown } => if shutdown {
            WorkerAction::Stop
        } else {
            WorkerAction::Claim
        },
    }
}

/// What a loop that runs several jobs at once does next.
#[derive(Clone, Copy, Debug, PartialEq, Eq, Structural)]
pub enum PoolAction {
    /// Wait for a running job to end, or for the shutdown signal.
    AwaitSlot,
    /// Claim at most this many jobs.
    Claim(usize),
    /// Wait for new work, a timeout or the shutdown signal.
    Wait,
    /// Wait for the jobs that are still running.
    Drain,
    /// All jobs have ended.
    Finished,
}

/// A loop that runs several jobs at once, never more than its limit.
#[derive(Debug)]
pub struct WorkerPool {
    concurrency: usize,
    running: usize,
    idle: bool,
    draining: bool,
}

impl WorkerPool {
    #[verifier::type_invariant]
    spec fn inv(self) -> bool {
        self.running <= self.concurrency && self.concurrency > 0
    }

    /// The most jobs to run at once.
    pub closed spec fn concurrency(self) -> nat {
        self.concurrency as nat
    }

    /// The jobs that are running.
    pub closed spec fn running(self) -> nat {
        self.running as nat
    }

    /// Whether the last claim returned nothing.
    pub closed spec fn idle(self) -> bool {
        self.idle
    }

    /// Whether no further job is claimed.
    pub closed spec fn draining(self) -> bool {
        self.draining
    }

    /// A loop that runs no job yet.
    pub fn new(concurrency: usize) -> (r: WorkerPool)
        requires
            concurrency > 0,
        ensures
            r.concurrency() == concurrency,
            r.running() == 0,
            !r.idle(),
            !r.draining(),
    {
        WorkerPool { concurrency, running: 0, idle: false, draining: false }
    }

    /// What the loop does next: it claims up to its free capacity, waits for
    /// work or for a slot, and after the shutdown signal waits for what is
    /// running.
    pub open spec fn action(self) -> PoolAction {
        if self.draining() {
            if self.running() == 0 {
                PoolAction::Finished
            } else {
                PoolAction::Drain
            }
        } else if self.idle() {
            PoolAction::Wait
        } else if self.running() >= self.concurrency() {
            PoolAction::AwaitSlot
        } else {
            PoolAction::Claim((self.concurrency() - self.running()) as usize)
        }
    }

    /// What the loop does next.
    pub fn next(&self) -> (r: PoolAction)
        ensures
            r == self.action(),
            r matches PoolAction::Claim(max) ==> 0 < max && self.running() + max
                <= self.concurrency(),
    {
        proof {
            use_type_invariant(self);
        }
        if self.draining {
            if self.running == 0 {
                PoolAction::Finished
            } else {
                PoolAction::Drain
            }
        } else if self.idle {
            PoolAction::Wait
        } else if self.running >= self.concurrency {
            PoolAction::AwaitSlot
        } else {
            PoolAction::Claim(self.concurrency - self.running)
        }
    }

    /// A claim returned `jobs` jobs, which are started now. The shutdown
    /// signal is looked at where there were any.
    pub fn claimed(&mut self, jobs: usize, shutdown: bool)
        requires
            old(self).running() + jobs <= old(self).concurrency(),
        ensures
            final(self).concurrency() == old(self).concurrency(),
            final(self).running() == old(self).running() + jobs,
            final(self).idle() == (jobs == 0),
            final(self).draining() == (old(self).draining() || (jobs > 0 && shutdown)),
    {
        proof {
            use_type_invariant(&*self);
        }
        self.running = self.running + jobs;
        self.idle = jobs == 0;
        if jobs > 0 && shutdown {
            self.draining = true;
        }
    }

    /// A running job ended.
    pub fn ended(&mut self)
        requires
            old(self).running() > 0,
        ensures
            final(self).concurrency() == old(self).concurrency(),
            final(self).running() == old(self).running() - 1,
            final(self).idle() == old(self).idle(),
            final(self).draining() == old(self).draining(),
    {
        proof {
            use_type_invariant(&*self);
        }
        self.running = self.running - 1;
    }

    /// The wait for jobs or for a slot ended, by the shutdown signal or not.
    pub fn waited(&mut self, shutdown: bool)
        ensures
            final(self).concurrency() == old(self).concurrency(),
            final(self).running() == old(self).running(),
            !final(self).idle(),
            final(self).draining() == (old(self).draining() || shutdown),
    {
        proof {
            use_type_invariant(&*self);
        }
        self.idle = false;
        if shutdown {
            self.draining = true;
        }
    }
}

} // verus!
