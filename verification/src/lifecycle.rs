//! The per-account lifecycle owner: starts queue behind each other in a
//! bounded lane, stops jump ahead in their own lane, and a stop supersedes
//! every start still waiting.
use vstd::prelude::*;
use crate::text::push_str;

verus! {

pub const ACCOUNT_NORMAL_QUEUE: usize = 8;

pub const ACCOUNT_PRIORITY_QUEUE: usize = 8;

/// How long an interrupted start may take to wind down, in milliseconds.
pub const PRIORITY_INTERRUPT_BUDGET_MS: u64 = 750;

/// A start of account work.
#[derive(PartialEq, Eq, Structural, Clone, Copy, Debug)]
pub enum NormalOperation {
    StartBot,
    StartCampaign,
}

/// A stop of account work.
#[derive(PartialEq, Eq, Structural, Clone, Copy, Debug)]
pub enum PriorityOperation {
    StopBot,
    StopCampaign,
}

/// The waiting requests of one account, each under the id its reply is
/// sent to.
pub struct LifecycleQueue {
    pub normal: Vec<(u64, NormalOperation)>,
    pub priority: Vec<(u64, PriorityOperation)>,
}

/// What the account's owner does next.
pub enum ActorStep {
    Idle,
    /// Run a stop, after refusing the starts it superseded.
    RunPriority { id: u64, operation: PriorityOperation, superseded: Vec<u64> },
    RunNormal { id: u64, operation: NormalOperation },
}

pub open spec fn request_ids<T>(q: Seq<(u64, T)>) -> Seq<u64> {
    q.map_values(|r: (u64, T)| r.0)
}

impl LifecycleQueue {
    pub open spec fn wf(self) -> bool {
        self.normal@.len() <= ACCOUNT_NORMAL_QUEUE && self.priority@.len() <= ACCOUNT_PRIORITY_QUEUE
    }

    pub fn new() -> (q: Self)
        ensures
            q.wf(),
            q.normal@.len() == 0,
            q.priority@.len() == 0,
    {
        LifecycleQueue { normal: Vec::new(), priority: Vec::new() }
    }

    /// Queues a start; a full lane refuses it.
    pub fn send_normal(&mut self, id: u64, operation: NormalOperation) -> (result: Result<(), String>)
        requires
            old(self).wf(),
        ensures
            final(self).wf(),
            final(self).priority@ == old(self).priority@,
            old(self).normal@.len() < ACCOUNT_NORMAL_QUEUE ==> result is Ok && final(self).normal@ == old(
                self,
            ).normal@.push((id, operation)),
            old(self).normal@.len() >= ACCOUNT_NORMAL_QUEUE ==> (result matches Err(e) && e@
                == "The account lifecycle queue is full"@ && final(self).normal@ == old(self).normal@),
    {
        if self.normal.len() >= ACCOUNT_NORMAL_QUEUE {
            return Err(String::from_str("The account lifecycle queue is full"));
        }
        self.normal.push((id, operation));
        Ok(())
    }

    /// Queues a stop; a full lane refuses it.
    pub fn send_priority(&mut self, id: u64, operation: PriorityOperation) -> (result: Result<(), String>)
        requires
            old(self).wf(),
        ensures
            final(self).wf(),
            final(self).normal@ == old(self).normal@,
            old(self).priority@.len() < ACCOUNT_PRIORITY_QUEUE ==> result is Ok && final(self).priority@
                == old(self).priority@.push((id, operation)),
            old(self).priority@.len() >= ACCOUNT_PRIORITY_QUEUE ==> (result matches Err(e) && e@
                == "The account lifecycle owner stopped unexpectedly"@ && final(self).priority@ == old(
                self,
            ).priority@),
    {
        if self.priority.len() >= ACCOUNT_PRIORITY_QUEUE {
            return Err(String::from_str("The account lifecycle owner stopped unexpectedly"));
        }
        self.priority.push((id, operation));
        Ok(())
    }

    /// Takes every waiting start, in order, so each can be refused.
    pub fn reject_queued_normal(&mut self) -> (rejected: Vec<u64>)
        requires
            old(self).wf(),
        ensures
            final(self).wf(),
            final(self).normal@.len() == 0,
            final(self).priority@ == old(self).priority@,
            rejected@ == request_ids(old(self).normal@),
    {
        let mut rejected: Vec<u64> = Vec::new();
        let mut i: usize = 0;
        while i < self.normal.len()
            invariant
                i <= self.normal@.len(),
                rejected@ == request_ids(self.normal@).subrange(0, i as int),
            decreases self.normal.len() - i,
        {
            rejected.push(self.normal[i].0);
            proof {
                assert(request_ids(self.normal@).subrange(0, i + 1) =~= request_ids(self.normal@).subrange(
                    0,
                    i as int,
                ).push(self.normal@[i as int].0));
            }
            i = i + 1;
        }
        proof {
            assert(request_ids(self.normal@).subrange(0, self.normal@.len() as int) =~= request_ids(
                self.normal@,
            ));
        }
        self.normal = Vec::new();
        rejected
    }

    /// The owner's next step: a waiting stop always goes first and refuses
    /// every waiting start; otherwise the oldest start runs.
    pub fn next_step(&mut self) -> (step: ActorStep)
        requires
            old(self).wf(),
        ensures
            final(self).wf(),
            old(self).priority@.len() > 0 ==> (step matches ActorStep::RunPriority {
                id,
                operation,
                superseded,
            } && (id, operation) == old(self).priority@[0] && superseded@ == request_ids(
                old(self).normal@,
            ) && final(self).normal@.len() == 0 && final(self).priority@ == old(
                self,
            ).priority@.drop_first()),
            old(self).priority@.len() == 0 && old(self).normal@.len() > 0 ==> (step matches ActorStep::RunNormal {
                id,
                operation,
            } && (id, operation) == old(self).normal@[0] && final(self).normal@ == old(
                self,
            ).normal@.drop_first() && final(self).priority@.len() == 0),
            old(self).priority@.len() == 0 && old(self).normal@.len() == 0 ==> step is Idle
                && final(self).normal@.len() == 0 && final(self).priority@.len() == 0,
    {
        if self.priority.len() > 0 {
            let ghost before = self.priority@;
            let (id, operation) = self.priority.remove(0);
            proof {
                assert(self.priority@ =~= before.drop_first());
            }
            let superseded = self.reject_queued_normal();
            return ActorStep::RunPriority { id, operation, superseded };
        }
        if self.normal.len() > 0 {
            let ghost before = self.normal@;
            let (id, operation) = self.normal.remove(0);
            proof {
                assert(self.normal@ =~= before.drop_first());
            }
            return ActorStep::RunNormal { id, operation };
        }
        ActorStep::Idle
    }
}

/// The error a start is answered with when a stop interrupted it: whether
/// it wound down within the interrupt budget or was cancelled.
pub fn interrupted_start_message(wound_down: bool) -> (message: String)
    ensures
        wound_down ==> message@ == "The lifecycle operation was interrupted by priority Stop"@,
        !wound_down ==> message@
            == "The lifecycle operation was cancelled after its bounded interrupt budget"@,
{
    if wound_down {
        String::from_str("The lifecycle operation was interrupted by priority Stop")
    } else {
        String::from_str("The lifecycle operation was cancelled after its bounded interrupt budget")
    }
}

/// The error a waiting start is answered with when a stop supersedes it.
pub fn superseded_start_message() -> (message: String)
    ensures
        message@ == "The lifecycle operation was superseded by priority Stop"@,
{
    String::from_str("The lifecycle operation was superseded by priority Stop")
}

/// How far the start of an account's bot has come.
pub enum StartPhase {
    /// A finished prior supervisor and finished game tasks were cleared;
    /// `tasks_remain` says whether game tasks of a prior generation still
    /// run.
    PriorCleared { tasks_remain: bool },
    /// The supervisor was reserved (`Some` generation), found already
    /// reserved (`None`), or refused.
    Reserved(Result<Option<u64>, String>),
    /// Lichess was asked which of the account's games are ongoing.
    OngoingRead(Result<(), String>),
    /// The durable game intents were replaced by the ongoing games.
    IntentsReconciled(Result<(), String>),
    /// The supervisor's handle was installed under its generation, unless
    /// a stop took the reservation meanwhile.
    SupervisorInstalled(bool),
    /// The ongoing games were handed to game tasks.
    GamesSpawned(Result<(), String>),
}

/// What the start does next.
pub enum StartAction {
    /// Fail with this error; nothing was reserved.
    Fail(String),
    /// Another start already owns the account: nothing to do.
    AlreadyRunning,
    /// Look the account up and reserve its supervisor.
    ReserveSupervisor,
    ReadOngoingGames,
    ReconcileIntents,
    /// Launch the supervisor, which opens the account's event stream.
    LaunchSupervisor,
    SpawnGames,
    /// Drop the reservation, report this error on the account and fail.
    ReleaseAndFail(String),
    /// Cancel the launched supervisor and fail.
    CancelAndFail(String),
    /// Stop the whole account and fail.
    StopAndFail(String),
    Started,
}

/// Which kind of action follows each phase of a start.
pub open spec fn start_follows(phase: StartPhase, action: StartAction) -> bool {
    match phase {
        StartPhase::PriorCleared { tasks_remain } => if tasks_remain {
            action is Fail
        } else {
            action is ReserveSupervisor
        },
        StartPhase::Reserved(r) => match r {
            Ok(Some(_)) => action is ReadOngoingGames,
            Ok(None) => action is AlreadyRunning,
            Err(_) => action is Fail,
        },
        StartPhase::OngoingRead(r) => if r is Ok {
            action is ReconcileIntents
        } else {
            action is ReleaseAndFail
        },
        StartPhase::IntentsReconciled(r) => if r is Ok {
            action is LaunchSupervisor
        } else {
            action is ReleaseAndFail
        },
        StartPhase::SupervisorInstalled(installed) => if installed {
            action is SpawnGames
        } else {
            action is CancelAndFail
        },
        StartPhase::GamesSpawned(r) => if r is Ok {
            action is Started
        } else {
            action is StopAndFail
        },
    }
}

/// The order a start follows: prior work must be gone, the supervisor is
/// reserved, the ongoing games are read and the durable intents reconciled
/// with them, and only then is the event stream opened and the games
/// resumed.
pub fn start_step(phase: StartPhase) -> (action: StartAction)
    ensures
        start_follows(phase, action),
        match phase {
            StartPhase::PriorCleared { tasks_remain } => if tasks_remain {
                action matches StartAction::Fail(e) && e@
                    == "A prior game generation is still exiting; use Stop and wait before restarting"@
            } else {
                action is ReserveSupervisor
            },
            StartPhase::Reserved(r) => match r {
                Ok(Some(_)) => action is ReadOngoingGames,
                Ok(None) => action is AlreadyRunning,
                Err(e) => action matches StartAction::Fail(m) && m@ == e@,
            },
            StartPhase::OngoingRead(r) => match r {
                Ok(()) => action is ReconcileIntents,
                Err(e) => action matches StartAction::ReleaseAndFail(m) && m@
                    == "Could not reconcile ongoing games before start: "@ + e@,
            },
            StartPhase::IntentsReconciled(r) => match r {
                Ok(()) => action is LaunchSupervisor,
                Err(e) => action matches StartAction::ReleaseAndFail(m) && m@ == e@,
            },
            StartPhase::SupervisorInstalled(installed) => if installed {
                action is SpawnGames
            } else {
                action matches StartAction::CancelAndFail(m) && m@
                    == "The account start was canceled before its supervisor launched"@
            },
            StartPhase::GamesSpawned(r) => match r {
                Ok(()) => action is Started,
                Err(e) => action matches StartAction::StopAndFail(m) && m@ == e@,
            },
        },
{
    match phase {
        StartPhase::PriorCleared { tasks_remain } => if tasks_remain {
            StartAction::Fail(
                String::from_str(
                    "A prior game generation is still exiting; use Stop and wait before restarting",
                ),
            )
        } else {
            StartAction::ReserveSupervisor
        },
        StartPhase::Reserved(r) => match r {
            Ok(Some(_)) => StartAction::ReadOngoingGames,
            Ok(None) => StartAction::AlreadyRunning,
            Err(e) => StartAction::Fail(e),
        },
        StartPhase::OngoingRead(r) => match r {
            Ok(()) => StartAction::ReconcileIntents,
            Err(e) => {
                let mut m = String::from_str("Could not reconcile ongoing games before start: ");
                push_str(&mut m, e.as_str());
                StartAction::ReleaseAndFail(m)
            },
        },
        StartPhase::IntentsReconciled(r) => match r {
            Ok(()) => StartAction::LaunchSupervisor,
            Err(e) => StartAction::ReleaseAndFail(e),
        },
        StartPhase::SupervisorInstalled(installed) => if installed {
            StartAction::SpawnGames
        } else {
            StartAction::CancelAndFail(
                String::from_str("The account start was canceled before its supervisor launched"),
            )
        },
        StartPhase::GamesSpawned(r) => match r {
            Ok(()) => StartAction::Started,
            Err(e) => StartAction::StopAndFail(e),
        },
    }
}

/// The event stream opens only after reconciliation: a start launches its
/// supervisor only once the ongoing games were read and the durable intents
/// reconciled with them, and it resumes games only after that.
pub proof fn law_stream_opens_after_reconciliation(phase: StartPhase, action: StartAction)
    requires
        start_follows(phase, action),
    ensures
        action is LaunchSupervisor ==> (phase matches StartPhase::IntentsReconciled(r) && r is Ok),
        action is ReconcileIntents ==> (phase matches StartPhase::OngoingRead(r) && r is Ok),
        action is SpawnGames ==> phase matches StartPhase::SupervisorInstalled(true),
{
}

/// How long a stop waits for a task to exit before aborting it, in seconds.
pub const TASK_JOIN_TIMEOUT_SECONDS: u64 = 10;

/// How waiting for an owned task to exit went.
pub enum JoinOutcome {
    Exited,
    /// The task ended with this failure (a panic or a cancellation).
    Failed(String),
    /// It did not exit in time and was aborted.
    TimedOut,
}

/// The result of joining an owned task, named by `label`.
pub fn join_result(label: &str, outcome: JoinOutcome) -> (result: Result<(), String>)
    ensures
        match outcome {
            JoinOutcome::Exited => result is Ok,
            JoinOutcome::Failed(error) => result matches Err(e) && e@ == "The "@ + label@
                + " failed while joining: "@ + error@,
            JoinOutcome::TimedOut => result matches Err(e) && e@ == "The "@ + label@
                + " did not exit within "@ + crate::text::decimal(TASK_JOIN_TIMEOUT_SECONDS as nat)
                + " seconds and was aborted"@,
        },
{
    match outcome {
        JoinOutcome::Exited => Ok(()),
        JoinOutcome::Failed(error) => {
            let mut m = String::from_str("The ");
            push_str(&mut m, label);
            push_str(&mut m, " failed while joining: ");
            push_str(&mut m, error.as_str());
            Err(m)
        },
        JoinOutcome::TimedOut => {
            let mut m = String::from_str("The ");
            push_str(&mut m, label);
            push_str(&mut m, " did not exit within ");
            let seconds = crate::text::u64_text(TASK_JOIN_TIMEOUT_SECONDS);
            push_str(&mut m, seconds.as_str());
            push_str(&mut m, " seconds and was aborted");
            Err(m)
        },
    }
}

} // verus!
