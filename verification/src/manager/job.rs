//! Jobs: starting and stopping services one after the other, while outside each step the
//! processes do what they do.

use vstd::prelude::*;
use vstd::utf8::encode_utf8;

use crate::config::{has_readiness_probe, is_probed, ServiceConfigView};
use crate::ipc::{ProcessAction, ServerMessage, ServerMessageView, ServiceState};
use crate::manager::launch::{
    launch_for, launch_of, law_services_run_where_they_are_configured, Launch, LaunchView,
};
use crate::manager::service::ManagedService;
use crate::manager::{Manager, ManagerView};
use crate::paths::law_joined_paths;
use crate::text::views;

verus! {

/// What a job is for.
#[derive(Debug, Clone, Copy, PartialEq, Eq, Structural)]
pub enum Plan {
    Start,
    Stop,
    Restart,
    /// Start all services; where one of them cannot be started, stop them again.
    Initialize,
    /// Stop all services, at the end of the manager.
    ShutDown,
}

/// What is done to the services in turn.
#[derive(Debug, Clone, Copy, PartialEq, Eq, Structural)]
pub enum Task {
    Stop,
    Start,
}

/// How far a job is with the service that it is at.
#[derive(Debug, Clone, Copy, PartialEq, Eq, Structural)]
pub enum Phase {
    Fresh,
    /// The process was asked to stop.
    Terminating,
    /// The process was killed.
    Killing,
    /// A process is being started.
    Spawning,
}

/// What went wrong.
#[derive(Debug, Clone, Copy, PartialEq, Eq, Structural)]
pub enum FaultKind {
    Start,
    Poll,
    Wait,
}

/// What went wrong with the service at `index`.
#[derive(Debug, Clone, Copy, PartialEq, Eq, Structural)]
pub struct Fault {
    pub kind: FaultKind,
    pub index: usize,
}

/// Something that is done to the services from `first` up to `end`; `all` says whether these are
/// all that there are.
#[derive(Debug, Clone, Copy, PartialEq, Eq, Structural)]
pub struct Job {
    pub plan: Plan,
    pub all: bool,
    pub first: usize,
    pub end: usize,
    pub task: Task,
    pub cursor: usize,
    pub phase: Phase,
    /// What went wrong first in this turn through the services.
    pub fault: Option<Fault>,
    /// What went wrong in the turn before, which this turn cleans up after.
    pub start_fault: Option<Fault>,
}

/// What came of the last effect.
#[derive(Debug, Clone, Copy, PartialEq, Eq, Structural)]
pub enum Outcome {
    /// There was nothing to do.
    Nothing,
    /// The process is gone.
    Exited(Option<i32>),
    /// The process is still there; `late` says whether its time to stop is over.
    Running { late: bool },
    /// There is a process.
    Spawned(Option<u32>),
    /// It could not be done.
    Failed,
}

/// What is to be done outside.
#[derive(Debug)]
pub enum Effect {
    Nothing,
    /// Start a process for a service.
    Spawn { index: usize, launch: Launch },
    /// Ask the processes of a service to stop, and look whether the first of them is gone.
    Terminate { index: usize, pid: Option<u32> },
    /// Wait a little, and look again.
    Poll { index: usize },
    /// Kill the processes of a service, and wait until the first of them is gone.
    Kill { index: usize, pid: Option<u32> },
    /// The job is done: with what a client is told, or with what went wrong, the outermost error
    /// first.
    Finish(Result<String, Vec<String>>),
}

/// What is to be done outside, as a value.
#[verifier::ext_equal]
pub enum EffectView {
    Nothing,
    Spawn { index: int, launch: LaunchView },
    Terminate { index: int, pid: Option<u32> },
    Poll { index: int },
    Kill { index: int, pid: Option<u32> },
    Finish(Result<Seq<char>, Seq<Seq<char>>>),
}

impl View for Effect {
    type V = EffectView;

    open spec fn view(&self) -> EffectView {
        match *self {
            Effect::Nothing => EffectView::Nothing,
            Effect::Spawn { index, launch } => EffectView::Spawn {
                index: index as int,
                launch: launch@,
            },
            Effect::Terminate { index, pid } => EffectView::Terminate { index: index as int, pid },
            Effect::Poll { index } => EffectView::Poll { index: index as int },
            Effect::Kill { index, pid } => EffectView::Kill { index: index as int, pid },
            Effect::Finish(Ok(text)) => EffectView::Finish(Ok(text@)),
            Effect::Finish(Err(errors)) => EffectView::Finish(Err(views(errors@))),
        }
    }
}

/// One step of a job: what to tell those who are attached, and then what to do.
#[derive(Debug)]
pub struct JobStep {
    pub broadcasts: Vec<ServerMessage>,
    pub effect: Effect,
}

/// A job and the manager that it works on, after a step, with what the step asks for.
#[verifier::ext_equal]
pub struct StepResult {
    pub job: Job,
    pub manager: ManagerView,
    pub broadcasts: Seq<ServerMessageView>,
    pub effect: EffectView,
}

/// The plan of a command.
pub open spec fn plan_for(action: ProcessAction) -> Plan {
    match action {
        ProcessAction::Restart => Plan::Restart,
        ProcessAction::Stop => Plan::Stop,
        ProcessAction::Start => Plan::Start,
    }
}

/// What a plan does first.
pub open spec fn first_task(plan: Plan) -> Task {
    match plan {
        Plan::Start => Task::Start,
        Plan::Initialize => Task::Start,
        _ => Task::Stop,
    }
}

/// A job that is about to begin.
pub open spec fn job_of(plan: Plan, first: nat, end: nat, all: bool) -> Job {
    Job {
        plan,
        all,
        first: first as usize,
        end: end as usize,
        task: first_task(plan),
        cursor: first as usize,
        phase: Phase::Fresh,
        fault: None,
        start_fault: None,
    }
}

/// The job of a command.
pub open spec fn command_job(action: ProcessAction, first: nat, end: nat, all: bool) -> Job {
    job_of(plan_for(action), first, end, all)
}

/// What a client is told of a job that was done.
pub open spec fn done_text(job: Job, names: Seq<Seq<char>>) -> Seq<char> {
    let verb = match job.plan {
        Plan::Start => "started "@,
        Plan::Stop => "stopped "@,
        Plan::Restart => "restarted "@,
        Plan::Initialize => "started "@,
        Plan::ShutDown => "stopped "@,
    };
    verb + (if job.all {
        "all services"@
    } else {
        names[job.first as int]
    })
}

/// A name in quotes, behind what is said of it.
pub open spec fn of_service(before: Seq<char>, name: Seq<char>) -> Seq<char> {
    before + name + "`"@
}

/// What went wrong, in words.
pub open spec fn fault_text(fault: Fault, names: Seq<Seq<char>>) -> Seq<char> {
    match fault.kind {
        FaultKind::Start => of_service("failed to start service `"@, names[fault.index as int]),
        FaultKind::Poll => of_service("failed to poll `"@, names[fault.index as int]),
        FaultKind::Wait => "failed to wait on child process"@,
    }
}

/// What went wrong in a turn, the outermost error first: where all services are stopped, that
/// begins with the service that could not be.
pub open spec fn turn_errors(fault: Fault, stops_all: bool, names: Seq<Seq<char>>) -> Seq<
    Seq<char>,
> {
    if stops_all {
        seq![
            of_service("failed to stop service `"@, names[fault.index as int]),
            fault_text(fault, names),
        ]
    } else {
        seq![fault_text(fault, names)]
    }
}

impl Job {
    /// Whether the job goes on with the next service when something is wrong with one.
    pub open spec fn stops_all(self) -> bool {
        self.task == Task::Stop && self.all
    }

    /// The job, done with the service that it is at.
    pub open spec fn past(self) -> Job {
        Job { cursor: (self.cursor + 1) as usize, phase: Phase::Fresh, ..self }
    }

    /// The job, when something is wrong with the service that it is at: the first error counts,
    /// and only where all services are stopped do the others have their turn.
    pub open spec fn failed(self, kind: FaultKind) -> Job {
        let fault = Fault { kind, index: self.cursor };
        if self.stops_all() {
            Job {
                fault: if self.fault is Some {
                    self.fault
                } else {
                    Some(fault)
                },
                ..self.past()
            }
        } else {
            Job { fault: Some(fault), cursor: self.end, phase: Phase::Fresh, ..self }
        }
    }

    /// The job at the beginning of another turn through its services.
    pub open spec fn another_turn(self, task: Task, start_fault: Option<Fault>) -> Job {
        Job { task, cursor: self.first, phase: Phase::Fresh, fault: None, start_fault, ..self }
    }

    /// The other turn through the services that follows this one, if one does.
    pub open spec fn following(self) -> Option<Job> {
        if self.plan == Plan::Restart && self.task == Task::Stop && self.fault is None {
            Some(self.another_turn(Task::Start, None))
        } else if self.plan == Plan::Initialize && self.task == Task::Start && self.fault is Some {
            Some(self.another_turn(Task::Stop, self.fault))
        } else {
            None
        }
    }

    /// How the job ends.
    pub open spec fn result(self, names: Seq<Seq<char>>) -> Result<Seq<char>, Seq<Seq<char>>> {
        match (self.fault, self.start_fault) {
            (None, None) => Ok(done_text(self, names)),
            (Some(fault), None) => Err(turn_errors(fault, self.stops_all(), names)),
            (None, Some(start)) => Err(turn_errors(start, false, names)),
            (Some(fault), Some(start)) => Err(
                seq![
                    "manager initialization cleanup failed: "@ + turn_errors(
                        fault,
                        self.stops_all(),
                        names,
                    )[0],
                ] + turn_errors(start, false, names),
            ),
        }
    }

    /// The step at the beginning of a service, or at the end of all.
    pub open spec fn begin(self, manager: ManagerView) -> StepResult {
        let i = self.cursor as int;
        let still = StepResult {
            job: self,
            manager,
            broadcasts: Seq::empty(),
            effect: EffectView::Nothing,
        };
        if self.cursor >= self.end {
            match self.following() {
                Some(job) => StepResult { job, ..still },
                None => StepResult {
                    effect: EffectView::Finish(self.result(manager.names)),
                    ..still
                },
            }
        } else if self.task == Task::Stop {
            if manager.services[i].has_child {
                StepResult {
                    job: Job { phase: Phase::Terminating, ..self },
                    manager: manager.with(i, manager.services[i].asked_to_stop()),
                    effect: EffectView::Terminate { index: i, pid: manager.services[i].pid },
                    ..still
                }
            } else {
                let rested = manager.with(i, manager.services[i].put_to_rest());
                StepResult {
                    job: self.past(),
                    manager: rested,
                    broadcasts: seq![rested.update(i)],
                    ..still
                }
            }
        } else if manager.services[i].has_child {
            StepResult { job: self.past(), ..still }
        } else {
            StepResult {
                job: Job { phase: Phase::Spawning, ..self },
                effect: EffectView::Spawn {
                    index: i,
                    launch: launch_of(manager.root_dir, manager.configs[i]),
                },
                ..still
            }
        }
    }

    /// The step after a process was asked to stop: once it is gone, on; while it has time, wait;
    /// then kill it.
    pub open spec fn terminated(self, manager: ManagerView, outcome: Outcome) -> StepResult {
        let i = self.cursor as int;
        let service = manager.services[i];
        match outcome {
            Outcome::Exited(code) => {
                let gone = manager.with(i, service.exited(code, service.manually_stopped));
                let stopped = gone.with(i, gone.services[i].stopped());
                StepResult {
                    job: self.past(),
                    manager: stopped,
                    broadcasts: seq![gone.update(i), stopped.update(i)],
                    effect: EffectView::Nothing,
                }
            },
            Outcome::Running { late: true } => StepResult {
                job: Job { phase: Phase::Killing, ..self },
                manager: manager.with(i, service.given_up()),
                broadcasts: Seq::empty(),
                effect: EffectView::Kill { index: i, pid: service.pid },
            },
            Outcome::Running { late: false } => StepResult {
                job: self,
                manager,
                broadcasts: Seq::empty(),
                effect: EffectView::Poll { index: i },
            },
            _ => StepResult {
                job: self.failed(FaultKind::Poll),
                manager,
                broadcasts: Seq::empty(),
                effect: EffectView::Nothing,
            },
        }
    }

    /// The step after a process was killed.
    pub open spec fn killed(self, manager: ManagerView, outcome: Outcome) -> StepResult {
        let i = self.cursor as int;
        match outcome {
            Outcome::Exited(code) => {
                let gone = manager.with(i, manager.services[i].exited(code, true));
                StepResult {
                    job: self.past(),
                    manager: gone,
                    broadcasts: seq![gone.update(i)],
                    effect: EffectView::Nothing,
                }
            },
            _ => StepResult {
                job: self.failed(FaultKind::Wait),
                manager,
                broadcasts: Seq::empty(),
                effect: EffectView::Nothing,
            },
        }
    }

    /// The step after a process was to be started.
    pub open spec fn spawned(self, manager: ManagerView, outcome: Outcome) -> StepResult {
        let i = self.cursor as int;
        match outcome {
            Outcome::Spawned(pid) => {
                let started = manager.with(
                    i,
                    manager.services[i].started(pid, is_probed(manager.configs[i])),
                );
                StepResult {
                    job: self.past(),
                    manager: started,
                    broadcasts: seq![started.update(i)],
                    effect: EffectView::Nothing,
                }
            },
            _ => StepResult {
                job: self.failed(FaultKind::Start),
                manager,
                broadcasts: Seq::empty(),
                effect: EffectView::Nothing,
            },
        }
    }

    /// A step of the job.
    pub open spec fn next(self, manager: ManagerView, outcome: Outcome) -> StepResult {
        match self.phase {
            Phase::Fresh => self.begin(manager),
            Phase::Terminating => self.terminated(manager, outcome),
            Phase::Killing => self.killed(manager, outcome),
            Phase::Spawning => self.spawned(manager, outcome),
        }
    }

    /// Whether the outcome is one of the effect that the job asked for.
    pub open spec fn accepts(self, outcome: Outcome) -> bool {
        match self.phase {
            Phase::Fresh => outcome is Nothing,
            Phase::Terminating => outcome is Exited || outcome is Running || outcome is Failed,
            Phase::Killing => outcome is Exited || outcome is Failed,
            Phase::Spawning => outcome is Spawned || outcome is Failed,
        }
    }

    /// The job is at one of its services, or past the last.
    pub open spec fn wf(self, manager: ManagerView) -> bool {
        &&& self.first <= self.cursor <= self.end <= manager.services.len()
        &&& self.all ==> self.first == 0 && self.end == manager.services.len()
        &&& !self.all ==> self.end == self.first + 1
        &&& self.plan == Plan::Initialize || self.plan == Plan::ShutDown ==> self.all
        &&& self.phase == Phase::Fresh || self.cursor < self.end
        &&& self.phase == Phase::Terminating || self.phase == Phase::Killing ==> self.task
            == Task::Stop
        &&& self.phase == Phase::Spawning ==> self.task == Task::Start
        &&& self.task != first_task(self.plan) ==> self.plan == Plan::Restart || self.plan
            == Plan::Initialize
        &&& self.start_fault is Some <==> self.plan == Plan::Initialize && self.task == Task::Stop
        &&& self.fault matches Some(fault) ==> fault.index < manager.names.len()
        &&& self.start_fault matches Some(fault) ==> fault.index < manager.names.len()
        &&& self.fault is Some && !self.stops_all() ==> self.cursor == self.end
    }
}

/// The effect of a finished job, where it went well.
pub open spec fn finishes_well(effect: EffectView) -> bool {
    effect matches EffectView::Finish(Ok(_))
}

/// What the job has done so far, where nothing went wrong in this turn: behind it, services that
/// are at rest or services that have a process; the one that it stops has a process and was asked
/// to, and the one that it starts has none. Where all are stopped, those behind it were all asked
/// to, whatever went wrong. What goes wrong in starting services is that one cannot be started.
pub open spec fn done_so_far(job: Job, manager: ManagerView) -> bool {
    &&& job.fault is None ==> forall|i: int|
        job.first <= i < job.cursor ==> if job.task == Task::Stop {
            (#[trigger] manager.services[i]).at_rest()
        } else {
            manager.services[i].has_child
        }
    &&& job.phase == Phase::Terminating || job.phase == Phase::Killing
        ==> manager.services[job.cursor as int].manually_stopped
    &&& job.stops_all() ==> forall|i: int|
        job.first <= i < job.cursor ==> (#[trigger] manager.services[i]).manually_stopped
    &&& job.task == Task::Start && job.fault is Some ==> job.fault->0.kind == FaultKind::Start
    &&& job.start_fault is Some ==> job.start_fault->0.kind == FaultKind::Start
    &&& job.phase == Phase::Terminating ==> manager.services[job.cursor as int].has_child
    &&& job.phase == Phase::Spawning ==> !manager.services[job.cursor as int].has_child
    &&& job.plan == Plan::Restart && job.task == Task::Start && job.fault is None ==> {
        &&& forall|i: int|
            job.first <= i < job.cursor ==> just_started(
                #[trigger] manager.services[i],
                manager.configs[i],
            )
        &&& forall|i: int|
            job.cursor <= i < job.end ==> (#[trigger] manager.services[i]).at_rest()
    }
}

/// Whether the service has a process of which nothing but its start is known.
pub open spec fn just_started(service: ManagedService, config: ServiceConfigView) -> bool {
    service.has_child && !service.manually_stopped && service.last_exit_code is None
        && service.ready == !is_probed(config)
}

/// A step leaves the manager and the job sound, and keeps what the job has done so far.
pub proof fn law_steps_keep_what_is_done(job: Job, manager: ManagerView, outcome: Outcome)
    requires
        manager.wf(),
        job.wf(manager),
        done_so_far(job, manager),
        job.accepts(outcome),
    ensures
        job.next(manager, outcome).manager.wf(),
        job.next(manager, outcome).job.wf(job.next(manager, outcome).manager),
        done_so_far(job.next(manager, outcome).job, job.next(manager, outcome).manager),
{
    let after = job.next(manager, outcome);
    let i = job.cursor as int;
    assert forall|k: int| 0 <= k < after.manager.services.len() implies (
    #[trigger] after.manager.services[k]).wf() by {
        assert(manager.services[k].wf());
    }
    assert(done_so_far(after.job, after.manager)) by {
        if after.job.fault is None {
            assert forall|k: int| after.job.first <= k < after.job.cursor implies if after.job.task
                == Task::Stop {
                (#[trigger] after.manager.services[k]).at_rest()
            } else {
                after.manager.services[k].has_child
            } by {
                if k < i && after.job.task == job.task {
                    assert(after.manager.services[k] == manager.services[k]);
                }
            }
        }
        if after.job.stops_all() {
            assert forall|k: int| after.job.first <= k < after.job.cursor implies (
            #[trigger] after.manager.services[k]).manually_stopped by {
                if k < i {
                    assert(after.manager.services[k] == manager.services[k]);
                }
            }
        }
        if after.job.plan == Plan::Restart && after.job.task == Task::Start && after.job.fault
            is None {
            assert forall|k: int| after.job.first <= k < after.job.cursor implies just_started(
                #[trigger] after.manager.services[k],
                after.manager.configs[k],
            ) by {
                if k < i {
                    assert(after.manager.services[k] == manager.services[k]);
                } else {
                    assert(manager.services[k].at_rest());
                }
            }
            assert forall|k: int| after.job.cursor <= k < after.job.end implies (
            #[trigger] after.manager.services[k]).at_rest() by {
                assert(after.manager.services[k] == manager.services[k]);
            }
        }
    }
}

/// A step touches no service but the one that the job is at, and nothing else of the manager.
pub proof fn law_steps_touch_one_service(job: Job, manager: ManagerView, outcome: Outcome)
    requires
        job.wf(manager),
    ensures
        ({
            let after = job.next(manager, outcome).manager;
            &&& after == (ManagerView { services: after.services, ..manager })
            &&& after.services.len() == manager.services.len()
            &&& forall|k: int|
                0 <= k < manager.services.len() && k != job.cursor
                    ==> #[trigger] after.services[k] == manager.services[k]
        }),
{
    let after = job.next(manager, outcome).manager;
    assert(after =~= (ManagerView { services: after.services, ..manager }));
}

/// A service never has two processes, and none is stopped that is not there: a job starts a
/// process only for a service that has none, and stops only one that there is.
pub proof fn law_one_process_for_each_service(job: Job, manager: ManagerView, outcome: Outcome)
    requires
        job.wf(manager),
        done_so_far(job, manager),
        job.accepts(outcome),
    ensures
        match job.next(manager, outcome).effect {
            EffectView::Spawn { index, .. } => index == job.cursor
                && !manager.services[index].has_child,
            EffectView::Terminate { index, pid } => index == job.cursor
                && manager.services[index].has_child && pid == manager.services[index].pid,
            EffectView::Poll { index } => index == job.cursor && manager.services[index].has_child,
            EffectView::Kill { index, pid } => index == job.cursor
                && manager.services[index].has_child && pid == manager.services[index].pid,
            _ => true,
        },
{
}

/// A process is killed only after it was asked to stop and its time was over.
pub proof fn law_processes_have_time_to_stop(job: Job, manager: ManagerView, outcome: Outcome)
    requires
        job.wf(manager),
        job.accepts(outcome),
        job.next(manager, outcome).effect is Kill,
    ensures
        job.phase == Phase::Terminating,
        outcome == (Outcome::Running { late: true }),
{
}

/// Starting a service that has a process changes nothing, and goes well.
pub proof fn law_start_is_idempotent(manager: ManagerView, i: nat)
    requires
        manager.wf(),
        i < manager.services.len(),
        manager.services[i as int].has_child,
    ensures
        ({
            let job = command_job(ProcessAction::Start, i, i + 1, false);
            let end = progress(job, manager, seq![Outcome::Nothing, Outcome::Nothing]);
            &&& possible(job, manager, seq![Outcome::Nothing, Outcome::Nothing])
            &&& end.manager == manager
            &&& end.effect == EffectView::Finish(Ok("started "@ + manager.names[i as int]))
        }),
{
    let job = command_job(ProcessAction::Start, i, i + 1, false);
    let two = seq![Outcome::Nothing, Outcome::Nothing];
    let one = seq![Outcome::Nothing];
    let none = Seq::<Outcome>::empty();
    assert(two.drop_last() =~= one);
    assert(one.drop_last() =~= none);
    assert(progress(job, manager, none).job == job);
    assert(possible(job, manager, none));
    assert(possible(job, manager, one));
}

/// The process that a job starts for a service is that of its configuration: it runs its command,
/// in the directory of the project where the configuration names none, and in one below that where
/// it names one that does not begin at the root.
pub proof fn law_jobs_start_what_is_configured(job: Job, manager: ManagerView, outcome: Outcome)
    requires
        job.wf(manager),
        job.accepts(outcome),
    ensures
        job.next(manager, outcome).effect matches EffectView::Spawn { index, launch } ==> {
            let config = manager.configs[job.cursor as int];
            &&& index == job.cursor
            &&& job.task == Task::Start
            &&& launch.program == "sh"@
            &&& launch.arguments == seq!["-lc"@, config.command]
            &&& launch.env.len() == config.env_keys.len()
            &&& forall|i: int|
                0 <= i < launch.env.len() ==> #[trigger] launch.env[i] == (
                    config.env_keys[i],
                    config.env[config.env_keys[i]],
                )
            &&& config.working_dir is None ==> launch.working_dir == manager.root_dir
            &&& config.working_dir is Some && !(encode_utf8(config.working_dir->0).len() > 0
                && encode_utf8(config.working_dir->0)[0] == 0x2f)
                ==> manager.root_dir.is_prefix_of(launch.working_dir)
            &&& config.working_dir is Some ==> encode_utf8(config.working_dir->0).is_suffix_of(
                launch.working_dir,
            )
        },
{
    let after = job.next(manager, outcome);
    if after.effect is Spawn {
        let config = manager.configs[job.cursor as int];
        law_services_run_where_they_are_configured(manager.root_dir, config);
        let launch = after.effect->launch;
        assert(launch.arguments =~= seq!["-lc"@, config.command]);
        if let Some(dir) = config.working_dir {
            law_joined_paths(manager.root_dir, encode_utf8(dir));
        }
    }
}

/// What comes of an effect is recorded: a process that was started is the service's, one that is
/// gone is its no more, whether it was asked or killed, and its code is kept; a process that is
/// still there has time until it is late, and is then killed at once. The job goes on to the next
/// service exactly where it is done with this one.
pub proof fn law_outcomes_are_recorded(job: Job, manager: ManagerView, outcome: Outcome)
    requires
        job.wf(manager),
        job.accepts(outcome),
        done_so_far(job, manager),
        job.phase != Phase::Fresh,
    ensures
        ({
            let after = job.next(manager, outcome);
            let before = manager.services[job.cursor as int];
            let service = after.manager.services[job.cursor as int];
            match outcome {
                Outcome::Spawned(pid) => {
                    &&& service.has_child && service.pid == pid
                    &&& !service.manually_stopped && service.last_exit_code is None
                    &&& service.ready == !(manager.configs[job.cursor as int].ready_probe_http is Some
                        || manager.configs[job.cursor as int].ready_probe_log_line_contains is Some)
                    &&& after.job.cursor == job.cursor + 1 && after.job.phase == Phase::Fresh
                    &&& after.job.fault == job.fault
                },
                Outcome::Exited(code) => {
                    &&& !service.has_child && service.pid is None && !service.ready
                    &&& service.state == ServiceState::Stopped && service.manually_stopped
                    &&& service.last_exit_code == code
                    &&& service.cpu_percent.bits == 0 && service.memory_bytes == 0
                    &&& after.job.cursor == job.cursor + 1 && after.job.phase == Phase::Fresh
                    &&& after.job.fault == job.fault
                },
                Outcome::Running { late } => {
                    &&& after.broadcasts.len() == 0
                    &&& late ==> (after.effect matches EffectView::Kill { pid, .. } && pid
                        == before.pid) && !service.has_child && after.job.phase == Phase::Killing
                    &&& !late ==> after.effect is Poll && after.manager == manager && after.job
                        == job
                },
                Outcome::Failed => {
                    &&& after.manager == manager && after.broadcasts.len() == 0
                    &&& after.effect is Nothing
                    &&& after.job.phase == Phase::Fresh
                    &&& after.job.fault == if job.fault is Some && job.task == Task::Stop
                        && job.all {
                        job.fault
                    } else {
                        Some(
                            Fault {
                                kind: match job.phase {
                                    Phase::Spawning => FaultKind::Start,
                                    Phase::Killing => FaultKind::Wait,
                                    _ => FaultKind::Poll,
                                },
                                index: job.cursor,
                            },
                        )
                    }
                    &&& after.job.cursor == if job.task == Task::Stop && job.all {
                        (job.cursor + 1) as usize
                    } else {
                        job.end
                    }
                },
                Outcome::Nothing => false,
            }
        }),
{
}

/// At the beginning of a service a job does what its turn is about: a process is asked to stop, and
/// a service without one is put to rest; a service without a process gets one, and one with a
/// process is passed by.
pub proof fn law_turns_do_what_they_are_about(job: Job, manager: ManagerView)
    requires
        job.wf(manager),
        job.phase == Phase::Fresh,
        job.cursor < job.end,
    ensures
        ({
            let i = job.cursor as int;
            let before = manager.services[i];
            let after = job.next(manager, Outcome::Nothing);
            let service = after.manager.services[i];
            &&& job.task == Task::Stop && before.has_child ==> {
                &&& after.effect == (EffectView::Terminate { index: i, pid: before.pid })
                &&& service == (ManagedService { manually_stopped: true, ..before })
                &&& after.job == (Job { phase: Phase::Terminating, ..job })
            }
            &&& job.task == Task::Stop && !before.has_child ==> {
                &&& after.effect is Nothing
                &&& !service.has_child && !service.ready && service.manually_stopped
                &&& service.state == ServiceState::Stopped
                &&& after.broadcasts.len() == 1
                &&& after.job.cursor == job.cursor + 1
            }
            &&& job.task == Task::Start && before.has_child ==> {
                &&& after.effect is Nothing
                &&& after.manager == manager && after.broadcasts.len() == 0
                &&& after.job.cursor == job.cursor + 1
            }
            &&& job.task == Task::Start && !before.has_child ==> {
                &&& after.effect is Spawn
                &&& after.manager == manager && after.broadcasts.len() == 0
                &&& after.job == (Job { phase: Phase::Spawning, ..job })
            }
        }),
{
}

/// At the end of a turn, services that were to be restarted and are all stopped are started; where
/// one could not be stopped, none is. Where the manager could not start one, all are stopped.
pub proof fn law_turns_follow_each_other(job: Job, manager: ManagerView)
    requires
        job.wf(manager),
        job.phase == Phase::Fresh,
        job.cursor == job.end,
    ensures
        ({
            let after = job.next(manager, Outcome::Nothing);
            &&& after.manager == manager
            &&& job.plan == Plan::Restart && job.task == Task::Stop && job.fault is None ==> {
                &&& after.effect is Nothing
                &&& after.job.task == Task::Start && after.job.cursor == job.first
                &&& after.job.fault is None
            }
            &&& job.plan == Plan::Restart && job.task == Task::Stop && job.fault is Some
                ==> (after.effect matches EffectView::Finish(Err(_)))
            &&& job.plan == Plan::Initialize && job.task == Task::Start && job.fault is Some ==> {
                &&& after.effect is Nothing
                &&& after.job.task == Task::Stop && after.job.cursor == 0
                &&& after.job.fault is None && after.job.start_fault == job.fault
            }
            &&& job.fault is None && job.start_fault is None && !(job.plan == Plan::Restart
                && job.task == Task::Stop) ==> (after.effect matches EffectView::Finish(Ok(_)))
            &&& job.task == Task::Stop && job.fault is Some ==> (after.effect
                matches EffectView::Finish(Err(_)))
        }),
{
}

/// What a client is told of what went wrong names the service: the first that could not be started,
/// looked at or, where all are stopped, stopped.
pub proof fn law_errors_name_the_service(job: Job, names: Seq<Seq<char>>)
    requires
        job.fault is Some,
        job.start_fault is None,
    ensures
        ({
            let name = names[job.fault->0.index as int];
            job.result(names) matches Err(errors) && errors[0] == if job.task == Task::Stop
                && job.all {
                "failed to stop service `"@ + name + "`"@
            } else {
                match job.fault->0.kind {
                    FaultKind::Start => "failed to start service `"@ + name + "`"@,
                    FaultKind::Poll => "failed to poll `"@ + name + "`"@,
                    FaultKind::Wait => "failed to wait on child process"@,
                }
            }
        }),
{
}

/// What went wrong is told from the outside in: where all services are stopped, the service that
/// could not be and then what was wrong with its process; otherwise that alone. Where the manager
/// could not start a service, that is told, and before it what else went wrong in stopping all.
pub proof fn law_errors_are_told_from_the_outside_in(job: Job, names: Seq<Seq<char>>)
    ensures
        job.result(names) is Ok <==> job.fault is None && job.start_fault is None,
        job.fault is Some && job.start_fault is None ==> job.result(names) == Err::<
            Seq<char>,
            Seq<Seq<char>>,
        >(turn_errors(job.fault->0, job.task == Task::Stop && job.all, names)),
        job.fault is None && job.start_fault is Some ==> (job.result(names) matches Err(errors)
            && errors == turn_errors(job.start_fault->0, false, names)),
        job.fault is Some && job.start_fault is Some ==> (job.result(names) matches Err(errors)
            && errors.len() == 2 && errors[0] == "manager initialization cleanup failed: "@
            + turn_errors(job.fault->0, job.task == Task::Stop && job.all, names)[0] && errors[1]
            == turn_errors(job.start_fault->0, false, names)[0]),
        forall|fault: Fault|
            #![trigger turn_errors(fault, true, names)]
            turn_errors(fault, true, names).len() == 2 && turn_errors(fault, true, names)[0]
                == "failed to stop service `"@ + names[fault.index as int] + "`"@ && turn_errors(
                fault,
                true,
                names,
            )[1] == turn_errors(fault, false, names)[0] && turn_errors(fault, false, names).len()
                == 1,
        forall|fault: Fault|
            #![trigger turn_errors(fault, false, names)]
            turn_errors(fault, false, names) == seq![
                match fault.kind {
                    FaultKind::Start => "failed to start service `"@ + names[fault.index as int]
                        + "`"@,
                    FaultKind::Poll => "failed to poll `"@ + names[fault.index as int] + "`"@,
                    FaultKind::Wait => "failed to wait on child process"@,
                },
            ],
{
}

/// What is done to a service is told: each step that changes what is known of one tells those who
/// are attached of it as it is then, and no step tells of another.
pub proof fn law_steps_tell_of_their_service(job: Job, manager: ManagerView, outcome: Outcome)
    requires
        job.wf(manager),
        job.accepts(outcome),
    ensures
        ({
            let after = job.next(manager, outcome);
            let i = job.cursor as int;
            &&& after.broadcasts.len() <= 2
            &&& forall|k: int|
                0 <= k < after.broadcasts.len() ==> (#[trigger] after.broadcasts[k]
                    matches ServerMessageView::ServiceUpdate { service } && service.name
                    == manager.names[i])
            &&& after.broadcasts.len() > 0 ==> (after.broadcasts.last()
                matches ServerMessageView::ServiceUpdate { service } && service
                == after.manager.services[i].snapshot(manager.names[i]))
            &&& after.broadcasts.len() == 0 && i < manager.services.len()
                ==> after.manager.services[i].snapshot(manager.names[i])
                == manager.services[i].snapshot(manager.names[i])
        }),
{
}

/// A job comes to its end unless a process that was asked to stop is looked at for ever: each
/// other step brings it nearer, counted in turns through the services and, within a turn, in
/// steps.
pub proof fn law_steps_come_nearer_to_the_end(job: Job, manager: ManagerView, outcome: Outcome)
    requires
        job.wf(manager),
        job.accepts(outcome),
    ensures
        ({
            let after = job.next(manager, outcome);
            ||| after.effect is Finish
            ||| after.effect is Poll && after.job == job
            ||| turns_left(after.job) < turns_left(job)
            ||| turns_left(after.job) == turns_left(job) && steps_left(after.job) < steps_left(job)
        }),
{
}

/// How many more turns through the services a job can take.
pub open spec fn turns_left(job: Job) -> int {
    if job.task == first_task(job.plan) && (job.plan == Plan::Restart || job.plan
        == Plan::Initialize) {
        1
    } else {
        0
    }
}

/// How many more steps a job can take in this turn.
pub open spec fn steps_left(job: Job) -> int {
    4 * (job.end - job.cursor) + match job.phase {
        Phase::Fresh => 3int,
        Phase::Terminating => 2,
        Phase::Spawning => 2,
        Phase::Killing => 1,
    }
}

/// A job and a manager after some steps, with the effect of the last.
pub struct Progress {
    pub job: Job,
    pub manager: ManagerView,
    pub effect: EffectView,
}

/// The progress of a job, for what came of each of its effects.
pub open spec fn progress(job: Job, manager: ManagerView, outcomes: Seq<Outcome>) -> Progress
    decreases outcomes.len(),
{
    if outcomes.len() == 0 {
        Progress { job, manager, effect: EffectView::Nothing }
    } else {
        let before = progress(job, manager, outcomes.drop_last());
        let after = before.job.next(before.manager, outcomes.last());
        Progress { job: after.job, manager: after.manager, effect: after.effect }
    }
}

/// Whether the outcomes can come of the effects of a job.
pub open spec fn possible(job: Job, manager: ManagerView, outcomes: Seq<Outcome>) -> bool
    decreases outcomes.len(),
{
    outcomes.len() > 0 ==> {
        let before = progress(job, manager, outcomes.drop_last());
        &&& possible(job, manager, outcomes.drop_last())
        &&& before.effect !is Finish
        &&& before.job.accepts(outcomes.last())
    }
}

/// Whether the job is one that just begins.
pub open spec fn begins(job: Job, manager: ManagerView) -> bool {
    exists|first: nat, end: nat, all: bool| #[trigger]
        job_of(job.plan, first, end, all) == job && job.wf(manager)
}

proof fn lemma_progress(job: Job, manager: ManagerView, outcomes: Seq<Outcome>)
    requires
        manager.wf(),
        begins(job, manager),
        possible(job, manager, outcomes),
    ensures
        ({
            let p = progress(job, manager, outcomes);
            &&& p.manager.wf()
            &&& p.job.wf(p.manager)
            &&& done_so_far(p.job, p.manager)
            &&& p.job.plan == job.plan
            &&& p.job.first == job.first
            &&& p.job.end == job.end
            &&& p.job.all == job.all
            &&& p.manager.names == manager.names
            &&& p.manager.configs == manager.configs
            &&& p.effect is Finish ==> p.job.cursor == p.job.end && p.job.phase == Phase::Fresh
                && p.job.following() is None && p.effect == EffectView::Finish(
                p.job.result(manager.names),
            )
        }),
    decreases outcomes.len(),
{
    if outcomes.len() > 0 {
        lemma_progress(job, manager, outcomes.drop_last());
        let before = progress(job, manager, outcomes.drop_last());
        law_steps_keep_what_is_done(before.job, before.manager, outcomes.last());
        law_steps_touch_one_service(before.job, before.manager, outcomes.last());
    }
}

/// A service that has no number of a process that it does not have gets none by a job, but while
/// its process is waited for, and where something went wrong in stopping.
proof fn lemma_tidy(job: Job, manager: ManagerView, outcomes: Seq<Outcome>, i: int)
    requires
        manager.wf(),
        begins(job, manager),
        possible(job, manager, outcomes),
        0 <= i < manager.services.len(),
        manager.services[i].tidy(),
    ensures
        ({
            let p = progress(job, manager, outcomes);
            ||| p.manager.services[i].tidy()
            ||| p.job.phase == Phase::Killing && p.job.cursor == i
            ||| p.job.task == Task::Stop && p.job.fault is Some
        }),
    decreases outcomes.len(),
{
    if outcomes.len() > 0 {
        let before = progress(job, manager, outcomes.drop_last());
        lemma_tidy(job, manager, outcomes.drop_last(), i);
        lemma_progress(job, manager, outcomes.drop_last());
        law_steps_touch_one_service(before.job, before.manager, outcomes.last());
    }
}

/// However the processes behave: where services were to be stopped and the job went well, each of
/// them is stopped, has no process and uses nothing; and it has no number of a process, unless it
/// had one before without a process.
pub proof fn law_stopped_services_are_at_rest(
    job: Job,
    manager: ManagerView,
    outcomes: Seq<Outcome>,
    i: int,
)
    requires
        manager.wf(),
        begins(job, manager),
        possible(job, manager, outcomes),
        job.plan == Plan::Stop || job.plan == Plan::ShutDown,
        finishes_well(progress(job, manager, outcomes).effect),
        job.first <= i < job.end,
    ensures
        progress(job, manager, outcomes).manager.services[i].at_rest(),
        manager.services[i].has_child || manager.services[i].pid is None ==> progress(
            job,
            manager,
            outcomes,
        ).manager.services[i].pid is None,
{
    lemma_progress(job, manager, outcomes);
    if manager.services[i].tidy() {
        lemma_tidy(job, manager, outcomes, i);
    }
}

/// However the processes behave: where all services were to be stopped, each of them was asked to
/// by the end of the job, also where something went wrong with another.
pub proof fn law_all_services_are_asked_to_stop(
    job: Job,
    manager: ManagerView,
    outcomes: Seq<Outcome>,
    i: int,
)
    requires
        manager.wf(),
        begins(job, manager),
        possible(job, manager, outcomes),
        job.all,
        job.plan == Plan::Stop || job.plan == Plan::ShutDown,
        progress(job, manager, outcomes).effect is Finish,
        0 <= i < manager.services.len(),
    ensures
        progress(job, manager, outcomes).manager.services[i].manually_stopped,
{
    lemma_progress(job, manager, outcomes);
}

/// However the processes behave: where services were to be started, or started anew, and the job
/// went well, each of them has a process.
pub proof fn law_started_services_have_a_process(
    job: Job,
    manager: ManagerView,
    outcomes: Seq<Outcome>,
    i: int,
)
    requires
        manager.wf(),
        begins(job, manager),
        possible(job, manager, outcomes),
        job.plan == Plan::Start || job.plan == Plan::Restart || job.plan == Plan::Initialize,
        finishes_well(progress(job, manager, outcomes).effect),
        job.first <= i < job.end,
    ensures
        progress(job, manager, outcomes).manager.services[i].has_child,
{
    lemma_progress(job, manager, outcomes);
}

/// However the processes behave: where services were to be started anew and the job went well,
/// each of them has a new process, and nothing is left of what was known of the old one.
pub proof fn law_restarted_services_have_a_new_process(
    job: Job,
    manager: ManagerView,
    outcomes: Seq<Outcome>,
    i: int,
)
    requires
        manager.wf(),
        begins(job, manager),
        possible(job, manager, outcomes),
        job.plan == Plan::Restart,
        finishes_well(progress(job, manager, outcomes).effect),
        job.first <= i < job.end,
    ensures
        just_started(progress(job, manager, outcomes).manager.services[i], manager.configs[i]),
{
    lemma_progress(job, manager, outcomes);
}

/// However the processes behave: where the manager cannot start one of its services, it says
/// which, and ends with none of them running, unless one of them could not be stopped either: each
/// is stopped, has no process and uses nothing, and has no number of a process, unless it had one
/// before without a process.
pub proof fn law_failed_initialization_stops_all(
    job: Job,
    manager: ManagerView,
    outcomes: Seq<Outcome>,
    i: int,
)
    requires
        manager.wf(),
        begins(job, manager),
        possible(job, manager, outcomes),
        job.plan == Plan::Initialize,
        progress(job, manager, outcomes).effect is Finish,
        !finishes_well(progress(job, manager, outcomes).effect),
        0 <= i < manager.services.len(),
    ensures
        ({
            let end = progress(job, manager, outcomes);
            let service = end.manager.services[i];
            end.job.fault is None ==> {
                &&& service.at_rest()
                &&& manager.services[i].has_child || manager.services[i].pid is None
                    ==> service.pid is None
                &&& end.job.start_fault is Some
                &&& end.effect == EffectView::Finish(
                    Err(
                        seq![
                            of_service(
                                "failed to start service `"@,
                                manager.names[end.job.start_fault->0.index as int],
                            ),
                        ],
                    ),
                )
            }
        }),
{
    lemma_progress(job, manager, outcomes);
    if manager.services[i].tidy() {
        lemma_tidy(job, manager, outcomes, i);
    }
}

/// A job that did not go well says why.
pub proof fn law_failed_jobs_say_why(job: Job, names: Seq<Seq<char>>)
    ensures
        job.result(names) matches Err(errors) ==> errors.len() > 0,
{
}

/// The end of a job, as a value.
pub open spec fn end_view(end: Result<String, Vec<String>>) -> Result<Seq<char>, Seq<Seq<char>>> {
    match end {
        Ok(text) => Ok(text@),
        Err(errors) => Err(views(errors@)),
    }
}

/// What a client is answered at the end of its job: what was done, or the outermost error.
pub open spec fn answer_to(end: Result<Seq<char>, Seq<Seq<char>>>) -> ServerMessageView {
    match end {
        Ok(text) => ServerMessageView::Ack { message: text },
        Err(errors) => ServerMessageView::Error { message: errors[0] },
    }
}

/// The answers that a client gets of a job, for what came of each of its effects.
pub open spec fn job_answers(job: Job, manager: ManagerView, outcomes: Seq<Outcome>) -> Seq<
    ServerMessageView,
>
    decreases outcomes.len(),
{
    if outcomes.len() == 0 {
        Seq::empty()
    } else {
        let before = job_answers(job, manager, outcomes.drop_last());
        match progress(job, manager, outcomes).effect {
            EffectView::Finish(end) => before.push(answer_to(end)),
            _ => before,
        }
    }
}

/// However the processes behave: a client gets no answer of a job that is not done, and exactly
/// one of a job that is. That says what was done where the job went well, and what went wrong
/// where it did not.
pub proof fn law_a_job_is_answered_once(job: Job, manager: ManagerView, outcomes: Seq<Outcome>)
    requires
        manager.wf(),
        begins(job, manager),
        possible(job, manager, outcomes),
    ensures
        match progress(job, manager, outcomes).effect {
            EffectView::Finish(end) => {
                &&& job_answers(job, manager, outcomes) == seq![answer_to(end)]
                &&& end == progress(job, manager, outcomes).job.result(manager.names)
                &&& match end {
                    Ok(text) => answer_to(end) == (ServerMessageView::Ack { message: text }) && text
                        == done_text(job, manager.names),
                    Err(errors) => errors.len() > 0 && answer_to(end) == (
                    ServerMessageView::Error { message: errors[0] }),
                }
            },
            _ => job_answers(job, manager, outcomes) == Seq::<ServerMessageView>::empty(),
        },
    decreases outcomes.len(),
{
    lemma_progress(job, manager, outcomes);
    if outcomes.len() > 0 {
        law_a_job_is_answered_once(job, manager, outcomes.drop_last());
        if let EffectView::Finish(end) = progress(job, manager, outcomes).effect {
            assert(job_answers(job, manager, outcomes) =~= seq![answer_to(end)]);
        }
    }
}

/// What a client is answered at the end of its job.
pub fn reply_of(end: Result<String, Vec<String>>) -> (r: ServerMessage)
    requires
        end is Err ==> end->Err_0@.len() > 0,
    ensures
        r@ == answer_to(end_view(end)),
        r@ == match end {
            Ok(text) => ServerMessageView::Ack { message: text@ },
            Err(errors) => ServerMessageView::Error { message: errors@[0]@ },
        },
{
    match end {
        Ok(message) => ServerMessage::Ack { message },
        Err(errors) => {
            assert(views(errors@)[0] == errors@[0]@);
            ServerMessage::Error { message: errors[0].clone() }
        },
    }
}

/// However the processes behave: a service that a job is not about stays as it is.
pub proof fn law_other_services_are_left_alone(
    job: Job,
    manager: ManagerView,
    outcomes: Seq<Outcome>,
    i: int,
)
    requires
        manager.wf(),
        begins(job, manager),
        possible(job, manager, outcomes),
        0 <= i < manager.services.len(),
        !(job.first <= i < job.end),
    ensures
        progress(job, manager, outcomes).manager.services[i] == manager.services[i],
    decreases outcomes.len(),
{
    if outcomes.len() > 0 {
        let before = progress(job, manager, outcomes.drop_last());
        law_other_services_are_left_alone(job, manager, outcomes.drop_last(), i);
        lemma_progress(job, manager, outcomes.drop_last());
        law_steps_touch_one_service(before.job, before.manager, outcomes.last());
        if before.job.cursor == i {
            assert(before.job.cursor == before.job.end);
        }
    }
}

/// `before`, the name and a closing quote.
fn of_service_text(before: &str, name: &str) -> (r: String)
    ensures
        r@ == of_service(before@, name@),
{
    let mut r = before.to_owned();
    r.append(name);
    r.append("`");
    r
}

impl Plan {
    /// The plan of a command.
    pub fn of(action: ProcessAction) -> (r: Plan)
        ensures
            r == plan_for(action),
    {
        match action {
            ProcessAction::Restart => Plan::Restart,
            ProcessAction::Stop => Plan::Stop,
            ProcessAction::Start => Plan::Start,
        }
    }
}

impl Job {
    /// A job that is about to begin.
    pub fn new(plan: Plan, first: usize, end: usize, all: bool) -> (r: Job)
        ensures
            r == job_of(plan, first as nat, end as nat, all),
    {
        let task = match plan {
            Plan::Start => Task::Start,
            Plan::Initialize => Task::Start,
            _ => Task::Stop,
        };
        Job {
            plan,
            all,
            first,
            end,
            task,
            cursor: first,
            phase: Phase::Fresh,
            fault: None,
            start_fault: None,
        }
    }

    /// Whether the outcome is one of the effect that the job asked for.
    pub fn is_answer(&self, outcome: Outcome) -> (r: bool)
        ensures
            r == self.accepts(outcome),
    {
        match (self.phase, outcome) {
            (Phase::Fresh, Outcome::Nothing) => true,
            (Phase::Terminating, Outcome::Exited(_)) => true,
            (Phase::Terminating, Outcome::Running { .. }) => true,
            (Phase::Terminating, Outcome::Failed) => true,
            (Phase::Killing, Outcome::Exited(_)) => true,
            (Phase::Killing, Outcome::Failed) => true,
            (Phase::Spawning, Outcome::Spawned(_)) => true,
            (Phase::Spawning, Outcome::Failed) => true,
            _ => false,
        }
    }

    /// Goes on to the next service.
    fn advance(&mut self)
        requires
            old(self).cursor < old(self).end,
        ensures
            *final(self) == old(self).past(),
    {
        self.cursor = self.cursor + 1;
        self.phase = Phase::Fresh;
    }

    /// Takes in that something is wrong with the service that the job is at.
    fn fail(&mut self, kind: FaultKind)
        requires
            old(self).cursor < old(self).end,
        ensures
            *final(self) == old(self).failed(kind),
    {
        let fault = Fault { kind, index: self.cursor };
        if self.task == Task::Stop && self.all {
            if self.fault.is_none() {
                self.fault = Some(fault);
            }
            self.advance();
        } else {
            self.fault = Some(fault);
            self.cursor = self.end;
            self.phase = Phase::Fresh;
        }
    }

    /// What a client is told of a job that was done.
    fn done_message(&self, manager: &Manager) -> (r: String)
        requires
            self.wf(manager@),
            manager.wf(),
        ensures
            r@ == done_text(*self, manager@.names),
    {
        let mut r = match self.plan {
            Plan::Start => "started ",
            Plan::Stop => "stopped ",
            Plan::Restart => "restarted ",
            Plan::Initialize => "started ",
            Plan::ShutDown => "stopped ",
        }.to_owned();
        if self.all {
            r.append("all services");
        } else {
            r.append(manager.config.services.name_at(self.first));
        }
        r
    }

    /// How the job ends.
    fn conclusion(&self, manager: &Manager) -> (r: Result<String, Vec<String>>)
        requires
            self.wf(manager@),
            manager.wf(),
        ensures
            match r {
                Ok(text) => self.result(manager@.names) == Ok::<Seq<char>, Seq<Seq<char>>>(text@),
                Err(errors) => self.result(manager@.names) == Err::<Seq<char>, Seq<Seq<char>>>(
                    views(errors@),
                ),
            },
    {
        let stops_all = self.task == Task::Stop && self.all;
        match (self.fault, self.start_fault) {
            (None, None) => Ok(self.done_message(manager)),
            (Some(fault), None) => Err(errors_of(fault, stops_all, manager)),
            (None, Some(start)) => Err(errors_of(start, false, manager)),
            (Some(fault), Some(start)) => {
                let mut text = "manager initialization cleanup failed: ".to_owned();
                let inner = errors_of(fault, stops_all, manager);
                assert(views(inner@)[0] == inner@[0]@);
                text.append(inner[0].as_str());
                let mut errors: Vec<String> = Vec::new();
                errors.push(text);
                let mut rest = errors_of(start, false, manager);
                let ghost tail = rest@;
                errors.append(&mut rest);
                assert(views(errors@) =~= seq![text@] + views(tail));
                Err(errors)
            },
        }
    }

    /// Takes the next step of the job, with what came of the last effect.
    pub fn step(&mut self, manager: &mut Manager, outcome: Outcome) -> (r: JobStep)
        requires
            old(manager).wf(),
            old(self).wf(old(manager)@),
            old(self).accepts(outcome),
        ensures
            final(manager).wf(),
            final(manager).config == old(manager).config,
            final(self).wf(final(manager)@),
            *final(self) == old(self).next(old(manager)@, outcome).job,
            final(manager)@ == old(self).next(old(manager)@, outcome).manager,
            views(r.broadcasts@) == old(self).next(old(manager)@, outcome).broadcasts,
            r.effect@ == old(self).next(old(manager)@, outcome).effect,
            r.effect matches Effect::Finish(Err(errors)) ==> errors@.len() > 0,
    {
        match self.phase {
            Phase::Fresh => self.step_fresh(manager),
            Phase::Terminating => self.step_terminating(manager, outcome),
            Phase::Killing => self.step_killing(manager, outcome),
            Phase::Spawning => self.step_spawning(manager, outcome),
        }
    }

    /// The step at the beginning of a service, or at the end of all.
    fn step_fresh(&mut self, manager: &mut Manager) -> (r: JobStep)
        requires
            old(manager).wf(),
            old(self).wf(old(manager)@),
            old(self).phase == Phase::Fresh,
        ensures
            final(manager).wf(),
            final(manager).config == old(manager).config,
            final(self).wf(final(manager)@),
            *final(self) == old(self).begin(old(manager)@).job,
            final(manager)@ == old(self).begin(old(manager)@).manager,
            views(r.broadcasts@) == old(self).begin(old(manager)@).broadcasts,
            r.effect@ == old(self).begin(old(manager)@).effect,
            r.effect matches Effect::Finish(Err(errors)) ==> errors@.len() > 0,
    {
        let ghost before = manager@;
        let mut broadcasts: Vec<ServerMessage> = Vec::new();
        assert(views(broadcasts@) =~= Seq::<ServerMessageView>::empty());
        if self.cursor >= self.end {
            if self.plan == Plan::Restart && self.task == Task::Stop && self.fault.is_none() {
                self.task = Task::Start;
                self.cursor = self.first;
                return JobStep { broadcasts, effect: Effect::Nothing };
            }
            if self.plan == Plan::Initialize && self.task == Task::Start && self.fault.is_some() {
                self.start_fault = self.fault;
                self.fault = None;
                self.task = Task::Stop;
                self.cursor = self.first;
                return JobStep { broadcasts, effect: Effect::Nothing };
            }
            let result = self.conclusion(manager);
            proof {
                law_failed_jobs_say_why(*self, before.names);
                if result is Err {
                    assert(views(result->Err_0@).len() == result->Err_0@.len());
                }
            }
            return JobStep { broadcasts, effect: Effect::Finish(result) };
        }
        let i = self.cursor;
        let mut service = manager.services[i];
        assert(before.services[i as int].wf());
        if self.task == Task::Stop {
            if service.has_child {
                service.manually_stopped = true;
                manager.put(i, service);
                self.phase = Phase::Terminating;
                JobStep { broadcasts, effect: Effect::Terminate { index: i, pid: service.pid } }
            } else {
                service.rest();
                manager.put(i, service);
                broadcasts.push(manager.service_update(i));
                assert(views(broadcasts@) =~= seq![manager@.update(i as int)]);
                self.advance();
                JobStep { broadcasts, effect: Effect::Nothing }
            }
        } else if service.has_child {
            self.advance();
            JobStep { broadcasts, effect: Effect::Nothing }
        } else {
            assert(manager.config.at(i as int).env.wf());
            assert(before.configs[i as int] == manager.config.at(i as int)@);
            let launch = launch_for(manager.root_dir.as_slice(), manager.config.services.value_at(i));
            self.phase = Phase::Spawning;
            JobStep { broadcasts, effect: Effect::Spawn { index: i, launch } }
        }
    }

    /// The step after a process was asked to stop.
    fn step_terminating(&mut self, manager: &mut Manager, outcome: Outcome) -> (r: JobStep)
        requires
            old(manager).wf(),
            old(self).wf(old(manager)@),
            old(self).phase == Phase::Terminating,
            old(self).accepts(outcome),
        ensures
            final(manager).wf(),
            final(manager).config == old(manager).config,
            final(self).wf(final(manager)@),
            *final(self) == old(self).terminated(old(manager)@, outcome).job,
            final(manager)@ == old(self).terminated(old(manager)@, outcome).manager,
            views(r.broadcasts@) == old(self).terminated(old(manager)@, outcome).broadcasts,
            r.effect@ == old(self).terminated(old(manager)@, outcome).effect,
    {
        let ghost before = manager@;
        let mut broadcasts: Vec<ServerMessage> = Vec::new();
        assert(views(broadcasts@) =~= Seq::<ServerMessageView>::empty());
        let i = self.cursor;
        let mut service = manager.services[i];
        assert(before.services[i as int].wf());
        match outcome {
            Outcome::Exited(code) => {
                broadcasts.push(manager.finalize_exit(i, code));
                let ghost gone = manager@;
                let mut service = manager.services[i];
                service.mark_stopped();
                manager.put(i, service);
                broadcasts.push(manager.service_update(i));
                assert(views(broadcasts@) =~= seq![
                    gone.update(i as int),
                    manager@.update(i as int),
                ]);
                self.advance();
                JobStep { broadcasts, effect: Effect::Nothing }
            },
            Outcome::Running { late } => {
                if late {
                    service.has_child = false;
                    manager.put(i, service);
                    self.phase = Phase::Killing;
                    JobStep { broadcasts, effect: Effect::Kill { index: i, pid: service.pid } }
                } else {
                    JobStep { broadcasts, effect: Effect::Poll { index: i } }
                }
            },
            _ => {
                self.fail(FaultKind::Poll);
                JobStep { broadcasts, effect: Effect::Nothing }
            },
        }
    }

    /// The step after a process was killed.
    fn step_killing(&mut self, manager: &mut Manager, outcome: Outcome) -> (r: JobStep)
        requires
            old(manager).wf(),
            old(self).wf(old(manager)@),
            old(self).phase == Phase::Killing,
            old(self).accepts(outcome),
        ensures
            final(manager).wf(),
            final(manager).config == old(manager).config,
            final(self).wf(final(manager)@),
            *final(self) == old(self).killed(old(manager)@, outcome).job,
            final(manager)@ == old(self).killed(old(manager)@, outcome).manager,
            views(r.broadcasts@) == old(self).killed(old(manager)@, outcome).broadcasts,
            r.effect@ == old(self).killed(old(manager)@, outcome).effect,
    {
        let mut broadcasts: Vec<ServerMessage> = Vec::new();
        assert(views(broadcasts@) =~= Seq::<ServerMessageView>::empty());
        let i = self.cursor;
        match outcome {
            Outcome::Exited(code) => {
                let mut service = manager.services[i];
                service.finish_exit(code, true);
                manager.put(i, service);
                broadcasts.push(manager.service_update(i));
                assert(views(broadcasts@) =~= seq![manager@.update(i as int)]);
                self.advance();
            },
            _ => {
                self.fail(FaultKind::Wait);
            },
        }
        JobStep { broadcasts, effect: Effect::Nothing }
    }

    /// The step after a process was to be started.
    fn step_spawning(&mut self, manager: &mut Manager, outcome: Outcome) -> (r: JobStep)
        requires
            old(manager).wf(),
            old(self).wf(old(manager)@),
            old(self).phase == Phase::Spawning,
            old(self).accepts(outcome),
        ensures
            final(manager).wf(),
            final(manager).config == old(manager).config,
            final(self).wf(final(manager)@),
            *final(self) == old(self).spawned(old(manager)@, outcome).job,
            final(manager)@ == old(self).spawned(old(manager)@, outcome).manager,
            views(r.broadcasts@) == old(self).spawned(old(manager)@, outcome).broadcasts,
            r.effect@ == old(self).spawned(old(manager)@, outcome).effect,
    {
        let ghost before = manager@;
        let mut broadcasts: Vec<ServerMessage> = Vec::new();
        assert(views(broadcasts@) =~= Seq::<ServerMessageView>::empty());
        let i = self.cursor;
        match outcome {
            Outcome::Spawned(pid) => {
                assert(before.configs[i as int] == manager.config.at(i as int)@);
                let probed = has_readiness_probe(manager.config.services.value_at(i));
                let mut service = manager.services[i];
                service.start(pid, probed);
                manager.put(i, service);
                broadcasts.push(manager.service_update(i));
                assert(views(broadcasts@) =~= seq![manager@.update(i as int)]);
                self.advance();
            },
            _ => {
                self.fail(FaultKind::Start);
            },
        }
        JobStep { broadcasts, effect: Effect::Nothing }
    }
}

/// What went wrong, in words.
fn fault_message(fault: Fault, manager: &Manager) -> (r: String)
    requires
        fault.index < manager@.names.len(),
    ensures
        r@ == fault_text(fault, manager@.names),
{
    match fault.kind {
        FaultKind::Start => of_service_text(
            "failed to start service `",
            manager.config.services.name_at(fault.index),
        ),
        FaultKind::Poll => of_service_text(
            "failed to poll `",
            manager.config.services.name_at(fault.index),
        ),
        FaultKind::Wait => "failed to wait on child process".to_owned(),
    }
}

/// What went wrong in a turn, the outermost error first.
fn errors_of(fault: Fault, stops_all: bool, manager: &Manager) -> (r: Vec<String>)
    requires
        fault.index < manager@.names.len(),
    ensures
        views(r@) == turn_errors(fault, stops_all, manager@.names),
        r@.len() >= 1,
{
    let mut errors: Vec<String> = Vec::new();
    if stops_all {
        errors.push(
            of_service_text(
                "failed to stop service `",
                manager.config.services.name_at(fault.index),
            ),
        );
    }
    errors.push(fault_message(fault, manager));
    assert(views(errors@) =~= turn_errors(fault, stops_all, manager@.names));
    errors
}

} // verus!
