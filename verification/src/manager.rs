//! The manager: what it knows of its services, and what it does when something happens.

pub mod client;
pub mod job;
pub mod launch;
pub mod mirror;
pub mod process_tree;
pub mod service;

use std::collections::VecDeque;

use vstd::prelude::*;

use crate::config::{law_widest_is_the_maximum, widest, Config, ServiceConfigView};
use crate::ipc::{
    CpuPercent, LogEntry, LogEntryView, ProcessAction, ServerMessage, ServerMessageView,
    ServiceSnapshot, ServiceState, SnapshotView,
};
use crate::manager::job::{
    begins, command_job, job_answers, job_of, law_a_job_is_answered_once,
    law_other_services_are_left_alone, law_restarted_services_have_a_new_process,
    law_started_services_have_a_process, law_stopped_services_are_at_rest, possible, progress,
    EffectView, Job, Outcome, Phase, Plan, Task,
};
use crate::manager::service::{fresh, ManagedService};
use crate::name_map::{ascending, lemma_ascending_distinct};
use crate::text::{byte_len, contains_of, contains_text, lemma_views_push, occurs_at, views};

verus! {

/// How many lines of output are kept for those who attach later.
pub const RECENT_LOG_LIMIT: usize = 512;

/// How often it is looked whether a process is gone, in milliseconds.
pub const EXIT_POLL_INTERVAL_MS: u64 = 250;

/// How often it is measured what the services use, in milliseconds.
pub const STATUS_REFRESH_INTERVAL_MS: u64 = 1000;

/// How long a process that is asked to stop may take, in milliseconds.
pub const STOP_GRACE_PERIOD_MS: u64 = 3000;

/// How long to wait before looking again at a process that is to stop, in milliseconds.
pub const STOP_POLL_INTERVAL_MS: u64 = 100;

/// How long a service may take to answer whether it is ready, in milliseconds.
pub const HTTP_PROBE_TIMEOUT_MS: u64 = 750;

/// A manager. The services are those of the configuration, in the order of their names.
pub struct Manager {
    pub root_dir: Vec<u8>,
    pub config: Config,
    pub services: Vec<ManagedService>,
    pub recent_logs: VecDeque<LogEntry>,
    pub subscribers: Vec<usize>,
    pub next_subscriber_id: usize,
    pub shutdown_requested: bool,
}

/// A manager as a value.
#[verifier::ext_equal]
pub struct ManagerView {
    pub root_dir: Seq<u8>,
    pub names: Seq<Seq<char>>,
    pub configs: Seq<ServiceConfigView>,
    pub services: Seq<ManagedService>,
    pub recent_logs: Seq<LogEntryView>,
    pub subscribers: Seq<usize>,
    pub next_subscriber_id: usize,
    pub shutdown_requested: bool,
}

impl View for Manager {
    type V = ManagerView;

    open spec fn view(&self) -> ManagerView {
        ManagerView {
            root_dir: self.root_dir@,
            names: self.config.services.names(),
            configs: Seq::new(self.config.services.names().len(), |i: int| self.config.at(i)@),
            services: self.services@,
            recent_logs: views(self.recent_logs@),
            subscribers: self.subscribers@,
            next_subscriber_id: self.next_subscriber_id,
            shutdown_requested: self.shutdown_requested,
        }
    }
}

/// What a client can have the manager do.
#[derive(Debug)]
pub enum ControlCommand {
    Shutdown,
    AllAction { action: ProcessAction },
    ProcessAction { service: String, action: ProcessAction },
}

/// What a client can have the manager do, as a value.
pub enum ControlCommandView {
    Shutdown,
    AllAction { action: ProcessAction },
    ProcessAction { service: Seq<char>, action: ProcessAction },
}

impl View for ControlCommand {
    type V = ControlCommandView;

    open spec fn view(&self) -> ControlCommandView {
        match *self {
            ControlCommand::Shutdown => ControlCommandView::Shutdown,
            ControlCommand::AllAction { action } => ControlCommandView::AllAction { action },
            ControlCommand::ProcessAction { service, action } => {
                ControlCommandView::ProcessAction { service: service@, action }
            },
        }
    }
}

/// Something that happens to the manager.
#[derive(Debug)]
pub enum ManagerEvent {
    Attach,
    Command(ControlCommand),
    Log { service: String, line: String },
    ShutdownSignal,
}

/// Something that happens to the manager, as a value.
pub enum ManagerEventView {
    Attach,
    Command(ControlCommandView),
    Log { service: Seq<char>, line: Seq<char> },
    ShutdownSignal,
}

impl View for ManagerEvent {
    type V = ManagerEventView;

    open spec fn view(&self) -> ManagerEventView {
        match *self {
            ManagerEvent::Attach => ManagerEventView::Attach,
            ManagerEvent::Command(command) => ManagerEventView::Command(command@),
            ManagerEvent::Log { service, line } => ManagerEventView::Log {
                service: service@,
                line: line@,
            },
            ManagerEvent::ShutdownSignal => ManagerEventView::ShutdownSignal,
        }
    }
}

/// What the manager does about an event: it answers at once, begins a job whose end is the
/// answer, or tells those who are attached.
#[derive(Debug)]
pub enum EventOutcome {
    Subscribed { id: usize, reply: ServerMessage },
    Reply(ServerMessage),
    Begin(Job),
    Broadcast(Vec<ServerMessage>),
}

/// What the manager does about an event, as a value.
pub enum EventOutcomeView {
    Subscribed { id: usize, reply: ServerMessageView },
    Reply(ServerMessageView),
    Begin(Job),
    Broadcast(Seq<ServerMessageView>),
}

impl View for EventOutcome {
    type V = EventOutcomeView;

    open spec fn view(&self) -> EventOutcomeView {
        match *self {
            EventOutcome::Subscribed { id, reply } => EventOutcomeView::Subscribed {
                id,
                reply: reply@,
            },
            EventOutcome::Reply(message) => EventOutcomeView::Reply(message@),
            EventOutcome::Begin(job) => EventOutcomeView::Begin(job),
            EventOutcome::Broadcast(messages) => EventOutcomeView::Broadcast(views(messages@)),
        }
    }
}

/// Where the name stands in the list; nowhere where it does not.
pub open spec fn position_of(names: Seq<Seq<char>>, name: Seq<char>) -> Option<int> {
    if names.contains(name) {
        Some(names.index_of(name))
    } else {
        None
    }
}

/// The last lines, once one more has come.
pub open spec fn logs_with(logs: Seq<LogEntryView>, entry: LogEntryView) -> Seq<LogEntryView> {
    if logs.len() == RECENT_LOG_LIMIT {
        logs.drop_first().push(entry)
    } else {
        logs.push(entry)
    }
}

/// What is said where there is no such service.
pub open spec fn unknown_service(name: Seq<char>) -> Seq<char> {
    "unknown service `"@ + name + "`"@
}

impl ManagerView {
    /// There is a service for each name, each in a state that makes sense; no more lines are kept
    /// than the limit; and no two of those who are attached have the same number.
    pub open spec fn wf(self) -> bool {
        &&& ascending(self.names)
        &&& self.names.len() <= usize::MAX
        &&& self.configs.len() == self.names.len()
        &&& self.services.len() == self.names.len()
        &&& forall|i: int| 0 <= i < self.services.len() ==> (#[trigger] self.services[i]).wf()
        &&& self.recent_logs.len() <= RECENT_LOG_LIMIT
        &&& forall|i: int, j: int|
            0 <= i < j < self.subscribers.len() ==> #[trigger] self.subscribers[i]
                < #[trigger] self.subscribers[j]
        &&& forall|i: int|
            0 <= i < self.subscribers.len() ==> #[trigger] self.subscribers[i]
                <= self.next_subscriber_id
    }

    /// The manager with another service at `i`.
    pub open spec fn with(self, i: int, service: ManagedService) -> ManagerView {
        ManagerView { services: self.services.update(i, service), ..self }
    }

    /// What is told of the service at `i`.
    pub open spec fn snapshot_at(self, i: int) -> SnapshotView {
        self.services[i].snapshot(self.names[i])
    }

    /// The message that tells of the service at `i`.
    pub open spec fn update(self, i: int) -> ServerMessageView {
        ServerMessageView::ServiceUpdate { service: self.snapshot_at(i) }
    }

    /// What one who attaches is told first.
    pub open spec fn snapshot(self) -> ServerMessageView {
        ServerMessageView::Snapshot {
            services: Seq::new(self.services.len(), |i: int| self.snapshot_at(i)),
            recent_logs: self.recent_logs,
            max_name_width: widest(self.names) as usize,
        }
    }

    /// Whether a line of a service tells that it is ready, which was not known before.
    pub open spec fn line_tells_ready(self, i: int, line: Seq<char>) -> bool {
        match self.configs[i].ready_probe_log_line_contains {
            Some(needle) => !self.services[i].ready && contains_text(line, needle),
            None => false,
        }
    }

    /// The manager once a line has come.
    pub open spec fn after_log(self, service: Seq<char>, line: Seq<char>) -> ManagerView {
        let told = match position_of(self.names, service) {
            Some(i) => if self.line_tells_ready(i, line) {
                self.with(i, self.services[i].seen_ready())
            } else {
                self
            },
            None => self,
        };
        ManagerView {
            recent_logs: logs_with(self.recent_logs, LogEntryView { service, line }),
            ..told
        }
    }

    /// What those who are attached are told of a line.
    pub open spec fn log_messages(self, service: Seq<char>, line: Seq<char>) -> Seq<
        ServerMessageView,
    > {
        let own = ServerMessageView::Log { entry: LogEntryView { service, line } };
        match position_of(self.names, service) {
            Some(i) => if self.line_tells_ready(i, line) {
                seq![self.after_log(service, line).update(i), own]
            } else {
                seq![own]
            },
            None => seq![own],
        }
    }

    /// The manager once someone has attached.
    pub open spec fn after_attach(self) -> ManagerView {
        let id = (self.next_subscriber_id + 1) as usize;
        ManagerView {
            subscribers: self.subscribers.push(id),
            next_subscriber_id: id,
            ..self
        }
    }

    /// What becomes of an event.
    pub open spec fn outcome(self, event: ManagerEventView) -> EventOutcomeView {
        match event {
            ManagerEventView::Attach => if self.shutdown_requested {
                EventOutcomeView::Reply(
                    ServerMessageView::Error { message: "pm is shutting down"@ },
                )
            } else {
                EventOutcomeView::Subscribed {
                    id: (self.next_subscriber_id + 1) as usize,
                    reply: self.snapshot(),
                }
            },
            ManagerEventView::Command(ControlCommandView::Shutdown) => EventOutcomeView::Reply(
                ServerMessageView::Ack { message: "pm stopped"@ },
            ),
            ManagerEventView::Command(ControlCommandView::AllAction { action }) => {
                EventOutcomeView::Begin(command_job(action, 0, self.names.len(), true))
            },
            ManagerEventView::Command(ControlCommandView::ProcessAction { service, action }) => {
                match position_of(self.names, service) {
                    Some(i) => EventOutcomeView::Begin(
                        command_job(action, i as nat, (i + 1) as nat, false),
                    ),
                    None => EventOutcomeView::Reply(
                        ServerMessageView::Error { message: unknown_service(service) },
                    ),
                }
            },
            ManagerEventView::Log { service, line } => EventOutcomeView::Broadcast(
                self.log_messages(service, line),
            ),
            ManagerEventView::ShutdownSignal => EventOutcomeView::Broadcast(Seq::empty()),
        }
    }

    /// The manager after an event.
    pub open spec fn after(self, event: ManagerEventView) -> ManagerView {
        match event {
            ManagerEventView::Attach => if self.shutdown_requested {
                self
            } else {
                self.after_attach()
            },
            ManagerEventView::Command(ControlCommandView::Shutdown) => ManagerView {
                shutdown_requested: true,
                ..self
            },
            ManagerEventView::Command(_) => self,
            ManagerEventView::Log { service, line } => self.after_log(service, line),
            ManagerEventView::ShutdownSignal => ManagerView { shutdown_requested: true, ..self },
        }
    }

    /// The services that are asked over HTTP whether they are ready: those that say where and
    /// have a process.
    pub open spec fn is_probe_target(self, i: int) -> bool {
        self.configs[i].ready_probe_http is Some && self.services[i].has_child
    }

    /// The services among the first `k` that are asked over HTTP, each with where to ask.
    pub open spec fn probes_up_to(self, k: nat) -> Seq<(int, Seq<char>)>
        decreases k,
    {
        if k == 0 {
            Seq::empty()
        } else {
            let before = self.probes_up_to((k - 1) as nat);
            if self.is_probe_target(k - 1) {
                before.push((k - 1, self.configs[k - 1].ready_probe_http->0))
            } else {
                before
            }
        }
    }

    /// The services that are asked over HTTP, each with where to ask.
    pub open spec fn probes(self) -> Seq<(int, Seq<char>)> {
        self.probes_up_to(self.services.len())
    }

    /// What to tell those who are attached and the job to do, once the manager is to stop.
    pub open spec fn stopping(self) -> Option<(ServerMessageView, Job)> {
        if self.shutdown_requested {
            Some(
                (
                    ServerMessageView::ManagerStopping,
                    job_of(Plan::ShutDown, 0, self.names.len(), true),
                ),
            )
        } else {
            None
        }
    }

    /// The job that starts the manager.
    pub open spec fn starting(self) -> Job {
        job_of(Plan::Initialize, 0, self.names.len(), true)
    }

    /// The manager once the process of the service at `i` is gone.
    pub open spec fn after_exit(self, i: int, code: Option<i32>) -> ManagerView {
        self.with(i, self.services[i].exited(code, self.services[i].manually_stopped))
    }

    /// What those who are attached are told of what a service uses: the service, where that is
    /// not what was known.
    pub open spec fn use_messages(
        self,
        i: int,
        cpu: CpuPercent,
        cpu_differs: bool,
        memory: u64,
    ) -> Seq<ServerMessageView> {
        if cpu_differs || self.services[i].memory_bytes != memory {
            seq![self.with(i, self.services[i].measured(cpu, cpu_differs, memory)).update(i)]
        } else {
            Seq::empty()
        }
    }

    /// What those who are attached are told when a service changed.
    pub open spec fn change_messages(self, i: int, service: ManagedService) -> Seq<
        ServerMessageView,
    > {
        if self.services[i] == service {
            Seq::empty()
        } else {
            seq![self.with(i, service).update(i)]
        }
    }
}

impl Manager {
    /// The manager and its configuration make sense.
    pub open spec fn wf(&self) -> bool {
        &&& self.config.wf()
        &&& self@.wf()
    }
}

/// Whether the answer to a request tells that a service is ready: that of success, or one that
/// points elsewhere. There is no answer where the request failed.
pub open spec fn answer_is_ready(status: Option<u16>) -> bool {
    match status {
        Some(code) => 200 <= code < 400,
        None => false,
    }
}

proof fn lemma_position(names: Seq<Seq<char>>, i: int)
    requires
        ascending(names),
        0 <= i < names.len(),
    ensures
        position_of(names, names[i]) == Some(i),
{
    let k = names.index_of(names[i]);
    assert(names.contains(names[i]));
    lemma_ascending_distinct(names, i, k);
}

/// Whatever happens, the manager stays sound: each service is ready exactly while it is said to
/// run, no more lines are kept than the limit, and each one who attaches gets a number of their
/// own.
pub proof fn law_events_keep_the_manager_sound(manager: ManagerView, event: ManagerEventView)
    requires
        manager.wf(),
        event is Attach && !manager.shutdown_requested ==> manager.next_subscriber_id < usize::MAX,
    ensures
        manager.after(event).wf(),
{
    match event {
        ManagerEventView::Log { service, line } => {
            let after = manager.after_log(service, line);
            assert forall|i: int| 0 <= i < after.services.len() implies (
            #[trigger] after.services[i]).wf() by {
                assert(manager.services[i].wf());
            }
        },
        _ => {},
    }
}

/// The lines that are kept of all that came.
pub open spec fn logs_of(entries: Seq<LogEntryView>) -> Seq<LogEntryView>
    decreases entries.len(),
{
    if entries.len() == 0 {
        Seq::empty()
    } else {
        logs_with(logs_of(entries.drop_last()), entries.last())
    }
}

/// Of all the lines that came, the last ones are kept, as many as the limit says.
pub proof fn law_the_last_lines_are_kept(entries: Seq<LogEntryView>)
    ensures
        logs_of(entries) == if entries.len() <= RECENT_LOG_LIMIT {
            entries
        } else {
            entries.skip(entries.len() - RECENT_LOG_LIMIT)
        },
    decreases entries.len(),
{
    if entries.len() > 0 {
        let front = entries.drop_last();
        law_the_last_lines_are_kept(front);
        assert(entries =~= front.push(entries.last()));
        if entries.len() > RECENT_LOG_LIMIT {
            let start = entries.len() - RECENT_LOG_LIMIT;
            assert(logs_of(entries) =~= entries.skip(start));
        }
    } else {
        assert(logs_of(entries) =~= entries);
    }
}

/// Once the manager is to stop, it stays so, and nobody can attach any more.
pub proof fn law_shutdown_is_final(manager: ManagerView, event: ManagerEventView)
    requires
        manager.shutdown_requested,
    ensures
        manager.after(event).shutdown_requested,
        manager.outcome(event) !is Subscribed,
        manager.after(event).subscribers == manager.subscribers,
{
}

/// A command to stop the manager and a signal to do so are the same to it; nothing else is.
pub proof fn law_shutdown_is_asked_for(manager: ManagerView, event: ManagerEventView)
    requires
        !manager.shutdown_requested,
    ensures
        manager.after(event).shutdown_requested <==> event is ShutdownSignal || event
            == ManagerEventView::Command(ControlCommandView::Shutdown),
{
}

/// A command for a service that there is not is refused, and changes nothing.
pub proof fn law_unknown_services_are_refused(
    manager: ManagerView,
    service: Seq<char>,
    action: ProcessAction,
)
    requires
        !manager.names.contains(service),
    ensures
        ({
            let event = ManagerEventView::Command(
                ControlCommandView::ProcessAction { service, action },
            );
            &&& manager.outcome(event) == EventOutcomeView::Reply(
                ServerMessageView::Error { message: unknown_service(service) },
            )
            &&& manager.after(event) == manager
        }),
{
}

/// The answers to an event, where `outcomes` came of the effects of the job that it begins, if it
/// begins one.
pub open spec fn answers(manager: ManagerView, event: ManagerEventView, outcomes: Seq<Outcome>) -> Seq<
    ServerMessageView,
> {
    match manager.outcome(event) {
        EventOutcomeView::Subscribed { reply, .. } => seq![reply],
        EventOutcomeView::Reply(reply) => seq![reply],
        EventOutcomeView::Begin(job) => job_answers(job, manager.after(event), outcomes),
        EventOutcomeView::Broadcast(_) => Seq::empty(),
    }
}

/// However the processes behave: a command gets exactly one answer, at once or at the end of the
/// job that it begins, and none before that end. A job that went well is answered with what was
/// done, and one that did not with its outermost error.
pub proof fn law_each_command_is_answered_once(
    manager: ManagerView,
    command: ControlCommandView,
    outcomes: Seq<Outcome>,
)
    requires
        manager.wf(),
        manager.outcome(ManagerEventView::Command(command)) matches EventOutcomeView::Begin(job)
            ==> possible(
            job,
            manager.after(ManagerEventView::Command(command)),
            outcomes,
        ),
    ensures
        ({
            let event = ManagerEventView::Command(command);
            let given = answers(manager, event, outcomes);
            match manager.outcome(event) {
                EventOutcomeView::Reply(reply) => given == seq![reply],
                EventOutcomeView::Begin(job) => match progress(
                    job,
                    manager.after(event),
                    outcomes,
                ).effect {
                    EffectView::Finish(Ok(text)) => given == seq![
                        ServerMessageView::Ack { message: text },
                    ],
                    EffectView::Finish(Err(errors)) => errors.len() > 0 && given == seq![
                        ServerMessageView::Error { message: errors[0] },
                    ],
                    _ => given.len() == 0,
                },
                _ => false,
            }
        }),
{
    let event = ManagerEventView::Command(command);
    let after = manager.after(event);
    if let EventOutcomeView::Begin(job) = manager.outcome(event) {
        lemma_command_job_begins(manager, command);
        law_a_job_is_answered_once(job, after, outcomes);
    }
}

/// The job of a command is one that can begin.
proof fn lemma_command_job_begins(manager: ManagerView, command: ControlCommandView)
    requires
        manager.wf(),
    ensures
        manager.outcome(ManagerEventView::Command(command)) matches EventOutcomeView::Begin(job)
            ==> begins(job, manager),
{
    match command {
        ControlCommandView::AllAction { action } => {
            let job = command_job(action, 0, manager.names.len(), true);
            assert(job_of(job.plan, 0, manager.names.len(), true) == job);
        },
        ControlCommandView::ProcessAction { service, action } => {
            if let Some(i) = position_of(manager.names, service) {
                let job = command_job(action, i as nat, (i + 1) as nat, false);
                assert(job_of(job.plan, i as nat, (i + 1) as nat, false) == job);
            }
        },
        ControlCommandView::Shutdown => {},
    }
}

/// One who attaches gets a number that nobody had before: it is above all that were given, and
/// what was given is never forgotten. Nobody gets one once the manager is to stop.
pub proof fn law_numbers_are_never_given_twice(manager: ManagerView, event: ManagerEventView)
    requires
        manager.wf(),
        event is Attach && !manager.shutdown_requested ==> manager.next_subscriber_id < usize::MAX,
    ensures
        manager.after(event).next_subscriber_id >= manager.next_subscriber_id,
        match manager.outcome(event) {
            EventOutcomeView::Subscribed { id, .. } => {
                &&& event is Attach && !manager.shutdown_requested
                &&& id > manager.next_subscriber_id
                &&& id == manager.after(event).next_subscriber_id
                &&& !manager.subscribers.contains(id)
                &&& manager.after(event).subscribers == manager.subscribers.push(id)
            },
            _ => manager.after(event).subscribers == manager.subscribers,
        },
{
}

/// The last lines of some, at most five hundred and twelve.
pub open spec fn last_lines(entries: Seq<LogEntryView>) -> Seq<LogEntryView> {
    if entries.len() <= 512 {
        entries
    } else {
        entries.skip(entries.len() - 512)
    }
}

/// The manager after some events.
pub open spec fn after_all(manager: ManagerView, events: Seq<ManagerEventView>) -> ManagerView
    decreases events.len(),
{
    if events.len() == 0 {
        manager
    } else {
        after_all(manager, events.drop_last()).after(events.last())
    }
}

/// The lines that came in some events.
pub open spec fn lines_of(events: Seq<ManagerEventView>) -> Seq<LogEntryView>
    decreases events.len(),
{
    if events.len() == 0 {
        Seq::empty()
    } else {
        let before = lines_of(events.drop_last());
        match events.last() {
            ManagerEventView::Log { service, line } => before.push(LogEntryView { service, line }),
            _ => before,
        }
    }
}

/// Whatever happens, the lines that are kept are the last of all that came, from whatever service.
proof fn lemma_kept_lines(manager: ManagerView, events: Seq<ManagerEventView>)
    requires
        manager.recent_logs.len() <= 512,
    ensures
        after_all(manager, events).recent_logs == last_lines(manager.recent_logs + lines_of(events)),
    decreases events.len(),
{
    let all = manager.recent_logs + lines_of(events);
    if events.len() == 0 {
        assert(all =~= manager.recent_logs);
    } else {
        lemma_kept_lines(manager, events.drop_last());
        let before = manager.recent_logs + lines_of(events.drop_last());
        if let ManagerEventView::Log { service, line } = events.last() {
            let entry = LogEntryView { service, line };
            assert(all =~= before.push(entry));
            let kept = after_all(manager, events).recent_logs;
            assert(kept == logs_with(last_lines(before), entry));
            assert(kept =~= last_lines(all));
        }
    }
}

/// One who attaches is told the lines that came last, whatever else happened: of all the lines
/// that came since the manager was started the last five hundred and twelve, in the order in
/// which they came.
pub proof fn law_attached_are_told_the_last_lines(
    manager: ManagerView,
    events: Seq<ManagerEventView>,
)
    requires
        manager.recent_logs.len() == 0,
        !after_all(manager, events).shutdown_requested,
    ensures
        after_all(manager, events).outcome(
            ManagerEventView::Attach,
        ) matches EventOutcomeView::Subscribed { reply, .. }
            && reply matches ServerMessageView::Snapshot { recent_logs, .. } && recent_logs
            == last_lines(lines_of(events)),
{
    lemma_kept_lines(manager, events);
    assert(manager.recent_logs + lines_of(events) =~= lines_of(events));
}

/// The manager of a configuration, before anything was started.
pub open spec fn just_made(
    root_dir: Seq<u8>,
    names: Seq<Seq<char>>,
    configs: Seq<ServiceConfigView>,
) -> ManagerView {
    ManagerView {
        root_dir,
        names,
        configs,
        services: Seq::new(names.len(), |i: int| fresh()),
        recent_logs: Seq::empty(),
        subscribers: Seq::empty(),
        next_subscriber_id: 0,
        shutdown_requested: false,
    }
}

/// A manager that was just made has started nothing: no service has a process or was asked to
/// stop, nobody is attached, no line has come, and it is not to stop. It runs what its
/// configuration says, in the directory that it was given.
pub proof fn law_new_managers_have_started_nothing(
    root_dir: Seq<u8>,
    names: Seq<Seq<char>>,
    configs: Seq<ServiceConfigView>,
    i: int,
)
    requires
        0 <= i < names.len(),
    ensures
        ({
            let manager = just_made(root_dir, names, configs);
            let service = manager.services[i];
            &&& manager.root_dir == root_dir && manager.names == names && manager.configs == configs
            &&& manager.services.len() == names.len()
            &&& !service.has_child && service.pid is None && !service.ready
            &&& service.state == ServiceState::Stopped && !service.manually_stopped
            &&& manager.recent_logs.len() == 0 && manager.subscribers.len() == 0
            &&& !manager.shutdown_requested
            &&& manager.outcome(ManagerEventView::Attach) matches EventOutcomeView::Subscribed {
                id,
                reply,
            }
            &&& id == 1
            &&& reply matches ServerMessageView::Snapshot { services, recent_logs, .. }
            &&& recent_logs.len() == 0 && services.len() == names.len()
            &&& services[i].name == names[i] && services[i].state == ServiceState::Stopped
        }),
{
}

/// One who attaches is told how wide the widest name is: no name is wider, and one is as wide.
pub proof fn law_attached_are_told_the_width(manager: ManagerView)
    requires
        manager.wf(),
        !manager.shutdown_requested,
        forall|i: int| 0 <= i < manager.names.len() ==> byte_len(#[trigger] manager.names[i])
            <= usize::MAX,
    ensures
        manager.outcome(ManagerEventView::Attach) matches EventOutcomeView::Subscribed { reply, .. }
            && reply matches ServerMessageView::Snapshot { max_name_width, .. } && (forall|i: int|
            0 <= i < manager.names.len() ==> byte_len(#[trigger] manager.names[i])
                <= max_name_width) && (manager.names.len() > 0 ==> exists|i: int|
            0 <= i < manager.names.len() && byte_len(#[trigger] manager.names[i])
                == max_name_width),
{
    law_widest_is_the_maximum(manager.names);
}

/// A line makes a service ready exactly where the service wrote it, waits for a text, and the line
/// holds that text; it changes nothing else of the services.
pub proof fn law_lines_tell_who_is_ready(
    manager: ManagerView,
    service: Seq<char>,
    line: Seq<char>,
    i: int,
)
    requires
        manager.wf(),
        0 <= i < manager.services.len(),
    ensures
        ({
            let before = manager.services[i];
            let after = manager.after(ManagerEventView::Log { service, line }).services[i];
            let waits_for = manager.configs[i].ready_probe_log_line_contains;
            let told = manager.names[i] == service && waits_for is Some && exists|k: int|
                0 <= k && k + waits_for->0.len() <= line.len() && #[trigger] line.subrange(
                    k,
                    k + waits_for->0.len(),
                ) == waits_for->0;
            &&& after.ready == (before.ready || told)
            &&& !before.ready && told ==> after.state == ServiceState::Running
            &&& before.ready || !told ==> after == before
            &&& after == (ManagedService { ready: after.ready, state: after.state, ..before })
        }),
{
    lemma_position(manager.names, i);
    if let Some(needle) = manager.configs[i].ready_probe_log_line_contains {
        if exists|k: int|
            0 <= k && k + needle.len() <= line.len() && #[trigger] line.subrange(
                k,
                k + needle.len(),
            ) == needle {
            let k = choose|k: int|
                0 <= k && k + needle.len() <= line.len() && #[trigger] line.subrange(
                    k,
                    k + needle.len(),
                ) == needle;
            assert(occurs_at(line, needle, k));
            assert(contains_text(line, needle));
        }
        if contains_text(line, needle) {
            let k = choose|k: int| occurs_at(line, needle, k);
            assert(line.subrange(k, k + needle.len()) == needle);
        }
    }
    if let Some(k) = position_of(manager.names, service) {
        assert(manager.names[k] == service);
    }
}

/// Those who are attached are told each line as it came, once, after what it tells of the service.
pub proof fn law_lines_are_passed_on(manager: ManagerView, service: Seq<char>, line: Seq<char>)
    ensures
        manager.outcome(
            ManagerEventView::Log { service, line },
        ) matches EventOutcomeView::Broadcast(messages) && 1 <= messages.len() <= 2
            && messages.last() == (ServerMessageView::Log { entry: LogEntryView { service, line } })
            && (messages.len() == 2 ==> messages[0] is ServiceUpdate),
{
}

/// The manager once its services were asked over HTTP, up to the one at `k`; `statuses` are the
/// answers that came.
pub open spec fn refreshed(manager: ManagerView, statuses: Seq<Option<u16>>, k: nat) -> ManagerView
    decreases k,
{
    if k == 0 {
        manager
    } else {
        let before = refreshed(manager, statuses, (k - 1) as nat);
        if manager.is_probe_target(k - 1) {
            before.with(k - 1, before.services[k - 1].probed(answer_is_ready(statuses[k - 1])))
        } else {
            before
        }
    }
}

/// Whatever was known of it before: a service that says where to ask and has a process is as ready
/// as its last answer says, each time that the services are asked. The others are not asked, and
/// stay as they are.
pub proof fn law_services_are_as_ready_as_they_answer(
    manager: ManagerView,
    statuses: Seq<Option<u16>>,
    k: nat,
    i: int,
)
    requires
        0 <= i < manager.services.len(),
        k <= manager.services.len(),
    ensures
        ({
            let before = manager.services[i];
            let after = refreshed(manager, statuses, k).services[i];
            let asked = manager.configs[i].ready_probe_http is Some && before.has_child;
            let well = statuses[i] is Some && 200 <= statuses[i]->0 <= 399;
            &&& refreshed(manager, statuses, k).services.len() == manager.services.len()
            &&& i < k && asked ==> after.ready == well
            &&& i < k && asked && before.ready != well ==> after.state == if well {
                ServiceState::Running
            } else {
                ServiceState::Starting
            }
            &&& i >= k || !asked || before.ready == well ==> after == before
        }),
    decreases k,
{
    if k > 0 {
        law_services_are_as_ready_as_they_answer(manager, statuses, (k - 1) as nat, i);
        let j = k - 1;
        if j != i {
            law_services_are_as_ready_as_they_answer(manager, statuses, (k - 1) as nat, j);
        }
    }
}

/// Each service that says where to ask and has a process is asked there, whatever is known of it,
/// each time and once; no other is asked.
pub proof fn law_all_who_can_be_asked_are_asked(
    manager: ManagerView,
    k: nat,
    i: int,
    url: Seq<char>,
)
    requires
        k <= manager.services.len(),
    ensures
        manager.probes_up_to(k).contains((i, url)) <==> 0 <= i < k && manager.services[i].has_child
            && manager.configs[i].ready_probe_http == Some(url),
        forall|a: int, b: int|
            0 <= a < b < manager.probes_up_to(k).len() ==> #[trigger] manager.probes_up_to(k)[a].0
                < #[trigger] manager.probes_up_to(k)[b].0,
        forall|a: int|
            0 <= a < manager.probes_up_to(k).len() ==> 0 <= #[trigger] manager.probes_up_to(k)[a].0
                < k,
        manager.probes() == manager.probes_up_to(manager.services.len()),
    decreases k,
{
    if k > 0 {
        law_all_who_can_be_asked_are_asked(manager, (k - 1) as nat, i, url);
        let before = manager.probes_up_to((k - 1) as nat);
        let all = manager.probes_up_to(k);
        if before.contains((i, url)) {
            let a = before.index_of((i, url));
            assert(all[a] == (i, url));
        }
        if all.contains((i, url)) {
            let a = all.index_of((i, url));
            if a < before.len() {
                assert(before[a] == (i, url));
            }
        }
        if i == k - 1 && manager.services[i].has_child && manager.configs[i].ready_probe_http
            == Some(url) {
            assert(all[all.len() - 1] == (i, url));
        }
    }
}

/// Those who are attached are told of what a service uses exactly where it is not what was known,
/// and then as it is.
pub proof fn law_changed_use_is_told(
    manager: ManagerView,
    i: int,
    cpu: CpuPercent,
    cpu_differs: bool,
    memory: u64,
)
    requires
        0 <= i < manager.services.len(),
    ensures
        ({
            let messages = manager.use_messages(i, cpu, cpu_differs, memory);
            let before = manager.services[i];
            &&& messages.len() == 0 <==> !cpu_differs && before.memory_bytes == memory
            &&& messages.len() > 0 ==> messages.len() == 1 && (messages[0]
                matches ServerMessageView::ServiceUpdate { service } && service.name
                == manager.names[i] && service.memory_bytes == memory && service.cpu_percent == if cpu_differs {
                cpu
            } else {
                before.cpu_percent
            } && service.pid == before.pid && service.state == before.state && service.ready
                == before.ready)
        }),
{
}

/// Those who are attached are told of an answer exactly where it changes what is known.
pub proof fn law_changed_readiness_is_told(manager: ManagerView, i: int, status: Option<u16>)
    requires
        0 <= i < manager.services.len(),
    ensures
        ({
            let before = manager.services[i];
            let messages = manager.change_messages(i, before.probed(answer_is_ready(status)));
            let well = status is Some && 200 <= status->0 <= 399;
            &&& messages.len() == 0 <==> before.ready == well
            &&& messages.len() > 0 ==> messages.len() == 1 && (messages[0]
                matches ServerMessageView::ServiceUpdate { service } && service.name
                == manager.names[i] && service.ready == well && service.pid == before.pid)
        }),
{
}

/// A process that ends leaves its service without one, stopped where it was asked to stop and
/// ended by itself otherwise, with the code that it left; no other service changes.
pub proof fn law_ended_processes_are_recorded(
    manager: ManagerView,
    i: int,
    code: Option<i32>,
    k: int,
)
    requires
        0 <= i < manager.services.len(),
        0 <= k < manager.services.len(),
    ensures
        ({
            let after = manager.after_exit(i, code).services[k];
            &&& k != i ==> after == manager.services[k]
            &&& k == i ==> {
                &&& !after.has_child && after.pid is None && !after.ready
                &&& after.last_exit_code == code
                &&& after.state == if manager.services[i].manually_stopped {
                    ServiceState::Stopped
                } else {
                    ServiceState::Exited
                }
            }
        }),
{
}

/// A manager stops exactly where it was asked to: those who are attached are told so, and all
/// services are stopped. A manager that is started starts all of them.
pub proof fn law_managers_start_and_stop_all(manager: ManagerView)
    requires
        manager.wf(),
    ensures
        manager.stopping() is Some <==> manager.shutdown_requested,
        manager.stopping() matches Some((message, job)) ==> {
            &&& message is ManagerStopping
            &&& job.plan == Plan::ShutDown && job.all
            &&& job.first == 0 && job.end == manager.names.len() && job.cursor == 0
            &&& job.task == Task::Stop && job.phase == Phase::Fresh && job.fault is None
        },
        ({
            let job = manager.starting();
            &&& job.plan == Plan::Initialize && job.all
            &&& job.first == 0 && job.end == manager.names.len() && job.cursor == 0
            &&& job.task == Task::Start && job.phase == Phase::Fresh && job.fault is None
        }),
{
}

/// However the processes behave: a manager that is asked to stop and ends its job well leaves no
/// service with a process.
pub proof fn law_stopped_managers_leave_nothing_behind(
    manager: ManagerView,
    job: Job,
    outcomes: Seq<Outcome>,
    i: int,
)
    requires
        manager.wf(),
        manager.shutdown_requested,
        manager.stopping() == Some((ServerMessageView::ManagerStopping, job)),
        possible(job, manager, outcomes),
        progress(job, manager, outcomes).effect matches EffectView::Finish(Ok(_)),
        0 <= i < manager.services.len(),
    ensures
        ({
            let service = progress(job, manager, outcomes).manager.services[i];
            !service.has_child && service.state == ServiceState::Stopped && !service.ready
        }),
{
    assert(job_of(job.plan, 0, manager.names.len(), true) == job);
    law_stopped_services_are_at_rest(job, manager, outcomes, i);
}

/// What a client is told at once: that the manager stops, where it asked for that, that it is
/// stopping, where it wants to attach then, and which service there is not.
pub proof fn law_answers_at_once(manager: ManagerView, service: Seq<char>, action: ProcessAction)
    ensures
        manager.outcome(ManagerEventView::Command(ControlCommandView::Shutdown))
            == EventOutcomeView::Reply(ServerMessageView::Ack { message: "pm stopped"@ }),
        manager.shutdown_requested ==> manager.outcome(ManagerEventView::Attach)
            == EventOutcomeView::Reply(
            ServerMessageView::Error { message: "pm is shutting down"@ },
        ),
        !manager.names.contains(service) ==> manager.outcome(
            ManagerEventView::Command(ControlCommandView::ProcessAction { service, action }),
        ) == EventOutcomeView::Reply(
            ServerMessageView::Error { message: "unknown service `"@ + service + "`"@ },
        ),
{
}

/// Those stay attached who could be told, and no others, in the order in which they came.
pub proof fn law_those_who_are_reached_stay(ids: Seq<usize>, flags: Seq<bool>, id: usize)
    requires
        forall|i: int, j: int| 0 <= i < j < ids.len() ==> #[trigger] ids[i] < #[trigger] ids[j],
    ensures
        kept(ids, flags).contains(id) <==> exists|i: int|
            0 <= i < ids.len() && #[trigger] ids[i] == id && flags[i],
        forall|i: int, j: int|
            0 <= i < j < kept(ids, flags).len() ==> #[trigger] kept(ids, flags)[i]
                < #[trigger] kept(ids, flags)[j],
    decreases ids.len(),
{
    lemma_kept(ids, flags);
    if ids.len() > 0 {
        let front = ids.drop_last();
        let part = kept(front, flags);
        let all = kept(ids, flags);
        law_those_who_are_reached_stay(front, flags, id);
        if all.contains(id) {
            let k = all.index_of(id);
            if k < part.len() {
                assert(part[k] == id);
                let i = choose|i: int| 0 <= i < front.len() && #[trigger] front[i] == id && flags[i];
                assert(ids[i] == id);
            } else {
                assert(ids[ids.len() - 1] == id);
            }
        }
        if exists|i: int| 0 <= i < ids.len() && #[trigger] ids[i] == id && flags[i] {
            let i = choose|i: int| 0 <= i < ids.len() && #[trigger] ids[i] == id && flags[i];
            if i < front.len() {
                assert(front[i] == id);
                let k = part.index_of(id);
                assert(all[k] == id);
            } else {
                assert(all[all.len() - 1] == id);
            }
        }
    }
}

/// How often and how long: a process may take three seconds to stop and is looked at ten times in
/// a second meanwhile; else processes are looked at four times in a second; services are measured
/// and asked each second, and have three quarters of a second to answer.
pub proof fn law_times()
    ensures
        STOP_GRACE_PERIOD_MS == 3 * 1000,
        STOP_POLL_INTERVAL_MS * 10 == 1000,
        EXIT_POLL_INTERVAL_MS * 4 == 1000,
        STATUS_REFRESH_INTERVAL_MS == 1000,
        HTTP_PROBE_TIMEOUT_MS * 4 == 3 * 1000,
        RECENT_LOG_LIMIT == 512,
{
}

/// A command begins a job about the services that it names, and about nothing else, to do what it
/// says.
pub proof fn law_commands_begin_their_job(manager: ManagerView, command: ControlCommandView)
    requires
        manager.wf(),
    ensures
        manager.outcome(ManagerEventView::Command(command)) matches EventOutcomeView::Begin(job)
            ==> {
            &&& job.cursor == job.first && job.phase is Fresh
            &&& job.fault is None && job.start_fault is None
            &&& match command {
                ControlCommandView::Shutdown => false,
                ControlCommandView::AllAction { action } => {
                    &&& job.all && job.first == 0 && job.end == manager.names.len()
                    &&& action == ProcessAction::Restart ==> job.plan == Plan::Restart
                    &&& action == ProcessAction::Stop ==> job.plan == Plan::Stop
                    &&& action == ProcessAction::Start ==> job.plan == Plan::Start
                },
                ControlCommandView::ProcessAction { service, action } => {
                    &&& !job.all && job.end == job.first + 1 && job.end <= manager.names.len()
                    &&& manager.names[job.first as int] == service
                    &&& action == ProcessAction::Restart ==> job.plan == Plan::Restart
                    &&& action == ProcessAction::Stop ==> job.plan == Plan::Stop
                    &&& action == ProcessAction::Start ==> job.plan == Plan::Start
                },
            }
        },
        command is AllAction ==> manager.outcome(ManagerEventView::Command(command)) is Begin,
        command matches ControlCommandView::ProcessAction { service, .. } ==> (
        manager.names.contains(service) <==> manager.outcome(
            ManagerEventView::Command(command),
        ) is Begin),
{
}

/// However the processes behave: a command whose answer says that it was done was done. Each
/// service that it is about is stopped and has no process, or has one, or has a new one, as the
/// command says; and each other service is as it was.
pub proof fn law_commands_do_what_they_say(
    manager: ManagerView,
    command: ControlCommandView,
    outcomes: Seq<Outcome>,
    i: int,
)
    requires
        manager.wf(),
        0 <= i < manager.services.len(),
        manager.outcome(ManagerEventView::Command(command)) matches EventOutcomeView::Begin(job)
            && possible(job, manager, outcomes) && (progress(job, manager, outcomes).effect
            matches EffectView::Finish(Ok(_))),
    ensures
        ({
            let job = manager.outcome(ManagerEventView::Command(command))->Begin_0;
            let end = progress(job, manager, outcomes);
            let service = end.manager.services[i];
            let (named, action) = match command {
                ControlCommandView::AllAction { action } => (true, action),
                ControlCommandView::ProcessAction { service, action } => (
                    manager.names[i] == service,
                    action,
                ),
                ControlCommandView::Shutdown => (false, ProcessAction::Stop),
            };
            let whom = match command {
                ControlCommandView::ProcessAction { service, .. } => service,
                _ => "all services"@,
            };
            &&& !named ==> service == manager.services[i]
            &&& named && action == ProcessAction::Stop ==> {
                &&& !service.has_child && !service.ready
                &&& service.state == ServiceState::Stopped && service.manually_stopped
            }
            &&& named && action == ProcessAction::Start ==> service.has_child
            &&& named && action == ProcessAction::Restart ==> {
                &&& service.has_child && !service.manually_stopped
                &&& service.last_exit_code is None
            }
            &&& action == ProcessAction::Stop ==> end.effect == EffectView::Finish(
                Ok("stopped "@ + whom),
            )
            &&& action == ProcessAction::Start ==> end.effect == EffectView::Finish(
                Ok("started "@ + whom),
            )
            &&& action == ProcessAction::Restart ==> end.effect == EffectView::Finish(
                Ok("restarted "@ + whom),
            )
        }),
{
    let job = manager.outcome(ManagerEventView::Command(command))->Begin_0;
    lemma_command_job_begins(manager, command);
    law_commands_begin_their_job(manager, command);
    law_a_job_is_answered_once(job, manager, outcomes);
    if job.first <= i < job.end {
        if job.plan == Plan::Stop {
            law_stopped_services_are_at_rest(job, manager, outcomes, i);
        } else if job.plan == Plan::Start {
            law_started_services_have_a_process(job, manager, outcomes, i);
        } else {
            law_restarted_services_have_a_new_process(job, manager, outcomes, i);
        }
    } else {
        law_other_services_are_left_alone(job, manager, outcomes, i);
    }
    if let ControlCommandView::ProcessAction { service, .. } = command {
        if manager.names[i] == service {
            lemma_ascending_distinct(manager.names, i, job.first as int);
        }
    }
}

/// One who attaches is told what the manager knows of each service, in the order of the names.
pub proof fn law_snapshot_tells_of_each_service(manager: ManagerView, i: int)
    requires
        manager.wf(),
        !manager.shutdown_requested,
        0 <= i < manager.names.len(),
    ensures
        manager.outcome(ManagerEventView::Attach) matches EventOutcomeView::Subscribed { reply, .. }
            && reply matches ServerMessageView::Snapshot { services, .. } && services.len()
            == manager.names.len() && services[i] == manager.services[i].snapshot(manager.names[i]),
{
}

/// `StatusCode::is_success` of the `http` crate, which `reqwest` hands on: a status is one of
/// success where its code is in the two hundreds. There are codes from one hundred to nine
/// hundred ninety-nine; for others there is no status, and the conversion would panic.
#[verifier::external_body]
fn status_is_success(code: u16) -> (r: bool)
    requires
        100 <= code <= 999,
    ensures
        r == (200 <= code < 300),
{
    reqwest::StatusCode::from_u16(code).unwrap().is_success()
}

/// `StatusCode::is_redirection` of the `http` crate, which `reqwest` hands on: a status points
/// elsewhere where its code is in the three hundreds. The codes are those of `status_is_success`.
#[verifier::external_body]
fn status_is_redirection(code: u16) -> (r: bool)
    requires
        100 <= code <= 999,
    ensures
        r == (300 <= code < 400),
{
    reqwest::StatusCode::from_u16(code).unwrap().is_redirection()
}

/// Whether the answer to a request tells that a service is ready; `status` is the code of its
/// status, and missing where the request failed.
pub fn probe_ready(status: Option<u16>) -> (r: bool)
    requires
        status is Some ==> 100 <= status->0 <= 999,
    ensures
        r == answer_is_ready(status),
{
    match status {
        Some(code) => status_is_success(code) || status_is_redirection(code),
        None => false,
    }
}

/// A service to ask over HTTP whether it is ready.
#[derive(Debug)]
pub struct ProbeTarget {
    pub index: usize,
    pub url: String,
}

/// What is said where there is no such service.
fn unknown_service_text(name: &str) -> (r: String)
    ensures
        r@ == unknown_service(name@),
{
    let mut r = "unknown service `".to_owned();
    r.append(name);
    r.append("`");
    r
}

impl Manager {
    /// The manager of a configuration, before anything was started.
    pub fn new(root_dir: Vec<u8>, config: Config) -> (r: Self)
        requires
            config.wf(),
        ensures
            r.wf(),
            r.config == config,
            r.root_dir == root_dir,
            r@.services == Seq::new(r@.names.len(), |i: int| fresh()),
            r@.recent_logs.len() == 0,
            r@.subscribers.len() == 0,
            r.next_subscriber_id == 0,
            !r.shutdown_requested,
            r@ == just_made(
                root_dir@,
                config.services.names(),
                Seq::new(config.services.names().len(), |i: int| config.at(i)@),
            ),
    {
        let services = Self::initialize_services(&config);
        let r = Manager {
            root_dir,
            config,
            services,
            recent_logs: VecDeque::with_capacity(RECENT_LOG_LIMIT),
            subscribers: Vec::new(),
            next_subscriber_id: 0,
            shutdown_requested: false,
        };
        assert(r@.configs.len() == r@.names.len());
        assert(r@ =~= just_made(
            root_dir@,
            config.services.names(),
            Seq::new(config.services.names().len(), |i: int| config.at(i)@),
        ));
        r
    }

    /// The services of a configuration, none of which was started yet.
    pub fn initialize_services(config: &Config) -> (r: Vec<ManagedService>)
        ensures
            r@ == Seq::new(config.services.names().len(), |i: int| fresh()),
    {
        let mut services: Vec<ManagedService> = Vec::new();
        let count = config.services.len();
        for i in 0..count
            invariant
                services@ == Seq::new(i as nat, |i: int| fresh()),
        {
            services.push(ManagedService::new());
            assert(services@ =~= Seq::new((i + 1) as nat, |i: int| fresh()));
        }
        services
    }

    /// The service of that name.
    pub fn find(&self, name: &str) -> (r: Option<usize>)
        requires
            self.wf(),
        ensures
            match r {
                Some(i) => position_of(self@.names, name@) == Some(i as int) && i
                    < self@.services.len(),
                None => position_of(self@.names, name@) is None,
            },
    {
        match self.config.services.index_of(name) {
            Some(i) => {
                proof {
                    lemma_position(self@.names, i as int);
                }
                Some(i)
            },
            None => None,
        }
    }

    /// What is told of the service at `index`.
    pub fn snapshot_for(&self, index: usize) -> (r: ServiceSnapshot)
        requires
            self.wf(),
            index < self@.services.len(),
        ensures
            r@ == self@.snapshot_at(index as int),
    {
        self.services[index].snapshot_for(self.config.services.name_at(index))
    }

    /// The message that tells of the service at `index`.
    pub fn service_update(&self, index: usize) -> (r: ServerMessage)
        requires
            self.wf(),
            index < self@.services.len(),
        ensures
            r@ == self@.update(index as int),
    {
        ServerMessage::ServiceUpdate { service: self.snapshot_for(index) }
    }

    /// What one who attaches is told first.
    pub fn snapshot_message(&self) -> (r: ServerMessage)
        requires
            self.wf(),
        ensures
            r@ == self@.snapshot(),
    {
        let mut services: Vec<ServiceSnapshot> = Vec::new();
        let count = self.services.len();
        let ghost told = Seq::new(self@.services.len(), |i: int| self@.snapshot_at(i));
        for i in 0..count
            invariant
                self.wf(),
                count == self@.services.len(),
                told == Seq::new(self@.services.len(), |i: int| self@.snapshot_at(i)),
                views(services@) == told.take(i as int),
        {
            let snapshot = self.snapshot_for(i);
            proof {
                lemma_views_push(services@, snapshot);
                assert(told.take(i + 1) =~= told.take(i as int).push(snapshot@));
            }
            services.push(snapshot);
        }
        assert(told.take(count as int) =~= told);
        let mut recent_logs: Vec<LogEntry> = Vec::new();
        let log_count = self.recent_logs.len();
        let ghost logs = views(self.recent_logs@);
        for i in 0..log_count
            invariant
                log_count == self.recent_logs@.len(),
                logs == views(self.recent_logs@),
                views(recent_logs@) == logs.take(i as int),
        {
            let entry = self.recent_logs[i].clone();
            proof {
                lemma_views_push(recent_logs@, entry);
                assert(logs.take(i + 1) =~= logs.take(i as int).push(entry@));
            }
            recent_logs.push(entry);
        }
        assert(logs.take(log_count as int) =~= logs);
        ServerMessage::Snapshot {
            services,
            recent_logs,
            max_name_width: self.config.max_name_width(),
        }
    }

    /// Takes in a line of a service: it may tell that the service is ready, it is kept for those
    /// who attach later, and those who are attached are told.
    pub fn handle_log(&mut self, service_name: String, line: String) -> (r: Vec<ServerMessage>)
        requires
            old(self).wf(),
        ensures
            final(self).wf(),
            final(self).config == old(self).config,
            final(self)@ == old(self)@.after_log(service_name@, line@),
            views(r@) == old(self)@.log_messages(service_name@, line@),
    {
        let ghost before = self@;
        let mut messages: Vec<ServerMessage> = Vec::new();
        if let Some(i) = self.find(service_name.as_str()) {
            let tells = match &self.config.services.value_at(i).ready_probe_log_line_contains {
                Some(needle) => !self.services[i].ready && contains_of(
                    line.as_str(),
                    needle.as_str(),
                ),
                None => false,
            };
            assert(before.configs[i as int] == self.config.at(i as int)@);
            assert(tells == before.line_tells_ready(i as int, line@));
            if tells {
                self.services[i].ready = true;
                self.services[i].state = ServiceState::Running;
                assert(self.services@ =~= before.services.update(
                    i as int,
                    before.services[i as int].seen_ready(),
                ));
                assert(self@.configs =~= before.configs);
                assert(self@ =~= before.with(i as int, before.services[i as int].seen_ready()));
                assert forall|k: int| 0 <= k < self@.services.len() implies (
                #[trigger] self@.services[k]).wf() by {
                    assert(before.services[k].wf());
                }
                messages.push(self.service_update(i));
            }
        }
        let ghost told = self@;
        if self.recent_logs.len() == RECENT_LOG_LIMIT {
            let ghost logs = self.recent_logs@;
            let _ = self.recent_logs.pop_front();
            assert(self.recent_logs@ =~= logs.drop_first());
            assert(views(self.recent_logs@) =~= views(logs).drop_first());
        }
        let entry = LogEntry { service: service_name, line };
        proof {
            lemma_views_push(self.recent_logs@, entry);
        }
        self.recent_logs.push_back(entry.clone());
        assert(self@.configs =~= before.configs);
        assert(self@ =~= before.after_log(service_name@, line@));
        messages.push(ServerMessage::Log { entry });
        assert(views(messages@) =~= before.log_messages(service_name@, line@));
        messages
    }

    /// Takes in an event.
    pub fn handle_event(&mut self, event: ManagerEvent) -> (r: EventOutcome)
        requires
            old(self).wf(),
            event is Attach && !old(self).shutdown_requested ==> old(self).next_subscriber_id
                < usize::MAX,
        ensures
            final(self).wf(),
            final(self).config == old(self).config,
            final(self)@ == old(self)@.after(event@),
            r@ == old(self)@.outcome(event@),
    {
        let ghost before = self@;
        proof {
            law_events_keep_the_manager_sound(before, event@);
        }
        match event {
            ManagerEvent::Attach => {
                if self.shutdown_requested {
                    return EventOutcome::Reply(
                        ServerMessage::Error { message: "pm is shutting down".to_owned() },
                    );
                }
                let reply = self.snapshot_message();
                let id = self.next_subscriber_id + 1;
                self.next_subscriber_id = id;
                self.subscribers.push(id);
                assert(self@ =~= before.after_attach());
                EventOutcome::Subscribed { id, reply }
            },
            ManagerEvent::Command(ControlCommand::Shutdown) => {
                self.shutdown_requested = true;
                assert(self@ =~= before.after(event@));
                EventOutcome::Reply(ServerMessage::Ack { message: "pm stopped".to_owned() })
            },
            ManagerEvent::Command(ControlCommand::AllAction { action }) => {
                EventOutcome::Begin(self.handle_all_process_action(action))
            },
            ManagerEvent::Command(ControlCommand::ProcessAction { service, action }) => {
                match self.handle_process_action(service.as_str(), action) {
                    Ok(job) => EventOutcome::Begin(job),
                    Err(message) => EventOutcome::Reply(ServerMessage::Error { message }),
                }
            },
            ManagerEvent::Log { service, line } => {
                EventOutcome::Broadcast(self.handle_log(service, line))
            },
            ManagerEvent::ShutdownSignal => {
                self.shutdown_requested = true;
                assert(self@ =~= before.after(event@));
                let messages: Vec<ServerMessage> = Vec::new();
                assert(views(messages@) =~= Seq::<ServerMessageView>::empty());
                EventOutcome::Broadcast(messages)
            },
        }
    }

    /// The job that does something to all services.
    pub fn handle_all_process_action(&self, action: ProcessAction) -> (r: Job)
        requires
            self.wf(),
        ensures
            r == command_job(action, 0, self@.names.len(), true),
    {
        Job::new(Plan::of(action), 0, self.services.len(), true)
    }

    /// The job that does something to one service, or what is wrong with its name.
    pub fn handle_process_action(&self, service: &str, action: ProcessAction) -> (r: Result<
        Job,
        String,
    >)
        requires
            self.wf(),
        ensures
            match r {
                Ok(job) => position_of(self@.names, service@) is Some && job == command_job(
                    action,
                    position_of(self@.names, service@)->0 as nat,
                    (position_of(self@.names, service@)->0 + 1) as nat,
                    false,
                ),
                Err(message) => position_of(self@.names, service@) is None && message@
                    == unknown_service(service@),
            },
    {
        match self.find(service) {
            Some(i) => Ok(Job::new(Plan::of(action), i, i + 1, false)),
            None => Err(unknown_service_text(service)),
        }
    }

    /// What to tell those who are attached, and the job to do, once the manager is to stop.
    pub fn shutdown_job(&self) -> (r: Option<(ServerMessage, Job)>)
        requires
            self.wf(),
        ensures
            match r {
                Some((message, job)) => self.shutdown_requested && message@
                    == ServerMessageView::ManagerStopping && job == job_of(
                    Plan::ShutDown,
                    0,
                    self@.names.len(),
                    true,
                ),
                None => !self.shutdown_requested,
            },
            match r {
                Some((message, job)) => self@.stopping() == Some((message@, job)),
                None => self@.stopping() is None,
            },
    {
        if self.shutdown_requested {
            Some(
                (
                    ServerMessage::ManagerStopping,
                    Job::new(Plan::ShutDown, 0, self.services.len(), true),
                ),
            )
        } else {
            None
        }
    }

    /// The job that starts the manager: it starts all services, and stops them again where one of
    /// them cannot be started.
    pub fn initialization_job(&self) -> (r: Job)
        requires
            self.wf(),
        ensures
            r == job_of(Plan::Initialize, 0, self@.names.len(), true),
            r == self@.starting(),
    {
        Job::new(Plan::Initialize, 0, self.services.len(), true)
    }

    /// Forgets those who could not be told; `reached` says of each who is attached whether they
    /// could be.
    pub fn retain_subscribers(&mut self, reached: &Vec<bool>)
        requires
            old(self).wf(),
            reached@.len() == old(self)@.subscribers.len(),
        ensures
            final(self).wf(),
            final(self).config == old(self).config,
            final(self)@ == (ManagerView {
                subscribers: kept(old(self)@.subscribers, reached@),
                ..old(self)@
            }),
    {
        let ghost before = self@;
        let ghost all = self.subscribers@;
        let mut subscribers: Vec<usize> = Vec::new();
        let count = self.subscribers.len();
        assert(subscribers@ =~= kept(all.take(0), reached@));
        for i in 0..count
            invariant
                count == all.len(),
                all == self.subscribers@,
                reached@.len() == count,
                subscribers@ == kept(all.take(i as int), reached@),
        {
            assert(all.take(i + 1).drop_last() =~= all.take(i as int));
            if reached[i] {
                subscribers.push(self.subscribers[i]);
            }
        }
        assert(all.take(count as int) =~= all);
        proof {
            lemma_kept(all, reached@);
        }
        self.subscribers = subscribers;
        assert(self@ =~= (ManagerView { subscribers: kept(all, reached@), ..before }));
    }

    /// The services to ask over HTTP whether they are ready, in the order of their names.
    pub fn probe_targets(&self) -> (r: Vec<ProbeTarget>)
        requires
            self.wf(),
        ensures
            forall|k: int|
                0 <= k < r@.len() ==> (#[trigger] r@[k]).index < self@.services.len()
                    && self@.is_probe_target(r@[k].index as int)
                    && self@.configs[r@[k].index as int].ready_probe_http == Some(r@[k].url@),
            forall|k: int, l: int|
                0 <= k < l < r@.len() ==> (#[trigger] r@[k]).index < (#[trigger] r@[l]).index,
            forall|i: int|
                0 <= i < self@.services.len() && #[trigger] self@.is_probe_target(i) ==> exists|
                    k: int,
                | 0 <= k < r@.len() && (#[trigger] r@[k]).index == i,
            r@.map_values(|t: ProbeTarget| (t.index as int, t.url@)) == self@.probes(),
    {
        let mut targets: Vec<ProbeTarget> = Vec::new();
        let count = self.services.len();
        for i in 0..count
            invariant
                self.wf(),
                count == self@.services.len(),
                forall|k: int|
                    0 <= k < targets@.len() ==> (#[trigger] targets@[k]).index < i
                        && self@.is_probe_target(targets@[k].index as int)
                        && self@.configs[targets@[k].index as int].ready_probe_http == Some(
                        targets@[k].url@,
                    ),
                forall|k: int, l: int|
                    0 <= k < l < targets@.len() ==> (#[trigger] targets@[k]).index < (
                    #[trigger] targets@[l]).index,
                forall|j: int|
                    0 <= j < i && #[trigger] self@.is_probe_target(j) ==> exists|k: int|
                        0 <= k < targets@.len() && (#[trigger] targets@[k]).index == j,
                targets@.map_values(|t: ProbeTarget| (t.index as int, t.url@))
                    == self@.probes_up_to(i as nat),
        {
            let ghost before = targets@;
            if let Some(url) = &self.config.services.value_at(i).ready_probe_http {
                if self.services[i].has_child {
                    targets.push(ProbeTarget { index: i, url: url.clone() });
                    assert(targets@[before.len() as int].index == i);
                }
            }
            assert(self@.configs[i as int] == self.config.at(i as int)@);
            assert(targets@.map_values(|t: ProbeTarget| (t.index as int, t.url@))
                =~= self@.probes_up_to((i + 1) as nat));
            assert forall|j: int|
                0 <= j < i + 1 && #[trigger] self@.is_probe_target(j) implies exists|k: int|
                0 <= k < targets@.len() && (#[trigger] targets@[k]).index == j by {
                if j < i {
                    let k = choose|k: int|
                        0 <= k < before.len() && (#[trigger] before[k]).index == j;
                    assert(targets@[k].index == j);
                }
            }
        }
        targets
    }

    /// Puts another service in the place of the one at `index`.
    pub(crate) fn put(&mut self, index: usize, service: ManagedService)
        requires
            old(self).wf(),
            index < old(self)@.services.len(),
            service.wf(),
        ensures
            final(self).wf(),
            final(self).config == old(self).config,
            final(self)@ == old(self)@.with(index as int, service),
    {
        let ghost before = self@;
        self.services[index] = service;
        assert(self@.configs =~= before.configs);
        assert(self@ =~= before.with(index as int, service));
    }

    /// Takes in the answer of a service that was asked whether it is ready.
    pub fn apply_probe(&mut self, index: usize, status: Option<u16>) -> (r: Vec<ServerMessage>)
        requires
            old(self).wf(),
            index < old(self)@.services.len(),
            status is Some ==> 100 <= status->0 <= 999,
        ensures
            final(self).wf(),
            final(self).config == old(self).config,
            final(self)@ == old(self)@.with(
                index as int,
                old(self)@.services[index as int].probed(answer_is_ready(status)),
            ),
            views(r@) == old(self)@.change_messages(
                index as int,
                old(self)@.services[index as int].probed(answer_is_ready(status)),
            ),
    {
        let ready = probe_ready(status);
        let ghost before = self@;
        let mut service = self.services[index];
        let mut messages: Vec<ServerMessage> = Vec::new();
        assert(before.services[index as int].wf());
        if service.ready != ready {
            service.ready = ready;
            service.state = if ready {
                ServiceState::Running
            } else {
                ServiceState::Starting
            };
            self.put(index, service);
            messages.push(self.service_update(index));
        } else {
            assert(before.services.update(index as int, service) =~= before.services);
        }
        assert(views(messages@) =~= before.change_messages(index as int, service));
        messages
    }

    /// The process of the service at `index`, whose use is to be measured.
    pub fn measured_pid(&self, index: usize) -> (r: Option<u32>)
        requires
            index < self@.services.len(),
        ensures
            r == self@.services[index as int].pid,
    {
        self.services[index].pid
    }

    /// Takes in what the processes of a service use; `cpu_differs` says whether the share of the
    /// processor differs enough from the one that is known.
    pub fn apply_metrics(
        &mut self,
        index: usize,
        cpu_percent: CpuPercent,
        cpu_differs: bool,
        memory_bytes: u64,
    ) -> (r: Vec<ServerMessage>)
        requires
            old(self).wf(),
            index < old(self)@.services.len(),
        ensures
            final(self).wf(),
            final(self).config == old(self).config,
            final(self)@ == old(self)@.with(
                index as int,
                old(self)@.services[index as int].measured(cpu_percent, cpu_differs, memory_bytes),
            ),
            views(r@) == if cpu_differs || old(self)@.services[index as int].memory_bytes
                != memory_bytes {
                seq![final(self)@.update(index as int)]
            } else {
                Seq::empty()
            },
            views(r@) == old(self)@.use_messages(
                index as int,
                cpu_percent,
                cpu_differs,
                memory_bytes,
            ),
    {
        let mut service = self.services[index];
        let mut changed = false;
        assert(self@.services[index as int].wf());
        if cpu_differs {
            service.cpu_percent = cpu_percent;
            changed = true;
        }
        if service.memory_bytes != memory_bytes {
            service.memory_bytes = memory_bytes;
            changed = true;
        }
        self.put(index, service);
        let mut messages: Vec<ServerMessage> = Vec::new();
        if changed {
            messages.push(self.service_update(index));
            assert(views(messages@) =~= seq![self@.update(index as int)]);
        } else {
            assert(views(messages@) =~= Seq::<ServerMessageView>::empty());
        }
        messages
    }

    /// Whether the service at `index` has a process, whose end is to be looked for.
    pub fn has_child(&self, index: usize) -> (r: bool)
        requires
            index < self@.services.len(),
        ensures
            r == self@.services[index as int].has_child,
    {
        self.services[index].has_child
    }

    /// Takes in that the process of a service is gone.
    pub fn finalize_exit(&mut self, index: usize, exit_code: Option<i32>) -> (r: ServerMessage)
        requires
            old(self).wf(),
            index < old(self)@.services.len(),
        ensures
            final(self).wf(),
            final(self).config == old(self).config,
            final(self)@ == old(self)@.with(
                index as int,
                old(self)@.services[index as int].exited(
                    exit_code,
                    old(self)@.services[index as int].manually_stopped,
                ),
            ),
            r@ == final(self)@.update(index as int),
            final(self)@ == old(self)@.after_exit(index as int, exit_code),
    {
        let mut service = self.services[index];
        let manual = service.manually_stopped;
        service.finish_exit(exit_code, manual);
        self.put(index, service);
        self.service_update(index)
    }
}

/// What came of removing the socket at the end.
#[derive(Debug, Clone, Copy, PartialEq, Eq, Structural)]
pub enum Cleanup {
    Removed,
    Missing,
    Failed,
}

/// How a manager ends.
#[derive(Debug, Clone, Copy, PartialEq, Eq, Structural)]
pub enum RunEnd {
    Well,
    RunFailed,
    CleanupFailed,
}

/// How a manager ends.
pub open spec fn end_of_run(ran_well: bool, cleanup: Cleanup) -> RunEnd {
    if !ran_well {
        RunEnd::RunFailed
    } else if cleanup == Cleanup::Failed {
        RunEnd::CleanupFailed
    } else {
        RunEnd::Well
    }
}

/// A manager ends well exactly where it ran well and its socket is gone, whoever removed it; what
/// went wrong while it ran is never hidden by a socket that could not be removed.
pub proof fn law_what_went_wrong_first_is_told(ran_well: bool, cleanup: Cleanup)
    ensures
        end_of_run(ran_well, cleanup) == RunEnd::Well <==> ran_well && cleanup != Cleanup::Failed,
        end_of_run(ran_well, cleanup) == RunEnd::RunFailed <==> !ran_well,
{
}

/// How a manager ends: what went wrong before counts more than a socket that could not be
/// removed, and one that is gone already does not count.
pub fn run_end(ran_well: bool, cleanup: Cleanup) -> (r: RunEnd)
    ensures
        r == if !ran_well {
            RunEnd::RunFailed
        } else if cleanup == Cleanup::Failed {
            RunEnd::CleanupFailed
        } else {
            RunEnd::Well
        },
        r == end_of_run(ran_well, cleanup),
{
    if !ran_well {
        RunEnd::RunFailed
    } else if cleanup == Cleanup::Failed {
        RunEnd::CleanupFailed
    } else {
        RunEnd::Well
    }
}

/// Those of a list whose flag is set.
pub open spec fn kept(ids: Seq<usize>, flags: Seq<bool>) -> Seq<usize>
    decreases ids.len(),
{
    if ids.len() == 0 {
        Seq::empty()
    } else if flags[ids.len() - 1] {
        kept(ids.drop_last(), flags).push(ids.last())
    } else {
        kept(ids.drop_last(), flags)
    }
}

proof fn lemma_kept(ids: Seq<usize>, flags: Seq<bool>)
    requires
        forall|i: int, j: int| 0 <= i < j < ids.len() ==> #[trigger] ids[i] < #[trigger] ids[j],
    ensures
        forall|i: int| 0 <= i < kept(ids, flags).len() ==> ids.contains(#[trigger] kept(ids, flags)[i]),
        forall|i: int, j: int|
            0 <= i < j < kept(ids, flags).len() ==> #[trigger] kept(ids, flags)[i]
                < #[trigger] kept(ids, flags)[j],
    decreases ids.len(),
{
    if ids.len() > 0 {
        let front = ids.drop_last();
        let part = kept(front, flags);
        let all = kept(ids, flags);
        lemma_kept(front, flags);
        assert forall|i: int| 0 <= i < all.len() implies ids.contains(#[trigger] all[i]) by {
            if i < part.len() {
                assert(all[i] == part[i]);
                let k = choose|k: int| 0 <= k < front.len() && front[k] == part[i];
                assert(ids[k] == all[i]);
            } else {
                assert(ids[ids.len() - 1] == all[i]);
            }
        }
        assert forall|i: int, j: int| 0 <= i < j < all.len() implies #[trigger] all[i]
            < #[trigger] all[j] by {
            assert(all[i] == part[i]);
            if j < part.len() {
                assert(all[j] == part[j]);
            } else {
                let k = choose|k: int| 0 <= k < front.len() && front[k] == part[i];
                assert(ids[k] < ids[ids.len() - 1]);
            }
        }
    }
}

} // verus!
