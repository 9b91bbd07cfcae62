use pm::attach::commands::{command_request, parse_colon_command};
use pm::attach::session::Session;
use pm::config::{Config, ServiceConfig};
use pm::ipc::{ClientMessage, CpuPercent, ProcessAction, ServerMessage, ServiceState};
use pm::manager::client::{ends_stream, handle_client, log_line, should_stream, ClientPlan};
use pm::manager::job::{reply_of, Effect, Job, Outcome};
use pm::manager::process_tree::{collect_process_tree_metrics, ProcessInfo};
use pm::manager::{
    probe_ready, run_end, Cleanup, ControlCommand, EventOutcome, Manager, ManagerEvent, RunEnd,
    RECENT_LOG_LIMIT,
};
use pm::name_map::NameMap;

fn service() -> ServiceConfig {
    ServiceConfig {
        command: "sleep 30".to_owned(),
        working_dir: None,
        ready_probe_http: None,
        ready_probe_log_line_contains: None,
        env: NameMap::new(),
    }
}

fn manager_with(services: Vec<(&str, ServiceConfig)>) -> Manager {
    let mut map = NameMap::new();
    for (name, config) in services {
        map.insert(name.to_owned(), config);
    }
    Manager::new(b"/project".to_vec(), Config::load(map).unwrap())
}

fn manager() -> Manager {
    manager_with(vec![("api", service()), ("web", service())])
}

/// What happened in a job: its effects, what was told, and how it ended.
struct Run {
    effects: Vec<String>,
    told: Vec<(String, ServiceState)>,
    end: Result<String, Vec<String>>,
}

/// Runs a job against processes whose outcomes are given in order.
fn run(manager: &mut Manager, mut job: Job, outcomes: Vec<Outcome>) -> Run {
    let mut outcomes = outcomes.into_iter();
    let mut outcome = Outcome::Nothing;
    let mut effects = Vec::new();
    let mut told = Vec::new();
    loop {
        assert!(job.is_answer(outcome));
        let step = job.step(manager, outcome);
        for message in step.broadcasts {
            match message {
                ServerMessage::ServiceUpdate { service } => {
                    told.push((service.name, service.state))
                }
                other => panic!("{other:?}"),
            }
        }
        outcome = match step.effect {
            Effect::Nothing => Outcome::Nothing,
            Effect::Spawn { index, .. } => {
                effects.push(format!("spawn {index}"));
                outcomes.next().unwrap()
            }
            Effect::Terminate { index, pid } => {
                effects.push(format!("terminate {index} {pid:?}"));
                outcomes.next().unwrap()
            }
            Effect::Poll { index } => {
                effects.push(format!("poll {index}"));
                outcomes.next().unwrap()
            }
            Effect::Kill { index, pid } => {
                effects.push(format!("kill {index} {pid:?}"));
                outcomes.next().unwrap()
            }
            Effect::Finish(end) => {
                assert!(outcomes.next().is_none());
                return Run { effects, told, end };
            }
        };
    }
}

fn command(manager: &mut Manager, service: Option<&str>, action: ProcessAction) -> Job {
    let command = match service {
        Some(name) => ControlCommand::ProcessAction { service: name.to_owned(), action },
        None => ControlCommand::AllAction { action },
    };
    match manager.handle_event(ManagerEvent::Command(command)) {
        EventOutcome::Begin(job) => job,
        other => panic!("{other:?}"),
    }
}

fn started() -> Manager {
    let mut manager = manager();
    let job = command(&mut manager, None, ProcessAction::Start);
    let run = run(
        &mut manager,
        job,
        vec![Outcome::Spawned(Some(10)), Outcome::Spawned(Some(20))],
    );
    assert_eq!(run.end, Ok("started all services".to_owned()));
    manager
}

#[test]
fn failed_initialization_stops_services_that_already_started() {
    let mut web = service();
    web.working_dir = Some("missing-dir".to_owned());
    let mut manager = manager_with(vec![("api", service()), ("web", web)]);
    let job = manager.initialization_job();
    let run = run(
        &mut manager,
        job,
        vec![Outcome::Spawned(Some(10)), Outcome::Failed, Outcome::Exited(None)],
    );

    let error = run.end.unwrap_err();
    assert!(error[0].contains("failed to start service `web`"));
    assert_eq!(run.effects, vec!["spawn 0", "spawn 1", "terminate 0 Some(10)"]);
    let api = manager.find("api").unwrap();
    let web = manager.find("web").unwrap();
    assert!(!manager.services[api].has_child);
    assert!(manager.services[api].pid.is_none());
    assert_eq!(manager.services[api].state, ServiceState::Stopped);
    assert!(!manager.services[web].has_child);
}

#[test]
fn a_failed_cleanup_is_told_too() {
    let mut manager = manager();
    let job = manager.initialization_job();
    let run = run(
        &mut manager,
        job,
        vec![Outcome::Spawned(Some(10)), Outcome::Failed, Outcome::Failed],
    );
    assert_eq!(
        run.end,
        Err(vec![
            "manager initialization cleanup failed: failed to stop service `api`".to_owned(),
            "failed to start service `web`".to_owned(),
        ])
    );
}

#[test]
fn initialization_starts_all_services() {
    let mut manager = manager();
    let job = manager.initialization_job();
    let run =
        run(&mut manager, job, vec![Outcome::Spawned(Some(1)), Outcome::Spawned(Some(2))]);
    assert!(run.end.is_ok());
    assert!(manager.has_child(0) && manager.has_child(1));
}

#[test]
fn starts_a_service() {
    let mut config = service();
    config.working_dir = Some("web".to_owned());
    config.env.insert("PORT".to_owned(), "1".to_owned());
    config.env.insert("HOST".to_owned(), "h".to_owned());
    let mut manager = manager_with(vec![("web", config)]);
    let mut job = command(&mut manager, Some("web"), ProcessAction::Start);
    let step = job.step(&mut manager, Outcome::Nothing);
    match step.effect {
        Effect::Spawn { index, launch } => {
            assert_eq!(index, 0);
            assert_eq!(launch.program, "sh");
            assert_eq!(launch.arguments, vec!["-lc", "sleep 30"]);
            assert_eq!(launch.working_dir, b"/project/web");
            assert_eq!(
                launch.env,
                vec![
                    ("HOST".to_owned(), "h".to_owned()),
                    ("PORT".to_owned(), "1".to_owned()),
                ]
            );
        }
        other => panic!("{other:?}"),
    }
    let step = job.step(&mut manager, Outcome::Spawned(Some(7)));
    assert_eq!(step.broadcasts.len(), 1);
    assert_eq!(manager.services[0].pid, Some(7));
    assert_eq!(manager.services[0].state, ServiceState::Running);
    assert!(manager.services[0].ready);
    match job.step(&mut manager, Outcome::Nothing).effect {
        Effect::Finish(end) => assert_eq!(end, Ok("started web".to_owned())),
        other => panic!("{other:?}"),
    }
}

#[test]
fn starting_twice_changes_nothing() {
    let mut manager = started();
    let job = command(&mut manager, Some("api"), ProcessAction::Start);
    let run = run(&mut manager, job, vec![]);
    assert_eq!(run.end, Ok("started api".to_owned()));
    assert!(run.effects.is_empty() && run.told.is_empty());
    assert_eq!(manager.services[0].pid, Some(10));
}

#[test]
fn a_failed_start_ends_the_turn() {
    let mut manager = manager();
    let job = command(&mut manager, None, ProcessAction::Start);
    let run = run(&mut manager, job, vec![Outcome::Failed]);
    assert_eq!(run.end, Err(vec!["failed to start service `api`".to_owned()]));
    assert_eq!(run.effects, vec!["spawn 0"]);
    assert!(!manager.has_child(0) && !manager.has_child(1));
}

#[test]
fn stops_a_service_gently() {
    let mut manager = started();
    let job = command(&mut manager, Some("web"), ProcessAction::Stop);
    let run = run(
        &mut manager,
        job,
        vec![
            Outcome::Running { late: false },
            Outcome::Running { late: false },
            Outcome::Exited(Some(0)),
        ],
    );
    assert_eq!(run.end, Ok("stopped web".to_owned()));
    assert_eq!(run.effects, vec!["terminate 1 Some(20)", "poll 1", "poll 1"]);
    let stopped = ("web".to_owned(), ServiceState::Stopped);
    assert_eq!(run.told, vec![stopped.clone(), stopped]);
    assert!(!manager.has_child(1));
    assert!(manager.services[1].manually_stopped);
    assert_eq!(manager.services[1].last_exit_code, Some(0));
    assert!(manager.has_child(0));
}

#[test]
fn kills_a_service_that_does_not_stop() {
    let mut manager = started();
    let job = command(&mut manager, Some("api"), ProcessAction::Stop);
    let run =
        run(&mut manager, job, vec![Outcome::Running { late: true }, Outcome::Exited(None)]);
    assert_eq!(run.end, Ok("stopped api".to_owned()));
    assert_eq!(run.effects, vec!["terminate 0 Some(10)", "kill 0 Some(10)"]);
    assert_eq!(run.told, vec![("api".to_owned(), ServiceState::Stopped)]);
    assert_eq!(manager.services[0].pid, None);
}

#[test]
fn stopping_a_stopped_service_says_so() {
    let mut manager = manager();
    let job = command(&mut manager, Some("api"), ProcessAction::Stop);
    let run = run(&mut manager, job, vec![]);
    assert_eq!(run.end, Ok("stopped api".to_owned()));
    assert!(run.effects.is_empty());
    assert_eq!(run.told, vec![("api".to_owned(), ServiceState::Stopped)]);
    assert!(manager.services[0].manually_stopped);
}

#[test]
fn stopping_all_goes_on_after_an_error() {
    let mut manager = started();
    let job = command(&mut manager, None, ProcessAction::Stop);
    let run = run(&mut manager, job, vec![Outcome::Failed, Outcome::Exited(Some(0))]);
    assert_eq!(
        run.end,
        Err(vec![
            "failed to stop service `api`".to_owned(),
            "failed to poll `api`".to_owned(),
        ])
    );
    assert_eq!(run.effects, vec!["terminate 0 Some(10)", "terminate 1 Some(20)"]);
    assert!(manager.has_child(0) && !manager.has_child(1));
}

#[test]
fn a_lost_child_is_told() {
    let mut manager = started();
    let job = command(&mut manager, Some("api"), ProcessAction::Stop);
    let run = run(&mut manager, job, vec![Outcome::Running { late: true }, Outcome::Failed]);
    assert_eq!(run.end, Err(vec!["failed to wait on child process".to_owned()]));
    assert!(!manager.has_child(0));
}

#[test]
fn restarts_services() {
    let mut manager = started();
    let job = command(&mut manager, Some("api"), ProcessAction::Restart);
    let one = run(&mut manager, job, vec![Outcome::Exited(Some(1)), Outcome::Spawned(Some(11))]);
    assert_eq!(one.end, Ok("restarted api".to_owned()));
    assert_eq!(one.effects, vec!["terminate 0 Some(10)", "spawn 0"]);
    assert_eq!(manager.services[0].pid, Some(11));
    assert_eq!(manager.services[0].last_exit_code, None);
    let job = command(&mut manager, None, ProcessAction::Restart);
    let all = run(
        &mut manager,
        job,
        vec![
            Outcome::Exited(Some(1)),
            Outcome::Exited(Some(1)),
            Outcome::Spawned(Some(12)),
            Outcome::Spawned(Some(22)),
        ],
    );
    assert_eq!(all.end, Ok("restarted all services".to_owned()));
    let job = command(&mut manager, None, ProcessAction::Stop);
    let stopped =
        run(&mut manager, job, vec![Outcome::Exited(Some(1)), Outcome::Exited(Some(1))]);
    assert_eq!(stopped.end, Ok("stopped all services".to_owned()));
}

#[test]
fn the_end_of_a_job_is_the_answer() {
    let mut manager = started();
    let job = command(&mut manager, Some("api"), ProcessAction::Restart);
    let well = run(&mut manager, job, vec![Outcome::Exited(None), Outcome::Spawned(Some(11))]);
    match reply_of(well.end) {
        ServerMessage::Ack { message } => assert_eq!(message, "restarted api"),
        other => panic!("{other:?}"),
    }
    let job = command(&mut manager, None, ProcessAction::Stop);
    let badly = run(&mut manager, job, vec![Outcome::Exited(None), Outcome::Failed]);
    match reply_of(badly.end) {
        ServerMessage::Error { message } => assert_eq!(message, "failed to stop service `web`"),
        other => panic!("{other:?}"),
    }
    let job = command(&mut manager, Some("api"), ProcessAction::Start);
    let badly = run(&mut manager, job, vec![Outcome::Failed]);
    match reply_of(badly.end) {
        ServerMessage::Error { message } => assert_eq!(message, "failed to start service `api`"),
        other => panic!("{other:?}"),
    }
}

#[test]
fn refuses_unknown_services() {
    let mut manager = manager();
    for action in [ProcessAction::Restart, ProcessAction::Stop, ProcessAction::Start] {
        let command = ControlCommand::ProcessAction { service: "db".to_owned(), action };
        match manager.handle_event(ManagerEvent::Command(command)) {
            EventOutcome::Reply(ServerMessage::Error { message }) => {
                assert_eq!(message, "unknown service `db`")
            }
            other => panic!("{other:?}"),
        }
    }
}

#[test]
fn shuts_down() {
    for event in [
        ManagerEvent::Command(ControlCommand::Shutdown),
        ManagerEvent::ShutdownSignal,
    ] {
        let mut manager = started();
        assert!(manager.shutdown_job().is_none());
        match manager.handle_event(event) {
            EventOutcome::Reply(ServerMessage::Ack { message }) => {
                assert_eq!(message, "pm stopped")
            }
            EventOutcome::Broadcast(messages) => assert!(messages.is_empty()),
            other => panic!("{other:?}"),
        }
        match manager.handle_event(ManagerEvent::Attach) {
            EventOutcome::Reply(ServerMessage::Error { message }) => {
                assert_eq!(message, "pm is shutting down")
            }
            other => panic!("{other:?}"),
        }
        let (message, job) = manager.shutdown_job().unwrap();
        assert!(ends_stream(&message));
        let run = run(&mut manager, job, vec![Outcome::Exited(None), Outcome::Exited(None)]);
        assert!(run.end.is_ok());
        assert!(!manager.has_child(0) && !manager.has_child(1));
    }
}

#[test]
fn one_who_attaches_gets_a_snapshot() {
    let mut manager = started();
    for expected in 1..=2usize {
        match manager.handle_event(ManagerEvent::Attach) {
            EventOutcome::Subscribed { id, reply } => {
                assert_eq!(id, expected);
                assert!(should_stream(&reply));
                match reply {
                    ServerMessage::Snapshot { services, recent_logs, max_name_width } => {
                        assert_eq!(services[0].name, "api");
                        assert_eq!(services[1].pid, Some(20));
                        assert!(recent_logs.is_empty());
                        assert_eq!(max_name_width, 3);
                    }
                    other => panic!("{other:?}"),
                }
            }
            other => panic!("{other:?}"),
        }
    }
    assert_eq!(manager.subscribers, vec![1, 2]);
    manager.retain_subscribers(&vec![false, true]);
    assert_eq!(manager.subscribers, vec![2]);
}

fn logged(manager: &mut Manager, service: &str, line: &str) -> Vec<ServerMessage> {
    let event = ManagerEvent::Log { service: service.to_owned(), line: line.to_owned() };
    match manager.handle_event(event) {
        EventOutcome::Broadcast(messages) => messages,
        other => panic!("{other:?}"),
    }
}

#[test]
fn a_line_tells_that_a_service_is_ready() {
    let mut config = service();
    config.ready_probe_log_line_contains = Some("ready to accept".to_owned());
    let mut manager = manager_with(vec![("db", config)]);
    let job = command(&mut manager, Some("db"), ProcessAction::Start);
    run(&mut manager, job, vec![Outcome::Spawned(Some(5))]);
    assert_eq!(manager.services[0].state, ServiceState::Starting);
    assert_eq!(logged(&mut manager, "db", "booting").len(), 1);
    assert!(!manager.services[0].ready);
    let messages = logged(&mut manager, "db", "now ready to accept connections");
    assert!(matches!(&messages[0], ServerMessage::ServiceUpdate { service } if service.ready));
    assert!(matches!(&messages[1], ServerMessage::Log { entry } if entry.service == "db"));
    assert_eq!(manager.services[0].state, ServiceState::Running);
    assert_eq!(logged(&mut manager, "db", "ready to accept").len(), 1);
    assert_eq!(logged(&mut manager, "other", "ready to accept").len(), 1);
}

#[test]
fn keeps_the_latest_lines() {
    let mut manager = manager();
    for i in 0..RECENT_LOG_LIMIT + 3 {
        logged(&mut manager, "api", &i.to_string());
    }
    assert_eq!(manager.recent_logs.len(), RECENT_LOG_LIMIT);
    assert_eq!(manager.recent_logs[0].line, "3");
    assert_eq!(manager.recent_logs[RECENT_LOG_LIMIT - 1].line, (RECENT_LOG_LIMIT + 2).to_string());
}

#[test]
fn asks_services_whether_they_are_ready() {
    let mut config = service();
    config.ready_probe_http = Some("http://localhost:1".to_owned());
    let mut manager = manager_with(vec![("api", service()), ("web", config)]);
    assert!(manager.probe_targets().is_empty());
    let job = command(&mut manager, None, ProcessAction::Start);
    run(&mut manager, job, vec![Outcome::Spawned(Some(1)), Outcome::Spawned(Some(2))]);
    let targets = manager.probe_targets();
    assert_eq!(targets.len(), 1);
    assert_eq!(targets[0].index, 1);
    assert_eq!(targets[0].url, "http://localhost:1");
    assert_eq!(manager.services[1].state, ServiceState::Starting);
    assert!(manager.apply_probe(1, None).is_empty());
    assert_eq!(manager.apply_probe(1, Some(204)).len(), 1);
    assert_eq!(manager.services[1].state, ServiceState::Running);
    assert!(manager.apply_probe(1, Some(302)).is_empty());
    assert_eq!(manager.apply_probe(1, Some(500)).len(), 1);
    assert_eq!(manager.services[1].state, ServiceState::Starting);
    assert!(!manager.services[1].ready);
}

#[test]
fn answers_of_success_and_redirection_mean_ready() {
    for code in 100..=999u16 {
        let status = reqwest::StatusCode::from_u16(code).unwrap();
        assert_eq!(probe_ready(Some(code)), status.is_success() || status.is_redirection());
    }
    assert!(probe_ready(Some(200)) && probe_ready(Some(399)));
    assert!(!probe_ready(Some(199)) && !probe_ready(Some(400)) && !probe_ready(None));
}

#[test]
fn measures_services() {
    let mut manager = started();
    assert_eq!(manager.measured_pid(0), Some(10));
    let cpu = CpuPercent { bits: 12.5f32.to_bits() };
    assert_eq!(manager.apply_metrics(0, cpu, true, 100).len(), 1);
    assert_eq!(manager.services[0].cpu_percent, cpu);
    assert_eq!(manager.services[0].memory_bytes, 100);
    let other = CpuPercent { bits: 12.6f32.to_bits() };
    assert!(manager.apply_metrics(0, other, false, 100).is_empty());
    assert_eq!(manager.services[0].cpu_percent, cpu);
    assert_eq!(manager.apply_metrics(0, other, false, 101).len(), 1);
    assert_eq!(manager.services[0].memory_bytes, 101);
}

#[test]
fn a_process_that_ends_by_itself_has_exited() {
    let mut manager = started();
    match manager.finalize_exit(0, Some(3)) {
        ServerMessage::ServiceUpdate { service } => {
            assert_eq!(service.state, ServiceState::Exited);
            assert_eq!(service.last_exit_code, Some(3));
        }
        other => panic!("{other:?}"),
    }
    assert!(!manager.has_child(0) && manager.has_child(1));
}

#[test]
fn those_who_are_attached_know_what_the_manager_knows() {
    let mut manager = started();
    let mut session = match manager.handle_event(ManagerEvent::Attach) {
        EventOutcome::Subscribed { reply, .. } => Session::open(Some(reply)).unwrap().session,
        other => panic!("{other:?}"),
    };
    let mut job = command(&mut manager, None, ProcessAction::Restart);
    let mut outcome = Outcome::Nothing;
    let mut pid = 100;
    loop {
        let step = job.step(&mut manager, outcome);
        for message in step.broadcasts {
            session.handle_message(Some(message));
        }
        for i in 0..manager.services.len() {
            let told = session.services.value_at(i);
            let known = manager.snapshot_for(i);
            assert_eq!(format!("{told:?}"), format!("{known:?}"));
        }
        outcome = match step.effect {
            Effect::Nothing => Outcome::Nothing,
            Effect::Terminate { .. } => Outcome::Running { late: true },
            Effect::Kill { .. } => Outcome::Exited(Some(9)),
            Effect::Spawn { .. } => {
                pid += 1;
                Outcome::Spawned(Some(pid))
            }
            Effect::Poll { .. } => unreachable!(),
            Effect::Finish(_) => break,
        };
    }
    session.handle_message(Some(manager.finalize_exit(1, None)));
    assert_eq!(session.services.get("web").unwrap().state, ServiceState::Exited);
}

#[test]
fn commands_that_the_terminal_takes_are_begun() {
    let mut manager = started();
    let session = match manager.handle_event(ManagerEvent::Attach) {
        EventOutcome::Subscribed { reply, .. } => Session::open(Some(reply)).unwrap().session,
        other => panic!("{other:?}"),
    };
    for input in [":ra", ":stop-all", ":start-all", ":r w", ":stop api", ":start a"] {
        let command = parse_colon_command(input, &session.names).unwrap();
        match handle_client(Some(command_request(command))) {
            ClientPlan::Command(command) => assert!(matches!(
                manager.handle_event(ManagerEvent::Command(command)),
                EventOutcome::Begin(_)
            )),
            other => panic!("{other:?}"),
        }
    }
}

#[test]
fn plans_for_clients() {
    assert!(matches!(handle_client(None), ClientPlan::Leave));
    assert!(matches!(handle_client(Some(ClientMessage::Attach)), ClientPlan::Attach));
    assert!(matches!(
        handle_client(Some(ClientMessage::Ping)),
        ClientPlan::Answer(ServerMessage::Ready)
    ));
    assert!(matches!(
        handle_client(Some(ClientMessage::Shutdown)),
        ClientPlan::Command(ControlCommand::Shutdown)
    ));
    assert!(matches!(
        handle_client(Some(ClientMessage::AllAction { action: ProcessAction::Stop })),
        ClientPlan::Command(ControlCommand::AllAction { action: ProcessAction::Stop })
    ));
    let message =
        ClientMessage::ProcessAction { service: "web".to_owned(), action: ProcessAction::Start };
    assert!(matches!(
        handle_client(Some(message)),
        ClientPlan::Command(ControlCommand::ProcessAction { service, .. }) if service == "web"
    ));
    assert!(!should_stream(&ServerMessage::Ready));
    assert!(!ends_stream(&ServerMessage::Ready));
}

#[test]
fn lines_lose_their_carriage_returns() {
    for line in ["", "a", "a\r", "a\r\r", "\r", "a\rb", "a \r"] {
        assert_eq!(log_line(line), line.trim_end_matches('\r'));
    }
}

fn process(pid: u32, parent: Option<u32>, memory: u64) -> ProcessInfo {
    ProcessInfo { pid, parent, memory }
}

#[test]
fn collects_the_processes_of_a_service() {
    let table = vec![
        process(1, None, 1),
        process(10, Some(1), 10),
        process(11, Some(10), 100),
        process(12, Some(11), 1000),
        process(13, Some(10), 10000),
        process(20, Some(1), 5),
    ];
    let (mut pids, memory) = collect_process_tree_metrics(&table, 10);
    pids.sort();
    assert_eq!(pids, vec![10, 11, 12, 13]);
    assert_eq!(memory, Some(11110));
    let (pids, memory) = collect_process_tree_metrics(&table, 99);
    assert_eq!(pids, vec![99]);
    assert_eq!(memory, Some(0));
}

#[test]
fn a_circle_of_processes_is_walked_once() {
    let table = vec![process(1, Some(2), 1), process(2, Some(1), 2), process(3, Some(3), 4)];
    let (mut pids, memory) = collect_process_tree_metrics(&table, 1);
    pids.sort();
    assert_eq!(pids, vec![1, 2]);
    assert_eq!(memory, Some(3));
    assert_eq!(collect_process_tree_metrics(&table, 3), (vec![3], Some(4)));
    let huge = vec![process(1, None, u64::MAX), process(2, Some(1), 1)];
    assert_eq!(collect_process_tree_metrics(&huge, 1).1, None);
}

#[test]
fn a_manager_ends() {
    assert_eq!(run_end(true, Cleanup::Removed), RunEnd::Well);
    assert_eq!(run_end(true, Cleanup::Missing), RunEnd::Well);
    assert_eq!(run_end(true, Cleanup::Failed), RunEnd::CleanupFailed);
    assert_eq!(run_end(false, Cleanup::Failed), RunEnd::RunFailed);
}
