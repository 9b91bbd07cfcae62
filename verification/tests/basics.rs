use std::collections::BTreeMap;
use std::path::{Path, PathBuf};

use pm::config::{has_readiness_probe, Config, ConfigError, ServiceConfig};
use pm::ipc::{
    read_message, write_message, ClientMessage, CpuPercent, LogEntry, ProcessAction, ServerMessage,
};
use pm::name_map::NameMap;
use pm::numbers::{decimal_of, format_memory, integer_text_of, right_align};
use pm::paths::{
    is_absolute, join, manager_arguments, resolve_config_path, resolve_runtime_paths, service_dir,
};
use pm::replies::{acknowledged, ready, unexpected_text, Awaited, ReplyError};
use pm::startup::{
    manager_exit_message, removal_move, startup_move, startup_stage_after, up_move, Cause,
    ManagerPoll, ReadyAnswer, RemovalMove, StartupMove, StartupStage, UpMove,
};
use pm::text::{
    contains_of, is_blank, is_white_space, is_word_char, starts_with, trim_end_of, trim_of, words_of,
};

fn service(command: &str) -> ServiceConfig {
    ServiceConfig {
        command: command.to_owned(),
        working_dir: None,
        ready_probe_http: None,
        ready_probe_log_line_contains: None,
        env: NameMap::new(),
    }
}

fn one_service(name: &str, service: ServiceConfig) -> NameMap<ServiceConfig> {
    let mut services = NameMap::new();
    services.insert(name.to_owned(), service);
    services
}

#[test]
fn white_space_is_that_of_unicode() {
    for c in '\0'..=char::MAX {
        assert_eq!(is_white_space(c), c.is_whitespace(), "{c:?}");
    }
}

#[test]
fn word_characters_are_those_of_unicode() {
    for c in '\0'..=char::MAX {
        assert_eq!(is_word_char(c), c.is_alphanumeric(), "{c:?}");
    }
    assert!(is_word_char('\u{e9}'));
    assert!(!is_word_char('\u{2014}'));
}

#[test]
fn texts_are_cut_like_those_of_the_standard_library() {
    for text in ["", " ", "a", " a b\t", "\u{a0}x\u{3000}", "\u{e9} \u{e9}  z", "\u{feff}q"] {
        assert_eq!(trim_of(text), text.trim());
        assert_eq!(trim_end_of(text), text.trim_end());
        assert_eq!(words_of(text), text.split_whitespace().collect::<Vec<_>>());
        assert_eq!(is_blank(text), text.trim().is_empty());
        for needle in ["", "a", "\u{e9}", " z", "b\t"] {
            assert_eq!(contains_of(text, needle), text.contains(needle));
            assert_eq!(starts_with(text, needle), text.starts_with(needle));
        }
    }
}

#[test]
fn name_maps_are_ordered_like_tree_maps() {
    let mut ours: NameMap<usize> = NameMap::new();
    let mut theirs: BTreeMap<String, usize> = BTreeMap::new();
    let names = ["b", "a", "\u{e9}", "ab", "", "a", "\u{10000}", "\u{ffff}", "B", "b"];
    for (i, name) in names.iter().enumerate() {
        ours.insert((*name).to_owned(), i);
        theirs.insert((*name).to_owned(), i);
    }
    assert_eq!(ours.len(), theirs.len());
    for (i, (name, value)) in theirs.iter().enumerate() {
        assert_eq!(ours.name_at(i), name);
        assert_eq!(ours.value_at(i), value);
        assert_eq!(ours.get(name), Some(value));
        assert_eq!(ours.index_of(name), Some(i));
    }
    assert_eq!(ours.get("c"), None);
    assert_eq!(ours.index_of("c"), None);
}

#[test]
fn numbers_read_as_in_the_standard_library() {
    for n in [0u128, 7, 10, 99, 1000, u128::MAX] {
        assert_eq!(decimal_of(n), n.to_string());
    }
    for n in [0i64, -1, 42, i64::MAX, i64::MIN] {
        assert_eq!(integer_text_of(n), n.to_string());
    }
    assert_eq!(right_align("7.5", 5), "  7.5");
    assert_eq!(right_align("1234.5", 5), "1234.5");
}

fn float_memory(bytes: u64) -> String {
    let value = bytes as f64;
    if value >= 1024.0 * 1024.0 * 1024.0 {
        format!("{:.1} GiB", value / (1024.0 * 1024.0 * 1024.0))
    } else if value >= 1024.0 * 1024.0 {
        format!("{:.1} MiB", value / (1024.0 * 1024.0))
    } else if value >= 1024.0 {
        format!("{:.1} KiB", value / 1024.0)
    } else {
        format!("{value:.0} B")
    }
}

#[test]
fn sizes_read_as_with_floating_point() {
    let mut sizes = vec![0u64, 1, 1023, 1024, 1075, 1076, 1077, 1536, u64::MAX, u64::MAX - 1];
    for shift in 0..64 {
        let power = 1u64 << shift;
        sizes.extend([power - 1, power, power + 1, power / 3 * 2, power / 20 * 21]);
    }
    let mut state = 88172645463325252u64;
    for _ in 0..20000 {
        state ^= state << 13;
        state ^= state >> 7;
        state ^= state << 17;
        sizes.push(state >> (state % 64));
    }
    for size in sizes {
        assert_eq!(format_memory(size), float_memory(size), "{size}");
    }
    assert_eq!(format_memory(1536), "1.5 KiB");
    assert_eq!(format_memory(5 * 1024 * 1024 * 1024), "5.0 GiB");
}

#[test]
fn shares_read_as_with_floating_point() {
    let mut values = vec![0.0f32, -0.0, 0.05, 0.15, 0.25, 12.5, 99.95, 100.0, 1e-40, 3.4e38];
    values.extend([f32::NAN, f32::INFINITY, f32::NEG_INFINITY, f32::MIN_POSITIVE, -12.35]);
    let mut state = 2463534242u32;
    for _ in 0..20000 {
        state ^= state << 13;
        state ^= state >> 17;
        state ^= state << 5;
        values.push(f32::from_bits(state));
        values.push((state % 200000) as f32 / 1000.0);
    }
    for value in values {
        let ours = CpuPercent { bits: value.to_bits() }.text_of();
        assert_eq!(ours, format!("{value:.1}"), "{value:?}");
        assert_eq!(right_align(&ours, 5), format!("{value:>5.1}"));
    }
}

fn value_of(text: &str) -> Result<serde_json::Value, serde_json::Error> {
    serde_json::from_str(text)
}

fn bytes_of(value: &serde_json::Value) -> Result<Vec<u8>, serde_json::Error> {
    serde_json::to_vec(value)
}

#[test]
fn a_message_is_one_line() {
    let value = value_of("{\"line\":\"\u{e9}\\n\"}").unwrap();
    let sent = write_message(&value, bytes_of).unwrap();
    assert_eq!(sent, "{\"line\":\"\u{e9}\\n\"}\n".as_bytes());
    let line = String::from_utf8(sent).unwrap();
    assert_eq!(line.matches('\n').count(), 1);
    assert_eq!(read_message(line.len(), &line, value_of).unwrap(), Some(value));
    assert_eq!(read_message(4, "{}\r\n", value_of).unwrap(), Some(value_of("{}").unwrap()));
}

#[test]
fn messages_come_back_one_by_one() {
    let first = value_of("{\"type\":\"process_action\",\"service\":\"a\\nb\"}").unwrap();
    let second = value_of("{\"type\":\"ping\"}").unwrap();
    let mut stream = write_message(&first, bytes_of).unwrap();
    stream.extend(write_message(&second, bytes_of).unwrap());
    let text = String::from_utf8(stream).unwrap();
    let lines = text.split_inclusive('\n').collect::<Vec<_>>();
    assert_eq!(lines.len(), 2);
    assert_eq!(read_message(lines[0].len(), lines[0], value_of).unwrap(), Some(first));
    assert_eq!(read_message(lines[1].len(), lines[1], value_of).unwrap(), Some(second));
}

#[test]
fn only_a_closed_socket_reads_as_nothing() {
    assert_eq!(read_message(0, "", value_of).unwrap(), None);
    assert!(read_message(1, "\n", value_of).is_err());
    assert!(read_message(5, "what\n", value_of).is_err());
}

#[test]
fn a_message_that_cannot_be_encoded_is_not_written() {
    let refused = write_message(&1u8, |_: &u8| Err::<Vec<u8>, &str>("no"));
    assert_eq!(refused, Err("no"));
    assert_eq!(write_message(&7u8, |byte: &u8| Ok::<_, ()>(vec![*byte])), Ok(vec![7, 10]));
}

#[test]
fn configurations_and_messages_can_be_cloned() {
    let mut web = service("true");
    web.env.insert("PORT".to_owned(), "1".to_owned());
    web.working_dir = Some("web".to_owned());
    let config = Config::load(one_service("web", web)).unwrap();
    assert_eq!(format!("{:?}", config.clone()), format!("{config:?}"));
    let request = ClientMessage::ProcessAction {
        service: "web".to_owned(),
        action: ProcessAction::Stop,
    };
    assert_eq!(format!("{:?}", request.clone()), format!("{request:?}"));
    let snapshot = ServerMessage::Snapshot {
        services: vec![],
        recent_logs: vec![LogEntry { service: "web".to_owned(), line: "x".to_owned() }],
        max_name_width: 3,
    };
    assert_eq!(format!("{:?}", snapshot.clone()), format!("{snapshot:?}"));
}

#[test]
fn reply_errors_in_words() {
    assert_eq!(
        ReplyError::Closed.message(Awaited::Reply).unwrap(),
        "manager closed the connection before replying"
    );
    assert_eq!(
        ReplyError::Closed.message(Awaited::Snapshot).unwrap(),
        "manager closed the connection before sending a snapshot"
    );
    assert_eq!(ReplyError::Refused("no".to_owned()).message(Awaited::Reply).unwrap(), "no");
    assert!(matches!(
        ReplyError::Unexpected(ServerMessage::Ready).message(Awaited::Reply),
        Err(ServerMessage::Ready)
    ));
    assert_eq!(unexpected_text("Ready"), "unexpected response from manager: Ready");
}

fn text_of(table: &toml::Table, key: &str) -> Option<String> {
    table.get(key).and_then(|value| value.as_str()).map(str::to_owned)
}

fn services_of(contents: &str) -> NameMap<ServiceConfig> {
    let mut services = NameMap::new();
    for (name, value) in contents.parse::<toml::Table>().unwrap() {
        let table = value.as_table().unwrap();
        let mut env = NameMap::new();
        if let Some(pairs) = table.get("env").and_then(|value| value.as_table()) {
            for (key, value) in pairs {
                env.insert(key.clone(), value.as_str().unwrap().to_owned());
            }
        }
        services.insert(
            name,
            ServiceConfig {
                command: text_of(table, "command").unwrap(),
                working_dir: text_of(table, "working_dir"),
                ready_probe_http: text_of(table, "ready_probe_http"),
                ready_probe_log_line_contains: text_of(table, "ready_probe_log_line_contains"),
                env,
            },
        );
    }
    services
}

#[test]
fn parses_dynamic_service_tables() {
    let services = services_of(
        r#"
[abc]
command = "cargo run -p abc"
working_dir = "forge_web"
ready_probe_http = "http://localhost:1234/health"

[abc.env]
PORT = "1234"

[db]
command = "postgres -D ./pgdata"
ready_probe_log_line_contains = "ready to accept connections"
"#,
    );

    let config = Config::load(services).unwrap();
    assert_eq!(config.services.len(), 2);
    assert_eq!(config.max_name_width(), 3);
    let abc = config.services.get("abc").unwrap();
    assert_eq!(abc.working_dir.as_deref().map(Path::new), Some(Path::new("forge_web")));
    assert_eq!(abc.env.get("PORT").unwrap(), "1234");
    assert!(has_readiness_probe(abc));
    assert!(has_readiness_probe(config.services.get("db").unwrap()));
    assert!(!has_readiness_probe(&service("true")));
}

#[test]
fn explains_what_is_wrong_with_a_configuration() {
    let mut empty_dir = service("true");
    empty_dir.working_dir = Some(String::new());
    let mut two_probes = service("true");
    two_probes.ready_probe_http = Some("http://localhost".to_owned());
    two_probes.ready_probe_log_line_contains = Some("ready".to_owned());
    let mut empty_key = service("true");
    empty_key.env.insert(" ".to_owned(), "x".to_owned());
    let web = || "web".to_owned();
    let cases = vec![
        (NameMap::new(), ConfigError::NoServices, "pm.toml does not define any services"),
        (one_service(" ", service("x")), ConfigError::EmptyName, "service names must not be empty"),
        (
            one_service("web", service("\t")),
            ConfigError::EmptyCommand { name: web() },
            "service `web` has an empty command",
        ),
        (
            one_service("web", empty_dir),
            ConfigError::EmptyWorkingDir { name: web() },
            "service `web` has an empty working_dir",
        ),
        (
            one_service("web", two_probes),
            ConfigError::TwoProbes { name: web() },
            "service `web` must use only one readiness probe type in this version",
        ),
        (
            one_service("web", empty_key),
            ConfigError::EmptyEnvKey { name: web() },
            "service `web` contains an empty env key",
        ),
    ];
    for (services, error, message) in cases {
        let got = Config::load(services).unwrap_err();
        assert_eq!(got, error);
        assert_eq!(got.message("pm.toml"), message);
    }
}

#[test]
fn the_first_fault_by_name_counts() {
    let mut services = one_service("b", service(""));
    services.insert("a".to_owned(), service(" "));
    services.insert("c".to_owned(), service("true"));
    assert_eq!(
        Config::load(services).unwrap_err(),
        ConfigError::EmptyCommand { name: "a".to_owned() }
    );
}

#[test]
fn names_are_measured_in_bytes() {
    let mut services = one_service("abc", service("true"));
    services.insert("\u{e9}\u{e9}".to_owned(), service("true"));
    assert_eq!(Config::load(services).unwrap().max_name_width(), 4);
}

#[test]
fn paths_join_like_those_of_the_standard_library() {
    for base in ["", "/", "a", "a/", "/x/y", "."] {
        for path in ["", "b", "/b", "b/", "./c", "../d"] {
            let theirs = Path::new(base).join(path);
            assert_eq!(join(base.as_bytes(), path.as_bytes()), theirs.as_os_str().as_encoded_bytes());
            assert_eq!(is_absolute(path.as_bytes()), Path::new(path).is_absolute());
        }
    }
}

#[test]
fn runtime_paths_lie_beside_the_configuration() {
    let config = resolve_config_path(b"/home/me", b"project/pm.toml");
    assert_eq!(config, b"/home/me/project/pm.toml");
    let parent = PathBuf::from("/home/me/project");
    let paths = resolve_runtime_paths(
        config,
        Some(parent.as_os_str().as_encoded_bytes().to_vec()),
        b"/home/me".to_vec(),
    );
    assert_eq!(paths.root_dir, b"/home/me/project");
    assert_eq!(paths.state_dir, b"/home/me/project/.pm");
    assert_eq!(paths.socket_path, b"/home/me/project/.pm/manager.sock");
    assert_eq!(
        manager_arguments(&paths),
        vec![
            b"__manager".to_vec(),
            b"--config".to_vec(),
            b"/home/me/project/pm.toml".to_vec(),
            b"--socket".to_vec(),
            b"/home/me/project/.pm/manager.sock".to_vec(),
            b"--state-dir".to_vec(),
            b"/home/me/project/.pm".to_vec(),
        ]
    );
    let rootless = resolve_runtime_paths(b"/".to_vec(), None, b"/home/me".to_vec());
    assert_eq!(rootless.root_dir, b"/home/me");
    assert_eq!(resolve_config_path(b"/home/me", b"/etc/pm.toml"), b"/etc/pm.toml");
}

#[test]
fn services_run_beside_the_configuration() {
    assert_eq!(service_dir(b"/root", &None), b"/root");
    assert_eq!(service_dir(b"/root", &Some("web".to_owned())), b"/root/web");
    assert_eq!(service_dir(b"/root", &Some("/srv/\u{e9}".to_owned())), "/srv/\u{e9}".as_bytes());
}

#[test]
fn replies_are_told_apart() {
    let ack = ServerMessage::Ack { message: "done".to_owned() };
    assert_eq!(acknowledged(Some(ack)).unwrap(), "done");
    assert!(matches!(acknowledged(None), Err(ReplyError::Closed)));
    let error = ServerMessage::Error { message: "no".to_owned() };
    assert!(matches!(acknowledged(Some(error)), Err(ReplyError::Refused(text)) if text == "no"));
    assert!(matches!(
        acknowledged(Some(ServerMessage::Ready)),
        Err(ReplyError::Unexpected(ServerMessage::Ready))
    ));
    assert!(ready(Some(ServerMessage::Ready)).is_ok());
    assert!(matches!(ready(None), Err(ReplyError::Closed)));
    assert!(matches!(
        ready(Some(ServerMessage::ManagerStopping)),
        Err(ReplyError::Unexpected(ServerMessage::ManagerStopping))
    ));
    let error = ServerMessage::Error { message: "no".to_owned() };
    assert!(matches!(ready(Some(error)), Err(ReplyError::Refused(_))));
}

fn failure(step: StartupMove) -> (String, Cause) {
    match step {
        StartupMove::Fail { message, cause } => (message, cause),
        other => panic!("{other:?}"),
    }
}

#[test]
fn waits_for_the_manager() {
    let running = ManagerPoll::Running;
    let before = StartupStage::BeforeAsking;
    assert!(matches!(startup_move(before, running, false), StartupMove::Ask));
    assert_eq!(startup_stage_after(ReadyAnswer::Ready), None);
    assert_eq!(startup_stage_after(ReadyAnswer::Refused), Some(StartupStage::NotReady));
    assert_eq!(startup_stage_after(ReadyAnswer::TimedOut), Some(StartupStage::Unanswered));
    assert!(matches!(startup_move(StartupStage::NotReady, running, false), StartupMove::Pause));
    let late = "timed out waiting for pm manager to finish initialization".to_owned();
    assert_eq!(failure(startup_move(before, running, true)), (late.clone(), Cause::Nothing));
    assert_eq!(
        failure(startup_move(StartupStage::NotReady, running, true)),
        (late.clone(), Cause::Answer)
    );
    assert_eq!(
        failure(startup_move(StartupStage::Unanswered, running, false)),
        (late, Cause::Nothing)
    );
    let gone = "pm manager exited during startup with status code -3".to_owned();
    let exited = ManagerPoll::Exited(Some(-3));
    assert_eq!(failure(startup_move(before, exited, false)), (gone.clone(), Cause::Nothing));
    assert_eq!(failure(startup_move(StartupStage::NotReady, exited, false)), (gone, Cause::Answer));
    assert_eq!(
        failure(startup_move(before, ManagerPoll::Unknown, false)),
        ("failed to poll pm manager during startup".to_owned(), Cause::Poll)
    );
    assert_eq!(
        manager_exit_message(None),
        "pm manager exited during startup after receiving a signal"
    );
    assert_eq!(
        manager_exit_message(Some(1)),
        "pm manager exited during startup with status code 1"
    );
}

#[test]
fn looks_at_the_socket() {
    assert_eq!(up_move(true, true), UpMove::AlreadyRunning);
    assert_eq!(up_move(false, true), UpMove::RemoveStaleSocket);
    assert_eq!(up_move(false, false), UpMove::Start);
    assert_eq!(removal_move(false, true, false), RemovalMove::Done);
    assert_eq!(removal_move(true, false, true), RemovalMove::Done);
    assert_eq!(removal_move(true, true, true), RemovalMove::TimedOut);
    assert_eq!(removal_move(true, true, false), RemovalMove::Pause);
}
