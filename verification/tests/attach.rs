use pm::attach::commands::{
    command_arg_kind, command_candidates, command_request, parse_colon_command,
    resolve_service_token, ParseError, SlashArgKind, SlashCommand,
};
use pm::attach::complete::{autocomplete_colon_input, complete_token, longest_common_prefix};
use pm::attach::highlight::highlighted_service_name_characters;
use pm::attach::service_names::ServiceNames;
use pm::attach::short_names::{
    longest_common_prefix_len, sanitize_short_name_fragment, shared_separator_prefix_len,
    trim_leading_non_alphanumeric,
};
use pm::attach::status::{
    format_log_prefix, format_log_prefix_segments, render_command_prompt, service_name_segments,
    service_rows_for, state_color, status_label, status_lines, status_width, truncate_ascii, Color,
    StatusLine, SERVICE_NAME_COLOR, SERVICE_SHORT_NAME_COLOR,
};
use pm::ipc::{ClientMessage, CpuPercent, ProcessAction, ServiceSnapshot, ServiceState};
use pm::name_map::NameMap;
use pm::numbers::format_memory;

fn sample_service(name: &str, state: ServiceState) -> ServiceSnapshot {
    ServiceSnapshot {
        name: name.to_owned(),
        pid: Some(42),
        state,
        ready: true,
        cpu_percent: CpuPercent { bits: 12.5f32.to_bits() },
        memory_bytes: 32 * 1024 * 1024,
        last_exit_code: None,
    }
}

fn sample_services(services: Vec<(&str, ServiceState)>) -> NameMap<ServiceSnapshot> {
    let mut map = NameMap::new();
    for (name, state) in services {
        map.insert(name.to_owned(), sample_service(name, state));
    }
    map
}

fn line_text(line: &StatusLine) -> String {
    line.segments.iter().map(|segment| segment.text.as_str()).collect::<String>()
}

#[test]
fn aligns_log_prefixes() {
    assert_eq!(format_log_prefix("abc", 6), "   abc>  ");
    assert_eq!(format_log_prefix("abcdef", 6), "abcdef>  ");
}

#[test]
fn formats_memory_units() {
    assert_eq!(format_memory(512), "512 B");
    assert_eq!(format_memory(1024 * 1024 * 32), "32.0 MiB");
}

#[test]
fn parses_restart_commands() {
    let service_names = ServiceNames::from_names(&["forge_web"]);
    assert_eq!(parse_colon_command(":ra", &service_names).unwrap(), SlashCommand::RestartAll);
    assert_eq!(
        parse_colon_command(":restart-all", &service_names).unwrap(),
        SlashCommand::RestartAll
    );
    assert_eq!(
        parse_colon_command(":r forge_web", &service_names).unwrap(),
        SlashCommand::RestartService("forge_web".to_owned())
    );
    assert_eq!(
        parse_colon_command(":restart forge_web", &service_names).unwrap(),
        SlashCommand::RestartService("forge_web".to_owned())
    );
}

#[test]
fn parses_start_and_stop_commands() {
    let service_names = ServiceNames::from_names(&["forge_web"]);
    assert_eq!(
        parse_colon_command(":start-all", &service_names).unwrap(),
        SlashCommand::StartAll
    );
    assert_eq!(
        parse_colon_command(":start forge_web", &service_names).unwrap(),
        SlashCommand::StartService("forge_web".to_owned())
    );
    assert_eq!(
        parse_colon_command(":stop-all", &service_names).unwrap(),
        SlashCommand::StopAll
    );
    assert_eq!(
        parse_colon_command(":stop forge_web", &service_names).unwrap(),
        SlashCommand::StopService("forge_web".to_owned())
    );
}

#[test]
fn autocompletes_command_names() {
    let service_names = ServiceNames::from_names(&[]);
    assert_eq!(
        autocomplete_colon_input(":re", &service_names),
        Some(":restart ".to_owned())
    );
    assert_eq!(
        autocomplete_colon_input(":restart-a", &service_names),
        Some(":restart-all".to_owned())
    );
    assert_eq!(
        autocomplete_colon_input(":start-a", &service_names),
        Some(":start-all".to_owned())
    );
    assert_eq!(
        autocomplete_colon_input(":stop-a", &service_names),
        Some(":stop-all".to_owned())
    );
}

#[test]
fn adds_space_after_exact_restart_command() {
    let service_names = ServiceNames::from_names(&[]);
    assert_eq!(
        autocomplete_colon_input(":r", &service_names),
        Some(":r ".to_owned())
    );
    assert_eq!(
        autocomplete_colon_input(":start", &service_names),
        Some(":start ".to_owned())
    );
    assert_eq!(
        autocomplete_colon_input(":stop", &service_names),
        Some(":stop ".to_owned())
    );
}

#[test]
fn computes_unique_service_short_names() {
    let service_names = ServiceNames::from_names(&[
        "db",
        "forge_auth",
        "forge_git_worker",
        "forge_web",
        "forgecommander",
    ]);

    assert_eq!(service_names.short_name("db"), "d");
    assert_eq!(service_names.short_name("forge_auth"), "a");
    assert_eq!(service_names.short_name("forge_git_worker"), "g");
    assert_eq!(service_names.short_name("forge_web"), "w");
    assert_eq!(service_names.short_name("forgecommander"), "f");
}

#[test]
fn parses_service_shorthands() {
    let service_names = ServiceNames::from_names(&[
        "db",
        "forge_auth",
        "forge_git_worker",
        "forge_web",
        "forgecommander",
    ]);

    assert_eq!(
        parse_colon_command(":r w", &service_names).unwrap(),
        SlashCommand::RestartService("forge_web".to_owned())
    );
    assert_eq!(
        parse_colon_command(":start a", &service_names).unwrap(),
        SlashCommand::StartService("forge_auth".to_owned())
    );
    assert_eq!(
        parse_colon_command(":stop f", &service_names).unwrap(),
        SlashCommand::StopService("forgecommander".to_owned())
    );
}

#[test]
fn keeps_prefix_based_short_names_for_plain_shared_prefixes() {
    let service_names = ServiceNames::from_names(&["api", "auth", "worker"]);

    assert_eq!(service_names.short_name("api"), "ap");
    assert_eq!(service_names.short_name("auth"), "au");
    assert_eq!(service_names.short_name("worker"), "w");
}

#[test]
fn keeps_deterministic_prefixes_for_long_plain_shared_prefixes() {
    let service_names =
        ServiceNames::from_names(&["forgecommander", "forgeconnect", "worker"]);

    assert_eq!(service_names.short_name("forgecommander"), "forgecom");
    assert_eq!(service_names.short_name("forgeconnect"), "forgecon");
    assert_eq!(service_names.short_name("worker"), "w");
}

#[test]
fn renders_command_prompt_cursor() {
    assert_eq!(render_command_prompt(":r fw", 32), (":r fw".to_owned(), 5));
    assert_eq!(
        render_command_prompt(":restart forge_web", 8),
        ("rge_web".to_owned(), 7)
    );
}

#[test]
fn autocompletes_restart_service_argument() {
    let services = sample_services(vec![
        ("api", ServiceState::Running),
        ("worker", ServiceState::Running),
    ]);
    let service_names = ServiceNames::from_services(&services);

    assert_eq!(
        autocomplete_colon_input(":r w", &service_names),
        Some(":r w ".to_owned())
    );
    assert_eq!(
        autocomplete_colon_input(":start wo", &service_names),
        Some(":start worker ".to_owned())
    );
    assert_eq!(
        autocomplete_colon_input(":stop wo", &service_names),
        Some(":stop worker ".to_owned())
    );
    assert_eq!(autocomplete_colon_input(":restart ", &service_names), None);

    let single_service = sample_services(vec![("api", ServiceState::Running)]);
    let single_service_names = ServiceNames::from_services(&single_service);
    assert_eq!(
        autocomplete_colon_input(":restart ", &single_service_names),
        Some(":restart a ".to_owned())
    );
}

#[test]
fn does_not_complete_when_second_argument_is_present() {
    let services = sample_services(vec![("api", ServiceState::Running)]);
    let service_names = ServiceNames::from_services(&services);
    assert_eq!(
        autocomplete_colon_input(":r api extra", &service_names),
        None
    );
}

#[test]
fn highlights_trimmed_prefix_short_names_at_their_rightmost_match() {
    let highlighted = highlighted_service_name_characters("forge_git_worker", "g");
    let highlighted_positions = highlighted
        .into_iter()
        .enumerate()
        .filter_map(|(index, is_highlighted)| is_highlighted.then_some(index))
        .collect::<Vec<_>>();

    assert_eq!(highlighted_positions, vec![6]);
}

#[test]
fn builds_one_status_line_per_service() {
    let services = sample_services(vec![
        ("api", ServiceState::Running),
        ("worker", ServiceState::Starting),
    ]);
    let service_names = ServiceNames::from_services(&services);

    let lines = status_lines(&services, &service_names, 10, 6);

    assert_eq!(lines.len(), 2);
    assert_eq!(
        lines[0].segments[0].text,
        format!("{:width$} ", "running", width = status_width())
    );
    assert_eq!(lines[0].segments[0].color, Some(Color::Green));
    assert!(lines[0]
        .segments
        .iter()
        .any(|segment| segment.text == "a" && segment.color == Some(SERVICE_SHORT_NAME_COLOR)));
    assert!(lines[0]
        .segments
        .iter()
        .any(|segment| segment.color == Some(SERVICE_NAME_COLOR)));
    assert_eq!(
        line_text(&lines[0]),
        format!(
            "{:width$} {:name_width$} {:>5.1}% {}",
            "running",
            "api",
            12.5,
            "32.0 MiB",
            width = status_width(),
            name_width = 6
        )
    );
    assert_eq!(
        line_text(&lines[1]),
        format!(
            "{:width$} {:name_width$} {:>5.1}% {}",
            "starting",
            "worker",
            12.5,
            "32.0 MiB",
            width = status_width(),
            name_width = 6
        )
    );
}

#[test]
fn limits_service_rows_to_leave_room_for_logs_and_command_prompt() {
    assert_eq!(service_rows_for(6, 2), 2);
    assert_eq!(service_rows_for(6, 8), 4);
}

#[test]
fn shows_overflow_line_when_footer_cannot_fit_all_services() {
    let services = sample_services(vec![
        ("api", ServiceState::Running),
        ("db", ServiceState::Running),
        ("web", ServiceState::Running),
    ]);
    let service_names = ServiceNames::from_services(&services);

    let lines = status_lines(&services, &service_names, 2, 3);

    assert_eq!(lines.len(), 2);
    assert_eq!(
        line_text(&lines[0]),
        format!(
            "{:width$} {:name_width$} {:>5.1}% {}",
            "running",
            "api",
            12.5,
            "32.0 MiB",
            width = status_width(),
            name_width = 3
        )
    );
    assert_eq!(lines[1].segments[0].text, "... 2 more service(s)");
}

#[test]
fn formats_status_labels_from_service_state() {
    assert_eq!(
        status_label(&sample_service("api", ServiceState::Starting)),
        "starting"
    );
    assert_eq!(
        status_label(&sample_service("api", ServiceState::Running)),
        "running"
    );
    assert_eq!(
        status_label(&sample_service("api", ServiceState::Stopped)),
        "stopped"
    );
    assert_eq!(
        status_label(&sample_service("api", ServiceState::Exited)),
        "exited"
    );
}

#[test]
fn says_so_when_there_are_no_services() {
    let services = sample_services(vec![]);
    let names = ServiceNames::from_services(&services);
    let lines = status_lines(&services, &names, 3, 0);
    assert_eq!(lines.len(), 1);
    assert_eq!(line_text(&lines[0]), "no services");
    assert_eq!(lines[0].segments[0].color, Some(Color::DarkGrey));
}

#[test]
fn a_limit_of_no_lines_is_no_limit() {
    let services = sample_services(vec![
        ("api", ServiceState::Running),
        ("db", ServiceState::Stopped),
    ]);
    let names = ServiceNames::from_services(&services);
    assert_eq!(status_lines(&services, &names, 0, 3).len(), 2);
    assert_eq!(line_text(&status_lines(&services, &names, 1, 3)[0]), "... 2 more service(s)");
}

#[test]
fn colors_follow_the_state() {
    let mut service = sample_service("api", ServiceState::Running);
    assert_eq!(state_color(&service), Color::Green);
    service.ready = false;
    assert_eq!(state_color(&service), Color::Yellow);
    service.state = ServiceState::Starting;
    assert_eq!(state_color(&service), Color::Yellow);
    service.state = ServiceState::Stopped;
    assert_eq!(state_color(&service), Color::DarkGrey);
    service.state = ServiceState::Exited;
    assert_eq!(state_color(&service), Color::Red);
}

#[test]
fn name_segments_highlight_the_short_name() {
    let segments = service_name_segments("forge_web", "w", 2, 1, "|");
    let parts = segments
        .iter()
        .map(|segment| (segment.text.as_str(), segment.color))
        .collect::<Vec<_>>();
    assert_eq!(
        parts,
        vec![
            ("  ", Some(SERVICE_NAME_COLOR)),
            ("forge_", Some(SERVICE_NAME_COLOR)),
            ("w", Some(SERVICE_SHORT_NAME_COLOR)),
            ("eb", Some(SERVICE_NAME_COLOR)),
            (" ", Some(SERVICE_NAME_COLOR)),
            ("|", Some(SERVICE_NAME_COLOR)),
        ]
    );
    assert!(service_name_segments("", "", 0, 0, "").is_empty());
}

#[test]
fn log_prefix_reads_the_same_in_colors() {
    for (name, short, width) in [("abc", "b", 6), ("\u{e9}t\u{e9}", "t", 6), ("abc", "x", 2)] {
        let colored = format_log_prefix_segments(name, short, width)
            .iter()
            .map(|segment| segment.text.as_str())
            .collect::<String>();
        assert_eq!(colored, format_log_prefix(name, width));
    }
    assert_eq!(format_log_prefix("\u{e9}", 3), " \u{e9}>  ");
}

#[test]
fn highlights_nothing_where_the_short_name_is_not_found() {
    assert_eq!(highlighted_service_name_characters("abc", "cb"), vec![false, false, false]);
    assert_eq!(highlighted_service_name_characters("abc", ""), vec![false, false, false]);
    assert_eq!(highlighted_service_name_characters("abab", "ab"), vec![false, false, true, true]);
    assert_eq!(highlighted_service_name_characters("abab", "aa"), vec![true, false, true, false]);
}

#[test]
fn every_short_name_is_highlighted() {
    let all = ["db", "forge_auth", "forge_git_worker", "forge_web", "forgecommander", "---"];
    let names = ServiceNames::from_names(&all);
    for name in all {
        let short = names.short_name(name);
        let marked = name
            .chars()
            .zip(highlighted_service_name_characters(name, short))
            .filter(|(_, mark)| *mark)
            .map(|(character, _)| character)
            .collect::<String>();
        assert_eq!(marked, short);
    }
}

#[test]
fn short_names_are_distinct_and_resolve() {
    let all = ["a", "ab", "abc", "a-b", "a_b", "_", "\u{e9}-x", "\u{e9}-y"];
    let names = ServiceNames::from_names(&all);
    let mut shorts = all.iter().map(|name| names.short_name(name)).collect::<Vec<_>>();
    for name in all {
        assert_eq!(names.resolve(name), Some(name.to_owned()));
        assert_eq!(names.resolve(names.short_name(name)), Some(name.to_owned()));
    }
    shorts.sort();
    shorts.dedup();
    assert_eq!(shorts.len(), all.len());
    assert_eq!(names.resolve("nothing"), None);
    assert_eq!(names.short_name("nothing"), "");
    assert_eq!(names.short_name("\u{e9}-x"), "x");
}

#[test]
fn short_names_do_not_depend_on_order() {
    let names = ServiceNames::from_names(&["worker", "api", "auth"]);
    assert_eq!(names.short_name("api"), "ap");
    assert_eq!(names.short_name("auth"), "au");
    assert_eq!(names.short_name("worker"), "w");
}

#[test]
fn candidates_prefer_short_names() {
    let names = ServiceNames::from_names(&["forge_auth", "forge_web", "worker"]);
    assert_eq!(names.short_name("worker"), "wo");
    assert_eq!(names.candidates("w"), vec!["we", "wo"]);
    assert_eq!(names.candidates("forge_"), vec!["forge_auth", "forge_web"]);
    assert_eq!(names.candidates("worker"), vec!["worker"]);
    assert!(names.candidates("x").is_empty());
}

#[test]
fn measures_shared_prefixes_in_bytes() {
    assert_eq!(longest_common_prefix_len("\u{e9}a", "\u{e9}b"), 2);
    assert_eq!(longest_common_prefix_len("abc", "abd"), 2);
    assert_eq!(shared_separator_prefix_len("forge_web", "forge_auth"), 6);
    assert_eq!(shared_separator_prefix_len("forge_web", "forgex"), 0);
    assert_eq!(shared_separator_prefix_len("a-b_c", "a-b_d"), 4);
}

#[test]
fn cleans_names() {
    assert_eq!(trim_leading_non_alphanumeric("__a_b"), "a_b");
    assert_eq!(trim_leading_non_alphanumeric("__"), "");
    assert_eq!(sanitize_short_name_fragment("a-b_c 1\u{e9}"), "abc1\u{e9}");
}

#[test]
fn explains_what_is_wrong_with_a_command() {
    let names = ServiceNames::from_names(&["forge_web"]);
    let cases = [
        ("ra", ParseError::MissingColon, "commands must start with `:`"),
        (":  ", ParseError::EmptyCommand, "empty command"),
        (
            ":ra x",
            ParseError::TakesNoArguments { name: "ra".to_owned() },
            "`:ra` does not take arguments",
        ),
        (
            ":stop",
            ParseError::RequiresService { name: "stop".to_owned() },
            "`:stop` requires a service name",
        ),
        (
            ":start a b",
            ParseError::OneServiceOnly { name: "start".to_owned() },
            "`:start` accepts exactly one service name",
        ),
        (
            ":fly",
            ParseError::UnknownCommand { name: "fly".to_owned() },
            "unknown command `:fly`",
        ),
        (
            ":r nothing",
            ParseError::UnknownService { token: "nothing".to_owned() },
            "unknown service `nothing`",
        ),
    ];
    for (input, error, message) in cases {
        let got = parse_colon_command(input, &names).unwrap_err();
        assert_eq!(got, error);
        assert_eq!(got.message(), message);
    }
}

#[test]
fn commands_ignore_white_space() {
    let names = ServiceNames::from_names(&["web"]);
    assert_eq!(
        parse_colon_command(" \t:r \u{2003} web \n", &names).unwrap(),
        SlashCommand::RestartService("web".to_owned())
    );
    assert_eq!(
        parse_colon_command(": ra", &names).unwrap(),
        SlashCommand::RestartAll
    );
}

#[test]
fn commands_become_requests() {
    assert!(matches!(
        command_request(SlashCommand::StopAll),
        ClientMessage::AllAction { action: ProcessAction::Stop }
    ));
    match command_request(SlashCommand::StartService("web".to_owned())) {
        ClientMessage::ProcessAction { service, action } => {
            assert_eq!(service, "web");
            assert_eq!(action, ProcessAction::Start);
        }
        other => panic!("{other:?}"),
    }
}

#[test]
fn lists_commands() {
    assert_eq!(command_candidates("st"), vec!["stop-all", "stop", "start-all", "start"]);
    assert_eq!(command_candidates("").len(), 8);
    for command in command_candidates("") {
        assert!(command_arg_kind(command).is_some());
    }
    assert_eq!(command_arg_kind("ra"), Some(SlashArgKind::Nothing));
    assert_eq!(command_arg_kind("r"), Some(SlashArgKind::Service));
    assert_eq!(command_arg_kind("x"), None);
}

#[test]
fn resolves_tokens() {
    let names = ServiceNames::from_names(&["forge_auth", "forge_web"]);
    assert_eq!(resolve_service_token("w", &names), Ok("forge_web".to_owned()));
    assert_eq!(
        resolve_service_token("x", &names),
        Err(ParseError::UnknownService { token: "x".to_owned() })
    );
}

#[test]
fn completes_tokens() {
    assert_eq!(longest_common_prefix(&["start", "stop"]), "st");
    assert_eq!(longest_common_prefix(&[]), "");
    assert_eq!(complete_token("s", &vec!["start", "stop"]), Some("st".to_owned()));
    assert_eq!(complete_token("st", &vec!["start", "stop"]), None);
    assert_eq!(complete_token("x", &vec![]), None);
    assert_eq!(complete_token("ap", &vec!["api"]), Some("api".to_owned()));
}

#[test]
fn completes_a_command_before_its_argument() {
    let names = ServiceNames::from_names(&["api"]);
    assert_eq!(
        autocomplete_colon_input(":rest api", &names),
        Some(":restart api".to_owned())
    );
    assert_eq!(autocomplete_colon_input(":s api", &names), None);
    assert_eq!(
        autocomplete_colon_input(":restart-a api", &names),
        Some(":restart-all api".to_owned())
    );
    assert_eq!(autocomplete_colon_input("r", &names), None);
    assert_eq!(autocomplete_colon_input(":ra", &names), None);
    assert_eq!(autocomplete_colon_input(":x", &names), None);
}

#[test]
fn truncates_by_characters() {
    assert_eq!(truncate_ascii("abc", 2), "ab");
    assert_eq!(truncate_ascii("abc", 9), "abc");
    assert_eq!(truncate_ascii("\u{e9}\u{e9}", 1), "\u{e9}");
}

#[test]
fn prompt_leaves_room_for_the_cursor() {
    assert_eq!(render_command_prompt("abc", 0), (String::new(), 0));
    assert_eq!(render_command_prompt("abc", 1), (String::new(), 0));
    assert_eq!(render_command_prompt("abc", 3), ("bc".to_owned(), 2));
    assert_eq!(render_command_prompt("abc", 4), ("abc".to_owned(), 3));
}

#[test]
fn there_is_always_a_row_for_services() {
    assert_eq!(service_rows_for(0, 5), 1);
    assert_eq!(service_rows_for(3, 0), 1);
    assert_eq!(service_rows_for(3, 9), 1);
    assert_eq!(service_rows_for(u16::MAX, usize::MAX), u16::MAX - 2);
}
