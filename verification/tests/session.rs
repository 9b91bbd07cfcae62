use pm::attach::session::{
    finish_command, handle_status_key, read_turn, AttachAction, InputEvent, InputMode, KeyCode, KeyEvent, Reading,
    Session, Step, Turn,
};
use pm::attach::status::Color;
use pm::attach::terminal::{AttachTerminal, TermOp, TerminalError};
use pm::ipc::{
    ClientMessage, CpuPercent, LogEntry, ProcessAction, ServerMessage, ServiceSnapshot,
    ServiceState,
};
use pm::replies::ReplyError;

fn snapshot(name: &str) -> ServiceSnapshot {
    ServiceSnapshot {
        name: name.to_owned(),
        pid: None,
        state: ServiceState::Stopped,
        ready: false,
        cpu_percent: CpuPercent { bits: 0 },
        memory_bytes: 0,
        last_exit_code: None,
    }
}

fn log(service: &str, line: &str) -> LogEntry {
    LogEntry { service: service.to_owned(), line: line.to_owned() }
}

fn session() -> Session {
    Session::open(Some(ServerMessage::Snapshot {
        services: vec![snapshot("web"), snapshot("api")],
        recent_logs: vec![],
        max_name_width: 3,
    }))
    .unwrap()
    .session
}

fn press(session: &mut Session, code: KeyCode) -> Turn {
    session.handle_input_event(Some(InputEvent::Key(KeyEvent { code, control: false })))
}

fn type_text(session: &mut Session, text: &str) {
    for c in text.chars() {
        let turn = press(session, KeyCode::Char(c));
        assert!(matches!(turn.action, AttachAction::Continue));
    }
}

fn shown(steps: &[Step]) -> Vec<String> {
    steps
        .iter()
        .map(|step| match step {
            Step::PrintLog(entry) => format!("log {} {}", entry.service, entry.line),
            Step::DrawStatus => "status".to_owned(),
            Step::DrawPrompt(buffer) => format!("prompt {buffer}"),
        })
        .collect()
}

fn written(ops: &[TermOp]) -> Vec<String> {
    ops.iter()
        .map(|op| match op {
            TermOp::MoveTo { column, row } => format!("@{column},{row}"),
            TermOp::ClearLine => "clear".to_owned(),
            TermOp::ClearDown => "down".to_owned(),
            TermOp::SetColor(color) => format!("{color:?}"),
            TermOp::ResetColor => "reset".to_owned(),
            TermOp::Print(text) => format!("'{text}'"),
            TermOp::HideCursor => "hide".to_owned(),
            TermOp::ShowCursor => "show".to_owned(),
            TermOp::Flush => "flush".to_owned(),
        })
        .collect()
}

#[test]
fn opens_with_a_snapshot() {
    let opening = Session::open(Some(ServerMessage::Snapshot {
        services: vec![snapshot("web"), snapshot("api")],
        recent_logs: vec![log("web", "one"), log("api", "two")],
        max_name_width: 3,
    }))
    .unwrap();
    assert_eq!(opening.max_name_width, 3);
    assert_eq!(opening.session.services.len(), 2);
    assert_eq!(opening.session.services.name_at(0), "api");
    assert_eq!(opening.session.names.short_name("web"), "w");
    assert_eq!(opening.session.mode, InputMode::Status);
    assert_eq!(shown(&opening.steps), vec!["log web one", "log api two", "status"]);
}

#[test]
fn the_last_of_two_snapshots_of_a_service_counts() {
    let mut second = snapshot("web");
    second.memory_bytes = 7;
    let opening = Session::open(Some(ServerMessage::Snapshot {
        services: vec![snapshot("web"), second],
        recent_logs: vec![],
        max_name_width: 3,
    }))
    .unwrap();
    assert_eq!(opening.session.services.len(), 1);
    assert_eq!(opening.session.services.get("web").unwrap().memory_bytes, 7);
}

#[test]
fn does_not_open_with_anything_else() {
    assert!(matches!(Session::open(None), Err(ReplyError::Closed)));
    let error = ServerMessage::Error { message: "pm is shutting down".to_owned() };
    assert!(matches!(
        Session::open(Some(error)),
        Err(ReplyError::Refused(text)) if text == "pm is shutting down"
    ));
    assert!(matches!(
        Session::open(Some(ServerMessage::Ready)),
        Err(ReplyError::Unexpected(ServerMessage::Ready))
    ));
}

#[test]
fn a_colon_opens_the_command_line() {
    let mut session = session();
    let turn = press(&mut session, KeyCode::Char('x'));
    assert!(turn.steps.is_empty());
    assert_eq!(session.mode, InputMode::Status);
    let turn = press(&mut session, KeyCode::Char(':'));
    assert_eq!(shown(&turn.steps), vec!["prompt :"]);
    assert_eq!(session.mode, InputMode::Command(":".to_owned()));
}

#[test]
fn a_key_that_is_no_colon_leaves_the_mode() {
    let mut mode = InputMode::Command(":r".to_owned());
    let other = KeyEvent { code: KeyCode::Char('x'), control: false };
    assert!(handle_status_key(other, &mut mode).steps.is_empty());
    assert_eq!(mode, InputMode::Command(":r".to_owned()));
    let colon = KeyEvent { code: KeyCode::Char(':'), control: false };
    assert_eq!(shown(&handle_status_key(colon, &mut mode).steps), vec!["prompt :"]);
    assert_eq!(mode, InputMode::Command(":".to_owned()));
}

#[test]
fn submits_a_command() {
    let mut session = session();
    type_text(&mut session, ":r w");
    let turn = press(&mut session, KeyCode::Enter);
    assert_eq!(shown(&turn.steps), vec!["status"]);
    match turn.action {
        AttachAction::Submit(ClientMessage::ProcessAction { service, action }) => {
            assert_eq!(service, "web");
            assert_eq!(action, ProcessAction::Restart);
        }
        other => panic!("{other:?}"),
    }
    assert_eq!(session.mode, InputMode::Status);
    assert_eq!(
        shown(&finish_command(Ok("restarted web".to_owned()))),
        vec!["log pm restarted web", "status"]
    );
    assert_eq!(
        shown(&finish_command(Err("gone".to_owned()))),
        vec!["log pm command failed: gone", "status"]
    );
}

#[test]
fn says_what_is_wrong_with_a_command() {
    let mut session = session();
    type_text(&mut session, ":fly");
    let turn = press(&mut session, KeyCode::Enter);
    assert_eq!(
        shown(&turn.steps),
        vec!["status", "log pm command failed: unknown command `:fly`", "status"]
    );
    assert!(matches!(turn.action, AttachAction::Continue));
}

#[test]
fn an_empty_command_line_does_nothing() {
    for text in [":", ":  "] {
        let mut session = session();
        type_text(&mut session, text);
        let turn = press(&mut session, KeyCode::Enter);
        assert_eq!(shown(&turn.steps), vec!["status"]);
        assert!(matches!(turn.action, AttachAction::Continue));
        assert_eq!(session.mode, InputMode::Status);
    }
}

#[test]
fn edits_the_command_line() {
    let mut session = session();
    type_text(&mut session, ":st");
    let turn = press(&mut session, KeyCode::Backspace);
    assert_eq!(shown(&turn.steps), vec!["prompt :s"]);
    assert_eq!(session.mode, InputMode::Command(":s".to_owned()));
    let turn = press(&mut session, KeyCode::Tab);
    assert_eq!(shown(&turn.steps), vec!["prompt :st"]);
    let turn = press(&mut session, KeyCode::Tab);
    assert!(turn.steps.is_empty());
    let turn = press(&mut session, KeyCode::Other);
    assert!(turn.steps.is_empty());
    let turn = session
        .handle_input_event(Some(InputEvent::Key(KeyEvent { code: KeyCode::Char('a'), control: true })));
    assert!(turn.steps.is_empty());
    assert_eq!(session.mode, InputMode::Command(":st".to_owned()));
    press(&mut session, KeyCode::Backspace);
    press(&mut session, KeyCode::Backspace);
    let turn = press(&mut session, KeyCode::Backspace);
    assert_eq!(shown(&turn.steps), vec!["status"]);
    assert_eq!(session.mode, InputMode::Status);
    type_text(&mut session, ":ra");
    let turn = press(&mut session, KeyCode::Esc);
    assert_eq!(shown(&turn.steps), vec!["status"]);
    assert_eq!(session.mode, InputMode::Status);
}

#[test]
fn control_c_leaves() {
    for code in [KeyCode::Char('c'), KeyCode::Char('C')] {
        let mut session = session();
        let key = KeyEvent { code, control: true };
        let turn = session.handle_input_event(Some(InputEvent::Key(key)));
        assert!(matches!(turn.action, AttachAction::Exit));
    }
    let turn = session().handle_input_event(None);
    assert!(matches!(turn.action, AttachAction::Exit));
    let turn = session().handle_input_event(Some(InputEvent::Error("lost".to_owned())));
    assert!(matches!(turn.action, AttachAction::Fail(text) if text == "lost"));
}

#[test]
fn takes_in_messages() {
    let mut session = session();
    let turn = session.handle_message(Some(ServerMessage::Log { entry: log("web", "hi") }));
    assert_eq!(shown(&turn.steps), vec!["log web hi"]);
    let mut changed = snapshot("web");
    changed.ready = true;
    let turn = session.handle_message(Some(ServerMessage::ServiceUpdate { service: changed }));
    assert_eq!(shown(&turn.steps), vec!["status"]);
    assert!(session.services.get("web").unwrap().ready);
    type_text(&mut session, ":r");
    let turn = session.handle_message(Some(ServerMessage::Log { entry: log("api", "ho") }));
    assert_eq!(shown(&turn.steps), vec!["log api ho", "prompt :r"]);
    let turn =
        session.handle_message(Some(ServerMessage::ServiceUpdate { service: snapshot("db") }));
    assert_eq!(shown(&turn.steps), vec!["prompt :r"]);
    assert_eq!(session.services.len(), 3);
    let turn = session.handle_message(Some(ServerMessage::Ready));
    assert!(turn.steps.is_empty() && matches!(turn.action, AttachAction::Continue));
    let turn = session.handle_message(Some(ServerMessage::ManagerStopping));
    assert!(matches!(turn.action, AttachAction::Exit));
    let turn = session.handle_message(None);
    assert!(matches!(turn.action, AttachAction::Exit));
    let error = ServerMessage::Error { message: "bad".to_owned() };
    let turn = session.handle_message(Some(error));
    assert!(matches!(turn.action, AttachAction::Fail(text) if text == "bad"));
}

#[test]
fn only_pressed_keys_count() {
    let event = KeyEvent { code: KeyCode::Enter, control: false };
    assert!(matches!(
        read_turn(Reading::Key { event, pressed: true }),
        (Some(InputEvent::Key(_)), true)
    ));
    assert!(matches!(read_turn(Reading::Key { event, pressed: false }), (None, true)));
    assert!(matches!(read_turn(Reading::Quiet), (None, true)));
    assert!(matches!(read_turn(Reading::Other), (None, true)));
    assert!(matches!(
        read_turn(Reading::Failed("lost".to_owned())),
        (Some(InputEvent::Error(_)), false)
    ));
}

#[test]
fn lays_out_the_terminal() {
    let terminal = AttachTerminal::new(Some((80, 10)), 3, 2).unwrap();
    assert_eq!(terminal.log_bottom_row(), 6);
    assert_eq!(terminal.status_start_row(), 7);
    assert_eq!(terminal.command_row(), 9);
    assert_eq!(terminal.footer_height(), 3);
    assert_eq!(
        written(&terminal.opening()),
        vec!["hide", "flush", "'\u{1b}[1;7r'", "@0,7", "down", "flush"]
    );
    let error = AttachTerminal::new(Some((80, 2)), 3, 2).unwrap_err();
    assert_eq!(error, TerminalError::TooFewRows);
    assert_eq!(error.message(), "attach requires a terminal with at least three rows");
    let error = AttachTerminal::new(None, 3, 2).unwrap_err();
    assert_eq!(error.message(), "failed to read terminal size");
}

#[test]
fn gives_the_terminal_back_once() {
    let mut terminal = AttachTerminal::new(Some((80, 10)), 3, 2).unwrap();
    assert_eq!(
        written(&terminal.restore().unwrap()),
        vec!["'\u{1b}[r'", "@0,7", "down", "show", "flush", "'\n'", "flush"]
    );
    terminal.restored = true;
    assert!(terminal.restore().is_none());
}

#[test]
fn prints_a_line_of_output() {
    let session = session();
    let mut terminal = AttachTerminal::new(Some((80, 10)), 4, 2).unwrap();
    let drawing =
        terminal.show(Some((80, 10)), &session, &Step::PrintLog(log("web", "listening")));
    assert_eq!(drawing.result, Ok(()));
    assert_eq!(
        written(&drawing.ops),
        vec![
            "@0,6", "clear", "DarkGrey", "' '", "reset", "Magenta", "'w'", "reset", "DarkGrey",
            "'eb'", "reset", "DarkGrey", "'>  '", "reset", "'listening'", "'\n'", "flush",
        ]
    );
}

#[test]
fn draws_the_footer() {
    let session = session();
    let mut terminal = AttachTerminal::new(Some((12, 5)), 3, 2).unwrap();
    let drawing = terminal.show(Some((12, 5)), &session, &Step::DrawPrompt(":r".to_owned()));
    assert_eq!(drawing.result, Ok(()));
    assert_eq!(
        written(&drawing.ops),
        vec![
            "@0,2", "clear", "@0,3", "clear", "@0,4", "clear", "@0,2", "DarkGrey", "'stopped  '",
            "reset", "Magenta", "'a'", "reset", "DarkGrey", "'pi'", "reset", "@0,3", "DarkGrey",
            "'stopped  '", "reset", "Magenta", "'w'", "reset", "DarkGrey", "'eb'", "reset", "@0,4",
            "White", "':r'", "reset", "@2,4", "show", "flush",
        ]
    );
    let drawing = terminal.show(Some((12, 5)), &session, &Step::DrawStatus);
    let ops = written(&drawing.ops);
    assert_eq!(ops[ops.len() - 2..], ["hide".to_owned(), "flush".to_owned()]);
}

#[test]
fn follows_the_size_and_the_number_of_services() {
    let session = session();
    let mut terminal = AttachTerminal::new(Some((12, 5)), 3, 1).unwrap();
    assert_eq!(terminal.status_start_row(), 3);
    let drawing = terminal.show(Some((12, 8)), &session, &Step::DrawStatus);
    let ops = written(&drawing.ops);
    assert_eq!(ops[..4], ["'\u{1b}[1;2r'", "@0,2", "down", "flush"]);
    assert_eq!(ops[4..8], ["'\u{1b}[1;5r'", "@0,5", "down", "flush"]);
    assert_eq!(terminal.rows, 8);
    assert_eq!(terminal.service_count, 2);
    let drawing = terminal.show(Some((12, 2)), &session, &Step::DrawStatus);
    assert_eq!(drawing.result, Err(TerminalError::TooFewRows));
    assert!(drawing.ops.is_empty());
    assert_eq!(terminal.rows, 8);
    let drawing = terminal.show(None, &session, &Step::PrintLog(log("web", "x")));
    assert_eq!(drawing.result, Err(TerminalError::UnknownSize));
    assert!(drawing.ops.is_empty());
    assert!(!matches!(drawing.ops.first(), Some(TermOp::SetColor(Color::White))));
}
