//! An attached terminal: what it knows of the services, what is being typed, and what it does
//! when a message or a key comes.

use vstd::prelude::*;

use crate::attach::commands::{
    asked_for, command_request, law_parse_ignores_outer_space, lemma_trim_keeps_first,
    parse_colon_command, parsed, request_of, ParseErrorView, SlashCommandView,
};
use crate::attach::complete::{autocomplete_colon_input, completed_line};
use crate::attach::service_names::{ServiceNames, ServiceNamesView};
use crate::attach::short_names::short_names_of;
use crate::attach::terminal::{drawn, size_fault, AttachTerminal, Drawing};
use crate::ipc::{
    ClientMessage, ClientMessageView, LogEntry, LogEntryView, ServerMessage, ServerMessageView,
    ServiceSnapshot, SnapshotView,
};
use crate::name_map::NameMap;
use crate::replies::{reply_fault, reply_view, ReplyError, ReplyErrorView};
use crate::text::{chars_of, cut, lemma_views_push, same_text, trim, trim_of, views, words};

verus! {

/// What is being typed: nothing, or a command line.
#[derive(Debug, PartialEq, Eq)]
pub enum InputMode {
    Status,
    Command(String),
}

/// What is being typed, as a value.
pub enum InputModeView {
    Status,
    Command(Seq<char>),
}

impl View for InputMode {
    type V = InputModeView;

    open spec fn view(&self) -> InputModeView {
        match *self {
            InputMode::Status => InputModeView::Status,
            InputMode::Command(buffer) => InputModeView::Command(buffer@),
        }
    }
}

/// A key.
#[derive(Debug, Clone, Copy, PartialEq, Eq, Structural)]
pub enum KeyCode {
    Char(char),
    Enter,
    Esc,
    Backspace,
    Tab,
    Other,
}

/// A key that was pressed, and whether control was held.
#[derive(Debug, Clone, Copy, PartialEq, Eq, Structural)]
pub struct KeyEvent {
    pub code: KeyCode,
    pub control: bool,
}

/// What comes from the keyboard.
#[derive(Debug)]
pub enum InputEvent {
    Key(KeyEvent),
    Error(String),
}

/// What comes of looking at the keyboard.
#[derive(Debug)]
pub enum Reading {
    /// Nothing happened for a while.
    Quiet,
    /// A key was pressed, or is held or let go.
    Key { event: KeyEvent, pressed: bool },
    /// Something else happened.
    Other,
    /// The keyboard can be read no more.
    Failed(String),
}

/// Something to show.
#[derive(Debug)]
pub enum Step {
    PrintLog(LogEntry),
    DrawStatus,
    DrawPrompt(String),
}

/// Something to show, as a value.
pub enum StepView {
    PrintLog(LogEntryView),
    DrawStatus,
    DrawPrompt(Seq<char>),
}

impl View for Step {
    type V = StepView;

    open spec fn view(&self) -> StepView {
        match *self {
            Step::PrintLog(entry) => StepView::PrintLog(entry@),
            Step::DrawStatus => StepView::DrawStatus,
            Step::DrawPrompt(buffer) => StepView::DrawPrompt(buffer@),
        }
    }
}

/// What to do once everything is shown: go on, leave, leave with an error, or ask the manager for
/// something.
#[derive(Debug)]
pub enum AttachAction {
    Continue,
    Exit,
    Fail(String),
    Submit(ClientMessage),
}

/// What to do once everything is shown, as a value.
pub enum AttachActionView {
    Continue,
    Exit,
    Fail(Seq<char>),
    Submit(ClientMessageView),
}

impl View for AttachAction {
    type V = AttachActionView;

    open spec fn view(&self) -> AttachActionView {
        match *self {
            AttachAction::Continue => AttachActionView::Continue,
            AttachAction::Exit => AttachActionView::Exit,
            AttachAction::Fail(message) => AttachActionView::Fail(message@),
            AttachAction::Submit(message) => AttachActionView::Submit(message@),
        }
    }
}

/// The outcome of an event: what to show, in order, and what to do then.
#[derive(Debug)]
pub struct Turn {
    pub steps: Vec<Step>,
    pub action: AttachAction,
}

/// The outcome of an event, as a value.
pub struct TurnView {
    pub steps: Seq<StepView>,
    pub action: AttachActionView,
}

impl View for Turn {
    type V = TurnView;

    open spec fn view(&self) -> TurnView {
        TurnView { steps: views(self.steps@), action: self.action@ }
    }
}

/// An attached terminal.
#[derive(Debug)]
pub struct Session {
    pub services: NameMap<ServiceSnapshot>,
    pub names: ServiceNames,
    pub mode: InputMode,
}

/// An attached terminal as a value.
#[verifier::ext_equal]
pub struct SessionView {
    pub services: Map<Seq<char>, SnapshotView>,
    pub names: ServiceNamesView,
    pub mode: InputModeView,
}

impl View for Session {
    type V = SessionView;

    open spec fn view(&self) -> SessionView {
        SessionView {
            services: snapshots(self.services@),
            names: self.names@,
            mode: self.mode@,
        }
    }
}

/// A session that just began, with what to show first.
#[derive(Debug)]
pub struct Opening {
    pub session: Session,
    pub max_name_width: usize,
    pub steps: Vec<Step>,
}

/// The snapshots of a map as values.
pub open spec fn snapshots(m: Map<Seq<char>, ServiceSnapshot>) -> Map<Seq<char>, SnapshotView> {
    m.map_values(|s: ServiceSnapshot| s@)
}

/// The services by their names; the last one counts where a name comes twice.
pub open spec fn by_name(services: Seq<SnapshotView>) -> Map<Seq<char>, SnapshotView>
    decreases services.len(),
{
    if services.len() == 0 {
        Map::empty()
    } else {
        by_name(services.drop_last()).insert(services.last().name, services.last())
    }
}

/// Each service is found by the name that it has.
pub open spec fn filed_by_name(services: Map<Seq<char>, SnapshotView>) -> bool {
    forall|name: Seq<char>| #[trigger]
        services.contains_key(name) ==> services[name].name == name
}

/// Whether a line is one that a colon opened.
pub open spec fn is_command_line(buffer: Seq<char>) -> bool {
    buffer.len() > 0 && buffer[0] == ':'
}

impl SessionView {
    /// The services are filed by name, and a command line begins with a colon.
    pub open spec fn wf(self) -> bool {
        &&& filed_by_name(self.services)
        &&& self.names.wf()
        &&& match self.mode {
            InputModeView::Status => true,
            InputModeView::Command(buffer) => is_command_line(buffer),
        }
    }
}

impl Session {
    /// The maps are well formed, and the session makes sense.
    pub open spec fn wf(&self) -> bool {
        &&& self.services.wf()
        &&& self.names.wf()
        &&& self@.wf()
    }
}

/// Nothing to show, and on.
pub open spec fn idle() -> TurnView {
    TurnView { steps: Seq::empty(), action: AttachActionView::Continue }
}

/// One thing to show, and on.
pub open spec fn showing(step: StepView) -> TurnView {
    TurnView { steps: seq![step], action: AttachActionView::Continue }
}

/// Nothing to show, and something else to do.
pub open spec fn ending(action: AttachActionView) -> TurnView {
    TurnView { steps: Seq::empty(), action }
}

/// The footer in its mode.
pub open spec fn footer_step(mode: InputModeView) -> StepView {
    match mode {
        InputModeView::Status => StepView::DrawStatus,
        InputModeView::Command(buffer) => StepView::DrawPrompt(buffer),
    }
}

/// A line that the terminal itself writes.
pub open spec fn own_line(line: Seq<char>) -> StepView {
    StepView::PrintLog(LogEntryView { service: "pm"@, line })
}

/// What is shown of a command that failed.
pub open spec fn failure_line(reason: Seq<char>) -> Seq<char> {
    "command failed: "@ + reason
}

/// The mode in which a buffer is typed: none once it is empty.
pub open spec fn mode_of(buffer: Seq<char>) -> InputModeView {
    if buffer.len() == 0 {
        InputModeView::Status
    } else {
        InputModeView::Command(buffer)
    }
}

/// The buffer once a key was pressed.
pub open spec fn edited(buffer: Seq<char>, key: KeyEvent, names: ServiceNamesView) -> Seq<char> {
    match key.code {
        KeyCode::Esc => Seq::empty(),
        KeyCode::Enter => Seq::empty(),
        KeyCode::Backspace => if buffer.len() == 0 {
            buffer
        } else {
            buffer.drop_last()
        },
        KeyCode::Tab => match completed_line(buffer, names) {
            Some(line) => line,
            None => buffer,
        },
        KeyCode::Char(c) => if key.control {
            buffer
        } else {
            buffer.push(c)
        },
        KeyCode::Other => buffer,
    }
}

/// What comes of a line that is entered: nothing where it holds no command, a line that says what
/// is wrong with it, or a request.
pub open spec fn entered(buffer: Seq<char>, names: ServiceNamesView) -> TurnView {
    let line = trim(buffer);
    if line == ":"@ || line.len() == 0 {
        showing(StepView::DrawStatus)
    } else {
        match parsed(line, names) {
            Ok(command) => TurnView {
                steps: seq![StepView::DrawStatus],
                action: AttachActionView::Submit(request_of(command)),
            },
            Err(error) => TurnView {
                steps: seq![
                    StepView::DrawStatus,
                    own_line(failure_line(error.message())),
                    StepView::DrawStatus,
                ],
                action: AttachActionView::Continue,
            },
        }
    }
}

/// What comes of a key while a command is typed.
pub open spec fn command_turn(buffer: Seq<char>, key: KeyEvent, names: ServiceNamesView) -> TurnView {
    match key.code {
        KeyCode::Esc => showing(StepView::DrawStatus),
        KeyCode::Enter => entered(buffer, names),
        KeyCode::Backspace => showing(footer_step(mode_of(edited(buffer, key, names)))),
        KeyCode::Tab => if completed_line(buffer, names) is Some {
            showing(StepView::DrawPrompt(edited(buffer, key, names)))
        } else {
            idle()
        },
        KeyCode::Char(c) => if key.control {
            idle()
        } else {
            showing(StepView::DrawPrompt(edited(buffer, key, names)))
        },
        KeyCode::Other => idle(),
    }
}

/// Whether the key is the one that leaves the terminal.
pub open spec fn is_interrupt(key: KeyEvent) -> bool {
    key.control && (key.code == KeyCode::Char('c') || key.code == KeyCode::Char('C'))
}

/// What comes of an event of the keyboard; there are no more events where there is none.
pub open spec fn input_turn(session: SessionView, event: Option<InputEvent>) -> TurnView {
    match event {
        None => ending(AttachActionView::Exit),
        Some(InputEvent::Error(message)) => ending(AttachActionView::Fail(message@)),
        Some(InputEvent::Key(key)) => {
            if is_interrupt(key) {
                ending(AttachActionView::Exit)
            } else {
                match session.mode {
                    InputModeView::Status => if key.code == KeyCode::Char(':') {
                        showing(StepView::DrawPrompt(":"@))
                    } else {
                        idle()
                    },
                    InputModeView::Command(buffer) => command_turn(buffer, key, session.names),
                }
            }
        },
    }
}

/// What is being typed after an event of the keyboard.
pub open spec fn input_mode(session: SessionView, event: Option<InputEvent>) -> InputModeView {
    match event {
        Some(InputEvent::Key(key)) => {
            if is_interrupt(key) {
                session.mode
            } else {
                match session.mode {
                    InputModeView::Status => if key.code == KeyCode::Char(':') {
                        InputModeView::Command(":"@)
                    } else {
                        session.mode
                    },
                    InputModeView::Command(buffer) => mode_of(edited(buffer, key, session.names)),
                }
            }
        },
        _ => session.mode,
    }
}

/// What comes of a message of the manager; the connection is closed where there is none.
pub open spec fn message_turn(session: SessionView, message: Option<ServerMessageView>) -> TurnView {
    match message {
        None => ending(AttachActionView::Exit),
        Some(ServerMessageView::ManagerStopping) => ending(AttachActionView::Exit),
        Some(ServerMessageView::Error { message: reason }) => ending(
            AttachActionView::Fail(reason),
        ),
        Some(ServerMessageView::Log { entry }) => match session.mode {
            InputModeView::Status => showing(StepView::PrintLog(entry)),
            InputModeView::Command(buffer) => TurnView {
                steps: seq![StepView::PrintLog(entry), StepView::DrawPrompt(buffer)],
                action: AttachActionView::Continue,
            },
        },
        Some(ServerMessageView::ServiceUpdate { service }) => showing(footer_step(session.mode)),
        _ => idle(),
    }
}

/// What is known of the services after a message of the manager.
pub open spec fn message_services(
    services: Map<Seq<char>, SnapshotView>,
    message: Option<ServerMessageView>,
) -> Map<Seq<char>, SnapshotView> {
    match message {
        Some(ServerMessageView::ServiceUpdate { service }) => services.insert(
            service.name,
            service,
        ),
        _ => services,
    }
}

/// What is shown of a request once it is answered.
pub open spec fn answer_steps(line: Seq<char>) -> Seq<StepView> {
    seq![own_line(line), StepView::DrawStatus]
}

/// What is shown first: the lines that the manager kept, then the services.
pub open spec fn opening_steps(logs: Seq<LogEntryView>) -> Seq<StepView> {
    logs.map_values(|entry: LogEntryView| StepView::PrintLog(entry)).push(StepView::DrawStatus)
}

/// A session that just began, as a value: what it knows of the services, what is being typed, how
/// wide the widest name is, and what to show first.
#[verifier::ext_equal]
pub struct OpeningView {
    pub services: Map<Seq<char>, SnapshotView>,
    pub mode: InputModeView,
    pub max_name_width: usize,
    pub steps: Seq<StepView>,
}

/// The session that the first message of the manager opens, or why it opens none.
pub open spec fn opened(first: Option<ServerMessageView>) -> Result<OpeningView, ReplyErrorView> {
    match first {
        Some(ServerMessageView::Snapshot { services, recent_logs, max_name_width }) => Ok(
            OpeningView {
                services: by_name(services),
                mode: InputModeView::Status,
                max_name_width,
                steps: opening_steps(recent_logs),
            },
        ),
        _ => Err(reply_fault(first, false)->0),
    }
}

/// What is shown once a request is answered, with what the manager said or with the reason why
/// there is no answer.
pub open spec fn finished(outcome: Result<Seq<char>, Seq<char>>) -> Seq<StepView> {
    answer_steps(
        match outcome {
            Ok(text) => text,
            Err(reason) => failure_line(reason),
        },
    )
}

/// What the manager says once it is done is printed as it is; a reason why it is not done is said
/// to be one.
pub proof fn law_outcomes_are_printed(text: Seq<char>)
    ensures
        finished(Ok(text)).len() == 2,
        finished(Ok(text))[0] == StepView::PrintLog(LogEntryView { service: "pm"@, line: text }),
        finished(Err(text)).len() == 2,
        finished(Err(text))[0] == StepView::PrintLog(
            LogEntryView { service: "pm"@, line: "command failed: "@ + text },
        ),
        finished(Ok(text))[1] is DrawStatus,
        finished(Err(text))[1] is DrawStatus,
{
}

proof fn lemma_by_name(services: Seq<SnapshotView>)
    ensures
        filed_by_name(by_name(services)),
    decreases services.len(),
{
    if services.len() > 0 {
        lemma_by_name(services.drop_last());
    }
}

proof fn lemma_completed_line_begins(buffer: Seq<char>, names: ServiceNamesView)
    requires
        completed_line(buffer, names) is Some,
    ensures
        is_command_line(completed_line(buffer, names)->0),
{
    reveal_strlit(":");
}

/// What comes from the keyboard leaves a session sound: the line that is typed always begins with
/// a colon, and is never empty.
pub proof fn law_input_keeps_the_session_sound(session: SessionView, event: Option<InputEvent>)
    requires
        session.wf(),
    ensures
        (SessionView { mode: input_mode(session, event), ..session }).wf(),
{
    reveal_strlit(":");
    if let Some(InputEvent::Key(key)) = event {
        if let InputModeView::Command(buffer) = session.mode {
            if completed_line(buffer, session.names) is Some {
                lemma_completed_line_begins(buffer, session.names);
            }
        }
    }
}

/// What comes from the manager leaves a session sound: each service is found by its name.
pub proof fn law_messages_keep_the_session_sound(
    session: SessionView,
    message: Option<ServerMessageView>,
)
    requires
        session.wf(),
    ensures
        (SessionView { services: message_services(session.services, message), ..session }).wf(),
{
}

/// A line that was typed in a session is never refused for the lack of a colon.
pub proof fn law_entered_line_has_its_colon(buffer: Seq<char>, names: ServiceNamesView)
    requires
        is_command_line(buffer),
    ensures
        parsed(trim(buffer), names) != Err::<SlashCommandView, ParseErrorView>(
            ParseErrorView::MissingColon,
        ),
{
    lemma_trim_keeps_first(buffer);
    lemma_trim_keeps_first(trim(buffer));
}

/// Whatever is typed, escape leaves the command line as it was before the colon.
pub proof fn law_escape_returns_to_the_status(session: SessionView, control: bool)
    ensures
        input_mode(
            session,
            Some(InputEvent::Key(KeyEvent { code: KeyCode::Esc, control })),
        ) is Status,
{
}

/// Backspace takes back the character that was typed last.
pub proof fn law_backspace_undoes_a_character(
    session: SessionView,
    buffer: Seq<char>,
    c: char,
    control: bool,
)
    requires
        session.mode == InputModeView::Command(buffer),
        is_command_line(buffer),
    ensures
        ({
            let typed = input_mode(
                session,
                Some(InputEvent::Key(KeyEvent { code: KeyCode::Char(c), control: false })),
            );
            input_mode(
                SessionView { mode: typed, ..session },
                Some(InputEvent::Key(KeyEvent { code: KeyCode::Backspace, control })),
            ) == session.mode
        }),
{
    assert(buffer.push(c).drop_last() =~= buffer);
}

/// A line that is entered asks the manager for what the line says, or for nothing where it says
/// nothing; a line that holds more than its colon and asks for nothing is answered with what is
/// wrong with it. Either way the line is done with, and the services are shown again.
pub proof fn law_entered_lines_ask_for_what_they_say(
    session: SessionView,
    buffer: Seq<char>,
    control: bool,
)
    requires
        session.mode == InputModeView::Command(buffer),
        is_command_line(buffer),
    ensures
        ({
            let event = Some(InputEvent::Key(KeyEvent { code: KeyCode::Enter, control }));
            let turn = input_turn(session, event);
            let asked = asked_for(buffer, session.names);
            &&& input_mode(session, event) is Status
            &&& turn.steps.len() > 0 && turn.steps[0] is DrawStatus && turn.steps.last()
                is DrawStatus
            &&& asked is Some ==> turn.action == AttachActionView::Submit(asked->0)
                && turn.steps.len() == 1
            &&& asked is None ==> turn.action is Continue
            &&& asked is None && trim(buffer).len() > 1 ==> turn.steps.len() == 3 && turn.steps[1]
                == StepView::PrintLog(
                LogEntryView {
                    service: "pm"@,
                    line: "command failed: "@ + parsed(buffer, session.names)->Err_0.message(),
                },
            )
            &&& trim(buffer).len() == 1 ==> turn.steps.len() == 1 && turn.action is Continue
        }),
{
    reveal_strlit(":");
    law_parse_ignores_outer_space(buffer, session.names);
    lemma_trim_keeps_first(buffer);
    let line = trim(buffer);
    if line.len() == 1 {
        assert(line =~= ":"@);
        lemma_trim_keeps_first(line);
        let parts = words(line.drop_first());
        law_parse_ignores_outer_space(line, session.names);
        assert(line.drop_first() =~= Seq::<char>::empty());
        assert(words(Seq::<char>::empty()).len() == 0);
    }
}

/// What is typed is the characters that were typed, in their order; keys that stand for nothing,
/// and those with control held, leave it as it is, and nothing is drawn for them.
pub proof fn law_typed_characters_follow_each_other(
    session: SessionView,
    buffer: Seq<char>,
    key: KeyEvent,
    c: char,
)
    requires
        session.mode == InputModeView::Command(buffer),
        is_command_line(buffer),
        key.code == KeyCode::Char(c) || key.code == KeyCode::Other,
    ensures
        ({
            let event = Some(InputEvent::Key(key));
            let turn = input_turn(session, event);
            &&& key.code == KeyCode::Char(c) && !key.control ==> {
                &&& input_mode(session, event) == InputModeView::Command(buffer.push(c))
                &&& turn.steps == seq![StepView::DrawPrompt(buffer.push(c))]
                &&& turn.action is Continue
            }
            &&& key.code == KeyCode::Other || key.control ==> {
                &&& input_mode(session, event) == session.mode
                &&& turn.steps.len() == 0
                &&& turn.action is Exit || turn.action is Continue
            }
        }),
{
}

/// Backspace takes off the last character that is there, and the command line is left with the
/// last one; escape leaves it at once. What is drawn is what is typed then.
pub proof fn law_lines_are_taken_back(session: SessionView, buffer: Seq<char>, key: KeyEvent)
    requires
        session.mode == InputModeView::Command(buffer),
        buffer.len() > 0,
        key.code == KeyCode::Backspace || key.code == KeyCode::Esc,
    ensures
        ({
            let event = Some(InputEvent::Key(key));
            let mode = input_mode(session, event);
            let turn = input_turn(session, event);
            &&& turn.action is Continue && turn.steps.len() == 1
            &&& key.code == KeyCode::Esc || buffer.len() == 1 ==> {
                &&& mode is Status
                &&& turn.steps[0] is DrawStatus
            }
            &&& key.code == KeyCode::Backspace && buffer.len() > 1 ==> {
                &&& mode == InputModeView::Command(buffer.subrange(0, buffer.len() - 1))
                &&& turn.steps[0] == StepView::DrawPrompt(buffer.subrange(0, buffer.len() - 1))
            }
        }),
{
    assert(buffer.drop_last() =~= buffer.subrange(0, buffer.len() - 1));
}

/// The tab key puts the completion in place of what is typed, where there is one, and draws it.
pub proof fn law_tab_completes(session: SessionView, buffer: Seq<char>, control: bool)
    requires
        session.mode == InputModeView::Command(buffer),
        session.wf(),
    ensures
        ({
            let event = Some(InputEvent::Key(KeyEvent { code: KeyCode::Tab, control }));
            let mode = input_mode(session, event);
            let turn = input_turn(session, event);
            &&& turn.action is Continue
            &&& completed_line(buffer, session.names) matches Some(line) ==> mode
                == InputModeView::Command(line) && turn.steps == seq![StepView::DrawPrompt(line)]
            &&& completed_line(buffer, session.names) is None ==> mode == session.mode
                && turn.steps.len() == 0
        }),
{
    if completed_line(buffer, session.names) is Some {
        lemma_completed_line_begins(buffer, session.names);
    }
}

/// While nothing is typed, a colon opens a command line, and no other key does anything.
pub proof fn law_a_colon_opens_the_command_line(session: SessionView, key: KeyEvent)
    requires
        session.mode is Status,
        !(key.control && (key.code == KeyCode::Char('c') || key.code == KeyCode::Char('C'))),
    ensures
        ({
            let event = Some(InputEvent::Key(key));
            let turn = input_turn(session, event);
            &&& turn.action is Continue
            &&& key.code == KeyCode::Char(':') ==> {
                &&& input_mode(session, event) == InputModeView::Command(seq![':'])
                &&& turn.steps == seq![StepView::DrawPrompt(seq![':'])]
            }
            &&& key.code != KeyCode::Char(':') ==> {
                &&& input_mode(session, event) is Status
                &&& turn.steps.len() == 0
            }
        }),
{
    reveal_strlit(":");
    assert(":"@ =~= seq![':']);
}

/// Whatever is typed, the terminal is left where the keyboard ends, and where control is held with
/// the letter `c`, and at no other key; an error of the keyboard is told. Nothing is asked of the
/// manager but by the enter key.
pub proof fn law_keys_that_leave(session: SessionView, event: Option<InputEvent>)
    ensures
        input_turn(session, event).action is Exit <==> match event {
            None => true,
            Some(InputEvent::Error(_)) => false,
            Some(InputEvent::Key(key)) => key.control && (key.code == KeyCode::Char('c') || key.code
                == KeyCode::Char('C')),
        },
        input_turn(session, event).action is Fail <==> event matches Some(InputEvent::Error(_)),
        event matches Some(InputEvent::Error(message)) ==> input_turn(session, event).action
            == AttachActionView::Fail(message@),
        input_turn(session, event).action is Submit ==> (event matches Some(InputEvent::Key(key))
            && key.code == KeyCode::Enter && session.mode is Command),
{
}

/// A message never asks for anything; the terminal is left where the connection ends or the
/// manager stops, and fails with what the manager says where that is an error.
pub proof fn law_messages_that_leave(session: SessionView, message: Option<ServerMessageView>)
    ensures
        ({
            let action = message_turn(session, message).action;
            &&& action is Exit <==> message is None || message->0 is ManagerStopping
            &&& action is Fail <==> message is Some && message->0 is Error
            &&& message matches Some(ServerMessageView::Error { message: told }) ==> action
                == AttachActionView::Fail(told)
            &&& action !is Submit
        }),
{
}

/// Each line that the manager tells is printed, once and as it came; the line that is being typed
/// is drawn again behind it.
pub proof fn law_told_lines_are_printed(session: SessionView, entry: LogEntryView)
    ensures
        ({
            let message = Some(ServerMessageView::Log { entry });
            let steps = message_turn(session, message).steps;
            &&& steps.len() > 0 && steps[0] == StepView::PrintLog(entry)
            &&& message_services(session.services, message) == session.services
            &&& session.mode is Status ==> steps.len() == 1
            &&& session.mode matches InputModeView::Command(buffer) ==> steps.len() == 2 && steps[1]
                == StepView::DrawPrompt(buffer)
        }),
{
}

/// What the manager tells of a service is known of this service from then on, and nothing else
/// changes; the services are drawn again, with the line that is being typed.
pub proof fn law_told_services_are_known(session: SessionView, service: SnapshotView, name: Seq<char>)
    ensures
        ({
            let message = Some(ServerMessageView::ServiceUpdate { service });
            let after = message_services(session.services, message);
            let steps = message_turn(session, message).steps;
            &&& name == service.name ==> after.contains_key(name) && after[name] == service
            &&& name != service.name ==> {
                &&& after.contains_key(name) <==> session.services.contains_key(name)
                &&& after[name] == session.services[name]
            }
            &&& steps.len() == 1
            &&& session.mode is Status ==> steps[0] is DrawStatus
            &&& session.mode matches InputModeView::Command(buffer) ==> steps[0]
                == StepView::DrawPrompt(buffer)
        }),
{
}

/// A session knows each service that the manager first tells of, under its name and as it was told
/// last, and no others.
pub proof fn law_first_services_are_known(services: Seq<SnapshotView>, i: int)
    requires
        0 <= i < services.len(),
        forall|j: int| i < j < services.len() ==> (#[trigger] services[j]).name != services[i].name,
    ensures
        by_name(services).contains_key(services[i].name),
        by_name(services)[services[i].name] == services[i],
        forall|name: Seq<char>| #[trigger]
            by_name(services).contains_key(name) ==> exists|j: int|
                0 <= j < services.len() && (#[trigger] services[j]).name == name,
    decreases services.len(),
{
    lemma_only_told_services(services);
    if i < services.len() - 1 {
        let front = services.drop_last();
        assert forall|j: int| i < j < front.len() implies (#[trigger] front[j]).name
            != front[i].name by {
            assert(front[j] == services[j]);
        }
        law_first_services_are_known(front, i);
        assert(services[services.len() - 1].name != services[i].name);
    }
}

proof fn lemma_only_told_services(services: Seq<SnapshotView>)
    ensures
        forall|name: Seq<char>| #[trigger]
            by_name(services).contains_key(name) ==> exists|j: int|
                0 <= j < services.len() && (#[trigger] services[j]).name == name,
    decreases services.len(),
{
    if services.len() > 0 {
        let front = services.drop_last();
        lemma_only_told_services(front);
        assert forall|name: Seq<char>| #[trigger] by_name(services).contains_key(name) implies exists|
            j: int,
        | 0 <= j < services.len() && (#[trigger] services[j]).name == name by {
            if name == services.last().name {
                assert(services[services.len() - 1].name == name);
            } else {
                assert(by_name(front).contains_key(name));
                let j = choose|j: int|
                    0 <= j < front.len() && (#[trigger] front[j]).name == name;
                assert(services[j].name == name);
            }
        }
    }
}

/// A session begins with the lines that the manager kept, each once and in their order, and then
/// the services.
pub proof fn law_kept_lines_come_first(logs: Seq<LogEntryView>)
    ensures
        opening_steps(logs).len() == logs.len() + 1,
        forall|i: int|
            0 <= i < logs.len() ==> #[trigger] opening_steps(logs)[i] == StepView::PrintLog(logs[i]),
        opening_steps(logs).last() is DrawStatus,
{
}

/// What comes of a request is printed as a line of the terminal's own, before the services.
pub proof fn law_answers_are_printed(line: Seq<char>)
    ensures
        answer_steps(line).len() == 2,
        answer_steps(line)[0] == StepView::PrintLog(LogEntryView { service: "pm"@, line }),
        answer_steps(line)[1] is DrawStatus,
        failure_line(line) == "command failed: "@ + line,
{
}

/// One thing to show, and on.
fn show(step: Step) -> (r: Turn)
    ensures
        r@ == showing(step@),
{
    let mut steps: Vec<Step> = Vec::new();
    steps.push(step);
    assert(views(steps@) =~= seq![step@]);
    Turn { steps, action: AttachAction::Continue }
}

/// Nothing to show, and something else to do.
fn end(action: AttachAction) -> (r: Turn)
    ensures
        r@ == ending(action@),
{
    let steps: Vec<Step> = Vec::new();
    assert(views(steps@) =~= Seq::<StepView>::empty());
    Turn { steps, action }
}

/// A line that the terminal itself writes.
fn own_step(line: String) -> (r: Step)
    ensures
        r@ == own_line(line@),
{
    Step::PrintLog(LogEntry { service: "pm".to_owned(), line })
}

/// What is shown of a command that failed.
fn failure_text(reason: &str) -> (r: String)
    ensures
        r@ == failure_line(reason@),
{
    let mut r = "command failed: ".to_owned();
    r.append(reason);
    r
}

/// What comes of a line that is entered.
fn enter_line(buffer: &str, names: &ServiceNames) -> (r: Turn)
    requires
        names.wf(),
    ensures
        r@ == entered(buffer@, names@),
{
    let line = trim_of(buffer);
    if same_text(line.as_str(), ":") || chars_of(line.as_str()).len() == 0 {
        return show(Step::DrawStatus);
    }
    match parse_colon_command(line.as_str(), names) {
        Ok(command) => {
            let mut steps: Vec<Step> = Vec::new();
            steps.push(Step::DrawStatus);
            assert(views(steps@) =~= seq![StepView::DrawStatus]);
            Turn { steps, action: AttachAction::Submit(command_request(command)) }
        },
        Err(error) => {
            let mut steps: Vec<Step> = Vec::new();
            let own = own_step(failure_text(error.message().as_str()));
            steps.push(Step::DrawStatus);
            steps.push(own);
            steps.push(Step::DrawStatus);
            assert(views(steps@) =~= seq![StepView::DrawStatus, own@, StepView::DrawStatus]);
            Turn { steps, action: AttachAction::Continue }
        },
    }
}

/// Takes in a key while a command is typed.
pub fn handle_command_key(key: KeyEvent, buffer: &mut String, names: &ServiceNames) -> (r: Turn)
    requires
        names.wf(),
    ensures
        final(buffer)@ == edited(old(buffer)@, key, names@),
        r@ == command_turn(old(buffer)@, key, names@),
{
    match key.code {
        KeyCode::Esc => {
            *buffer = String::new();
            show(Step::DrawStatus)
        },
        KeyCode::Backspace => {
            let chars = chars_of(buffer.as_str());
            if chars.len() > 0 {
                *buffer = cut(&chars, 0, chars.len() - 1);
                assert(buffer@ =~= old(buffer)@.drop_last());
            }
            if chars.len() <= 1 {
                show(Step::DrawStatus)
            } else {
                show(Step::DrawPrompt(buffer.clone()))
            }
        },
        KeyCode::Tab => {
            match autocomplete_colon_input(buffer.as_str(), names) {
                Some(completed) => {
                    *buffer = completed;
                    show(Step::DrawPrompt(buffer.clone()))
                },
                None => end(AttachAction::Continue),
            }
        },
        KeyCode::Enter => {
            let turn = enter_line(buffer.as_str(), names);
            *buffer = String::new();
            turn
        },
        KeyCode::Char(c) => {
            if key.control {
                end(AttachAction::Continue)
            } else {
                buffer.push(c);
                show(Step::DrawPrompt(buffer.clone()))
            }
        },
        KeyCode::Other => end(AttachAction::Continue),
    }
}

/// Takes in a key while no command is typed: a colon opens one.
pub fn handle_status_key(key: KeyEvent, mode: &mut InputMode) -> (r: Turn)
    ensures
        final(mode)@ == if key.code == KeyCode::Char(':') {
            InputModeView::Command(":"@)
        } else {
            old(mode)@
        },
        r@ == if key.code == KeyCode::Char(':') {
            showing(StepView::DrawPrompt(":"@))
        } else {
            idle()
        },
{
    if key.code == KeyCode::Char(':') {
        *mode = InputMode::Command(":".to_owned());
        show(Step::DrawPrompt(":".to_owned()))
    } else {
        end(AttachAction::Continue)
    }
}

/// Puts the services into a map by their names.
fn collect_services(services: Vec<ServiceSnapshot>) -> (r: NameMap<ServiceSnapshot>)
    ensures
        r.wf(),
        snapshots(r@) == by_name(views(services@)),
{
    let mut r: NameMap<ServiceSnapshot> = NameMap::new();
    let count = services.len();
    assert(snapshots(r@) =~= by_name(views(services@).take(0)));
    for i in 0..count
        invariant
            count == services@.len(),
            r.wf(),
            snapshots(r@) == by_name(views(services@).take(i as int)),
    {
        let service = services[i].clone();
        let ghost all = views(services@);
        let ghost before = r@;
        r.insert(service.name.clone(), service);
        proof {
            assert(all.take(i + 1).drop_last() =~= all.take(i as int));
            assert(all.take(i + 1).last() == service@);
            assert(snapshots(before.insert(service.name@, service)) =~= snapshots(before).insert(
                service.name@,
                service@,
            ));
        }
    }
    assert(views(services@).take(count as int) =~= views(services@));
    r
}

impl Session {
    /// Begins a session with the first message of the manager.
    pub fn open(first: Option<ServerMessage>) -> (r: Result<Opening, ReplyError>)
        ensures
            match r {
                Ok(opening) => {
                    &&& opening.session.wf()
                    &&& opening.session.mode is Status
                    &&& opening.session.names@.short_by_full == short_names_of(
                        opening.session.services.names(),
                    )
                    &&& match reply_view(first) {
                        Some(
                            ServerMessageView::Snapshot { services, recent_logs, max_name_width },
                        ) => {
                            &&& opening.session@.services == by_name(services)
                            &&& opening.max_name_width == max_name_width
                            &&& views(opening.steps@) == opening_steps(recent_logs)
                        },
                        _ => false,
                    }
                },
                Err(error) => reply_fault(
                    reply_view(first),
                    first is Some && first->0 is Snapshot,
                ) == Some(error@),
            },
            match r {
                Ok(opening) => opened(reply_view(first)) == Ok::<OpeningView, ReplyErrorView>(
                    OpeningView {
                        services: opening.session@.services,
                        mode: opening.session@.mode,
                        max_name_width: opening.max_name_width,
                        steps: views(opening.steps@),
                    },
                ),
                Err(error) => opened(reply_view(first)) == Err::<OpeningView, ReplyErrorView>(
                    error@,
                ),
            },
    {
        match first {
            None => Err(ReplyError::Closed),
            Some(ServerMessage::Snapshot { services, recent_logs, max_name_width }) => {
                let map = collect_services(services);
                proof {
                    lemma_by_name(views(services@));
                }
                let names = ServiceNames::from_services(&map);
                let mut steps: Vec<Step> = Vec::new();
                let count = recent_logs.len();
                let ghost wanted = opening_steps(views(recent_logs@));
                for i in 0..count
                    invariant
                        count == recent_logs@.len(),
                        wanted == opening_steps(views(recent_logs@)),
                        views(steps@) == wanted.take(i as int),
                {
                    let step = Step::PrintLog(recent_logs[i].clone());
                    proof {
                        lemma_views_push(steps@, step);
                        assert(wanted[i as int] == step@);
                        assert(wanted.take(i + 1) =~= wanted.take(i as int).push(step@));
                    }
                    steps.push(step);
                }
                proof {
                    lemma_views_push(steps@, Step::DrawStatus);
                    assert(wanted.take(count as int).push(StepView::DrawStatus) =~= wanted);
                }
                steps.push(Step::DrawStatus);
                Ok(
                    Opening {
                        session: Session { services: map, names, mode: InputMode::Status },
                        max_name_width,
                        steps,
                    },
                )
            },
            Some(ServerMessage::Error { message }) => Err(ReplyError::Refused(message)),
            Some(other) => Err(ReplyError::Unexpected(other)),
        }
    }

    /// Takes in a message of the manager.
    pub fn handle_message(&mut self, message: Option<ServerMessage>) -> (r: Turn)
        requires
            old(self).wf(),
        ensures
            final(self).wf(),
            final(self)@ == (SessionView {
                services: message_services(old(self)@.services, reply_view(message)),
                ..old(self)@
            }),
            r@ == message_turn(old(self)@, reply_view(message)),
    {
        match message {
            None => end(AttachAction::Exit),
            Some(ServerMessage::ManagerStopping) => end(AttachAction::Exit),
            Some(ServerMessage::Error { message: reason }) => end(AttachAction::Fail(reason)),
            Some(ServerMessage::Log { entry }) => match &self.mode {
                InputMode::Status => show(Step::PrintLog(entry)),
                InputMode::Command(buffer) => {
                    let mut steps: Vec<Step> = Vec::new();
                    steps.push(Step::PrintLog(entry));
                    steps.push(Step::DrawPrompt(buffer.clone()));
                    assert(views(steps@) =~= seq![
                        StepView::PrintLog(entry@),
                        StepView::DrawPrompt(buffer@),
                    ]);
                    Turn { steps, action: AttachAction::Continue }
                },
            },
            Some(ServerMessage::ServiceUpdate { service }) => {
                let ghost before = self.services@;
                self.services.insert(service.name.clone(), service);
                proof {
                    assert(snapshots(before.insert(service.name@, service)) =~= snapshots(
                        before,
                    ).insert(service.name@, service@));
                    law_messages_keep_the_session_sound(old(self)@, reply_view(message));
                }
                match &self.mode {
                    InputMode::Status => show(Step::DrawStatus),
                    InputMode::Command(buffer) => show(Step::DrawPrompt(buffer.clone())),
                }
            },
            Some(_) => end(AttachAction::Continue),
        }
    }

    /// Takes in an event of the keyboard.
    pub fn handle_input_event(&mut self, event: Option<InputEvent>) -> (r: Turn)
        requires
            old(self).wf(),
        ensures
            final(self).wf(),
            final(self)@ == (SessionView { mode: input_mode(old(self)@, event), ..old(self)@ }),
            r@ == input_turn(old(self)@, event),
    {
        proof {
            law_input_keeps_the_session_sound(self@, event);
        }
        match event {
            None => end(AttachAction::Exit),
            Some(InputEvent::Error(message)) => end(AttachAction::Fail(message)),
            Some(InputEvent::Key(key)) => {
                if key.control && (key.code == KeyCode::Char('c') || key.code == KeyCode::Char(
                    'C',
                )) {
                    return end(AttachAction::Exit);
                }
                match &self.mode {
                    InputMode::Status => handle_status_key(key, &mut self.mode),
                    InputMode::Command(buffer) => {
                        let mut typed = buffer.clone();
                        let turn = handle_command_key(key, &mut typed, &self.names);
                        if chars_of(typed.as_str()).len() == 0 {
                            self.mode = InputMode::Status;
                        } else {
                            self.mode = InputMode::Command(typed);
                        }
                        turn
                    },
                }
            },
        }
    }
}

/// The event that comes of looking at the keyboard, if one does, and whether to look again.
pub open spec fn read_next(reading: Reading) -> (Option<InputEvent>, bool) {
    match reading {
        Reading::Key { event, pressed: true } => (Some(InputEvent::Key(event)), true),
        Reading::Failed(message) => (Some(InputEvent::Error(message)), false),
        _ => (None, true),
    }
}

/// The keyboard is looked at until it can be read no more, which is told; each key counts once,
/// where it is pressed and not where it is let go.
pub proof fn law_keys_count_once(reading: Reading)
    ensures
        !read_next(reading).1 <==> reading is Failed,
        reading matches Reading::Failed(message) ==> read_next(reading).0 == Some(
            InputEvent::Error(message),
        ),
        reading matches Reading::Key { event, pressed } ==> read_next(reading).0 == if pressed {
            Some(InputEvent::Key(event))
        } else {
            None
        },
        reading is Quiet || reading is Other ==> read_next(reading).0 is None,
{
}

/// The event that comes of looking at the keyboard, if one does, and whether to look again: only
/// a key that is pressed counts, and an error is the last event.
pub fn read_turn(reading: Reading) -> (r: (Option<InputEvent>, bool))
    ensures
        r == match reading {
            Reading::Key { event, pressed: true } => (Some(InputEvent::Key(event)), true),
            Reading::Failed(message) => (Some(InputEvent::Error(message)), false),
            _ => (None::<InputEvent>, true),
        },
        r == read_next(reading),
{
    match reading {
        Reading::Key { event, pressed } => if pressed {
            (Some(InputEvent::Key(event)), true)
        } else {
            (None, true)
        },
        Reading::Failed(message) => (Some(InputEvent::Error(message)), false),
        _ => (None, true),
    }
}

/// What to show once the manager has answered a request, with what it said or with the reason why
/// there is no answer.
pub fn finish_command(outcome: Result<String, String>) -> (r: Vec<Step>)
    ensures
        views(r@) == answer_steps(
            match outcome {
                Ok(text) => text@,
                Err(reason) => failure_line(reason@),
            },
        ),
        views(r@) == finished(
            match outcome {
                Ok(text) => Ok(text@),
                Err(reason) => Err(reason@),
            },
        ),
{
    let line = match outcome {
        Ok(text) => text,
        Err(reason) => failure_text(reason.as_str()),
    };
    let mut steps: Vec<Step> = Vec::new();
    let own = own_step(line);
    steps.push(own);
    steps.push(Step::DrawStatus);
    assert(views(steps@) =~= seq![own@, StepView::DrawStatus]);
    steps
}

impl AttachTerminal {
    /// Shows one thing of a session, in a terminal whose size was just read.
    pub fn show(&mut self, size: Option<(u16, u16)>, session: &Session, step: &Step) -> (r: Drawing)
        requires
            old(self).wf(),
            session.wf(),
        ensures
            final(self).wf(),
            match step@ {
                StepView::PrintLog(entry) => {
                    &&& *final(self) == old(self).with_size(size)
                    &&& match r.result {
                        Ok(()) => size_fault(size) is None && views(r.ops@) == old(self).size_ops(
                            size,
                        ) + final(self).log_ops(entry, session.names@),
                        Err(error) => size_fault(size) == Some(error) && views(r.ops@) == old(
                            self,
                        ).size_ops(size),
                    }
                },
                StepView::DrawStatus => drawn(
                    *old(self),
                    *final(self),
                    size,
                    &session.services,
                    session.names@,
                    None,
                    r,
                ),
                StepView::DrawPrompt(buffer) => drawn(
                    *old(self),
                    *final(self),
                    size,
                    &session.services,
                    session.names@,
                    Some(buffer),
                    r,
                ),
            },
    {
        match step {
            Step::PrintLog(entry) => self.print_log(size, entry, &session.names),
            Step::DrawStatus => self.draw_status(size, &session.services, &session.names),
            Step::DrawPrompt(buffer) => self.draw_command_prompt(
                size,
                &session.services,
                &session.names,
                buffer.as_str(),
            ),
        }
    }
}

} // verus!
