//! The commands that can be typed after a colon.

use vstd::prelude::*;

use crate::attach::service_names::{
    begins_with, law_only_names_resolve, ServiceNames, ServiceNamesView,
};
use crate::ipc::{ClientMessage, ClientMessageView, ProcessAction};
use crate::text::{
    chars_of, cut, lemma_run, lemma_views_push, run, same_text, starts_with, trim, trim_end, trim_of,
    trim_start, views, white_space, words, words_of, is_white,
};

verus! {

/// A command, with the service that it is about.
#[derive(Debug, PartialEq, Eq)]
pub enum SlashCommand {
    RestartAll,
    RestartService(String),
    StopAll,
    StopService(String),
    StartAll,
    StartService(String),
}

/// A command as a value.
pub enum SlashCommandView {
    RestartAll,
    RestartService(Seq<char>),
    StopAll,
    StopService(Seq<char>),
    StartAll,
    StartService(Seq<char>),
}

impl View for SlashCommand {
    type V = SlashCommandView;

    open spec fn view(&self) -> SlashCommandView {
        match *self {
            SlashCommand::RestartAll => SlashCommandView::RestartAll,
            SlashCommand::RestartService(service) => SlashCommandView::RestartService(service@),
            SlashCommand::StopAll => SlashCommandView::StopAll,
            SlashCommand::StopService(service) => SlashCommandView::StopService(service@),
            SlashCommand::StartAll => SlashCommandView::StartAll,
            SlashCommand::StartService(service) => SlashCommandView::StartService(service@),
        }
    }
}

/// What a command takes as its argument.
#[derive(Debug, Clone, Copy, PartialEq, Eq, Structural)]
pub enum SlashArgKind {
    Nothing,
    Service,
}

/// Why a line is no command.
#[derive(Debug, PartialEq, Eq)]
pub enum ParseError {
    MissingColon,
    EmptyCommand,
    TakesNoArguments { name: String },
    RequiresService { name: String },
    OneServiceOnly { name: String },
    UnknownCommand { name: String },
    UnknownService { token: String },
}

/// Why a line is no command, as a value.
pub enum ParseErrorView {
    MissingColon,
    EmptyCommand,
    TakesNoArguments { name: Seq<char> },
    RequiresService { name: Seq<char> },
    OneServiceOnly { name: Seq<char> },
    UnknownCommand { name: Seq<char> },
    UnknownService { token: Seq<char> },
}

impl View for ParseError {
    type V = ParseErrorView;

    open spec fn view(&self) -> ParseErrorView {
        match *self {
            ParseError::MissingColon => ParseErrorView::MissingColon,
            ParseError::EmptyCommand => ParseErrorView::EmptyCommand,
            ParseError::TakesNoArguments { name } => ParseErrorView::TakesNoArguments {
                name: name@,
            },
            ParseError::RequiresService { name } => ParseErrorView::RequiresService { name: name@ },
            ParseError::OneServiceOnly { name } => ParseErrorView::OneServiceOnly { name: name@ },
            ParseError::UnknownCommand { name } => ParseErrorView::UnknownCommand { name: name@ },
            ParseError::UnknownService { token } => ParseErrorView::UnknownService {
                token: token@,
            },
        }
    }
}

impl ParseErrorView {
    /// The error in words.
    pub open spec fn message(self) -> Seq<char> {
        match self {
            ParseErrorView::MissingColon => "commands must start with `:`"@,
            ParseErrorView::EmptyCommand => "empty command"@,
            ParseErrorView::TakesNoArguments { name } => "`:"@ + name
                + "` does not take arguments"@,
            ParseErrorView::RequiresService { name } => "`:"@ + name
                + "` requires a service name"@,
            ParseErrorView::OneServiceOnly { name } => "`:"@ + name
                + "` accepts exactly one service name"@,
            ParseErrorView::UnknownCommand { name } => "unknown command `:"@ + name + "`"@,
            ParseErrorView::UnknownService { token } => "unknown service `"@ + token + "`"@,
        }
    }
}

/// `before`, the name and `after`.
fn quoted(before: &str, name: &str, after: &str) -> (r: String)
    ensures
        r@ == before@ + name@ + after@,
{
    let mut r = before.to_owned();
    r.append(name);
    r.append(after);
    r
}

impl ParseError {
    /// The error in words.
    pub fn message(&self) -> (r: String)
        ensures
            r@ == self@.message(),
    {
        match self {
            ParseError::MissingColon => "commands must start with `:`".to_owned(),
            ParseError::EmptyCommand => "empty command".to_owned(),
            ParseError::TakesNoArguments { name } => quoted(
                "`:",
                name.as_str(),
                "` does not take arguments",
            ),
            ParseError::RequiresService { name } => quoted(
                "`:",
                name.as_str(),
                "` requires a service name",
            ),
            ParseError::OneServiceOnly { name } => quoted(
                "`:",
                name.as_str(),
                "` accepts exactly one service name",
            ),
            ParseError::UnknownCommand { name } => quoted("unknown command `:", name.as_str(), "`"),
            ParseError::UnknownService { token } => quoted("unknown service `", token.as_str(), "`"),
        }
    }
}

/// The commands, in the order in which completion tries them.
pub open spec fn command_names() -> Seq<Seq<char>> {
    seq!["ra"@, "restart-all"@, "r"@, "restart"@, "stop-all"@, "stop"@, "start-all"@, "start"@]
}

/// What the command does to all services, if it is one that is about all.
pub open spec fn all_action(command: Seq<char>) -> Option<ProcessAction> {
    if command == "ra"@ || command == "restart-all"@ {
        Some(ProcessAction::Restart)
    } else if command == "stop-all"@ {
        Some(ProcessAction::Stop)
    } else if command == "start-all"@ {
        Some(ProcessAction::Start)
    } else {
        None
    }
}

/// What the command does to a service, if it is one that is about a single service.
pub open spec fn service_action(command: Seq<char>) -> Option<ProcessAction> {
    if command == "r"@ || command == "restart"@ {
        Some(ProcessAction::Restart)
    } else if command == "stop"@ {
        Some(ProcessAction::Stop)
    } else if command == "start"@ {
        Some(ProcessAction::Start)
    } else {
        None
    }
}

/// What the command takes as its argument, if there is such a command.
pub open spec fn arg_kind(command: Seq<char>) -> Option<SlashArgKind> {
    if all_action(command) is Some {
        Some(SlashArgKind::Nothing)
    } else if service_action(command) is Some {
        Some(SlashArgKind::Service)
    } else {
        None
    }
}

/// The command for all services.
pub open spec fn for_all(action: ProcessAction) -> SlashCommandView {
    match action {
        ProcessAction::Restart => SlashCommandView::RestartAll,
        ProcessAction::Stop => SlashCommandView::StopAll,
        ProcessAction::Start => SlashCommandView::StartAll,
    }
}

/// The command for a single service.
pub open spec fn for_service(action: ProcessAction, service: Seq<char>) -> SlashCommandView {
    match action {
        ProcessAction::Restart => SlashCommandView::RestartService(service),
        ProcessAction::Stop => SlashCommandView::StopService(service),
        ProcessAction::Start => SlashCommandView::StartService(service),
    }
}

/// The command that a name and its arguments make.
pub open spec fn command_of(
    name: Seq<char>,
    arguments: Seq<Seq<char>>,
    names: ServiceNamesView,
) -> Result<SlashCommandView, ParseErrorView> {
    match (all_action(name), service_action(name)) {
        (Some(action), _) => {
            if arguments.len() == 0 {
                Ok(for_all(action))
            } else {
                Err(ParseErrorView::TakesNoArguments { name })
            }
        },
        (None, Some(action)) => {
            if arguments.len() == 0 {
                Err(ParseErrorView::RequiresService { name })
            } else if arguments.len() == 1 {
                match names.resolve(arguments[0]) {
                    Some(service) => Ok(for_service(action, service)),
                    None => Err(ParseErrorView::UnknownService { token: arguments[0] }),
                }
            } else {
                Err(ParseErrorView::OneServiceOnly { name })
            }
        },
        (None, None) => Err(ParseErrorView::UnknownCommand { name }),
    }
}

/// The command that the line holds: a colon, then a name and its arguments.
pub open spec fn parsed(input: Seq<char>, names: ServiceNamesView) -> Result<
    SlashCommandView,
    ParseErrorView,
> {
    let line = trim(input);
    if line.len() == 0 || line[0] != ':' {
        Err(ParseErrorView::MissingColon)
    } else {
        let parts = words(line.drop_first());
        if parts.len() == 0 {
            Err(ParseErrorView::EmptyCommand)
        } else {
            command_of(parts[0], parts.drop_first(), names)
        }
    }
}

/// The message that asks the manager for what the command says.
pub open spec fn request_of(command: SlashCommandView) -> ClientMessageView {
    match command {
        SlashCommandView::RestartAll => ClientMessageView::AllAction {
            action: ProcessAction::Restart,
        },
        SlashCommandView::RestartService(service) => ClientMessageView::ProcessAction {
            service,
            action: ProcessAction::Restart,
        },
        SlashCommandView::StopAll => ClientMessageView::AllAction { action: ProcessAction::Stop },
        SlashCommandView::StopService(service) => ClientMessageView::ProcessAction {
            service,
            action: ProcessAction::Stop,
        },
        SlashCommandView::StartAll => ClientMessageView::AllAction { action: ProcessAction::Start },
        SlashCommandView::StartService(service) => ClientMessageView::ProcessAction {
            service,
            action: ProcessAction::Start,
        },
    }
}

/// Completion offers all commands that are understood, and no others.
pub proof fn law_offered_commands_are_understood(command: Seq<char>)
    ensures
        command_names().contains(command) <==> arg_kind(command) is Some,
{
    let all = command_names();
    assert(all[0] == "ra"@ && all[1] == "restart-all"@ && all[2] == "r"@ && all[3] == "restart"@
        && all[4] == "stop-all"@ && all[5] == "stop"@ && all[6] == "start-all"@ && all[7]
        == "start"@);
}

/// Four words take a service and four take nothing; no other word is a command.
pub proof fn law_commands_take_what_they_are_about(word: Seq<char>)
    ensures
        arg_kind(word) == Some(SlashArgKind::Service) <==> word == "r"@ || word == "restart"@
            || word == "stop"@ || word == "start"@,
        arg_kind(word) == Some(SlashArgKind::Nothing) <==> word == "ra"@ || word == "restart-all"@
            || word == "stop-all"@ || word == "start-all"@,
{
    lemma_words_differ();
}

/// A command that is about a service names one that there is.
pub proof fn law_parsed_service_exists(input: Seq<char>, names: ServiceNamesView)
    requires
        names.wf(),
    ensures
        match parsed(input, names) {
            Ok(SlashCommandView::RestartService(service)) => names.short_by_full.contains_key(
                service,
            ),
            Ok(SlashCommandView::StopService(service)) => names.short_by_full.contains_key(service),
            Ok(SlashCommandView::StartService(service)) => names.short_by_full.contains_key(
                service,
            ),
            _ => true,
        },
{
    let line = trim(input);
    if line.len() > 0 && line[0] == ':' {
        let parts = words(line.drop_first());
        if parts.len() == 2 && names.resolve(parts[1]) is Some {
            assert(parts.drop_first()[0] == parts[1]);
            law_only_names_resolve(names, parts[1]);
        }
    }
}

/// What a line asks the manager for; nothing where it is no command.
pub open spec fn asked_for(input: Seq<char>, names: ServiceNamesView) -> Option<ClientMessageView> {
    match parsed(input, names) {
        Ok(command) => Some(request_of(command)),
        Err(_) => None,
    }
}

/// The eight words differ.
proof fn lemma_words_differ()
    ensures
        "ra"@.len() == 2,
        "restart-all"@.len() == 11,
        "r"@.len() == 1,
        "restart"@.len() == 7,
        "stop-all"@.len() == 8,
        "stop"@.len() == 4,
        "start-all"@.len() == 9,
        "start"@.len() == 5,
{
    reveal_strlit("ra");
    reveal_strlit("restart-all");
    reveal_strlit("r");
    reveal_strlit("restart");
    reveal_strlit("stop-all");
    reveal_strlit("stop");
    reveal_strlit("start-all");
    reveal_strlit("start");
}

/// A word for all services, alone behind its colon, asks that for all of them: `ra` and
/// `restart-all` that they are restarted, `stop-all` that they are stopped, `start-all` that they
/// are started. With anything behind it, it asks for nothing.
pub proof fn law_words_for_all_ask_for_what_they_say(
    input: Seq<char>,
    names: ServiceNamesView,
    word: Seq<char>,
    arguments: Seq<Seq<char>>,
)
    requires
        trim(input).len() > 0,
        trim(input)[0] == ':',
        words(trim(input).drop_first()) == seq![word] + arguments,
    ensures
        word == "ra"@ || word == "restart-all"@ ==> asked_for(input, names) == if arguments.len()
            == 0 {
            Some(ClientMessageView::AllAction { action: ProcessAction::Restart })
        } else {
            None
        },
        word == "stop-all"@ ==> asked_for(input, names) == if arguments.len() == 0 {
            Some(ClientMessageView::AllAction { action: ProcessAction::Stop })
        } else {
            None
        },
        word == "start-all"@ ==> asked_for(input, names) == if arguments.len() == 0 {
            Some(ClientMessageView::AllAction { action: ProcessAction::Start })
        } else {
            None
        },
{
    lemma_words_differ();
    let parts = words(trim(input).drop_first());
    assert(parts[0] == word);
    assert(parts.drop_first() =~= arguments);
}

/// A word for one service, with one word behind it that stands for a service, asks that for this
/// service: `r` and `restart` that it is restarted, `stop` that it is stopped, `start` that it is
/// started. Without such a word, or with more behind it, it asks for nothing.
pub proof fn law_words_for_one_ask_for_what_they_say(
    input: Seq<char>,
    names: ServiceNamesView,
    word: Seq<char>,
    arguments: Seq<Seq<char>>,
)
    requires
        trim(input).len() > 0,
        trim(input)[0] == ':',
        words(trim(input).drop_first()) == seq![word] + arguments,
    ensures
        ({
            let well = arguments.len() == 1 && names.resolve(arguments[0]) is Some;
            let service = names.resolve(arguments[0])->0;
            let asked = asked_for(input, names);
            &&& word == "r"@ || word == "restart"@ ==> asked == if well {
                Some(
                    ClientMessageView::ProcessAction { service, action: ProcessAction::Restart },
                )
            } else {
                None
            }
            &&& word == "stop"@ ==> asked == if well {
                Some(ClientMessageView::ProcessAction { service, action: ProcessAction::Stop })
            } else {
                None
            }
            &&& word == "start"@ ==> asked == if well {
                Some(ClientMessageView::ProcessAction { service, action: ProcessAction::Start })
            } else {
                None
            }
        }),
{
    lemma_words_differ();
    let parts = words(trim(input).drop_first());
    assert(parts[0] == word);
    assert(parts.drop_first() =~= arguments);
}

/// Nothing else asks for anything: a line without a colon, one without a word, and one whose first
/// word is none of the eight. What is wrong with a line is what it lacks or has too much of.
pub proof fn law_other_lines_ask_for_nothing(input: Seq<char>, names: ServiceNamesView)
    ensures
        ({
            let line = trim(input);
            let parts = words(line.drop_first());
            let for_all = parts[0] == "ra"@ || parts[0] == "restart-all"@ || parts[0]
                == "stop-all"@ || parts[0] == "start-all"@;
            let for_one = parts[0] == "r"@ || parts[0] == "restart"@ || parts[0] == "stop"@
                || parts[0] == "start"@;
            match parsed(input, names) {
                Ok(_) => line.len() > 0 && line[0] == ':' && parts.len() > 0 && (for_all || for_one),
                Err(ParseErrorView::MissingColon) => line.len() == 0 || line[0] != ':',
                Err(ParseErrorView::EmptyCommand) => line[0] == ':' && parts.len() == 0,
                Err(ParseErrorView::UnknownCommand { name }) => parts.len() > 0 && name == parts[0]
                    && !for_all && !for_one,
                Err(ParseErrorView::TakesNoArguments { name }) => parts.len() > 1 && name
                    == parts[0] && for_all,
                Err(ParseErrorView::RequiresService { name }) => parts.len() == 1 && name
                    == parts[0] && for_one,
                Err(ParseErrorView::OneServiceOnly { name }) => parts.len() > 2 && name == parts[0]
                    && for_one,
                Err(ParseErrorView::UnknownService { token }) => parts.len() == 2 && token
                    == parts[1] && for_one && names.resolve(token) is None,
            }
        }),
{
    lemma_words_differ();
    let parts = words(trim(input).drop_first());
    if parts.len() == 2 {
        assert(parts.drop_first()[0] == parts[1]);
    }
}

/// What is wrong with a line is said in words that hold the word which is wrong.
pub proof fn law_errors_say_what_is_wrong(name: Seq<char>)
    ensures
        ParseErrorView::MissingColon.message() == "commands must start with `:`"@,
        ParseErrorView::EmptyCommand.message() == "empty command"@,
        (ParseErrorView::TakesNoArguments { name }).message() == "`:"@ + name
            + "` does not take arguments"@,
        (ParseErrorView::RequiresService { name }).message() == "`:"@ + name
            + "` requires a service name"@,
        (ParseErrorView::OneServiceOnly { name }).message() == "`:"@ + name
            + "` accepts exactly one service name"@,
        (ParseErrorView::UnknownCommand { name }).message() == "unknown command `:"@ + name + "`"@,
        (ParseErrorView::UnknownService { token: name }).message() == "unknown service `"@ + name
            + "`"@,
{
}

/// Trimming what is trimmed changes nothing.
proof fn lemma_trim_twice(s: Seq<char>)
    ensures
        trim(trim(s)) == trim(s),
{
    let t = trim_start(s);
    lemma_run(s, is_white());
    if t.len() > 0 {
        assert(t[0] == s[run(s, is_white()) as int]);
        lemma_trim_end_keeps(t);
        assert(trim_start(trim_end(t)) =~= trim_end(t)) by {
            assert(!is_white()(trim_end(t)[0]));
            assert(run(trim_end(t), is_white()) == 0);
        }
        lemma_trim_end_twice(t);
    } else {
        assert(trim_end(t) =~= t);
        assert(trim_start(t) =~= t);
    }
}

proof fn lemma_trim_end_keeps(t: Seq<char>)
    requires
        t.len() > 0,
        !white_space(t[0]),
    ensures
        trim_end(t).len() > 0,
        trim_end(t)[0] == t[0],
    decreases t.len(),
{
    if white_space(t.last()) {
        lemma_trim_end_keeps(t.drop_last());
    }
}

/// What begins a text is still there once the text is trimmed.
pub proof fn lemma_trim_keeps_first(t: Seq<char>)
    requires
        t.len() > 0,
        !white_space(t[0]),
    ensures
        trim(t).len() > 0,
        trim(t)[0] == t[0],
{
    assert(!is_white()(t[0]));
    assert(run(t, is_white()) == 0);
    assert(trim_start(t) =~= t);
    lemma_trim_end_keeps(t);
}

proof fn lemma_trim_end_twice(t: Seq<char>)
    ensures
        trim_end(trim_end(t)) == trim_end(t),
    decreases t.len(),
{
    if t.len() > 0 && white_space(t.last()) {
        lemma_trim_end_twice(t.drop_last());
    }
}

/// White space around a command means nothing.
pub proof fn law_parse_ignores_outer_space(input: Seq<char>, names: ServiceNamesView)
    ensures
        parsed(trim(input), names) == parsed(input, names),
{
    lemma_trim_twice(input);
}

/// The commands, in the order in which completion tries them.
fn command_list() -> (r: Vec<&'static str>)
    ensures
        views(r@) == command_names(),
{
    let r: Vec<&'static str> = vec![
        "ra",
        "restart-all",
        "r",
        "restart",
        "stop-all",
        "stop",
        "start-all",
        "start",
    ];
    assert(views(r@) =~= command_names());
    r
}

/// What the command does to all services, if it is one that is about all.
fn all_action_of(command: &str) -> (r: Option<ProcessAction>)
    ensures
        r == all_action(command@),
{
    if same_text(command, "ra") || same_text(command, "restart-all") {
        Some(ProcessAction::Restart)
    } else if same_text(command, "stop-all") {
        Some(ProcessAction::Stop)
    } else if same_text(command, "start-all") {
        Some(ProcessAction::Start)
    } else {
        None
    }
}

/// What the command does to a service, if it is one that is about a single service.
fn service_action_of(command: &str) -> (r: Option<ProcessAction>)
    ensures
        r == service_action(command@),
{
    if same_text(command, "r") || same_text(command, "restart") {
        Some(ProcessAction::Restart)
    } else if same_text(command, "stop") {
        Some(ProcessAction::Stop)
    } else if same_text(command, "start") {
        Some(ProcessAction::Start)
    } else {
        None
    }
}

/// What the command takes as its argument, if there is such a command.
pub fn command_arg_kind(command: &str) -> (r: Option<SlashArgKind>)
    ensures
        r == arg_kind(command@),
{
    if all_action_of(command).is_some() {
        Some(SlashArgKind::Nothing)
    } else if service_action_of(command).is_some() {
        Some(SlashArgKind::Service)
    } else {
        None
    }
}

/// The commands that begin with `prefix`.
pub fn command_candidates(prefix: &str) -> (r: Vec<&'static str>)
    ensures
        views(r@) == command_names().filter(begins_with(prefix@)),
{
    let all = command_list();
    let ghost names = command_names();
    let mut r: Vec<&'static str> = Vec::new();
    assert(names.take(0).filter(begins_with(prefix@)) == Seq::<Seq<char>>::empty()) by {
        reveal(Seq::filter);
    }
    assert(views(r@) == Seq::<Seq<char>>::empty());
    for i in 0..all.len()
        invariant
            names == command_names(),
            views(all@) == names,
            views(r@) == names.take(i as int).filter(begins_with(prefix@)),
    {
        let name = all[i];
        proof {
            reveal(Seq::filter);
            assert(names[i as int] == name@);
            assert(names.take(i + 1).drop_last() == names.take(i as int));
            assert(names.take(i + 1).last() == name@);
            lemma_views_push(r@, name);
        }
        if starts_with(name, prefix) {
            r.push(name);
        }
    }
    assert(names.take(names.len() as int) == names);
    r
}

/// The service that a typed name stands for.
pub fn resolve_service_token(token: &str, service_names: &ServiceNames) -> (r: Result<
    String,
    ParseError,
>)
    requires
        service_names.wf(),
    ensures
        match r {
            Ok(service) => service_names@.resolve(token@) == Some(service@),
            Err(error) => service_names@.resolve(token@) is None && error@
                == (ParseErrorView::UnknownService { token: token@ }),
        },
{
    match service_names.resolve(token) {
        Some(service) => Ok(service),
        None => Err(ParseError::UnknownService { token: token.to_owned() }),
    }
}

/// The result of parsing, as a value.
pub open spec fn parse_view(r: Result<SlashCommand, ParseError>) -> Result<
    SlashCommandView,
    ParseErrorView,
> {
    match r {
        Ok(command) => Ok(command@),
        Err(error) => Err(error@),
    }
}

/// The command that the words of a line make, the first of them its name.
pub fn command_from_words(parts: &Vec<String>, service_names: &ServiceNames) -> (r: Result<
    SlashCommand,
    ParseError,
>)
    requires
        service_names.wf(),
        parts@.len() > 0,
    ensures
        parse_view(r) == command_of(
            views(parts@)[0],
            views(parts@).drop_first(),
            service_names@,
        ),
{
    let name = parts[0].as_str();
    let ghost arguments = views(parts@).drop_first();
    assert(views(parts@)[0] == name@);
    match all_action_of(name) {
        Some(action) => {
            if parts.len() > 1 {
                return Err(ParseError::TakesNoArguments { name: name.to_owned() });
            }
            match action {
                ProcessAction::Restart => Ok(SlashCommand::RestartAll),
                ProcessAction::Stop => Ok(SlashCommand::StopAll),
                ProcessAction::Start => Ok(SlashCommand::StartAll),
            }
        },
        None => match service_action_of(name) {
            Some(action) => {
                if parts.len() == 1 {
                    return Err(ParseError::RequiresService { name: name.to_owned() });
                }
                if parts.len() > 2 {
                    return Err(ParseError::OneServiceOnly { name: name.to_owned() });
                }
                assert(arguments[0] == parts@[1]@);
                match resolve_service_token(parts[1].as_str(), service_names) {
                    Ok(service) => match action {
                        ProcessAction::Restart => Ok(SlashCommand::RestartService(service)),
                        ProcessAction::Stop => Ok(SlashCommand::StopService(service)),
                        ProcessAction::Start => Ok(SlashCommand::StartService(service)),
                    },
                    Err(error) => Err(error),
                }
            },
            None => Err(ParseError::UnknownCommand { name: name.to_owned() }),
        },
    }
}

/// The command that the line holds.
pub fn parse_colon_command(input: &str, service_names: &ServiceNames) -> (r: Result<
    SlashCommand,
    ParseError,
>)
    requires
        service_names.wf(),
    ensures
        parse_view(r) == parsed(input@, service_names@),
{
    let trimmed = trim_of(input);
    let line = chars_of(trimmed.as_str());
    if line.len() == 0 || line[0] != ':' {
        return Err(ParseError::MissingColon);
    }
    let rest = cut(&line, 1, line.len());
    assert(rest@ == line@.drop_first());
    let parts = words_of(rest.as_str());
    assert(parts@.len() == views(parts@).len());
    if parts.len() == 0 {
        return Err(ParseError::EmptyCommand);
    }
    command_from_words(&parts, service_names)
}

/// The message that asks the manager for what the command says.
pub fn command_request(command: SlashCommand) -> (r: ClientMessage)
    ensures
        r@ == request_of(command@),
{
    match command {
        SlashCommand::RestartAll => ClientMessage::AllAction { action: ProcessAction::Restart },
        SlashCommand::RestartService(service) => ClientMessage::ProcessAction {
            service,
            action: ProcessAction::Restart,
        },
        SlashCommand::StopAll => ClientMessage::AllAction { action: ProcessAction::Stop },
        SlashCommand::StopService(service) => ClientMessage::ProcessAction {
            service,
            action: ProcessAction::Stop,
        },
        SlashCommand::StartAll => ClientMessage::AllAction { action: ProcessAction::Start },
        SlashCommand::StartService(service) => ClientMessage::ProcessAction {
            service,
            action: ProcessAction::Start,
        },
    }
}

} // verus!
