//! What the manager does with a client that connects.

use vstd::prelude::*;

use crate::ipc::{
    ClientMessage, ClientMessageView, ProcessAction, ServerMessage, ServerMessageView,
};
use crate::manager::{
    ControlCommand, ControlCommandView, EventOutcomeView, ManagerEventView, ManagerView,
};
use crate::text::{chars_of, cut};

verus! {

/// What to do with a client.
#[derive(Debug)]
pub enum ClientPlan {
    /// The client is gone already.
    Leave,
    /// Attach the client.
    Attach,
    /// Answer at once.
    Answer(ServerMessage),
    /// Hand the command to the manager, and the client what comes of it.
    Command(ControlCommand),
}

/// What to do with a client, as a value.
pub enum ClientPlanView {
    Leave,
    Attach,
    Answer(ServerMessageView),
    Command(ControlCommandView),
}

impl View for ClientPlan {
    type V = ClientPlanView;

    open spec fn view(&self) -> ClientPlanView {
        match *self {
            ClientPlan::Leave => ClientPlanView::Leave,
            ClientPlan::Attach => ClientPlanView::Attach,
            ClientPlan::Answer(message) => ClientPlanView::Answer(message@),
            ClientPlan::Command(command) => ClientPlanView::Command(command@),
        }
    }
}

/// A message that may be missing, as a value.
pub open spec fn request_view(message: Option<ClientMessage>) -> Option<ClientMessageView> {
    match message {
        Some(message) => Some(message@),
        None => None,
    }
}

/// What to do with a client that sent a message, or none.
pub open spec fn plan_of(message: Option<ClientMessageView>) -> ClientPlanView {
    match message {
        None => ClientPlanView::Leave,
        Some(ClientMessageView::Attach) => ClientPlanView::Attach,
        Some(ClientMessageView::Ping) => ClientPlanView::Answer(ServerMessageView::Ready),
        Some(ClientMessageView::Shutdown) => ClientPlanView::Command(ControlCommandView::Shutdown),
        Some(ClientMessageView::AllAction { action }) => ClientPlanView::Command(
            ControlCommandView::AllAction { action },
        ),
        Some(ClientMessageView::ProcessAction { service, action }) => ClientPlanView::Command(
            ControlCommandView::ProcessAction { service, action },
        ),
    }
}

/// A client is heard: what it asks to be done, and to whom, is what the manager is told to do, one
/// that asks whether the manager is ready is told so, one that attaches is attached, and only one
/// that is gone is left.
pub proof fn law_clients_are_heard(
    message: Option<ClientMessageView>,
    service: Seq<char>,
    action: ProcessAction,
)
    ensures
        plan_of(Some(ClientMessageView::ProcessAction { service, action }))
            == ClientPlanView::Command(ControlCommandView::ProcessAction { service, action }),
        plan_of(Some(ClientMessageView::AllAction { action })) == ClientPlanView::Command(
            ControlCommandView::AllAction { action },
        ),
        plan_of(Some(ClientMessageView::Shutdown)) == ClientPlanView::Command(
            ControlCommandView::Shutdown,
        ),
        plan_of(Some(ClientMessageView::Ping)) == ClientPlanView::Answer(ServerMessageView::Ready),
        plan_of(message) is Attach <==> message is Some && message->0 is Attach,
        plan_of(message) is Leave <==> message is None,
        plan_of(message) is Answer <==> message is Some && message->0 is Ping,
{
}

/// Whether a client that was answered so is told of what happens from then on.
pub open spec fn streams(response: ServerMessageView) -> bool {
    response is Snapshot
}

/// Whether this is the last thing that a client is told.
pub open spec fn is_last(message: ServerMessageView) -> bool {
    message is ManagerStopping
}

/// One who asks to be attached is told of what happens from then on exactly where the manager has
/// noted it: until it is stopping, and not from then on.
pub proof fn law_those_who_are_noted_are_told(manager: ManagerView)
    ensures
        match manager.outcome(ManagerEventView::Attach) {
            EventOutcomeView::Subscribed { reply, .. } => streams(reply)
                && !manager.shutdown_requested,
            EventOutcomeView::Reply(reply) => !streams(reply) && manager.shutdown_requested,
            _ => false,
        },
{
}

/// The stream ends with the manager: no line, no service and no snapshot is the last thing that is
/// told.
pub proof fn law_streams_end_with_the_manager(message: ServerMessageView)
    ensures
        is_last(message) <==> message == ServerMessageView::ManagerStopping,
        streams(message) ==> !is_last(message),
        message is Log || message is ServiceUpdate ==> !is_last(message) && !streams(message),
{
}

/// Of a line the carriage returns at its end are taken off, and nothing else.
pub proof fn law_returns_are_taken_off(line: Seq<char>, tail: Seq<char>)
    requires
        line.len() > 0 ==> line.last() != '\r',
        forall|i: int| 0 <= i < tail.len() ==> #[trigger] tail[i] == '\r',
    ensures
        without_returns(line + tail) == line,
    decreases tail.len(),
{
    let all = line + tail;
    if tail.len() > 0 {
        assert(all.last() == tail[tail.len() - 1]);
        let front = tail.drop_last();
        assert forall|i: int| 0 <= i < front.len() implies #[trigger] front[i] == '\r' by {
            assert(front[i] == tail[i]);
        }
        law_returns_are_taken_off(line, front);
        assert(all.drop_last() =~= line + front);
    } else {
        assert(all =~= line);
    }
}

/// What to do with a client that sent a message, or none.
pub fn handle_client(message: Option<ClientMessage>) -> (r: ClientPlan)
    ensures
        r@ == plan_of(request_view(message)),
{
    match message {
        None => ClientPlan::Leave,
        Some(ClientMessage::Attach) => ClientPlan::Attach,
        Some(ClientMessage::Ping) => ClientPlan::Answer(ServerMessage::Ready),
        Some(ClientMessage::Shutdown) => ClientPlan::Command(ControlCommand::Shutdown),
        Some(ClientMessage::AllAction { action }) => ClientPlan::Command(
            ControlCommand::AllAction { action },
        ),
        Some(ClientMessage::ProcessAction { service, action }) => ClientPlan::Command(
            ControlCommand::ProcessAction { service, action },
        ),
    }
}

/// Whether a client that was answered so is told of what happens from then on.
pub fn should_stream(response: &ServerMessage) -> (r: bool)
    ensures
        r == (response@ is Snapshot),
        r == streams(response@),
{
    match response {
        ServerMessage::Snapshot { .. } => true,
        _ => false,
    }
}

/// Whether this is the last thing that a client is told.
pub fn ends_stream(message: &ServerMessage) -> (r: bool)
    ensures
        r == (message@ is ManagerStopping),
        r == is_last(message@),
{
    match message {
        ServerMessage::ManagerStopping => true,
        _ => false,
    }
}

/// The text without the carriage returns at its end.
pub open spec fn without_returns(s: Seq<char>) -> Seq<char>
    decreases s.len(),
{
    if s.len() > 0 && s.last() == '\r' {
        without_returns(s.drop_last())
    } else {
        s
    }
}

/// A line of a service's output as it is kept: without the carriage returns at its end.
pub fn log_line(line: &str) -> (r: String)
    ensures
        r@ == without_returns(line@),
{
    let chars = chars_of(line);
    let mut end = chars.len();
    assert(chars@.take(end as int) =~= line@);
    while end > 0 && chars[end - 1] == '\r'
        invariant
            chars@ == line@,
            end <= chars@.len(),
            without_returns(line@) == without_returns(chars@.take(end as int)),
        decreases end,
    {
        assert(chars@.take(end as int).drop_last() =~= chars@.take(end - 1));
        end = end - 1;
    }
    assert(chars@.subrange(0, end as int) =~= chars@.take(end as int));
    cut(&chars, 0, end)
}

} // verus!
