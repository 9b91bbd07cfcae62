//! What the answer of the manager to a request means.

use vstd::prelude::*;

use crate::ipc::{ClientMessageView, ServerMessage, ServerMessageView};
use crate::manager::client::{plan_of, ClientPlanView};
use crate::manager::job::answer_to;

verus! {

/// Why a request did not get what it asked for.
#[derive(Debug)]
pub enum ReplyError {
    /// The manager closed the connection.
    Closed,
    /// The manager refused, and said why.
    Refused(String),
    /// The manager sent something that is no answer to the request.
    Unexpected(ServerMessage),
}

/// Why a request did not get what it asked for, as a value.
pub enum ReplyErrorView {
    Closed,
    Refused(Seq<char>),
    Unexpected(ServerMessageView),
}

impl View for ReplyError {
    type V = ReplyErrorView;

    open spec fn view(&self) -> ReplyErrorView {
        match *self {
            ReplyError::Closed => ReplyErrorView::Closed,
            ReplyError::Refused(message) => ReplyErrorView::Refused(message@),
            ReplyError::Unexpected(message) => ReplyErrorView::Unexpected(message@),
        }
    }
}

/// What was waited for when the connection was closed.
#[derive(Debug, Clone, Copy, PartialEq, Eq, Structural)]
pub enum Awaited {
    Reply,
    Snapshot,
}

/// What is said of a connection that was closed.
pub open spec fn closed_text(awaited: Awaited) -> Seq<char> {
    match awaited {
        Awaited::Reply => "manager closed the connection before replying"@,
        Awaited::Snapshot => "manager closed the connection before sending a snapshot"@,
    }
}

impl ReplyErrorView {
    /// The error in words, where it can be said without the message that came.
    pub open spec fn message(self, awaited: Awaited) -> Option<Seq<char>> {
        match self {
            ReplyErrorView::Closed => Some(closed_text(awaited)),
            ReplyErrorView::Refused(reason) => Some(reason),
            ReplyErrorView::Unexpected(_) => None,
        }
    }
}

impl ReplyError {
    /// The error in words, or the message that came in place of the one that was waited for.
    pub fn message(self, awaited: Awaited) -> (r: Result<String, ServerMessage>)
        ensures
            match r {
                Ok(text) => self@.message(awaited) == Some(text@),
                Err(other) => self@ == ReplyErrorView::Unexpected(other@),
            },
    {
        match self {
            ReplyError::Closed => match awaited {
                Awaited::Reply => Ok("manager closed the connection before replying".to_owned()),
                Awaited::Snapshot => {
                    Ok("manager closed the connection before sending a snapshot".to_owned())
                },
            },
            ReplyError::Refused(reason) => Ok(reason),
            ReplyError::Unexpected(other) => Err(other),
        }
    }
}

/// What is said of a message that is no answer to the request; `printed` shows the message.
pub fn unexpected_text(printed: &str) -> (r: String)
    ensures
        r@ == "unexpected response from manager: "@ + printed@,
{
    let mut r = "unexpected response from manager: ".to_owned();
    r.append(printed);
    r
}

/// A message that may be missing, as a value.
pub open spec fn reply_view(reply: Option<ServerMessage>) -> Option<ServerMessageView> {
    match reply {
        Some(message) => Some(message@),
        None => None,
    }
}

/// What is wrong with a reply, where only some are expected.
pub open spec fn reply_fault(reply: Option<ServerMessageView>, expected: bool) -> Option<
    ReplyErrorView,
> {
    match reply {
        None => Some(ReplyErrorView::Closed),
        Some(message) => if expected {
            None
        } else {
            match message {
                ServerMessageView::Error { message: reason } => Some(
                    ReplyErrorView::Refused(reason),
                ),
                _ => Some(ReplyErrorView::Unexpected(message)),
            }
        },
    }
}

/// A reply is taken where it is one that is expected. Otherwise the request failed: with what the
/// manager said where it refused, with the message that came where it sent another, and where the
/// connection was closed, with that.
pub proof fn law_replies_are_told_apart(reply: Option<ServerMessageView>, expected: bool)
    ensures
        reply_fault(reply, expected) is None <==> reply is Some && expected,
        reply is None ==> reply_fault(reply, expected) == Some(ReplyErrorView::Closed),
        reply matches Some(ServerMessageView::Error { message }) ==> !expected ==> reply_fault(
            reply,
            expected,
        ) == Some(ReplyErrorView::Refused(message)),
        reply matches Some(message) ==> message !is Error && !expected ==> reply_fault(
            reply,
            expected,
        ) == Some(ReplyErrorView::Unexpected(message)),
{
}

/// What the manager said where it refused is said as it is; of a connection that was closed it is
/// said what it was waited for.
pub proof fn law_reply_errors_in_words(awaited: Awaited, reason: Seq<char>)
    ensures
        ReplyErrorView::Refused(reason).message(awaited) == Some(reason),
        ReplyErrorView::Closed.message(Awaited::Reply) == Some(
            "manager closed the connection before replying"@,
        ),
        ReplyErrorView::Closed.message(Awaited::Snapshot) == Some(
            "manager closed the connection before sending a snapshot"@,
        ),
        forall|other: ServerMessageView|
            #[trigger] ReplyErrorView::Unexpected(other).message(awaited) is None,
{
}

/// What the manager says once it has done what it was asked for, or why it has not.
pub open spec fn acknowledgement(reply: Option<ServerMessageView>) -> Result<
    Seq<char>,
    ReplyErrorView,
> {
    match reply {
        Some(ServerMessageView::Ack { message }) => Ok(message),
        _ => Err(reply_fault(reply, false)->0),
    }
}

/// Whether the manager says that it is ready, or what is wrong.
pub open spec fn readiness(reply: Option<ServerMessageView>) -> Result<(), ReplyErrorView> {
    match reply {
        Some(ServerMessageView::Ready) => Ok(()),
        _ => Err(reply_fault(reply, false)->0),
    }
}

/// What the manager answers at the end of a job is what the client is told: what was done, or what
/// went wrong.
pub proof fn law_answers_reach_the_client(end: Result<Seq<char>, Seq<Seq<char>>>)
    ensures
        end matches Ok(text) ==> acknowledgement(Some(answer_to(end))) == Ok::<
            Seq<char>,
            ReplyErrorView,
        >(text),
        end matches Err(errors) ==> acknowledgement(Some(answer_to(end))) == Err::<
            Seq<char>,
            ReplyErrorView,
        >(ReplyErrorView::Refused(errors[0])),
{
}

/// One who asks whether the manager is ready is told so by what the manager answers to that, and by
/// nothing else; only an acknowledgement says that something was done.
pub proof fn law_only_the_answer_counts(reply: Option<ServerMessageView>)
    ensures
        plan_of(Some(ClientMessageView::Ping)) matches ClientPlanView::Answer(answer) && readiness(
            Some(answer),
        ) is Ok,
        readiness(reply) is Ok <==> reply == Some(ServerMessageView::Ready),
        acknowledgement(reply) is Ok <==> reply is Some && reply->0 is Ack,
        reply is None ==> readiness(reply) == Err::<(), ReplyErrorView>(ReplyErrorView::Closed)
            && acknowledgement(reply) == Err::<Seq<char>, ReplyErrorView>(ReplyErrorView::Closed),
        reply matches Some(ServerMessageView::Error { message }) ==> readiness(reply) == Err::<
            (),
            ReplyErrorView,
        >(ReplyErrorView::Refused(message)),
{
}

/// What the manager says once it has done what it was asked for.
pub fn acknowledged(reply: Option<ServerMessage>) -> (r: Result<String, ReplyError>)
    ensures
        match r {
            Ok(text) => reply_view(reply) == Some(ServerMessageView::Ack { message: text@ }),
            Err(error) => reply_fault(reply_view(reply), reply is Some && reply->0 is Ack) == Some(
                error@,
            ),
        },
        match r {
            Ok(text) => acknowledgement(reply_view(reply)) == Ok::<Seq<char>, ReplyErrorView>(text@),
            Err(error) => acknowledgement(reply_view(reply)) == Err::<Seq<char>, ReplyErrorView>(
                error@,
            ),
        },
{
    match reply {
        None => Err(ReplyError::Closed),
        Some(ServerMessage::Ack { message }) => Ok(message),
        Some(ServerMessage::Error { message }) => Err(ReplyError::Refused(message)),
        Some(other) => Err(ReplyError::Unexpected(other)),
    }
}

/// Whether the manager says that it is ready.
pub fn ready(reply: Option<ServerMessage>) -> (r: Result<(), ReplyError>)
    ensures
        match r {
            Ok(()) => reply_view(reply) == Some(ServerMessageView::Ready),
            Err(error) => reply_fault(reply_view(reply), reply is Some && reply->0 is Ready) == Some(
                error@,
            ),
        },
        match r {
            Ok(()) => readiness(reply_view(reply)) == Ok::<(), ReplyErrorView>(()),
            Err(error) => readiness(reply_view(reply)) == Err::<(), ReplyErrorView>(error@),
        },
{
    match reply {
        None => Err(ReplyError::Closed),
        Some(ServerMessage::Ready) => Ok(()),
        Some(ServerMessage::Error { message }) => Err(ReplyError::Refused(message)),
        Some(other) => Err(ReplyError::Unexpected(other)),
    }
}

} // verus!
