//! Starting a manager and waiting until it answers; waiting until it is gone.

use vstd::prelude::*;

use crate::numbers::{integer_text, integer_text_of};

verus! {

/// How long a manager may take until it is ready, in milliseconds.
pub const STARTUP_TIMEOUT_MS: u64 = 5000;

/// How long a manager may take to stop, in milliseconds.
pub const SHUTDOWN_TIMEOUT_MS: u64 = 5000;

/// How long to wait before looking again, in milliseconds.
pub const RETRY_INTERVAL_MS: u64 = 100;

/// What is seen of the process of the manager.
#[derive(Debug, Clone, Copy, PartialEq, Eq, Structural)]
pub enum ManagerPoll {
    Running,
    Exited(Option<i32>),
    /// It could not be told.
    Unknown,
}

/// Why the process of the manager is looked at.
#[derive(Debug, Clone, Copy, PartialEq, Eq, Structural)]
pub enum StartupStage {
    /// Before the manager is asked whether it is ready.
    BeforeAsking,
    /// The manager could not be asked, or gave another answer.
    NotReady,
    /// The time was over before there was an answer.
    Unanswered,
}

/// What came of asking the manager whether it is ready.
#[derive(Debug, Clone, Copy, PartialEq, Eq, Structural)]
pub enum ReadyAnswer {
    Ready,
    Refused,
    TimedOut,
}

/// What caused a failure, besides what its message says.
#[derive(Debug, Clone, Copy, PartialEq, Eq, Structural)]
pub enum Cause {
    Nothing,
    /// The error with which the process could not be looked at.
    Poll,
    /// The error with which the manager could not be asked.
    Answer,
}

/// What to do next.
#[derive(Debug)]
pub enum StartupMove {
    /// Ask the manager whether it is ready, for as long as time is left.
    Ask,
    /// Wait a little and begin again.
    Pause,
    Fail { message: String, cause: Cause },
}

/// What to do next, as a value.
pub enum StartupMoveView {
    Ask,
    Pause,
    Fail { message: Seq<char>, cause: Cause },
}

impl View for StartupMove {
    type V = StartupMoveView;

    open spec fn view(&self) -> StartupMoveView {
        match *self {
            StartupMove::Ask => StartupMoveView::Ask,
            StartupMove::Pause => StartupMoveView::Pause,
            StartupMove::Fail { message, cause } => StartupMoveView::Fail {
                message: message@,
                cause,
            },
        }
    }
}

/// What is said of a manager that is gone before it was ready.
pub open spec fn exit_text(code: Option<i32>) -> Seq<char> {
    match code {
        Some(code) => "pm manager exited during startup with status code "@ + integer_text(
            code as int,
        ),
        None => "pm manager exited during startup after receiving a signal"@,
    }
}

/// What is said when the time is over.
pub open spec fn timeout_text() -> Seq<char> {
    "timed out waiting for pm manager to finish initialization"@
}

/// What is said when the process could not be looked at.
pub open spec fn poll_text() -> Seq<char> {
    "failed to poll pm manager during startup"@
}

/// What to do once the process was looked at: say that it is gone or that the time is over, where
/// that is so, and otherwise ask, or ask again after a while.
pub open spec fn startup_next(stage: StartupStage, poll: ManagerPoll, late: bool) -> StartupMoveView {
    let kept = if stage == StartupStage::NotReady {
        Cause::Answer
    } else {
        Cause::Nothing
    };
    match poll {
        ManagerPoll::Unknown => StartupMoveView::Fail { message: poll_text(), cause: Cause::Poll },
        ManagerPoll::Exited(code) => StartupMoveView::Fail {
            message: exit_text(code),
            cause: kept,
        },
        ManagerPoll::Running => if late || stage == StartupStage::Unanswered {
            StartupMoveView::Fail { message: timeout_text(), cause: kept }
        } else if stage == StartupStage::BeforeAsking {
            StartupMoveView::Ask
        } else {
            StartupMoveView::Pause
        },
    }
}

/// A manager that is gone is never waited for, nor one whose time is over.
pub proof fn law_startup_wait_ends(stage: StartupStage, poll: ManagerPoll, late: bool)
    requires
        late || poll is Exited,
    ensures
        startup_next(stage, poll, late) is Fail,
{
}

/// Why to look at the process next, once the manager was asked; nothing once it is ready.
pub open spec fn stage_after(answer: ReadyAnswer) -> Option<StartupStage> {
    match answer {
        ReadyAnswer::Ready => None,
        ReadyAnswer::Refused => Some(StartupStage::NotReady),
        ReadyAnswer::TimedOut => Some(StartupStage::Unanswered),
    }
}

/// A manager is asked, and asked again, exactly as long as it runs, is not late and an answer may
/// still come; one that answered that it is ready is not looked at any more.
pub proof fn law_a_running_manager_is_asked_until_it_is_late(
    stage: StartupStage,
    poll: ManagerPoll,
    late: bool,
)
    ensures
        startup_next(stage, poll, late) is Fail <==> poll != ManagerPoll::Running || late || stage
            == StartupStage::Unanswered,
        startup_next(stage, poll, late) is Ask ==> stage == StartupStage::BeforeAsking,
        startup_next(stage, poll, late) is Pause ==> stage == StartupStage::NotReady,
        forall|answer: ReadyAnswer| #[trigger]
            stage_after(answer) is None <==> answer == ReadyAnswer::Ready,
        forall|answer: ReadyAnswer|
            stage_after(answer) == Some(stage) ==> match answer {
                ReadyAnswer::Ready => false,
                ReadyAnswer::Refused => !late ==> #[trigger] startup_next(
                    stage_after(answer)->0,
                    ManagerPoll::Running,
                    late,
                ) is Pause,
                ReadyAnswer::TimedOut => startup_next(
                    stage_after(answer)->0,
                    ManagerPoll::Running,
                    late,
                ) is Fail,
            },
{
}

/// What is said of a manager that could not be waited for: that it is gone, and with which code,
/// wherever it is, late or not; that it could not be looked at; and otherwise that the time is
/// over. With it comes the error with which the manager could not be asked, if that was so.
pub proof fn law_startup_failures_say_why(stage: StartupStage, poll: ManagerPoll, late: bool)
    requires
        startup_next(stage, poll, late) is Fail,
    ensures
        startup_next(stage, poll, late) matches StartupMoveView::Fail { message, cause } && {
            &&& poll == ManagerPoll::Running ==> message
                == "timed out waiting for pm manager to finish initialization"@
            &&& poll == ManagerPoll::Exited(None) ==> message
                == "pm manager exited during startup after receiving a signal"@
            &&& forall|code: i32|
                poll == ManagerPoll::Exited(Some(code)) ==> message
                    == "pm manager exited during startup with status code "@ + #[trigger] integer_text(
                    code as int,
                )
            &&& poll == ManagerPoll::Unknown ==> message
                == "failed to poll pm manager during startup"@
            &&& cause == Cause::Poll <==> poll == ManagerPoll::Unknown
            &&& cause == Cause::Answer <==> poll != ManagerPoll::Unknown && stage
                == StartupStage::NotReady
        },
{
}

/// How long to wait: five seconds until a manager is ready, and as long until it is gone; it is
/// looked at ten times in a second.
pub proof fn law_waiting_times()
    ensures
        STARTUP_TIMEOUT_MS == 5 * 1000,
        SHUTDOWN_TIMEOUT_MS == 5 * 1000,
        RETRY_INTERVAL_MS * 10 == 1000,
{
}

/// What is said of a manager that is gone before it was ready.
pub fn manager_exit_message(code: Option<i32>) -> (r: String)
    ensures
        r@ == exit_text(code),
{
    match code {
        Some(code) => {
            let mut r = "pm manager exited during startup with status code ".to_owned();
            r.append(integer_text_of(code as i64).as_str());
            r
        },
        None => "pm manager exited during startup after receiving a signal".to_owned(),
    }
}

/// What to do once the process of the manager was looked at.
pub fn startup_move(stage: StartupStage, poll: ManagerPoll, late: bool) -> (r: StartupMove)
    ensures
        r@ == startup_next(stage, poll, late),
{
    let cause = if stage == StartupStage::NotReady {
        Cause::Answer
    } else {
        Cause::Nothing
    };
    match poll {
        ManagerPoll::Unknown => StartupMove::Fail {
            message: "failed to poll pm manager during startup".to_owned(),
            cause: Cause::Poll,
        },
        ManagerPoll::Exited(code) => StartupMove::Fail {
            message: manager_exit_message(code),
            cause,
        },
        ManagerPoll::Running => if late || stage == StartupStage::Unanswered {
            StartupMove::Fail {
                message: "timed out waiting for pm manager to finish initialization".to_owned(),
                cause,
            }
        } else if stage == StartupStage::BeforeAsking {
            StartupMove::Ask
        } else {
            StartupMove::Pause
        },
    }
}

/// Why to look at the process next, once the manager was asked; nothing once it is ready.
pub fn startup_stage_after(answer: ReadyAnswer) -> (r: Option<StartupStage>)
    ensures
        r == match answer {
            ReadyAnswer::Ready => None::<StartupStage>,
            ReadyAnswer::Refused => Some(StartupStage::NotReady),
            ReadyAnswer::TimedOut => Some(StartupStage::Unanswered),
        },
        r == stage_after(answer),
{
    match answer {
        ReadyAnswer::Ready => None,
        ReadyAnswer::Refused => Some(StartupStage::NotReady),
        ReadyAnswer::TimedOut => Some(StartupStage::Unanswered),
    }
}

/// What to do before a manager is started.
#[derive(Debug, Clone, Copy, PartialEq, Eq, Structural)]
pub enum UpMove {
    AlreadyRunning,
    RemoveStaleSocket,
    Start,
}

/// What to do before a manager is started.
pub open spec fn up_next(socket_is_live: bool, socket_exists: bool) -> UpMove {
    if socket_is_live {
        UpMove::AlreadyRunning
    } else if socket_exists {
        UpMove::RemoveStaleSocket
    } else {
        UpMove::Start
    }
}

/// No second manager is started beside one that answers, the socket of one that answers is never
/// removed, and none is started onto a socket that is in the way.
pub proof fn law_one_manager_at_a_time(socket_is_live: bool, socket_exists: bool)
    ensures
        up_next(socket_is_live, socket_exists) == UpMove::AlreadyRunning <==> socket_is_live,
        up_next(socket_is_live, socket_exists) == UpMove::RemoveStaleSocket <==> !socket_is_live
            && socket_exists,
        up_next(socket_is_live, socket_exists) == UpMove::Start <==> !socket_is_live
            && !socket_exists,
        up_next(false, false) == UpMove::Start,
{
}

/// What to do before a manager is started: nothing where one answers; its socket is in the way
/// where none does.
pub fn up_move(socket_is_live: bool, socket_exists: bool) -> (r: UpMove)
    ensures
        r == if socket_is_live {
            UpMove::AlreadyRunning
        } else if socket_exists {
            UpMove::RemoveStaleSocket
        } else {
            UpMove::Start
        },
        r == up_next(socket_is_live, socket_exists),
{
    if socket_is_live {
        UpMove::AlreadyRunning
    } else if socket_exists {
        UpMove::RemoveStaleSocket
    } else {
        UpMove::Start
    }
}

/// What to do while a manager stops.
#[derive(Debug, Clone, Copy, PartialEq, Eq, Structural)]
pub enum RemovalMove {
    Done,
    TimedOut,
    Pause,
}

/// What to do while a manager stops.
pub open spec fn removal_next(
    socket_exists: bool,
    socket_is_live: bool,
    late: bool,
) -> RemovalMove {
    if !socket_exists || !socket_is_live {
        RemovalMove::Done
    } else if late {
        RemovalMove::TimedOut
    } else {
        RemovalMove::Pause
    }
}

/// A manager that still answers is never taken for gone, and one that does not is never waited
/// for, however late it is; waiting ends when the time does.
pub proof fn law_stopping_is_waited_for(socket_exists: bool, socket_is_live: bool, late: bool)
    ensures
        removal_next(socket_exists, socket_is_live, late) == RemovalMove::Done <==> !(socket_exists
            && socket_is_live),
        removal_next(socket_exists, socket_is_live, late) == RemovalMove::Pause ==> !late,
        removal_next(socket_exists, socket_is_live, late) == RemovalMove::TimedOut ==> late,
{
}

/// What to do while a manager stops: it is gone once its socket is, or answers no more.
pub fn removal_move(socket_exists: bool, socket_is_live: bool, late: bool) -> (r: RemovalMove)
    ensures
        r == if !socket_exists || !socket_is_live {
            RemovalMove::Done
        } else if late {
            RemovalMove::TimedOut
        } else {
            RemovalMove::Pause
        },
        r == removal_next(socket_exists, socket_is_live, late),
{
    if !socket_exists || !socket_is_live {
        RemovalMove::Done
    } else if late {
        RemovalMove::TimedOut
    } else {
        RemovalMove::Pause
    }
}

} // verus!
