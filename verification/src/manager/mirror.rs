//! What one who is attached knows of the services: the same as the manager.

use vstd::prelude::*;

use crate::attach::commands::{law_parsed_service_exists, parsed, request_of};
use crate::attach::service_names::ServiceNamesView;
use crate::attach::session::{by_name, message_services, opened, OpeningView, StepView};
use crate::ipc::{CpuPercent, ServerMessageView, SnapshotView};
use crate::manager::client::{plan_of, ClientPlanView};
use crate::manager::job::{Job, Outcome};
use crate::manager::service::ManagedService;
use crate::manager::{position_of, EventOutcomeView, ManagerEventView, ManagerView};
use crate::name_map::lemma_ascending_distinct;
use crate::replies::ReplyErrorView;

verus! {

/// What the manager knows of its services, by their names.
pub open spec fn mirror(manager: ManagerView) -> Map<Seq<char>, SnapshotView> {
    Map::new(
        |name: Seq<char>| manager.names.contains(name),
        |name: Seq<char>| manager.snapshot_at(manager.names.index_of(name)),
    )
}

/// What is known of the services once some messages have come.
pub open spec fn told(
    services: Map<Seq<char>, SnapshotView>,
    messages: Seq<ServerMessageView>,
) -> Map<Seq<char>, SnapshotView>
    decreases messages.len(),
{
    if messages.len() == 0 {
        services
    } else {
        message_services(told(services, messages.drop_last()), Some(messages.last()))
    }
}

proof fn lemma_told_one(services: Map<Seq<char>, SnapshotView>, message: ServerMessageView)
    ensures
        told(services, seq![message]) == message_services(services, Some(message)),
{
    assert(seq![message].drop_last() =~= Seq::<ServerMessageView>::empty());
    assert(told(services, Seq::<ServerMessageView>::empty()) == services);
}

proof fn lemma_told_two(
    services: Map<Seq<char>, SnapshotView>,
    first: ServerMessageView,
    second: ServerMessageView,
)
    ensures
        told(services, seq![first, second]) == message_services(
            message_services(services, Some(first)),
            Some(second),
        ),
{
    assert(seq![first, second].drop_last() =~= seq![first]);
    lemma_told_one(services, first);
}

/// A service that is told of is known as the manager knows it.
proof fn lemma_update(manager: ManagerView, i: int, service: ManagedService)
    requires
        manager.wf(),
        0 <= i < manager.services.len(),
    ensures
        message_services(mirror(manager), Some(manager.with(i, service).update(i))) == mirror(
            manager.with(i, service),
        ),
{
    let after = manager.with(i, service);
    let goal = mirror(after);
    let known = message_services(mirror(manager), Some(after.update(i)));
    assert(manager.names.contains(manager.names[i]));
    assert forall|name: Seq<char>| goal.contains_key(name) implies known[name] == goal[name] by {
        let k = manager.names.index_of(name);
        if name == manager.names[i] {
            lemma_ascending_distinct(manager.names, i, k);
        }
    }
    assert(known =~= goal);
}

/// Where nothing that is told changed, nothing has to be.
proof fn lemma_unseen(manager: ManagerView, i: int, service: ManagedService)
    requires
        manager.wf(),
        0 <= i < manager.services.len(),
        service.snapshot(manager.names[i]) == manager.snapshot_at(i),
    ensures
        mirror(manager.with(i, service)) == mirror(manager),
{
    assert(mirror(manager.with(i, service)) =~= mirror(manager));
}

/// One who attaches knows of the services what the manager knows.
pub proof fn law_snapshot_opens_the_mirror(manager: ManagerView)
    requires
        manager.wf(),
        !manager.shutdown_requested,
    ensures
        manager.outcome(ManagerEventView::Attach) matches EventOutcomeView::Subscribed { reply, .. }
            && reply matches ServerMessageView::Snapshot { services, .. } && by_name(services)
            == mirror(manager),
{
    let services = Seq::new(manager.services.len(), |i: int| manager.snapshot_at(i));
    lemma_by_name_prefix(manager, services, services.len() as int);
    assert(services.take(services.len() as int) =~= services);
    assert(by_name(services) =~= mirror(manager));
}

proof fn lemma_by_name_prefix(manager: ManagerView, services: Seq<SnapshotView>, k: int)
    requires
        manager.wf(),
        services == Seq::new(manager.services.len(), |i: int| manager.snapshot_at(i)),
        0 <= k <= services.len(),
    ensures
        by_name(services.take(k)) == Map::new(
            |name: Seq<char>| manager.names.take(k).contains(name),
            |name: Seq<char>| manager.snapshot_at(manager.names.index_of(name)),
        ),
        k == manager.names.len() ==> manager.names.take(k) == manager.names,
    decreases k,
{
    let goal = Map::new(
        |name: Seq<char>| manager.names.take(k).contains(name),
        |name: Seq<char>| manager.snapshot_at(manager.names.index_of(name)),
    );
    if k == 0 {
        assert(by_name(services.take(k)) =~= goal);
    } else {
        lemma_by_name_prefix(manager, services, k - 1);
        let front = services.take(k - 1);
        assert(services.take(k).drop_last() =~= front);
        assert(services.take(k).last() == manager.snapshot_at(k - 1));
        let name = manager.names[k - 1];
        let known = by_name(services.take(k));
        assert(known == by_name(front).insert(name, manager.snapshot_at(k - 1)));
        let longer = manager.names.take(k);
        let shorter = manager.names.take(k - 1);
        assert forall|t: Seq<char>| goal.contains_key(t) <==> known.contains_key(t) by {
            if longer.contains(t) {
                let i = longer.index_of(t);
                if i < k - 1 {
                    assert(shorter[i] == t);
                }
            }
            if shorter.contains(t) {
                let i = shorter.index_of(t);
                assert(longer[i] == t);
            }
            assert(longer[k - 1] == name);
        }
        assert(manager.names.contains(name));
        lemma_ascending_distinct(manager.names, k - 1, manager.names.index_of(name));
        assert(known =~= goal);
    }
    if k == manager.names.len() {
        assert(manager.names.take(k) =~= manager.names);
    }
}

/// What those who are attached are told of a line keeps them at what the manager knows.
pub proof fn law_lines_keep_the_mirror(manager: ManagerView, service: Seq<char>, line: Seq<char>)
    requires
        manager.wf(),
    ensures
        told(mirror(manager), manager.log_messages(service, line)) == mirror(
            manager.after_log(service, line),
        ),
{
    let after = manager.after_log(service, line);
    let messages = manager.log_messages(service, line);
    let own = messages.last();
    match position_of(manager.names, service) {
        Some(i) => {
            if manager.line_tells_ready(i, line) {
                let seen = manager.services[i].seen_ready();
                lemma_told_two(mirror(manager), after.update(i), own);
                lemma_update(manager, i, seen);
                assert(manager.with(i, seen).update(i) == after.update(i));
                assert(mirror(after) =~= mirror(manager.with(i, seen)));
            } else {
                lemma_told_one(mirror(manager), own);
                assert(mirror(after) =~= mirror(manager));
            }
        },
        None => {
            lemma_told_one(mirror(manager), own);
            assert(mirror(after) =~= mirror(manager));
        },
    }
}

/// What those who are attached are told of the answer of a service keeps them at what the manager
/// knows.
pub proof fn law_probes_keep_the_mirror(manager: ManagerView, i: int, ready: bool)
    requires
        manager.wf(),
        0 <= i < manager.services.len(),
    ensures
        told(
            mirror(manager),
            manager.change_messages(i, manager.services[i].probed(ready)),
        ) == mirror(manager.with(i, manager.services[i].probed(ready))),
{
    let service = manager.services[i].probed(ready);
    if service == manager.services[i] {
        assert(manager.with(i, service) =~= manager);
    } else {
        lemma_told_one(mirror(manager), manager.with(i, service).update(i));
        lemma_update(manager, i, service);
    }
}

/// What those who are attached are told of the use of a service, and of the end of its process,
/// keeps them at what the manager knows.
pub proof fn law_changes_keep_the_mirror(
    manager: ManagerView,
    i: int,
    cpu: CpuPercent,
    cpu_differs: bool,
    memory: u64,
    code: Option<i32>,
)
    requires
        manager.wf(),
        0 <= i < manager.services.len(),
    ensures
        ({
            let service = manager.services[i].measured(cpu, cpu_differs, memory);
            let messages = if cpu_differs || manager.services[i].memory_bytes != memory {
                seq![manager.with(i, service).update(i)]
            } else {
                Seq::empty()
            };
            told(mirror(manager), messages) == mirror(manager.with(i, service))
        }),
        ({
            let service = manager.services[i].exited(code, manager.services[i].manually_stopped);
            told(mirror(manager), seq![manager.with(i, service).update(i)]) == mirror(
                manager.with(i, service),
            )
        }),
{
    let measured = manager.services[i].measured(cpu, cpu_differs, memory);
    let gone = manager.services[i].exited(code, manager.services[i].manually_stopped);
    lemma_update(manager, i, measured);
    lemma_told_one(mirror(manager), manager.with(i, measured).update(i));
    if !cpu_differs && manager.services[i].memory_bytes == memory {
        assert(manager.with(i, measured) =~= manager);
    }
    lemma_update(manager, i, gone);
    lemma_told_one(mirror(manager), manager.with(i, gone).update(i));
}

/// What those who are attached are told in a step of a job keeps them at what the manager knows.
pub proof fn law_jobs_keep_the_mirror(job: Job, manager: ManagerView, outcome: Outcome)
    requires
        manager.wf(),
        job.wf(manager),
        job.accepts(outcome),
    ensures
        told(mirror(manager), job.next(manager, outcome).broadcasts) == mirror(
            job.next(manager, outcome).manager,
        ),
{
    let after = job.next(manager, outcome);
    let i = job.cursor as int;
    if after.broadcasts.len() == 0 {
        if after.manager != manager {
            let service = after.manager.services[i];
            assert(after.manager =~= manager.with(i, service));
            lemma_unseen(manager, i, service);
        }
    } else if after.broadcasts.len() == 1 {
        let service = after.manager.services[i];
        assert(after.manager =~= manager.with(i, service));
        assert(after.broadcasts =~= seq![after.manager.update(i)]);
        lemma_told_one(mirror(manager), after.manager.update(i));
        lemma_update(manager, i, service);
    } else if let Outcome::Exited(code) = outcome {
        let first = manager.services[i].exited(code, manager.services[i].manually_stopped);
        let gone = manager.with(i, first);
        assert(gone.wf()) by {
            assert forall|k: int| 0 <= k < gone.services.len() implies (
            #[trigger] gone.services[k]).wf() by {
                assert(manager.services[k].wf());
            }
        }
        lemma_told_two(mirror(manager), gone.update(i), after.manager.update(i));
        lemma_update(manager, i, first);
        lemma_update(gone, i, first.stopped());
    }
}

/// A session opens with what the manager knows: its services, the lines that it kept, each printed
/// once and in order before the services, and the width of the widest name. Nothing is typed yet.
/// Where the manager refuses, the session does not open, and says what the manager said.
pub proof fn law_sessions_open_with_what_the_manager_knows(manager: ManagerView)
    requires
        manager.wf(),
    ensures
        match manager.outcome(ManagerEventView::Attach) {
            EventOutcomeView::Subscribed { reply, .. } => opened(Some(reply)) matches Ok(opening) && {
                &&& opening.services == mirror(manager)
                &&& opening.mode is Status
                &&& reply matches ServerMessageView::Snapshot { max_name_width, .. }
                &&& opening.max_name_width == max_name_width
                &&& opening.steps.len() == manager.recent_logs.len() + 1
                &&& opening.steps.last() is DrawStatus
                &&& forall|i: int|
                    0 <= i < manager.recent_logs.len() ==> #[trigger] opening.steps[i]
                        == StepView::PrintLog(manager.recent_logs[i])
            },
            EventOutcomeView::Reply(ServerMessageView::Error { message }) => opened(
                Some(ServerMessageView::Error { message }),
            ) == Err::<OpeningView, ReplyErrorView>(ReplyErrorView::Refused(message)),
            _ => false,
        },
        opened(None) == Err::<OpeningView, ReplyErrorView>(ReplyErrorView::Closed),
        forall|other: ServerMessageView|
            other !is Snapshot && other !is Error ==> #[trigger] opened(Some(other)) == Err::<
                OpeningView,
                ReplyErrorView,
            >(ReplyErrorView::Unexpected(other)),
{
    if !manager.shutdown_requested {
        law_snapshot_opens_the_mirror(manager);
    }
}

/// A command that the terminal takes is never refused by the manager that it is attached to: the
/// message that asks for it begins a job.
pub proof fn law_accepted_commands_are_begun(
    manager: ManagerView,
    names: ServiceNamesView,
    input: Seq<char>,
)
    requires
        names.wf(),
        forall|service: Seq<char>| #[trigger]
            names.short_by_full.contains_key(service) ==> manager.names.contains(service),
        parsed(input, names) is Ok,
    ensures
        plan_of(Some(request_of(parsed(input, names)->Ok_0))) matches ClientPlanView::Command(
            command,
        ) && manager.outcome(ManagerEventView::Command(command)) is Begin,
{
    law_parsed_service_exists(input, names);
}

} // verus!
