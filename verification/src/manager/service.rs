//! A service as the manager runs it.

use vstd::prelude::*;

use crate::ipc::{CpuPercent, ServiceSnapshot, ServiceState, SnapshotView};

verus! {

/// What the manager knows of a service: whether it has a process, and what that does.
#[derive(Debug, Clone, Copy, PartialEq, Eq, Structural)]
pub struct ManagedService {
    pub has_child: bool,
    pub pid: Option<u32>,
    pub state: ServiceState,
    pub ready: bool,
    pub manually_stopped: bool,
    pub cpu_percent: CpuPercent,
    pub memory_bytes: u64,
    pub last_exit_code: Option<i32>,
}

/// A share of nothing.
pub open spec fn no_cpu() -> CpuPercent {
    CpuPercent { bits: 0 }
}

/// A service that was never started.
pub open spec fn fresh() -> ManagedService {
    ManagedService {
        has_child: false,
        pid: None,
        state: ServiceState::Stopped,
        ready: false,
        manually_stopped: false,
        cpu_percent: no_cpu(),
        memory_bytes: 0,
        last_exit_code: None,
    }
}

impl ManagedService {
    /// A service is ready exactly while it is said to run.
    pub open spec fn wf(self) -> bool {
        self.ready == (self.state == ServiceState::Running)
    }

    /// The service with a new process; it is ready at once where nothing tells when it is.
    pub open spec fn started(self, pid: Option<u32>, probed: bool) -> ManagedService {
        ManagedService {
            has_child: true,
            pid,
            state: if probed {
                ServiceState::Starting
            } else {
                ServiceState::Running
            },
            ready: !probed,
            manually_stopped: false,
            last_exit_code: None,
            ..self
        }
    }

    /// The service, asked to stop while it has no process.
    pub open spec fn put_to_rest(self) -> ManagedService {
        ManagedService {
            manually_stopped: true,
            ready: false,
            state: ServiceState::Stopped,
            cpu_percent: no_cpu(),
            memory_bytes: 0,
            ..self
        }
    }

    /// The service, asked to stop while it has a process.
    pub open spec fn asked_to_stop(self) -> ManagedService {
        ManagedService { manually_stopped: true, ..self }
    }

    /// The service whose process is about to be waited for.
    pub open spec fn given_up(self) -> ManagedService {
        ManagedService { has_child: false, ..self }
    }

    /// The service whose process is gone.
    pub open spec fn exited(self, code: Option<i32>, manual: bool) -> ManagedService {
        ManagedService {
            has_child: false,
            pid: None,
            ready: false,
            cpu_percent: no_cpu(),
            memory_bytes: 0,
            last_exit_code: code,
            state: if manual {
                ServiceState::Stopped
            } else {
                ServiceState::Exited
            },
            ..self
        }
    }

    /// The service that was stopped.
    pub open spec fn stopped(self) -> ManagedService {
        ManagedService {
            has_child: false,
            pid: None,
            ready: false,
            cpu_percent: no_cpu(),
            memory_bytes: 0,
            state: ServiceState::Stopped,
            ..self
        }
    }

    /// The service of which its output told that it is ready.
    pub open spec fn seen_ready(self) -> ManagedService {
        ManagedService { ready: true, state: ServiceState::Running, ..self }
    }

    /// The service of which a request told whether it is ready.
    pub open spec fn probed(self, ready: bool) -> ManagedService {
        if self.ready == ready {
            self
        } else {
            ManagedService {
                ready,
                state: if ready {
                    ServiceState::Running
                } else {
                    ServiceState::Starting
                },
                ..self
            }
        }
    }

    /// The service with what its processes use; a share of the processor counts only where it
    /// differs enough.
    pub open spec fn measured(self, cpu: CpuPercent, cpu_differs: bool, memory: u64) -> ManagedService {
        ManagedService {
            cpu_percent: if cpu_differs {
                cpu
            } else {
                self.cpu_percent
            },
            memory_bytes: memory,
            ..self
        }
    }

    /// What is told of the service.
    pub open spec fn snapshot(self, name: Seq<char>) -> SnapshotView {
        SnapshotView {
            name,
            pid: self.pid,
            state: self.state,
            ready: self.ready,
            cpu_percent: self.cpu_percent,
            memory_bytes: self.memory_bytes,
            last_exit_code: self.last_exit_code,
        }
    }

    /// Whether the service was stopped, has no process and uses nothing.
    pub open spec fn at_rest(self) -> bool {
        &&& !self.has_child
        &&& !self.ready
        &&& self.state == ServiceState::Stopped
        &&& self.manually_stopped
        &&& self.cpu_percent == no_cpu()
        &&& self.memory_bytes == 0
    }

    /// Whether the service has no number of a process that it does not have.
    pub open spec fn tidy(self) -> bool {
        self.has_child || self.pid is None
    }
}

/// Whatever happens to a service, it is ready exactly while it is said to run.
pub proof fn law_ready_means_running(
    service: ManagedService,
    pid: Option<u32>,
    code: Option<i32>,
    cpu: CpuPercent,
    memory: u64,
    flag: bool,
)
    ensures
        fresh().wf(),
        service.started(pid, flag).wf(),
        service.put_to_rest().wf(),
        service.exited(code, flag).wf(),
        service.stopped().wf(),
        service.seen_ready().wf(),
        service.wf() ==> service.asked_to_stop().wf(),
        service.wf() ==> service.given_up().wf(),
        service.wf() ==> service.probed(flag).wf(),
        service.wf() ==> service.measured(cpu, flag, memory).wf(),
{
}

/// A service that was started has its new process, and nothing is left of the last exit; it runs,
/// and is ready, at once exactly where nothing is there to tell when it is.
pub proof fn law_started_services_in_full(service: ManagedService, pid: Option<u32>, has_probe: bool)
    ensures
        ({
            let after = service.started(pid, has_probe);
            &&& after.has_child && after.pid == pid
            &&& after.ready == !has_probe
            &&& has_probe ==> after.state == ServiceState::Starting
            &&& !has_probe ==> after.state == ServiceState::Running
            &&& !after.manually_stopped && after.last_exit_code is None
            &&& after.cpu_percent == service.cpu_percent
            &&& after.memory_bytes == service.memory_bytes
        }),
{
}

/// A service whose process is gone has none, uses nothing and is not ready, and keeps the code
/// with which the process ended. One that is stopped without a process keeps the last one.
pub proof fn law_ended_services_in_full(service: ManagedService, code: Option<i32>, manual: bool)
    ensures
        ({
            let gone = service.exited(code, manual);
            &&& !gone.has_child && gone.pid is None && !gone.ready
            &&& gone.cpu_percent.bits == 0 && gone.memory_bytes == 0
            &&& gone.last_exit_code == code
            &&& gone.manually_stopped == service.manually_stopped
            &&& manual ==> gone.state == ServiceState::Stopped
            &&& !manual ==> gone.state == ServiceState::Exited
        }),
        ({
            let stopped = service.stopped();
            &&& !stopped.has_child && stopped.pid is None && !stopped.ready
            &&& stopped.cpu_percent.bits == 0 && stopped.memory_bytes == 0
            &&& stopped.state == ServiceState::Stopped
            &&& stopped.last_exit_code == service.last_exit_code
            &&& stopped.manually_stopped == service.manually_stopped
        }),
        ({
            let rested = service.put_to_rest();
            &&& rested.has_child == service.has_child && rested.pid == service.pid
            &&& !rested.ready && rested.state == ServiceState::Stopped && rested.manually_stopped
            &&& rested.cpu_percent.bits == 0 && rested.memory_bytes == 0
            &&& rested.last_exit_code == service.last_exit_code
        }),
{
}

/// What a service is asked, what it answers and what it uses changes nothing else of it.
pub proof fn law_observed_services_in_full(
    service: ManagedService,
    ready: bool,
    cpu: CpuPercent,
    cpu_differs: bool,
    memory: u64,
)
    ensures
        ({
            let seen = service.seen_ready();
            &&& seen.ready && seen.state == ServiceState::Running
            &&& seen == (ManagedService { ready: seen.ready, state: seen.state, ..service })
        }),
        ({
            let probed = service.probed(ready);
            &&& probed.ready == ready
            &&& service.ready != ready && ready ==> probed.state == ServiceState::Running
            &&& service.ready != ready && !ready ==> probed.state == ServiceState::Starting
            &&& service.ready == ready ==> probed.state == service.state
            &&& probed == (ManagedService { ready: probed.ready, state: probed.state, ..service })
        }),
        ({
            let measured = service.measured(cpu, cpu_differs, memory);
            &&& measured.memory_bytes == memory
            &&& cpu_differs ==> measured.cpu_percent == cpu
            &&& !cpu_differs ==> measured.cpu_percent == service.cpu_percent
            &&& measured == (ManagedService {
                memory_bytes: measured.memory_bytes,
                cpu_percent: measured.cpu_percent,
                ..service
            })
        }),
        service.asked_to_stop() == (ManagedService { manually_stopped: true, ..service }),
        service.given_up() == (ManagedService { has_child: false, ..service }),
{
}

/// A service that was never started has no process, is stopped without having been asked, uses
/// nothing and has left no code.
pub proof fn law_new_services_in_full()
    ensures
        ({
            let service = fresh();
            &&& !service.has_child && service.pid is None && !service.ready
            &&& service.state == ServiceState::Stopped && !service.manually_stopped
            &&& service.cpu_percent.bits == 0 && service.memory_bytes == 0
            &&& service.last_exit_code is None
        }),
{
}

/// What is told of a service is its name and what is known of it.
pub proof fn law_snapshots_in_full(service: ManagedService, name: Seq<char>)
    ensures
        ({
            let told = service.snapshot(name);
            &&& told.name == name
            &&& told.pid == service.pid
            &&& told.state == service.state
            &&& told.ready == service.ready
            &&& told.cpu_percent == service.cpu_percent
            &&& told.memory_bytes == service.memory_bytes
            &&& told.last_exit_code == service.last_exit_code
        }),
{
}

/// A service whose process ends by itself says so; one that was asked to stop is stopped.
pub proof fn law_exits_are_told_apart(service: ManagedService, code: Option<i32>)
    ensures
        service.exited(code, service.manually_stopped).state == if service.manually_stopped {
            ServiceState::Stopped
        } else {
            ServiceState::Exited
        },
        service.exited(code, true).stopped() == service.exited(code, true),
{
}

/// Asking a service twice whether it is ready, with the same answer, changes nothing more.
pub proof fn law_probe_is_idempotent(service: ManagedService, ready: bool)
    ensures
        service.probed(ready).probed(ready) == service.probed(ready),
{
}

impl ManagedService {
    /// A service that was never started.
    pub fn new() -> (r: Self)
        ensures
            r == fresh(),
            r.wf(),
    {
        ManagedService {
            has_child: false,
            pid: None,
            state: ServiceState::Stopped,
            ready: false,
            manually_stopped: false,
            cpu_percent: CpuPercent { bits: 0 },
            memory_bytes: 0,
            last_exit_code: None,
        }
    }

    /// Takes in that the service has a new process.
    pub fn start(&mut self, pid: Option<u32>, has_probe: bool)
        ensures
            *final(self) == old(self).started(pid, has_probe),
    {
        self.pid = pid;
        self.has_child = true;
        self.manually_stopped = false;
        self.last_exit_code = None;
        if has_probe {
            self.ready = false;
            self.state = ServiceState::Starting;
        } else {
            self.ready = true;
            self.state = ServiceState::Running;
        }
    }

    /// Stops a service without a process.
    pub fn rest(&mut self)
        ensures
            *final(self) == old(self).put_to_rest(),
    {
        self.manually_stopped = true;
        self.ready = false;
        self.state = ServiceState::Stopped;
        self.cpu_percent = CpuPercent { bits: 0 };
        self.memory_bytes = 0;
    }

    /// Takes in that the process of the service is gone.
    pub fn finish_exit(&mut self, exit_code: Option<i32>, manual_stop: bool)
        ensures
            *final(self) == old(self).exited(exit_code, manual_stop),
    {
        self.has_child = false;
        self.pid = None;
        self.ready = false;
        self.cpu_percent = CpuPercent { bits: 0 };
        self.memory_bytes = 0;
        self.last_exit_code = exit_code;
        self.state = if manual_stop {
            ServiceState::Stopped
        } else {
            ServiceState::Exited
        };
    }

    /// Takes in that the service was stopped.
    pub fn mark_stopped(&mut self)
        ensures
            *final(self) == old(self).stopped(),
    {
        self.has_child = false;
        self.pid = None;
        self.ready = false;
        self.cpu_percent = CpuPercent { bits: 0 };
        self.memory_bytes = 0;
        self.state = ServiceState::Stopped;
    }

    /// What is told of the service.
    pub fn snapshot_for(&self, name: &str) -> (r: ServiceSnapshot)
        ensures
            r@ == self.snapshot(name@),
    {
        ServiceSnapshot {
            name: name.to_owned(),
            pid: self.pid,
            state: self.state,
            ready: self.ready,
            cpu_percent: self.cpu_percent,
            memory_bytes: self.memory_bytes,
            last_exit_code: self.last_exit_code,
        }
    }
}

} // verus!
