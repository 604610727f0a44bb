//! One-shot sessions: policy in, exec outcome out.
//!
//! Everything that the policy decides (validation, exec request, machine
//! blueprint) is computed before any machine exists, so a bad policy never
//! costs a boot.

use vstd::prelude::*;
use vstd::string::*;
use crate::client::{completion, ExecCompletion, ExecError, ExecOutcome, ExecRequest};
use crate::exec_plan::{build_exec_request, carries_out};
use crate::policy::Policy;
use crate::runner::{
    boots, makes, one_call, opens, stops, three_calls, two_calls, AgentStream, DriverCall, VmDriver, VmError, VmHandle,
    VmState,
};
use crate::text::{decimal, push_decimal};
use crate::validate::{
    error_models, policy_errors, validate_vz_policy, ValidatedVzPolicy, VzPolicyError,
};
use crate::vm_spec::{build_vm_spec, vm_spec_of, VmSpec, VmSpecModel, MEGABYTE};

verus! {

#[derive(Clone, Debug, PartialEq, Eq)]
pub enum SessionOutcome {
    Completed(ExecOutcome),
    /// The policy's timeout elapsed; the machine was force-stopped. Partial
    /// output is discarded.
    TimedOut,
}

#[derive(Clone, Debug, PartialEq, Eq)]
pub enum SessionError {
    Validation(Vec<VzPolicyError>),
    Vm(VmError),
    Exec(ExecError),
    /// The policy is valid but holds nothing to run.
    Translation(String),
}

/// One line per error, each behind a dash.
pub open spec fn error_lines(errors: Seq<VzPolicyError>) -> Seq<char>
    decreases errors.len(),
{
    if errors.len() == 0 {
        Seq::empty()
    } else {
        error_lines(errors.drop_last()) + "\n  - "@ + errors.last().text()
    }
}

impl SessionError {
    /// The message shown for this error.
    pub open spec fn text(self) -> Seq<char> {
        match self {
            SessionError::Validation(errors) => "policy validation failed ("@ + decimal(
                errors@.len(),
            ) + " error(s)):"@ + error_lines(errors@),
            SessionError::Vm(error) => "VM lifecycle failure: "@ + error.text(),
            SessionError::Exec(error) => "exec failure: "@ + error@.text(),
            SessionError::Translation(reason) => "policy translation failed: "@ + reason@,
        }
    }

    /// The message shown for this error.
    pub fn message(&self) -> (message: String)
        ensures
            message@ == self.text(),
    {
        match self {
            SessionError::Validation(errors) => {
                let mut m: String = "policy validation failed (".to_string();
                push_decimal(&mut m, errors.len() as u64);
                m.append(" error(s)):");
                let ghost start = m@;
                let mut i: usize = 0;
                assert(start =~= start + error_lines(errors@.subrange(0, 0)));
                while i < errors.len()
                    invariant
                        i <= errors@.len(),
                        m@ == start + error_lines(errors@.subrange(0, i as int)),
                    decreases errors@.len() - i,
                {
                    let line: String = errors[i].message();
                    m.append("\n  - ");
                    m.append(line.as_str());
                    assert(errors@.subrange(0, i + 1).drop_last() =~= errors@.subrange(
                        0,
                        i as int,
                    ));
                    i = i + 1;
                    assert(m@ =~= start + error_lines(errors@.subrange(0, i as int)));
                }
                assert(errors@.subrange(0, i as int) =~= errors@);
                m
            },
            SessionError::Vm(error) => {
                let mut m: String = "VM lifecycle failure: ".to_string();
                let inner: String = error.message();
                m.append(inner.as_str());
                m
            },
            SessionError::Exec(error) => {
                let mut m: String = "exec failure: ".to_string();
                let inner: String = error.message();
                m.append(inner.as_str());
                m
            },
            SessionError::Translation(reason) => {
                let mut m: String = "policy translation failed: ".to_string();
                m.append(reason.as_str());
                m
            },
        }
    }
}

/// What a policy comes to: the command to run, and the machine to run it in.
#[derive(Debug)]
pub struct SessionPlan {
    pub request: ExecRequest,
    pub spec: VmSpec,
}

/// Whether a policy says what to run.
pub open spec fn has_command(policy: Policy) -> bool {
    policy.process is Some && (policy.process->0).command_line is Some && (
    policy.process->0).command_line->0@.len() > 0
}

/// Whether `plan` carries out `policy`.
pub open spec fn plan_of(plan: SessionPlan, policy: Policy, guest_image_dir: Seq<char>) -> bool {
    &&& has_command(policy)
    &&& carries_out(plan.request, policy.process->0, (policy.process->0).command_line->0)
    &&& plan.spec.network.wf()
    &&& plan.spec@ == vm_spec_of(policy, policy.options(), guest_image_dir)
}

/// Whether `error` is what an unusable policy is answered with: every
/// validation error, else the reason why there is nothing to run.
pub open spec fn refusal_of(error: SessionError, policy: Policy, experimental: bool) -> bool {
    if policy_errors(policy, experimental).len() > 0 {
        error matches SessionError::Validation(errors) && error_models(errors@) == policy_errors(
            policy,
            experimental,
        )
    } else {
        error matches SessionError::Translation(reason) && reason@ == if policy.process is None {
            "policy has no process block; one-shot exec requires process.commandLine"@
        } else {
            "process.commandLine is required for one-shot exec"@
        }
    }
}

/// Plans a session, before any machine exists.
pub fn plan_session(policy: &Policy, experimental: bool, guest_image_dir: &str) -> (result: Result<
    SessionPlan,
    SessionError,
>)
    requires
        policy_errors(*policy, experimental).len() == 0 && has_command(*policy)
            ==> policy.options().memory_mb * MEGABYTE <= u64::MAX,
    ensures
        match result {
            Ok(plan) => policy_errors(*policy, experimental).len() == 0 && plan_of(
                plan,
                *policy,
                guest_image_dir@,
            ),
            Err(error) => (policy_errors(*policy, experimental).len() > 0 || !has_command(*policy))
                && refusal_of(error, *policy, experimental),
        },
{
    let validated: ValidatedVzPolicy = match validate_vz_policy(policy, experimental) {
        Ok(validated) => validated,
        Err(errors) => {
            return Err(SessionError::Validation(errors));
        },
    };
    let request: ExecRequest = match build_exec_request(policy) {
        Ok(request) => request,
        Err(reason) => {
            return Err(SessionError::Translation(reason));
        },
    };
    let spec: VmSpec = build_vm_spec(policy, &validated, guest_image_dir);
    Ok(SessionPlan { request, spec })
}

/// What a session comes to when its exec does.
pub fn conclude(result: Result<ExecCompletion, ExecError>) -> (outcome: Result<
    SessionOutcome,
    SessionError,
>)
    ensures
        outcome == match result {
            Ok(ExecCompletion::Completed(o)) => Ok::<SessionOutcome, SessionError>(
                SessionOutcome::Completed(o),
            ),
            Ok(ExecCompletion::TimedOut) => Ok(SessionOutcome::TimedOut),
            Err(error) => Err(SessionError::Exec(error)),
        },
{
    match result {
        Ok(ExecCompletion::Completed(o)) => Ok(SessionOutcome::Completed(o)),
        Ok(ExecCompletion::TimedOut) => Ok(SessionOutcome::TimedOut),
        Err(error) => Err(SessionError::Exec(error)),
    }
}

/// What a session comes to when its exec ended like this; `None` is a missed
/// deadline.
pub open spec fn session_result(ended: Option<Result<ExecOutcome, ExecError>>) -> Result<
    SessionOutcome,
    SessionError,
> {
    match ended {
        Some(Ok(outcome)) => Ok(SessionOutcome::Completed(outcome)),
        Some(Err(error)) => Err(SessionError::Exec(error)),
        None => Ok(SessionOutcome::TimedOut),
    }
}

/// Whether a session on the machine that `made` gives may come to `result` and
/// leave the driver `left`: booted once; where that succeeded, connected to
/// once; where that succeeded, `exec` run once with `request`, on the stream
/// and on the machine while it runs. A machine that came to run is stopped
/// once and not touched again.
pub open spec fn session_runs<D, X>(
    made: Result<D, VmError>,
    spec: VmSpecModel,
    request: ExecRequest,
    exec: X,
    result: Result<SessionOutcome, SessionError>,
    left: Option<D>,
) -> bool where
    D: VmDriver,
    X: FnOnce(&VmHandle<D>, AgentStream<D::Reader, D::Writer>, ExecRequest) -> Option<
        Result<ExecOutcome, ExecError>,
    >,
 {
    match made {
        Err(error) => result == vm_failure(error) && left is None,
        Ok(created) => exists|booting: Result<(), VmError>, booted: D|
            #[trigger] boots(created, spec.boot_timeout_ms, booting, booted) && match booting {
                Err(error) => result == vm_failure(error) && left == Some(booted),
                Ok(()) => connected_runs(booted, spec, request, exec, result, left),
            },
    }
}

/// Whether a session on the running machine `booted` may come to `result` and
/// leave the driver `left`.
pub open spec fn connected_runs<D, X>(
    booted: D,
    spec: VmSpecModel,
    request: ExecRequest,
    exec: X,
    result: Result<SessionOutcome, SessionError>,
    left: Option<D>,
) -> bool where
    D: VmDriver,
    X: FnOnce(&VmHandle<D>, AgentStream<D::Reader, D::Writer>, ExecRequest) -> Option<
        Result<ExecOutcome, ExecError>,
    >,
 {
    exists|opening: Result<AgentStream<D::Reader, D::Writer>, VmError>, opened: D|
        #[trigger] booted.may_open(spec.vsock_agent_port, spec.boot_timeout_ms, opening, opened)
            && left is Some && stops(opened, left->0) && match opening {
            Err(error) => result == vm_failure(error),
            Ok(stream) => exists|
                handle: VmHandle<D>,
                ended: Option<Result<ExecOutcome, ExecError>>,
            |
                #[trigger] exec.ensures((&handle, stream, request), ended) && handle.vm_state()
                    == VmState::Running && handle.driver() == opened && result == session_result(
                    ended,
                ),
        }
}

pub open spec fn vm_failure(error: VmError) -> Result<SessionOutcome, SessionError> {
    Err(SessionError::Vm(error))
}

/// Whether a policy is carried out at all: it is valid, and says what to run.
pub open spec fn is_run(policy: Policy, experimental: bool) -> bool {
    policy_errors(policy, experimental).len() == 0 && has_command(policy)
}

/// Runs one policy end to end: validate, create the machine, boot, connect to
/// the guest agent, exec, tear down.
///
/// `factory` creates the machine's driver, and is called only for a policy
/// that is carried out: a bad one never costs a boot. `exec` runs the request
/// over the agent's stream, while the machine that it is shown runs, and
/// returns what came of it, or `None` once the request's deadline has passed.
/// Timeout enforcement is teardown, not in-guest signalling: the machine is
/// force-stopped. Connecting doubles as the boot-readiness signal, budgeted by
/// the boot timeout.
///
/// The driver comes back torn down, with nothing left to do but drop it;
/// `None` where there was none.
pub fn run_one_shot<D, F, X>(
    policy: &Policy,
    experimental: bool,
    guest_image_dir: &str,
    factory: F,
    exec: X,
) -> (ended: (Result<SessionOutcome, SessionError>, Option<D>)) where
    D: VmDriver,
    F: FnOnce() -> Result<D, VmError>,
    X: FnOnce(&VmHandle<D>, AgentStream<D::Reader, D::Writer>, ExecRequest) -> Option<
        Result<ExecOutcome, ExecError>,
    >,

    requires
        is_run(*policy, experimental) ==> policy.options().memory_mb * MEGABYTE <= u64::MAX,
        is_run(*policy, experimental) ==> factory.requires(()),
        is_run(*policy, experimental) ==> forall|
            handle: VmHandle<D>,
            stream: AgentStream<D::Reader, D::Writer>,
            request: ExecRequest,
        |
            handle.vm_state() == VmState::Running && carries_out(
                request,
                policy.process->0,
                (policy.process->0).command_line->0,
            ) ==> #[trigger] exec.requires((&handle, stream, request)),
    ensures
        !is_run(*policy, experimental) ==> ended.1 is None && (ended.0 matches Err(error)
            && refusal_of(error, *policy, experimental)),
        is_run(*policy, experimental) ==> exists|made: Result<D, VmError>, request: ExecRequest|
            #[trigger] factory.ensures((), made) && carries_out(
                request,
                policy.process->0,
                (policy.process->0).command_line->0,
            ) && #[trigger] session_runs(
                made,
                vm_spec_of(*policy, policy.options(), guest_image_dir@),
                request,
                exec,
                ended.0,
                ended.1,
            ),
{
    let plan: SessionPlan = match plan_session(policy, experimental, guest_image_dir) {
        Ok(plan) => plan,
        Err(error) => {
            return (Err(error), None);
        },
    };
    let boot_timeout_ms: u64 = plan.spec.boot_timeout_ms;
    let made: Result<D, VmError> = factory();
    let ghost created = made;
    let ghost spec = plan.spec@;
    let ghost request = plan.request;
    assert(factory.ensures((), created));
    let mut handle: VmHandle<D> = match VmHandle::spawn(made) {
        Ok(handle) => handle,
        Err(error) => {
            assert(session_runs(created, spec, request, exec, vm_failure(error), None));
            return (Err(SessionError::Vm(error)), None);
        },
    };
    let booting: Result<(), VmError> = handle.boot(boot_timeout_ms);
    let ghost booted = handle.driver();
    assert(boots(created->Ok_0, spec.boot_timeout_ms, booting, booted));
    if let Err(error) = booting {
        let driver: D = handle.shutdown();
        assert(session_runs(created, spec, request, exec, vm_failure(error), Some(driver)));
        return (Err(SessionError::Vm(error)), Some(driver));
    }
    let opening: Result<AgentStream<D::Reader, D::Writer>, VmError> = handle.connect(
        plan.spec.vsock_agent_port,
        boot_timeout_ms,
    );
    let ghost opened = handle.driver();
    assert(booted.may_open(spec.vsock_agent_port, spec.boot_timeout_ms, opening, opened));
    let stream: AgentStream<D::Reader, D::Writer> = match opening {
        Ok(stream) => stream,
        Err(error) => {
            let driver: D = handle.shutdown();
            assert(connected_runs(booted, spec, request, exec, vm_failure(error), Some(driver)));
            assert(session_runs(created, spec, request, exec, vm_failure(error), Some(driver)));
            return (Err(SessionError::Vm(error)), Some(driver));
        },
    };
    let ghost shown = handle;
    let ended: Option<Result<ExecOutcome, ExecError>> = exec(&handle, stream, plan.request);
    let ghost result = session_result(ended);
    assert(exec.ensures((&shown, stream, request), ended));
    if ended.is_none() {
        let _ = handle.stop();
        assert(stops(opened, handle.driver()));
    }
    let driver: D = handle.shutdown();
    assert(stops(opened, driver));
    assert(connected_runs(booted, spec, request, exec, result, Some(driver)));
    assert(session_runs(created, spec, request, exec, result, Some(driver)));
    (conclude(completion(ended)), Some(driver))
}

// ---------------------------------------------------------------------------
// Laws
// ---------------------------------------------------------------------------

/// A session that gets as far as its exec makes three calls on the driver, and
/// no more: start and connect, each with the boot timeout, and one stop,
/// whether the exec completed, failed or missed its deadline.
pub proof fn sessions_start_connect_and_stop_once<D, X>(
    created: D,
    spec: VmSpecModel,
    request: ExecRequest,
    exec: X,
    result: Result<SessionOutcome, SessionError>,
    left: Option<D>,
) where
    D: VmDriver,
    X: FnOnce(&VmHandle<D>, AgentStream<D::Reader, D::Writer>, ExecRequest) -> Option<
        Result<ExecOutcome, ExecError>,
    >,

    requires
        session_runs(Ok(created), spec, request, exec, result, left),
        !(result matches Err(SessionError::Vm(_))),
    ensures
        left is Some,
        makes(
            created,
            seq![
                DriverCall::Start { boot_timeout_ms: spec.boot_timeout_ms, result: Ok(()) },
                DriverCall::Open {
                    port: spec.vsock_agent_port,
                    timeout_ms: spec.boot_timeout_ms,
                },
                DriverCall::Stop,
            ],
            left->0,
        ),
{
    let start = DriverCall::Start { boot_timeout_ms: spec.boot_timeout_ms, result: Ok(()) };
    let open = DriverCall::Open {
        port: spec.vsock_agent_port,
        timeout_ms: spec.boot_timeout_ms,
    };
    let (booting, booted) = choose|booting: Result<(), VmError>, booted: D|
        #[trigger] boots(created, spec.boot_timeout_ms, booting, booted) && match booting {
            Err(error) => result == vm_failure(error) && left == Some(booted),
            Ok(()) => connected_runs(booted, spec, request, exec, result, left),
        };
    assert(booting->Ok_0 == ());
    let (opening, opened) = choose|
        opening: Result<AgentStream<D::Reader, D::Writer>, VmError>,
        opened: D,
    |
        #[trigger] booted.may_open(spec.vsock_agent_port, spec.boot_timeout_ms, opening, opened)
            && stops(opened, left->0);
    assert(opens(booted, spec.vsock_agent_port, spec.boot_timeout_ms, opened));
    three_calls(created, start, booted, open, opened, DriverCall::Stop, left->0);
}

/// What a session comes to is what its exec came to: an outcome completes it,
/// an error fails it with that error, and a missed deadline is a timeout.
pub proof fn sessions_come_to_what_the_exec_does(
    outcome: ExecOutcome,
    error: ExecError,
    policy: Policy,
)
    ensures
        session_result(Some(Ok(outcome))) == Ok::<SessionOutcome, SessionError>(
            SessionOutcome::Completed(outcome),
        ),
        session_result(Some(Err(error))) == Err::<SessionOutcome, SessionError>(
            SessionError::Exec(error),
        ),
        session_result(None) == Ok::<SessionOutcome, SessionError>(SessionOutcome::TimedOut),
        has_command(policy) <==> (policy.process matches Some(process) && (
        process.command_line matches Some(text) && text@.len() > 0)),
{
}

/// However a session ends, its machine is torn down: without a driver nothing
/// was called; a boot that failed is not followed by anything, but for the stop
/// that a boot timeout has; and whatever came to run was connected to once and
/// stopped once, as the last call.
pub proof fn sessions_are_torn_down<D, X>(
    made: Result<D, VmError>,
    spec: VmSpecModel,
    request: ExecRequest,
    exec: X,
    result: Result<SessionOutcome, SessionError>,
    left: Option<D>,
) where
    D: VmDriver,
    X: FnOnce(&VmHandle<D>, AgentStream<D::Reader, D::Writer>, ExecRequest) -> Option<
        Result<ExecOutcome, ExecError>,
    >,

    requires
        session_runs(made, spec, request, exec, result, left),
    ensures
        made matches Err(error) ==> left is None && result == Err::<SessionOutcome, SessionError>(
            SessionError::Vm(error),
        ),
        made matches Ok(created) ==> left is Some && exists|calls: Seq<DriverCall>|
            #[trigger] makes(created, calls, left->0) && is_one_session(calls, spec, result),
{
    if let Ok(created) = made {
        let (booting, booted) = choose|booting: Result<(), VmError>, booted: D|
            #[trigger] boots(created, spec.boot_timeout_ms, booting, booted) && match booting {
                Err(error) => result == vm_failure(error) && left == Some(booted),
                Ok(()) => connected_runs(booted, spec, request, exec, result, left),
            };
        let start = DriverCall::Start { boot_timeout_ms: spec.boot_timeout_ms, result: booting };
        match booting {
            Err(error) => {
                if error == VmError::BootTimeout {
                    let started = choose|started: D|
                        created.may_start(spec.boot_timeout_ms, booting, started)
                            && #[trigger] stops(started, booted);
                    two_calls(created, start, started, DriverCall::Stop, booted);
                    assert(seq![start, DriverCall::Stop].skip(1) =~= seq![DriverCall::Stop]);
                    assert(is_one_session(seq![start, DriverCall::Stop], spec, result));
                } else {
                    one_call(created, start, booted);
                    assert(seq![start].skip(1) =~= Seq::empty());
                    assert(is_one_session(seq![start], spec, result));
                }
            },
            Ok(unit) => {
                assert(unit == ());
                let open = DriverCall::Open {
                    port: spec.vsock_agent_port,
                    timeout_ms: spec.boot_timeout_ms,
                };
                let (opening, opened) = choose|
                    opening: Result<AgentStream<D::Reader, D::Writer>, VmError>,
                    opened: D,
                |
                    #[trigger] booted.may_open(
                        spec.vsock_agent_port,
                        spec.boot_timeout_ms,
                        opening,
                        opened,
                    ) && left is Some && stops(opened, left->0);
                assert(opens(booted, spec.vsock_agent_port, spec.boot_timeout_ms, opened));
                three_calls(created, start, booted, open, opened, DriverCall::Stop, left->0);
                assert(seq![start, open, DriverCall::Stop].skip(1) =~= seq![
                    open,
                    DriverCall::Stop,
                ]);
                assert(is_one_session(seq![start, open, DriverCall::Stop], spec, result));
            },
        }
    }
}

/// Whether `calls` are those of one session that came to `result`.
pub open spec fn is_one_session(
    calls: Seq<DriverCall>,
    spec: VmSpecModel,
    result: Result<SessionOutcome, SessionError>,
) -> bool {
    &&& calls.len() > 0
    &&& calls[0] matches DriverCall::Start { boot_timeout_ms, result: booting } && {
        &&& boot_timeout_ms == spec.boot_timeout_ms
        &&& match booting {
            Err(error) => result == Err::<SessionOutcome, SessionError>(SessionError::Vm(error))
                && calls.skip(1) == (if error == VmError::BootTimeout {
                seq![DriverCall::Stop]
            } else {
                Seq::empty()
            }),
            Ok(()) => calls.skip(1) == seq![
                DriverCall::Open {
                    port: spec.vsock_agent_port,
                    timeout_ms: spec.boot_timeout_ms,
                },
                DriverCall::Stop,
            ],
        }
    }
}

} // verus!
