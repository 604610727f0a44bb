//! Lifecycle of a machine, with a fake driver.

use std::cell::RefCell;
use std::rc::Rc;

use vz_backend::runner::{
    after_start, after_stop, attempt_budget, claim, retry_step, AgentStream, ConnectAttempt,
    RetryStep, VmDriver, VmError, VmHandle, VmState,
};

#[derive(Clone, Copy)]
enum StartBehavior {
    Succeed,
    Fail,
    TimeOut,
}

#[derive(Clone, Default)]
struct Probe {
    calls: Rc<RefCell<Vec<&'static str>>>,
    dropped: Rc<RefCell<bool>>,
}

impl Probe {
    fn calls(&self) -> Vec<&'static str> {
        self.calls.borrow().clone()
    }
    fn push(&self, call: &'static str) {
        self.calls.borrow_mut().push(call);
    }
    fn was_dropped(&self) -> bool {
        *self.dropped.borrow()
    }
}

struct FakeDriver {
    behavior: StartBehavior,
    probe: Probe,
}

impl VmDriver for FakeDriver {
    type Reader = ();
    type Writer = ();

    fn start(&mut self, _boot_timeout_ms: u64) -> Result<(), VmError> {
        self.probe.push("start");
        match self.behavior {
            StartBehavior::Succeed => Ok(()),
            StartBehavior::Fail => Err(VmError::Start("kernel image not found".to_string())),
            StartBehavior::TimeOut => Err(VmError::BootTimeout),
        }
    }

    fn stop(&mut self) -> Result<(), VmError> {
        self.probe.push("stop");
        Ok(())
    }

    fn open_agent_stream(&mut self, _port: u32, _timeout_ms: u64) -> Result<AgentStream<(), ()>, VmError> {
        self.probe.push("connect");
        Err(VmError::Connect("lifecycle fake has no guest agent".to_string()))
    }
}

impl Drop for FakeDriver {
    fn drop(&mut self) {
        *self.probe.dropped.borrow_mut() = true;
    }
}

fn spawn(behavior: StartBehavior) -> (VmHandle<FakeDriver>, Probe) {
    let probe = Probe::default();
    let handle = VmHandle::spawn(Ok(FakeDriver { behavior, probe: probe.clone() }))
        .expect("spawn should succeed");
    (handle, probe)
}

const TIMEOUT: u64 = 5000;

#[test]
fn boot_transitions_to_running() {
    let (mut handle, probe) = spawn(StartBehavior::Succeed);
    assert_eq!(handle.state(), VmState::Created);
    handle.boot(TIMEOUT).expect("boot should succeed");
    assert_eq!(handle.state(), VmState::Running);
    assert_eq!(probe.calls(), vec!["start"]);
}

#[test]
fn boot_failure_propagates_and_marks_failed() {
    let (mut handle, _probe) = spawn(StartBehavior::Fail);
    let error = handle.boot(TIMEOUT).expect_err("boot should fail");
    assert_eq!(error, VmError::Start("kernel image not found".to_string()));
    assert_eq!(handle.state(), VmState::Failed);
}

#[test]
fn boot_timeout_force_stops_and_marks_failed() {
    let (mut handle, probe) = spawn(StartBehavior::TimeOut);
    let error = handle.boot(TIMEOUT).expect_err("boot should time out");
    assert_eq!(error, VmError::BootTimeout);
    assert_eq!(handle.state(), VmState::Failed);
    assert_eq!(
        probe.calls(),
        vec!["start", "stop"],
        "a timed-out boot must be force-stopped, not left running"
    );
}

#[test]
fn double_boot_is_rejected() {
    let (mut handle, probe) = spawn(StartBehavior::Succeed);
    handle.boot(TIMEOUT).expect("first boot should succeed");
    let error = handle.boot(TIMEOUT).expect_err("second boot must fail");
    assert_eq!(error, VmError::AlreadyRunning);
    assert_eq!(probe.calls(), vec!["start"], "driver must not be started twice");
}

#[test]
fn stop_before_boot_is_rejected() {
    let (mut handle, probe) = spawn(StartBehavior::Succeed);
    let error = handle.stop().expect_err("stop before boot must fail");
    assert_eq!(error, VmError::NotRunning);
    assert!(probe.calls().is_empty());
}

#[test]
fn stop_after_boot_transitions_to_stopped() {
    let (mut handle, probe) = spawn(StartBehavior::Succeed);
    handle.boot(TIMEOUT).expect("boot should succeed");
    handle.stop().expect("stop should succeed");
    assert_eq!(handle.state(), VmState::Stopped);
    assert_eq!(probe.calls(), vec!["start", "stop"]);
}

#[test]
fn boot_after_stop_is_rejected() {
    let (mut handle, _probe) = spawn(StartBehavior::Succeed);
    handle.boot(TIMEOUT).expect("boot should succeed");
    handle.stop().expect("stop should succeed");
    let error = handle.boot(TIMEOUT).expect_err("boot after stop must fail");
    assert_eq!(error, VmError::AlreadyRunning);
}

#[test]
fn connect_routes_to_the_driver_only_when_running() {
    let (mut handle, probe) = spawn(StartBehavior::Succeed);
    let error = handle.connect(28024, TIMEOUT).expect_err("connect before boot must fail");
    assert_eq!(error, VmError::NotRunning);
    handle.boot(TIMEOUT).expect("boot should succeed");
    let error = handle.connect(28024, TIMEOUT).expect_err("the lifecycle fake has no agent");
    assert_eq!(error, VmError::Connect("lifecycle fake has no guest agent".to_string()));
    assert_eq!(
        probe.calls(),
        vec!["start", "connect"],
        "connect must reach the driver only in the Running state"
    );
    assert_eq!(handle.state(), VmState::Running, "a failed connect leaves the machine running");
}

#[test]
fn drop_stops_running_vm_and_joins_thread() {
    let (mut handle, probe) = spawn(StartBehavior::Succeed);
    handle.boot(TIMEOUT).expect("boot should succeed");
    handle.shutdown();
    assert_eq!(probe.calls(), vec!["start", "stop"]);
    assert!(probe.was_dropped(), "driver must be dropped on shutdown");
}

#[test]
fn drop_without_boot_still_tears_down_cleanly() {
    let (handle, probe) = spawn(StartBehavior::Succeed);
    handle.shutdown();
    assert!(probe.calls().is_empty(), "nothing to stop");
    assert!(probe.was_dropped(), "driver must be dropped on shutdown");
}

#[test]
fn shutdown_after_stop_does_not_stop_again() {
    let (mut handle, probe) = spawn(StartBehavior::Succeed);
    handle.boot(TIMEOUT).unwrap();
    handle.stop().unwrap();
    handle.shutdown();
    assert_eq!(probe.calls(), vec!["start", "stop"]);
}

#[test]
fn a_whole_run_starts_and_stops_once() {
    let (mut handle, probe) = spawn(StartBehavior::Succeed);
    assert!(handle.stop().is_err());
    assert!(handle.connect(28024, TIMEOUT).is_err());
    handle.boot(TIMEOUT).unwrap();
    assert!(handle.connect(28024, TIMEOUT).is_err());
    assert!(handle.boot(TIMEOUT).is_err());
    assert!(handle.connect(28024, TIMEOUT).is_err());
    handle.stop().unwrap();
    assert!(handle.connect(28024, TIMEOUT).is_err());
    assert!(handle.stop().is_err());
    handle.shutdown();
    assert_eq!(probe.calls(), vec!["start", "connect", "connect", "stop"]);

    let (mut handle, probe) = spawn(StartBehavior::TimeOut);
    assert!(handle.boot(TIMEOUT).is_err());
    assert!(handle.boot(TIMEOUT).is_err());
    assert!(handle.stop().is_err());
    handle.shutdown();
    assert_eq!(probe.calls(), vec!["start", "stop"]);

    let (mut handle, probe) = spawn(StartBehavior::Fail);
    assert!(handle.boot(TIMEOUT).is_err());
    handle.shutdown();
    assert_eq!(probe.calls(), vec!["start"], "a failed start leaves nothing to stop");
}

#[test]
fn factory_failure_surfaces_from_spawn() {
    let result: Result<VmHandle<FakeDriver>, VmError> =
        VmHandle::spawn(Err(VmError::Start("missing virtualization entitlement".to_string())));
    match result {
        Err(error) => assert_eq!(
            error,
            VmError::Start("missing virtualization entitlement".to_string())
        ),
        Ok(_) => panic!("factory failure must surface"),
    }
}

#[test]
fn runner_errors_render_human_readable_messages() {
    for (error, needle) in [
        (VmError::BootTimeout, "boot"),
        (VmError::Start("x".to_string()), "start"),
        (VmError::Stop("x".to_string()), "stop"),
        (VmError::Connect("x".to_string()), "connect"),
        (VmError::ConnectTimeout, "agent"),
        (VmError::AlreadyRunning, "already"),
        (VmError::NotRunning, "not running"),
        (VmError::Terminated, "thread"),
    ] {
        let message = error.message().to_lowercase();
        assert!(
            message.contains(needle),
            "message {message:?} should mention {needle:?}"
        );
    }
}

#[test]
fn attempts_lead_to_the_documented_states() {
    assert_eq!(after_start(&Ok(())), (VmState::Running, false));
    assert_eq!(after_start(&Err(VmError::BootTimeout)), (VmState::Failed, true));
    assert_eq!(after_start(&Err(VmError::Start("x".to_string()))), (VmState::Failed, false));
    assert_eq!(after_stop(&Ok(())), VmState::Stopped);
    assert_eq!(after_stop(&Err(VmError::Stop("x".to_string()))), VmState::Failed);
}

#[test]
fn connecting_retries_until_the_deadline() {
    assert_eq!(retry_step(ConnectAttempt::Connected, 10, 5, 100), RetryStep::Take);
    assert_eq!(retry_step(ConnectAttempt::NotReady, 0, 101, 100), RetryStep::Retry);
    assert_eq!(
        retry_step(ConnectAttempt::NotReady, 0, 100, 100),
        RetryStep::Fail(VmError::ConnectTimeout)
    );
    assert_eq!(
        retry_step(ConnectAttempt::NotReady, u64::MAX, 100, 100),
        RetryStep::Fail(VmError::ConnectTimeout)
    );
    assert_eq!(
        retry_step(ConnectAttempt::Fatal("no device".to_string()), 0, 100, 1),
        RetryStep::Fail(VmError::Connect("no device".to_string()))
    );
    assert_eq!(
        retry_step(ConnectAttempt::TimedOut, 0, 100, 1),
        RetryStep::Fail(VmError::ConnectTimeout)
    );
    assert_eq!(attempt_budget(40, 100), Ok(60));
    assert_eq!(attempt_budget(100, 100), Err(VmError::ConnectTimeout));
}

#[test]
fn delivered_connections_are_claimed() {
    assert_eq!(claim(true, false, 7), ConnectAttempt::Connected);
    assert_eq!(claim(true, false, -1), ConnectAttempt::NotReady);
    assert_eq!(claim(false, true, -1), ConnectAttempt::NotReady);
    assert_eq!(
        claim(false, false, -1),
        ConnectAttempt::Fatal(
            "connect completion delivered neither a connection nor an error".to_string()
        )
    );
}
