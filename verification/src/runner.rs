//! The virtual machine's lifecycle.
//!
//! One-shot: created, running, then stopped or failed. A stopped machine is
//! torn down, never reused. The machine itself belongs to a driver.

use vstd::prelude::*;
use vstd::string::*;

verus! {

#[derive(Clone, Copy, Debug, PartialEq, Eq, Structural)]
pub enum VmState {
    Created,
    Running,
    Stopped,
    Failed,
}

#[derive(Clone, Debug, PartialEq, Eq)]
pub enum VmError {
    BootTimeout,
    Start(String),
    Stop(String),
    Connect(String),
    /// The guest agent never accepted a connection before the deadline: the
    /// boot-readiness signal did not arrive.
    ConnectTimeout,
    AlreadyRunning,
    NotRunning,
    Terminated,
}

impl VmError {
    /// The message shown for this error.
    pub open spec fn text(self) -> Seq<char> {
        match self {
            VmError::BootTimeout => "VM did not become ready before the boot timeout"@,
            VmError::Start(reason) => "VM failed to start: "@ + reason@,
            VmError::Stop(reason) => "VM failed to stop: "@ + reason@,
            VmError::Connect(reason) => "failed to connect to the guest agent: "@ + reason@,
            VmError::ConnectTimeout => "guest agent did not accept a vsock connection before the timeout"@,
            VmError::AlreadyRunning => "VM was already booted; the vz lifecycle is one-shot"@,
            VmError::NotRunning => "VM is not running"@,
            VmError::Terminated => "VM thread terminated unexpectedly"@,
        }
    }

    /// The message shown for this error.
    pub fn message(&self) -> (message: String)
        ensures
            message@ == self.text(),
    {
        match self {
            VmError::BootTimeout => "VM did not become ready before the boot timeout".to_string(),
            VmError::Start(reason) => {
                let mut m: String = "VM failed to start: ".to_string();
                m.append(reason.as_str());
                m
            },
            VmError::Stop(reason) => {
                let mut m: String = "VM failed to stop: ".to_string();
                m.append(reason.as_str());
                m
            },
            VmError::Connect(reason) => {
                let mut m: String = "failed to connect to the guest agent: ".to_string();
                m.append(reason.as_str());
                m
            },
            VmError::ConnectTimeout => "guest agent did not accept a vsock connection before the timeout".to_string(),
            VmError::AlreadyRunning => "VM was already booted; the vz lifecycle is one-shot".to_string(),
            VmError::NotRunning => "VM is not running".to_string(),
            VmError::Terminated => "VM thread terminated unexpectedly".to_string(),
        }
    }
}

/// A byte stream to the guest agent, split into halves so that the exec
/// client can move them to separate threads.
#[derive(Debug)]
pub struct AgentStream<R, W> {
    pub reader: R,
    pub writer: W,
}

/// Implementations own the platform's machine object.
///
/// The spec functions say which answers a call may have, and what it may leave
/// of the driver. An implementation may narrow them; one that promises nothing
/// keeps them as they are.
pub trait VmDriver: Sized {
    type Reader;

    type Writer;

    /// Whether booting `self` may come to `result` and leave `after`.
    open spec fn may_start(
        self,
        boot_timeout_ms: u64,
        result: Result<(), VmError>,
        after: Self,
    ) -> bool {
        true
    }

    /// Whether force-stopping `self` may come to `result` and leave `after`.
    open spec fn may_stop(self, result: Result<(), VmError>, after: Self) -> bool {
        true
    }

    /// Whether opening a stream on `self` may come to `result` and leave `after`.
    open spec fn may_open(
        self,
        port: u32,
        timeout_ms: u64,
        result: Result<AgentStream<Self::Reader, Self::Writer>, VmError>,
        after: Self,
    ) -> bool {
        true
    }

    /// Boots the machine, returning once it is running or has definitively
    /// failed. The driver owns enforcing the timeout.
    fn start(&mut self, boot_timeout_ms: u64) -> (result: Result<(), VmError>)
        ensures
            old(self).may_start(boot_timeout_ms, result, *final(self)),
    ;

    /// Force-stops the machine.
    fn stop(&mut self) -> (result: Result<(), VmError>)
        ensures
            old(self).may_stop(result, *final(self)),
    ;

    /// Opens a stream to the guest agent listening on `port`. The driver owns
    /// readiness retry until the timeout elapses: a fresh guest accepts only
    /// once its agent is listening.
    fn open_agent_stream(&mut self, port: u32, timeout_ms: u64) -> (result: Result<
        AgentStream<Self::Reader, Self::Writer>,
        VmError,
    >)
        ensures
            old(self).may_open(port, timeout_ms, result, *final(self)),
    ;
}

/// Whether a boot attempt turns driver `before` into `after` and comes to
/// `result`: started once with the timeout, and force-stopped if that timed
/// out.
pub open spec fn boots<D: VmDriver>(
    before: D,
    boot_timeout_ms: u64,
    result: Result<(), VmError>,
    after: D,
) -> bool {
    if result == Err::<(), VmError>(VmError::BootTimeout) {
        exists|started: D|
            before.may_start(boot_timeout_ms, result, started) && #[trigger] stops(started, after)
    } else {
        before.may_start(boot_timeout_ms, result, after)
    }
}

/// Whether one stop attempt, whatever it comes to, turns driver `before` into
/// `after`.
pub open spec fn stops<D: VmDriver>(before: D, after: D) -> bool {
    exists|result: Result<(), VmError>| before.may_stop(result, after)
}

/// Whether one attempt to open a stream, whatever it comes to, turns driver
/// `before` into `after`.
pub open spec fn opens<D: VmDriver>(before: D, port: u32, timeout_ms: u64, after: D) -> bool {
    exists|result: Result<AgentStream<D::Reader, D::Writer>, VmError>|
        before.may_open(port, timeout_ms, result, after)
}

/// A call that a driver gets.
pub enum DriverCall {
    Start { boot_timeout_ms: u64, result: Result<(), VmError> },
    Stop,
    Open { port: u32, timeout_ms: u64 },
}

/// Whether one `call` turns driver `before` into `after`.
pub open spec fn performs<D: VmDriver>(before: D, call: DriverCall, after: D) -> bool {
    match call {
        DriverCall::Start { boot_timeout_ms, result } => before.may_start(
            boot_timeout_ms,
            result,
            after,
        ),
        DriverCall::Stop => stops(before, after),
        DriverCall::Open { port, timeout_ms } => opens(before, port, timeout_ms, after),
    }
}

/// Whether just these `calls`, in order, turn driver `before` into `after`.
pub open spec fn makes<D: VmDriver>(before: D, calls: Seq<DriverCall>, after: D) -> bool
    decreases calls.len(),
{
    if calls.len() == 0 {
        after == before
    } else {
        exists|between: D|
            makes(before, calls.drop_last(), between) && #[trigger] performs(
                between,
                calls.last(),
                after,
            )
    }
}

/// What a handle is asked to do, with what the driver answers if it is asked.
pub enum VmCommand {
    Boot { boot_timeout_ms: u64, answer: Result<(), VmError> },
    Stop { answer: Result<(), VmError> },
    Connect { port: u32, timeout_ms: u64 },
}

impl VmCommand {
    /// The calls that the driver of a machine in `state` gets for this.
    pub open spec fn calls(self, state: VmState) -> Seq<DriverCall> {
        match self {
            VmCommand::Boot { boot_timeout_ms, answer } => if state != VmState::Created {
                Seq::empty()
            } else if answer == Err::<(), VmError>(VmError::BootTimeout) {
                seq![DriverCall::Start { boot_timeout_ms, result: answer }, DriverCall::Stop]
            } else {
                seq![DriverCall::Start { boot_timeout_ms, result: answer }]
            },
            VmCommand::Stop { answer: _ } => if state != VmState::Running {
                Seq::empty()
            } else {
                seq![DriverCall::Stop]
            },
            VmCommand::Connect { port, timeout_ms } => if state != VmState::Running {
                Seq::empty()
            } else {
                seq![DriverCall::Open { port, timeout_ms }]
            },
        }
    }

    /// The state in which this leaves a machine that was in `state`.
    pub open spec fn next(self, state: VmState) -> VmState {
        match self {
            VmCommand::Boot { boot_timeout_ms: _, answer } => if state == VmState::Created {
                state_after_boot(answer)
            } else {
                state
            },
            VmCommand::Stop { answer } => if state == VmState::Running {
                state_after_stop(answer)
            } else {
                state
            },
            VmCommand::Connect { port: _, timeout_ms: _ } => state,
        }
    }
}

/// The calls of tearing down a machine in `state`.
pub open spec fn teardown_calls(state: VmState) -> Seq<DriverCall> {
    if state == VmState::Running {
        seq![DriverCall::Stop]
    } else {
        Seq::empty()
    }
}

/// A single call.
pub(crate) proof fn one_call<D: VmDriver>(before: D, call: DriverCall, after: D)
    requires
        performs(before, call, after),
    ensures
        makes(before, seq![call], after),
{
    let calls = seq![call];
    assert(calls.drop_last() =~= Seq::empty());
    assert(makes(before, calls.drop_last(), before));
    assert(performs(before, calls.last(), after));
}

proof fn calls_compose<D: VmDriver>(
    first: D,
    calls: Seq<DriverCall>,
    second: D,
    more: Seq<DriverCall>,
    third: D,
)
    requires
        makes(first, calls, second),
        makes(second, more, third),
    ensures
        makes(first, calls + more, third),
    decreases more.len(),
{
    let all = calls + more;
    if more.len() == 0 {
        assert(all =~= calls);
    } else {
        let between = choose|between: D|
            makes(second, more.drop_last(), between) && #[trigger] performs(
                between,
                more.last(),
                third,
            );
        calls_compose(first, calls, second, more.drop_last(), between);
        assert(all.drop_last() =~= calls + more.drop_last());
        assert(performs(between, all.last(), third));
    }
}

/// Two calls, one after the other.
pub(crate) proof fn two_calls<D: VmDriver>(
    d0: D,
    first: DriverCall,
    d1: D,
    second: DriverCall,
    d2: D,
)
    requires
        performs(d0, first, d1),
        performs(d1, second, d2),
    ensures
        makes(d0, seq![first, second], d2),
{
    one_call(d0, first, d1);
    one_call(d1, second, d2);
    calls_compose(d0, seq![first], d1, seq![second], d2);
    assert(seq![first] + seq![second] =~= seq![first, second]);
}

/// Three calls, one after the other.
pub(crate) proof fn three_calls<D: VmDriver>(
    d0: D,
    first: DriverCall,
    d1: D,
    second: DriverCall,
    d2: D,
    third: DriverCall,
    d3: D,
)
    requires
        performs(d0, first, d1),
        performs(d1, second, d2),
        performs(d2, third, d3),
    ensures
        makes(d0, seq![first, second, third], d3),
{
    one_call(d0, first, d1);
    one_call(d1, second, d2);
    one_call(d2, third, d3);
    calls_compose(d0, seq![first], d1, seq![second], d2);
    calls_compose(d0, seq![first] + seq![second], d2, seq![third], d3);
    assert(seq![first] + seq![second] + seq![third] =~= seq![first, second, third]);
}

/// The state after a boot attempt that came to `result`.
pub open spec fn state_after_boot(result: Result<(), VmError>) -> VmState {
    match result {
        Ok(()) => VmState::Running,
        Err(_) => VmState::Failed,
    }
}

/// The state after a stop attempt that came to `result`.
pub open spec fn state_after_stop(result: Result<(), VmError>) -> VmState {
    match result {
        Ok(()) => VmState::Stopped,
        Err(_) => VmState::Failed,
    }
}

/// What a boot attempt leads to: the next state, and whether to force-stop. A
/// timed-out boot may still be under way, and must not land later.
pub fn after_start(result: &Result<(), VmError>) -> (next: (VmState, bool))
    ensures
        next.0 == state_after_boot(*result),
        next.1 == (*result == Err::<(), VmError>(VmError::BootTimeout)),
{
    match result {
        Ok(()) => (VmState::Running, false),
        Err(VmError::BootTimeout) => (VmState::Failed, true),
        Err(_) => (VmState::Failed, false),
    }
}

/// What a stop attempt leads to.
pub fn after_stop(result: &Result<(), VmError>) -> (next: VmState)
    ensures
        next == state_after_stop(*result),
{
    match result {
        Ok(()) => VmState::Stopped,
        Err(_) => VmState::Failed,
    }
}

/// What one attempt to reach the guest agent came to.
#[derive(Clone, Debug, PartialEq, Eq)]
pub enum ConnectAttempt {
    Connected,
    /// Refused: the agent is not listening yet.
    NotReady,
    /// No amount of waiting fixes this.
    Fatal(String),
    /// No answer within the attempt's budget.
    TimedOut,
}

/// How connecting goes on after an attempt.
#[derive(Clone, Debug, PartialEq, Eq)]
pub enum RetryStep {
    /// Use the connection.
    Take,
    /// Wait for the retry interval, then try again.
    Retry,
    Fail(VmError),
}

/// What a delivered connection attempt amounts to: a connection with an open
/// descriptor is usable; one that the guest closed at once, or a refusal, is
/// "not ready"; neither a connection nor an error cannot be waited out.
pub fn claim(has_connection: bool, has_error: bool, descriptor: i32) -> (attempt: ConnectAttempt)
    ensures
        if has_connection {
            if descriptor >= 0 {
                attempt is Connected
            } else {
                attempt is NotReady
            }
        } else if has_error {
            attempt is NotReady
        } else {
            attempt matches ConnectAttempt::Fatal(reason) && reason@
                == "connect completion delivered neither a connection nor an error"@
        },
{
    if has_connection {
        if descriptor >= 0 {
            ConnectAttempt::Connected
        } else {
            ConnectAttempt::NotReady
        }
    } else if has_error {
        ConnectAttempt::NotReady
    } else {
        ConnectAttempt::Fatal(
            "connect completion delivered neither a connection nor an error".to_string(),
        )
    }
}

/// Decides how connecting goes on: refusals before the deadline mean that the
/// guest is still booting. Times are milliseconds on one clock.
pub fn retry_step(attempt: ConnectAttempt, now: u64, deadline: u64, interval: u64) -> (step:
    RetryStep)
    ensures
        match attempt {
            ConnectAttempt::Connected => step is Take,
            ConnectAttempt::NotReady => if now + interval >= deadline {
                step == RetryStep::Fail(VmError::ConnectTimeout)
            } else {
                step is Retry
            },
            ConnectAttempt::Fatal(reason) => step == RetryStep::Fail(VmError::Connect(reason)),
            ConnectAttempt::TimedOut => step == RetryStep::Fail(VmError::ConnectTimeout),
        },
{
    match attempt {
        ConnectAttempt::Connected => RetryStep::Take,
        ConnectAttempt::NotReady => {
            if now >= deadline || deadline - now <= interval {
                RetryStep::Fail(VmError::ConnectTimeout)
            } else {
                RetryStep::Retry
            }
        },
        ConnectAttempt::Fatal(reason) => RetryStep::Fail(VmError::Connect(reason)),
        ConnectAttempt::TimedOut => RetryStep::Fail(VmError::ConnectTimeout),
    }
}

/// How much time an attempt has, or the error that there is none left.
pub fn attempt_budget(now: u64, deadline: u64) -> (budget: Result<u64, VmError>)
    ensures
        budget == if now >= deadline {
            Err::<u64, VmError>(VmError::ConnectTimeout)
        } else {
            Ok((deadline - now) as u64)
        },
{
    if now >= deadline {
        Err(VmError::ConnectTimeout)
    } else {
        Ok(deadline - now)
    }
}

/// A machine and the state it is in.
///
/// A handle must be given to [`VmHandle::shutdown`] in the end: dropping it
/// drops the driver without stopping a machine that still runs.
#[derive(Debug)]
pub struct VmHandle<D> {
    driver: D,
    state: VmState,
}

impl<D: VmDriver> VmHandle<D> {
    pub closed spec fn driver(self) -> D {
        self.driver
    }

    pub closed spec fn vm_state(self) -> VmState {
        self.state
    }

    /// Whether carrying out `command` turns this handle into `after`.
    pub open spec fn carries_out(self, command: VmCommand, after: Self) -> bool {
        after.vm_state() == command.next(self.vm_state()) && makes(
            self.driver(),
            command.calls(self.vm_state()),
            after.driver(),
        )
    }

    /// Takes over a driver, or the reason why there is none.
    pub fn spawn(driver: Result<D, VmError>) -> (handle: Result<VmHandle<D>, VmError>)
        ensures
            match driver {
                Ok(d) => handle matches Ok(h) && h.driver() == d && h.vm_state()
                    == VmState::Created,
                Err(error) => handle == Err::<VmHandle<D>, VmError>(error),
            },
    {
        match driver {
            Ok(driver) => Ok(VmHandle { driver, state: VmState::Created }),
            Err(error) => Err(error),
        }
    }

    pub fn state(&self) -> (state: VmState)
        ensures
            state == self.vm_state(),
    {
        self.state
    }

    /// Boots the machine: only from the created state, and the driver is asked
    /// only then. Whatever the driver answers is the result.
    pub fn boot(&mut self, boot_timeout_ms: u64) -> (result: Result<(), VmError>)
        ensures
            old(self).vm_state() != VmState::Created ==> result == Err::<(), VmError>(
                VmError::AlreadyRunning,
            ) && *final(self) == *old(self),
            old(self).vm_state() == VmState::Created ==> final(self).vm_state()
                == state_after_boot(result) && boots(
                old(self).driver(),
                boot_timeout_ms,
                result,
                final(self).driver(),
            ),
            old(self).carries_out(
                VmCommand::Boot { boot_timeout_ms, answer: result },
                *final(self),
            ),
    {
        if self.state != VmState::Created {
            return Err(VmError::AlreadyRunning);
        }
        let result: Result<(), VmError> = self.driver.start(boot_timeout_ms);
        let ghost started = self.driver;
        let (state, force_stop): (VmState, bool) = after_start(&result);
        if force_stop {
            let _ = self.driver.stop();
            assert(stops(started, self.driver));
        }
        proof {
            let start = DriverCall::Start { boot_timeout_ms, result };
            one_call(old(self).driver, start, started);
            if force_stop {
                one_call(started, DriverCall::Stop, self.driver);
                calls_compose(
                    old(self).driver,
                    seq![start],
                    started,
                    seq![DriverCall::Stop],
                    self.driver,
                );
                assert(seq![start] + seq![DriverCall::Stop] =~= seq![start, DriverCall::Stop]);
            }
        }
        self.state = state;
        result
    }

    /// Stops the machine: only while it is running, and the driver is asked
    /// only then. Whatever the driver answers is the result.
    pub fn stop(&mut self) -> (result: Result<(), VmError>)
        ensures
            old(self).vm_state() != VmState::Running ==> result == Err::<(), VmError>(
                VmError::NotRunning,
            ) && *final(self) == *old(self),
            old(self).vm_state() == VmState::Running ==> final(self).vm_state()
                == state_after_stop(result) && old(self).driver().may_stop(
                result,
                final(self).driver(),
            ),
            old(self).carries_out(VmCommand::Stop { answer: result }, *final(self)),
    {
        if self.state != VmState::Running {
            return Err(VmError::NotRunning);
        }
        let result: Result<(), VmError> = self.driver.stop();
        proof {
            one_call(old(self).driver, DriverCall::Stop, self.driver);
        }
        self.state = after_stop(&result);
        result
    }

    /// Opens a stream to the guest agent: only while the machine is running,
    /// and the driver is asked only then. A failed connect leaves the state
    /// alone.
    pub fn connect(&mut self, port: u32, timeout_ms: u64) -> (result: Result<
        AgentStream<D::Reader, D::Writer>,
        VmError,
    >)
        ensures
            final(self).vm_state() == old(self).vm_state(),
            old(self).vm_state() != VmState::Running ==> result == Err::<
                AgentStream<D::Reader, D::Writer>,
                VmError,
            >(VmError::NotRunning) && *final(self) == *old(self),
            old(self).vm_state() == VmState::Running ==> old(self).driver().may_open(
                port,
                timeout_ms,
                result,
                final(self).driver(),
            ),
            old(self).carries_out(VmCommand::Connect { port, timeout_ms }, *final(self)),
    {
        if self.state != VmState::Running {
            return Err(VmError::NotRunning);
        }
        let result: Result<AgentStream<D::Reader, D::Writer>, VmError> =
            self.driver.open_agent_stream(port, timeout_ms);
        proof {
            assert(opens(old(self).driver, port, timeout_ms, self.driver));
            one_call(old(self).driver, DriverCall::Open { port, timeout_ms }, self.driver);
        }
        result
    }

    /// Tears the machine down: stops it if it is running, and gives the
    /// driver back. One that is not running is not stopped again.
    pub fn shutdown(self) -> (driver: D)
        ensures
            self.vm_state() != VmState::Running ==> driver == self.driver(),
            self.vm_state() == VmState::Running ==> stops(self.driver(), driver),
            makes(self.driver(), teardown_calls(self.vm_state()), driver),
    {
        let mut driver: D = self.driver;
        if self.state == VmState::Running {
            let _ = driver.stop();
            proof {
                one_call(self.driver, DriverCall::Stop, driver);
            }
        }
        driver
    }
}

// ---------------------------------------------------------------------------
// Laws
// ---------------------------------------------------------------------------

/// The state after `commands`, of a machine that was created for them.
pub open spec fn state_after(commands: Seq<VmCommand>) -> VmState
    decreases commands.len(),
{
    if commands.len() == 0 {
        VmState::Created
    } else {
        commands.last().next(state_after(commands.drop_last()))
    }
}

/// The calls that the driver of a machine gets for `commands`.
pub open spec fn calls_for(commands: Seq<VmCommand>) -> Seq<DriverCall>
    decreases commands.len(),
{
    if commands.len() == 0 {
        Seq::empty()
    } else {
        calls_for(commands.drop_last()) + commands.last().calls(state_after(commands.drop_last()))
    }
}

/// All calls in the life of a machine: for `commands`, then its teardown.
pub open spec fn life(commands: Seq<VmCommand>) -> Seq<DriverCall> {
    calls_for(commands) + teardown_calls(state_after(commands))
}

/// Whether some command asks to boot.
pub open spec fn asks_to_boot(commands: Seq<VmCommand>) -> bool {
    exists|i: int| 0 <= i < commands.len() && #[trigger] commands[i] is Boot
}

/// Whether a call is a start after which the machine may run: one that
/// succeeded, or that timed out and may still be under way.
pub open spec fn may_have_started(call: DriverCall) -> bool {
    call matches DriverCall::Start { boot_timeout_ms: _, result } && (result is Ok || result
        == Err::<(), VmError>(VmError::BootTimeout))
}

/// How far a machine's calls have come in each of its states.
spec fn calls_fit_state(calls: Seq<DriverCall>, state: VmState) -> bool {
    &&& state == VmState::Created <==> calls.len() == 0
    &&& calls.len() > 0 ==> calls[0] is Start
    &&& forall|i: int| 0 < i < calls.len() ==> !(#[trigger] calls[i] is Start)
    &&& forall|i: int| 0 <= i < calls.len() - 1 ==> !(#[trigger] calls[i] is Stop)
    &&& (exists|i: int| 0 <= i < calls.len() && #[trigger] calls[i] is Open) ==> started_well(
        calls,
    )
    &&& state == VmState::Running ==> started_well(calls) && !(calls.last() is Stop)
    &&& state == VmState::Stopped || state == VmState::Failed ==> (calls.last() is Stop
        <==> may_have_started(calls[0]))
}

spec fn started_well(calls: Seq<DriverCall>) -> bool {
    calls.len() > 0 && (calls[0] matches DriverCall::Start { boot_timeout_ms: _, result } && result
        is Ok)
}

proof fn commands_keep_the_shape(commands: Seq<VmCommand>)
    ensures
        calls_fit_state(calls_for(commands), state_after(commands)),
        state_after(commands) != VmState::Created <==> asks_to_boot(commands),
    decreases commands.len(),
{
    if commands.len() > 0 {
        let front = commands.drop_last();
        let command = commands.last();
        let state = state_after(front);
        let calls = calls_for(front);
        let after = calls_for(commands);
        commands_keep_the_shape(front);
        if asks_to_boot(front) {
            let i = choose|i: int| 0 <= i < front.len() && #[trigger] front[i] is Boot;
            assert(commands[i] is Boot);
        }
        assert(commands[commands.len() - 1] == command);
        if asks_to_boot(commands) && !asks_to_boot(front) {
            let i = choose|i: int| 0 <= i < commands.len() && #[trigger] commands[i] is Boot;
            if i < front.len() {
                assert(front[i] is Boot);
            }
        }
        let more = command.calls(state);
        assert(after == calls + more);
        if more.len() == 0 {
            assert(after =~= calls);
        } else {
            assert forall|i: int| 0 < i < after.len() implies !(#[trigger] after[i] is Start) by {
                if i < calls.len() {
                    assert(after[i] == calls[i]);
                }
            }
            assert forall|i: int| 0 <= i < after.len() - 1 implies !(
            #[trigger] after[i] is Stop) by {
                if i < calls.len() {
                    assert(after[i] == calls[i]);
                    if i == calls.len() - 1 {
                        assert(calls[i] == calls.last());
                    }
                }
            }
            if calls.len() > 0 {
                assert(after[0] == calls[0]);
            }
            if exists|i: int| 0 <= i < after.len() && #[trigger] after[i] is Open {
                let i = choose|i: int| 0 <= i < after.len() && #[trigger] after[i] is Open;
                if i < calls.len() {
                    assert(calls[i] is Open);
                }
            }
        }
    }
}

/// The lifecycle is one-shot, over any run of commands: the driver is started
/// once if a boot was ever asked for, else never, and that is its first call;
/// it is stopped at most once, as its last call, and exactly where the start
/// succeeded or timed out; streams are opened only after a successful start,
/// and so between the two.
pub proof fn lifecycle_is_one_shot(commands: Seq<VmCommand>)
    ensures
        life(commands).len() > 0 <==> asks_to_boot(commands),
        forall|i: int|
            0 <= i < life(commands).len() ==> (#[trigger] life(commands)[i] is Start <==> i == 0),
        forall|i: int|
            0 <= i < life(commands).len() && #[trigger] life(commands)[i] is Stop ==> i == life(
                commands,
            ).len() - 1,
        life(commands).len() > 0 ==> (life(commands).last() is Stop <==> may_have_started(
            life(commands)[0],
        )),
        forall|i: int|
            0 <= i < life(commands).len() && #[trigger] life(commands)[i] is Open ==> (life(
                commands,
            )[0] matches DriverCall::Start { boot_timeout_ms: _, result } && result is Ok),
{
    commands_keep_the_shape(commands);
    let calls = calls_for(commands);
    let state = state_after(commands);
    let all = life(commands);
    if state != VmState::Running {
        assert(all =~= calls);
    } else {
        assert(all.drop_last() =~= calls);
        assert(all[0] == calls[0]);
        assert forall|i: int| 0 <= i < calls.len() implies all[i] == #[trigger] calls[i] by {}
        assert forall|i: int| 0 <= i < all.len() && #[trigger] all[i] is Stop implies i
            == all.len() - 1 by {
            if i < calls.len() {
                assert(calls[i] is Stop);
                assert(calls[i] == calls.last());
            }
        }
    }
}

/// The calls that a driver really gets are those of a one-shot life: where
/// each command turned one handle into the next, beginning with a created
/// machine, and the last handle was shut down, the driver that is left is the
/// first one after just the calls of [`life`].
pub proof fn handles_live_one_life<D: VmDriver>(
    handles: Seq<VmHandle<D>>,
    commands: Seq<VmCommand>,
    left: D,
)
    requires
        handles.len() == commands.len() + 1,
        handles[0].vm_state() == VmState::Created,
        forall|i: int|
            0 <= i < commands.len() ==> (#[trigger] handles[i]).carries_out(
                commands[i],
                handles[i + 1],
            ),
        makes(handles.last().driver(), teardown_calls(handles.last().vm_state()), left),
    ensures
        handles.last().vm_state() == state_after(commands),
        makes(handles[0].driver(), life(commands), left),
{
    handles_follow_commands(handles, commands);
    calls_compose(
        handles[0].driver(),
        calls_for(commands),
        handles.last().driver(),
        teardown_calls(state_after(commands)),
        left,
    );
}

proof fn handles_follow_commands<D: VmDriver>(
    handles: Seq<VmHandle<D>>,
    commands: Seq<VmCommand>,
)
    requires
        handles.len() == commands.len() + 1,
        handles[0].vm_state() == VmState::Created,
        forall|i: int|
            0 <= i < commands.len() ==> (#[trigger] handles[i]).carries_out(
                commands[i],
                handles[i + 1],
            ),
    ensures
        handles.last().vm_state() == state_after(commands),
        makes(handles[0].driver(), calls_for(commands), handles.last().driver()),
    decreases commands.len(),
{
    if commands.len() > 0 {
        let n = commands.len() - 1;
        let earlier = handles.drop_last();
        let front = commands.drop_last();
        assert forall|i: int| 0 <= i < front.len() implies (#[trigger] earlier[i]).carries_out(
            front[i],
            earlier[i + 1],
        ) by {
            assert(handles[i].carries_out(commands[i], handles[i + 1]));
        }
        handles_follow_commands(earlier, front);
        assert(handles[n].carries_out(commands[n], handles[n + 1]));
        calls_compose(
            handles[0].driver(),
            calls_for(front),
            handles[n].driver(),
            commands[n].calls(state_after(front)),
            handles[n + 1].driver(),
        );
    }
}

/// The states of a machine: a boot that succeeds makes it run, one that does
/// not makes it fail; a stop that succeeds stops it, one that does not makes it
/// fail; connecting changes nothing; and what does not apply changes nothing.
pub proof fn states_follow_the_answers(state: VmState, error: VmError, port: u32, ms: u64)
    ensures
        (VmCommand::Boot { boot_timeout_ms: ms, answer: Ok(()) }).next(VmState::Created)
            == VmState::Running,
        (VmCommand::Boot { boot_timeout_ms: ms, answer: Err(error) }).next(VmState::Created)
            == VmState::Failed,
        (VmCommand::Stop { answer: Ok(()) }).next(VmState::Running) == VmState::Stopped,
        (VmCommand::Stop { answer: Err(error) }).next(VmState::Running) == VmState::Failed,
        (VmCommand::Connect { port, timeout_ms: ms }).next(state) == state,
        state != VmState::Created ==> (VmCommand::Boot {
            boot_timeout_ms: ms,
            answer: Ok(()),
        }).next(state) == state,
        state != VmState::Running ==> (VmCommand::Stop { answer: Ok(()) }).next(state) == state,
{
}

/// The message of a failure ends in the reason for it, and tells a failed
/// start, a failed stop and a failed connect apart.
pub proof fn messages_end_in_the_reason(reason: String)
    ensures
        VmError::Start(reason).text() == "VM failed to start: "@ + reason@,
        VmError::Stop(reason).text() == "VM failed to stop: "@ + reason@,
        VmError::Connect(reason).text() == "failed to connect to the guest agent: "@ + reason@,
{
}

/// The messages of the errors that have no reason of their own.
pub proof fn messages_without_a_reason()
    ensures
        VmError::BootTimeout.text() == "VM did not become ready before the boot timeout"@,
        VmError::ConnectTimeout.text()
            == "guest agent did not accept a vsock connection before the timeout"@,
        VmError::AlreadyRunning.text() == "VM was already booted; the vz lifecycle is one-shot"@,
        VmError::NotRunning.text() == "VM is not running"@,
        VmError::Terminated.text() == "VM thread terminated unexpectedly"@,
{
}

/// Connecting is tried again only while there is time: a connection is taken,
/// whatever the time; a refusal is waited out exactly where the next attempt
/// still begins before the deadline; no answer is a timeout; and what cannot be
/// waited out fails with its own reason.
pub proof fn connecting_is_retried_while_there_is_time(
    attempt: ConnectAttempt,
    now: u64,
    deadline: u64,
    interval: u64,
    step: RetryStep,
)
    requires
        call_ensures(retry_step, (attempt, now, deadline, interval), step),
    ensures
        step is Take <==> attempt is Connected,
        step is Retry <==> attempt is NotReady && now + interval < deadline,
        attempt matches ConnectAttempt::Fatal(reason) ==> step == RetryStep::Fail(
            VmError::Connect(reason),
        ),
        attempt is TimedOut || (attempt is NotReady && now + interval >= deadline) ==> step
            == RetryStep::Fail(VmError::ConnectTimeout),
{
}

/// An attempt may take all the time that is left, and there is none once the
/// deadline has come.
pub proof fn attempts_have_the_time_that_is_left(
    now: u64,
    deadline: u64,
    budget: Result<u64, VmError>,
)
    requires
        call_ensures(attempt_budget, (now, deadline), budget),
    ensures
        budget matches Ok(time) ==> time > 0 && now + time == deadline,
        budget is Err <==> now >= deadline,
        budget matches Err(error) ==> error == VmError::ConnectTimeout,
{
}

/// A connection counts where it has a descriptor; a refusal, or a connection
/// without one, means to try again; and nothing at all cannot be waited out.
pub proof fn connections_need_a_descriptor(
    has_connection: bool,
    has_error: bool,
    descriptor: i32,
    attempt: ConnectAttempt,
)
    requires
        call_ensures(claim, (has_connection, has_error, descriptor), attempt),
    ensures
        attempt is Connected <==> has_connection && descriptor >= 0,
        attempt is Fatal <==> !has_connection && !has_error,
        attempt is NotReady <==> (has_connection && descriptor < 0) || (!has_connection
            && has_error),
{
}

} // verus!
