//! What a run of the executor does, step by step: each step says what to do
//! next, or what to print and how to exit.

use vstd::prelude::*;
use vstd::string::*;
use vstd::utf8::encode_utf8;
use crate::base64::{base64_decode, base64_value};
use crate::bytes::push_all;
use crate::cli::{
    text_of, Cli, ConfigSource, UsageError, AGENT_TCP_ENV, DEFAULT_GUEST_IMAGE_DIR, USAGE,
};
use crate::client::{ExecCompletion, ExecError, ExecOutcome, ExecRequest};
use crate::exec_plan::{build_exec_request, carries_out};
use crate::json::{envelope, envelope_of, json_string_of};
use crate::policy::Policy;
use crate::session::{has_command, SessionError, SessionOutcome};
use crate::text::{decimal, decimal_value, push_decimal};
use crate::validate::{
    error_models, policy_errors, policy_warnings, validate_vz_policy, warning_models,
    ValidatedVzPolicy, VzPolicyError,
};
use crate::vm_spec::decimal_spells_the_number;

verus! {

/// What a finished run prints, logs and returns.
#[derive(Clone, Debug, PartialEq, Eq)]
pub struct Report {
    pub stdout: Vec<u8>,
    pub stderr: Vec<u8>,
    /// A line for the log file, where there is one.
    pub log: Option<String>,
    pub exit_code: i32,
}

/// What a report says.
#[verifier::ext_equal]
pub struct ReportModel {
    pub stdout: Seq<u8>,
    pub stderr: Seq<u8>,
    pub log: Option<Seq<char>>,
    pub exit_code: i32,
}

impl View for Report {
    type V = ReportModel;

    open spec fn view(&self) -> ReportModel {
        ReportModel {
            stdout: self.stdout@,
            stderr: self.stderr@,
            log: text_of(self.log),
            exit_code: self.exit_code,
        }
    }
}

/// A report that prints text and logs nothing.
pub open spec fn says(stdout: Seq<char>, stderr: Seq<char>, exit_code: i32) -> ReportModel {
    ReportModel {
        stdout: encode_utf8(stdout),
        stderr: encode_utf8(stderr),
        log: None,
        exit_code,
    }
}

fn bytes_of(text: &str) -> (bytes: Vec<u8>)
    ensures
        bytes@ == encode_utf8(text@),
{
    let mut bytes: Vec<u8> = Vec::new();
    push_all(&mut bytes, text.as_bytes());
    assert(bytes@ =~= encode_utf8(text@));
    bytes
}

fn say(stdout: &str, stderr: &str, exit_code: i32) -> (report: Report)
    ensures
        report@ == says(stdout@, stderr@, exit_code),
{
    Report { stdout: bytes_of(stdout), stderr: bytes_of(stderr), log: None, exit_code }
}

/// The report of arguments that do not parse: the complaint, the usage, exit 2.
pub fn usage_report(error: &UsageError) -> (report: Report)
    ensures
        report@ == says(""@, "Error: "@ + error.0@ + "\n"@ + USAGE@ + "\n"@, 2),
{
    let mut m: String = "Error: ".to_string();
    m.append(error.0.as_str());
    m.append("\n");
    m.append(USAGE);
    m.append("\n");
    say("", m.as_str(), 2)
}

/// The report of a request that could not be made sense of.
pub open spec fn request_error_of(reason: Seq<char>) -> ReportModel {
    says(""@, "Request error\n"@ + reason + "\n"@, 1)
}

fn request_error(reason: &str) -> (report: Report)
    ensures
        report@ == request_error_of(reason@),
{
    let mut m: String = "Request error\n".to_string();
    m.append(reason);
    m.append("\n");
    say("", m.as_str(), 1)
}

/// The report of an infrastructure failure: the JSON envelope, exit 1.
pub open spec fn failure_of(message: Seq<char>) -> ReportModel {
    says(""@, envelope_of(message) + "\n"@, 1)
}

/// The report of an infrastructure failure.
pub fn failure_report(message: &str) -> (report: Report)
    ensures
        report@ == failure_of(message@),
{
    let mut line: String = envelope(message);
    line.append("\n");
    say("", line.as_str(), 1)
}

/// What to do first.
#[derive(Clone, Debug, PartialEq, Eq)]
pub enum RunStep {
    /// Report platform support, exit 0.
    Probe,
    /// Print this, and exit.
    Done(Report),
    /// Read the configuration from this path.
    ReadFile(String),
    /// Parse this configuration.
    Parse(Vec<u8>),
}

/// What a step says.
pub enum RunStepModel {
    Probe,
    Done(ReportModel),
    ReadFile(Seq<char>),
    Parse(Seq<u8>),
}

impl View for RunStep {
    type V = RunStepModel;

    open spec fn view(&self) -> RunStepModel {
        match self {
            RunStep::Probe => RunStepModel::Probe,
            RunStep::Done(report) => RunStepModel::Done(report@),
            RunStep::ReadFile(path) => RunStepModel::ReadFile(path@),
            RunStep::Parse(bytes) => RunStepModel::Parse(bytes@),
        }
    }
}

/// What a run with these arguments does first.
pub open spec fn first_step(cli: Cli) -> RunStepModel {
    if cli.probe {
        RunStepModel::Probe
    } else {
        match cli.config {
            None => RunStepModel::Done(
                says(
                    ""@,
                    "Error: No config provided. Use a positional path, --config, or --config-base64\n"@,
                    1,
                ),
            ),
            Some(ConfigSource::Path(path)) => RunStepModel::ReadFile(path@),
            Some(ConfigSource::Base64(text)) => match base64_value(encode_utf8(text@)) {
                Ok(bytes) => RunStepModel::Parse(bytes),
                Err(fault) => RunStepModel::Done(
                    request_error_of("invalid --config-base64: "@ + fault.text()),
                ),
            },
        }
    }
}

/// Starts a run.
pub fn run(cli: &Cli) -> (step: RunStep)
    ensures
        step@ == first_step(*cli),
{
    if cli.probe {
        return RunStep::Probe;
    }
    match &cli.config {
        None => RunStep::Done(
            say(
                "",
                "Error: No config provided. Use a positional path, --config, or --config-base64\n",
                1,
            ),
        ),
        Some(ConfigSource::Path(path)) => RunStep::ReadFile(path.clone()),
        Some(ConfigSource::Base64(text)) => match base64_decode(text.as_str()) {
            Ok(bytes) => RunStep::Parse(bytes),
            Err(fault) => {
                let mut m: String = "invalid --config-base64: ".to_string();
                m.append(fault.as_str());
                RunStep::Done(request_error(m.as_str()))
            },
        },
    }
}

/// Goes on with what reading the configuration's file gave: its bytes, or the
/// system's complaint.
pub fn on_file(path: &str, content: Result<Vec<u8>, String>) -> (step: RunStep)
    ensures
        step@ == match content {
            Ok(bytes) => RunStepModel::Parse(bytes@),
            Err(error) => RunStepModel::Done(
                request_error_of("could not read "@ + path@ + ": "@ + error@),
            ),
        },
{
    match content {
        Ok(bytes) => RunStep::Parse(bytes),
        Err(error) => {
            let mut m: String = "could not read ".to_string();
            m.append(path);
            m.append(": ");
            m.append(error.as_str());
            RunStep::Done(request_error(m.as_str()))
        },
    }
}

/// The report of a configuration that is no policy.
pub fn unparsable_config(error: &str) -> (report: Report)
    ensures
        report@ == request_error_of("config does not parse as an MXC policy: "@ + error@),
{
    let mut m: String = "config does not parse as an MXC policy: ".to_string();
    m.append(error);
    request_error(m.as_str())
}

/// One line per validation error.
pub open spec fn validation_lines(errors: Seq<VzPolicyError>) -> Seq<char>
    decreases errors.len(),
{
    if errors.len() == 0 {
        ""@
    } else {
        validation_lines(errors.drop_last()) + "validation error: "@ + errors.last().text() + "\n"@
    }
}

fn validation_text(errors: &Vec<VzPolicyError>) -> (text: String)
    ensures
        text@ == validation_lines(errors@),
{
    let mut text: String = "".to_string();
    let mut i: usize = 0;
    while i < errors.len()
        invariant
            i <= errors@.len(),
            text@ == validation_lines(errors@.subrange(0, i as int)),
        decreases errors@.len() - i,
    {
        let line: String = errors[i].message();
        assert(errors@.subrange(0, i + 1).drop_last() =~= errors@.subrange(0, i as int));
        text.append("validation error: ");
        text.append(line.as_str());
        text.append("\n");
        i = i + 1;
    }
    assert(errors@.subrange(0, i as int) =~= errors@);
    text
}

/// The report of a policy that does not validate.
pub open spec fn invalid_policy_of(cli: Cli, errors: Seq<VzPolicyError>) -> ReportModel {
    ReportModel {
        log: Some("validation failed ("@ + decimal(errors.len()) + " error(s))"@),
        ..says(
            if cli.dry_run {
                "Dry run completed. Result: validation failed\n"@
            } else {
                ""@
            },
            validation_lines(errors),
            1,
        )
    }
}

/// Validates the policy of a run.
pub fn check_policy(cli: &Cli, policy: &Policy) -> (result: Result<ValidatedVzPolicy, Report>)
    ensures
        match result {
            Ok(validated) => policy_errors(*policy, cli.experimental).len() == 0
                && validated.options == policy.options() && warning_models(validated.warnings@)
                == policy_warnings(*policy),
            Err(report) => policy_errors(*policy, cli.experimental).len() > 0 && exists|
                errors: Seq<VzPolicyError>,
            |
                error_models(errors) == policy_errors(*policy, cli.experimental) && report@
                    == #[trigger] invalid_policy_of(*cli, errors),
        },
{
    match validate_vz_policy(policy, cli.experimental) {
        Ok(validated) => Ok(validated),
        Err(errors) => {
            let text: String = validation_text(&errors);
            let mut log: String = "validation failed (".to_string();
            push_decimal(&mut log, errors.len() as u64);
            log.append(" error(s))");
            let mut report: Report = say(
                if cli.dry_run {
                    "Dry run completed. Result: validation failed\n"
                } else {
                    ""
                },
                text.as_str(),
                1,
            );
            report.log = Some(log);
            assert(report@ =~= invalid_policy_of(*cli, errors@));
            Err(report)
        },
    }
}

/// How a validated policy is run.
#[derive(Clone, Debug, PartialEq, Eq)]
pub enum Transport {
    /// Not at all: print this, and exit.
    Done(Report),
    /// By an agent that already listens at this address.
    Tcp(String),
    /// In a machine of its own.
    Vm,
}

/// What a transport says.
pub enum TransportModel {
    Done(ReportModel),
    Tcp(Seq<char>),
    Vm,
}

impl View for Transport {
    type V = TransportModel;

    open spec fn view(&self) -> TransportModel {
        match self {
            Transport::Done(report) => TransportModel::Done(report@),
            Transport::Tcp(address) => TransportModel::Tcp(address@),
            Transport::Vm => TransportModel::Vm,
        }
    }
}

/// How a validated policy is run. The testing transport must be asked for
/// twice: by the environment and by the flag.
pub open spec fn transport_of(cli: Cli, agent_address: Option<String>) -> TransportModel {
    if cli.dry_run {
        TransportModel::Done(
            ReportModel {
                log: Some("dry run: validation passed"@),
                ..says("Dry run completed. Result: validation passed\n"@, ""@, 0)
            },
        )
    } else {
        match agent_address {
            Some(address) => if cli.allow_testing_features {
                TransportModel::Tcp(address@)
            } else {
                TransportModel::Done(
                    failure_of(
                        "MXC_VZ_AGENT_TCP is a testing-only transport and requires --allow-testing-features"@,
                    ),
                )
            },
            None => TransportModel::Vm,
        }
    }
}

/// Decides how a validated policy is run. `agent_address` is the value of the
/// environment variable [`AGENT_TCP_ENV`].
pub fn choose_transport(cli: &Cli, agent_address: Option<String>) -> (transport: Transport)
    ensures
        transport@ == transport_of(*cli, agent_address),
{
    if cli.dry_run {
        let mut report: Report = say("Dry run completed. Result: validation passed\n", "", 0);
        report.log = Some("dry run: validation passed".to_string());
        return Transport::Done(report);
    }
    match agent_address {
        Some(address) => {
            if cli.allow_testing_features {
                Transport::Tcp(address)
            } else {
                Transport::Done(
                    failure_report(
                        "MXC_VZ_AGENT_TCP is a testing-only transport and requires --allow-testing-features",
                    ),
                )
            }
        },
        None => Transport::Vm,
    }
}

/// The request for an agent that already listens, or the report that there is
/// nothing to run.
pub fn tcp_request(policy: &Policy) -> (result: Result<ExecRequest, Report>)
    ensures
        match result {
            Ok(request) => has_command(*policy) && carries_out(
                request,
                policy.process->0,
                (policy.process->0).command_line->0,
            ),
            Err(report) => !has_command(*policy) && report@ == failure_of(
                "policy translation failed: "@ + if policy.process is None {
                    "policy has no process block; one-shot exec requires process.commandLine"@
                } else {
                    "process.commandLine is required for one-shot exec"@
                },
            ),
        },
{
    match build_exec_request(policy) {
        Ok(request) => Ok(request),
        Err(reason) => {
            let mut m: String = "policy translation failed: ".to_string();
            m.append(reason.as_str());
            Err(failure_report(m.as_str()))
        },
    }
}

/// The report of an agent that could not be reached.
pub fn tcp_unreachable(address: &str, error: &str) -> (report: Report)
    ensures
        report@ == failure_of(
            "could not connect to "@ + AGENT_TCP_ENV@ + "="@ + address@ + ": "@ + error@,
        ),
{
    let mut m: String = "could not connect to ".to_string();
    m.append(AGENT_TCP_ENV);
    m.append("=");
    m.append(address);
    m.append(": ");
    m.append(error);
    failure_report(m.as_str())
}

/// The report of a stream that could not be split.
pub fn tcp_unsplittable(error: &str) -> (report: Report)
    ensures
        report@ == failure_of("could not clone agent stream: "@ + error@),
{
    let mut m: String = "could not clone agent stream: ".to_string();
    m.append(error);
    failure_report(m.as_str())
}

/// A number in base ten, with its sign.
pub open spec fn signed_decimal(n: int) -> Seq<char> {
    if n < 0 {
        "-"@ + decimal((-n) as nat)
    } else {
        decimal(n as nat)
    }
}

/// The report of an exec that ended: the command's output verbatim, and its
/// exit code; or a timeout, which is exit -1 with the envelope.
pub open spec fn finish_of(completion: ExecCompletion) -> ReportModel {
    match completion {
        ExecCompletion::Completed(outcome) => ReportModel {
            stdout: outcome.stdout@,
            stderr: outcome.stderr@,
            log: Some("exec completed, exit code "@ + signed_decimal(outcome.exit_code as int)),
            exit_code: outcome.exit_code,
        },
        ExecCompletion::TimedOut => ReportModel {
            stdout: Seq::empty(),
            stderr: encode_utf8(
                envelope_of(
                    "process force-stopped after exceeding process.timeout (script timeout)"@,
                ) + "\n"@,
            ),
            log: Some("exec timed out; VM force-stopped"@),
            exit_code: (-1) as i32,
        },
    }
}

/// Maps a completion to the executor's observable contract.
pub fn finish(completion: ExecCompletion) -> (report: Report)
    ensures
        report@ == finish_of(completion),
{
    match completion {
        ExecCompletion::Completed(outcome) => {
            let mut log: String = "exec completed, exit code ".to_string();
            if outcome.exit_code < 0 {
                log.append("-");
                push_decimal(&mut log, (-(outcome.exit_code as i64)) as u64);
            } else {
                push_decimal(&mut log, outcome.exit_code as u64);
            }
            assert(log@ =~= "exec completed, exit code "@ + signed_decimal(
                outcome.exit_code as int,
            ));
            Report {
                stdout: outcome.stdout,
                stderr: outcome.stderr,
                log: Some(log),
                exit_code: outcome.exit_code,
            }
        },
        ExecCompletion::TimedOut => {
            let mut line: String = envelope(
                "process force-stopped after exceeding process.timeout (script timeout)",
            );
            line.append("\n");
            Report {
                stdout: Vec::new(),
                stderr: bytes_of(line.as_str()),
                log: Some("exec timed out; VM force-stopped".to_string()),
                exit_code: -1,
            }
        },
    }
}

/// The report of an exec over the testing transport.
pub fn tcp_report(result: Result<ExecCompletion, ExecError>) -> (report: Report)
    ensures
        report@ == match result {
            Ok(completion) => finish_of(completion),
            Err(error) => failure_of("exec failure: "@ + error@.text()),
        },
{
    match result {
        Ok(completion) => finish(completion),
        Err(error) => {
            let mut m: String = "exec failure: ".to_string();
            let inner: String = error.message();
            m.append(inner.as_str());
            failure_report(m.as_str())
        },
    }
}

/// The report of a session in a machine of its own.
pub fn session_report(result: Result<SessionOutcome, SessionError>) -> (report: Report)
    ensures
        report@ == match result {
            Ok(SessionOutcome::Completed(outcome)) => finish_of(ExecCompletion::Completed(outcome)),
            Ok(SessionOutcome::TimedOut) => finish_of(ExecCompletion::TimedOut),
            Err(SessionError::Validation(errors)) => says(""@, validation_lines(errors@), 1),
            Err(error) => failure_of(error.text()),
        },
{
    match result {
        Ok(SessionOutcome::Completed(outcome)) => finish(ExecCompletion::Completed(outcome)),
        Ok(SessionOutcome::TimedOut) => finish(ExecCompletion::TimedOut),
        Err(error) => {
            if let SessionError::Validation(errors) = &error {
                let text: String = validation_text(errors);
                return say("", text.as_str(), 1);
            }
            let m: String = error.message();
            failure_report(m.as_str())
        },
    }
}

/// The report of a build that has no machines.
pub fn unavailable_report() -> (report: Report)
    ensures
        report@ == says(
            ""@,
            "vz-exec: the vz backend is only available on macOS. This binary was built for a non-Darwin target and cannot execute scripts.\n"@,
            1,
        ),
{
    say(
        "",
        "vz-exec: the vz backend is only available on macOS. This binary was built for a non-Darwin target and cannot execute scripts.\n",
        1,
    )
}

/// The guest image directory: the flag's, else the environment's, else the
/// default.
pub fn guest_image_dir(cli: &Cli, environment: Option<String>) -> (dir: String)
    ensures
        dir@ == match (cli.guest_image_dir, environment) {
            (Some(path), _) => path@,
            (None, Some(path)) => path@,
            (None, None) => DEFAULT_GUEST_IMAGE_DIR@,
        },
{
    match &cli.guest_image_dir {
        Some(path) => path.clone(),
        None => match environment {
            Some(path) => path,
            None => DEFAULT_GUEST_IMAGE_DIR.to_string(),
        },
    }
}

// ---------------------------------------------------------------------------
// Laws
// ---------------------------------------------------------------------------

/// The testing transport is never used without the flag.
pub proof fn testing_transport_needs_the_flag(cli: Cli, agent_address: Option<String>)
    requires
        !cli.allow_testing_features,
    ensures
        !(transport_of(cli, agent_address) is Tcp),
{
}

/// A dry run never runs anything.
pub proof fn dry_run_runs_nothing(cli: Cli, agent_address: Option<String>)
    requires
        cli.dry_run,
    ensures
        transport_of(cli, agent_address) is Done,
{
}

/// The command's output and exit code pass through untouched.
pub proof fn output_passes_through(outcome: ExecOutcome)
    ensures
        finish_of(ExecCompletion::Completed(outcome)).stdout == outcome.stdout@,
        finish_of(ExecCompletion::Completed(outcome)).stderr == outcome.stderr@,
        finish_of(ExecCompletion::Completed(outcome)).exit_code == outcome.exit_code,
{
}

/// What a run does first: it probes where it is asked to; without a
/// configuration it fails; a path is read; and base64 text that decodes is
/// parsed as what it decodes to, while text that does not is an error.
pub proof fn runs_begin_with_the_configuration(cli: Cli)
    ensures
        cli.probe ==> first_step(cli) is Probe,
        !cli.probe && cli.config is None ==> (first_step(cli) matches RunStepModel::Done(report)
            && report.exit_code == 1 && report.stdout == encode_utf8(""@)),
        cli.config matches Some(ConfigSource::Path(path)) ==> !cli.probe ==> first_step(cli)
            == RunStepModel::ReadFile(path@),
        cli.config matches Some(ConfigSource::Base64(text)) ==> !cli.probe ==> match base64_value(
            encode_utf8(text@),
        ) {
            Ok(bytes) => first_step(cli) == RunStepModel::Parse(bytes),
            Err(fault) => first_step(cli) matches RunStepModel::Done(report) && report.exit_code
                == 1 && report.stdout == encode_utf8(""@) && report.stderr == encode_utf8(
                "Request error\n"@ + ("invalid --config-base64: "@ + fault.text()) + "\n"@,
            ),
        },
{
}

/// How a validated policy is run: a dry run only says so, with exit 0; with the
/// address of an agent it goes there where testing features are allowed, and
/// fails with exit 1 where they are not; and without one it runs in a machine.
pub proof fn transports_are_chosen(cli: Cli, agent_address: Option<String>)
    ensures
        cli.dry_run ==> (transport_of(cli, agent_address) matches TransportModel::Done(report)
            && report.exit_code == 0 && report.stdout == encode_utf8(
            "Dry run completed. Result: validation passed\n"@,
        ) && report.stderr == encode_utf8(""@)),
        !cli.dry_run && agent_address is None ==> transport_of(cli, agent_address) is Vm,
        agent_address matches Some(address) ==> !cli.dry_run && cli.allow_testing_features
            ==> transport_of(cli, agent_address) == TransportModel::Tcp(address@),
        !cli.dry_run && !cli.allow_testing_features && agent_address is Some ==> (transport_of(
            cli,
            agent_address,
        ) matches TransportModel::Done(report) && report.exit_code == 1),
{
}

/// What is reported in the end: a failure prints one line of JSON that holds
/// its message to standard error, nothing to standard output, and exits with 1;
/// a timeout does so too but exits with -1; and a policy that does not validate
/// prints a line for each error and exits with 1.
pub proof fn failures_are_reported(
    message: Seq<char>,
    cli: Cli,
    errors: Seq<VzPolicyError>,
    error: VzPolicyError,
)
    ensures
        failure_of(message).exit_code == 1,
        failure_of(message).stdout == encode_utf8(""@),
        failure_of(message).stderr == encode_utf8(
            "{\"error\":{\"code\":\"backend_error\",\"message\":"@ + json_string_of(message)
                + "}}"@ + "\n"@,
        ),
        finish_of(ExecCompletion::TimedOut).exit_code == -1,
        finish_of(ExecCompletion::TimedOut).stdout.len() == 0,
        finish_of(ExecCompletion::TimedOut).stderr == failure_of(
            "process force-stopped after exceeding process.timeout (script timeout)"@,
        ).stderr,
        invalid_policy_of(cli, errors).exit_code == 1,
        invalid_policy_of(cli, errors).stderr == encode_utf8(validation_lines(errors)),
        !cli.dry_run ==> invalid_policy_of(cli, errors).stdout == encode_utf8(""@),
        validation_lines(Seq::empty()) == ""@,
        validation_lines(errors.push(error)) == validation_lines(errors) + "validation error: "@
            + error.text() + "\n"@,
{
    assert(errors.push(error).drop_last() =~= errors);
}

/// A number with its sign spells the number.
pub proof fn signed_numbers_spell(n: int)
    ensures
        n >= 0 ==> decimal_value(signed_decimal(n)) == n,
        n < 0 ==> signed_decimal(n)[0] == '-' && decimal_value(signed_decimal(n).skip(1)) == -n,
{
    if n >= 0 {
        decimal_spells_the_number(n as nat);
    } else {
        reveal_strlit("-");
        decimal_spells_the_number((-n) as nat);
        assert(signed_decimal(n).skip(1) =~= decimal((-n) as nat));
    }
}

/// The image directory is the flag's where there is one, else the
/// environment's, else the default.
pub proof fn image_directories_have_an_order(
    cli: Cli,
    environment: Option<String>,
    dir: String,
)
    requires
        call_ensures(guest_image_dir, (&cli, environment), dir),
    ensures
        cli.guest_image_dir matches Some(path) ==> dir@ == path@,
        environment matches Some(path) ==> cli.guest_image_dir is None ==> dir@ == path@,
        cli.guest_image_dir is None && environment is None ==> dir@ == "/opt/mxc/vz-guest"@,
{
}

/// What a session or an exec over the testing transport came to is what is
/// reported: output and exit code of a command that completed, the timeout, or
/// the failure with its message.
pub proof fn reports_tell_how_it_ended(
    session: Result<SessionOutcome, SessionError>,
    session_told: Report,
    exec: Result<ExecCompletion, ExecError>,
    exec_told: Report,
)
    requires
        call_ensures(session_report, (session,), session_told),
        call_ensures(tcp_report, (exec,), exec_told),
    ensures
        session matches Ok(SessionOutcome::Completed(outcome)) ==> session_told.stdout@
            == outcome.stdout@ && session_told.stderr@ == outcome.stderr@ && session_told.exit_code
            == outcome.exit_code,
        session matches Ok(SessionOutcome::TimedOut) ==> session_told.exit_code == -1,
        session is Err ==> session_told.exit_code == 1 && session_told.stdout@ == encode_utf8(""@),
        session matches Err(SessionError::Vm(error)) ==> session_told.stderr@ == failure_of(
            "VM lifecycle failure: "@ + error.text(),
        ).stderr,
        exec matches Ok(ExecCompletion::Completed(outcome)) ==> exec_told.stdout@
            == outcome.stdout@ && exec_told.stderr@ == outcome.stderr@ && exec_told.exit_code
            == outcome.exit_code,
        exec matches Ok(ExecCompletion::TimedOut) ==> exec_told.exit_code == -1,
        exec matches Err(error) ==> exec_told.exit_code == 1 && exec_told.stderr@ == failure_of(
            "exec failure: "@ + error@.text(),
        ).stderr,
{
}

} // verus!
