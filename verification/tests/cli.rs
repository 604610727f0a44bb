//! The executor's command-line contract.

use vz_backend::base64::base64_decode;
use vz_backend::cli::{
    parse_args, Cli, ConfigSource, UsageError, DEFAULT_GUEST_IMAGE_DIR, USAGE,
};
use vz_backend::client::{ExecCompletion, ExecError, ExecOutcome};
use vz_backend::executor::{
    check_policy, choose_transport, failure_report, finish, guest_image_dir, on_file, run,
    session_report, tcp_report, tcp_request, tcp_unreachable, tcp_unsplittable,
    unavailable_report, unparsable_config, usage_report, RunStep, Transport,
};
use vz_backend::json::{envelope, probe_line};
use vz_backend::policy::{
    Containment, Network, NetworkDefaultPolicy, Policy, Process, Proxy,
};
use vz_backend::runner::VmError;
use vz_backend::session::{SessionError, SessionOutcome};
use vz_backend::validate::VzPolicyError;

fn args(items: &[&str]) -> Result<Cli, UsageError> {
    parse_args(items.iter().map(|s| s.to_string()).collect())
}

fn text(bytes: &[u8]) -> String {
    String::from_utf8(bytes.to_vec()).expect("text")
}

fn valid() -> Policy {
    Policy {
        containment: Some(Containment::Vz),
        process: Some(Process {
            command_line: Some("true".to_string()),
            ..Process::default()
        }),
        ..Policy::default()
    }
}

fn encode(data: &[u8]) -> String {
    const ALPHABET: &[u8] = b"ABCDEFGHIJKLMNOPQRSTUVWXYZabcdefghijklmnopqrstuvwxyz0123456789+/";
    let mut out = String::new();
    for chunk in data.chunks(3) {
        let b = [chunk[0], *chunk.get(1).unwrap_or(&0), *chunk.get(2).unwrap_or(&0)];
        let n = (u32::from(b[0]) << 16) | (u32::from(b[1]) << 8) | u32::from(b[2]);
        out.push(ALPHABET[(n >> 18) as usize & 63] as char);
        out.push(ALPHABET[(n >> 12) as usize & 63] as char);
        out.push(if chunk.len() > 1 { ALPHABET[(n >> 6) as usize & 63] as char } else { '=' });
        out.push(if chunk.len() > 2 { ALPHABET[n as usize & 63] as char } else { '=' });
    }
    out
}

#[test]
fn base64_roundtrips() {
    for input in ["", "a", "ab", "abc", "abcd", r#"{ "containment": "vz" }"#] {
        let encoded = encode(input.as_bytes());
        assert_eq!(base64_decode(&encoded).unwrap(), input.as_bytes(), "input: {input}");
    }
    let all: Vec<u8> = (0..=255).collect();
    assert_eq!(base64_decode(&encode(&all)).unwrap(), all);
}

#[test]
fn base64_rejects_garbage() {
    assert!(base64_decode("!!!!").is_err());
    assert!(base64_decode("abc").is_err());
    assert!(base64_decode("a=bc").is_err());
}

#[test]
fn base64_faults_are_named() {
    assert_eq!(base64_decode("ab!d").unwrap_err(), "invalid base64 byte 0x21");
    assert_eq!(base64_decode("abc").unwrap_err(), "base64 length must be a multiple of 4");
    assert_eq!(base64_decode("a===").unwrap_err(), "malformed base64 padding");
    assert_eq!(base64_decode("ab=c").unwrap_err(), "malformed base64 padding");
    assert_eq!(base64_decode("QUJD\u{e9}\u{e9}").unwrap_err(), "invalid base64 byte 0xc3");
    // The first faulty group decides.
    assert_eq!(base64_decode("*bcda===").unwrap_err(), "invalid base64 byte 0x2a");
}

#[test]
fn base64_padding_is_accepted_only_at_the_end() {
    assert_eq!(base64_decode("YQ==YWI=").unwrap_err(), "malformed base64 padding");
    assert_eq!(base64_decode("YQ==YQ==").unwrap_err(), "malformed base64 padding");
    assert_eq!(base64_decode("YWI=YWJj").unwrap_err(), "malformed base64 padding");
    assert_eq!(base64_decode("ab==*bcd").unwrap_err(), "malformed base64 padding");
    assert_eq!(base64_decode("YWJjYQ==").unwrap(), b"abca");
    assert_eq!(base64_decode("YWJjYWI=").unwrap(), b"abcab");
}

#[test]
fn base64_accepts_embedded_whitespace() {
    let encoded = format!("{}\n{}", "eyAiY29udGFpbm1lbnQi", "OiAidnoiIH0=");
    assert_eq!(base64_decode(&encoded).unwrap(), br#"{ "containment": "vz" }"#);
}

#[test]
fn args_parse_with_upstream_precedence() {
    let cli = args(&[
        "pos.json", "--config", "flag.json", "--config-base64", "eHg=", "--dry-run",
    ])
    .unwrap();
    assert_eq!(cli.config, Some(ConfigSource::Base64("eHg=".to_string())));
    assert!(cli.dry_run);

    let cli = args(&["pos.json", "--config", "flag.json"]).unwrap();
    assert_eq!(cli.config, Some(ConfigSource::Path("flag.json".to_string())));

    let cli = args(&["pos.json"]).unwrap();
    assert_eq!(cli.config, Some(ConfigSource::Path("pos.json".to_string())));
}

#[test]
fn unknown_flags_and_missing_values_are_usage_errors() {
    assert!(args(&["--bogus"]).is_err());
    assert!(args(&["--config"]).is_err());
    assert!(args(&["a.json", "b.json"]).is_err());
}

#[test]
fn every_flag_is_understood() {
    let cli = args(&[
        "--debug", "--experimental", "--allow-testing-features", "--probe", "--log-file", "l",
        "--guest-image-dir", "--debug",
    ])
    .unwrap();
    assert_eq!(
        cli,
        Cli {
            config: None,
            debug: true,
            experimental: true,
            allow_testing_features: true,
            dry_run: false,
            probe: true,
            log_file: Some("l".to_string()),
            guest_image_dir: Some("--debug".to_string()),
        }
    );
    assert_eq!(args(&["--log-file"]), Err(UsageError("--log-file requires a value".to_string())));
    assert_eq!(args(&["-x"]), Err(UsageError("unknown flag: -x".to_string())));
    assert_eq!(
        args(&["a", "b"]),
        Err(UsageError("unexpected extra argument: b".to_string()))
    );
    assert_eq!(args(&[]), Ok(Cli::default()));
}

#[test]
fn no_config_is_an_error() {
    match run(&Cli::default()) {
        RunStep::Done(report) => {
            assert_eq!(report.exit_code, 1);
            assert!(text(&report.stderr).contains("No config provided"));
        }
        other => panic!("expected a report, got {other:?}"),
    }
}

#[test]
fn usage_errors_exit_with_two_and_show_the_usage() {
    let report = usage_report(&UsageError("no such thing".to_string()));
    assert_eq!(report.exit_code, 2);
    assert_eq!(report.stdout, b"");
    assert_eq!(report.stderr, format!("Error: no such thing\n{USAGE}\n").into_bytes());
    assert_eq!(report.log, None);
}

#[test]
fn unknown_flag_is_a_usage_error() {
    let UsageError(message) = args(&["--bogus"]).unwrap_err();
    assert!(message.contains("--bogus"));
}

#[test]
fn dry_run_accepts_a_valid_policy() {
    let cli = args(&["--dry-run", "--experimental", "--config", "valid.json"]).unwrap();
    check_policy(&cli, &valid()).expect("the policy validates");
    match choose_transport(&cli, None) {
        Transport::Done(report) => {
            assert_eq!(report.exit_code, 0);
            assert!(text(&report.stdout).contains("validation passed"));
            assert_eq!(report.log.as_deref(), Some("dry run: validation passed"));
        }
        other => panic!("a dry run executes nothing: {other:?}"),
    }
}

#[test]
fn positional_config_path_works() {
    let cli = args(&["positional.json", "--dry-run", "--experimental"]).unwrap();
    assert_eq!(run(&cli), RunStep::ReadFile("positional.json".to_string()));
    assert_eq!(on_file("positional.json", Ok(b"{}".to_vec())), RunStep::Parse(b"{}".to_vec()));
}

#[test]
fn config_base64_works() {
    let json = r#"{ "containment": "vz", "process": { "commandLine": "true" } }"#;
    let cli = args(&["--dry-run", "--experimental", "--config-base64", &encode(json.as_bytes())])
        .unwrap();
    assert_eq!(run(&cli), RunStep::Parse(json.as_bytes().to_vec()));
}

#[test]
fn bad_configs_are_request_errors() {
    let cli = args(&["--config-base64", "abc"]).unwrap();
    match run(&cli) {
        RunStep::Done(report) => assert_eq!(
            text(&report.stderr),
            "Request error\ninvalid --config-base64: base64 length must be a multiple of 4\n"
        ),
        other => panic!("expected a report, got {other:?}"),
    }
    match on_file("x.json", Err("No such file".to_string())) {
        RunStep::Done(report) => {
            assert_eq!(text(&report.stderr), "Request error\ncould not read x.json: No such file\n");
            assert_eq!(report.exit_code, 1);
        }
        other => panic!("expected a report, got {other:?}"),
    }
}

#[test]
fn dry_run_without_experimental_fails_with_the_reason() {
    let cli = args(&["--dry-run", "--config", "x"]).unwrap();
    let report = check_policy(&cli, &valid()).unwrap_err();
    assert_eq!(report.exit_code, 1);
    let combined = format!("{}{}", text(&report.stdout), text(&report.stderr));
    assert!(combined.contains("validation failed"), "output: {combined}");
    assert!(combined.contains("experimental"), "output: {combined}");
    assert_eq!(report.log.as_deref(), Some("validation failed (1 error(s))"));
}

#[test]
fn dry_run_rejects_proxy_with_a_clear_error() {
    let mut policy = valid();
    policy.network = Some(Network {
        default_policy: Some(NetworkDefaultPolicy::Block),
        proxy: Some(Proxy { localhost: Some(8080), ..Proxy::default() }),
        ..Network::default()
    });
    let cli = args(&["--dry-run", "--experimental", "--config", "x"]).unwrap();
    let report = check_policy(&cli, &policy).unwrap_err();
    assert_eq!(report.exit_code, 1);
    assert_eq!(text(&report.stdout), "Dry run completed. Result: validation failed\n");
    assert_eq!(
        text(&report.stderr),
        "validation error: network.proxy is not supported by the vz backend in v1\n"
    );
}

#[test]
fn malformed_config_is_a_request_error() {
    let report = unparsable_config("key must be a string");
    assert_eq!(report.exit_code, 1);
    assert!(text(&report.stderr).starts_with("Request error\n"));
}

#[test]
fn probe_reports_platform_support_as_json() {
    assert_eq!(run(&args(&["--probe"]).unwrap()), RunStep::Probe);
    let line = probe_line(
        false,
        Some("the vz backend requires macOS 13+ on Apple Silicon".to_string()),
    );
    let probe: serde_json::Value = serde_json::from_str(&line).expect("probe output must be JSON");
    assert!(!probe["isSupported"].as_bool().expect("isSupported bool"));
    assert_eq!(probe["availableMethods"].as_array().map(Vec::len), Some(0));
    assert!(probe["reason"].as_str().unwrap_or_default().contains("macOS"));
    assert_eq!(
        probe_line(true, None),
        r#"{"availableMethods":["vz"],"isSupported":true,"reason":null}"#
    );
}

#[test]
fn tcp_exec_passes_through_stdout_stderr_and_exit_code() {
    let report = tcp_report(Ok(ExecCompletion::Completed(ExecOutcome {
        exit_code: 5,
        stdout: b"out\n".to_vec(),
        stderr: b"err\n".to_vec(),
    })));
    assert_eq!(report.stdout, b"out\n");
    assert_eq!(report.stderr, b"err\n");
    assert_eq!(report.exit_code, 5, "guest exit code passes through");
    assert_eq!(report.log.as_deref(), Some("exec completed, exit code 5"));
}

#[test]
fn tcp_transport_requires_the_testing_features_flag() {
    let cli = args(&["--experimental", "--config", "x"]).unwrap();
    match choose_transport(&cli, Some("127.0.0.1:1".to_string())) {
        Transport::Done(report) => {
            assert_eq!(report.exit_code, 1);
            assert!(text(&report.stderr).contains("allow-testing-features"));
        }
        other => panic!("the testing transport must be refused: {other:?}"),
    }
    let cli = args(&["--allow-testing-features", "x"]).unwrap();
    assert_eq!(
        choose_transport(&cli, Some("127.0.0.1:1".to_string())),
        Transport::Tcp("127.0.0.1:1".to_string())
    );
    assert_eq!(choose_transport(&cli, None), Transport::Vm);
}

#[test]
fn tcp_timeout_force_stops_and_reports_the_envelope() {
    let report = tcp_report(Ok(ExecCompletion::TimedOut));
    assert_eq!(report.exit_code, -1);
    let stderr = text(&report.stderr);
    let envelope_line = stderr.lines().find(|l| l.starts_with('{')).expect("an envelope");
    let envelope: serde_json::Value =
        serde_json::from_str(envelope_line).expect("envelope must be JSON");
    assert_eq!(envelope["error"]["code"], "backend_error");
    assert!(envelope["error"]["message"].as_str().unwrap_or_default().contains("timeout"));
    assert_eq!(report.log.as_deref(), Some("exec timed out; VM force-stopped"));
}

#[test]
fn envelopes_escape_their_message() {
    let message = "a \"quoted\" \\ path\n\ttab \u{8}\u{c}\r \u{1}\u{1f}\u{7f} é 漢";
    let line = envelope(message);
    assert_eq!(
        line,
        "{\"error\":{\"code\":\"backend_error\",\"message\":\"a \\\"quoted\\\" \\\\ path\\n\\ttab \\b\\f\\r \\u0001\\u001f\u{7f} é 漢\"}}"
    );
    assert_eq!(line.lines().count(), 1, "an envelope is one line");
    let parsed: serde_json::Value = serde_json::from_str(&line).expect("JSON");
    assert_eq!(parsed["error"]["message"], message);
}

#[test]
fn failures_have_exact_messages() {
    let message = |report: vz_backend::executor::Report| {
        let line = text(&report.stderr);
        assert_eq!(report.exit_code, 1);
        let parsed: serde_json::Value = serde_json::from_str(line.trim_end()).expect("JSON");
        parsed["error"]["message"].as_str().unwrap_or_default().to_string()
    };
    assert_eq!(message(failure_report("x")), "x");
    assert_eq!(
        message(tcp_request(&Policy::default()).unwrap_err()),
        "policy translation failed: policy has no process block; one-shot exec requires process.commandLine"
    );
    assert_eq!(tcp_request(&valid()).unwrap().command_line, "true");
    assert_eq!(
        message(tcp_unreachable("127.0.0.1:9", "refused")),
        "could not connect to MXC_VZ_AGENT_TCP=127.0.0.1:9: refused"
    );
    assert_eq!(message(tcp_unsplittable("bad")), "could not clone agent stream: bad");
    assert_eq!(
        message(tcp_report(Err(ExecError::Agent("no".to_string())))),
        "exec failure: guest agent error: no"
    );
    assert_eq!(
        message(session_report(Err(SessionError::Vm(VmError::NotRunning)))),
        "VM lifecycle failure: VM is not running"
    );
    assert!(text(&unavailable_report().stderr).contains("only available on macOS"));
}

#[test]
fn sessions_are_reported() {
    let outcome = ExecOutcome { exit_code: -9, stdout: b"o".to_vec(), stderr: Vec::new() };
    let report = session_report(Ok(SessionOutcome::Completed(outcome.clone())));
    assert_eq!(report.log.as_deref(), Some("exec completed, exit code -9"));
    assert_eq!(report, finish(ExecCompletion::Completed(outcome)));
    assert_eq!(session_report(Ok(SessionOutcome::TimedOut)).exit_code, -1);
    let report =
        session_report(Err(SessionError::Validation(vec![VzPolicyError::ExperimentalRequired])));
    assert_eq!(
        text(&report.stderr),
        "validation error: containment \"vz\" requires the experimental flag to be enabled\n"
    );
}

#[test]
fn guest_image_dir_has_three_sources() {
    let cli = args(&["--guest-image-dir", "/flag"]).unwrap();
    assert_eq!(guest_image_dir(&cli, Some("/env".to_string())), "/flag");
    assert_eq!(guest_image_dir(&Cli::default(), Some("/env".to_string())), "/env");
    assert_eq!(guest_image_dir(&Cli::default(), None), DEFAULT_GUEST_IMAGE_DIR);
}
