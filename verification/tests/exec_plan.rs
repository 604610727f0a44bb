//! From policy to exec request.

use vz_backend::exec_plan::build_exec_request;
use vz_backend::policy::{Containment, Policy, Process};

fn policy(process: Option<Process>) -> Policy {
    Policy { containment: Some(Containment::Vz), process, ..Policy::default() }
}

#[test]
fn full_process_block_maps_through() {
    let request = build_exec_request(&policy(Some(Process {
        command_line: Some("python3 train.py --epochs 3".to_string()),
        env: Some(vec!["PYTHONUNBUFFERED=1".to_string(), "MODE=test".to_string()]),
        cwd: Some("/workspace".to_string()),
        timeout: Some(90000),
    })))
    .expect("translation should succeed");
    assert_eq!(request.command_line, "python3 train.py --epochs 3");
    assert_eq!(request.env, vec!["PYTHONUNBUFFERED=1", "MODE=test"]);
    assert_eq!(request.cwd.as_deref(), Some("/workspace"));
    assert_eq!(request.timeout_ms, Some(90000));
}

#[test]
fn minimal_process_block_uses_defaults() {
    let request = build_exec_request(&policy(Some(Process {
        command_line: Some("true".to_string()),
        ..Process::default()
    })))
    .expect("translation should succeed");
    assert_eq!(request.command_line, "true");
    assert!(request.env.is_empty());
    assert_eq!(request.cwd, None);
    assert_eq!(request.timeout_ms, None);
}

#[test]
fn missing_process_block_is_an_error() {
    let error = build_exec_request(&policy(None)).expect_err("one-shot exec requires a process block");
    assert!(error.contains("process"), "got: {error}");
}

#[test]
fn missing_command_line_is_an_error() {
    let error = build_exec_request(&policy(Some(Process {
        timeout: Some(1000),
        ..Process::default()
    })))
    .expect_err("one-shot exec requires commandLine");
    assert!(error.contains("commandLine"), "got: {error}");
}

#[test]
fn empty_command_line_is_an_error() {
    let error = build_exec_request(&policy(Some(Process {
        command_line: Some(String::new()),
        ..Process::default()
    })))
    .expect_err("an empty command line runs nothing");
    assert_eq!(error, "process.commandLine is required for one-shot exec");
}
