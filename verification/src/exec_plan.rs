//! From policy to exec request.

use vstd::prelude::*;
use vstd::string::*;
use crate::client::{copy_texts, ExecRequest};
use crate::paths::texts;
use crate::policy::{copy_text, Policy, Process};

verus! {

/// Whether `request` is what `process` asks for with this command line.
pub open spec fn carries_out(request: ExecRequest, process: Process, command_line: String) -> bool {
    &&& request.command_line@ == command_line@
    &&& texts(request.env@) == match process.env {
        Some(env) => texts(env@),
        None => Seq::empty(),
    }
    &&& request.cwd == process.cwd
    &&& request.timeout_ms == process.timeout
}

/// Builds the exec request from the policy's process block.
///
/// The working directory passes through unchanged: shares are mounted at
/// identical guest paths.
pub fn build_exec_request(policy: &Policy) -> (result: Result<ExecRequest, String>)
    ensures
        match policy.process {
            None => result matches Err(message) && message@
                == "policy has no process block; one-shot exec requires process.commandLine"@,
            Some(process) => match process.command_line {
                Some(command_line) if command_line@.len() > 0 => result matches Ok(request)
                    && carries_out(request, process, command_line),
                _ => result matches Err(message) && message@
                    == "process.commandLine is required for one-shot exec"@,
            },
        },
{
    let process: &Process = match &policy.process {
        Some(process) => process,
        None => {
            return Err(
                "policy has no process block; one-shot exec requires process.commandLine".to_string(),
            );
        },
    };
    if let Some(command_line) = &process.command_line {
        if command_line.as_str().unicode_len() > 0 {
            let env: Vec<String> = match &process.env {
                Some(env) => copy_texts(env),
                None => Vec::new(),
            };
            let request = ExecRequest {
                command_line: command_line.clone(),
                env,
                cwd: copy_text(&process.cwd),
                timeout_ms: process.timeout,
            };
            proof {
                if process.env is None {
                    assert(texts(request.env@) =~= Seq::empty());
                }
            }
            return Ok(request);
        }
    }
    Err("process.commandLine is required for one-shot exec".to_string())
}

/// A request carries out all of a process block: the command line, every
/// variable in order and no other, the working directory and the timeout.
pub proof fn requests_carry_the_whole_process(
    request: ExecRequest,
    process: Process,
    command_line: String,
)
    requires
        carries_out(request, process, command_line),
    ensures
        request.command_line@ == command_line@,
        process.env is None ==> request.env@.len() == 0,
        process.env matches Some(env) ==> request.env@.len() == env@.len() && forall|i: int|
            0 <= i < env@.len() ==> (#[trigger] request.env@[i])@ == env@[i]@,
        request.cwd == process.cwd,
        request.timeout_ms == process.timeout,
{
    let ours = texts(request.env@);
    assert(ours.len() == request.env@.len());
    if let Some(env) = process.env {
        let theirs = texts(env@);
        assert(theirs.len() == env@.len());
        assert forall|i: int| 0 <= i < env@.len() implies (#[trigger] request.env@[i])@
            == env@[i]@ by {
            assert(ours[i] == theirs[i]);
        }
    }
}

/// A policy makes a request exactly where it has a command line that is not
/// empty; the request then carries out its process block.
pub proof fn command_lines_make_requests(policy: Policy, result: Result<ExecRequest, String>)
    requires
        call_ensures(build_exec_request, (&policy,), result),
    ensures
        result is Ok <==> (policy.process matches Some(process) && (
        process.command_line matches Some(text) && text@.len() > 0)),
        result matches Ok(request) ==> carries_out(
            request,
            policy.process->0,
            (policy.process->0).command_line->0,
        ),
{
}

} // verus!
