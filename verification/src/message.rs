//! Control-channel messages.

use vstd::prelude::*;

verus! {

#[derive(Clone, Debug, PartialEq, Eq)]
pub enum ControlMessage {
    /// Host to guest: run this.
    Exec {
        command_line: String,
        env: Vec<String>,
        cwd: Option<String>,
        timeout_ms: Option<u64>,
    },
    /// Guest to host: it ended.
    Exit { code: i32 },
    /// Guest to host: it could not be run.
    Error { message: String },
}

} // verus!
