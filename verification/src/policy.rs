//! The policy surface that the vz backend reads.
//!
//! Paths are host paths as text. Blocks of other backends are known by their
//! presence only.

use vstd::prelude::*;
use vstd::string::*;

verus! {

/// Registered containment backends.
#[derive(Clone, Copy, Debug, PartialEq, Eq, Structural)]
pub enum Containment {
    Bubblewrap,
    Hyperlight,
    IsolationSession,
    Lxc,
    Microvm,
    ProcessContainer,
    Seatbelt,
    Vm,
    Vz,
    WindowsSandbox,
    Wslc,
}

#[derive(Clone, Debug, Default, PartialEq, Eq)]
pub struct Policy {
    /// Absent where the caller leaves the choice to the platform.
    pub containment: Option<Containment>,
    pub filesystem: Option<Filesystem>,
    pub network: Option<Network>,
    pub ui: Option<Ui>,
    pub process: Option<Process>,
    pub experimental: Option<Experimental>,
    /// Whether there is a `seatbelt` block.
    pub seatbelt: bool,
    /// Whether there is an `lxc` block.
    pub lxc: bool,
    /// Whether there is a `processContainer` block.
    pub process_container: bool,
}

#[derive(Clone, Debug, Default, PartialEq, Eq)]
pub struct Filesystem {
    pub readonly_paths: Vec<String>,
    pub readwrite_paths: Vec<String>,
    pub denied_paths: Vec<String>,
}

#[derive(Clone, Copy, Debug, PartialEq, Eq, Structural)]
pub enum NetworkDefaultPolicy {
    Allow,
    Block,
}

#[derive(Clone, Debug, Default, PartialEq, Eq)]
pub struct Network {
    pub default_policy: Option<NetworkDefaultPolicy>,
    pub allowed_hosts: Vec<String>,
    pub blocked_hosts: Vec<String>,
    pub proxy: Option<Proxy>,
    pub enforcement_mode: Option<String>,
    pub allow_local_network: Option<bool>,
}

/// How much of the host clipboard a policy asks for.
#[derive(Clone, Copy, Debug, PartialEq, Eq, Structural)]
pub enum ClipboardPolicy {
    NoAccess,
    Read,
    Write,
    All,
}

#[derive(Clone, Copy, Debug, Default, PartialEq, Eq)]
pub struct Ui {
    pub disable: Option<bool>,
    pub injection: Option<bool>,
    pub clipboard: Option<ClipboardPolicy>,
}

#[derive(Clone, Debug, Default, PartialEq, Eq)]
pub struct Process {
    pub command_line: Option<String>,
    /// `KEY=VALUE` entries.
    pub env: Option<Vec<String>>,
    pub cwd: Option<String>,
    /// In milliseconds.
    pub timeout: Option<u64>,
}

#[derive(Clone, Debug, Default, PartialEq, Eq)]
pub struct Proxy {
    pub url: Option<String>,
    pub localhost: Option<u16>,
    pub builtin_test_server: Option<bool>,
}

#[derive(Clone, Debug, Default, PartialEq, Eq)]
pub struct Experimental {
    pub vz: Option<VzOptions>,
}

/// Backend options. Every field has a default.
#[derive(Debug, PartialEq, Eq)]
pub struct VzOptions {
    pub guest_image_path: Option<String>,
    pub cpu_count: u32,
    pub memory_mb: u64,
    pub boot_timeout_ms: u64,
}

pub const DEFAULT_CPU_COUNT: u32 = 2;

pub const DEFAULT_MEMORY_MB: u64 = 2048;

pub const DEFAULT_BOOT_TIMEOUT_MS: u64 = 30000;

pub open spec fn default_vz_options() -> VzOptions {
    VzOptions {
        guest_image_path: None,
        cpu_count: DEFAULT_CPU_COUNT,
        memory_mb: DEFAULT_MEMORY_MB,
        boot_timeout_ms: DEFAULT_BOOT_TIMEOUT_MS,
    }
}

impl Default for VzOptions {
    fn default() -> (options: Self)
        ensures
            options == default_vz_options(),
    {
        VzOptions {
            guest_image_path: None,
            cpu_count: DEFAULT_CPU_COUNT,
            memory_mb: DEFAULT_MEMORY_MB,
            boot_timeout_ms: DEFAULT_BOOT_TIMEOUT_MS,
        }
    }
}

/// A copy of an optional string.
pub fn copy_text(text: &Option<String>) -> (copy: Option<String>)
    ensures
        copy == *text,
{
    match text {
        Some(s) => Some(s.clone()),
        None => None,
    }
}

impl Clone for VzOptions {
    fn clone(&self) -> (copy: Self)
        ensures
            copy == *self,
    {
        VzOptions {
            guest_image_path: copy_text(&self.guest_image_path),
            cpu_count: self.cpu_count,
            memory_mb: self.memory_mb,
            boot_timeout_ms: self.boot_timeout_ms,
        }
    }
}

impl Policy {
    /// The options that apply: those of the policy, or the defaults.
    pub open spec fn options(self) -> VzOptions {
        match self.experimental {
            Some(experimental) => match experimental.vz {
                Some(options) => options,
                None => default_vz_options(),
            },
            None => default_vz_options(),
        }
    }

    /// The options that apply: those of the policy, or the defaults.
    pub fn resolved_options(&self) -> (options: VzOptions)
        ensures
            options == self.options(),
    {
        match &self.experimental {
            Some(experimental) => match &experimental.vz {
                Some(options) => options.clone(),
                None => VzOptions::default(),
            },
            None => VzOptions::default(),
        }
    }
}

/// The options that apply: those of the policy where it has any; else two
/// processors, 2048 MiB, thirty seconds to boot, and no image directory.
pub proof fn options_have_defaults(policy: Policy)
    ensures
        policy.experimental matches Some(experimental) ==> experimental.vz matches Some(options)
            ==> policy.options() == options,
        policy.experimental is None || (policy.experimental->0).vz is None ==> policy.options() == (
        VzOptions {
            guest_image_path: None,
            cpu_count: 2,
            memory_mb: 2048,
            boot_timeout_ms: 30_000,
        }),
{
}

} // verus!
