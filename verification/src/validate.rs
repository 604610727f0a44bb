//! Validation of vz policies. Every error is collected, not just the first.
//!
//! - vz requires the experimental flag, and the policy's containment must be
//!   vz explicitly: an experimental backend is never a default.
//! - UI access is unsupported: the guest has no window server.
//! - A network proxy and blocked hosts are unsupported.
//! - Denied paths are redundant (nothing is shared by default) and produce
//!   warnings, unless equal to or inside a shared path, which is an error.
//! - All policy paths must be absolute and free of NUL.
//! - Bounds: at least one CPU, 128 MB, and 1 ms to boot.
//! - Blocks that the vz backend does not consume are accepted for
//!   cross-backend portability and reported as warnings.

use vstd::prelude::*;
use vstd::string::*;
use crate::paths::{
    contains_path, has_nul, is_absolute, path_contains, path_has_interior_nul, path_is_absolute,
    texts,
};
use crate::pattern::{pattern_of, HostPattern};
use crate::policy::{
    ClipboardPolicy, Containment, Filesystem, Network, NetworkDefaultPolicy, Policy, Ui,
    VzOptions,
};
use crate::text::{decimal, push_decimal};

verus! {

pub const MIN_MEMORY_MB: u64 = 128;

#[derive(Clone, Debug, PartialEq, Eq)]
pub enum VzPolicyError {
    NotVzContainment,
    ExperimentalRequired,
    /// An explicit request for UI access.
    UiAccessUnsupported,
    UiInjectionUnsupported,
    /// A clipboard level that grants any access.
    ClipboardUnsupported(ClipboardPolicy),
    ProxyUnsupported,
    BlockedHostsUnsupported,
    DeniedPathInsideShare { denied: String, share: String },
    NonAbsolutePath(String),
    /// A path with a NUL would silently truncate when converted to a C
    /// string.
    PathContainsNul(String),
    InvalidCpuCount(u32),
    InvalidMemoryMb(u64),
    InvalidBootTimeoutMs(u64),
}

/// What an error says.
pub enum PolicyErrorModel {
    NotVzContainment,
    ExperimentalRequired,
    UiAccessUnsupported,
    UiInjectionUnsupported,
    ClipboardUnsupported(ClipboardPolicy),
    ProxyUnsupported,
    BlockedHostsUnsupported,
    DeniedPathInsideShare { denied: Seq<char>, share: Seq<char> },
    NonAbsolutePath(Seq<char>),
    PathContainsNul(Seq<char>),
    InvalidCpuCount(u32),
    InvalidMemoryMb(u64),
    InvalidBootTimeoutMs(u64),
}

impl View for VzPolicyError {
    type V = PolicyErrorModel;

    open spec fn view(&self) -> PolicyErrorModel {
        match self {
            VzPolicyError::NotVzContainment => PolicyErrorModel::NotVzContainment,
            VzPolicyError::ExperimentalRequired => PolicyErrorModel::ExperimentalRequired,
            VzPolicyError::UiAccessUnsupported => PolicyErrorModel::UiAccessUnsupported,
            VzPolicyError::UiInjectionUnsupported => PolicyErrorModel::UiInjectionUnsupported,
            VzPolicyError::ClipboardUnsupported(level) => PolicyErrorModel::ClipboardUnsupported(
                *level,
            ),
            VzPolicyError::ProxyUnsupported => PolicyErrorModel::ProxyUnsupported,
            VzPolicyError::BlockedHostsUnsupported => PolicyErrorModel::BlockedHostsUnsupported,
            VzPolicyError::DeniedPathInsideShare {
                denied,
                share,
            } => PolicyErrorModel::DeniedPathInsideShare { denied: denied@, share: share@ },
            VzPolicyError::NonAbsolutePath(path) => PolicyErrorModel::NonAbsolutePath(path@),
            VzPolicyError::PathContainsNul(path) => PolicyErrorModel::PathContainsNul(path@),
            VzPolicyError::InvalidCpuCount(n) => PolicyErrorModel::InvalidCpuCount(*n),
            VzPolicyError::InvalidMemoryMb(n) => PolicyErrorModel::InvalidMemoryMb(*n),
            VzPolicyError::InvalidBootTimeoutMs(n) => PolicyErrorModel::InvalidBootTimeoutMs(*n),
        }
    }
}

#[derive(Clone, Debug, PartialEq, Eq)]
pub enum Warning {
    /// A denied path that no share exposes: harmless because nothing is
    /// shared by default.
    RedundantDeniedPath(String),
    /// A policy field or block that the vz backend does not consume.
    IgnoredField(String),
    /// Allowed hosts under a default of allow: the default accepts everything
    /// anyway.
    RedundantAllowedHosts,
    /// An allowed host that does not parse. Skipped: dropping an allow entry
    /// only ever restricts.
    SkippedAllowedHost(String),
}

/// What a warning says.
pub enum WarningModel {
    RedundantDeniedPath(Seq<char>),
    IgnoredField(Seq<char>),
    RedundantAllowedHosts,
    SkippedAllowedHost(Seq<char>),
}

impl View for Warning {
    type V = WarningModel;

    open spec fn view(&self) -> WarningModel {
        match self {
            Warning::RedundantDeniedPath(path) => WarningModel::RedundantDeniedPath(path@),
            Warning::IgnoredField(name) => WarningModel::IgnoredField(name@),
            Warning::RedundantAllowedHosts => WarningModel::RedundantAllowedHosts,
            Warning::SkippedAllowedHost(entry) => WarningModel::SkippedAllowedHost(entry@),
        }
    }
}

pub open spec fn error_models(errors: Seq<VzPolicyError>) -> Seq<PolicyErrorModel> {
    errors.map_values(|e: VzPolicyError| e@)
}

pub open spec fn warning_models(warnings: Seq<Warning>) -> Seq<WarningModel> {
    warnings.map_values(|w: Warning| w@)
}

#[derive(Clone, Debug, PartialEq, Eq)]
pub struct ValidatedVzPolicy {
    /// The backend options with defaults applied.
    pub options: VzOptions,
    pub warnings: Vec<Warning>,
}

/// One item if `present`, none if not.
pub open spec fn when<T>(present: bool, item: T) -> Seq<T> {
    if present {
        seq![item]
    } else {
        Seq::empty()
    }
}

pub open spec fn containment_errors(
    containment: Option<Containment>,
    experimental_enabled: bool,
) -> Seq<PolicyErrorModel> {
    when(containment != Some(Containment::Vz), PolicyErrorModel::NotVzContainment) + when(
        !experimental_enabled,
        PolicyErrorModel::ExperimentalRequired,
    )
}

pub open spec fn ui_errors(ui: Option<Ui>) -> Seq<PolicyErrorModel> {
    match ui {
        Some(ui) => when(ui.disable == Some(false), PolicyErrorModel::UiAccessUnsupported) + when(
            ui.injection == Some(true),
            PolicyErrorModel::UiInjectionUnsupported,
        ) + match ui.clipboard {
            Some(level) => when(
                level != ClipboardPolicy::NoAccess,
                PolicyErrorModel::ClipboardUnsupported(level),
            ),
            None => Seq::empty(),
        },
        None => Seq::empty(),
    }
}

pub open spec fn network_errors(network: Option<Network>) -> Seq<PolicyErrorModel> {
    match network {
        Some(network) => when(network.proxy is Some, PolicyErrorModel::ProxyUnsupported) + when(
            network.blocked_hosts@.len() > 0,
            PolicyErrorModel::BlockedHostsUnsupported,
        ),
        None => Seq::empty(),
    }
}

/// What is wrong with one path on its own.
pub open spec fn path_error(path: Seq<char>) -> Seq<PolicyErrorModel> {
    if has_nul(path) {
        seq![PolicyErrorModel::PathContainsNul(path)]
    } else if !is_absolute(path) {
        seq![PolicyErrorModel::NonAbsolutePath(path)]
    } else {
        Seq::empty()
    }
}

pub open spec fn path_errors(paths: Seq<Seq<char>>) -> Seq<PolicyErrorModel>
    decreases paths.len(),
{
    if paths.len() == 0 {
        Seq::empty()
    } else {
        path_errors(paths.drop_last()) + path_error(paths.last())
    }
}

/// The first of `shares` that holds `path`.
pub open spec fn share_of(shares: Seq<Seq<char>>, path: Seq<char>) -> Option<Seq<char>>
    decreases shares.len(),
{
    if shares.len() == 0 {
        None
    } else if contains_path(shares[0], path) {
        Some(shares[0])
    } else {
        share_of(shares.skip(1), path)
    }
}

pub open spec fn denied_errors(denied: Seq<Seq<char>>, shares: Seq<Seq<char>>) -> Seq<
    PolicyErrorModel,
>
    decreases denied.len(),
{
    if denied.len() == 0 {
        Seq::empty()
    } else {
        denied_errors(denied.drop_last(), shares) + match share_of(shares, denied.last()) {
            Some(share) => seq![
                PolicyErrorModel::DeniedPathInsideShare { denied: denied.last(), share },
            ],
            None => Seq::empty(),
        }
    }
}

pub open spec fn denied_warnings(denied: Seq<Seq<char>>, shares: Seq<Seq<char>>) -> Seq<
    WarningModel,
>
    decreases denied.len(),
{
    if denied.len() == 0 {
        Seq::empty()
    } else {
        denied_warnings(denied.drop_last(), shares) + when(
            share_of(shares, denied.last()) is None,
            WarningModel::RedundantDeniedPath(denied.last()),
        )
    }
}

pub open spec fn shared_paths(fs: Filesystem) -> Seq<Seq<char>> {
    texts(fs.readonly_paths@) + texts(fs.readwrite_paths@)
}

pub open spec fn filesystem_errors(filesystem: Option<Filesystem>) -> Seq<PolicyErrorModel> {
    match filesystem {
        Some(fs) => path_errors(shared_paths(fs) + texts(fs.denied_paths@)) + denied_errors(
            texts(fs.denied_paths@),
            shared_paths(fs),
        ),
        None => Seq::empty(),
    }
}

pub open spec fn option_errors(options: VzOptions) -> Seq<PolicyErrorModel> {
    when(options.cpu_count < 1, PolicyErrorModel::InvalidCpuCount(options.cpu_count)) + when(
        options.memory_mb < MIN_MEMORY_MB,
        PolicyErrorModel::InvalidMemoryMb(options.memory_mb),
    ) + when(
        options.boot_timeout_ms < 1,
        PolicyErrorModel::InvalidBootTimeoutMs(options.boot_timeout_ms),
    )
}

/// Everything that is wrong with a policy, in the order in which it is
/// reported.
pub open spec fn policy_errors(policy: Policy, experimental_enabled: bool) -> Seq<
    PolicyErrorModel,
> {
    containment_errors(policy.containment, experimental_enabled) + ui_errors(policy.ui)
        + network_errors(policy.network) + filesystem_errors(policy.filesystem) + option_errors(
        policy.options(),
    )
}

pub open spec fn skipped_hosts(entries: Seq<Seq<char>>) -> Seq<WarningModel>
    decreases entries.len(),
{
    if entries.len() == 0 {
        Seq::empty()
    } else {
        skipped_hosts(entries.drop_last()) + when(
            pattern_of(entries.last()) is Err,
            WarningModel::SkippedAllowedHost(entries.last()),
        )
    }
}

pub open spec fn network_warnings(network: Option<Network>) -> Seq<WarningModel> {
    match network {
        Some(network) => when(
            network.enforcement_mode is Some,
            WarningModel::IgnoredField("network.enforcementMode"@),
        ) + when(
            network.allowed_hosts@.len() > 0 && network.default_policy == Some(
                NetworkDefaultPolicy::Allow,
            ),
            WarningModel::RedundantAllowedHosts,
        ) + skipped_hosts(texts(network.allowed_hosts@)),
        None => Seq::empty(),
    }
}

pub open spec fn foreign_warnings(policy: Policy) -> Seq<WarningModel> {
    when(policy.seatbelt, WarningModel::IgnoredField("seatbelt"@)) + when(
        policy.lxc,
        WarningModel::IgnoredField("lxc"@),
    ) + when(policy.process_container, WarningModel::IgnoredField("processContainer"@))
}

pub open spec fn filesystem_warnings(filesystem: Option<Filesystem>) -> Seq<WarningModel> {
    match filesystem {
        Some(fs) => denied_warnings(texts(fs.denied_paths@), shared_paths(fs)),
        None => Seq::empty(),
    }
}

/// Everything about a policy that is accepted but worth telling, in the order
/// in which it is reported.
pub open spec fn policy_warnings(policy: Policy) -> Seq<WarningModel> {
    network_warnings(policy.network) + foreign_warnings(policy) + filesystem_warnings(
        policy.filesystem,
    )
}

fn push_error(errors: &mut Vec<VzPolicyError>, error: VzPolicyError)
    ensures
        error_models(final(errors)@) == error_models(old(errors)@).push(error@),
{
    errors.push(error);
    assert(error_models(errors@) =~= error_models(old(errors)@).push(error@));
}

fn push_warning(warnings: &mut Vec<Warning>, warning: Warning)
    ensures
        warning_models(final(warnings)@) == warning_models(old(warnings)@).push(warning@),
{
    warnings.push(warning);
    assert(warning_models(warnings@) =~= warning_models(old(warnings)@).push(warning@));
}

fn check_ui(ui: &Option<Ui>, errors: &mut Vec<VzPolicyError>)
    ensures
        error_models(final(errors)@) == error_models(old(errors)@) + ui_errors(*ui),
{
    if let Some(ui) = ui {
        if let Some(false) = ui.disable {
            push_error(errors, VzPolicyError::UiAccessUnsupported);
        }
        if let Some(true) = ui.injection {
            push_error(errors, VzPolicyError::UiInjectionUnsupported);
        }
        if let Some(level) = ui.clipboard {
            if level != ClipboardPolicy::NoAccess {
                push_error(errors, VzPolicyError::ClipboardUnsupported(level));
            }
        }
    }
    assert(error_models(errors@) =~= error_models(old(errors)@) + ui_errors(*ui));
}

fn check_network(
    network: &Option<Network>,
    errors: &mut Vec<VzPolicyError>,
    warnings: &mut Vec<Warning>,
)
    ensures
        error_models(final(errors)@) == error_models(old(errors)@) + network_errors(*network),
        warning_models(final(warnings)@) == warning_models(old(warnings)@) + network_warnings(
            *network,
        ),
{
    let ghost errors_before = error_models(errors@);
    let ghost warnings_before = warning_models(warnings@);
    if let Some(network) = network {
        if network.proxy.is_some() {
            push_error(errors, VzPolicyError::ProxyUnsupported);
        }
        if network.blocked_hosts.len() > 0 {
            push_error(errors, VzPolicyError::BlockedHostsUnsupported);
        }
        if network.enforcement_mode.is_some() {
            push_warning(warnings, Warning::IgnoredField("network.enforcementMode".to_string()));
        }
        if let Some(NetworkDefaultPolicy::Allow) = network.default_policy {
            if network.allowed_hosts.len() > 0 {
                push_warning(warnings, Warning::RedundantAllowedHosts);
            }
        }
        let ghost start = warning_models(warnings@);
        let ghost entries = texts(network.allowed_hosts@);
        let mut i: usize = 0;
        assert(start =~= start + skipped_hosts(entries.subrange(0, 0)));
        while i < network.allowed_hosts.len()
            invariant
                i <= network.allowed_hosts@.len(),
                entries == texts(network.allowed_hosts@),
                warning_models(warnings@) == start + skipped_hosts(entries.subrange(0, i as int)),
            decreases network.allowed_hosts@.len() - i,
        {
            let entry: &String = &network.allowed_hosts[i];
            assert(entries.subrange(0, i + 1).drop_last() =~= entries.subrange(0, i as int));
            if HostPattern::parse(entry.as_str()).is_err() {
                push_warning(warnings, Warning::SkippedAllowedHost(entry.clone()));
            }
            i = i + 1;
            assert(warning_models(warnings@) =~= start + skipped_hosts(
                entries.subrange(0, i as int),
            ));
        }
        assert(entries.subrange(0, i as int) =~= entries);
        assert(start =~= warnings_before + (when(
            network.enforcement_mode is Some,
            WarningModel::IgnoredField("network.enforcementMode"@),
        ) + when(
            network.allowed_hosts@.len() > 0 && network.default_policy == Some(
                NetworkDefaultPolicy::Allow,
            ),
            WarningModel::RedundantAllowedHosts,
        )));
    }
    assert(error_models(errors@) =~= errors_before + network_errors(*network));
    assert(warning_models(warnings@) =~= warnings_before + network_warnings(*network));
}

fn check_foreign(policy: &Policy, warnings: &mut Vec<Warning>)
    ensures
        warning_models(final(warnings)@) == warning_models(old(warnings)@) + foreign_warnings(
            *policy,
        ),
{
    if policy.seatbelt {
        push_warning(warnings, Warning::IgnoredField("seatbelt".to_string()));
    }
    if policy.lxc {
        push_warning(warnings, Warning::IgnoredField("lxc".to_string()));
    }
    if policy.process_container {
        push_warning(warnings, Warning::IgnoredField("processContainer".to_string()));
    }
    assert(warning_models(warnings@) =~= warning_models(old(warnings)@) + foreign_warnings(
        *policy,
    ));
}

proof fn path_errors_of_sum(a: Seq<Seq<char>>, b: Seq<Seq<char>>)
    ensures
        path_errors(a + b) == path_errors(a) + path_errors(b),
    decreases b.len(),
{
    if b.len() == 0 {
        assert(a + b =~= a);
        assert(path_errors(a) + path_errors(b) =~= path_errors(a));
    } else {
        assert((a + b).drop_last() =~= a + b.drop_last());
        path_errors_of_sum(a, b.drop_last());
        assert(path_errors(a) + path_errors(b) =~= path_errors(a) + path_errors(b.drop_last())
            + path_error(b.last()));
    }
}

fn check_paths(paths: &Vec<String>, errors: &mut Vec<VzPolicyError>)
    ensures
        error_models(final(errors)@) == error_models(old(errors)@) + path_errors(texts(paths@)),
{
    let ghost start = error_models(errors@);
    let ghost all = texts(paths@);
    let mut i: usize = 0;
    assert(start =~= start + path_errors(all.subrange(0, 0)));
    while i < paths.len()
        invariant
            i <= paths@.len(),
            all == texts(paths@),
            error_models(errors@) == start + path_errors(all.subrange(0, i as int)),
        decreases paths@.len() - i,
    {
        let path: &String = &paths[i];
        assert(all.subrange(0, i + 1).drop_last() =~= all.subrange(0, i as int));
        if path_has_interior_nul(path.as_str()) {
            push_error(errors, VzPolicyError::PathContainsNul(path.clone()));
        } else if !path_is_absolute(path.as_str()) {
            push_error(errors, VzPolicyError::NonAbsolutePath(path.clone()));
        }
        i = i + 1;
        assert(error_models(errors@) =~= start + path_errors(all.subrange(0, i as int)));
    }
    assert(all.subrange(0, i as int) =~= all);
}

/// The first path of `paths` that holds `denied`.
fn find_share(paths: &Vec<String>, denied: &str) -> (share: Option<String>)
    ensures
        match share {
            Some(s) => share_of(texts(paths@), denied@) == Some(s@),
            None => share_of(texts(paths@), denied@) is None,
        },
{
    let ghost all = texts(paths@);
    let mut i: usize = 0;
    assert(all.skip(0) =~= all);
    while i < paths.len()
        invariant
            i <= paths@.len(),
            all == texts(paths@),
            share_of(all, denied@) == share_of(all.skip(i as int), denied@),
        decreases paths@.len() - i,
    {
        assert(all.skip(i as int)[0] == paths@[i as int]@);
        if path_contains(paths[i].as_str(), denied) {
            return Some(paths[i].clone());
        }
        assert(all.skip(i as int).skip(1) =~= all.skip(i + 1));
        i = i + 1;
    }
    None
}

proof fn share_of_sum(a: Seq<Seq<char>>, b: Seq<Seq<char>>, path: Seq<char>)
    ensures
        share_of(a + b, path) == match share_of(a, path) {
            Some(share) => Some(share),
            None => share_of(b, path),
        },
    decreases a.len(),
{
    if a.len() == 0 {
        assert(a + b =~= b);
    } else {
        assert((a + b).skip(1) =~= a.skip(1) + b);
        share_of_sum(a.skip(1), b, path);
    }
}

fn check_filesystem(
    filesystem: &Option<Filesystem>,
    errors: &mut Vec<VzPolicyError>,
    warnings: &mut Vec<Warning>,
)
    ensures
        error_models(final(errors)@) == error_models(old(errors)@) + filesystem_errors(*filesystem),
        warning_models(final(warnings)@) == warning_models(old(warnings)@) + filesystem_warnings(
            *filesystem,
        ),
{
    let ghost errors_before = error_models(errors@);
    let ghost warnings_before = warning_models(warnings@);
    if let Some(fs) = filesystem {
        check_paths(&fs.readonly_paths, errors);
        check_paths(&fs.readwrite_paths, errors);
        check_paths(&fs.denied_paths, errors);
        let ghost shares = shared_paths(*fs);
        let ghost denied = texts(fs.denied_paths@);
        proof {
            path_errors_of_sum(texts(fs.readonly_paths@), texts(fs.readwrite_paths@));
            path_errors_of_sum(shares, denied);
            assert(error_models(errors@) =~= errors_before + path_errors(shares + denied));
        }
        let ghost start = error_models(errors@);
        let mut i: usize = 0;
        assert(start =~= start + denied_errors(denied.subrange(0, 0), shares));
        assert(warnings_before =~= warnings_before + denied_warnings(
            denied.subrange(0, 0),
            shares,
        ));
        while i < fs.denied_paths.len()
            invariant
                i <= fs.denied_paths@.len(),
                shares == shared_paths(*fs),
                denied == texts(fs.denied_paths@),
                error_models(errors@) == start + denied_errors(
                    denied.subrange(0, i as int),
                    shares,
                ),
                warning_models(warnings@) == warnings_before + denied_warnings(
                    denied.subrange(0, i as int),
                    shares,
                ),
            decreases fs.denied_paths@.len() - i,
        {
            let path: &String = &fs.denied_paths[i];
            proof {
                assert(denied.subrange(0, i + 1).drop_last() =~= denied.subrange(0, i as int));
                share_of_sum(texts(fs.readonly_paths@), texts(fs.readwrite_paths@), path@);
            }
            let found: Option<String> = match find_share(&fs.readonly_paths, path.as_str()) {
                Some(share) => Some(share),
                None => find_share(&fs.readwrite_paths, path.as_str()),
            };
            match found {
                Some(share) => {
                    push_error(
                        errors,
                        VzPolicyError::DeniedPathInsideShare { denied: path.clone(), share },
                    );
                },
                None => {
                    push_warning(warnings, Warning::RedundantDeniedPath(path.clone()));
                },
            }
            i = i + 1;
            assert(error_models(errors@) =~= start + denied_errors(
                denied.subrange(0, i as int),
                shares,
            ));
            assert(warning_models(warnings@) =~= warnings_before + denied_warnings(
                denied.subrange(0, i as int),
                shares,
            ));
        }
        assert(denied.subrange(0, i as int) =~= denied);
    }
    assert(error_models(errors@) =~= errors_before + filesystem_errors(*filesystem));
    assert(warning_models(warnings@) =~= warnings_before + filesystem_warnings(*filesystem));
}

fn check_options(options: &VzOptions, errors: &mut Vec<VzPolicyError>)
    ensures
        error_models(final(errors)@) == error_models(old(errors)@) + option_errors(*options),
{
    if options.cpu_count < 1 {
        push_error(errors, VzPolicyError::InvalidCpuCount(options.cpu_count));
    }
    if options.memory_mb < MIN_MEMORY_MB {
        push_error(errors, VzPolicyError::InvalidMemoryMb(options.memory_mb));
    }
    if options.boot_timeout_ms < 1 {
        push_error(errors, VzPolicyError::InvalidBootTimeoutMs(options.boot_timeout_ms));
    }
    assert(error_models(errors@) =~= error_models(old(errors)@) + option_errors(*options));
}

/// Validates a policy for the vz backend, collecting every error.
///
/// `experimental_enabled` is the caller-level experimental flag.
pub fn validate_vz_policy(policy: &Policy, experimental_enabled: bool) -> (result: Result<
    ValidatedVzPolicy,
    Vec<VzPolicyError>,
>)
    ensures
        match result {
            Ok(validated) => policy_errors(*policy, experimental_enabled).len() == 0
                && validated.options == policy.options() && warning_models(validated.warnings@)
                == policy_warnings(*policy),
            Err(errors) => policy_errors(*policy, experimental_enabled).len() > 0 && error_models(
                errors@,
            ) == policy_errors(*policy, experimental_enabled),
        },
{
    let mut errors: Vec<VzPolicyError> = Vec::new();
    let mut warnings: Vec<Warning> = Vec::new();
    let is_vz: bool = match policy.containment {
        Some(containment) => containment == Containment::Vz,
        None => false,
    };
    if !is_vz {
        push_error(&mut errors, VzPolicyError::NotVzContainment);
    }
    if !experimental_enabled {
        push_error(&mut errors, VzPolicyError::ExperimentalRequired);
    }
    assert(error_models(errors@) =~= containment_errors(policy.containment, experimental_enabled));
    check_ui(&policy.ui, &mut errors);
    assert(warning_models(warnings@) =~= Seq::empty());
    check_network(&policy.network, &mut errors, &mut warnings);
    check_foreign(policy, &mut warnings);
    check_filesystem(&policy.filesystem, &mut errors, &mut warnings);
    let options: VzOptions = policy.resolved_options();
    check_options(&options, &mut errors);
    assert(error_models(errors@) =~= policy_errors(*policy, experimental_enabled));
    assert(warning_models(warnings@) =~= policy_warnings(*policy));
    if errors.len() == 0 {
        Ok(ValidatedVzPolicy { options, warnings })
    } else {
        Err(errors)
    }
}

impl VzPolicyError {
    /// The message shown for this error.
    pub open spec fn text(self) -> Seq<char> {
        match self {
            VzPolicyError::NotVzContainment => "policy containment is not \"vz\"; this validator only accepts vz policies"@,
            VzPolicyError::ExperimentalRequired => "containment \"vz\" requires the experimental flag to be enabled"@,
            VzPolicyError::UiAccessUnsupported => "ui.disable: false is not supported by the vz backend: the guest VM has no WindowServer access"@,
            VzPolicyError::UiInjectionUnsupported => "ui.injection is not supported by the vz backend: the guest VM has no WindowServer access"@,
            VzPolicyError::ClipboardUnsupported(level) => "ui.clipboard level "@ + clipboard_name(
                level,
            ) + " is not supported by the vz backend; only \"none\" is accepted"@,
            VzPolicyError::ProxyUnsupported => "network.proxy is not supported by the vz backend in v1"@,
            VzPolicyError::BlockedHostsUnsupported => "network.blockedHosts is not supported by the vz backend in v1; use defaultPolicy \"block\" with allowedHosts"@,
            VzPolicyError::DeniedPathInsideShare { denied, share } => "filesystem.deniedPaths entry "@
                + denied@ + " is inside shared path "@ + share@
                + "; deniedPaths may not overlap readonlyPaths/readwritePaths on vz"@,
            VzPolicyError::NonAbsolutePath(path) => "policy path "@ + path@ + " must be absolute"@,
            VzPolicyError::PathContainsNul(path) => "policy path "@ + path@
                + " contains a NUL byte"@,
            VzPolicyError::InvalidCpuCount(value) => "experimental.vz.cpuCount must be at least 1 (got "@
                + decimal(value as nat) + ")"@,
            VzPolicyError::InvalidMemoryMb(value) => "experimental.vz.memoryMB must be at least 128 (got "@
                + decimal(value as nat) + ")"@,
            VzPolicyError::InvalidBootTimeoutMs(value) => "experimental.vz.bootTimeoutMs must be at least 1 (got "@
                + decimal(value as nat) + ")"@,
        }
    }

    /// The message shown for this error: it names the offending field.
    pub fn message(&self) -> (message: String)
        ensures
            message@ == self.text(),
    {
        match self {
            VzPolicyError::NotVzContainment => "policy containment is not \"vz\"; this validator only accepts vz policies".to_string(),
            VzPolicyError::ExperimentalRequired => "containment \"vz\" requires the experimental flag to be enabled".to_string(),
            VzPolicyError::UiAccessUnsupported => "ui.disable: false is not supported by the vz backend: the guest VM has no WindowServer access".to_string(),
            VzPolicyError::UiInjectionUnsupported => "ui.injection is not supported by the vz backend: the guest VM has no WindowServer access".to_string(),
            VzPolicyError::ClipboardUnsupported(level) => {
                let mut m: String = "ui.clipboard level ".to_string();
                m.append(clipboard_label(*level));
                m.append(" is not supported by the vz backend; only \"none\" is accepted");
                m
            },
            VzPolicyError::ProxyUnsupported => "network.proxy is not supported by the vz backend in v1".to_string(),
            VzPolicyError::BlockedHostsUnsupported => "network.blockedHosts is not supported by the vz backend in v1; use defaultPolicy \"block\" with allowedHosts".to_string(),
            VzPolicyError::DeniedPathInsideShare { denied, share } => {
                let mut m: String = "filesystem.deniedPaths entry ".to_string();
                m.append(denied.as_str());
                m.append(" is inside shared path ");
                m.append(share.as_str());
                m.append("; deniedPaths may not overlap readonlyPaths/readwritePaths on vz");
                m
            },
            VzPolicyError::NonAbsolutePath(path) => {
                let mut m: String = "policy path ".to_string();
                m.append(path.as_str());
                m.append(" must be absolute");
                m
            },
            VzPolicyError::PathContainsNul(path) => {
                let mut m: String = "policy path ".to_string();
                m.append(path.as_str());
                m.append(" contains a NUL byte");
                m
            },
            VzPolicyError::InvalidCpuCount(value) => {
                let mut m: String = "experimental.vz.cpuCount must be at least 1 (got ".to_string();
                push_decimal(&mut m, *value as u64);
                m.append(")");
                m
            },
            VzPolicyError::InvalidMemoryMb(value) => {
                let mut m: String = "experimental.vz.memoryMB must be at least 128 (got ".to_string();
                push_decimal(&mut m, *value);
                m.append(")");
                m
            },
            VzPolicyError::InvalidBootTimeoutMs(value) => {
                let mut m: String = "experimental.vz.bootTimeoutMs must be at least 1 (got ".to_string();
                push_decimal(&mut m, *value);
                m.append(")");
                m
            },
        }
    }
}

pub open spec fn clipboard_name(level: ClipboardPolicy) -> Seq<char> {
    match level {
        ClipboardPolicy::NoAccess => "None"@,
        ClipboardPolicy::Read => "Read"@,
        ClipboardPolicy::Write => "Write"@,
        ClipboardPolicy::All => "All"@,
    }
}

fn clipboard_label(level: ClipboardPolicy) -> (label: &'static str)
    ensures
        label@ == clipboard_name(level),
{
    match level {
        ClipboardPolicy::NoAccess => "None",
        ClipboardPolicy::Read => "Read",
        ClipboardPolicy::Write => "Write",
        ClipboardPolicy::All => "All",
    }
}

// ---------------------------------------------------------------------------
// Laws
// ---------------------------------------------------------------------------

/// No path of `paths` has an error, if and only if each is absolute and free
/// of NUL.
proof fn no_path_errors(paths: Seq<Seq<char>>)
    ensures
        path_errors(paths).len() == 0 <==> forall|i: int|
            0 <= i < paths.len() ==> is_absolute(#[trigger] paths[i]) && !has_nul(paths[i]),
    decreases paths.len(),
{
    if paths.len() > 0 {
        let front = paths.drop_last();
        no_path_errors(front);
        assert forall|i: int| 0 <= i < front.len() implies front[i] == #[trigger] paths[i] by {}
        if path_errors(paths).len() == 0 {
            assert forall|i: int| 0 <= i < paths.len() implies is_absolute(#[trigger] paths[i])
                && !has_nul(paths[i]) by {
                if i < front.len() {
                    assert(front[i] == paths[i]);
                }
            }
        } else if forall|i: int|
            0 <= i < paths.len() ==> is_absolute(#[trigger] paths[i]) && !has_nul(paths[i]) {
            assert(paths.last() == paths[paths.len() - 1]);
            assert forall|i: int| 0 <= i < front.len() implies is_absolute(#[trigger] front[i])
                && !has_nul(front[i]) by {
                assert(front[i] == paths[i]);
            }
        }
    }
}

/// No share holds `path`, if and only if none of them contains it.
proof fn no_share(shares: Seq<Seq<char>>, path: Seq<char>)
    ensures
        share_of(shares, path) is None <==> forall|i: int|
            0 <= i < shares.len() ==> !contains_path(#[trigger] shares[i], path),
    decreases shares.len(),
{
    if shares.len() > 0 {
        no_share(shares.skip(1), path);
        assert forall|i: int| 1 <= i < shares.len() implies #[trigger] shares[i] == shares.skip(
            1,
        )[i - 1] by {}
        if share_of(shares, path) is None {
            assert forall|i: int| 0 <= i < shares.len() implies !contains_path(
                #[trigger] shares[i],
                path,
            ) by {
                if i > 0 {
                    assert(shares[i] == shares.skip(1)[i - 1]);
                }
            }
        } else if forall|i: int|
            0 <= i < shares.len() ==> !contains_path(#[trigger] shares[i], path) {
            assert forall|i: int| 0 <= i < shares.skip(1).len() implies !contains_path(
                #[trigger] shares.skip(1)[i],
                path,
            ) by {
                assert(shares.skip(1)[i] == shares[i + 1]);
            }
        }
    }
}

proof fn no_denied_errors(denied: Seq<Seq<char>>, shares: Seq<Seq<char>>)
    ensures
        denied_errors(denied, shares).len() == 0 <==> forall|i: int|
            0 <= i < denied.len() ==> share_of(shares, #[trigger] denied[i]) is None,
    decreases denied.len(),
{
    if denied.len() > 0 {
        let front = denied.drop_last();
        no_denied_errors(front, shares);
        if denied_errors(denied, shares).len() == 0 {
            assert forall|i: int| 0 <= i < denied.len() implies share_of(
                shares,
                #[trigger] denied[i],
            ) is None by {
                if i < front.len() {
                    assert(front[i] == denied[i]);
                }
            }
        } else if forall|i: int|
            0 <= i < denied.len() ==> share_of(shares, #[trigger] denied[i]) is None {
            assert(denied.last() == denied[denied.len() - 1]);
            assert forall|i: int| 0 <= i < front.len() implies share_of(
                shares,
                #[trigger] front[i],
            ) is None by {
                assert(front[i] == denied[i]);
            }
        }
    }
}

/// What an accepted policy keeps to.
pub open spec fn acceptable(policy: Policy, experimental_enabled: bool) -> bool {
    &&& policy.containment == Some(Containment::Vz)
    &&& experimental_enabled
    &&& policy.ui matches Some(ui) ==> ui.disable != Some(false) && ui.injection != Some(true) && (
    ui.clipboard is None || ui.clipboard == Some(ClipboardPolicy::NoAccess))
    &&& policy.network matches Some(network) ==> network.proxy is None
        && network.blocked_hosts@.len() == 0
    &&& policy.filesystem matches Some(fs) ==> {
        let shares = shared_paths(fs);
        let denied = texts(fs.denied_paths@);
        &&& forall|i: int|
            0 <= i < (shares + denied).len() ==> is_absolute(#[trigger] (shares + denied)[i])
                && !has_nul((shares + denied)[i])
        &&& forall|i: int, j: int|
            0 <= i < denied.len() && 0 <= j < shares.len() ==> !contains_path(
                #[trigger] shares[j],
                #[trigger] denied[i],
            )
    }
    &&& policy.options().cpu_count >= 1
    &&& policy.options().memory_mb >= MIN_MEMORY_MB
    &&& policy.options().boot_timeout_ms >= 1
}

/// A policy is accepted if and only if it asks for vz with the experimental
/// flag, requests nothing that the backend cannot do, shares only absolute
/// paths, denies nothing inside a share, and keeps to the bounds.
pub proof fn accepted_policies(policy: Policy, experimental_enabled: bool)
    ensures
        policy_errors(policy, experimental_enabled).len() == 0 <==> acceptable(
            policy,
            experimental_enabled,
        ),
{
    if let Some(fs) = policy.filesystem {
        let shares = shared_paths(fs);
        let denied = texts(fs.denied_paths@);
        no_path_errors(shares + denied);
        no_denied_errors(denied, shares);
        assert forall|i: int| 0 <= i < denied.len() implies (share_of(shares, #[trigger] denied[i])
            is None <==> forall|j: int|
            0 <= j < shares.len() ==> !contains_path(#[trigger] shares[j], denied[i])) by {
            no_share(shares, denied[i]);
        }
    }
}

/// Each denied path is either an error or a warning, never both and never
/// neither.
pub proof fn denied_paths_are_never_silent(denied: Seq<Seq<char>>, shares: Seq<Seq<char>>)
    ensures
        denied_errors(denied, shares).len() + denied_warnings(denied, shares).len()
            == denied.len(),
    decreases denied.len(),
{
    if denied.len() > 0 {
        denied_paths_are_never_silent(denied.drop_last(), shares);
    }
}

spec fn names_no_flag(errors: Seq<PolicyErrorModel>) -> bool {
    forall|i: int|
        0 <= i < errors.len() ==> !(#[trigger] errors[i] is ExperimentalRequired)
}

proof fn no_flag_in_both(first: Seq<PolicyErrorModel>, second: Seq<PolicyErrorModel>)
    requires
        names_no_flag(first),
        names_no_flag(second),
    ensures
        names_no_flag(first + second),
{
}

proof fn paths_need_no_flag(paths: Seq<Seq<char>>)
    ensures
        names_no_flag(path_errors(paths)),
    decreases paths.len(),
{
    if paths.len() > 0 {
        paths_need_no_flag(paths.drop_last());
    }
}

proof fn denials_need_no_flag(denied: Seq<Seq<char>>, shares: Seq<Seq<char>>)
    ensures
        names_no_flag(denied_errors(denied, shares)),
    decreases denied.len(),
{
    if denied.len() > 0 {
        denials_need_no_flag(denied.drop_last(), shares);
    }
}

proof fn others_need_no_flag(policy: Policy)
    ensures
        names_no_flag(policy_errors(policy, true)),
{
    let own = containment_errors(policy.containment, true);
    let ui = ui_errors(policy.ui);
    let network = network_errors(policy.network);
    let filesystem = filesystem_errors(policy.filesystem);
    if let Some(fs) = policy.filesystem {
        let paths = shared_paths(fs) + texts(fs.denied_paths@);
        paths_need_no_flag(paths);
        denials_need_no_flag(texts(fs.denied_paths@), shared_paths(fs));
        no_flag_in_both(path_errors(paths), denied_errors(texts(fs.denied_paths@), shared_paths(fs)));
    }
    no_flag_in_both(own, ui);
    no_flag_in_both(own + ui, network);
    no_flag_in_both(own + ui + network, filesystem);
    no_flag_in_both(own + ui + network + filesystem, option_errors(policy.options()));
}

/// One more item behind the first of five sequences is one more item of all.
proof fn one_more(
    first: Seq<PolicyErrorModel>,
    item: PolicyErrorModel,
    second: Seq<PolicyErrorModel>,
    third: Seq<PolicyErrorModel>,
    fourth: Seq<PolicyErrorModel>,
    fifth: Seq<PolicyErrorModel>,
)
    ensures
        first.push(item) + second + third + fourth + fifth == (first + second + third + fourth
            + fifth).insert(first.len() as int, item),
{
    let rest = second + third + fourth + fifth;
    assert(first.push(item) + second + third + fourth + fifth =~= first.push(item) + rest);
    assert(first + second + third + fourth + fifth =~= first + rest);
    assert(first.push(item) + rest =~= (first + rest).insert(first.len() as int, item));
}

/// The experimental flag is required whatever else the policy says: without
/// it, what is wrong with a policy is what is wrong with it anyway, and
/// exactly one error more, reported right behind a wrong containment.
pub proof fn experimental_flag_is_required(policy: Policy)
    ensures
        policy_errors(policy, false) == policy_errors(policy, true).insert(
            if policy.containment == Some(Containment::Vz) {
                0
            } else {
                1
            },
            PolicyErrorModel::ExperimentalRequired,
        ),
        !policy_errors(policy, true).contains(PolicyErrorModel::ExperimentalRequired),
{
    let own = when(policy.containment != Some(Containment::Vz), PolicyErrorModel::NotVzContainment);
    let flag = PolicyErrorModel::ExperimentalRequired;
    assert(containment_errors(policy.containment, true) =~= own);
    assert(containment_errors(policy.containment, false) =~= own.push(flag));
    one_more(
        own,
        flag,
        ui_errors(policy.ui),
        network_errors(policy.network),
        filesystem_errors(policy.filesystem),
        option_errors(policy.options()),
    );
    others_need_no_flag(policy);
}

/// Which error comes when, one by one.
pub open spec fn error_applies(
    error: PolicyErrorModel,
    policy: Policy,
    experimental_enabled: bool,
) -> bool {
    match error {
        PolicyErrorModel::NotVzContainment => policy.containment != Some(Containment::Vz),
        PolicyErrorModel::ExperimentalRequired => !experimental_enabled,
        PolicyErrorModel::UiAccessUnsupported => policy.ui matches Some(ui) && ui.disable == Some(
            false,
        ),
        PolicyErrorModel::UiInjectionUnsupported => policy.ui matches Some(ui) && ui.injection
            == Some(true),
        PolicyErrorModel::ClipboardUnsupported(level) => level != ClipboardPolicy::NoAccess && (
        policy.ui matches Some(ui) && ui.clipboard == Some(level)),
        PolicyErrorModel::ProxyUnsupported => policy.network matches Some(network)
            && network.proxy is Some,
        PolicyErrorModel::BlockedHostsUnsupported => policy.network matches Some(network)
            && network.blocked_hosts@.len() > 0,
        PolicyErrorModel::DeniedPathInsideShare { denied, share } => policy.filesystem matches Some(
            fs,
        ) && texts(fs.denied_paths@).contains(denied) && first_share(
            texts(fs.readonly_paths@) + texts(fs.readwrite_paths@),
            denied,
            share,
        ),
        PolicyErrorModel::NonAbsolutePath(path) => policy.filesystem matches Some(fs) && is_listed(
            fs,
            path,
        ) && !path.contains('\0') && (path.len() == 0 || path[0] != '/'),
        PolicyErrorModel::PathContainsNul(path) => policy.filesystem matches Some(fs) && is_listed(
            fs,
            path,
        ) && path.contains('\0'),
        PolicyErrorModel::InvalidCpuCount(n) => n == policy.options().cpu_count && n == 0,
        PolicyErrorModel::InvalidMemoryMb(n) => n == policy.options().memory_mb && n < 128,
        PolicyErrorModel::InvalidBootTimeoutMs(n) => n == policy.options().boot_timeout_ms && n
            == 0,
    }
}

/// Whether `path` is among the paths of a filesystem block.
pub open spec fn is_listed(fs: Filesystem, path: Seq<char>) -> bool {
    texts(fs.readonly_paths@).contains(path) || texts(fs.readwrite_paths@).contains(path) || texts(
        fs.denied_paths@,
    ).contains(path)
}

/// Whether `share` is the first of `shares` that is `path` or holds it.
pub open spec fn first_share(shares: Seq<Seq<char>>, path: Seq<char>, share: Seq<char>) -> bool {
    exists|i: int|
        0 <= i < shares.len() && #[trigger] shares[i] == share && contains_path(share, path)
            && forall|j: int|
            0 <= j < i ==> !contains_path(#[trigger] shares[j], path)
}

proof fn share_is_first(shares: Seq<Seq<char>>, path: Seq<char>, share: Seq<char>)
    ensures
        share_of(shares, path) == Some(share) <==> first_share(shares, path, share),
    decreases shares.len(),
{
    if shares.len() > 0 {
        let rest = shares.skip(1);
        share_is_first(rest, path, share);
        if contains_path(shares[0], path) {
            if first_share(shares, path, share) {
                let i = choose|i: int|
                    0 <= i < shares.len() && #[trigger] shares[i] == share && contains_path(
                        share,
                        path,
                    ) && forall|j: int|
                        0 <= j < i ==> !contains_path(#[trigger] shares[j], path);
                assert(i == 0) by {
                    if i > 0 {
                        assert(!contains_path(shares[0], path));
                    }
                }
            }
            if shares[0] == share {
                assert(first_share(shares, path, share));
            }
        } else {
            if first_share(rest, path, share) {
                let i = choose|i: int|
                    0 <= i < rest.len() && #[trigger] rest[i] == share && contains_path(
                        share,
                        path,
                    ) && forall|j: int| 0 <= j < i ==> !contains_path(#[trigger] rest[j], path);
                assert(shares[i + 1] == share);
                assert forall|j: int| 0 <= j < i + 1 implies !contains_path(
                    #[trigger] shares[j],
                    path,
                ) by {
                    if j > 0 {
                        assert(rest[j - 1] == shares[j]);
                    }
                }
            }
            if first_share(shares, path, share) {
                let i = choose|i: int|
                    0 <= i < shares.len() && #[trigger] shares[i] == share && contains_path(
                        share,
                        path,
                    ) && forall|j: int|
                        0 <= j < i ==> !contains_path(#[trigger] shares[j], path);
                assert(i > 0);
                assert(rest[i - 1] == share);
                assert forall|j: int| 0 <= j < i - 1 implies !contains_path(
                    #[trigger] rest[j],
                    path,
                ) by {
                    assert(rest[j] == shares[j + 1]);
                }
            }
        }
    }
}

proof fn contains_in_both<T>(first: Seq<T>, second: Seq<T>, item: T)
    ensures
        (first + second).contains(item) <==> first.contains(item) || second.contains(item),
{
    let all = first + second;
    if all.contains(item) {
        let i = choose|i: int| 0 <= i < all.len() && all[i] == item;
        if i < first.len() {
            assert(first[i] == item);
        } else {
            assert(second[i - first.len()] == item);
        }
    }
    if first.contains(item) {
        let i = choose|i: int| 0 <= i < first.len() && first[i] == item;
        assert(all[i] == item);
    }
    if second.contains(item) {
        let i = choose|i: int| 0 <= i < second.len() && second[i] == item;
        assert(all[first.len() + i] == item);
    }
}

proof fn contains_when<T>(present: bool, one: T, item: T)
    ensures
        present && one == item <==> when(present, one).contains(item),
{
    if present {
        assert(when(present, one)[0] == one);
    }
}

proof fn contains_one<T>(one: T, item: T)
    ensures
        seq![one].contains(item) <==> one == item,
{
    assert(seq![one][0] == one);
}

proof fn contains_from_the_end(items: Seq<Seq<char>>, item: Seq<char>)
    requires
        items.len() > 0,
    ensures
        items.contains(item) <==> items.drop_last().contains(item) || items.last() == item,
{
    assert(items =~= items.drop_last() + seq![items.last()]);
    contains_in_both(items.drop_last(), seq![items.last()], item);
    assert(seq![items.last()][0] == items.last());
}

proof fn path_errors_apply(paths: Seq<Seq<char>>, error: PolicyErrorModel)
    ensures
        path_errors(paths).contains(error) <==> match error {
            PolicyErrorModel::PathContainsNul(path) => paths.contains(path) && path.contains('\0'),
            PolicyErrorModel::NonAbsolutePath(path) => paths.contains(path) && !path.contains('\0')
                && (path.len() == 0 || path[0] != '/'),
            _ => false,
        },
    decreases paths.len(),
{
    if paths.len() > 0 {
        let front = paths.drop_last();
        path_errors_apply(front, error);
        contains_in_both(path_errors(front), path_error(paths.last()), error);
        match error {
            PolicyErrorModel::PathContainsNul(path) => contains_from_the_end(paths, path),
            PolicyErrorModel::NonAbsolutePath(path) => contains_from_the_end(paths, path),
            _ => {},
        }
        let last = paths.last();
        contains_one(PolicyErrorModel::PathContainsNul(last), error);
        contains_one(PolicyErrorModel::NonAbsolutePath(last), error);
    }
}

proof fn denied_errors_apply(
    denied: Seq<Seq<char>>,
    shares: Seq<Seq<char>>,
    error: PolicyErrorModel,
)
    ensures
        denied_errors(denied, shares).contains(error) <==> match error {
            PolicyErrorModel::DeniedPathInsideShare { denied: path, share } => denied.contains(path)
                && first_share(shares, path, share),
            _ => false,
        },
    decreases denied.len(),
{
    if denied.len() > 0 {
        let front = denied.drop_last();
        denied_errors_apply(front, shares, error);
        let last = match share_of(shares, denied.last()) {
            Some(share) => seq![
                PolicyErrorModel::DeniedPathInsideShare { denied: denied.last(), share },
            ],
            None => Seq::empty(),
        };
        contains_in_both(denied_errors(front, shares), last, error);
        if let Some(share) = share_of(shares, denied.last()) {
            contains_one(
                PolicyErrorModel::DeniedPathInsideShare { denied: denied.last(), share },
                error,
            );
        }
        if let PolicyErrorModel::DeniedPathInsideShare { denied: path, share } = error {
            contains_from_the_end(denied, path);
            share_is_first(shares, path, share);
        }
    }
}

proof fn filesystem_errors_apply(filesystem: Option<Filesystem>, error: PolicyErrorModel)
    ensures
        filesystem_errors(filesystem).contains(error) <==> (filesystem matches Some(fs) && match error {
            PolicyErrorModel::DeniedPathInsideShare { denied, share } => texts(
                fs.denied_paths@,
            ).contains(denied) && first_share(shared_paths(fs), denied, share),
            PolicyErrorModel::PathContainsNul(path) => is_listed(fs, path) && path.contains('\0'),
            PolicyErrorModel::NonAbsolutePath(path) => is_listed(fs, path) && !path.contains('\0')
                && (path.len() == 0 || path[0] != '/'),
            _ => false,
        }),
{
    if let Some(fs) = filesystem {
        let denied = texts(fs.denied_paths@);
        let shares = shared_paths(fs);
        path_errors_apply(shares + denied, error);
        denied_errors_apply(denied, shares, error);
        contains_in_both(path_errors(shares + denied), denied_errors(denied, shares), error);
        match error {
            PolicyErrorModel::PathContainsNul(path) => listed_somewhere(fs, path),
            PolicyErrorModel::NonAbsolutePath(path) => listed_somewhere(fs, path),
            _ => {},
        }
    }
}

proof fn listed_somewhere(fs: Filesystem, path: Seq<char>)
    ensures
        (shared_paths(fs) + texts(fs.denied_paths@)).contains(path) <==> is_listed(fs, path),
{
    contains_in_both(shared_paths(fs), texts(fs.denied_paths@), path);
    contains_in_both(texts(fs.readonly_paths@), texts(fs.readwrite_paths@), path);
}

proof fn ui_errors_apply(ui: Option<Ui>, error: PolicyErrorModel)
    ensures
        ui_errors(ui).contains(error) <==> (ui matches Some(ui) && match error {
            PolicyErrorModel::UiAccessUnsupported => ui.disable == Some(false),
            PolicyErrorModel::UiInjectionUnsupported => ui.injection == Some(true),
            PolicyErrorModel::ClipboardUnsupported(level) => level != ClipboardPolicy::NoAccess
                && ui.clipboard == Some(level),
            _ => false,
        }),
{
    if let Some(ui) = ui {
        let access = when(ui.disable == Some(false), PolicyErrorModel::UiAccessUnsupported);
        let injection = when(ui.injection == Some(true), PolicyErrorModel::UiInjectionUnsupported);
        let clipboard = match ui.clipboard {
            Some(level) => when(
                level != ClipboardPolicy::NoAccess,
                PolicyErrorModel::ClipboardUnsupported(level),
            ),
            None => Seq::empty(),
        };
        contains_in_both(access, injection, error);
        contains_in_both(access + injection, clipboard, error);
        contains_when(ui.disable == Some(false), PolicyErrorModel::UiAccessUnsupported, error);
        contains_when(ui.injection == Some(true), PolicyErrorModel::UiInjectionUnsupported, error);
        if let Some(level) = ui.clipboard {
            contains_when(
                level != ClipboardPolicy::NoAccess,
                PolicyErrorModel::ClipboardUnsupported(level),
                error,
            );
        }
    }
}

proof fn network_errors_apply(network: Option<Network>, error: PolicyErrorModel)
    ensures
        network_errors(network).contains(error) <==> (network matches Some(network) && match error {
            PolicyErrorModel::ProxyUnsupported => network.proxy is Some,
            PolicyErrorModel::BlockedHostsUnsupported => network.blocked_hosts@.len() > 0,
            _ => false,
        }),
{
    if let Some(network) = network {
        let proxy = when(network.proxy is Some, PolicyErrorModel::ProxyUnsupported);
        let blocked = when(
            network.blocked_hosts@.len() > 0,
            PolicyErrorModel::BlockedHostsUnsupported,
        );
        contains_in_both(proxy, blocked, error);
        contains_when(network.proxy is Some, PolicyErrorModel::ProxyUnsupported, error);
        contains_when(
            network.blocked_hosts@.len() > 0,
            PolicyErrorModel::BlockedHostsUnsupported,
            error,
        );
    }
}

proof fn option_errors_apply(options: VzOptions, error: PolicyErrorModel)
    ensures
        option_errors(options).contains(error) <==> match error {
            PolicyErrorModel::InvalidCpuCount(n) => n == options.cpu_count && n == 0,
            PolicyErrorModel::InvalidMemoryMb(n) => n == options.memory_mb && n < 128,
            PolicyErrorModel::InvalidBootTimeoutMs(n) => n == options.boot_timeout_ms && n == 0,
            _ => false,
        },
{
    let cpu = PolicyErrorModel::InvalidCpuCount(options.cpu_count);
    let memory = PolicyErrorModel::InvalidMemoryMb(options.memory_mb);
    let boot = PolicyErrorModel::InvalidBootTimeoutMs(options.boot_timeout_ms);
    let first = when(options.cpu_count < 1, cpu);
    let second = when(options.memory_mb < MIN_MEMORY_MB, memory);
    let third = when(options.boot_timeout_ms < 1, boot);
    contains_in_both(first, second, error);
    contains_in_both(first + second, third, error);
    contains_when(options.cpu_count < 1, cpu, error);
    contains_when(options.memory_mb < MIN_MEMORY_MB, memory, error);
    contains_when(options.boot_timeout_ms < 1, boot, error);
}

/// Each error is reported exactly where it applies.
pub proof fn errors_are_reported_where_they_apply(
    policy: Policy,
    experimental_enabled: bool,
    error: PolicyErrorModel,
)
    ensures
        policy_errors(policy, experimental_enabled).contains(error) <==> error_applies(
            error,
            policy,
            experimental_enabled,
        ),
{
    let wrong = when(policy.containment != Some(Containment::Vz), PolicyErrorModel::NotVzContainment);
    let flag = when(!experimental_enabled, PolicyErrorModel::ExperimentalRequired);
    let own = containment_errors(policy.containment, experimental_enabled);
    let ui = ui_errors(policy.ui);
    let network = network_errors(policy.network);
    let filesystem = filesystem_errors(policy.filesystem);
    let options = option_errors(policy.options());
    contains_in_both(wrong, flag, error);
    contains_when(
        policy.containment != Some(Containment::Vz),
        PolicyErrorModel::NotVzContainment,
        error,
    );
    contains_when(!experimental_enabled, PolicyErrorModel::ExperimentalRequired, error);
    contains_in_both(own, ui, error);
    contains_in_both(own + ui, network, error);
    contains_in_both(own + ui + network, filesystem, error);
    contains_in_both(own + ui + network + filesystem, options, error);
    ui_errors_apply(policy.ui, error);
    network_errors_apply(policy.network, error);
    filesystem_errors_apply(policy.filesystem, error);
    option_errors_apply(policy.options(), error);
}

/// Which warning comes when, one by one.
pub open spec fn warning_applies(warning: WarningModel, policy: Policy) -> bool {
    match warning {
        WarningModel::IgnoredField(name) => {
            ||| name == "network.enforcementMode"@ && (policy.network matches Some(network)
                && network.enforcement_mode is Some)
            ||| name == "seatbelt"@ && policy.seatbelt
            ||| name == "lxc"@ && policy.lxc
            ||| name == "processContainer"@ && policy.process_container
        },
        WarningModel::RedundantAllowedHosts => policy.network matches Some(network)
            && network.default_policy == Some(NetworkDefaultPolicy::Allow)
            && network.allowed_hosts@.len() > 0,
        WarningModel::SkippedAllowedHost(entry) => policy.network matches Some(network) && texts(
            network.allowed_hosts@,
        ).contains(entry) && pattern_of(entry) is Err,
        WarningModel::RedundantDeniedPath(path) => policy.filesystem matches Some(fs) && texts(
            fs.denied_paths@,
        ).contains(path) && forall|i: int|
            0 <= i < shared_paths(fs).len() ==> !contains_path(
                #[trigger] (texts(fs.readonly_paths@) + texts(fs.readwrite_paths@))[i],
                path,
            ),
    }
}

proof fn skipped_hosts_apply(entries: Seq<Seq<char>>, warning: WarningModel)
    ensures
        skipped_hosts(entries).contains(warning) <==> (warning matches WarningModel::SkippedAllowedHost(
            entry,
        ) && entries.contains(entry) && pattern_of(entry) is Err),
    decreases entries.len(),
{
    if entries.len() > 0 {
        let front = entries.drop_last();
        let one = WarningModel::SkippedAllowedHost(entries.last());
        skipped_hosts_apply(front, warning);
        contains_in_both(
            skipped_hosts(front),
            when(pattern_of(entries.last()) is Err, one),
            warning,
        );
        contains_when(pattern_of(entries.last()) is Err, one, warning);
        if let WarningModel::SkippedAllowedHost(entry) = warning {
            contains_from_the_end(entries, entry);
        }
    }
}

proof fn denied_warnings_apply(
    denied: Seq<Seq<char>>,
    shares: Seq<Seq<char>>,
    warning: WarningModel,
)
    ensures
        denied_warnings(denied, shares).contains(warning) <==> (warning matches WarningModel::RedundantDeniedPath(
            path,
        ) && denied.contains(path) && forall|i: int|
            0 <= i < shares.len() ==> !contains_path(#[trigger] shares[i], path)),
    decreases denied.len(),
{
    if denied.len() > 0 {
        let front = denied.drop_last();
        let one = WarningModel::RedundantDeniedPath(denied.last());
        denied_warnings_apply(front, shares, warning);
        contains_in_both(
            denied_warnings(front, shares),
            when(share_of(shares, denied.last()) is None, one),
            warning,
        );
        contains_when(share_of(shares, denied.last()) is None, one, warning);
        no_share(shares, denied.last());
        if let WarningModel::RedundantDeniedPath(path) = warning {
            contains_from_the_end(denied, path);
        }
    }
}

proof fn network_warnings_apply(network: Option<Network>, warning: WarningModel)
    ensures
        network_warnings(network).contains(warning) <==> (network matches Some(network) && match warning {
            WarningModel::IgnoredField(name) => name == "network.enforcementMode"@
                && network.enforcement_mode is Some,
            WarningModel::RedundantAllowedHosts => network.default_policy == Some(
                NetworkDefaultPolicy::Allow,
            ) && network.allowed_hosts@.len() > 0,
            WarningModel::SkippedAllowedHost(entry) => texts(network.allowed_hosts@).contains(entry)
                && pattern_of(entry) is Err,
            _ => false,
        }),
{
    if let Some(network) = network {
        let redundant = network.allowed_hosts@.len() > 0 && network.default_policy == Some(
            NetworkDefaultPolicy::Allow,
        );
        let ignored = WarningModel::IgnoredField("network.enforcementMode"@);
        let first = when(network.enforcement_mode is Some, ignored);
        let second = when(redundant, WarningModel::RedundantAllowedHosts);
        let third = skipped_hosts(texts(network.allowed_hosts@));
        contains_in_both(first, second, warning);
        contains_in_both(first + second, third, warning);
        contains_when(network.enforcement_mode is Some, ignored, warning);
        contains_when(redundant, WarningModel::RedundantAllowedHosts, warning);
        skipped_hosts_apply(texts(network.allowed_hosts@), warning);
    }
}

/// Each warning is given exactly where it applies.
pub proof fn warnings_are_given_where_they_apply(policy: Policy, warning: WarningModel)
    ensures
        policy_warnings(policy).contains(warning) <==> warning_applies(warning, policy),
{
    let network = network_warnings(policy.network);
    let foreign = foreign_warnings(policy);
    let filesystem = filesystem_warnings(policy.filesystem);
    contains_in_both(network, foreign, warning);
    contains_in_both(network + foreign, filesystem, warning);
    network_warnings_apply(policy.network, warning);
    let seatbelt = WarningModel::IgnoredField("seatbelt"@);
    let lxc = WarningModel::IgnoredField("lxc"@);
    let container = WarningModel::IgnoredField("processContainer"@);
    contains_in_both(when(policy.seatbelt, seatbelt), when(policy.lxc, lxc), warning);
    contains_in_both(
        when(policy.seatbelt, seatbelt) + when(policy.lxc, lxc),
        when(policy.process_container, container),
        warning,
    );
    contains_when(policy.seatbelt, seatbelt, warning);
    contains_when(policy.lxc, lxc, warning);
    contains_when(policy.process_container, container, warning);
    if let Some(fs) = policy.filesystem {
        denied_warnings_apply(texts(fs.denied_paths@), shared_paths(fs), warning);
    }
}

/// Errors and warnings about paths and hosts come one by one and in order: each
/// entry has at most one of a kind, and those of two lists in a row are those
/// of each.
pub proof fn entries_are_judged_one_by_one(
    front: Seq<Seq<char>>,
    back: Seq<Seq<char>>,
    shares: Seq<Seq<char>>,
    entry: Seq<char>,
)
    ensures
        path_errors(front + back) == path_errors(front) + path_errors(back),
        denied_errors(front + back, shares) == denied_errors(front, shares) + denied_errors(
            back,
            shares,
        ),
        denied_warnings(front + back, shares) == denied_warnings(front, shares) + denied_warnings(
            back,
            shares,
        ),
        skipped_hosts(front + back) == skipped_hosts(front) + skipped_hosts(back),
        path_errors(seq![entry]).len() <= 1,
        denied_errors(seq![entry], shares).len() + denied_warnings(seq![entry], shares).len() == 1,
        skipped_hosts(seq![entry]).len() <= 1,
    decreases back.len(),
{
    let one = seq![entry];
    assert(one.drop_last() =~= Seq::empty());
    assert(path_errors(Seq::empty()).len() == 0);
    assert(skipped_hosts(Seq::empty()).len() == 0);
    denied_paths_are_never_silent(one, shares);
    let all = front + back;
    if back.len() == 0 {
        assert(all =~= front);
        assert(path_errors(front) + path_errors(back) =~= path_errors(front));
        assert(denied_errors(front, shares) + denied_errors(back, shares) =~= denied_errors(
            front,
            shares,
        ));
        assert(denied_warnings(front, shares) + denied_warnings(back, shares) =~= denied_warnings(
            front,
            shares,
        ));
        assert(skipped_hosts(front) + skipped_hosts(back) =~= skipped_hosts(front));
    } else {
        let less = back.drop_last();
        assert(all.drop_last() =~= front + less);
        entries_are_judged_one_by_one(front, less, shares, entry);
        assert(path_errors(all) =~= path_errors(front) + path_errors(back));
        assert(denied_errors(all, shares) =~= denied_errors(front, shares) + denied_errors(
            back,
            shares,
        ));
        assert(denied_warnings(all, shares) =~= denied_warnings(front, shares) + denied_warnings(
            back,
            shares,
        ));
        assert(skipped_hosts(all) =~= skipped_hosts(front) + skipped_hosts(back));
    }
}

/// A message names what is wrong: the path or paths, or the number, that the
/// policy has, and the bound that the number misses.
pub proof fn messages_name_what_is_wrong(path: String, share: String, n: u64, count: u32)
    ensures
        VzPolicyError::NonAbsolutePath(path).text() == "policy path "@ + path@
            + " must be absolute"@,
        VzPolicyError::PathContainsNul(path).text() == "policy path "@ + path@
            + " contains a NUL byte"@,
        (VzPolicyError::DeniedPathInsideShare { denied: path, share }).text()
            == "filesystem.deniedPaths entry "@ + path@ + " is inside shared path "@ + share@
            + "; deniedPaths may not overlap readonlyPaths/readwritePaths on vz"@,
        VzPolicyError::InvalidMemoryMb(n).text()
            == "experimental.vz.memoryMB must be at least 128 (got "@ + decimal(n as nat) + ")"@,
        VzPolicyError::InvalidBootTimeoutMs(n).text()
            == "experimental.vz.bootTimeoutMs must be at least 1 (got "@ + decimal(n as nat) + ")"@,
        VzPolicyError::InvalidCpuCount(count).text()
            == "experimental.vz.cpuCount must be at least 1 (got "@ + decimal(count as nat) + ")"@,
{
}

/// The messages about what the backend does not do.
pub proof fn messages_about_what_is_unsupported(level: ClipboardPolicy)
    ensures
        VzPolicyError::NotVzContainment.text()
            == "policy containment is not \"vz\"; this validator only accepts vz policies"@,
        VzPolicyError::ExperimentalRequired.text()
            == "containment \"vz\" requires the experimental flag to be enabled"@,
        VzPolicyError::UiAccessUnsupported.text()
            == "ui.disable: false is not supported by the vz backend: the guest VM has no WindowServer access"@,
        VzPolicyError::UiInjectionUnsupported.text()
            == "ui.injection is not supported by the vz backend: the guest VM has no WindowServer access"@,
        VzPolicyError::ProxyUnsupported.text()
            == "network.proxy is not supported by the vz backend in v1"@,
        VzPolicyError::BlockedHostsUnsupported.text()
            == "network.blockedHosts is not supported by the vz backend in v1; use defaultPolicy \"block\" with allowedHosts"@,
        VzPolicyError::ClipboardUnsupported(level).text() == "ui.clipboard level "@ + (match level {
            ClipboardPolicy::NoAccess => "None"@,
            ClipboardPolicy::Read => "Read"@,
            ClipboardPolicy::Write => "Write"@,
            ClipboardPolicy::All => "All"@,
        }) + " is not supported by the vz backend; only \"none\" is accepted"@,
{
}

} // verus!
