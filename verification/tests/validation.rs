//! Validation of vz policies.

use vz_backend::paths::{join, path_contains, path_has_interior_nul, path_is_absolute};
use vz_backend::policy::{
    ClipboardPolicy, Containment, Experimental, Filesystem, Network, NetworkDefaultPolicy, Policy,
    Proxy, Ui, VzOptions,
};
use vz_backend::validate::{validate_vz_policy, ValidatedVzPolicy, VzPolicyError, Warning};

fn vz() -> Policy {
    Policy { containment: Some(Containment::Vz), ..Policy::default() }
}

fn strings(items: &[&str]) -> Vec<String> {
    items.iter().map(|s| s.to_string()).collect()
}

fn with_options(options: VzOptions) -> Policy {
    Policy { experimental: Some(Experimental { vz: Some(options) }), ..vz() }
}

fn with_fs(readonly: &[&str], readwrite: &[&str], denied: &[&str]) -> Policy {
    Policy {
        filesystem: Some(Filesystem {
            readonly_paths: strings(readonly),
            readwrite_paths: strings(readwrite),
            denied_paths: strings(denied),
        }),
        ..vz()
    }
}

fn with_network(network: Network) -> Policy {
    Policy { network: Some(network), ..vz() }
}

fn with_ui(ui: Ui) -> Policy {
    Policy { ui: Some(ui), ..vz() }
}

fn valid(policy: &Policy) -> ValidatedVzPolicy {
    validate_vz_policy(policy, true).expect("should validate")
}

fn errors_of(policy: &Policy) -> Vec<VzPolicyError> {
    validate_vz_policy(policy, true).expect_err("validation should fail")
}

#[test]
fn containment_is_component_wise() {
    assert!(path_contains("/workspace", "/workspace"));
    assert!(path_contains("/workspace", "/workspace/a/b"));
    assert!(path_contains("/workspace/", "/workspace/a"));
    assert!(!path_contains("/workspace", "/workspace-2"));
    assert!(!path_contains("/workspace/a", "/workspace"));
}

#[test]
fn containment_is_case_insensitive() {
    assert!(path_contains("/workspace", "/Workspace/secrets"));
    assert!(path_contains("/WORKSPACE", "/workspace/a"));
    assert!(!path_contains("/workspace", "/Workspace-2"));
}

#[test]
fn interior_nul_is_detected() {
    assert!(!path_has_interior_nul("/workspace"));
    assert!(path_has_interior_nul("/safe\0/../etc"));
}

#[test]
fn path_components_skip_dots_and_empty_pieces() {
    assert!(path_contains("/a//b/./", "/a/b/c"));
    assert!(path_contains("/", "/anything"));
    assert!(path_contains("a", "a/./b"));
    assert!(!path_contains("./a", "a"));
    assert!(!path_contains("a", "/a"));
    assert!(!path_contains("/a/../b", "/b"));
    assert!(path_contains("", "x"));
}

#[test]
fn joining_adds_one_slash() {
    assert_eq!(join("/opt/mxc", "vmlinux"), "/opt/mxc/vmlinux");
    assert_eq!(join("/opt/mxc/", "vmlinux"), "/opt/mxc/vmlinux");
    assert_eq!(join("", "vmlinux"), "vmlinux");
    assert!(path_is_absolute("/x"));
    assert!(!path_is_absolute("x/"));
    assert!(!path_is_absolute(""));
}

#[test]
fn joined_paths_lie_below_their_directory() {
    for dir in ["/workspace", "/workspace/", "/", "a/b", ".", ""] {
        for file in ["x", "x/y", "./x", ""] {
            assert!(path_contains(dir, &join(dir, file)), "{dir:?} {file:?}");
        }
    }
}

#[test]
fn case_and_trailing_slash_do_not_change_containment() {
    for (a, b, below) in [("/Work/a", "/wOrk/A/c", true), ("/work/a", "/work/b", false)] {
        assert_eq!(path_contains(a, b), below);
        assert_eq!(path_contains(&a.to_ascii_uppercase(), b), below);
        assert_eq!(path_contains(a, &b.to_ascii_uppercase()), below);
        assert_eq!(path_contains(&format!("{a}/"), b), below);
        assert_eq!(path_contains(a, &format!("{b}/")), below);
    }
}

#[test]
fn the_missing_flag_is_exactly_one_error_more() {
    let mut policy = with_fs(&["relative"], &[], &[]);
    policy.containment = Some(Containment::Lxc);
    let mut errors = validate_vz_policy(&policy, true).unwrap_err();
    errors.insert(1, VzPolicyError::ExperimentalRequired);
    assert_eq!(validate_vz_policy(&policy, false).unwrap_err(), errors);
}

#[test]
fn minimal_policy_validates_with_defaults() {
    let validated = valid(&vz());
    assert_eq!(validated.options.cpu_count, 2);
    assert_eq!(validated.options.memory_mb, 2048);
    assert_eq!(validated.options.boot_timeout_ms, 30000);
    assert!(validated.warnings.is_empty());
}

#[test]
fn vz_requires_experimental_flag() {
    let errors = validate_vz_policy(&vz(), false)
        .expect_err("vz without the experimental flag must fail");
    assert!(errors.contains(&VzPolicyError::ExperimentalRequired));
}

#[test]
fn non_vz_containment_is_rejected_by_vz_validator() {
    let errors = errors_of(&Policy {
        containment: Some(Containment::Seatbelt),
        ..Policy::default()
    });
    assert!(errors.contains(&VzPolicyError::NotVzContainment));
}

#[test]
fn absent_containment_is_rejected_by_vz_validator() {
    let errors = errors_of(&Policy::default());
    assert!(errors.contains(&VzPolicyError::NotVzContainment));
}

#[test]
fn explicit_options_are_resolved() {
    let validated = valid(&with_options(VzOptions {
        cpu_count: 4,
        memory_mb: 8192,
        ..VzOptions::default()
    }));
    assert_eq!(validated.options.cpu_count, 4);
    assert_eq!(validated.options.memory_mb, 8192);
    assert_eq!(validated.options.boot_timeout_ms, 30000);
}

#[test]
fn ui_disable_false_is_rejected() {
    let errors = errors_of(&with_ui(Ui { disable: Some(false), ..Ui::default() }));
    assert!(errors.contains(&VzPolicyError::UiAccessUnsupported));
}

#[test]
fn ui_disable_true_is_accepted() {
    let validated = valid(&with_ui(Ui { disable: Some(true), ..Ui::default() }));
    assert!(validated.warnings.is_empty());
}

#[test]
fn ui_injection_true_is_rejected() {
    let errors = errors_of(&with_ui(Ui { injection: Some(true), ..Ui::default() }));
    assert!(errors.contains(&VzPolicyError::UiInjectionUnsupported));
}

#[test]
fn clipboard_other_than_none_is_rejected() {
    for level in [ClipboardPolicy::Read, ClipboardPolicy::Write, ClipboardPolicy::All] {
        let errors = errors_of(&with_ui(Ui { clipboard: Some(level), ..Ui::default() }));
        assert!(
            errors.iter().any(|e| matches!(e, VzPolicyError::ClipboardUnsupported(_))),
            "clipboard level {level:?} must be rejected"
        );
    }
}

#[test]
fn clipboard_none_is_accepted() {
    let validated =
        valid(&with_ui(Ui { clipboard: Some(ClipboardPolicy::NoAccess), ..Ui::default() }));
    assert!(validated.warnings.is_empty());
}

#[test]
fn network_proxy_is_rejected() {
    let errors = errors_of(&with_network(Network {
        default_policy: Some(NetworkDefaultPolicy::Block),
        proxy: Some(Proxy {
            url: Some("http://10.0.3.1:3128".to_string()),
            ..Proxy::default()
        }),
        ..Network::default()
    }));
    assert!(errors.contains(&VzPolicyError::ProxyUnsupported));
}

#[test]
fn blocked_hosts_are_rejected_in_v1() {
    let errors = errors_of(&with_network(Network {
        default_policy: Some(NetworkDefaultPolicy::Allow),
        blocked_hosts: strings(&["evil.example.com"]),
        ..Network::default()
    }));
    assert!(errors.contains(&VzPolicyError::BlockedHostsUnsupported));
}

#[test]
fn empty_blocked_hosts_list_is_accepted() {
    valid(&with_network(Network {
        default_policy: Some(NetworkDefaultPolicy::Allow),
        blocked_hosts: Vec::new(),
        ..Network::default()
    }));
}

#[test]
fn allowed_hosts_are_accepted() {
    valid(&with_network(Network {
        default_policy: Some(NetworkDefaultPolicy::Allow),
        allowed_hosts: strings(&["api.example.com"]),
        ..Network::default()
    }));
}

#[test]
fn enforcement_mode_warns_and_is_ignored() {
    let validated = valid(&with_network(Network {
        default_policy: Some(NetworkDefaultPolicy::Block),
        enforcement_mode: Some("firewall".to_string()),
        ..Network::default()
    }));
    assert!(validated
        .warnings
        .contains(&Warning::IgnoredField("network.enforcementMode".to_string())));
}

#[test]
fn allowed_hosts_under_block_validate_clean() {
    let validated = valid(&with_network(Network {
        default_policy: Some(NetworkDefaultPolicy::Block),
        allowed_hosts: strings(&["140.82.112.22", "10.1.0.0/16", "api.github.com"]),
        ..Network::default()
    }));
    assert!(validated.warnings.is_empty(), "got: {:?}", validated.warnings);
}

#[test]
fn allowed_hosts_under_allow_warn_redundant() {
    let validated = valid(&with_network(Network {
        default_policy: Some(NetworkDefaultPolicy::Allow),
        allowed_hosts: strings(&["api.github.com"]),
        ..Network::default()
    }));
    assert!(validated.warnings.contains(&Warning::RedundantAllowedHosts));
}

#[test]
fn invalid_allowed_hosts_entries_warn_skipped() {
    let validated = valid(&with_network(Network {
        default_policy: Some(NetworkDefaultPolicy::Block),
        allowed_hosts: strings(&["10.0.0.0/99", "", "api.github.com"]),
        ..Network::default()
    }));
    assert!(validated
        .warnings
        .contains(&Warning::SkippedAllowedHost("10.0.0.0/99".to_string())));
    assert!(validated.warnings.contains(&Warning::SkippedAllowedHost("".to_string())));
    assert_eq!(
        validated
            .warnings
            .iter()
            .filter(|w| matches!(w, Warning::SkippedAllowedHost(_)))
            .count(),
        2,
        "the valid hostname entry must not be skipped"
    );
}

#[test]
fn foreign_backend_blocks_warn_and_are_ignored() {
    let validated = valid(&Policy { seatbelt: true, lxc: true, ..vz() });
    assert!(validated.warnings.contains(&Warning::IgnoredField("seatbelt".to_string())));
    assert!(validated.warnings.contains(&Warning::IgnoredField("lxc".to_string())));
}

#[test]
fn warnings_come_in_a_fixed_order() {
    let mut policy = with_fs(&["/ro"], &[], &["/x"]);
    policy.seatbelt = true;
    policy.process_container = true;
    policy.network = Some(Network {
        default_policy: Some(NetworkDefaultPolicy::Allow),
        allowed_hosts: strings(&[" "]),
        enforcement_mode: Some("both".to_string()),
        ..Network::default()
    });
    assert_eq!(
        valid(&policy).warnings,
        vec![
            Warning::IgnoredField("network.enforcementMode".to_string()),
            Warning::RedundantAllowedHosts,
            Warning::SkippedAllowedHost(" ".to_string()),
            Warning::IgnoredField("seatbelt".to_string()),
            Warning::IgnoredField("processContainer".to_string()),
            Warning::RedundantDeniedPath("/x".to_string()),
        ]
    );
}

#[test]
fn all_errors_are_collected_not_just_the_first() {
    let mut policy = with_ui(Ui { disable: Some(false), injection: Some(true), clipboard: None });
    policy.network = Some(Network {
        default_policy: Some(NetworkDefaultPolicy::Allow),
        blocked_hosts: strings(&["evil.example.com"]),
        proxy: Some(Proxy { builtin_test_server: Some(true), ..Proxy::default() }),
        ..Network::default()
    });
    let errors = errors_of(&policy);
    assert!(errors.contains(&VzPolicyError::UiAccessUnsupported));
    assert!(errors.contains(&VzPolicyError::UiInjectionUnsupported));
    assert!(errors.contains(&VzPolicyError::ProxyUnsupported));
    assert!(errors.contains(&VzPolicyError::BlockedHostsUnsupported));
}

#[test]
fn errors_come_in_a_fixed_order() {
    let mut policy = with_fs(&["ro"], &["/w\0"], &["/W"]);
    policy.containment = Some(Containment::Lxc);
    policy.ui = Some(Ui { clipboard: Some(ClipboardPolicy::All), ..Ui::default() });
    policy.experimental = Some(Experimental {
        vz: Some(VzOptions {
            guest_image_path: None,
            cpu_count: 0,
            memory_mb: 127,
            boot_timeout_ms: 0,
        }),
    });
    assert_eq!(
        validate_vz_policy(&policy, false).unwrap_err(),
        vec![
            VzPolicyError::NotVzContainment,
            VzPolicyError::ExperimentalRequired,
            VzPolicyError::ClipboardUnsupported(ClipboardPolicy::All),
            VzPolicyError::NonAbsolutePath("ro".to_string()),
            VzPolicyError::PathContainsNul("/w\0".to_string()),
            VzPolicyError::InvalidCpuCount(0),
            VzPolicyError::InvalidMemoryMb(127),
            VzPolicyError::InvalidBootTimeoutMs(0),
        ]
    );
}

#[test]
fn denied_path_outside_shares_is_a_warning_not_an_error() {
    let validated = valid(&with_fs(&[], &["/workspace"], &["/etc/secrets"]));
    assert!(validated
        .warnings
        .contains(&Warning::RedundantDeniedPath("/etc/secrets".to_string())));
}

#[test]
fn denied_path_inside_readwrite_share_is_rejected() {
    let errors = errors_of(&with_fs(&[], &["/workspace"], &["/workspace/secrets"]));
    assert!(errors.contains(&VzPolicyError::DeniedPathInsideShare {
        denied: "/workspace/secrets".to_string(),
        share: "/workspace".to_string(),
    }));
}

#[test]
fn denied_path_inside_readonly_share_is_rejected() {
    let errors = errors_of(&with_fs(&["/usr/share/data"], &[], &["/usr/share/data/private"]));
    assert!(errors.contains(&VzPolicyError::DeniedPathInsideShare {
        denied: "/usr/share/data/private".to_string(),
        share: "/usr/share/data".to_string(),
    }));
}

#[test]
fn denied_path_equal_to_share_is_rejected() {
    let errors = errors_of(&with_fs(&[], &["/workspace"], &["/workspace"]));
    assert!(errors.contains(&VzPolicyError::DeniedPathInsideShare {
        denied: "/workspace".to_string(),
        share: "/workspace".to_string(),
    }));
}

#[test]
fn sibling_path_with_shared_prefix_is_not_inside() {
    let validated = valid(&with_fs(&[], &["/workspace"], &["/workspace-2"]));
    assert!(validated
        .warnings
        .contains(&Warning::RedundantDeniedPath("/workspace-2".to_string())));
}

#[test]
fn trailing_slash_does_not_defeat_containment_check() {
    let errors = errors_of(&with_fs(&[], &["/workspace/"], &["/workspace/secrets"]));
    assert!(
        errors.iter().any(|e| matches!(
            e,
            VzPolicyError::DeniedPathInsideShare { denied, .. } if denied == "/workspace/secrets"
        )),
        "trailing slash on the share must not defeat the nesting check"
    );
}

#[test]
fn case_variant_denied_path_inside_share_is_rejected() {
    let errors = errors_of(&with_fs(&[], &["/workspace"], &["/Workspace/Secrets"]));
    assert!(
        errors.iter().any(|e| matches!(
            e,
            VzPolicyError::DeniedPathInsideShare { denied, .. } if denied == "/Workspace/Secrets"
        )),
        "a case-variant deniedPath inside the share must be rejected"
    );
}

#[test]
fn first_share_that_holds_a_denied_path_is_named() {
    let errors = errors_of(&with_fs(&["/z", "/a"], &["/a/b"], &["/a/b/c"]));
    assert_eq!(
        errors,
        vec![VzPolicyError::DeniedPathInsideShare {
            denied: "/a/b/c".to_string(),
            share: "/a".to_string(),
        }]
    );
}

#[test]
fn interior_nul_in_a_path_is_rejected() {
    let errors = errors_of(&with_fs(&[], &["/safe\u{0000}/../etc"], &[]));
    assert!(
        errors.iter().any(|e| matches!(e, VzPolicyError::PathContainsNul(_))),
        "a path with an interior NUL must be rejected, got: {errors:?}"
    );
}

#[test]
fn relative_policy_paths_are_rejected() {
    let errors = errors_of(&with_fs(&[], &["workspace"], &[]));
    assert!(errors.contains(&VzPolicyError::NonAbsolutePath("workspace".to_string())));
}

#[test]
fn zero_cpu_count_is_rejected() {
    let errors = errors_of(&with_options(VzOptions { cpu_count: 0, ..VzOptions::default() }));
    assert!(errors.contains(&VzPolicyError::InvalidCpuCount(0)));
}

#[test]
fn too_small_memory_is_rejected() {
    let errors = errors_of(&with_options(VzOptions { memory_mb: 64, ..VzOptions::default() }));
    assert!(errors.contains(&VzPolicyError::InvalidMemoryMb(64)));
}

#[test]
fn zero_boot_timeout_is_rejected() {
    let errors = errors_of(&with_options(VzOptions { boot_timeout_ms: 0, ..VzOptions::default() }));
    assert!(errors.contains(&VzPolicyError::InvalidBootTimeoutMs(0)));
}

#[test]
fn validation_errors_render_human_readable_messages() {
    let cases: Vec<(VzPolicyError, &str)> = vec![
        (VzPolicyError::ExperimentalRequired, "experimental"),
        (VzPolicyError::UiAccessUnsupported, "ui.disable"),
        (VzPolicyError::UiInjectionUnsupported, "ui.injection"),
        (VzPolicyError::ClipboardUnsupported(ClipboardPolicy::Read), "ui.clipboard"),
        (VzPolicyError::ProxyUnsupported, "network.proxy"),
        (VzPolicyError::BlockedHostsUnsupported, "blockedHosts"),
        (
            VzPolicyError::DeniedPathInsideShare {
                denied: "/a/b".to_string(),
                share: "/a".to_string(),
            },
            "deniedPaths",
        ),
        (VzPolicyError::InvalidCpuCount(0), "cpuCount"),
        (VzPolicyError::InvalidMemoryMb(64), "memoryMB"),
        (VzPolicyError::InvalidBootTimeoutMs(0), "bootTimeoutMs"),
    ];
    for (error, needle) in cases {
        let message = error.message();
        assert!(
            message.contains(needle),
            "error message {message:?} should mention {needle:?}"
        );
    }
}

#[test]
fn validation_messages_are_exact() {
    assert_eq!(
        VzPolicyError::ClipboardUnsupported(ClipboardPolicy::Read).message(),
        "ui.clipboard level Read is not supported by the vz backend; only \"none\" is accepted"
    );
    assert_eq!(
        VzPolicyError::DeniedPathInsideShare { denied: "/a/b".to_string(), share: "/a".to_string() }
            .message(),
        "filesystem.deniedPaths entry /a/b is inside shared path /a; deniedPaths may not overlap readonlyPaths/readwritePaths on vz"
    );
    assert_eq!(
        VzPolicyError::InvalidMemoryMb(64).message(),
        "experimental.vz.memoryMB must be at least 128 (got 64)"
    );
    assert_eq!(
        VzPolicyError::NonAbsolutePath("w".to_string()).message(),
        "policy path w must be absolute"
    );
    assert_eq!(
        VzPolicyError::PathContainsNul("/x".to_string()).message(),
        "policy path /x contains a NUL byte"
    );
    assert_eq!(
        VzPolicyError::NotVzContainment.message(),
        "policy containment is not \"vz\"; this validator only accepts vz policies"
    );
}
