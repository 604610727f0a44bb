//! From policy to machine blueprint.

use vz_backend::pattern::HostPattern;
use vz_backend::policy::{
    Containment, Experimental, Filesystem, Network, NetworkDefaultPolicy, Policy, VzOptions,
};
use vz_backend::validate::validate_vz_policy;
use vz_backend::vm_spec::{
    build_vm_spec, NetworkMode, VmSpec, INITRAMFS_FILE, KERNEL_FILE, VSOCK_AGENT_PORT,
};

fn vz() -> Policy {
    Policy { containment: Some(Containment::Vz), ..Policy::default() }
}

fn strings(items: &[&str]) -> Vec<String> {
    items.iter().map(|s| s.to_string()).collect()
}

fn spec_for(policy: &Policy) -> VmSpec {
    let validated = validate_vz_policy(policy, true).expect("test policy should validate");
    build_vm_spec(policy, &validated, "/opt/mxc/vz-guest")
}

fn spec_with_network(default_policy: Option<NetworkDefaultPolicy>, allowed: &[&str]) -> VmSpec {
    spec_for(&Policy {
        network: Some(Network {
            default_policy,
            allowed_hosts: strings(allowed),
            ..Network::default()
        }),
        ..vz()
    })
}

#[test]
fn minimal_policy_yields_default_spec() {
    let spec = spec_for(&vz());
    assert_eq!(spec.cpu_count, 2);
    assert_eq!(spec.memory_bytes, 2048 * 1024 * 1024);
    assert_eq!(spec.boot_timeout_ms, 30000);
    assert_eq!(spec.network, NetworkMode::NoDevice);
    assert!(spec.shares.is_empty());
    assert_eq!(spec.vsock_agent_port, VSOCK_AGENT_PORT);
}

#[test]
fn kernel_and_initramfs_live_under_default_guest_image_dir() {
    let spec = spec_for(&vz());
    assert_eq!(spec.kernel_path, format!("/opt/mxc/vz-guest/{KERNEL_FILE}"));
    assert_eq!(spec.initramfs_path, format!("/opt/mxc/vz-guest/{INITRAMFS_FILE}"));
}

#[test]
fn guest_image_path_option_overrides_default_dir() {
    let spec = spec_for(&Policy {
        experimental: Some(Experimental {
            vz: Some(VzOptions {
                guest_image_path: Some("/custom/guest".to_string()),
                ..VzOptions::default()
            }),
        }),
        ..vz()
    });
    assert_eq!(spec.kernel_path, "/custom/guest/vmlinux");
    assert_eq!(spec.initramfs_path, "/custom/guest/initramfs.cpio.gz");
}

#[test]
fn resource_options_map_to_spec() {
    let spec = spec_for(&Policy {
        experimental: Some(Experimental {
            vz: Some(VzOptions {
                guest_image_path: None,
                cpu_count: 4,
                memory_mb: 4096,
                boot_timeout_ms: 5000,
            }),
        }),
        ..vz()
    });
    assert_eq!(spec.cpu_count, 4);
    assert_eq!(spec.memory_bytes, 4096 * 1024 * 1024);
    assert_eq!(spec.boot_timeout_ms, 5000);
}

#[test]
fn network_allow_attaches_nat() {
    let spec = spec_with_network(Some(NetworkDefaultPolicy::Allow), &[]);
    assert_eq!(spec.network, NetworkMode::Nat);
}

#[test]
fn network_block_means_no_device() {
    let spec = spec_with_network(Some(NetworkDefaultPolicy::Block), &[]);
    assert_eq!(spec.network, NetworkMode::NoDevice);
}

#[test]
fn network_block_absent_default_policy_means_no_device() {
    // A network block without defaultPolicy must fail closed.
    let spec = spec_with_network(None, &[]);
    assert_eq!(spec.network, NetworkMode::NoDevice);
    let spec = spec_with_network(None, &["1.2.3.4"]);
    assert_eq!(spec.network, NetworkMode::NoDevice);
}

#[test]
fn allowed_hosts_under_block_filter_the_network() {
    let spec = spec_with_network(
        Some(NetworkDefaultPolicy::Block),
        &["10.0.0.0/99", "API.example.com", "", "1.2.3.4"],
    );
    assert_eq!(
        spec.network,
        NetworkMode::FilteredNat(vec![
            HostPattern::parse("api.example.com").unwrap(),
            HostPattern::parse("1.2.3.4").unwrap(),
        ])
    );
    assert_eq!(spec.kernel_cmdline, "console=hvc0 panic=1 mxc_net=static");
    // If nothing survives, device absence beats an empty filter.
    let spec = spec_with_network(Some(NetworkDefaultPolicy::Block), &["", "x/y"]);
    assert_eq!(spec.network, NetworkMode::NoDevice);
    // Under allow the list is a no-op.
    let spec = spec_with_network(Some(NetworkDefaultPolicy::Allow), &["1.2.3.4"]);
    assert_eq!(spec.network, NetworkMode::Nat);
}

#[test]
fn filesystem_paths_become_tagged_shares() {
    let spec = spec_for(&Policy {
        filesystem: Some(Filesystem {
            readonly_paths: strings(&["/usr/share/data"]),
            readwrite_paths: strings(&["/workspace", "/scratch"]),
            denied_paths: Vec::new(),
        }),
        ..vz()
    });
    // Readonly shares first, then readwrite; tags deterministic by index.
    assert_eq!(spec.shares.len(), 3);

    assert_eq!(spec.shares[0].tag, "mxcfs0");
    assert_eq!(spec.shares[0].host_path, "/usr/share/data");
    assert!(spec.shares[0].read_only);

    assert_eq!(spec.shares[1].tag, "mxcfs1");
    assert_eq!(spec.shares[1].host_path, "/workspace");
    assert!(!spec.shares[1].read_only);

    assert_eq!(spec.shares[2].tag, "mxcfs2");
    assert_eq!(spec.shares[2].host_path, "/scratch");
    assert!(!spec.shares[2].read_only);
}

#[test]
fn tags_stay_distinct_past_ten_shares() {
    let paths: Vec<String> = (0..12).map(|i| format!("/p{i}")).collect();
    let spec = spec_for(&Policy {
        filesystem: Some(Filesystem { readwrite_paths: paths, ..Filesystem::default() }),
        ..vz()
    });
    assert_eq!(spec.shares[9].tag, "mxcfs9");
    assert_eq!(spec.shares[10].tag, "mxcfs10");
    assert_eq!(spec.shares[11].tag, "mxcfs11");
}

#[test]
fn denied_paths_produce_no_share() {
    // Denial is by absence: deniedPaths never become devices.
    let spec = spec_for(&Policy {
        filesystem: Some(Filesystem {
            readwrite_paths: strings(&["/workspace"]),
            denied_paths: strings(&["/etc/secrets"]),
            ..Filesystem::default()
        }),
        ..vz()
    });
    assert_eq!(spec.shares.len(), 1);
    assert_eq!(spec.shares[0].host_path, "/workspace");
}

#[test]
fn kernel_cmdline_uses_serial_console() {
    let spec = spec_for(&vz());
    assert!(
        spec.kernel_cmdline.contains("console=hvc0"),
        "cmdline {:?} must route the console to virtio (hvc0)",
        spec.kernel_cmdline
    );
}
