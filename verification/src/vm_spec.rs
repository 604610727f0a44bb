//! From policy to machine blueprint: the platform-neutral core of the virtual
//! machine's configuration.

use vstd::prelude::*;
use vstd::string::*;
use crate::paths::{join, joined, texts};
use crate::pattern::{pattern_of, HostPattern, PatternModel};
use crate::filter::pattern_models;
use crate::policy::{Filesystem, Network, NetworkDefaultPolicy, Policy, VzOptions};
use crate::text::{all_digits, decimal, decimal_value, push_decimal};
use crate::validate::ValidatedVzPolicy;

verus! {

/// The vsock port that the guest agent listens on.
pub const VSOCK_AGENT_PORT: u32 = 28024;

/// Kernel image file name inside the guest image directory.
pub const KERNEL_FILE: &'static str = "vmlinux";

/// Initramfs file name inside the guest image directory.
pub const INITRAMFS_FILE: &'static str = "initramfs.cpio.gz";

/// Serial console on virtio; reboot on panic, so that a crashed guest exits
/// instead of hanging until the boot timeout.
pub const KERNEL_CMDLINE: &'static str = "console=hvc0 panic=1";

/// Tells the guest to configure its interface statically, on the egress gate's own
/// little network.
pub const STATIC_NETWORK_ARGUMENT: &'static str = " mxc_net=static";

/// Bytes in a megabyte.
pub const MEGABYTE: u64 = 1_048_576;

#[derive(Clone, Debug, PartialEq, Eq)]
pub struct VirtioFsShare {
    pub tag: String,
    pub host_path: String,
    pub read_only: bool,
}

#[derive(Clone, Debug, PartialEq, Eq)]
pub enum NetworkMode {
    /// No network device at all.
    NoDevice,
    /// A plain NAT device.
    Nat,
    /// Egress restricted to the parsed allow list, enforced on the host side
    /// of the guest's frame stream.
    FilteredNat(Vec<HostPattern>),
}

#[derive(Clone, Debug, PartialEq, Eq)]
pub struct VmSpec {
    pub cpu_count: u32,
    pub memory_bytes: u64,
    pub kernel_path: String,
    pub initramfs_path: String,
    pub kernel_cmdline: String,
    pub shares: Vec<VirtioFsShare>,
    pub network: NetworkMode,
    pub vsock_agent_port: u32,
    pub boot_timeout_ms: u64,
}

/// What a share says.
#[verifier::ext_equal]
pub struct ShareModel {
    pub tag: Seq<char>,
    pub host_path: Seq<char>,
    pub read_only: bool,
}

impl View for VirtioFsShare {
    type V = ShareModel;

    open spec fn view(&self) -> ShareModel {
        ShareModel { tag: self.tag@, host_path: self.host_path@, read_only: self.read_only }
    }
}

/// What a network mode says.
pub enum NetworkModel {
    NoDevice,
    Nat,
    FilteredNat(Seq<PatternModel>),
}

impl View for NetworkMode {
    type V = NetworkModel;

    open spec fn view(&self) -> NetworkModel {
        match self {
            NetworkMode::NoDevice => NetworkModel::NoDevice,
            NetworkMode::Nat => NetworkModel::Nat,
            NetworkMode::FilteredNat(patterns) => NetworkModel::FilteredNat(
                pattern_models(patterns@),
            ),
        }
    }
}

/// What a blueprint says.
pub struct VmSpecModel {
    pub cpu_count: u32,
    pub memory_bytes: nat,
    pub kernel_path: Seq<char>,
    pub initramfs_path: Seq<char>,
    pub kernel_cmdline: Seq<char>,
    pub shares: Seq<ShareModel>,
    pub network: NetworkModel,
    pub vsock_agent_port: u32,
    pub boot_timeout_ms: u64,
}

pub open spec fn share_models(shares: Seq<VirtioFsShare>) -> Seq<ShareModel> {
    shares.map_values(|s: VirtioFsShare| s@)
}

impl View for VmSpec {
    type V = VmSpecModel;

    open spec fn view(&self) -> VmSpecModel {
        VmSpecModel {
            cpu_count: self.cpu_count,
            memory_bytes: self.memory_bytes as nat,
            kernel_path: self.kernel_path@,
            initramfs_path: self.initramfs_path@,
            kernel_cmdline: self.kernel_cmdline@,
            shares: share_models(self.shares@),
            network: self.network@,
            vsock_agent_port: self.vsock_agent_port,
            boot_timeout_ms: self.boot_timeout_ms,
        }
    }
}

impl NetworkMode {
    pub open spec fn wf(self) -> bool {
        self matches NetworkMode::FilteredNat(patterns) ==> forall|i: int|
            0 <= i < patterns@.len() ==> (#[trigger] patterns@[i]).wf()
    }
}

/// The tag of the share with this index.
pub open spec fn share_tag(index: nat) -> Seq<char> {
    "mxcfs"@ + decimal(index)
}

/// The shares of a policy: read-only paths first, then read-write ones, each
/// tagged by its index.
pub open spec fn shares_of(filesystem: Option<Filesystem>) -> Seq<ShareModel> {
    match filesystem {
        Some(fs) => {
            let readonly = texts(fs.readonly_paths@);
            let all = readonly + texts(fs.readwrite_paths@);
            Seq::new(
                all.len(),
                |i: int|
                    ShareModel {
                        tag: share_tag(i as nat),
                        host_path: all[i],
                        read_only: i < readonly.len(),
                    },
            )
        },
        None => Seq::empty(),
    }
}

/// The patterns of the entries that parse, in order.
pub open spec fn parsed_patterns(entries: Seq<Seq<char>>) -> Seq<PatternModel>
    decreases entries.len(),
{
    if entries.len() == 0 {
        Seq::empty()
    } else {
        let front = parsed_patterns(entries.drop_last());
        match pattern_of(entries.last()) {
            Ok(pattern) => front.push(pattern),
            Err(_) => front,
        }
    }
}

/// The network of a policy. Only an explicit allow attaches a plain NAT
/// device. Under block, an allow list requests filtered egress; if none of
/// its entries parses, there is no device. No default policy fails closed.
pub open spec fn network_of(network: Option<Network>) -> NetworkModel {
    match network {
        Some(network) => match network.default_policy {
            Some(NetworkDefaultPolicy::Allow) => NetworkModel::Nat,
            Some(NetworkDefaultPolicy::Block) => {
                let patterns = parsed_patterns(texts(network.allowed_hosts@));
                if patterns.len() == 0 {
                    NetworkModel::NoDevice
                } else {
                    NetworkModel::FilteredNat(patterns)
                }
            },
            None => NetworkModel::NoDevice,
        },
        None => NetworkModel::NoDevice,
    }
}

/// The kernel command line: a guest behind the egress gate is told to
/// configure its network statically.
pub open spec fn cmdline_of(network: NetworkModel) -> Seq<char> {
    match network {
        NetworkModel::FilteredNat(_) => KERNEL_CMDLINE@ + STATIC_NETWORK_ARGUMENT@,
        _ => KERNEL_CMDLINE@,
    }
}

/// The directory that the guest image lives in.
pub open spec fn image_dir(options: VzOptions, default_dir: Seq<char>) -> Seq<char> {
    match options.guest_image_path {
        Some(path) => path@,
        None => default_dir,
    }
}

/// The blueprint of a policy's machine.
pub open spec fn vm_spec_of(
    policy: Policy,
    options: VzOptions,
    default_dir: Seq<char>,
) -> VmSpecModel {
    let dir = image_dir(options, default_dir);
    VmSpecModel {
        cpu_count: options.cpu_count,
        memory_bytes: options.memory_mb as nat * MEGABYTE as nat,
        kernel_path: joined(dir, KERNEL_FILE@),
        initramfs_path: joined(dir, INITRAMFS_FILE@),
        kernel_cmdline: cmdline_of(network_of(policy.network)),
        shares: shares_of(policy.filesystem),
        network: network_of(policy.network),
        vsock_agent_port: VSOCK_AGENT_PORT,
        boot_timeout_ms: options.boot_timeout_ms,
    }
}

fn make_share(index: usize, path: &String, read_only: bool) -> (share: VirtioFsShare)
    ensures
        share@ == (ShareModel {
            tag: share_tag(index as nat),
            host_path: path@,
            read_only,
        }),
{
    let mut tag: String = "mxcfs".to_string();
    push_decimal(&mut tag, index as u64);
    VirtioFsShare { tag, host_path: path.clone(), read_only }
}

fn build_shares(filesystem: &Option<Filesystem>) -> (shares: Vec<VirtioFsShare>)
    ensures
        share_models(shares@) == shares_of(*filesystem),
{
    let mut shares: Vec<VirtioFsShare> = Vec::new();
    if let Some(fs) = filesystem {
        let ghost whole = shares_of(*filesystem);
        let mut i: usize = 0;
        while i < fs.readonly_paths.len()
            invariant
                i <= fs.readonly_paths@.len(),
                shares@.len() == i,
                whole == shares_of(Some(*fs)),
                share_models(shares@) == whole.subrange(0, i as int),
            decreases fs.readonly_paths@.len() - i,
        {
            shares.push(make_share(i, &fs.readonly_paths[i], true));
            i = i + 1;
            assert(share_models(shares@) =~= whole.subrange(0, i as int));
        }
        let mut k: usize = 0;
        while k < fs.readwrite_paths.len()
            invariant
                k <= fs.readwrite_paths@.len(),
                shares@.len() == fs.readonly_paths@.len() + k,
                whole == shares_of(Some(*fs)),
                share_models(shares@) == whole.subrange(0, fs.readonly_paths@.len() + k),
            decreases fs.readwrite_paths@.len() - k,
        {
            shares.push(make_share(shares.len(), &fs.readwrite_paths[k], false));
            k = k + 1;
            assert(share_models(shares@) =~= whole.subrange(0, fs.readonly_paths@.len() + k));
        }
        assert(share_models(shares@) =~= whole);
    } else {
        assert(share_models(shares@) =~= Seq::empty());
    }
    shares
}

fn build_network(network: &Option<Network>) -> (mode: NetworkMode)
    ensures
        mode.wf(),
        mode@ == network_of(*network),
{
    match network {
        Some(network) => match network.default_policy {
            Some(NetworkDefaultPolicy::Allow) => NetworkMode::Nat,
            Some(NetworkDefaultPolicy::Block) => {
                let ghost entries = texts(network.allowed_hosts@);
                let mut patterns: Vec<HostPattern> = Vec::new();
                let mut i: usize = 0;
                assert(pattern_models(patterns@) =~= parsed_patterns(entries.subrange(0, 0)));
                while i < network.allowed_hosts.len()
                    invariant
                        i <= network.allowed_hosts@.len(),
                        entries == texts(network.allowed_hosts@),
                        pattern_models(patterns@) == parsed_patterns(
                            entries.subrange(0, i as int),
                        ),
                        forall|j: int|
                            0 <= j < patterns@.len() ==> (#[trigger] patterns@[j]).wf(),
                    decreases network.allowed_hosts@.len() - i,
                {
                    assert(entries.subrange(0, i + 1).drop_last() =~= entries.subrange(
                        0,
                        i as int,
                    ));
                    if let Ok(pattern) = HostPattern::parse(network.allowed_hosts[i].as_str()) {
                        let ghost before = patterns@;
                        patterns.push(pattern);
                        assert(pattern_models(patterns@) =~= pattern_models(before).push(
                            pattern@,
                        ));
                    }
                    i = i + 1;
                }
                assert(entries.subrange(0, i as int) =~= entries);
                if patterns.len() == 0 {
                    NetworkMode::NoDevice
                } else {
                    NetworkMode::FilteredNat(patterns)
                }
            },
            None => NetworkMode::NoDevice,
        },
        None => NetworkMode::NoDevice,
    }
}

/// Builds the platform-neutral machine blueprint from a validated policy.
///
/// Denied paths are enforced by absence: they never become devices.
pub fn build_vm_spec(
    policy: &Policy,
    validated: &ValidatedVzPolicy,
    default_guest_image_dir: &str,
) -> (spec: VmSpec)
    requires
        validated.options.memory_mb * MEGABYTE <= u64::MAX,
    ensures
        spec.network.wf(),
        spec@ == vm_spec_of(*policy, validated.options, default_guest_image_dir@),
{
    let options: &VzOptions = &validated.options;
    let dir: &str = match &options.guest_image_path {
        Some(path) => path.as_str(),
        None => default_guest_image_dir,
    };
    let network: NetworkMode = build_network(&policy.network);
    let mut kernel_cmdline: String = KERNEL_CMDLINE.to_string();
    if let NetworkMode::FilteredNat(_) = &network {
        kernel_cmdline.append(STATIC_NETWORK_ARGUMENT);
    }
    VmSpec {
        cpu_count: options.cpu_count,
        memory_bytes: options.memory_mb * MEGABYTE,
        kernel_path: join(dir, KERNEL_FILE),
        initramfs_path: join(dir, INITRAMFS_FILE),
        kernel_cmdline,
        shares: build_shares(&policy.filesystem),
        network,
        vsock_agent_port: VSOCK_AGENT_PORT,
        boot_timeout_ms: options.boot_timeout_ms,
    }
}

// ---------------------------------------------------------------------------
// Laws
// ---------------------------------------------------------------------------

/// The decimal digits of a number spell it.
pub proof fn decimal_spells_the_number(n: nat)
    ensures
        decimal_value(decimal(n)) == n,
        decimal(n).len() > 0,
    decreases n,
{
    let d = decimal(n);
    reveal_with_fuel(decimal_value, 2);
    if n < 10 {
        assert(d.drop_last() =~= Seq::empty());
    } else {
        decimal_spells_the_number(n / 10);
        assert(d.drop_last() =~= decimal(n / 10));
    }
}

/// No two shares of a machine have the same tag.
pub proof fn tags_are_distinct(filesystem: Option<Filesystem>, i: int, j: int)
    requires
        0 <= i < j < shares_of(filesystem).len(),
    ensures
        shares_of(filesystem)[i].tag != shares_of(filesystem)[j].tag,
{
    let a = share_tag(i as nat);
    let b = share_tag(j as nat);
    if a == b {
        let lead = "mxcfs"@.len() as int;
        assert(a.skip(lead) =~= decimal(i as nat));
        assert(b.skip(lead) =~= decimal(j as nat));
        decimal_spells_the_number(i as nat);
        decimal_spells_the_number(j as nat);
    }
}

/// Every share is one of the policy's read-only or read-write paths, and only
/// the read-write ones can be written to: denied paths never become devices.
pub proof fn shares_come_from_the_policy(fs: Filesystem, i: int)
    requires
        0 <= i < shares_of(Some(fs)).len(),
    ensures
        shares_of(Some(fs))[i].read_only ==> texts(fs.readonly_paths@).contains(
            shares_of(Some(fs))[i].host_path,
        ),
        !shares_of(Some(fs))[i].read_only ==> texts(fs.readwrite_paths@).contains(
            shares_of(Some(fs))[i].host_path,
        ),
        shares_of(Some(fs)).len() == fs.readonly_paths@.len() + fs.readwrite_paths@.len(),
{
    let readonly = texts(fs.readonly_paths@);
    let readwrite = texts(fs.readwrite_paths@);
    if i < readonly.len() {
        assert(readonly[i] == shares_of(Some(fs))[i].host_path);
    } else {
        assert(readwrite[i - readonly.len()] == shares_of(Some(fs))[i].host_path);
    }
}

/// Only an explicit default of allow gives the guest unfiltered network.
pub proof fn plain_nat_is_explicit(network: Option<Network>)
    ensures
        network_of(network) is Nat <==> (network is Some && (network->0).default_policy == Some(
            NetworkDefaultPolicy::Allow,
        )),
{
}

/// A filtered network has at least one pattern: an empty filter is no device.
pub proof fn filtered_network_has_patterns(network: Option<Network>)
    ensures
        network_of(network) matches NetworkModel::FilteredNat(patterns) ==> patterns.len() > 0,
{
}

/// The shares of a policy, one by one: the read-only paths come first, in
/// order, each as a read-only share of itself; then the read-write paths, in
/// order, each as a writable share of itself; and there are no others. Each is
/// tagged `mxcfs` and its index.
pub proof fn shares_are_the_paths(fs: Filesystem, i: int)
    ensures
        shares_of(None) == Seq::<ShareModel>::empty(),
        shares_of(Some(fs)).len() == fs.readonly_paths@.len() + fs.readwrite_paths@.len(),
        0 <= i < fs.readonly_paths@.len() ==> shares_of(Some(fs))[i].host_path
            == fs.readonly_paths@[i]@ && shares_of(Some(fs))[i].read_only,
        0 <= i < fs.readwrite_paths@.len() ==> shares_of(Some(fs))[fs.readonly_paths@.len()
            + i].host_path == fs.readwrite_paths@[i]@ && !shares_of(
            Some(fs),
        )[fs.readonly_paths@.len() + i].read_only,
        0 <= i < shares_of(Some(fs)).len() ==> shares_of(Some(fs))[i].tag.subrange(0, 5) == seq![
            'm',
            'x',
            'c',
            'f',
            's',
        ] && all_digits(shares_of(Some(fs))[i].tag.skip(5)) && decimal_value(
            shares_of(Some(fs))[i].tag.skip(5),
        ) == i,
{
    if 0 <= i < shares_of(Some(fs)).len() {
        let tag = shares_of(Some(fs))[i].tag;
        reveal_strlit("mxcfs");
        assert("mxcfs"@ =~= seq!['m', 'x', 'c', 'f', 's']);
        assert(tag.subrange(0, 5) =~= "mxcfs"@);
        assert(tag.skip(5) =~= decimal(i as nat));
        decimal_spells_the_number(i as nat);
        decimal_is_digits(i as nat);
    }
}

/// Decimal text is digits, and begins with a zero only for zero itself.
pub proof fn decimal_is_digits(n: nat)
    ensures
        all_digits(decimal(n)),
        decimal(n).len() > 1 ==> decimal(n)[0] != '0',
    decreases n,
{
    if n >= 10 {
        decimal_is_digits(n / 10);
        decimal_spells_the_number(n / 10);
        if decimal(n / 10).len() == 1 {
            assert(decimal(n / 10).drop_last() =~= Seq::empty());
            reveal_with_fuel(decimal_value, 2);
            assert(decimal(n / 10)[0] as nat - 48 == n / 10);
        }
    }
}

/// Which patterns a filtered network has, told entry by entry: one that parses
/// is kept as what it parses to, one that does not is left out, and the
/// patterns of two lists in a row are those of each, in order.
pub proof fn patterns_are_the_parsed_entries(
    entry: Seq<char>,
    front: Seq<Seq<char>>,
    back: Seq<Seq<char>>,
)
    ensures
        parsed_patterns(Seq::empty()) == Seq::<PatternModel>::empty(),
        parsed_patterns(seq![entry]) == match pattern_of(entry) {
            Ok(pattern) => seq![pattern],
            Err(_) => Seq::empty(),
        },
        parsed_patterns(front + back) == parsed_patterns(front) + parsed_patterns(back),
    decreases back.len(),
{
    reveal_with_fuel(parsed_patterns, 2);
    assert(seq![entry].drop_last() =~= Seq::empty());
    assert(parsed_patterns(seq![entry]) =~= match pattern_of(entry) {
        Ok(pattern) => seq![pattern],
        Err(_) => Seq::empty(),
    });
    let all = front + back;
    if back.len() == 0 {
        assert(all =~= front);
        assert(parsed_patterns(front) + parsed_patterns(back) =~= parsed_patterns(front));
    } else {
        assert(all.drop_last() =~= front + back.drop_last());
        patterns_are_the_parsed_entries(entry, front, back.drop_last());
        assert(parsed_patterns(all) =~= parsed_patterns(front) + parsed_patterns(back));
    }
}

/// Which network a policy gets: plain NAT under allow; under block a filtered
/// one with the patterns of its allow list, where any of its entries parses;
/// and otherwise no device at all.
pub proof fn networks_follow_the_default_policy(network: Network, i: int)
    ensures
        network_of(None) is NoDevice,
        network.default_policy == Some(NetworkDefaultPolicy::Allow) <==> network_of(
            Some(network),
        ) is Nat,
        network.default_policy is None ==> network_of(Some(network)) is NoDevice,
        network_of(Some(network)) matches NetworkModel::FilteredNat(patterns) ==> patterns
            == parsed_patterns(texts(network.allowed_hosts@)) && network.default_policy == Some(
            NetworkDefaultPolicy::Block,
        ),
        network.default_policy == Some(NetworkDefaultPolicy::Block) && 0 <= i
            < network.allowed_hosts@.len() && pattern_of(network.allowed_hosts@[i]@) is Ok
            ==> network_of(Some(network)) is FilteredNat,
{
    let entries = texts(network.allowed_hosts@);
    if 0 <= i < entries.len() && pattern_of(entries[i]) is Ok {
        let front = entries.subrange(0, i);
        let back = entries.skip(i + 1);
        let one = seq![entries[i]];
        assert(entries =~= front + one + back);
        patterns_are_the_parsed_entries(entries[i], front, one);
        patterns_are_the_parsed_entries(entries[i], front + one, back);
    }
}

/// What a blueprint takes from the options: processors and boot timeout as they
/// are, memory in units of 1048576 bytes, and kernel and initramfs by their
/// file names in the directory that the options name, else in the default one.
/// The agent listens on port 28024. The kernel writes to the virtual console
/// and restarts when it panics; only behind a filter it is told to set up its
/// network by itself.
pub proof fn blueprints_follow_the_options(
    policy: Policy,
    options: VzOptions,
    default_dir: Seq<char>,
)
    ensures
        ({
            let spec = vm_spec_of(policy, options, default_dir);
            let dir = match options.guest_image_path {
                Some(path) => path@,
                None => default_dir,
            };
            let under = if dir.len() == 0 || dir.last() == '/' {
                dir
            } else {
                dir + seq!['/']
            };
            &&& spec.cpu_count == options.cpu_count
            &&& spec.memory_bytes == options.memory_mb * 1_048_576
            &&& spec.boot_timeout_ms == options.boot_timeout_ms
            &&& spec.kernel_path == under + "vmlinux"@
            &&& spec.initramfs_path == under + "initramfs.cpio.gz"@
            &&& spec.vsock_agent_port == 28024
            &&& spec.shares == shares_of(policy.filesystem)
            &&& spec.network == network_of(policy.network)
            &&& spec.kernel_cmdline == (if spec.network is FilteredNat {
                "console=hvc0 panic=1"@ + " mxc_net=static"@
            } else {
                "console=hvc0 panic=1"@
            })
        }),
{
    let dir = image_dir(options, default_dir);
    if !(dir.len() == 0 || dir.last() == '/') {
        assert(dir.push('/') =~= dir + seq!['/']);
    }
}

} // verus!
