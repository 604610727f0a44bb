//! The allowed-IP set. [`EgressFilter::allows_ip`] is the enforcement
//! decision, made against the destination IP. DNS answers never decide
//! anything: [`EgressFilter::observe_dns`] only admits an IP into the dynamic
//! set when the *queried name* is allow-listed, and only for a bounded TTL,
//! so the set tracks re-resolution instead of growing monotonically.
//!
//! Times are nanoseconds on one monotonic clock; an expiry is wider than the
//! clock, so that no answer can run past it.

use vstd::prelude::*;
use crate::ip::IpAddr;
use crate::pattern::{
    hostname_form, normalize_hostname, normalize_ip, unmapped, HostPattern, IpCidr,
    PatternModel,
};

verus! {

/// Upper TTL bound, 300 s: a record claiming a day of validity still expires
/// here, forcing re-resolution of long-lived flows' targets.
pub const MAX_DNS_TTL: u64 = 300_000_000_000;

/// Lower TTL bound, 1 s: a 0-TTL answer must still leave the guest a window
/// to act on the resolution it just received.
pub const MIN_DNS_TTL: u64 = 1_000_000_000;

/// `ttl` brought between the two bounds.
pub open spec fn clamped_ttl(ttl: u64) -> u64 {
    if ttl < MIN_DNS_TTL {
        MIN_DNS_TTL
    } else if ttl > MAX_DNS_TTL {
        MAX_DNS_TTL
    } else {
        ttl
    }
}

/// What a filter knows.
#[verifier::ext_equal]
pub struct FilterModel {
    /// Addresses that are always allowed.
    pub static_ips: Seq<IpAddr>,
    /// Blocks that are always allowed.
    pub cidrs: Seq<IpCidr>,
    /// Allow-listed names, normalized.
    pub hostnames: Seq<Seq<char>>,
    /// Addresses that DNS admitted, each with its expiry.
    pub dynamic: Map<IpAddr, u128>,
}

impl FilterModel {
    /// May the guest reach `destination` at `now`?
    pub open spec fn permits(self, destination: IpAddr, now: u64) -> bool {
        let ip = unmapped(destination);
        ||| self.static_ips.contains(ip)
        ||| exists|i: int| 0 <= i < self.cidrs.len() && #[trigger] self.cidrs[i].holds(ip)
        ||| self.dynamic.contains_key(ip) && self.dynamic[ip] > now
    }

    /// Is `name` allow-listed? Exact match only: allowing a domain does not
    /// allow its subdomains.
    pub open spec fn lists(self, name: Seq<char>) -> bool {
        self.hostnames.contains(hostname_form(name))
    }

    /// When an answer for `ip` observed at `now` stops counting: a shorter
    /// answer never retracts a longer one already granted.
    pub open spec fn expiry_after(self, ip: IpAddr, ttl: u64, now: u64) -> u128 {
        let expiry = (now + clamped_ttl(ttl)) as u128;
        if self.dynamic.contains_key(ip) && self.dynamic[ip] > expiry {
            self.dynamic[ip]
        } else {
            expiry
        }
    }

    /// The filter after the DNS answer `ip` for `name`: unchanged for a name
    /// that is not listed; else `ip` is admitted, and what has expired goes.
    pub open spec fn observed(self, name: Seq<char>, ip: IpAddr, ttl: u64, now: u64) -> FilterModel {
        if self.lists(name) {
            let admitted = self.dynamic.insert(
                unmapped(ip),
                self.expiry_after(unmapped(ip), ttl, now),
            );
            FilterModel {
                dynamic: Map::new(
                    |k: IpAddr| admitted.contains_key(k) && admitted[k] > now,
                    |k: IpAddr| admitted[k],
                ),
                ..self
            }
        } else {
            self
        }
    }
}

/// A filter made of `patterns`, before any DNS answer.
pub open spec fn filter_of(patterns: Seq<PatternModel>) -> FilterModel
    decreases patterns.len(),
{
    if patterns.len() == 0 {
        FilterModel {
            static_ips: Seq::empty(),
            cidrs: Seq::empty(),
            hostnames: Seq::empty(),
            dynamic: Map::empty(),
        }
    } else {
        let rest = filter_of(patterns.drop_last());
        match patterns.last() {
            PatternModel::Ip(ip) => FilterModel { static_ips: rest.static_ips.push(ip), ..rest },
            PatternModel::Cidr(cidr) => FilterModel { cidrs: rest.cidrs.push(cidr), ..rest },
            PatternModel::Hostname(name) => FilterModel {
                hostnames: rest.hostnames.push(name),
                ..rest
            },
        }
    }
}

pub open spec fn pattern_models(patterns: Seq<HostPattern>) -> Seq<PatternModel> {
    patterns.map_values(|p: HostPattern| p@)
}

/// The egress allow list of one guest.
#[derive(Clone, Debug)]
pub struct EgressFilter {
    static_ips: Vec<IpAddr>,
    cidrs: Vec<IpCidr>,
    /// Normalized allow-listed names (the DNS gate).
    hostnames: Vec<String>,
    /// DNS-populated IPs and their expiry times, each IP once.
    dynamic: Vec<(IpAddr, u128)>,
}

spec fn holds_key(entries: Seq<(IpAddr, u128)>, key: IpAddr) -> bool {
    exists|i: int| 0 <= i < entries.len() && (#[trigger] entries[i]).0 == key
}

spec fn map_of(entries: Seq<(IpAddr, u128)>) -> Map<IpAddr, u128> {
    Map::new(
        |key: IpAddr| holds_key(entries, key),
        |key: IpAddr|
            entries[choose|i: int| 0 <= i < entries.len() && (#[trigger] entries[i]).0 == key].1,
    )
}

spec fn distinct_keys(entries: Seq<(IpAddr, u128)>) -> bool {
    forall|i: int, j: int|
        0 <= i < j < entries.len() ==> (#[trigger] entries[i]).0 != (#[trigger] entries[j]).0
}

proof fn map_of_entry(entries: Seq<(IpAddr, u128)>, i: int)
    requires
        distinct_keys(entries),
        0 <= i < entries.len(),
    ensures
        map_of(entries).contains_key(entries[i].0),
        map_of(entries)[entries[i].0] == entries[i].1,
{
    let key = entries[i].0;
    let j = choose|j: int| 0 <= j < entries.len() && (#[trigger] entries[j]).0 == key;
    assert(0 <= j < entries.len() && entries[j].0 == key);
}

/// A map is the map of `entries` if it has their keys and values and no more.
proof fn map_of_is(entries: Seq<(IpAddr, u128)>, map: Map<IpAddr, u128>)
    requires
        distinct_keys(entries),
        forall|i: int|
            0 <= i < entries.len() ==> map.contains_key((#[trigger] entries[i]).0)
                && map[entries[i].0] == entries[i].1,
        forall|key: IpAddr| #[trigger] map.contains_key(key) ==> holds_key(entries, key),
    ensures
        map_of(entries) == map,
{
    assert forall|key: IpAddr| map_of(entries).contains_key(key) implies map_of(entries)[key]
        == map[key] by {
        let i = choose|i: int| 0 <= i < entries.len() && (#[trigger] entries[i]).0 == key;
        map_of_entry(entries, i);
    }
    assert(map_of(entries) =~= map);
}

impl View for EgressFilter {
    type V = FilterModel;

    closed spec fn view(&self) -> FilterModel {
        FilterModel {
            static_ips: self.static_ips@,
            cidrs: self.cidrs@,
            hostnames: self.hostnames@.map_values(|s: String| s@),
            dynamic: map_of(self.dynamic@),
        }
    }
}

impl EgressFilter {
    /// Every block is well formed, and no address was admitted twice.
    pub closed spec fn wf(self) -> bool {
        &&& forall|i: int| 0 <= i < self.cidrs@.len() ==> (#[trigger] self.cidrs@[i]).wf()
        &&& distinct_keys(self.dynamic@)
    }

    pub fn new(patterns: Vec<HostPattern>) -> (filter: Self)
        requires
            forall|i: int| 0 <= i < patterns@.len() ==> (#[trigger] patterns@[i]).wf(),
        ensures
            filter.wf(),
            filter@ == filter_of(pattern_models(patterns@)),
    {
        let ghost models = pattern_models(patterns@);
        let mut static_ips: Vec<IpAddr> = Vec::new();
        let mut cidrs: Vec<IpCidr> = Vec::new();
        let mut hostnames: Vec<String> = Vec::new();
        let mut i: usize = 0;
        while i < patterns.len()
            invariant
                i <= patterns@.len(),
                models == pattern_models(patterns@),
                forall|j: int| 0 <= j < patterns@.len() ==> (#[trigger] patterns@[j]).wf(),
                forall|j: int| 0 <= j < cidrs@.len() ==> (#[trigger] cidrs@[j]).wf(),
                filter_of(models.subrange(0, i as int)).static_ips == static_ips@,
                filter_of(models.subrange(0, i as int)).cidrs == cidrs@,
                filter_of(models.subrange(0, i as int)).hostnames == hostnames@.map_values(
                    |s: String| s@,
                ),
                filter_of(models.subrange(0, i as int)).dynamic == Map::<IpAddr, u128>::empty(),
            decreases patterns@.len() - i,
        {
            assert(models.subrange(0, i + 1).drop_last() =~= models.subrange(0, i as int));
            assert(models.subrange(0, i + 1).last() == patterns@[i as int]@);
            assert(patterns@[i as int].wf());
            match &patterns[i] {
                HostPattern::Ip(ip) => static_ips.push(*ip),
                HostPattern::Cidr(cidr) => cidrs.push(*cidr),
                HostPattern::Hostname(name) => {
                    let ghost before = hostnames@;
                    hostnames.push(name.clone());
                    assert(hostnames@.map_values(|s: String| s@) =~= before.map_values(
                        |s: String| s@,
                    ).push(name@));
                },
            }
            i = i + 1;
        }
        let dynamic: Vec<(IpAddr, u128)> = Vec::new();
        let filter = EgressFilter { static_ips, cidrs, hostnames, dynamic };
        proof {
            assert(models.subrange(0, i as int) =~= models);
            map_of_is(dynamic@, Map::empty());
            assert(filter@ =~= filter_of(models));
        }
        filter
    }

    /// Is `name` allow-listed? Exact match only.
    pub fn matches_hostname(&self, name: &str) -> (yes: bool)
        ensures
            yes == self@.lists(name@),
    {
        let normal: String = normalize_hostname(name);
        let mut i: usize = 0;
        while i < self.hostnames.len()
            invariant
                i <= self.hostnames@.len(),
                normal@ == hostname_form(name@),
                forall|j: int| 0 <= j < i ==> (#[trigger] self.hostnames@[j])@ != normal@,
            decreases self.hostnames@.len() - i,
        {
            if self.hostnames[i] == normal {
                assert(self@.hostnames[i as int] == normal@);
                return true;
            }
            i = i + 1;
        }
        proof {
            if self@.hostnames.contains(normal@) {
                let j = choose|j: int|
                    0 <= j < self@.hostnames.len() && self@.hostnames[j] == normal@;
                assert(self.hostnames@[j]@ == normal@);
            }
        }
        false
    }

    /// Records a DNS answer: admits `ip` until the clamped TTL expires and
    /// returns true iff `name` is allow-listed. After a false return the
    /// caller's DNS proxy refuses the query rather than hand the guest an
    /// answer that the filter blocks anyway.
    pub fn observe_dns(&mut self, name: &str, ip: IpAddr, ttl: u64, now: u64) -> (admitted: bool)
        requires
            old(self).wf(),
        ensures
            final(self).wf(),
            admitted == old(self)@.lists(name@),
            final(self)@ == old(self)@.observed(name@, ip, ttl, now),
    {
        if !self.matches_hostname(name) {
            return false;
        }
        let ghost before = self@;
        let ghost entries = self.dynamic@;
        let key: IpAddr = normalize_ip(ip);
        let ttl: u64 = if ttl < MIN_DNS_TTL {
            MIN_DNS_TTL
        } else if ttl > MAX_DNS_TTL {
            MAX_DNS_TTL
        } else {
            ttl
        };
        let mut expiry: u128 = now as u128 + ttl as u128;
        let ghost fresh = expiry;
        // Everyone else who has not expired stays; the entry of `key` is
        // taken out and comes back with the later of the two expiries.
        let mut kept: Vec<(IpAddr, u128)> = Vec::new();
        let mut i: usize = 0;
        while i < self.dynamic.len()
            invariant
                i <= self.dynamic@.len(),
                self.dynamic@ == entries,
                distinct_keys(entries),
                fresh <= expiry,
                fresh > now,
                distinct_keys(kept@),
                !holds_key(kept@, key),
                forall|j: int|
                    0 <= j < kept@.len() ==> holds_key(entries.subrange(0, i as int), (
                    #[trigger] kept@[j]).0),
                forall|j: int|
                    0 <= j < kept@.len() ==> map_of(entries).contains_key((#[trigger] kept@[j]).0)
                        && map_of(entries)[kept@[j].0] == kept@[j].1 && kept@[j].1 > now,
                forall|j: int|
                    0 <= j < i && (#[trigger] entries[j]).0 != key && entries[j].1 > now
                        ==> holds_key(kept@, entries[j].0),
                !holds_key(entries.subrange(0, i as int), key) ==> expiry == fresh,
                holds_key(entries.subrange(0, i as int), key) ==> map_of(entries).contains_key(key)
                    && expiry == if map_of(entries)[key] > fresh {
                    map_of(entries)[key]
                } else {
                    fresh
                },
            decreases self.dynamic@.len() - i,
        {
            let (other, until): (IpAddr, u128) = self.dynamic[i];
            let ghost seen = entries.subrange(0, i as int);
            let ghost next = entries.subrange(0, i + 1);
            proof {
                map_of_entry(entries, i as int);
                assert(next[i as int] == entries[i as int]);
                assert(holds_key(next, other));
                assert forall|k: IpAddr| holds_key(seen, k) implies holds_key(next, k) by {
                    let j = choose|j: int| 0 <= j < seen.len() && (#[trigger] seen[j]).0 == k;
                    assert(next[j].0 == k);
                }
                assert forall|k: IpAddr| holds_key(next, k) implies holds_key(seen, k) || k
                    == other by {
                    let j = choose|j: int| 0 <= j < next.len() && (#[trigger] next[j]).0 == k;
                    if j < i {
                        assert(seen[j].0 == k);
                    }
                }
                assert(!holds_key(seen, other)) by {
                    if holds_key(seen, other) {
                        let j = choose|j: int|
                            0 <= j < seen.len() && (#[trigger] seen[j]).0 == other;
                        assert(entries[j].0 == other);
                    }
                }
            }
            if other == key {
                if until > expiry {
                    expiry = until;
                }
            } else if until > now as u128 {
                let ghost shorter = kept@;
                kept.push((other, until));
                proof {
                    assert forall|k: IpAddr| holds_key(shorter, k) implies holds_key(kept@, k) by {
                        let j = choose|j: int|
                            0 <= j < shorter.len() && (#[trigger] shorter[j]).0 == k;
                        assert(kept@[j].0 == k);
                    }
                    assert(kept@[kept@.len() - 1].0 == other);
                    assert(holds_key(kept@, other));
                    assert(!holds_key(kept@, key)) by {
                        if holds_key(kept@, key) {
                            let j = choose|j: int|
                                0 <= j < kept@.len() && (#[trigger] kept@[j]).0 == key;
                            if j < shorter.len() {
                                assert(shorter[j].0 == key);
                            }
                        }
                    }
                }
            }
            i = i + 1;
        }
        assert(entries.subrange(0, i as int) =~= entries);
        let ghost others = kept@;
        kept.push((key, expiry));
        self.dynamic = kept;
        proof {
            let after = before.observed(name@, ip, ttl, now).dynamic;
            assert(before.dynamic == map_of(entries));
            assert(before.dynamic.contains_key(key) == holds_key(entries, key));
            assert(expiry == before.expiry_after(key, ttl, now));
            assert(self.dynamic@[others.len() as int].0 == key);
            assert forall|j: int, k: int| 0 <= j < k < self.dynamic@.len() implies (
            #[trigger] self.dynamic@[j]).0 != (#[trigger] self.dynamic@[k]).0 by {
                if k == others.len() {
                    assert(others[j].0 != key);
                } else {
                    assert(others[j].0 != others[k].0);
                }
            }
            assert forall|k: IpAddr| #[trigger] after.contains_key(k) implies holds_key(
                self.dynamic@,
                k,
            ) by {
                if k != key {
                    let j = choose|j: int| 0 <= j < entries.len() && (#[trigger] entries[j]).0 == k;
                    map_of_entry(entries, j);
                    assert(holds_key(others, k));
                    let m = choose|m: int| 0 <= m < others.len() && (#[trigger] others[m]).0 == k;
                    assert(self.dynamic@[m].0 == k);
                }
            }
            assert forall|j: int| 0 <= j < self.dynamic@.len() implies after.contains_key((
            #[trigger] self.dynamic@[j]).0) && after[self.dynamic@[j].0] == self.dynamic@[j].1 by {
                if j < others.len() {
                    assert(others[j].0 != key);
                }
            }
            map_of_is(self.dynamic@, after);
            assert(self@ =~= before.observed(name@, ip, ttl, now));
        }
        true
    }

    /// The enforcement decision: may the guest open a flow to `destination`?
    pub fn allows_ip(&self, destination: IpAddr, now: u64) -> (yes: bool)
        requires
            self.wf(),
        ensures
            yes == self@.permits(destination, now),
    {
        let ip: IpAddr = normalize_ip(destination);
        let mut i: usize = 0;
        while i < self.static_ips.len()
            invariant
                i <= self.static_ips@.len(),
                ip == unmapped(destination),
                forall|j: int| 0 <= j < i ==> self.static_ips@[j] != ip,
            decreases self.static_ips@.len() - i,
        {
            if self.static_ips[i] == ip {
                assert(self@.static_ips[i as int] == ip);
                return true;
            }
            i = i + 1;
        }
        assert(!self@.static_ips.contains(ip));
        i = 0;
        while i < self.cidrs.len()
            invariant
                i <= self.cidrs@.len(),
                self.wf(),
                ip == unmapped(destination),
                forall|j: int| 0 <= j < i ==> !(#[trigger] self.cidrs@[j].holds(ip)),
            decreases self.cidrs@.len() - i,
        {
            if self.cidrs[i].contains(ip) {
                assert(self@.cidrs[i as int].holds(ip));
                return true;
            }
            i = i + 1;
        }
        i = 0;
        while i < self.dynamic.len()
            invariant
                i <= self.dynamic@.len(),
                self.wf(),
                ip == unmapped(destination),
                forall|j: int| 0 <= j < i ==> (#[trigger] self.dynamic@[j]).0 != ip,
                !self@.static_ips.contains(ip),
                forall|j: int| 0 <= j < self.cidrs@.len() ==> !(#[trigger] self.cidrs@[j].holds(ip)),
            decreases self.dynamic@.len() - i,
        {
            let (other, until): (IpAddr, u128) = self.dynamic[i];
            if other == ip {
                proof {
                    map_of_entry(self.dynamic@, i as int);
                }
                return until > now as u128;
            }
            i = i + 1;
        }
        false
    }
}

// ---------------------------------------------------------------------------
// Laws
// ---------------------------------------------------------------------------

/// A mapped destination is treated as the IPv4 address that it embeds.
pub proof fn mapped_form_is_permitted_alike(filter: FilterModel, ip: IpAddr, now: u64)
    ensures
        filter.permits(ip, now) == filter.permits(unmapped(ip), now),
{
}

/// An answer for an allow-listed name is usable from the moment it is
/// observed until its clamped TTL runs out.
pub proof fn observed_answer_is_permitted(
    filter: FilterModel,
    name: Seq<char>,
    ip: IpAddr,
    ttl: u64,
    now: u64,
    later: u64,
)
    requires
        filter.lists(name),
        now <= later < now + clamped_ttl(ttl),
    ensures
        filter.observed(name, ip, ttl, now).permits(ip, later),
{
}

/// However long a record claims to be valid, an address that nothing else
/// allows is refused again once the upper bound has passed.
pub proof fn observed_answer_expires(
    filter: FilterModel,
    name: Seq<char>,
    ip: IpAddr,
    ttl: u64,
    now: u64,
    later: u64,
)
    requires
        !filter.permits(ip, now),
        later >= now + clamped_ttl(ttl),
    ensures
        !filter.observed(name, ip, ttl, now).permits(ip, later),
        clamped_ttl(ttl) <= MAX_DNS_TTL,
{
}

/// A name is listed exactly where some pattern is that very name, normalized:
/// neither a subdomain nor a longer name matches.
pub proof fn names_are_listed_by_exact_patterns(patterns: Seq<PatternModel>, name: Seq<char>)
    ensures
        filter_of(patterns).lists(name) <==> patterns.contains(
            PatternModel::Hostname(hostname_form(name)),
        ),
    decreases patterns.len(),
{
    let form = hostname_form(name);
    let listed = PatternModel::Hostname(form);
    if patterns.len() > 0 {
        let shorter = patterns.drop_last();
        let rest = filter_of(shorter);
        let whole = filter_of(patterns);
        names_are_listed_by_exact_patterns(shorter, name);
        if whole.hostnames.contains(form) && patterns.last() != listed {
            let k = choose|k: int| 0 <= k < whole.hostnames.len() && whole.hostnames[k] == form;
            assert(rest.hostnames[k] == form);
            let i = choose|i: int| 0 <= i < shorter.len() && shorter[i] == listed;
            assert(patterns[i] == listed);
        } else if patterns.last() == listed {
            assert(patterns[patterns.len() - 1] == listed);
            assert(whole.hostnames[rest.hostnames.len() as int] == form);
        } else if patterns.contains(listed) {
            let i = choose|i: int| 0 <= i < patterns.len() && patterns[i] == listed;
            assert(shorter[i] == listed);
            let k = choose|k: int| 0 <= k < rest.hostnames.len() && rest.hostnames[k] == form;
            assert(whole.hostnames[k] == form);
        }
    }
}

/// Observations change no list: what is listed stays as the patterns say.
pub proof fn observation_keeps_the_names(
    filter: FilterModel,
    name: Seq<char>,
    ip: IpAddr,
    ttl: u64,
    now: u64,
    other: Seq<char>,
)
    ensures
        filter.observed(name, ip, ttl, now).lists(other) == filter.lists(other),
{
}

/// What an answer for a listed name does, exactly: from now on the address is
/// permitted where it was before or until the clamped TTL runs out, so a short
/// answer never retracts a longer grant; and nothing changes for any other
/// address.
pub proof fn observation_is_exact(
    filter: FilterModel,
    name: Seq<char>,
    ip: IpAddr,
    ttl: u64,
    now: u64,
    other: IpAddr,
    later: u64,
)
    requires
        filter.lists(name),
        now <= later,
    ensures
        filter.observed(name, ip, ttl, now).permits(ip, later) == (filter.permits(ip, later)
            || later < now + clamped_ttl(ttl)),
        unmapped(other) != unmapped(ip) ==> filter.observed(name, ip, ttl, now).permits(
            other,
            later,
        ) == filter.permits(other, later),
{
    let after = filter.observed(name, ip, ttl, now);
    assert(after.static_ips == filter.static_ips && after.cidrs == filter.cidrs);
    if filter.permits(ip, later) {
        observation_only_adds(filter, name, ip, ttl, now, ip, later);
    }
    if filter.permits(other, later) {
        observation_only_adds(filter, name, ip, ttl, now, other, later);
    }
    if unmapped(other) != unmapped(ip) && after.permits(other, later) {
        observation_adds_only_the_answer(filter, name, ip, ttl, now, other, later);
    }
}

/// An answer for a name that is not listed changes nothing, for any address at
/// any time.
pub proof fn unlisted_answer_changes_nothing(
    filter: FilterModel,
    name: Seq<char>,
    ip: IpAddr,
    ttl: u64,
    now: u64,
)
    requires
        !filter.lists(name),
    ensures
        filter.observed(name, ip, ttl, now) == filter,
        forall|other: IpAddr, later: u64|
            filter.observed(name, ip, ttl, now).permits(other, later) == filter.permits(
                other,
                later,
            ),
{
}

/// An observation never takes away what was allowed: whatever the filter
/// would permit from now on, it still permits.
pub proof fn observation_only_adds(
    filter: FilterModel,
    name: Seq<char>,
    ip: IpAddr,
    ttl: u64,
    now: u64,
    other: IpAddr,
    later: u64,
)
    requires
        now <= later,
        filter.permits(other, later),
    ensures
        filter.observed(name, ip, ttl, now).permits(other, later),
{
    let after = filter.observed(name, ip, ttl, now);
    let key = unmapped(other);
    assert(after.static_ips == filter.static_ips && after.cidrs == filter.cidrs);
    if exists|i: int| 0 <= i < filter.cidrs.len() && #[trigger] filter.cidrs[i].holds(key) {
        let i = choose|i: int| 0 <= i < filter.cidrs.len() && #[trigger] filter.cidrs[i].holds(key);
        assert(after.cidrs[i].holds(key));
    }
}

/// An observation admits nothing but the address that was answered.
pub proof fn observation_adds_only_the_answer(
    filter: FilterModel,
    name: Seq<char>,
    ip: IpAddr,
    ttl: u64,
    now: u64,
    other: IpAddr,
    later: u64,
)
    requires
        unmapped(other) != unmapped(ip),
        filter.observed(name, ip, ttl, now).permits(other, later),
    ensures
        filter.permits(other, later),
{
    let after = filter.observed(name, ip, ttl, now);
    let key = unmapped(other);
    if exists|i: int| 0 <= i < after.cidrs.len() && #[trigger] after.cidrs[i].holds(key) {
        let i = choose|i: int| 0 <= i < after.cidrs.len() && #[trigger] after.cidrs[i].holds(key);
        assert(filter.cidrs[i].holds(key));
    }
}

/// After an observation nothing in the dynamic set has expired.
pub proof fn expired_entries_are_dropped(
    filter: FilterModel,
    name: Seq<char>,
    ip: IpAddr,
    ttl: u64,
    now: u64,
    key: IpAddr,
)
    requires
        filter.lists(name),
        filter.observed(name, ip, ttl, now).dynamic.contains_key(key),
    ensures
        filter.observed(name, ip, ttl, now).dynamic[key] > now,
{
}

/// A filter without patterns denies everything and lists no name.
pub proof fn empty_filter_denies_everything(ip: IpAddr, name: Seq<char>, now: u64)
    ensures
        !filter_of(Seq::empty()).permits(ip, now),
        !filter_of(Seq::empty()).lists(name),
{
}

/// Hostnames alone allow no address until DNS was observed.
pub proof fn hostnames_alone_allow_nothing(patterns: Seq<PatternModel>, ip: IpAddr, now: u64)
    requires
        forall|i: int| 0 <= i < patterns.len() ==> #[trigger] patterns[i] is Hostname,
    ensures
        !filter_of(patterns).permits(ip, now),
        filter_of(patterns).dynamic == Map::<IpAddr, u128>::empty(),
        filter_of(patterns).static_ips.len() == 0,
        filter_of(patterns).cidrs.len() == 0,
    decreases patterns.len(),
{
    if patterns.len() > 0 {
        hostnames_alone_allow_nothing(patterns.drop_last(), ip, now);
    }
}

/// Before any DNS answer, whatever is permitted is an address of the list or
/// in a block of the list.
pub proof fn permitted_only_by_a_pattern(patterns: Seq<PatternModel>, ip: IpAddr, now: u64)
    requires
        filter_of(patterns).permits(ip, now),
    ensures
        exists|i: int|
            0 <= i < patterns.len() && match #[trigger] patterns[i] {
                PatternModel::Ip(listed) => listed == unmapped(ip),
                PatternModel::Cidr(cidr) => cidr.holds(unmapped(ip)),
                PatternModel::Hostname(_) => false,
            },
    decreases patterns.len(),
{
    let key = unmapped(ip);
    if patterns.len() > 0 {
        let rest = filter_of(patterns.drop_last());
        let whole = filter_of(patterns);
        if rest.permits(ip, now) {
            permitted_only_by_a_pattern(patterns.drop_last(), ip, now);
            let i = choose|i: int|
                0 <= i < patterns.drop_last().len() && match #[trigger] patterns.drop_last()[i] {
                    PatternModel::Ip(listed) => listed == key,
                    PatternModel::Cidr(cidr) => cidr.holds(key),
                    PatternModel::Hostname(_) => false,
                };
            assert(patterns[i] == patterns.drop_last()[i]);
        } else {
            assert(patterns[patterns.len() - 1] == patterns.last());
            match patterns.last() {
                PatternModel::Ip(listed) => {
                    if whole.static_ips.contains(key) {
                        let k = choose|k: int|
                            0 <= k < whole.static_ips.len() && whole.static_ips[k] == key;
                        if k < rest.static_ips.len() {
                            assert(rest.static_ips[k] == key);
                        }
                    }
                },
                PatternModel::Cidr(cidr) => {
                    if exists|k: int|
                        0 <= k < whole.cidrs.len() && #[trigger] whole.cidrs[k].holds(key) {
                        let k = choose|k: int|
                            0 <= k < whole.cidrs.len() && #[trigger] whole.cidrs[k].holds(key);
                        if k < rest.cidrs.len() {
                            assert(rest.cidrs[k].holds(key));
                        }
                    }
                },
                PatternModel::Hostname(_) => {},
            }
        }
    }
}

/// A pattern of the list does what it says: its address is permitted, its
/// block's addresses are, its name is listed.
pub proof fn listed_patterns_count(patterns: Seq<PatternModel>, i: int, ip: IpAddr, now: u64)
    requires
        0 <= i < patterns.len(),
    ensures
        patterns[i] == PatternModel::Ip(unmapped(ip)) ==> filter_of(patterns).permits(ip, now),
        patterns[i] matches PatternModel::Cidr(cidr) ==> cidr.holds(ip) ==> filter_of(
            patterns,
        ).permits(ip, now),
        patterns[i] matches PatternModel::Hostname(name) ==> filter_of(patterns).hostnames.contains(
            name,
        ),
    decreases patterns.len(),
{
    let whole = filter_of(patterns);
    let rest = filter_of(patterns.drop_last());
    if i < patterns.len() - 1 {
        listed_patterns_count(patterns.drop_last(), i, ip, now);
        assert(patterns.drop_last()[i] == patterns[i]);
        if let PatternModel::Hostname(name) = patterns[i] {
            let k = choose|k: int| 0 <= k < rest.hostnames.len() && rest.hostnames[k] == name;
            assert(whole.hostnames[k] == name);
        }
        let key = unmapped(ip);
        if rest.static_ips.contains(key) {
            let k = choose|k: int| 0 <= k < rest.static_ips.len() && rest.static_ips[k] == key;
            assert(whole.static_ips[k] == key);
        }
        if exists|k: int| 0 <= k < rest.cidrs.len() && #[trigger] rest.cidrs[k].holds(key) {
            let k = choose|k: int| 0 <= k < rest.cidrs.len() && #[trigger] rest.cidrs[k].holds(key);
            assert(whole.cidrs[k].holds(key));
        }
    } else {
        match patterns[i] {
            PatternModel::Ip(_) => {
                assert(whole.static_ips[rest.static_ips.len() as int] == patterns[i]->Ip_0);
            },
            PatternModel::Cidr(cidr) => {
                assert(whole.cidrs[rest.cidrs.len() as int] == cidr);
                assert(cidr.holds(ip) == cidr.holds(unmapped(ip)));
                assert(whole.cidrs[rest.cidrs.len() as int].holds(unmapped(ip)) == cidr.holds(ip));
            },
            PatternModel::Hostname(name) => {
                assert(whole.hostnames[rest.hostnames.len() as int] == name);
            },
        }
    }
}

/// What is permitted before any DNS answer, exactly: what is an address of the
/// list, or in a block of the list.
pub proof fn permission_is_by_pattern(patterns: Seq<PatternModel>, ip: IpAddr, now: u64)
    ensures
        filter_of(patterns).permits(ip, now) <==> exists|i: int|
            0 <= i < patterns.len() && match #[trigger] patterns[i] {
                PatternModel::Ip(listed) => listed == unmapped(ip),
                PatternModel::Cidr(cidr) => cidr.holds(ip),
                PatternModel::Hostname(_) => false,
            },
{
    if filter_of(patterns).permits(ip, now) {
        permitted_only_by_a_pattern(patterns, ip, now);
        let i = choose|i: int|
            0 <= i < patterns.len() && match #[trigger] patterns[i] {
                PatternModel::Ip(listed) => listed == unmapped(ip),
                PatternModel::Cidr(cidr) => cidr.holds(unmapped(ip)),
                PatternModel::Hostname(_) => false,
            };
        if let PatternModel::Cidr(cidr) = patterns[i] {
            assert(cidr.holds(ip) == cidr.holds(unmapped(ip)));
        }
    }
    if exists|i: int|
        0 <= i < patterns.len() && match #[trigger] patterns[i] {
            PatternModel::Ip(listed) => listed == unmapped(ip),
            PatternModel::Cidr(cidr) => cidr.holds(ip),
            PatternModel::Hostname(_) => false,
        } {
        let i = choose|i: int|
            0 <= i < patterns.len() && match #[trigger] patterns[i] {
                PatternModel::Ip(listed) => listed == unmapped(ip),
                PatternModel::Cidr(cidr) => cidr.holds(ip),
                PatternModel::Hostname(_) => false,
            };
        listed_patterns_count(patterns, i, ip, now);
    }
}

/// A TTL counts as it is between one second and three hundred; below and above
/// the nearer of the two counts.
pub proof fn ttls_are_held_between_bounds(ttl: u64)
    ensures
        1_000_000_000 <= clamped_ttl(ttl) <= 300_000_000_000,
        1_000_000_000 <= ttl <= 300_000_000_000 ==> clamped_ttl(ttl) == ttl,
        ttl < 1_000_000_000 ==> clamped_ttl(ttl) == 1_000_000_000,
        ttl > 300_000_000_000 ==> clamped_ttl(ttl) == 300_000_000_000,
{
}

} // verus!
