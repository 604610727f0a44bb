//! `allowedHosts` entries: bare IP literals, CIDR blocks, or hostnames.
//! IPv4-mapped IPv6 destinations are rewritten to their embedded IPv4 form;
//! empty entries and malformed CIDRs are errors that the caller reports and
//! skips (dropping an allow entry only ever restricts).

use vstd::prelude::*;
use vstd::arithmetic::power2::{
    lemma2_to64, lemma2_to64_rest, lemma_pow2_adds, lemma_pow2_pos, pow2,
};
use vstd::bits::{lemma_u128_shr_is_div, lemma_u32_shr_is_div};
use vstd::string::*;
use crate::ip::IpAddr;
use crate::ip_text::{ip_value, parse_ip_chars};
use crate::text::{
    chars_of, find_char, index_of, index_of_is, is_white_space, lower, lower_case_forgets_case, lower_char, lowered,
    number_value, parse_number, trim_range, trimmed, trimmed_end, trimmed_start, uppered,
};

verus! {

/// An IPv4-mapped IPv6 address (`::ffff:a.b.c.d`) as the IPv4 address that it
/// embeds; any other address as it is.
pub open spec fn unmapped(ip: IpAddr) -> IpAddr {
    match ip {
        IpAddr::V6(bits) => if bits / 0x1_0000_0000 == 0xffff {
            IpAddr::V4((bits % 0x1_0000_0000) as u32)
        } else {
            ip
        },
        IpAddr::V4(_) => ip,
    }
}

/// Rewrites IPv4-mapped IPv6 to the embedded IPv4 address, so that mapped and
/// plain forms of the same destination are equal.
pub fn normalize_ip(ip: IpAddr) -> (normal: IpAddr)
    ensures
        normal == unmapped(ip),
{
    match ip {
        IpAddr::V6(bits) => {
            if bits / 0x1_0000_0000 == 0xffff {
                IpAddr::V4((bits % 0x1_0000_0000) as u32)
            } else {
                ip
            }
        },
        IpAddr::V4(_) => ip,
    }
}

/// `name` without its trailing dot, if it has one.
pub open spec fn without_dot(name: Seq<char>) -> Seq<char> {
    if name.len() > 0 && name.last() == '.' {
        name.drop_last()
    } else {
        name
    }
}

/// The form in which DNS names are compared: trimmed, without one trailing
/// dot, in lower case.
pub open spec fn hostname_form(name: Seq<char>) -> Seq<char> {
    lowered(without_dot(trimmed(name)))
}

/// Normalizes a DNS name for matching: trim, drop one trailing dot, lowercase.
pub fn normalize_hostname(name: &str) -> (normal: String)
    ensures
        normal@ == hostname_form(name@),
{
    let chars: Vec<char> = chars_of(name);
    normalize_chars(&chars)
}

fn normalize_chars(chars: &Vec<char>) -> (normal: String)
    ensures
        normal@ == hostname_form(chars@),
{
    let (from, end): (usize, usize) = trim_range(chars);
    let ghost body = chars@.subrange(from as int, end as int);
    let to: usize = if from < end && chars[end - 1] == '.' {
        end - 1
    } else {
        end
    };
    let ghost kept = chars@.subrange(from as int, to as int);
    assert(kept =~= without_dot(body));
    let mut normal: String = String::new();
    let mut i: usize = from;
    while i < to
        invariant
            from <= i <= to <= chars@.len(),
            kept == chars@.subrange(from as int, to as int),
            normal@ == lowered(kept.subrange(0, i - from)),
        decreases to - i,
    {
        normal.push(lower(chars[i]));
        assert(kept.subrange(0, i - from + 1) =~= kept.subrange(0, i - from).push(chars@[i as int]));
        assert(lowered(kept.subrange(0, i - from + 1)) =~= lowered(kept.subrange(0, i - from)).push(
            lower_char(chars@[i as int]),
        ));
        i = i + 1;
    }
    assert(kept.subrange(0, to - from) =~= kept);
    normal
}

/// A CIDR block. Host bits of `network` do not matter, and a block of one
/// family never matches a destination of the other.
#[derive(Clone, Copy, Debug, PartialEq, Eq, Structural)]
pub struct IpCidr {
    pub network: IpAddr,
    pub prefix: u8,
}

/// How many bits an address of the family of `ip` has.
pub open spec fn address_bits(ip: IpAddr) -> nat {
    match ip {
        IpAddr::V4(_) => 32,
        IpAddr::V6(_) => 128,
    }
}

/// Whether the leading `prefix` of `width` bits of `a` and `b` are the same.
pub open spec fn same_leading_bits(a: nat, b: nat, prefix: nat, width: nat) -> bool {
    a / pow2((width - prefix) as nat) == b / pow2((width - prefix) as nat)
}

proof fn no_leading_bits_v4(bits: u32)
    ensures
        bits as nat / pow2(32) == 0,
{
    lemma2_to64();
    vstd::arithmetic::div_mod::lemma_basic_div(bits as int, pow2(32) as int);
}

proof fn no_leading_bits_v6(bits: u128)
    ensures
        bits as nat / pow2(128) == 0,
{
    lemma2_to64();
    lemma2_to64_rest();
    lemma_pow2_adds(64, 64);
    vstd::arithmetic::div_mod::lemma_basic_div(bits as int, pow2(128) as int);
}

impl IpCidr {
    pub open spec fn wf(self) -> bool {
        self.prefix <= address_bits(self.network)
    }

    /// Whether the block holds `destination`: its leading bits are the
    /// network's.
    pub open spec fn holds(self, destination: IpAddr) -> bool {
        match (self.network, unmapped(destination)) {
            (IpAddr::V4(network), IpAddr::V4(ip)) => same_leading_bits(
                network as nat,
                ip as nat,
                self.prefix as nat,
                32,
            ),
            (IpAddr::V6(network), IpAddr::V6(ip)) => same_leading_bits(
                network as nat,
                ip as nat,
                self.prefix as nat,
                128,
            ),
            _ => false,
        }
    }

    pub fn contains(&self, destination: IpAddr) -> (yes: bool)
        requires
            self.wf(),
        ensures
            yes == self.holds(destination),
    {
        match (self.network, normalize_ip(destination)) {
            (IpAddr::V4(network), IpAddr::V4(ip)) => {
                if self.prefix == 0 {
                    proof {
                        no_leading_bits_v4(network);
                        no_leading_bits_v4(ip);
                    }
                    return true;
                }
                let shift: u32 = 32 - self.prefix as u32;
                proof {
                    lemma_u32_shr_is_div(network, shift);
                    lemma_u32_shr_is_div(ip, shift);
                }
                network >> shift == ip >> shift
            },
            (IpAddr::V6(network), IpAddr::V6(ip)) => {
                if self.prefix == 0 {
                    proof {
                        no_leading_bits_v6(network);
                        no_leading_bits_v6(ip);
                    }
                    return true;
                }
                let shift: u128 = 128 - self.prefix as u128;
                proof {
                    lemma_u128_shr_is_div(network, shift);
                    lemma_u128_shr_is_div(ip, shift);
                }
                network >> shift == ip >> shift
            },
            _ => false,
        }
    }
}

/// One entry of an allow list.
#[derive(Clone, Debug, PartialEq, Eq)]
pub enum HostPattern {
    Ip(IpAddr),
    Cidr(IpCidr),
    /// Normalized (lowercase, no trailing dot) for DNS-name matching.
    Hostname(String),
}

/// What a pattern says.
pub enum PatternModel {
    Ip(IpAddr),
    Cidr(IpCidr),
    Hostname(Seq<char>),
}

impl View for HostPattern {
    type V = PatternModel;

    open spec fn view(&self) -> PatternModel {
        match self {
            HostPattern::Ip(ip) => PatternModel::Ip(*ip),
            HostPattern::Cidr(cidr) => PatternModel::Cidr(*cidr),
            HostPattern::Hostname(name) => PatternModel::Hostname(name@),
        }
    }
}

#[derive(Clone, Copy, Debug, PartialEq, Eq, Structural)]
pub enum HostPatternError {
    /// Empty entries are guarded before any resolution: some resolvers answer
    /// "" with every local interface address, which would allow the host
    /// itself.
    Empty,
    InvalidCidr,
}

impl HostPatternError {
    pub open spec fn text(self) -> Seq<char> {
        match self {
            HostPatternError::Empty => "empty allowedHosts entry"@,
            HostPatternError::InvalidCidr => "malformed CIDR in allowedHosts entry"@,
        }
    }

    /// The message shown for this error.
    pub fn message(&self) -> (message: String)
        ensures
            message@ == self.text(),
    {
        match self {
            HostPatternError::Empty => "empty allowedHosts entry".to_string(),
            HostPatternError::InvalidCidr => "malformed CIDR in allowedHosts entry".to_string(),
        }
    }
}

/// What an allow-list entry means.
pub open spec fn pattern_of(entry: Seq<char>) -> Result<PatternModel, HostPatternError> {
    let entry = trimmed(entry);
    let slash = index_of(entry, '/');
    if entry.len() == 0 {
        Err(HostPatternError::Empty)
    } else if slash < entry.len() {
        match (ip_value(entry.subrange(0, slash)), number_value(entry.skip(slash + 1), 255)) {
            (Some(address), Some(prefix)) => if prefix <= address_bits(unmapped(address)) {
                Ok(PatternModel::Cidr(IpCidr { network: unmapped(address), prefix: prefix as u8 }))
            } else {
                Err(HostPatternError::InvalidCidr)
            },
            _ => Err(HostPatternError::InvalidCidr),
        }
    } else {
        match ip_value(entry) {
            Some(address) => Ok(PatternModel::Ip(unmapped(address))),
            None => Ok(PatternModel::Hostname(hostname_form(entry))),
        }
    }
}

fn copy_range(chars: &Vec<char>, from: usize, to: usize) -> (part: Vec<char>)
    requires
        from <= to <= chars@.len(),
    ensures
        part@ == chars@.subrange(from as int, to as int),
{
    let mut part: Vec<char> = Vec::new();
    let mut i: usize = from;
    while i < to
        invariant
            from <= i <= to <= chars@.len(),
            part@ == chars@.subrange(from as int, i as int),
        decreases to - i,
    {
        part.push(chars[i]);
        i = i + 1;
        assert(part@ =~= chars@.subrange(from as int, i as int));
    }
    part
}

impl HostPattern {
    pub open spec fn wf(self) -> bool {
        self matches HostPattern::Cidr(cidr) ==> cidr.wf()
    }

    pub fn parse(entry: &str) -> (pattern: Result<Self, HostPatternError>)
        ensures
            match pattern {
                Ok(p) => p.wf() && pattern_of(entry@) == Ok::<PatternModel, HostPatternError>(p@),
                Err(e) => pattern_of(entry@) == Err::<PatternModel, HostPatternError>(e),
            },
    {
        let all: Vec<char> = chars_of(entry);
        let (from, to): (usize, usize) = trim_range(&all);
        let chars: Vec<char> = copy_range(&all, from, to);
        let len: usize = chars.len();
        if len == 0 {
            return Err(HostPatternError::Empty);
        }
        let slash: usize = find_char(&chars, 0, len, '/');
        assert(chars@.subrange(0, len as int) =~= chars@);
        if slash < len {
            let address_text: Vec<char> = copy_range(&chars, 0, slash);
            assert(chars@.subrange(slash + 1, len as int) =~= chars@.skip(slash + 1));
            let address: IpAddr = match parse_ip_chars(&address_text) {
                Some(ip) => normalize_ip(ip),
                None => {
                    return Err(HostPatternError::InvalidCidr);
                },
            };
            let prefix: u8 = match parse_number(&chars, slash + 1, len, 255) {
                Some(prefix) => prefix as u8,
                None => {
                    return Err(HostPatternError::InvalidCidr);
                },
            };
            let max: u8 = match address {
                IpAddr::V4(_) => 32,
                IpAddr::V6(_) => 128,
            };
            if prefix > max {
                return Err(HostPatternError::InvalidCidr);
            }
            return Ok(HostPattern::Cidr(IpCidr { network: address, prefix }));
        }
        match parse_ip_chars(&chars) {
            Some(address) => Ok(HostPattern::Ip(normalize_ip(address))),
            None => Ok(HostPattern::Hostname(normalize_chars(&chars))),
        }
    }
}

// ---------------------------------------------------------------------------
// Laws
// ---------------------------------------------------------------------------

/// Normalizing an address twice is normalizing it once.
pub proof fn unmapped_is_stable(ip: IpAddr)
    ensures
        unmapped(unmapped(ip)) == unmapped(ip),
{
}

/// A mapped destination is in a block exactly when its plain form is.
pub proof fn mapped_form_is_in_the_same_blocks(cidr: IpCidr, ip: IpAddr)
    ensures
        cidr.holds(ip) == cidr.holds(unmapped(ip)),
{
}

/// A block never holds a destination of the other family.
pub proof fn blocks_are_family_split(cidr: IpCidr, ip: IpAddr)
    ensures
        cidr.holds(ip) ==> cidr.network.same_family(unmapped(ip)),
{
}

/// A block with the full prefix holds its network address and nothing else.
pub proof fn full_prefix_holds_one_address(cidr: IpCidr, ip: IpAddr)
    requires
        cidr.prefix == address_bits(cidr.network),
    ensures
        cidr.holds(ip) <==> unmapped(ip) == cidr.network,
{
    lemma2_to64();
    assert(forall|x: nat| #![trigger x / pow2(0)] x / pow2(0) == x);
}

/// A block with an empty prefix holds every address of its family.
pub proof fn zero_prefix_holds_the_family(cidr: IpCidr, ip: IpAddr)
    requires
        cidr.prefix == 0,
    ensures
        cidr.holds(ip) <==> cidr.network.same_family(unmapped(ip)),
{
    match (cidr.network, unmapped(ip)) {
        (IpAddr::V4(network), IpAddr::V4(bits)) => {
            no_leading_bits_v4(network);
            no_leading_bits_v4(bits);
        },
        (IpAddr::V6(network), IpAddr::V6(bits)) => {
            no_leading_bits_v6(network);
            no_leading_bits_v6(bits);
        },
        _ => {},
    }
}

proof fn trimmed_start_begins(s: Seq<char>)
    ensures
        trimmed_start(s).len() > 0 ==> !is_white_space(trimmed_start(s)[0]),
    decreases s.len(),
{
    if s.len() > 0 && is_white_space(s[0]) {
        trimmed_start_begins(s.skip(1));
    }
}

proof fn trimmed_end_ends(s: Seq<char>)
    ensures
        trimmed_end(s).len() > 0 ==> !is_white_space(trimmed_end(s).last()) && trimmed_end(s)[0]
            == s[0],
    decreases s.len(),
{
    if s.len() > 0 && is_white_space(s.last()) {
        trimmed_end_ends(s.drop_last());
    }
}

/// What was trimmed needs no more trimming.
proof fn trimming_is_idempotent(s: Seq<char>)
    ensures
        trimmed(trimmed(s)) == trimmed(s),
        trimmed(s).len() > 0 ==> !is_white_space(trimmed(s)[0]) && !is_white_space(
            trimmed(s).last(),
        ),
{
    trimmed_start_begins(s);
    trimmed_end_ends(trimmed_start(s));
}

/// Every pattern that parsing gives holds a normalized address or name.
pub proof fn parsed_patterns_are_normalized(entry: Seq<char>)
    ensures
        pattern_of(entry) matches Ok(PatternModel::Ip(ip)) ==> unmapped(ip) == ip,
        pattern_of(entry) matches Ok(PatternModel::Cidr(cidr)) ==> cidr.wf() && unmapped(
            cidr.network,
        ) == cidr.network,
        pattern_of(entry) matches Ok(PatternModel::Hostname(name)) ==> name == hostname_form(entry),
{
    trimming_is_idempotent(entry);
}

/// Lower case keeps what trimming cuts off.
proof fn lowering_commutes_with_trimming(s: Seq<char>)
    ensures
        trimmed_start(lowered(s)) == lowered(trimmed_start(s)),
        trimmed_end(lowered(s)) == lowered(trimmed_end(s)),
    decreases s.len(),
{
    if s.len() > 0 {
        assert(lowered(s)[0] == lower_char(s[0]));
        assert(lowered(s).last() == lower_char(s.last()));
        assert(lowered(s).skip(1) =~= lowered(s.skip(1)));
        assert(lowered(s).drop_last() =~= lowered(s.drop_last()));
        lowering_commutes_with_trimming(s.skip(1));
        lowering_commutes_with_trimming(s.drop_last());
    }
}

/// The form of a name is that of the name in lower case.
proof fn form_of_lowered(name: Seq<char>)
    ensures
        hostname_form(lowered(name)) == hostname_form(name),
{
    lowering_commutes_with_trimming(name);
    lowering_commutes_with_trimming(trimmed_start(name));
    let body = trimmed(name);
    assert(trimmed(lowered(name)) == lowered(body));
    if body.len() > 0 {
        assert(lowered(body).last() == lower_char(body.last()));
        assert(lowered(body).drop_last() =~= lowered(body.drop_last()));
    }
    lower_case_forgets_case(without_dot(body));
}

/// ASCII case does not distinguish names: two that differ in nothing else have
/// the same form, so a name has that of the name in upper case, and the form
/// itself holds no ASCII letter in upper case.
pub proof fn case_does_not_distinguish_names(a: Seq<char>, b: Seq<char>)
    ensures
        lowered(a) == lowered(b) ==> hostname_form(a) == hostname_form(b),
        hostname_form(uppered(a)) == hostname_form(a),
        forall|i: int|
            0 <= i < hostname_form(a).len() ==> !('A' <= #[trigger] hostname_form(a)[i] <= 'Z'),
{
    form_of_lowered(a);
    form_of_lowered(b);
    form_of_lowered(uppered(a));
    lower_case_forgets_case(a);
    lower_case_forgets_case(without_dot(trimmed(a)));
}

proof fn white_space_trims_to_nothing(space: Seq<char>)
    requires
        all_white_space(space),
    ensures
        trimmed_start(space).len() == 0,
    decreases space.len(),
{
    if space.len() > 0 {
        assert(is_white_space(space[0]));
        assert forall|i: int| 0 <= i < space.skip(1).len() implies is_white_space(
            #[trigger] space.skip(1)[i],
        ) by {
            assert(is_white_space(space[i + 1]));
        }
        white_space_trims_to_nothing(space.skip(1));
    }
}

proof fn trimmed_start_drops(space: Seq<char>, name: Seq<char>)
    requires
        all_white_space(space),
    ensures
        trimmed_start(space + name) == trimmed_start(name),
    decreases space.len(),
{
    let whole = space + name;
    if space.len() == 0 {
        assert(whole =~= name);
    } else {
        assert(is_white_space(space[0]));
        assert(whole.skip(1) =~= space.skip(1) + name);
        assert forall|i: int| 0 <= i < space.skip(1).len() implies is_white_space(
            #[trigger] space.skip(1)[i],
        ) by {
            assert(is_white_space(space[i + 1]));
        }
        trimmed_start_drops(space.skip(1), name);
    }
}

proof fn trimmed_end_drops(name: Seq<char>, space: Seq<char>)
    requires
        all_white_space(space),
    ensures
        trimmed_end(name + space) == trimmed_end(name),
    decreases space.len(),
{
    let whole = name + space;
    if space.len() == 0 {
        assert(whole =~= name);
    } else {
        assert(is_white_space(space[space.len() - 1]));
        assert(whole.drop_last() =~= name + space.drop_last());
        assert forall|i: int| 0 <= i < space.drop_last().len() implies is_white_space(
            #[trigger] space.drop_last()[i],
        ) by {
            assert(is_white_space(space[i]));
        }
        trimmed_end_drops(name, space.drop_last());
    }
}

proof fn trimmed_drops_behind(name: Seq<char>, space: Seq<char>)
    requires
        all_white_space(space),
    ensures
        trimmed(name + space) == trimmed(name),
    decreases name.len(),
{
    let whole = name + space;
    if name.len() == 0 {
        assert(whole =~= space);
        white_space_trims_to_nothing(space);
        assert(trimmed_start(space) =~= name);
    } else if is_white_space(name[0]) {
        assert(whole.skip(1) =~= name.skip(1) + space);
        trimmed_drops_behind(name.skip(1), space);
    } else {
        trimmed_end_drops(name, space);
    }
}

/// Whether `s` is nothing but white space.
pub open spec fn all_white_space(s: Seq<char>) -> bool {
    forall|i: int| 0 <= i < s.len() ==> is_white_space(#[trigger] s[i])
}

/// White space around a name does not distinguish it.
pub proof fn white_space_does_not_distinguish_names(
    before: Seq<char>,
    name: Seq<char>,
    after: Seq<char>,
)
    requires
        all_white_space(before),
        all_white_space(after),
    ensures
        hostname_form(before + name + after) == hostname_form(name),
{
    assert(before + name + after =~= before + (name + after));
    trimmed_start_drops(before, name + after);
    trimmed_drops_behind(name, after);
}

/// Exactly one trailing dot is dropped: a trimmed name with a dot behind it
/// has the form of all that stands before that dot. So a dot does not
/// distinguish a name that ends in none, and of two dots one stays.
pub proof fn one_trailing_dot_is_dropped(name: Seq<char>)
    ensures
        hostname_form(trimmed(name).push('.')) == lowered(trimmed(name)),
        trimmed(name).len() == 0 || trimmed(name).last() != '.' ==> hostname_form(
            trimmed(name).push('.'),
        ) == hostname_form(name),
{
    let body = trimmed(name);
    let dotted = body.push('.');
    trimming_is_idempotent(name);
    assert(!is_white_space(dotted[0]) && !is_white_space(dotted.last()));
    assert(trimmed(dotted) == dotted);
    assert(dotted.drop_last() =~= body);
}

/// Bit `place` of `number`, the lowest being bit 0.
pub open spec fn bit_at(number: nat, place: nat) -> nat {
    number / pow2(place) % 2
}

proof fn halves(number: nat, place: nat)
    ensures
        pow2(place) > 0,
        number / pow2(place) == 2 * (number / pow2(place + 1)) + bit_at(number, place),
{
    lemma_pow2_pos(place);
    lemma_pow2_pos(place + 1);
    lemma_pow2_adds(place, 1);
    lemma2_to64();
    vstd::arithmetic::div_mod::lemma_div_denominator(
        number as int,
        pow2(place) as int,
        2,
    );
    vstd::arithmetic::div_mod::lemma_fundamental_div_mod((number / pow2(place)) as int, 2);
}

proof fn same_high_part(a: nat, b: nat, low: nat)
    requires
        2 * a + low == 2 * b + low,
    ensures
        a == b,
{
}

proof fn same_quotient_same_bits(a: nat, b: nat, from: nat, width: nat)
    requires
        from <= width,
        a < pow2(width),
        b < pow2(width),
    ensures
        a / pow2(from) == b / pow2(from) <==> forall|place: nat|
            from <= place < width ==> #[trigger] bit_at(a, place) == bit_at(b, place),
    decreases width - from,
{
    if from == width {
        vstd::arithmetic::div_mod::lemma_basic_div(a as int, pow2(width) as int);
        vstd::arithmetic::div_mod::lemma_basic_div(b as int, pow2(width) as int);
    } else {
        halves(a, from);
        halves(b, from);
        same_quotient_same_bits(a, b, from + 1, width);
        if a / pow2(from) == b / pow2(from) {
            assert(bit_at(a, from) == bit_at(b, from));
            let high_a = a / pow2(from + 1);
            let high_b = b / pow2(from + 1);
            same_high_part(high_a, high_b, bit_at(a, from));
            assert forall|place: nat| from <= place < width implies #[trigger] bit_at(a, place)
                == bit_at(b, place) by {
                assert(place == from || from + 1 <= place);
            }
        } else if forall|place: nat|
            from <= place < width ==> #[trigger] bit_at(a, place) == bit_at(b, place) {
            assert(bit_at(a, from) == bit_at(b, from));
        }
    }
}

proof fn address_fits(ip: IpAddr)
    ensures
        address_number(ip) < pow2(address_width(ip)),
{
    lemma2_to64();
    lemma2_to64_rest();
    lemma_pow2_adds(64, 64);
}

/// The number of an address.
pub open spec fn address_number(ip: IpAddr) -> nat {
    match ip {
        IpAddr::V4(bits) => bits as nat,
        IpAddr::V6(bits) => bits as nat,
    }
}

/// How many bits an address has: 32 in IPv4, 128 in IPv6.
pub open spec fn address_width(ip: IpAddr) -> nat {
    if ip is V4 {
        32
    } else {
        128
    }
}

/// A block holds an address exactly where each of its leading bits, as many as
/// the prefix says, is the network's. So one leading bit that differs puts an
/// address outside, and the bits behind the prefix do not matter.
pub proof fn blocks_compare_leading_bits(cidr: IpCidr, ip: IpAddr)
    requires
        cidr.prefix <= address_width(cidr.network),
    ensures
        cidr.holds(ip) <==> (cidr.network is V4 <==> unmapped(ip) is V4) && forall|place: nat|
            address_width(cidr.network) - cidr.prefix <= place < address_width(cidr.network)
                ==> #[trigger] bit_at(address_number(unmapped(ip)), place) == bit_at(
                address_number(cidr.network),
                place,
            ),
{
    let plain = unmapped(ip);
    let width = address_width(cidr.network);
    if cidr.network is V4 <==> plain is V4 {
        address_fits(plain);
        address_fits(cidr.network);
        same_quotient_same_bits(
            address_number(plain),
            address_number(cidr.network),
            (width - cidr.prefix) as nat,
            width,
        );
    }
}

/// A block is one range of addresses: it holds exactly those of its family from
/// its first to its last, and there are as many of them as the bits behind the
/// prefix can spell.
pub proof fn blocks_are_ranges(cidr: IpCidr, ip: IpAddr)
    requires
        cidr.prefix <= address_width(cidr.network),
    ensures
        ({
            let size = pow2((address_width(cidr.network) - cidr.prefix) as nat);
            let network = address_number(cidr.network);
            let first = network - network % size;
            cidr.holds(ip) <==> (cidr.network is V4 <==> unmapped(ip) is V4) && first
                <= address_number(unmapped(ip)) < first + size
        }),
{
    let size = pow2((address_width(cidr.network) - cidr.prefix) as nat) as int;
    let network = address_number(cidr.network) as int;
    let number = address_number(unmapped(ip)) as int;
    lemma_pow2_pos((address_width(cidr.network) - cidr.prefix) as nat);
    vstd::arithmetic::div_mod::lemma_fundamental_div_mod(network, size);
    vstd::arithmetic::div_mod::lemma_fundamental_div_mod(number, size);
    vstd::arithmetic::div_mod::lemma_mod_bound(network, size);
    vstd::arithmetic::div_mod::lemma_mod_bound(number, size);
    let q = network / size;
    let r = number / size;
    assert(q == r <==> size * q <= number < size * q + size) by (nonlinear_arith)
        requires
            size > 0,
            number == size * r + number % size,
            0 <= number % size < size,
    ;
}

/// A name on the allow list is one that is neither empty, nor a block, nor an
/// address: what stands before a slash must be an address and what stands
/// behind it a number of bits that the address has, or the entry is malformed.
pub proof fn entries_are_read_by_shape(
    entry: Seq<char>,
    before: Seq<char>,
    behind: Seq<char>,
)
    ensures
        trimmed(entry).len() == 0 <==> pattern_of(entry) == Err::<PatternModel, HostPatternError>(
            HostPatternError::Empty,
        ),
        trimmed(entry).len() > 0 && !trimmed(entry).contains('/') ==> pattern_of(entry) == Ok::<
            PatternModel,
            HostPatternError,
        >(
            match ip_value(trimmed(entry)) {
                Some(ip) => PatternModel::Ip(unmapped(ip)),
                None => PatternModel::Hostname(hostname_form(trimmed(entry))),
            },
        ),
        trimmed(entry) == before.push('/') + behind && !before.contains('/') ==> pattern_of(entry)
            == match (ip_value(before), number_value(behind, 255)) {
            (Some(ip), Some(prefix)) => if prefix <= address_width(unmapped(ip)) {
                Ok::<PatternModel, HostPatternError>(
                    PatternModel::Cidr(IpCidr { network: unmapped(ip), prefix: prefix as u8 }),
                )
            } else {
                Err(HostPatternError::InvalidCidr)
            },
            _ => Err(HostPatternError::InvalidCidr),
        },
{
    let body = trimmed(entry);
    if !body.contains('/') {
        index_of_is(body, '/', body.len() as int);
    }
    if body == before.push('/') + behind && !before.contains('/') {
        assert forall|i: int| 0 <= i < before.len() implies body[i] != '/' by {
            assert(body[i] == before[i]);
        }
        assert(body[before.len() as int] == '/');
        index_of_is(body, '/', before.len() as int);
        assert(body.subrange(0, before.len() as int) =~= before);
        assert(body.skip(before.len() as int + 1) =~= behind);
    }
}

/// Mapped IPv6 addresses, from `::ffff:0.0.0.0` to `::ffff:255.255.255.255`, are
/// the IPv4 addresses in their low 32 bits; every other address is itself.
pub proof fn mapped_addresses_are_a_range(ip: IpAddr)
    ensures
        unmapped(ip) == match ip {
            IpAddr::V4(bits) => IpAddr::V4(bits),
            IpAddr::V6(bits) => if 0xffff_0000_0000 <= bits <= 0xffff_ffff_ffff {
                IpAddr::V4((bits - 0xffff_0000_0000) as u32)
            } else {
                IpAddr::V6(bits)
            },
        },
{
}

} // verus!
