//! Minimal DNS wire codec for the egress gate's DNS proxy.
//!
//! Scope: parse a single-question A/AAAA query from the guest, and build
//! either an answer (allow-listed name; resolver-provided IPs, gate-chosen
//! TTL) or a REFUSED response. Anything else (other qtypes, responses,
//! compressed question names, multi-question packets) is rejected by
//! returning `None`, and the caller drops the packet.

use vstd::prelude::*;
use vstd::slice::slice_subrange;
use vstd::string::*;
use vstd::utf8::{decode_utf8, valid_utf8};
use crate::bytes::{
    be_bytes, be_bytes_len, be_value, push_all, push_len16, push_u16, push_u32, read_u16,
};
use crate::ip::IpAddr;
use crate::text::utf8_text;

verus! {

/// The longest name, in bytes, with its dots.
pub const MAX_NAME_LEN: usize = 253;

pub const RCODE_NO_ERROR: u8 = 0;

pub const RCODE_REFUSED: u8 = 5;

#[derive(Clone, Copy, Debug, PartialEq, Eq, Structural)]
pub enum QueryType {
    A,
    Aaaa,
}

impl QueryType {
    /// The number of the record type.
    pub open spec fn code(self) -> u16 {
        match self {
            QueryType::A => 1,
            QueryType::Aaaa => 28,
        }
    }

    /// Whether `ip` answers a question of this type.
    pub open spec fn asks_for(self, ip: IpAddr) -> bool {
        match self {
            QueryType::A => ip is V4,
            QueryType::Aaaa => ip is V6,
        }
    }
}

#[derive(Clone, Debug, PartialEq, Eq)]
pub struct DnsQuery {
    pub id: u16,
    /// Dotted name as sent (no trailing dot); match it in normalized form.
    pub name: String,
    pub qtype: QueryType,
    /// The verbatim question section (QNAME, QTYPE, QCLASS), echoed into
    /// responses so that name compression pointers stay valid.
    pub raw_question: Vec<u8>,
}

/// What a query says.
#[verifier::ext_equal]
pub struct QueryModel {
    pub id: u16,
    pub name: Seq<char>,
    pub qtype: QueryType,
    pub raw_question: Seq<u8>,
}

impl View for DnsQuery {
    type V = QueryModel;

    open spec fn view(&self) -> QueryModel {
        QueryModel {
            id: self.id,
            name: self.name@,
            qtype: self.qtype,
            raw_question: self.raw_question@,
        }
    }
}

/// The labels of the uncompressed name at `at`, and where it ends. A length
/// byte with one of its two top bits set is a compression pointer or
/// reserved, and no label.
pub open spec fn labels_at(packet: Seq<u8>, at: int) -> Option<(Seq<Seq<u8>>, int)>
    decreases packet.len() - at,
{
    if at < 0 || at >= packet.len() {
        None
    } else if packet[at] == 0 {
        Some((Seq::empty(), at + 1))
    } else if packet[at] >= 64 || at + 1 + packet[at] > packet.len() {
        None
    } else {
        match labels_at(packet, at + 1 + packet[at]) {
            Some((rest, end)) => Some(
                (seq![packet.subrange(at + 1, at + 1 + packet[at])] + rest, end),
            ),
            None => None,
        }
    }
}

/// The length of the labels joined by dots.
pub open spec fn joined_len(labels: Seq<Seq<u8>>) -> nat
    decreases labels.len(),
{
    if labels.len() == 0 {
        0
    } else {
        joined_len(labels.drop_last()) + (if labels.len() > 1 {
            1nat
        } else {
            0
        }) + labels.last().len()
    }
}

/// The labels as text, joined by dots.
pub open spec fn dotted(labels: Seq<Seq<u8>>) -> Seq<char>
    decreases labels.len(),
{
    if labels.len() == 0 {
        Seq::empty()
    } else {
        dotted(labels.drop_last()) + (if labels.len() > 1 {
            seq!['.']
        } else {
            Seq::empty()
        }) + decode_utf8(labels.last())
    }
}

pub open spec fn all_text(labels: Seq<Seq<u8>>) -> bool {
    forall|i: int| 0 <= i < labels.len() ==> valid_utf8(#[trigger] labels[i])
}

/// The query type with the number `code`.
pub open spec fn query_type(code: nat) -> Option<QueryType> {
    if code == 1 {
        Some(QueryType::A)
    } else if code == 28 {
        Some(QueryType::Aaaa)
    } else {
        None
    }
}

/// The standard single-question A/AAAA query of class IN in `packet`.
pub open spec fn query_in(packet: Seq<u8>) -> Option<QueryModel> {
    let standard_query = packet[2] < 128 && packet[2] / 8 % 16 == 0;
    let one_question = be_value(packet.subrange(4, 6)) == 1;
    if packet.len() >= 12 && standard_query && one_question {
        match labels_at(packet, 12) {
            Some((labels, end)) => {
                let class_in = be_value(packet.subrange(end + 2, end + 4)) == 1;
                let qtype = query_type(be_value(packet.subrange(end, end + 2)));
                if all_text(labels) && joined_len(labels) <= MAX_NAME_LEN && packet.len() >= end + 4
                    && class_in && qtype is Some {
                    Some(
                        QueryModel {
                            id: be_value(packet.subrange(0, 2)) as u16,
                            name: dotted(labels),
                            qtype: qtype->0,
                            raw_question: packet.subrange(12, end + 4),
                        },
                    )
                } else {
                    None
                }
            },
            None => None,
        }
    } else {
        None
    }
}

spec fn after(done: Seq<Seq<u8>>, rest: Option<(Seq<Seq<u8>>, int)>) -> Option<
    (Seq<Seq<u8>>, int),
> {
    match rest {
        Some((labels, end)) => Some((done + labels, end)),
        None => None,
    }
}

proof fn joined_len_grows(a: Seq<Seq<u8>>, b: Seq<Seq<u8>>)
    ensures
        joined_len(a) <= joined_len(a + b),
    decreases b.len(),
{
    if b.len() == 0 {
        assert(a + b =~= a);
    } else {
        assert((a + b).drop_last() =~= a + b.drop_last());
        joined_len_grows(a, b.drop_last());
    }
}

/// Where a name ends, it ends inside the packet, behind its start.
proof fn labels_end(packet: Seq<u8>, at: int)
    ensures
        labels_at(packet, at) matches Some((_, end)) ==> at < end <= packet.len(),
    decreases packet.len() - at,
{
    if 0 <= at < packet.len() && packet[at] != 0 && packet[at] < 64 && at + 1 + packet[at]
        <= packet.len() {
        labels_end(packet, at + 1 + packet[at]);
    }
}

/// Parses a standard single-question A/AAAA query.
pub fn parse_query(packet: &[u8]) -> (query: Option<DnsQuery>)
    ensures
        match query {
            Some(q) => query_in(packet@) == Some(q@),
            None => query_in(packet@) is None,
        },
{
    let len: usize = packet.len();
    if len < 12 {
        return None;
    }
    if packet[2] >= 128 || packet[2] / 8 % 16 != 0 {
        return None;
    }
    if read_u16(packet, 4) != 1 {
        return None;
    }
    let mut name: String = String::new();
    let mut at: usize = 12;
    let mut name_len: usize = 0;
    let ghost mut labels: Seq<Seq<u8>> = Seq::empty();
    proof {
        let rest = labels_at(packet@, 12);
        if rest is Some {
            assert(labels + (rest->0).0 =~= (rest->0).0);
        }
    }
    loop
        invariant_except_break
            labels_at(packet@, 12) == after(labels, labels_at(packet@, at as int)),
            at == 12 <==> labels.len() == 0,
        invariant
            12 <= at <= len,
            len == packet@.len(),
            packet@[2] < 128 && packet@[2] / 8 % 16 == 0,
            be_value(packet@.subrange(4, 6)) == 1,
            all_text(labels),
            name@ == dotted(labels),
            name_len == joined_len(labels),
            name_len <= MAX_NAME_LEN,
        ensures
            labels_at(packet@, 12) == Some((labels, at as int)),
        decreases len - at,
    {
        if at >= len {
            return None;
        }
        let label_len: usize = packet[at] as usize;
        if label_len == 0 {
            at = at + 1;
            assert(labels + Seq::<Seq<u8>>::empty() =~= labels);
            break;
        }
        if label_len >= 64 {
            return None;
        }
        if len - at - 1 < label_len {
            return None;
        }
        let label: &[u8] = slice_subrange(packet, at + 1, at + 1 + label_len);
        let ghost longer = labels.push(label@);
        let ghost rest = labels_at(packet@, at + 1 + label_len);
        proof {
            assert(longer.drop_last() =~= labels);
            if rest is Some {
                assert(labels + (seq![label@] + (rest->0).0) =~= longer + (rest->0).0);
            }
            assert(labels_at(packet@, 12) == after(longer, rest));
            if rest is Some {
                joined_len_grows(longer, (rest->0).0);
                assert((longer + (rest->0).0)[labels.len() as int] == label@);
            }
        }
        if at != 12 {
            name.push('.');
            name_len = name_len + 1;
        }
        match utf8_text(label) {
            Some(text) => {
                name.append(text.as_str());
            },
            None => {
                return None;
            },
        }
        name_len = name_len + label_len;
        proof {
            assert(name@ =~= dotted(longer));
        }
        if name_len > MAX_NAME_LEN {
            return None;
        }
        proof {
            labels = longer;
        }
        at = at + 1 + label_len;
    }
    if len - at < 4 {
        return None;
    }
    let code: u16 = read_u16(packet, at);
    if read_u16(packet, at + 2) != 1 {
        return None;
    }
    let qtype: QueryType = if code == 1 {
        QueryType::A
    } else if code == 28 {
        QueryType::Aaaa
    } else {
        return None;
    };
    let mut raw_question: Vec<u8> = Vec::new();
    push_all(&mut raw_question, slice_subrange(packet, 12, at + 4));
    assert(raw_question@ =~= packet@.subrange(12, at + 4));
    Some(DnsQuery { id: read_u16(packet, 0), name, qtype, raw_question })
}

/// The header of a response to `id`: QR and AA set, the question counted.
pub open spec fn response_header(id: u16, rcode: u8, answers: nat) -> Seq<u8> {
    be_bytes(id as nat, 2) + seq![0x84u8, rcode] + be_bytes(1, 2) + be_bytes(answers, 2) + seq![
        0u8,
        0u8,
        0u8,
        0u8,
    ]
}

/// The addresses that answer a question of type `qtype`, in order.
pub open spec fn answering(qtype: QueryType, ips: Seq<IpAddr>) -> Seq<IpAddr> {
    ips.filter(|ip: IpAddr| qtype.asks_for(ip))
}

/// The record that gives `ip` for the name of the question, which stands at
/// offset 12 of the packet.
pub open spec fn answer_record(ip: IpAddr, ttl_seconds: u32) -> Seq<u8> {
    let code: nat = if ip is V4 {
        1
    } else {
        28
    };
    seq![0xC0u8, 0x0Cu8] + be_bytes(code, 2) + be_bytes(1, 2) + be_bytes(ttl_seconds as nat, 4)
        + be_bytes(ip.octets().len(), 2) + ip.octets()
}

pub open spec fn answer_records(ips: Seq<IpAddr>, ttl_seconds: u32) -> Seq<u8>
    decreases ips.len(),
{
    if ips.len() == 0 {
        Seq::empty()
    } else {
        answer_records(ips.drop_last(), ttl_seconds) + answer_record(ips.last(), ttl_seconds)
    }
}

/// The answer to `query`: its question, then one record per address of the
/// question's family.
pub open spec fn response_to(query: QueryModel, ips: Seq<IpAddr>, ttl_seconds: u32) -> Seq<u8> {
    let answers = answering(query.qtype, ips);
    response_header(query.id, RCODE_NO_ERROR, answers.len()) + query.raw_question + answer_records(
        answers,
        ttl_seconds,
    )
}

/// The refusal of `query`: its question and the code for REFUSED.
pub open spec fn refusal_of(query: QueryModel) -> Seq<u8> {
    response_header(query.id, RCODE_REFUSED, 0) + query.raw_question
}

fn header(query: &DnsQuery, rcode: u8, ancount: usize) -> (out: Vec<u8>)
    ensures
        out@ == response_header(query.id, rcode, ancount as nat),
{
    broadcast use be_bytes_len;

    let mut out: Vec<u8> = Vec::new();
    push_u16(&mut out, query.id);
    out.push(0x84);
    out.push(rcode);
    assert(out@ =~= be_bytes(query.id as nat, 2) + seq![0x84u8, rcode]);
    push_u16(&mut out, 1);
    push_len16(&mut out, ancount);
    let ghost before = out@;
    out.push(0);
    out.push(0);
    out.push(0);
    out.push(0);
    assert(out@ =~= before + seq![0u8, 0u8, 0u8, 0u8]);
    out
}

fn push_answer(out: &mut Vec<u8>, ip: IpAddr, ttl_seconds: u32)
    ensures
        final(out)@ == old(out)@ + answer_record(ip, ttl_seconds),
{
    broadcast use be_bytes_len;

    let (code, len): (u16, u16) = match ip {
        IpAddr::V4(_) => (1, 4),
        IpAddr::V6(_) => (28, 16),
    };
    out.push(0xC0);
    out.push(0x0C);
    push_u16(out, code);
    push_u16(out, 1);
    push_u32(out, ttl_seconds);
    push_u16(out, len);
    ip.push_octets(out);
    assert(out@ =~= old(out)@ + answer_record(ip, ttl_seconds));
}

/// Builds the answer for an allow-listed name: echoes the question, then one
/// record per IP of the question's family, each pointing back at the name of
/// the question with the egress gate's TTL.
pub fn build_response(query: &DnsQuery, ips: &[IpAddr], ttl_seconds: u32) -> (out: Vec<u8>)
    ensures
        out@ == response_to(query@, ips@, ttl_seconds),
{
    let ghost asked = |ip: IpAddr| query.qtype.asks_for(ip);
    let mut answers: Vec<IpAddr> = Vec::new();
    let mut i: usize = 0;
    assert(ips@.subrange(0, 0).filter(asked) =~= Seq::<IpAddr>::empty()) by {
        reveal(Seq::filter);
    }
    while i < ips.len()
        invariant
            i <= ips@.len(),
            asked == (|ip: IpAddr| query.qtype.asks_for(ip)),
            answers@ == ips@.subrange(0, i as int).filter(asked),
        decreases ips@.len() - i,
    {
        let ip: IpAddr = ips[i];
        proof {
            assert(ips@.subrange(0, i + 1).drop_last() =~= ips@.subrange(0, i as int));
            reveal(Seq::filter);
        }
        let wanted: bool = match (query.qtype, ip) {
            (QueryType::A, IpAddr::V4(_)) => true,
            (QueryType::Aaaa, IpAddr::V6(_)) => true,
            _ => false,
        };
        if wanted {
            answers.push(ip);
        }
        i = i + 1;
    }
    assert(ips@.subrange(0, i as int) =~= ips@);
    let mut out: Vec<u8> = header(query, RCODE_NO_ERROR, answers.len());
    push_all(&mut out, query.raw_question.as_slice());
    let ghost start = out@;
    i = 0;
    assert(start =~= start + answer_records(answers@.subrange(0, 0), ttl_seconds));
    while i < answers.len()
        invariant
            i <= answers@.len(),
            out@ == start + answer_records(answers@.subrange(0, i as int), ttl_seconds),
        decreases answers@.len() - i,
    {
        let ghost before = out@;
        push_answer(&mut out, answers[i], ttl_seconds);
        proof {
            assert(answers@.subrange(0, i + 1).drop_last() =~= answers@.subrange(0, i as int));
            assert(out@ =~= start + answer_records(answers@.subrange(0, i + 1), ttl_seconds));
        }
        i = i + 1;
    }
    assert(answers@.subrange(0, i as int) =~= answers@);
    assert(out@ =~= response_to(query@, ips@, ttl_seconds));
    out
}

/// REFUSED: the name is not allow-listed. Distinct from NXDOMAIN on purpose:
/// the name may well exist; this resolver refuses to say.
pub fn build_refused(query: &DnsQuery) -> (out: Vec<u8>)
    ensures
        out@ == refusal_of(query@),
{
    let mut out: Vec<u8> = header(query, RCODE_REFUSED, 0);
    push_all(&mut out, query.raw_question.as_slice());
    out
}

// ---------------------------------------------------------------------------
// Laws
// ---------------------------------------------------------------------------

/// A response or a refusal echoes the id and the question, and is never
/// itself taken for a query.
pub proof fn responses_echo_the_question(query: QueryModel, ips: Seq<IpAddr>, ttl_seconds: u32)
    ensures
        ({
            let len = query.raw_question.len() as int;
            let response = response_to(query, ips, ttl_seconds);
            let refusal = refusal_of(query);
            &&& response.subrange(0, 2) == be_bytes(query.id as nat, 2)
            &&& response.subrange(12, 12 + len) == query.raw_question
            &&& response[3] == RCODE_NO_ERROR
            &&& query_in(response) is None
            &&& refusal.subrange(0, 2) == be_bytes(query.id as nat, 2)
            &&& refusal.skip(12) == query.raw_question
            &&& refusal[3] == RCODE_REFUSED
            &&& query_in(refusal) is None
        }),
{
    broadcast use be_bytes_len;

    let len = query.raw_question.len() as int;
    let response = response_to(query, ips, ttl_seconds);
    let refusal = refusal_of(query);
    assert(response.subrange(0, 2) =~= be_bytes(query.id as nat, 2));
    assert(response.subrange(12, 12 + len) =~= query.raw_question);
    assert(refusal.subrange(0, 2) =~= be_bytes(query.id as nat, 2));
    assert(refusal.skip(12) =~= query.raw_question);
    assert(response[2] == 0x84 && refusal[2] == 0x84);
}

/// Only addresses of the question's family are ever answered.
pub proof fn answers_have_the_question_family(qtype: QueryType, ips: Seq<IpAddr>, i: int)
    requires
        0 <= i < answering(qtype, ips).len(),
    ensures
        qtype.asks_for(answering(qtype, ips)[i]),
        ips.contains(answering(qtype, ips)[i]),
{
    let asked = |ip: IpAddr| qtype.asks_for(ip);
    ips.lemma_filter_pred(asked, i);
    assert(answering(qtype, ips).contains(answering(qtype, ips)[i]));
    ips.lemma_filter_contains_rev(asked, answering(qtype, ips)[i]);
}

/// A name reads the same in two packets that agree up to its end.
proof fn labels_read_alike(a: Seq<u8>, b: Seq<u8>, at: int, end: int)
    requires
        0 <= at,
        labels_at(a, at) is Some,
        (labels_at(a, at)->0).1 <= end <= a.len(),
        end <= b.len(),
        forall|i: int| at <= i < end ==> a[i] == b[i],
    ensures
        labels_at(b, at) == labels_at(a, at),
    decreases a.len() - at,
{
    labels_end(a, at);
    if a[at] != 0 {
        let next = at + 1 + a[at];
        labels_end(a, next);
        labels_read_alike(a, b, next, end);
        assert(a.subrange(at + 1, next) =~= b.subrange(at + 1, next));
    }
}

/// The question that a parse keeps is all there is to the query: put behind
/// any header of a standard one-question query with the same id, it parses to
/// the same query.
pub proof fn question_round_trips(packet: Seq<u8>, header: Seq<u8>)
    requires
        query_in(packet) is Some,
        header.len() == 12,
        header[2] < 128,
        header[2] / 8 % 16 == 0,
        be_value(header.subrange(4, 6)) == 1,
        be_value(header.subrange(0, 2)) == (query_in(packet)->0).id,
    ensures
        query_in(header + (query_in(packet)->0).raw_question) == query_in(packet),
{
    let query = query_in(packet)->0;
    let again = header + query.raw_question;
    let (labels, end) = labels_at(packet, 12)->0;
    labels_end(packet, 12);
    labels_read_alike(packet, again, 12, end + 4);
    assert(again.subrange(0, 2) =~= header.subrange(0, 2));
    assert(again.subrange(4, 6) =~= header.subrange(4, 6));
    assert(again.subrange(end, end + 2) =~= packet.subrange(end, end + 2));
    assert(again.subrange(end + 2, end + 4) =~= packet.subrange(end + 2, end + 4));
    assert(again.subrange(12, end + 4) =~= packet.subrange(12, end + 4));
}

} // verus!
