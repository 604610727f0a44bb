//! What holds of DNS packets, told in terms of their bytes.

use vstd::prelude::*;
use vstd::utf8::{decode_utf8, valid_utf8};
use crate::bytes::{be_bytes, be_bytes_four, be_bytes_len, be_bytes_two, be_value_two};
use crate::dns::{
    all_text, answer_record, answer_records, answering, dotted, joined_len, labels_at, query_in,
    refusal_of, response_to, QueryModel, QueryType,
};
use crate::ip::IpAddr;
use crate::wire_laws::word_at;

verus! {

/// A name on the wire: each label behind its length, then a zero.
pub open spec fn name_bytes(labels: Seq<Seq<u8>>) -> Seq<u8>
    decreases labels.len(),
{
    if labels.len() == 0 {
        seq![0u8]
    } else {
        seq![labels[0].len() as u8] + labels[0] + name_bytes(labels.skip(1))
    }
}

/// Whether `labels` make a name: each has 1 to 63 bytes, all of them text, and
/// on the wire they take at most 255 bytes.
pub open spec fn is_name(labels: Seq<Seq<u8>>) -> bool {
    &&& forall|i: int|
        0 <= i < labels.len() ==> 1 <= (#[trigger] labels[i]).len() <= 63 && valid_utf8(labels[i])
    &&& name_bytes(labels).len() <= 255
}

/// The question for `labels`: the name, the number of the type (1 for A, 28
/// for AAAA), and class 1.
pub open spec fn question_bytes(labels: Seq<Seq<u8>>, qtype: QueryType) -> Seq<u8> {
    name_bytes(labels) + seq![
        0u8,
        match qtype {
            QueryType::A => 1u8,
            QueryType::Aaaa => 28u8,
        },
        0u8,
        1u8,
    ]
}

/// A name takes one byte more than its dotted form for each label, and one for
/// the zero: two more than with the dots between its labels.
pub proof fn dotted_length_of_a_name(labels: Seq<Seq<u8>>)
    ensures
        labels.len() > 0 ==> name_bytes(labels).len() == joined_len(labels) + 2,
        labels.len() == 0 ==> name_bytes(labels).len() == 1 && joined_len(labels) == 0,
    decreases labels.len(),
{
    if labels.len() == 1 {
        assert(labels.drop_last() =~= Seq::empty());
        assert(labels.skip(1) =~= Seq::empty());
        reveal_with_fuel(joined_len, 2);
        reveal_with_fuel(name_bytes, 2);
    } else if labels.len() > 1 {
        let rest = labels.skip(1);
        dotted_length_of_a_name(rest);
        joined_len_from_the_front(labels);
    }
}

proof fn joined_len_from_the_front(labels: Seq<Seq<u8>>)
    requires
        labels.len() > 1,
    ensures
        joined_len(labels) == labels[0].len() + 1 + joined_len(labels.skip(1)),
    decreases labels.len(),
{
    let front = labels.drop_last();
    let rest = labels.skip(1);
    assert(rest.drop_last() =~= front.skip(1));
    if labels.len() == 2 {
        assert(front.drop_last() =~= Seq::empty());
        assert(rest.drop_last() =~= Seq::empty());
        reveal_with_fuel(joined_len, 3);
    } else {
        joined_len_from_the_front(front);
    }
}

/// Labels are joined by single dots, in order: one label is its own text, and
/// the text of two names in a row has a dot between them.
pub proof fn labels_are_joined_by_dots(
    front: Seq<Seq<u8>>,
    back: Seq<Seq<u8>>,
    label: Seq<u8>,
)
    ensures
        dotted(Seq::empty()) == Seq::<char>::empty(),
        dotted(seq![label]) == decode_utf8(label),
        front.len() > 0 && back.len() > 0 ==> dotted(front + back) == dotted(front) + seq!['.']
            + dotted(back),
    decreases back.len(),
{
    reveal_with_fuel(dotted, 2);
    assert(seq![label].drop_last() =~= Seq::empty());
    assert(dotted(seq![label]) =~= decode_utf8(label));
    if front.len() > 0 && back.len() > 0 {
        let all = front + back;
        let less = back.drop_last();
        assert(all.drop_last() =~= front + less);
        if back.len() == 1 {
            assert(front + less =~= front);
            assert(less =~= Seq::empty());
            assert(dotted(back) =~= decode_utf8(back.last()));
            assert(dotted(all) =~= dotted(front) + seq!['.'] + dotted(back));
        } else {
            labels_are_joined_by_dots(front, less, label);
            assert(dotted(all) =~= dotted(front) + seq!['.'] + dotted(back));
        }
    }
}

proof fn written_labels_read_back(packet: Seq<u8>, at: int, labels: Seq<Seq<u8>>)
    requires
        0 <= at,
        at + name_bytes(labels).len() <= packet.len(),
        packet.subrange(at, at + name_bytes(labels).len()) == name_bytes(labels),
        forall|i: int| 0 <= i < labels.len() ==> 1 <= (#[trigger] labels[i]).len() <= 63,
    ensures
        labels_at(packet, at) == Some((labels, at + name_bytes(labels).len())),
    decreases labels.len(),
{
    let bytes = name_bytes(labels);
    let here = packet.subrange(at, at + bytes.len());
    assert(here[0] == packet[at]);
    if labels.len() == 0 {
        assert(labels =~= Seq::empty());
    } else {
        let first = labels[0];
        let rest = labels.skip(1);
        let next = at + 1 + first.len();
        assert(bytes[0] == first.len());
        assert(packet.subrange(next, next + name_bytes(rest).len()) =~= name_bytes(rest)) by {
            assert(here.skip(1 + first.len() as int) =~= name_bytes(rest));
            assert(here.skip(1 + first.len() as int) =~= packet.subrange(
                next,
                next + name_bytes(rest).len(),
            ));
        }
        assert forall|i: int| 0 <= i < rest.len() implies 1 <= (#[trigger] rest[i]).len()
            <= 63 by {
            assert(rest[i] == labels[i + 1]);
        }
        written_labels_read_back(packet, next, rest);
        assert(packet.subrange(at + 1, next) =~= first) by {
            assert(here.subrange(1, 1 + first.len() as int) =~= first);
            assert(here.subrange(1, 1 + first.len() as int) =~= packet.subrange(at + 1, next));
        }
        assert(seq![first] + rest =~= labels);
    }
}

proof fn read_labels_were_written(packet: Seq<u8>, at: int)
    requires
        0 <= at,
        labels_at(packet, at) is Some,
    ensures
        ({
            let (labels, end) = labels_at(packet, at)->0;
            &&& at < end <= packet.len()
            &&& packet.subrange(at, end) == name_bytes(labels)
            &&& forall|i: int| 0 <= i < labels.len() ==> 1 <= (#[trigger] labels[i]).len() <= 63
        }),
    decreases packet.len() - at,
{
    let (labels, end) = labels_at(packet, at)->0;
    if packet[at] == 0 {
        assert(packet.subrange(at, end) =~= name_bytes(labels));
    } else {
        let next = at + 1 + packet[at];
        read_labels_were_written(packet, next);
        let rest = (labels_at(packet, next)->0).0;
        assert(labels.skip(1) =~= rest);
        assert(packet.subrange(at, end) =~= seq![packet[at]] + packet.subrange(at + 1, next)
            + packet.subrange(next, end));
        assert forall|i: int| 0 <= i < labels.len() implies 1 <= (#[trigger] labels[i]).len()
            <= 63 by {
            if i > 0 {
                assert(labels[i] == rest[i - 1]);
            }
        }
    }
}

/// Queries parse exactly: a header that is no response, of opcode 0 and with
/// one question, before the question for a name, parses to the header's id,
/// the name with its dots, the type and the question as it stands, whatever
/// follows; and whatever parses is such a packet.
pub proof fn queries_parse_exactly(
    packet: Seq<u8>,
    labels: Seq<Seq<u8>>,
    qtype: QueryType,
    behind: Seq<u8>,
)
    ensures
        packet.len() >= 12 && packet[2] < 128 && packet[2] / 8 == 0 && packet[4] == 0 && packet[5]
            == 1 && is_name(labels) && packet.skip(12) == question_bytes(labels, qtype) + behind
            ==> query_in(packet) == Some(
            QueryModel {
                id: word_at(packet, 0) as u16,
                name: dotted(labels),
                qtype,
                raw_question: question_bytes(labels, qtype),
            },
        ),
        query_in(packet) matches Some(query) ==> packet.len() >= 12 && packet[2] / 8 == 0
            && packet[4] == 0 && packet[5] == 1 && query.id == word_at(packet, 0) && exists|
            read: Seq<Seq<u8>>,
        |
            #[trigger] is_name(read) && query.name == dotted(read) && query.raw_question
                == question_bytes(read, query.qtype) && query.raw_question.is_prefix_of(
                packet.skip(12),
            ),
{
    if packet.len() >= 12 && packet[2] / 8 == 0 && packet[4] == 0 && packet[5] == 1 && is_name(
        labels,
    ) && packet.skip(12) == question_bytes(labels, qtype) + behind {
        let name = name_bytes(labels);
        let question = question_bytes(labels, qtype);
        let end = 12 + name.len() as int;
        let body = packet.skip(12);
        assert(body.len() == packet.len() - 12);
        assert(body.len() == name.len() + 4 + behind.len());
        assert(body.subrange(0, name.len() as int) =~= name);
        assert(packet.subrange(12, end) =~= body.subrange(0, name.len() as int));
        written_labels_read_back(packet, 12, labels);
        dotted_length_of_a_name(labels);
        assert(packet.subrange(12, end + 4) =~= question) by {
            assert(body.subrange(0, name.len() as int + 4) =~= question);
        }
        let n = name.len() as int;
        assert(packet[end] == body[n] && packet[end + 1] == body[n + 1] && packet[end + 2] == body[n
            + 2] && packet[end + 3] == body[n + 3]);
        assert(body[n] == question[n] && body[n + 1] == question[n + 1] && body[n + 2]
            == question[n + 2] && body[n + 3] == question[n + 3]);
        be_value_two(packet.subrange(0, 2));
        be_value_two(packet.subrange(4, 6));
        be_value_two(packet.subrange(end, end + 2));
        be_value_two(packet.subrange(end + 2, end + 4));
        assert(all_text(labels));
    }
    if query_in(packet) is Some {
        let query = query_in(packet)->0;
        let (read, end) = labels_at(packet, 12)->0;
        read_labels_were_written(packet, 12);
        dotted_length_of_a_name(read);
        be_value_two(packet.subrange(0, 2));
        be_value_two(packet.subrange(4, 6));
        be_value_two(packet.subrange(end, end + 2));
        be_value_two(packet.subrange(end + 2, end + 4));
        assert(is_name(read));
        assert(packet.subrange(12, end + 4) =~= packet.subrange(12, end) + packet.subrange(
            end,
            end + 4,
        ));
        assert(query.raw_question =~= question_bytes(read, query.qtype));
        assert(query.raw_question =~= packet.skip(12).subrange(
            0,
            query.raw_question.len() as int,
        ));
    }
}

/// How many octets an answer to a question of type `qtype` has.
pub open spec fn octet_count(qtype: QueryType) -> int {
    match qtype {
        QueryType::A => 4,
        QueryType::Aaaa => 16,
    }
}

/// Whether `record` is a record for the name at offset 12 that answers a
/// question of type `qtype` with `ip`: type 1 with four octets, or type 28 with
/// sixteen, class 1.
pub open spec fn gives(record: Seq<u8>, qtype: QueryType, ip: IpAddr, ttl_seconds: u32) -> bool {
    &&& record.len() == 12 + octet_count(qtype)
    &&& word_at(record, 0) == 0xC000 + 12
    &&& word_at(record, 2) == match qtype {
        QueryType::A => 1int,
        QueryType::Aaaa => 28,
    }
    &&& word_at(record, 4) == 1
    &&& word_at(record, 6) * 65536 + word_at(record, 8) == ttl_seconds
    &&& word_at(record, 10) == octet_count(qtype)
    &&& match (qtype, ip) {
        (QueryType::A, IpAddr::V4(bits)) => record.skip(12) == be_bytes(bits as nat, 4),
        (QueryType::Aaaa, IpAddr::V6(bits)) => record.skip(12) == be_bytes(bits as nat, 16),
        _ => false,
    }
}

proof fn one_record(qtype: QueryType, ip: IpAddr, ttl_seconds: u32)
    requires
        match qtype {
            QueryType::A => ip is V4,
            QueryType::Aaaa => ip is V6,
        },
    ensures
        gives(answer_record(ip, ttl_seconds), qtype, ip, ttl_seconds),
{
    broadcast use be_bytes_len;

    let record = answer_record(ip, ttl_seconds);
    be_bytes_two(1);
    be_bytes_two(28);
    be_bytes_two(4);
    be_bytes_two(16);
    be_bytes_four(ttl_seconds as nat);
    match ip {
        IpAddr::V4(bits) => {
            assert(record.skip(12) =~= be_bytes(bits as nat, 4));
        },
        IpAddr::V6(bits) => {
            assert(record.skip(12) =~= be_bytes(bits as nat, 16));
        },
    }
}

proof fn records_in_a_row(qtype: QueryType, ips: Seq<IpAddr>, ttl_seconds: u32, i: int)
    requires
        forall|k: int| 0 <= k < ips.len() ==> qtype.asks_for(#[trigger] ips[k]),
        0 <= i < ips.len(),
    ensures
        ({
            let size = 12 + octet_count(qtype);
            let records = answer_records(ips, ttl_seconds);
            &&& records.len() == size * ips.len()
            &&& 0 <= size * i
            &&& size * i + size <= records.len()
            &&& gives(records.subrange(size * i, size * i + size), qtype, ips[i], ttl_seconds)
        }),
    decreases ips.len(),
{
    let size = 12 + octet_count(qtype);
    let front = ips.drop_last();
    let records = answer_records(ips, ttl_seconds);
    let before = answer_records(front, ttl_seconds);
    let last = ips.len() - 1;
    assert(qtype.asks_for(ips[last]));
    one_record(qtype, ips.last(), ttl_seconds);
    assert forall|k: int| 0 <= k < front.len() implies qtype.asks_for(#[trigger] front[k]) by {
        assert(front[k] == ips[k]);
    }
    if front.len() > 0 {
        records_in_a_row(qtype, front, ttl_seconds, if i < last { i } else { 0 });
    } else {
        assert(before.len() == 0);
    }
    assert(before.len() == size * last);
    assert(size * (last + 1) == size * last + size) by (nonlinear_arith);
    if i == last {
        assert(records.subrange(size * i, size * i + size) =~= answer_record(
            ips.last(),
            ttl_seconds,
        ));
    } else {
        assert(records.subrange(size * i, size * i + size) =~= before.subrange(
            size * i,
            size * i + size,
        ));
    }
}

/// What is answered, told address by address: one of the question's family is
/// kept and one of the other is not, and answers to two lists in a row are the
/// answers to each, in order.
pub proof fn answers_are_picked_by_family(
    qtype: QueryType,
    ip: IpAddr,
    front: Seq<IpAddr>,
    back: Seq<IpAddr>,
)
    ensures
        answering(qtype, Seq::empty()) == Seq::<IpAddr>::empty(),
        answering(qtype, seq![ip]) == (if (qtype == QueryType::A) == (ip is V4) {
            seq![ip]
        } else {
            Seq::empty()
        }),
        answering(qtype, front + back) == answering(qtype, front) + answering(qtype, back),
{
    let asked = |ip: IpAddr| qtype.asks_for(ip);
    reveal_with_fuel(Seq::filter, 2);
    assert(seq![ip].drop_last() =~= Seq::empty());
    assert(answering(qtype, Seq::empty()) =~= Seq::empty());
    assert(answering(qtype, seq![ip]) =~= if (qtype == QueryType::A) == (ip is V4) {
        seq![ip]
    } else {
        Seq::empty()
    });
    Seq::filter_distributes_over_add(front, back, asked);
}

/// A response on the wire: the query's id; a response with authority and no
/// error; one question and as many answers as there are addresses to give, and
/// nothing else counted; the question; then one record for each address, in
/// order, of the question's own type; and nothing behind them.
pub proof fn responses_on_the_wire(query: QueryModel, ips: Seq<IpAddr>, ttl_seconds: u32, i: int)
    requires
        answering(query.qtype, ips).len() < 65536,
    ensures
        ({
            let response = response_to(query, ips, ttl_seconds);
            let answers = answering(query.qtype, ips);
            let size = 12 + octet_count(query.qtype);
            let start = 12 + query.raw_question.len();
            &&& word_at(response, 0) == query.id
            &&& response[2] == 0x84
            &&& response[3] == 0
            &&& word_at(response, 4) == 1
            &&& word_at(response, 6) == answers.len()
            &&& word_at(response, 8) == 0
            &&& word_at(response, 10) == 0
            &&& response.subrange(12, start as int) == query.raw_question
            &&& response.len() == start + size * answers.len()
            &&& 0 <= i < answers.len() ==> gives(
                response.subrange(start + size * i, start + size * i + size),
                query.qtype,
                answers[i],
                ttl_seconds,
            )
        }),
{
    broadcast use be_bytes_len;

    let response = response_to(query, ips, ttl_seconds);
    let answers = answering(query.qtype, ips);
    let size = 12 + octet_count(query.qtype);
    let start = 12 + query.raw_question.len() as int;
    let records = answer_records(answers, ttl_seconds);
    be_bytes_two(query.id as nat);
    be_bytes_two(1);
    be_bytes_two(answers.len());
    assert(response.subrange(12, start) =~= query.raw_question);
    assert forall|k: int| 0 <= k < answers.len() implies query.qtype.asks_for(
        #[trigger] answers[k],
    ) by {
        crate::dns::answers_have_the_question_family(query.qtype, ips, k);
    }
    if answers.len() > 0 {
        let k = if 0 <= i < answers.len() {
            i
        } else {
            0
        };
        records_in_a_row(query.qtype, answers, ttl_seconds, k);
        assert(response.subrange(start + size * k, start + size * k + size) =~= records.subrange(
            size * k,
            size * k + size,
        ));
    } else {
        assert(records.len() == 0);
        assert(size * answers.len() == 0) by (nonlinear_arith)
            requires
                answers.len() == 0,
        ;
    }
}

/// A refusal on the wire: the query's id, a response with authority and code 5,
/// one question and nothing else counted, the question, and nothing behind it.
pub proof fn refusals_on_the_wire(query: QueryModel)
    ensures
        ({
            let refusal = refusal_of(query);
            &&& word_at(refusal, 0) == query.id
            &&& refusal[2] == 0x84
            &&& refusal[3] == 5
            &&& word_at(refusal, 4) == 1
            &&& word_at(refusal, 6) == 0
            &&& word_at(refusal, 8) == 0
            &&& word_at(refusal, 10) == 0
            &&& refusal.skip(12) == query.raw_question
        }),
{
    broadcast use be_bytes_len;

    be_bytes_two(query.id as nat);
    be_bytes_two(1);
    be_bytes_two(0);
    assert(refusal_of(query).skip(12) =~= query.raw_question);
}

} // verus!
