//! Relay decisions for flows that are open: which way bytes move next on a
//! TCP flow, when it is over, and what a ping socket's packets become.

use vstd::prelude::*;
use vstd::slice::slice_subrange;
use crate::bytes::{be_value, be_value_two, read_u16};
use crate::ip::IpAddr;
use crate::wire::{word_sum, EchoModel, IcmpEchoInfo, ICMPV6_ECHO_REPLY, ICMP_ECHO_REPLY};
use crate::wire_laws::{carries, echo_reply_on_the_wire, ping_number, word_at};
use crate::wire_reply::{echo_reply_frame, synthesize_echo_reply};

verus! {

/// What a non-blocking read or write came to.
#[derive(Clone, Copy, Debug, PartialEq, Eq, Structural)]
pub enum IoOutcome {
    Moved(usize),
    WouldBlock,
    Failed,
}

/// How a direction of a flow goes on.
#[derive(Clone, Copy, Debug, PartialEq, Eq, Structural)]
pub enum StreamStep {
    /// Bytes moved: try again at once.
    Again,
    /// Nothing to do for now.
    Stop,
    /// The far side is done: close towards the guest.
    Close,
    /// The far side broke: reset the guest's connection.
    Abort,
}

/// What the guest-to-upstream direction needs next.
#[derive(Clone, Copy, Debug, PartialEq, Eq, Structural)]
pub enum GuestStep {
    /// Bytes are pending: write them upstream.
    Write,
    /// Take what the guest has sent.
    Pull,
    /// The guest has sent nothing.
    Stop,
}

/// What became of the host-side connect of a flow.
#[derive(Clone, Copy, Debug, PartialEq, Eq, Structural)]
pub enum ConnectOutcome {
    Pending,
    Connected,
    Failed,
    /// The connecting thread is gone without a result.
    Lost,
}

/// What a flow whose connect is running does next.
#[derive(Clone, Copy, Debug, PartialEq, Eq, Structural)]
pub enum ConnectStep {
    Wait,
    /// Start relaying.
    Relay,
    /// Allowed but unreachable: reset the guest's connection, forget the flow.
    Abort,
}

/// How a stream goes on after `outcome`: no byte means that the far side has
/// ended it.
pub open spec fn step_after(outcome: IoOutcome) -> StreamStep {
    match outcome {
        IoOutcome::Moved(n) => if n == 0 {
            StreamStep::Close
        } else {
            StreamStep::Again
        },
        IoOutcome::WouldBlock => StreamStep::Stop,
        IoOutcome::Failed => StreamStep::Abort,
    }
}

/// What happens to the guest-to-upstream direction of a flow.
pub enum RelayEvent {
    /// These bytes came from the guest.
    Pulled(Seq<u8>),
    /// Writing the pending bytes upstream came to this.
    Wrote(IoOutcome),
}

impl RelayEvent {
    /// Whether this can happen while `pending` is pending: bytes are taken
    /// from the guest only once all is written, and no more is written than
    /// there is.
    pub open spec fn fits(self, pending: Seq<u8>) -> bool {
        match self {
            RelayEvent::Pulled(_) => pending.len() == 0,
            RelayEvent::Wrote(IoOutcome::Moved(n)) => n <= pending.len(),
            RelayEvent::Wrote(_) => true,
        }
    }

    /// What is pending after this.
    pub open spec fn leaves(self, pending: Seq<u8>) -> Seq<u8> {
        match self {
            RelayEvent::Pulled(taken) => taken,
            RelayEvent::Wrote(IoOutcome::Moved(n)) => pending.skip(n as int),
            RelayEvent::Wrote(_) => pending,
        }
    }

    /// The bytes that this takes from the guest.
    pub open spec fn taken(self) -> Seq<u8> {
        match self {
            RelayEvent::Pulled(taken) => taken,
            RelayEvent::Wrote(_) => Seq::empty(),
        }
    }

    /// The bytes that this writes upstream, where `pending` is pending.
    pub open spec fn sent(self, pending: Seq<u8>) -> Seq<u8> {
        match self {
            RelayEvent::Wrote(IoOutcome::Moved(n)) => pending.subrange(0, n as int),
            _ => Seq::empty(),
        }
    }
}

/// The relay state of one established TCP flow.
#[derive(Debug)]
pub struct Relay {
    /// Bytes received from the guest and not yet written upstream.
    pub pending: Vec<u8>,
}

impl Relay {
    pub fn new() -> (relay: Relay)
        ensures
            relay.pending@ == Seq::<u8>::empty(),
    {
        Relay { pending: Vec::new() }
    }

    /// What the guest-to-upstream direction needs next: pending bytes go
    /// first, so the guest's order is kept.
    pub fn guest_step(&self, can_recv: bool) -> (step: GuestStep)
        ensures
            step == (if self.pending@.len() > 0 {
                GuestStep::Write
            } else if can_recv {
                GuestStep::Pull
            } else {
                GuestStep::Stop
            }),
    {
        if self.pending.len() > 0 {
            GuestStep::Write
        } else if can_recv {
            GuestStep::Pull
        } else {
            GuestStep::Stop
        }
    }

    /// Takes bytes from the guest; returns whether there were any.
    pub fn pulled(&mut self, taken: Vec<u8>) -> (any: bool)
        requires
            RelayEvent::Pulled(taken@).fits(old(self).pending@),
        ensures
            final(self).pending@ == RelayEvent::Pulled(taken@).leaves(old(self).pending@),
            any == (taken@.len() > 0),
    {
        let any: bool = taken.len() > 0;
        self.pending = taken;
        any
    }

    /// Takes what came of writing the pending bytes upstream: what was
    /// written is no longer pending, the rest stays in order.
    pub fn wrote(&mut self, outcome: IoOutcome) -> (step: StreamStep)
        requires
            RelayEvent::Wrote(outcome).fits(old(self).pending@),
        ensures
            step == step_after(outcome),
            final(self).pending@ == RelayEvent::Wrote(outcome).leaves(old(self).pending@),
    {
        match outcome {
            IoOutcome::Moved(n) => {
                if n == 0 {
                    assert(self.pending@.skip(0) =~= self.pending@);
                    return StreamStep::Close;
                }
                let ghost before = self.pending@;
                self.pending = self.pending.split_off(n);
                assert(self.pending@ =~= before.skip(n as int));
                StreamStep::Again
            },
            IoOutcome::WouldBlock => StreamStep::Stop,
            IoOutcome::Failed => StreamStep::Abort,
        }
    }

    /// Whether the flow is over: the guest's side is closed and nothing of
    /// what it sent is left.
    pub fn finished(&self, guest_active: bool, can_recv: bool) -> (over: bool)
        ensures
            over == (!guest_active && self.pending@.len() == 0 && !can_recv),
    {
        !guest_active && self.pending.len() == 0 && !can_recv
    }
}

/// How many bytes to read from upstream: no more than the guest-side socket
/// can queue and the buffer holds. `None` where there is no room.
pub fn read_budget(can_send: bool, send_capacity: usize, send_queue: usize, buffer: usize) -> (take:
    Option<usize>)
    requires
        send_queue <= send_capacity,
        buffer > 0,
    ensures
        match take {
            Some(n) => can_send && send_queue < send_capacity && n > 0 && n == if send_capacity
                - send_queue < buffer {
                send_capacity - send_queue
            } else {
                buffer as int
            },
            None => !can_send || send_queue == send_capacity,
        },
{
    if !can_send || send_queue == send_capacity {
        return None;
    }
    let room: usize = send_capacity - send_queue;
    if room < buffer {
        Some(room)
    } else {
        Some(buffer)
    }
}

/// How the upstream-to-guest direction goes on after a read.
pub fn read_step(outcome: IoOutcome) -> (step: StreamStep)
    ensures
        step == step_after(outcome),
{
    match outcome {
        IoOutcome::Moved(n) => if n == 0 {
            StreamStep::Close
        } else {
            StreamStep::Again
        },
        IoOutcome::WouldBlock => StreamStep::Stop,
        IoOutcome::Failed => StreamStep::Abort,
    }
}

/// What a flow whose connect is running does next.
pub fn connect_step(outcome: ConnectOutcome) -> (step: ConnectStep)
    ensures
        step == match outcome {
            ConnectOutcome::Pending => ConnectStep::Wait,
            ConnectOutcome::Connected => ConnectStep::Relay,
            ConnectOutcome::Failed => ConnectStep::Abort,
            ConnectOutcome::Lost => ConnectStep::Abort,
        },
{
    match outcome {
        ConnectOutcome::Pending => ConnectStep::Wait,
        ConnectOutcome::Connected => ConnectStep::Relay,
        ConnectOutcome::Failed => ConnectStep::Abort,
        ConnectOutcome::Lost => ConnectStep::Abort,
    }
}

/// What is pending after `events`, in order.
pub open spec fn pending_after(pending: Seq<u8>, events: Seq<RelayEvent>) -> Seq<u8>
    decreases events.len(),
{
    if events.len() == 0 {
        pending
    } else {
        events.last().leaves(pending_after(pending, events.drop_last()))
    }
}

/// Whether each of `events` can happen when its turn comes.
pub open spec fn all_fit(pending: Seq<u8>, events: Seq<RelayEvent>) -> bool
    decreases events.len(),
{
    events.len() == 0 || (all_fit(pending, events.drop_last()) && events.last().fits(
        pending_after(pending, events.drop_last()),
    ))
}

/// All bytes that `events` take from the guest.
pub open spec fn all_taken(events: Seq<RelayEvent>) -> Seq<u8>
    decreases events.len(),
{
    if events.len() == 0 {
        Seq::empty()
    } else {
        all_taken(events.drop_last()) + events.last().taken()
    }
}

/// All bytes that `events` write upstream.
pub open spec fn all_sent(pending: Seq<u8>, events: Seq<RelayEvent>) -> Seq<u8>
    decreases events.len(),
{
    if events.len() == 0 {
        Seq::empty()
    } else {
        all_sent(pending, events.drop_last()) + events.last().sent(
            pending_after(pending, events.drop_last()),
        )
    }
}

/// No byte is lost, repeated or reordered on the way upstream: over any run of
/// pulls and writes, what was pending and what the guest sent is what was
/// written and what is pending now, in this order.
pub proof fn relay_keeps_every_byte(pending: Seq<u8>, events: Seq<RelayEvent>)
    requires
        all_fit(pending, events),
    ensures
        pending + all_taken(events) == all_sent(pending, events) + pending_after(pending, events),
    decreases events.len(),
{
    if events.len() == 0 {
        assert(pending + all_taken(events) =~= all_sent(pending, events) + pending);
    } else {
        let front = events.drop_last();
        let before = pending_after(pending, front);
        relay_keeps_every_byte(pending, front);
        let sent = all_sent(pending, front);
        match events.last() {
            RelayEvent::Pulled(taken) => {
                assert(sent + before =~= sent);
                assert(all_sent(pending, events) =~= sent);
                assert(pending + all_taken(events) =~= (pending + all_taken(front)) + taken);
            },
            RelayEvent::Wrote(outcome) => {
                assert(pending + all_taken(events) =~= pending + all_taken(front));
                match outcome {
                    IoOutcome::Moved(n) => {
                        assert(before =~= before.subrange(0, n as int) + before.skip(n as int));
                        assert(sent + before =~= all_sent(pending, events) + before.skip(
                            n as int,
                        ));
                    },
                    _ => {
                        assert(all_sent(pending, events) =~= sent);
                    },
                }
            },
        }
    }
}

/// A received packet without the IPv4 header that some sockets leave in front
/// of it. No ICMP message starts with a 0x4_ byte; an IPv4 header does.
pub open spec fn bare_message(packet: Seq<u8>) -> Seq<u8> {
    if packet.len() > 20 && packet[0] / 16 == 4 && (packet[0] % 16) * 4 < packet.len() {
        packet.skip((packet[0] % 16) * 4)
    } else {
        packet
    }
}

/// Normalizes what a ping socket received to the bare message.
pub fn strip_ip_header(packet: Vec<u8>) -> (message: Vec<u8>)
    ensures
        message@ == bare_message(packet@),
{
    let mut packet: Vec<u8> = packet;
    if packet.len() > 20 && packet[0] / 16 == 4 {
        let header_len: usize = (packet[0] % 16) as usize * 4;
        if header_len < packet.len() {
            let ghost before = packet@;
            let message: Vec<u8> = packet.split_off(header_len);
            assert(message@ =~= before.skip(header_len as int));
            return message;
        }
    }
    packet
}

/// The frame that a ping socket's message becomes for the guest: only echo
/// replies do, with the guest's own id and the message's sequence number and
/// payload.
pub open spec fn reply_for(head: Seq<u8>, echo: EchoModel, message: Seq<u8>) -> Option<Seq<u8>> {
    let kind = if echo.src_ip is V4 {
        ICMP_ECHO_REPLY
    } else {
        ICMPV6_ECHO_REPLY
    };
    if message.len() >= 8 && message[0] == kind {
        let answered = EchoModel { seq: be_value(message.subrange(6, 8)) as u16, ..echo };
        Some(echo_reply_frame(head, answered, message.skip(8)))
    } else {
        None
    }
}

/// Builds the reply to the guest whose request had the ethernet header
/// `head`. `template` is that request.
pub fn ping_reply(head: &[u8], template: &IcmpEchoInfo, message: &[u8]) -> (frame: Option<Vec<u8>>)
    requires
        head@.len() >= 12,
        template.src_ip.same_family(template.dst_ip),
        message@.len() + 20 <= usize::MAX,
    ensures
        match frame {
            Some(f) => reply_for(head@, template@, message@) == Some(f@),
            None => reply_for(head@, template@, message@) is None,
        },
{
    let kind: u8 = match template.src_ip {
        IpAddr::V4(_) => ICMP_ECHO_REPLY,
        IpAddr::V6(_) => ICMPV6_ECHO_REPLY,
    };
    if message.len() < 8 || message[0] != kind {
        return None;
    }
    let answered = IcmpEchoInfo {
        src_ip: template.src_ip,
        dst_ip: template.dst_ip,
        id: template.id,
        seq: read_u16(message, 6),
        payload: Vec::new(),
    };
    let payload: &[u8] = slice_subrange(message, 8, message.len());
    let frame: Vec<u8> = synthesize_echo_reply(head, &answered, payload);
    proof {
        same_reply(head@, answered@, template@, message@);
    }
    Some(frame)
}

/// The request's own payload plays no part in the reply.
proof fn same_reply(head: Seq<u8>, answered: EchoModel, template: EchoModel, message: Seq<u8>)
    requires
        message.len() >= 8,
        answered.src_ip == template.src_ip,
        answered.dst_ip == template.dst_ip,
        answered.id == template.id,
        answered.seq == be_value(message.subrange(6, 8)) as u16,
    ensures
        echo_reply_frame(head, answered, message.subrange(8, message.len() as int))
            == echo_reply_frame(
            head,
            EchoModel { seq: be_value(message.subrange(6, 8)) as u16, ..template },
            message.skip(8),
        ),
{
    assert(message.subrange(8, message.len() as int) =~= message.skip(8));
}

/// The guest sees its own id whatever the kernel put in its place: checksum
/// and id of the received message play no part in the reply.
pub proof fn reply_restores_the_guest_id(
    head: Seq<u8>,
    echo: EchoModel,
    message: Seq<u8>,
    rewritten: Seq<u8>,
)
    requires
        message.len() == rewritten.len(),
        forall|i: int|
            0 <= i < message.len() && !(2 <= i < 6) ==> message[i] == #[trigger] rewritten[i],
    ensures
        reply_for(head, echo, message) == reply_for(head, echo, rewritten),
{
    if message.len() >= 8 {
        assert(message.subrange(6, 8) =~= rewritten.subrange(6, 8));
        assert(message.skip(8) =~= rewritten.skip(8));
    }
}

/// A header in front of a message is cut off, however many options it has, and
/// a packet that does not begin like an IPv4 header is left as it is.
pub proof fn headers_are_cut_off(header: Seq<u8>, message: Seq<u8>, packet: Seq<u8>)
    ensures
        header.len() > 0 && 64 <= header[0] < 80 && header.len() == 4 * (header[0] - 64)
            && message.len() > 0 && header.len() + message.len() > 20 ==> bare_message(
            header + message,
        ) == message,
        packet.len() <= 20 || packet[0] < 64 || packet[0] >= 80 ==> bare_message(packet) == packet,
        packet.len() > 0 && 64 <= packet[0] < 80 && packet.len() <= 4 * (packet[0] - 64)
            ==> bare_message(packet) == packet,
{
    if header.len() > 0 {
        let whole = header + message;
        assert(whole[0] == header[0]);
        assert(whole.skip(header.len() as int) =~= message);
    }
}

/// A message from a ping socket becomes a frame exactly where it is an echo
/// reply: type 0 over IPv4, type 129 over IPv6, and at least eight bytes. The
/// guest then gets, from the address that it pinged, a reply with its own id,
/// and with the sequence number and all the data of the message.
pub proof fn replies_are_handed_on(
    head: Seq<u8>,
    echo: EchoModel,
    message: Seq<u8>,
    reply: Seq<u8>,
)
    requires
        head.len() >= 12,
        echo.src_ip is V4 <==> echo.dst_ip is V4,
        reply_for(head, echo, message) matches Some(frame) ==> reply == frame.skip(
            if echo.src_ip is V4 {
                34
            } else {
                54
            },
        ),
    ensures
        reply_for(head, echo, message) is Some <==> message.len() >= 8 && message[0]
            == (if echo.src_ip is V4 {
            0u8
        } else {
            129u8
        }),
        reply_for(head, echo, message) matches Some(frame) ==> {
            &&& carries(frame, echo.dst_ip, echo.src_ip, ping_number(echo.src_ip), reply)
            &&& frame.subrange(0, 12) == head.subrange(6, 12) + head.subrange(0, 6)
            &&& reply[0] == (if echo.src_ip is V4 {
                0u8
            } else {
                129u8
            })
            &&& reply[1] == 0
            &&& word_at(reply, 4) == echo.id
            &&& word_at(reply, 6) == word_at(message, 6)
            &&& reply.skip(8) == message.skip(8)
            &&& reply.len() == message.len()
            &&& echo.src_ip is V4 ==> word_sum(reply) % 65535 == 0
        },
{
    if reply_for(head, echo, message) is Some {
        let answered = EchoModel { seq: be_value(message.subrange(6, 8)) as u16, ..echo };
        be_value_two(message.subrange(6, 8));
        echo_reply_on_the_wire(head, answered, message.skip(8), reply);
    }
}

/// How a stream goes on: bytes that moved are followed by more; no byte where
/// some were wanted means that the far side has closed; a stream that would
/// block waits; and one that broke is reset.
pub proof fn streams_go_on_while_bytes_move(n: usize)
    ensures
        n > 0 ==> step_after(IoOutcome::Moved(n)) == StreamStep::Again,
        step_after(IoOutcome::Moved(0)) == StreamStep::Close,
        step_after(IoOutcome::WouldBlock) == StreamStep::Stop,
        step_after(IoOutcome::Failed) == StreamStep::Abort,
{
}

/// What is read from upstream always fits: into the room that the guest's
/// socket has and into the buffer, and one of the two is used up; nothing is
/// read exactly where the socket takes nothing or has no room.
pub proof fn reads_fit_the_room(
    can_send: bool,
    send_capacity: usize,
    send_queue: usize,
    buffer: usize,
    take: Option<usize>,
)
    requires
        send_queue <= send_capacity,
        buffer > 0,
        call_ensures(read_budget, (can_send, send_capacity, send_queue, buffer), take),
    ensures
        take is None <==> !can_send || send_queue == send_capacity,
        take matches Some(n) ==> 0 < n <= buffer && send_queue + n <= send_capacity && (n == buffer
            || send_queue + n == send_capacity),
{
}

/// A flow waits for its connect, relays once there is a connection, and is
/// aborted where there will be none.
pub proof fn flows_relay_once_connected(outcome: ConnectOutcome, step: ConnectStep)
    requires
        call_ensures(connect_step, (outcome,), step),
    ensures
        step is Wait <==> outcome is Pending,
        step is Relay <==> outcome is Connected,
        step is Abort <==> outcome is Failed || outcome is Lost,
{
}

} // verus!
