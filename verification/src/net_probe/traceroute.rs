//! The route to an address: echo requests that live one hop longer each, and
//! the replies of the routers on which they die.
//!
//! A [`Trace`] decides what to send, how long to wait and when to stop. Whoever
//! holds the socket does what it says and reports what came of it, with the
//! time in milliseconds on a clock that only goes forward.

use vstd::prelude::*;

use crate::addr::IpAddr;
use crate::net_probe::dns::{be16, from_be16};
use crate::sample::at_most_max;

verus! {

/// The longest route that is followed.
pub const MAX_HOPS: u8 = 30;

/// How long a hop may take to reply, in milliseconds.
pub const PROBE_TIMEOUT: u64 = 1500;

/// How long the whole trace may take, in milliseconds.
pub const TRACE_BUDGET: u64 = 18000;

/// Who replied on a hop, if anyone did in time.
pub type Hop = Option<IpAddr>;

// ---------------------------------------------------------------------------
// The request
// ---------------------------------------------------------------------------
/// The sum of the 16-bit words of `data`; a last odd byte is the upper half of
/// a word.
pub open spec fn word_sum(data: Seq<u8>) -> nat
    decreases data.len(),
{
    if data.len() == 0 {
        0
    } else if data.len() == 1 {
        (data[0] * 256) as nat
    } else {
        from_be16(data[0], data[1]) as nat + word_sum(data.skip(2))
    }
}

/// A sum with its carries added back in until 16 bits hold it.
pub open spec fn folded(sum: nat) -> nat
    decreases sum,
{
    if sum < 65536 {
        sum
    } else {
        folded(sum % 65536 + sum / 65536)
    }
}

/// The internet checksum of `data`: the complement of the folded sum.
pub open spec fn checksum_of(data: Seq<u8>) -> int {
    65535 - folded(word_sum(data))
}

/// Folding keeps the sum modulo 65535, and a sum that is not zero does not
/// become zero.
proof fn lemma_folded(sum: nat)
    ensures
        folded(sum) < 65536,
        folded(sum) % 65535 == sum % 65535,
        sum > 0 ==> folded(sum) > 0,
    decreases sum,
{
    if sum >= 65536 {
        let next = sum % 65536 + sum / 65536;
        lemma_folded(next);
        let q = sum / 65536;
        assert(sum == next + 65535 * q);
        vstd::arithmetic::div_mod::lemma_mod_multiples_vanish(q as int, next as int, 65535);
        assert(65535 * q + next == sum);
    }
}

proof fn lemma_word_sum_bound(data: Seq<u8>)
    ensures
        word_sum(data) <= 65535 * ((data.len() + 1) / 2),
    decreases data.len(),
{
    if data.len() >= 2 {
        lemma_word_sum_bound(data.skip(2));
    }
}

/// The internet checksum. The sum of the words must fit 32 bits.
pub fn internet_checksum(data: &[u8]) -> (r: u16)
    requires
        data.len() <= 131074,
    ensures
        r == checksum_of(data@),
{
    let mut sum: u32 = 0;
    let mut i: usize = 0;
    proof {
        lemma_word_sum_bound(data@);
        assert(data@.skip(0) == data@);
    }
    while data.len() - i >= 2
        invariant
            i <= data.len(),
            word_sum(data@) <= u32::MAX,
            word_sum(data@) == sum + word_sum(data@.skip(i as int)),
        decreases data.len() - i,
    {
        let ghost rest = data@.skip(i as int);
        assert(rest[0] == data@[i as int] && rest[1] == data@[i + 1]);
        assert(rest.skip(2) == data@.skip(i + 2));
        sum = sum + (data[i] as u32 * 256 + data[i + 1] as u32);
        i = i + 2;
    }
    if i < data.len() {
        assert(data@.skip(i as int)[0] == data@[i as int]);
        sum = sum + data[i] as u32 * 256;
    }
    assert(sum == word_sum(data@));
    while sum >= 65536
        invariant
            folded(sum as nat) == folded(word_sum(data@)),
        decreases sum,
    {
        sum = sum % 65536 + sum / 65536;
    }
    (65535 - sum) as u16
}

/// An echo request before its checksum is filled in.
pub open spec fn bare_request(ident: u16, seq: u16) -> Seq<u8> {
    seq![8u8, 0u8, 0u8, 0u8] + be16(ident) + be16(seq)
}

/// `packet` with its checksum in the third and fourth byte.
pub open spec fn checksummed(packet: Seq<u8>) -> Seq<u8> {
    let sum = be16(checksum_of(packet) as u16);
    packet.update(2, sum[0]).update(3, sum[1])
}

/// An echo request without payload.
pub open spec fn echo_request(ident: u16, seq: u16) -> Seq<u8> {
    checksummed(bare_request(ident, seq))
}

pub fn build_echo_request(ident: u16, seq: u16) -> (r: Vec<u8>)
    ensures
        r@ == echo_request(ident, seq),
{
    let mut packet: Vec<u8> = vec![
        8,
        0,
        0,
        0,
        (ident / 256) as u8,
        (ident % 256) as u8,
        (seq / 256) as u8,
        (seq % 256) as u8,
    ];
    assert(packet@ == bare_request(ident, seq));
    let sum: u16 = internet_checksum(packet.as_slice());
    packet.set(2, (sum / 256) as u8);
    packet.set(3, (sum % 256) as u8);
    packet
}

/// A packet with its checksum filled in sums up to zero: that is how whoever
/// receives it knows it whole.
pub proof fn checksummed_packets_sum_to_zero(packet: Seq<u8>)
    requires
        packet.len() >= 4,
        packet[2] == 0,
        packet[3] == 0,
    ensures
        checksum_of(checksummed(packet)) == 0,
{
    let s = word_sum(packet);
    let c = checksum_of(packet);
    lemma_folded(s);
    let full = checksummed(packet);
    let sum = be16(c as u16);
    assert(from_be16(sum[0], sum[1]) == c);
    assert(packet.skip(2).skip(2) == full.skip(2).skip(2));
    assert(packet.skip(2)[0] == 0 && packet.skip(2)[1] == 0);
    assert(full.skip(2)[0] == sum[0] && full.skip(2)[1] == sum[1]);
    reveal_with_fuel(word_sum, 3);
    let total = word_sum(full);
    assert(total == s + c);
    lemma_folded(total);
    assert(total % 65535 == 0) by {
        assert(total == s - folded(s) + 65535);
        vstd::arithmetic::div_mod::lemma_fundamental_div_mod(s as int, 65535);
        vstd::arithmetic::div_mod::lemma_fundamental_div_mod(folded(s) as int, 65535);
    }
    assert(folded(total) == 65535);
}

/// The same of every request that is sent.
pub proof fn requests_sum_to_zero(ident: u16, seq: u16)
    ensures
        checksum_of(echo_request(ident, seq)) == 0,
{
    checksummed_packets_sum_to_zero(bare_request(ident, seq));
}

// ---------------------------------------------------------------------------
// The reply
// ---------------------------------------------------------------------------
/// The identifier and sequence number at `offset`.
pub open spec fn ident_seq_at(buf: Seq<u8>, offset: int) -> Option<(u16, u16)> {
    if offset + 4 > buf.len() {
        None
    } else {
        Some(
            (
                from_be16(buf[offset], buf[offset + 1]),
                from_be16(buf[offset + 2], buf[offset + 3]),
            ),
        )
    }
}

pub fn read_ident_seq(buf: &[u8], offset: usize) -> (r: Option<(u16, u16)>)
    ensures
        r == ident_seq_at(buf@, offset as int),
{
    if offset > buf.len() || buf.len() - offset < 4 {
        return None;
    }
    Some(
        (
            buf[offset] as u16 * 256 + buf[offset + 1] as u16,
            buf[offset + 2] as u16 * 256 + buf[offset + 3] as u16,
        ),
    )
}

/// How long the internet header at the front of `packet` is, by its own
/// account.
pub open spec fn header_len(packet: Seq<u8>) -> int {
    (packet[0] % 16) * 4
}

/// What stands behind the internet header at the front of `packet`.
pub open spec fn payload(packet: Seq<u8>) -> Option<Seq<u8>> {
    if packet.len() == 0 || header_len(packet) > packet.len() {
        None
    } else {
        Some(packet.skip(header_len(packet)))
    }
}

/// The message is an echo reply to the request, or says that the request's time
/// ran out, with the request's own packet inside.
pub open spec fn answers(message: Seq<u8>, ident: u16, seq: u16) -> bool {
    if message.len() < 2 {
        false
    } else if message[0] == 0 {
        ident_seq_at(message, 4) == Some((ident, seq))
    } else if message[0] == 11 && message[1] == 0 && message.len() >= 8 {
        match payload(message.skip(8)) {
            Some(inner) => ident_seq_at(inner, 4) == Some((ident, seq)),
            None => false,
        }
    } else {
        false
    }
}

/// Who sent the packet.
pub open spec fn source_of(packet: Seq<u8>) -> IpAddr {
    IpAddr::V4(
        (((packet[12] * 256 + packet[13]) * 256 + packet[14]) * 256 + packet[15]) as u32,
    )
}

/// Who answered the request `ident`, `seq`, if the packet is an answer to it.
pub open spec fn reply_source(packet: Seq<u8>, ident: u16, seq: u16) -> Option<IpAddr> {
    if packet.len() < 16 {
        None
    } else {
        match payload(packet) {
            Some(message) => if answers(message, ident, seq) {
                Some(source_of(packet))
            } else {
                None
            },
            None => None,
        }
    }
}

fn skip_header(packet: &[u8]) -> (r: Option<&[u8]>)
    ensures
        (match r {
            Some(rest) => Some(rest@),
            None => None,
        }) == payload(packet@),
{
    if packet.len() == 0 {
        return None;
    }
    let len: usize = (packet[0] % 16) as usize * 4;
    if len > packet.len() {
        return None;
    }
    let rest: &[u8] = &packet[len..packet.len()];
    assert(rest@ == packet@.skip(len as int));
    Some(rest)
}

fn is_answer(message: &[u8], ident: u16, seq: u16) -> (r: bool)
    ensures
        r == answers(message@, ident, seq),
{
    if message.len() < 2 {
        return false;
    }
    let found = if message[0] == 0 {
        read_ident_seq(message, 4)
    } else if message[0] == 11 && message[1] == 0 && message.len() >= 8 {
        let embedded: &[u8] = &message[8..message.len()];
        assert(embedded@ == message@.skip(8));
        match skip_header(embedded) {
            Some(inner) => read_ident_seq(inner, 4),
            None => return false,
        }
    } else {
        return false;
    };
    match found {
        Some((i, s)) => i == ident && s == seq,
        None => false,
    }
}

/// Who answered the request, if `buf`, an internet packet with its header, is
/// an answer to it. It is left to the caller to see whether that is the
/// destination or a router on the way.
pub fn parse_reply(buf: &[u8], ident: u16, seq: u16) -> (r: Option<IpAddr>)
    ensures
        r == reply_source(buf@, ident, seq),
{
    if buf.len() < 16 {
        return None;
    }
    match skip_header(buf) {
        Some(message) => if is_answer(message, ident, seq) {
            Some(IpAddr::v4(buf[12], buf[13], buf[14], buf[15]))
        } else {
            None
        },
        None => None,
    }
}

// ---------------------------------------------------------------------------
// The trace
// ---------------------------------------------------------------------------
/// What came of the last action.
pub enum TraceEvent {
    /// Nothing was done yet.
    Started,
    Sent,
    SendFailed,
    /// A packet arrived, ours or not.
    Received(Vec<u8>),
    /// None arrived in time, or receiving failed.
    ReceiveFailed,
}

/// What is to be done next.
pub enum TraceAction {
    /// Send the packet, to live as many hops.
    Probe { ttl: u8, packet: Vec<u8> },
    Receive,
    Finish,
}

pub enum TraceStep {
    Probe { ttl: u8, packet: Seq<u8> },
    Receive,
    Finish,
}

impl View for TraceAction {
    type V = TraceStep;

    open spec fn view(&self) -> TraceStep {
        match self {
            TraceAction::Probe { ttl, packet } => TraceStep::Probe { ttl: *ttl, packet: packet@ },
            TraceAction::Receive => TraceStep::Receive,
            TraceAction::Finish => TraceStep::Finish,
        }
    }
}

/// A trace in progress.
pub struct Trace {
    dest: IpAddr,
    ident: u16,
    deadline: u64,
    hop_deadline: u64,
    ttl: u8,
    done: bool,
    hops: Vec<Hop>,
}

#[verifier::ext_equal]
pub struct TraceView {
    pub dest: IpAddr,
    pub ident: u16,
    /// When the whole trace stops.
    pub deadline: u64,
    /// When the present hop counts as silent.
    pub hop_deadline: u64,
    /// The hop that is probed now or next.
    pub ttl: u8,
    pub done: bool,
    pub hops: Seq<Hop>,
}

impl View for Trace {
    type V = TraceView;

    closed spec fn view(&self) -> TraceView {
        TraceView {
            dest: self.dest,
            ident: self.ident,
            deadline: self.deadline,
            hop_deadline: self.hop_deadline,
            ttl: self.ttl,
            done: self.done,
            hops: self.hops@,
        }
    }
}

impl TraceView {
    /// One hop is recorded for each that was probed, and the destination ends
    /// the trace.
    pub open spec fn wf(self) -> bool {
        &&& 1 <= self.ttl <= MAX_HOPS + 1
        &&& !self.done ==> self.ttl <= MAX_HOPS
        &&& self.hops.len() == self.ttl - 1
        &&& forall|i: int|
            0 <= i < self.hops.len() && #[trigger] self.hops[i] == Some(self.dest) ==> self.done
                && i == self.hops.len() - 1
    }

    /// The hop is over.
    pub open spec fn with_hop(self, hop: Hop) -> TraceView {
        TraceView { hops: self.hops.push(hop), ttl: (self.ttl + 1) as u8, ..self }
    }

    pub open spec fn finished(self) -> (TraceView, TraceStep) {
        (TraceView { done: true, ..self }, TraceStep::Finish)
    }

    /// The next probe, if there are hops and time left.
    pub open spec fn probing(self, now: u64) -> (TraceView, TraceStep) {
        if self.ttl > MAX_HOPS || now >= self.deadline {
            self.finished()
        } else {
            (
                self,
                TraceStep::Probe {
                    ttl: self.ttl,
                    packet: echo_request(self.ident, self.ttl as u16),
                },
            )
        }
    }

    /// More waiting, if the hop has time left.
    pub open spec fn waiting(self, now: u64) -> (TraceView, TraceStep) {
        if now < self.hop_deadline {
            (self, TraceStep::Receive)
        } else {
            self.with_hop(None).probing(now)
        }
    }

    /// What an event makes of the trace, and what is to be done then.
    pub open spec fn advanced(self, event: TraceEvent, now: u64) -> (TraceView, TraceStep) {
        if self.done || self.ttl > MAX_HOPS {
            self.finished()
        } else {
            match event {
                TraceEvent::Started => self.probing(now),
                TraceEvent::SendFailed => self.with_hop(None).probing(now),
                TraceEvent::Sent => {
                    TraceView { hop_deadline: at_most_max(now + PROBE_TIMEOUT), ..self }.waiting(
                        now,
                    )
                },
                TraceEvent::ReceiveFailed => self.with_hop(None).probing(now),
                TraceEvent::Received(bytes) => match reply_source(
                    bytes@,
                    self.ident,
                    self.ttl as u16,
                ) {
                    Some(a) => if a == self.dest {
                        self.with_hop(Some(a)).finished()
                    } else {
                        self.with_hop(Some(a)).probing(now)
                    },
                    None => self.waiting(now),
                },
            }
        }
    }
}

impl Trace {
    /// A trace to `dest` that starts now.
    pub fn new(dest: IpAddr, ident: u16, now: u64) -> (r: Trace)
        ensures
            r@.wf(),
            r@ == (TraceView {
                dest,
                ident,
                deadline: at_most_max(now + TRACE_BUDGET),
                hop_deadline: now,
                ttl: 1,
                done: false,
                hops: seq![],
            }),
    {
        Trace {
            dest,
            ident,
            deadline: now.saturating_add(TRACE_BUDGET),
            hop_deadline: now,
            ttl: 1,
            done: false,
            hops: Vec::new(),
        }
    }

    /// Takes in what came of the last action and says what to do next.
    pub fn advance(&mut self, event: TraceEvent, now: u64) -> (r: TraceAction)
        ensures
            old(self)@.wf() ==> final(self)@.wf(),
            (final(self)@, r@) == old(self)@.advanced(event, now),
    {
        if self.done || self.ttl > MAX_HOPS {
            self.done = true;
            return TraceAction::Finish;
        }
        match event {
            TraceEvent::Started => {},
            TraceEvent::Sent => {
                self.hop_deadline = now.saturating_add(PROBE_TIMEOUT);
                if now < self.hop_deadline {
                    return TraceAction::Receive;
                }
                self.end_hop(None);
            },
            TraceEvent::SendFailed => {
                self.end_hop(None);
            },
            TraceEvent::ReceiveFailed => {
                self.end_hop(None);
            },
            TraceEvent::Received(bytes) => {
                match parse_reply(bytes.as_slice(), self.ident, self.ttl as u16) {
                    Some(a) => {
                        if a == self.dest {
                            self.hops.push(Some(a));
                            self.ttl = self.ttl + 1;
                            self.done = true;
                            return TraceAction::Finish;
                        }
                        self.end_hop(Some(a));
                    },
                    None => {
                        if now < self.hop_deadline {
                            return TraceAction::Receive;
                        }
                        self.end_hop(None);
                    },
                }
            },
        }
        if self.ttl > MAX_HOPS || now >= self.deadline {
            self.done = true;
            return TraceAction::Finish;
        }
        TraceAction::Probe {
            ttl: self.ttl,
            packet: build_echo_request(self.ident, self.ttl as u16),
        }
    }

    fn end_hop(&mut self, hop: Hop)
        requires
            old(self)@.ttl <= MAX_HOPS,
        ensures
            final(self)@ == old(self)@.with_hop(hop),
    {
        self.hops.push(hop);
        self.ttl = self.ttl + 1;
    }

    /// The route as far as it was followed.
    pub fn into_hops(self) -> (r: Vec<Hop>)
        ensures
            r@ == self@.hops,
    {
        self.hops
    }
}

/// Whatever happens, a trace records no more hops than it may follow, and
/// nothing behind the destination.
pub proof fn routes_are_bounded(t: TraceView)
    requires
        t.wf(),
    ensures
        t.hops.len() <= MAX_HOPS,
        forall|i: int|
            0 <= i < t.hops.len() && #[trigger] t.hops[i] == Some(t.dest) ==> i == t.hops.len()
                - 1,
{
}

/// Once both deadlines have passed, whatever comes of receiving, and of sending
/// but success, ends the trace.
pub proof fn traces_end(t: TraceView, event: TraceEvent, now: u64)
    requires
        t.wf(),
        !t.done,
        now >= t.deadline,
        now >= t.hop_deadline,
        !(event is Sent),
    ensures
        t.advanced(event, now).1 == TraceStep::Finish,
{
}

// ---------------------------------------------------------------------------
// Packets byte by byte
// ---------------------------------------------------------------------------
/// A request is eight bytes: an echo with its identifier and its number, each with
/// the upper byte first.
pub proof fn requests_carry_their_numbers(ident: u16, seq: u16)
    ensures
        ({
            let p = echo_request(ident, seq);
            &&& p.len() == 8
            &&& p[0] == 8
            &&& p[1] == 0
            &&& p[4] * 256 + p[5] == ident
            &&& p[6] * 256 + p[7] == seq
        }),
{
}

/// The two bytes at `i` write that number.
pub open spec fn two_bytes(b: Seq<u8>, i: int, n: u16) -> bool {
    0 <= i && i + 1 < b.len() && b[i] * 256 + b[i + 1] == n
}

/// The length that the header at `i` claims.
pub open spec fn claimed(b: Seq<u8>, i: int) -> int {
    (b[i] % 16) * 4
}

/// A packet answers a request exactly where, behind its own header, it is an echo
/// reply with the request's numbers, or says that the time ran out in transit of a
/// packet that, behind its header, has them. Who answered stands in its header.
pub proof fn answers_are_told_by_their_bytes(b: Seq<u8>, ident: u16, seq: u16)
    requires
        b.len() >= 16,
    ensures
        ({
            let h = claimed(b, 0);
            let echo = h + 2 <= b.len() && b[h] == 0 && two_bytes(b, h + 4, ident) && two_bytes(
                b,
                h + 6,
                seq,
            );
            let expired = h + 8 < b.len() && b[h] == 11 && b[h + 1] == 0 && ({
                let i = h + 8 + claimed(b, h + 8);
                two_bytes(b, i + 4, ident) && two_bytes(b, i + 6, seq)
            });
            match reply_source(b, ident, seq) {
                Some(IpAddr::V4(a)) => (echo || expired) && a == ((b[12] * 256 + b[13]) * 256
                    + b[14]) * 256 + b[15],
                Some(_) => false,
                None => !echo && !expired,
            }
        }),
{
    let h = claimed(b, 0);
    if h <= b.len() {
        let m = b.skip(h);
        assert(forall|k: int| 0 <= k < m.len() ==> m[k] == b[h + k]);
        if m.len() > 8 {
            let q = m.skip(8);
            assert(forall|k: int| 0 <= k < q.len() ==> q[k] == b[h + 8 + k]);
            let i = claimed(b, h + 8);
            if i <= q.len() {
                let r = q.skip(i);
                assert(forall|k: int| 0 <= k < r.len() ==> r[k] == b[h + 8 + i + k]);
            }
        }
    }
}

// ---------------------------------------------------------------------------
// The course of a trace
// ---------------------------------------------------------------------------
/// Whatever happens, the route grows by one hop at most, and what was recorded
/// stays. A hop is recorded as answered only by who answered its own probe.
pub proof fn hops_are_recorded_in_order(t: TraceView, event: TraceEvent, now: u64)
    requires
        t.wf(),
    ensures
        ({
            let after = t.advanced(event, now).0;
            &&& after.hops == t.hops || after.hops == t.hops.push(None) || exists|a: IpAddr|
                after.hops == #[trigger] t.hops.push(Some(a)) && (event matches TraceEvent::Received(
                    bytes,
                ) && reply_source(bytes@, t.ident, (t.hops.len() + 1) as u16) == Some(a))
            &&& after.dest == t.dest
            &&& after.ident == t.ident
            &&& after.deadline == t.deadline
        }),
{
    if !t.done {
        if let TraceEvent::Received(bytes) = event {
            if let Some(a) = reply_source(bytes@, t.ident, t.ttl as u16) {
                assert(t.advanced(event, now).0.hops == t.hops.push(Some(a)));
            }
        }
    }
}

/// An answer to the probe that is out is recorded at its hop; one from the
/// destination ends the trace, one from a router on the way does not while there
/// are hops and time left.
pub proof fn an_answer_is_recorded(t: TraceView, bytes: Vec<u8>, now: u64, a: IpAddr)
    requires
        t.wf(),
        !t.done,
        reply_source(bytes@, t.ident, (t.hops.len() + 1) as u16) == Some(a),
    ensures
        ({
            let (after, step) = t.advanced(TraceEvent::Received(bytes), now);
            &&& after.hops == t.hops.push(Some(a))
            &&& a == t.dest ==> after.done && step == TraceStep::Finish
            &&& a != t.dest && after.hops.len() < 30 && now < t.deadline ==> !after.done && (
            step matches TraceStep::Probe { ttl, .. } && ttl == after.hops.len() + 1)
        }),
{
}

/// A packet that answers no probe of this trace changes nothing while the hop has
/// time left.
pub proof fn other_packets_are_ignored(t: TraceView, bytes: Vec<u8>, now: u64)
    requires
        t.wf(),
        !t.done,
        reply_source(bytes@, t.ident, (t.hops.len() + 1) as u16) is None,
        now < t.hop_deadline,
    ensures
        t.advanced(TraceEvent::Received(bytes), now) == (t, TraceStep::Receive),
{
}

/// Every probe lives as many hops as its place on the route, and carries that
/// number and the identifier of the trace.
pub proof fn probes_live_one_hop_longer(t: TraceView, event: TraceEvent, now: u64)
    requires
        t.wf(),
    ensures
        t.advanced(event, now).1 matches TraceStep::Probe { ttl, packet } ==> ttl == t.advanced(
            event,
            now,
        ).0.hops.len() + 1 && ttl <= 30 && packet.len() == 8 && two_bytes(packet, 4, t.ident)
            && two_bytes(packet, 6, ttl as u16) && now < t.deadline,
{
    if let TraceStep::Probe { ttl, packet } = t.advanced(event, now).1 {
        requests_carry_their_numbers(t.ident, ttl as u16);
    }
}

/// A hop has a second and a half from the sending of its probe, and then counts as
/// silent.
pub proof fn silent_hops_are_passed(t: TraceView, now: u64)
    requires
        t.wf(),
        !t.done,
        now <= u64::MAX - 1500,
    ensures
        t.advanced(TraceEvent::Sent, now).0.hop_deadline == now + 1500,
        t.advanced(TraceEvent::Sent, now).1 == TraceStep::Receive,
        t.advanced(TraceEvent::SendFailed, now).0.hops == t.hops.push(None),
        t.advanced(TraceEvent::ReceiveFailed, now).0.hops == t.hops.push(None),
{
}

} // verus!
