//! The decision core of the simulation cycle.
//!
//! One run iterates the test schedule strictly in order.  For each case
//! the orchestrator sends one instruction [`Message`] to every link
//! worker (the designated sender gets the test packet, the others a
//! passive instruction), then receives exactly one reply per worker in
//! link order and classifies the replies against the case's expectation.
//! Everything that decides — which instruction each link gets, what a
//! worker answers for a read outcome, how a set of replies turns into a
//! pass or a single failure message, and which terminal packet closes the
//! run — is a pure function here; the channel and socket plumbing around
//! it stays outside the library.

use vstd::prelude::*;

use crate::codec::CodecError;
use crate::codec::HEADER_SIZE;
use crate::codec::RaniPacket;
use crate::codec::RaniPayload;
use crate::codec::RaniHeader;
use crate::codec::RaniType;
use crate::codec::SpecPacket;
use crate::codec::SpecPayload;
use crate::codec::spec_packet_bytes;
use crate::codec::spec_parse_packet;
use crate::codec::spec_mismatch_message;
use crate::codec::validate_packets;
use crate::schedule::SpecTestCase;
use crate::schedule::TestCase;

verus! {

/// One unit of the worker/orchestrator protocol.  Exactly one message
/// flows per worker per test-cycle round, in each direction.
pub enum Message {
    /// Orchestrator to worker: transmit this packet (with an optional
    /// forged checksum byte) and await a reply.  Worker to orchestrator:
    /// a packet was observed (`Ok`), or reading or decoding failed
    /// (`Err` with the diagnostic text).
    Active(Result<(RaniPacket, Option<u8>), String>),
    /// Orchestrator to worker: transmit nothing, just listen.  Worker to
    /// orchestrator: no packet was observed before the timeout.
    Inactive,
    /// Orchestrator to worker: transmit this packet and expect no reply;
    /// used for the terminal packet that closes a run.
    NoResponse(RaniPacket),
    /// Orchestrator to worker: exit the main loop.
    End,
}

/// Mathematical model of a [`Message`].
pub ghost enum SpecMessage {
    Active(Result<(SpecPacket, Option<u8>), Seq<char>>),
    Inactive,
    NoResponse(SpecPacket),
    End,
}

impl View for Message {
    type V = SpecMessage;

    open spec fn view(&self) -> SpecMessage {
        match self {
            Message::Active(Ok((p, c))) => SpecMessage::Active(Ok((p@, *c))),
            Message::Active(Err(e)) => SpecMessage::Active(Err(e@)),
            Message::Inactive => SpecMessage::Inactive,
            Message::NoResponse(p) => SpecMessage::NoResponse(p@),
            Message::End => SpecMessage::End,
        }
    }
}

/// The models of a sequence of messages.
pub open spec fn msgs_view(ms: Seq<Message>) -> Seq<SpecMessage> {
    ms.map_values(|m: Message| m@)
}

/// The instruction the orchestrator sends to one link for one test case:
/// the designated sender transmits the test packet (with the optional
/// forged checksum), every other link stays passive.
pub fn instruction_for(test: &TestCase, link: usize) -> (m: Message)
    ensures
        link == test@.send_link ==> m@ == SpecMessage::Active(
            Ok((test@.send_packet, test@.custom_checksum)),
        ),
        link != test@.send_link ==> m@ == SpecMessage::Inactive,
{
    if link == test.send_link {
        Message::Active(Ok((test.send_packet.clone(), test.custom_checksum)))
    } else {
        Message::Inactive
    }
}

/// The bytes a worker puts on the wire for a packet: its serialisation,
/// with byte 6 overridden when a forged checksum is requested.
pub open spec fn spec_wire_bytes(p: SpecPacket, custom_checksum: Option<u8>) -> Seq<u8> {
    match custom_checksum {
        Some(c) => spec_packet_bytes(p).update(6, c),
        None => spec_packet_bytes(p),
    }
}

/// Serialises a packet for the wire, overriding the checksum byte when a
/// forged value is requested (to probe the device's own checksum check).
pub fn encode_for_wire(packet: &RaniPacket, custom_checksum: Option<u8>) -> (buf: Vec<u8>)
    requires
        packet@.wf(),
    ensures
        buf@ == spec_wire_bytes(packet@, custom_checksum),
{
    let size = packet.size();
    let mut buf: Vec<u8> = vec![0u8; size];
    let r = packet.serialise(&mut buf);
    proof {
        assert(r is Ok);
        crate::codec::lemma_payload_bytes_len(packet@.payload);
        assert(buf@ =~= spec_packet_bytes(packet@));
    }
    if let Some(c) = custom_checksum {
        buf.set(6, c);
    }
    buf
}

/// What a worker does with one instruction from the orchestrator.
pub enum WorkerStep {
    /// Write these bytes, then attempt a bounded read and reply.
    SendThenListen(Vec<u8>),
    /// Attempt a bounded read and reply without transmitting.
    ListenOnly,
    /// Write and flush these bytes; no reply follows this round.
    SendOnly(Vec<u8>),
    /// Exit the worker loop.
    Stop,
    /// The instruction kind is invalid for a worker: a protocol-invariant
    /// violation that terminates the worker with a local error.
    Malformed,
}

impl Message {
    /// Whether the packets a message carries are well formed; instructions
    /// built from a well-formed schedule always are.
    pub open spec fn packets_wf(self) -> bool {
        match self@ {
            SpecMessage::Active(Ok((p, _))) => p.wf(),
            SpecMessage::NoResponse(p) => p.wf(),
            _ => true,
        }
    }
}

/// Decides a worker's action for one instruction: transmit-and-await for
/// an active instruction, listen for a passive one, transmit-only for the
/// terminal packet, stop on the explicit end, and a local protocol error
/// for a message kind no orchestrator may send.
pub fn worker_step(instruction: &Message) -> (s: WorkerStep)
    requires
        instruction.packets_wf(),
    ensures
        instruction@ matches SpecMessage::Active(Ok((p, c))) ==> (s matches
            WorkerStep::SendThenListen(b) && b@ == spec_wire_bytes(p, c)),
        instruction@ is Inactive ==> s is ListenOnly,
        instruction@ matches SpecMessage::NoResponse(p) ==> (s matches WorkerStep::SendOnly(b)
            && b@ == spec_packet_bytes(p)),
        instruction@ is End ==> s is Stop,
        instruction@ matches SpecMessage::Active(Err(_)) ==> s is Malformed,
{
    match instruction {
        Message::Active(Ok((packet, custom_checksum))) => WorkerStep::SendThenListen(
            encode_for_wire(packet, *custom_checksum),
        ),
        Message::Inactive => WorkerStep::ListenOnly,
        Message::NoResponse(packet) => WorkerStep::SendOnly(encode_for_wire(packet, None)),
        Message::End => WorkerStep::Stop,
        Message::Active(Err(_)) => WorkerStep::Malformed,
    }
}

/// The outcome of one bounded read on a link's connection.
pub enum ReadEvent {
    /// A zero-length read: the connection was closed at the device.
    Closed,
    /// These bytes arrived before the timeout.
    Received(Vec<u8>),
    /// The timeout elapsed with no bytes.
    TimedOut,
}

/// The reply owed for bytes that arrived before the timeout: the decoded
/// packet, or the decode failure as an error message.
pub open spec fn spec_received_reply(id: Seq<char>, bytes: Seq<u8>) -> SpecMessage {
    match spec_parse_packet(bytes) {
        Ok((p, _)) => SpecMessage::Active(Ok((p, None))),
        Err(e) => SpecMessage::Active(Err("link "@ + id + ": "@ + spec_codec_error_text(e))),
    }
}

/// The reply a worker owes the orchestrator for one read outcome, given
/// the worker's identity text `id` (used only inside diagnostic text):
/// a closed connection and a decode failure are reported as error
/// messages, a decoded packet as an active message, and a timeout as the
/// inactive message.
pub fn reply_for_event(id: &str, event: &ReadEvent) -> (m: Message)
    ensures
        event is Closed ==> m@ == SpecMessage::Active(
            Err::<(SpecPacket, Option<u8>), Seq<char>>(id@ + ": Connection closed at user"@),
        ),
        event is TimedOut ==> m@ is Inactive,
        event matches ReadEvent::Received(b) ==> m@ == spec_received_reply(id@, b@),
{
    match event {
        ReadEvent::Closed => {
            let mut text = id.to_owned();
            text.append(": Connection closed at user");
            Message::Active(Err(text))
        },
        ReadEvent::TimedOut => Message::Inactive,
        ReadEvent::Received(bytes) => match RaniPacket::deserialise(bytes.as_slice()) {
            Ok((packet, _)) => Message::Active(Ok((packet, None))),
            Err(e) => {
                let mut text = "link ".to_owned();
                text.append(id);
                text.append(": ");
                text.append(codec_error_text(&e));
                Message::Active(Err(text))
            },
        },
    }
}

/// The diagnostic text of each codec error.
pub open spec fn spec_codec_error_text(e: CodecError) -> Seq<char> {
    match e {
        CodecError::BufferTooShort => "buffer too short"@,
        CodecError::ChecksumMismatch => "checksum mismatch"@,
        CodecError::UnknownPacketType => "unknown packet type"@,
    }
}

/// The diagnostic text of a codec error.
pub fn codec_error_text(e: &CodecError) -> (r: &'static str)
    ensures
        r@ == spec_codec_error_text(*e),
{
    match e {
        CodecError::BufferTooShort => "buffer too short",
        CodecError::ChecksumMismatch => "checksum mismatch",
        CodecError::UnknownPacketType => "unknown packet type",
    }
}

/// Whether a link's handshake byte is valid: immediately after
/// connecting, each link must send exactly one byte equal to its own
/// link index.
pub fn handshake_ok(link: usize, id_byte: u8) -> (r: bool)
    ensures
        r == (id_byte as usize == link),
{
    (id_byte as usize) == link
}

/// The model of the terminal packet that closes a run: an empty data
/// packet with TTL 15, all addresses and the sequence number zero, and
/// exactly one of the ERR (some test failed) or END (all passed) flags
/// set.
pub open spec fn spec_terminal_packet(err: bool) -> SpecPacket {
    SpecPacket {
        header: RaniHeader {
            src: 0,
            dest: 0,
            length: HEADER_SIZE as u8,
            ttl: 15,
            flag_err: err,
            flag_end: !err,
            flag_ack: false,
            packet_type: RaniType::Data,
            seq_no: 0,
        },
        payload: SpecPayload::Data(Seq::empty()),
    }
}

/// The ERR-flagged empty data packet that closes a run in which some test
/// failed.
pub fn error_packet() -> (p: RaniPacket)
    ensures
        p@ == spec_terminal_packet(true),
        p@.wf(),
{
    let mut header = RaniHeader::new(0, 0, 0, 15, 0).unwrap();
    header.set_err();
    let p = RaniPacket::new(header, RaniPayload::Data(Vec::new()));
    proof {
        assert(p@ == spec_terminal_packet(true));
    }
    p
}

/// The END-flagged empty data packet that closes a run in which every
/// test passed.
pub fn end_packet() -> (p: RaniPacket)
    ensures
        p@ == spec_terminal_packet(false),
        p@.wf(),
{
    let mut header = RaniHeader::new(0, 0, 0, 15, 0).unwrap();
    header.set_end();
    let p = RaniPacket::new(header, RaniPayload::Data(Vec::new()));
    proof {
        assert(p@ == spec_terminal_packet(false));
    }
    p
}

/// Whether link `i` is one of the links the test case expects to answer.
pub open spec fn spec_expects(t: SpecTestCase, i: int) -> bool {
    match t.recv_links {
        Some(l) => exists|k: int| 0 <= k < l.len() && l[k] == i,
        None => false,
    }
}

/// The position of the first occurrence of `v` in `l`.
pub open spec fn spec_first_index(l: Seq<usize>, v: int) -> int
    decreases l.len(),
{
    if l.len() == 0 {
        0
    } else if l[0] == v {
        0
    } else {
        1 + spec_first_index(l.skip(1), v)
    }
}

/// A position that holds `v`, all of whose earlier elements differ from
/// `v`, is the first occurrence of `v`.
proof fn lemma_first_index(l: Seq<usize>, v: int, k: int)
    requires
        0 <= k < l.len(),
        l[k] == v,
        forall|j: int| 0 <= j < k ==> l[j] != v,
    ensures
        spec_first_index(l, v) == k,
    decreases l.len(),
{
    if l[0] == v {
        assert(k == 0);
    } else {
        assert(forall|j: int| 0 <= j < k - 1 ==> l.skip(1)[j] == l[j + 1]);
        lemma_first_index(l.skip(1), v, k - 1);
    }
}

/// The packet the test case expects on link `i`: the expected packet
/// paired with the first occurrence of `i` among the expected links.
/// Meaningful only when the case expects link `i` to answer.
pub open spec fn spec_expected_packet(t: SpecTestCase, i: int) -> SpecPacket {
    t.recv_packets->Some_0[spec_first_index(t.recv_links->Some_0, i)]
}

/// The failure message link `i`'s reply contributes on its own, if any.
/// An expected link that answers with a different packet contributes the
/// first mismatched field; one that reports an error contributes that
/// error's text; one that stays inactive contributes no message here (the
/// aggregate checks below cover it).  A link that was not expected to
/// answer but produced a packet contributes a routing failure, and one
/// that reports an error contributes that text.
pub open spec fn spec_reply_failure(t: SpecTestCase, i: int, m: SpecMessage) -> Option<Seq<char>> {
    if spec_expects(t, i) {
        match m {
            SpecMessage::Active(Ok((p, _))) => if p == spec_expected_packet(t, i) {
                None
            } else {
                Some(spec_mismatch_message(p, spec_expected_packet(t, i)))
            },
            SpecMessage::Active(Err(e)) => Some(e),
            _ => None,
        }
    } else {
        match m {
            SpecMessage::Active(Ok(_)) => Some("Packet routed incorrectly"@),
            SpecMessage::Active(Err(e)) => Some(e),
            _ => None,
        }
    }
}

/// Whether link `i`'s reply counts as "some link produced activity": any
/// observed packet does, and an error reported by an expected link does.
pub open spec fn spec_counts_as_received(t: SpecTestCase, i: int, m: SpecMessage) -> bool {
    match m {
        SpecMessage::Active(Ok(_)) => true,
        SpecMessage::Active(Err(_)) => spec_expects(t, i),
        _ => false,
    }
}

/// The first failure message among the first `upto` replies, in link
/// order: the first failure encountered for a case wins and later checks
/// do not overwrite it.
pub open spec fn spec_first_failure(t: SpecTestCase, ms: Seq<SpecMessage>, upto: int) -> Option<
    Seq<char>,
>
    decreases upto,
{
    if upto <= 0 {
        None
    } else {
        match spec_first_failure(t, ms, upto - 1) {
            Some(m) => Some(m),
            None => spec_reply_failure(t, upto - 1, ms[upto - 1]),
        }
    }
}

/// Whether any of the first `upto` replies counts as received activity.
pub open spec fn spec_received(t: SpecTestCase, ms: Seq<SpecMessage>, upto: int) -> bool
    decreases upto,
{
    if upto <= 0 {
        false
    } else {
        spec_received(t, ms, upto - 1) || spec_counts_as_received(t, upto - 1, ms[upto - 1])
    }
}

/// How many of the first `upto` replies are packets observed on expected
/// links.
pub open spec fn spec_ok_count(t: SpecTestCase, ms: Seq<SpecMessage>, upto: int) -> int
    decreases upto,
{
    if upto <= 0 {
        0
    } else {
        spec_ok_count(t, ms, upto - 1) + (if spec_expects(t, upto - 1) && ms[upto - 1] matches
            SpecMessage::Active(Ok(_)) {
            1int
        } else {
            0int
        })
    }
}

/// Whether some reply has a message kind only the orchestrator may send:
/// a protocol-invariant violation that aborts the run.
pub open spec fn spec_violation(ms: Seq<SpecMessage>) -> bool {
    exists|i: int| 0 <= i < ms.len() && (ms[i] is NoResponse || ms[i] is End)
}

/// The recorded outcome of one test case given all its replies (`None`
/// means the case passed): the first per-link failure in link order wins;
/// otherwise, if answers were expected, no activity at all is "not
/// received on any link" and activity on only some expected links is
/// "not received on all required links".
pub open spec fn spec_outcome(t: SpecTestCase, ms: Seq<SpecMessage>) -> Option<Seq<char>> {
    let n = ms.len() as int;
    if spec_first_failure(t, ms, n) is Some {
        spec_first_failure(t, ms, n)
    } else if t.recv_links is Some && !spec_received(t, ms, n) {
        Some("Packet not received on any link"@)
    } else if t.recv_links is Some && spec_ok_count(t, ms, n) != t.recv_links->Some_0.len() {
        Some("Packets not received on all required links"@)
    } else {
        None
    }
}

/// The recorded outcome of one test case: a pass, or the single failure
/// message that describes it in the report.
pub enum CaseOutcome {
    Passed,
    Failed(String),
}

impl View for CaseOutcome {
    type V = Option<Seq<char>>;

    open spec fn view(&self) -> Option<Seq<char>> {
        match self {
            CaseOutcome::Passed => None,
            CaseOutcome::Failed(m) => Some(m@),
        }
    }
}

/// The model of an optional owned string.
pub open spec fn view_opt_string(o: Option<String>) -> Option<Seq<char>> {
    match o {
        Some(s) => Some(s@),
        None => None,
    }
}

/// Finds the first position of `i` among the expected links, if any.
fn find_link(links: &Vec<usize>, i: usize) -> (r: Option<usize>)
    ensures
        r is Some <==> exists|k: int| 0 <= k < links@.len() && links@[k] == i,
        r matches Some(k) ==> k < links@.len() && links@[k as int] == i && spec_first_index(
            links@,
            i as int,
        ) == k,
{
    let mut j: usize = 0;
    while j < links.len()
        invariant
            j <= links@.len(),
            forall|k: int| 0 <= k < j ==> links@[k] != i,
        decreases links@.len() - j,
    {
        if links[j] == i {
            proof {
                lemma_first_index(links@, i as int, j as int);
            }
            return Some(j);
        }
        j = j + 1;
    }
    None
}

/// Classifies all replies to one test case, in link order, into the
/// case's recorded outcome, or reports a protocol-invariant violation if
/// a reply has a message kind only the orchestrator may send.
pub fn evaluate_case(test: &TestCase, replies: &Vec<Message>) -> (r: Result<CaseOutcome, ()>)
    requires
        test@.wf(),
    ensures
        r is Ok <==> !spec_violation(msgs_view(replies@)),
        r matches Ok(o) ==> o@ == spec_outcome(test@, msgs_view(replies@)),
{
    let ghost ms = msgs_view(replies@);
    let mut first: Option<String> = None;
    let mut received = false;
    let mut count: usize = 0;
    let mut i: usize = 0;
    while i < replies.len()
        invariant
            test@.wf(),
            ms == msgs_view(replies@),
            i <= replies@.len(),
            view_opt_string(first) == spec_first_failure(test@, ms, i as int),
            received == spec_received(test@, ms, i as int),
            count == spec_ok_count(test@, ms, i as int),
            count <= i,
            forall|k: int| 0 <= k < i ==> !(ms[k] is NoResponse) && !(ms[k] is End),
        decreases replies@.len() - i,
    {
        let expected_idx: Option<usize> = match &test.recv_links {
            Some(l) => find_link(l, i),
            None => None,
        };
        proof {
            assert(expected_idx is Some <==> spec_expects(test@, i as int));
        }
        match &replies[i] {
            Message::Active(Ok((pkt, _))) => {
                received = true;
                match expected_idx {
                    Some(k) => {
                        count = count + 1;
                        match &test.recv_packets {
                            Some(ps) => {
                                let expected = &ps[k];
                                proof {
                                    assert(expected@ == spec_expected_packet(test@, i as int));
                                }
                                if let Err(e) = validate_packets(pkt, expected) {
                                    if first.is_none() {
                                        first = Some(e);
                                    }
                                }
                            },
                            None => {
                                proof {
                                    assert(false);
                                }
                                return Err(());
                            },
                        }
                    },
                    None => {
                        if first.is_none() {
                            first = Some("Packet routed incorrectly".to_owned());
                        }
                    },
                }
            },
            Message::Active(Err(e)) => {
                if expected_idx.is_some() {
                    received = true;
                }
                if first.is_none() {
                    first = Some(e.clone());
                }
            },
            Message::Inactive => {},
            Message::NoResponse(_) => {
                return Err(());
            },
            Message::End => {
                return Err(());
            },
        }
        proof {
            assert(ms[i as int] == replies@[i as int]@);
            assert(view_opt_string(first) == spec_first_failure(test@, ms, i + 1 as int));
            assert(received == spec_received(test@, ms, i + 1 as int));
            assert(count == spec_ok_count(test@, ms, i + 1 as int));
        }
        i = i + 1;
    }
    if let Some(m) = first {
        return Ok(CaseOutcome::Failed(m));
    }
    match &test.recv_links {
        None => Ok(CaseOutcome::Passed),
        Some(l) => {
            if !received {
                Ok(CaseOutcome::Failed("Packet not received on any link".to_owned()))
            } else if count != l.len() {
                Ok(CaseOutcome::Failed("Packets not received on all required links".to_owned()))
            } else {
                Ok(CaseOutcome::Passed)
            }
        },
    }
}

/// Whether any recorded outcome is a failure.
pub open spec fn spec_any_failure(outcomes: Seq<Option<Seq<char>>>) -> bool {
    exists|i: int| 0 <= i < outcomes.len() && outcomes[i] is Some
}

/// The orchestrator's record of one run: each executed test case's label
/// and outcome, in schedule order.  The report text and the choice of
/// terminal packet are pure functions of this record, so two runs that
/// see the same schedule and the same replies produce byte-for-byte the
/// same report and the same terminal packet.
pub struct CycleEngine {
    labels: Vec<String>,
    outcomes: Vec<CaseOutcome>,
}

impl CycleEngine {
    /// The labels recorded so far, in schedule order.
    pub closed spec fn spec_labels(self) -> Seq<Seq<char>> {
        self.labels@.map_values(|s: String| s@)
    }

    /// The outcomes recorded so far, in schedule order.
    pub closed spec fn spec_outcomes(self) -> Seq<Option<Seq<char>>> {
        self.outcomes@.map_values(|o: CaseOutcome| o@)
    }

    /// The engine invariant: one label per outcome.
    pub open spec fn wf(self) -> bool {
        self.spec_labels().len() == self.spec_outcomes().len()
    }

    /// An engine with nothing recorded.
    pub fn new() -> (r: Self)
        ensures
            r.wf(),
            r.spec_labels() == Seq::<Seq<char>>::empty(),
            r.spec_outcomes() == Seq::<Option<Seq<char>>>::empty(),
    {
        let r = CycleEngine { labels: Vec::new(), outcomes: Vec::new() };
        proof {
            assert(r.spec_labels() =~= Seq::<Seq<char>>::empty());
            assert(r.spec_outcomes() =~= Seq::<Option<Seq<char>>>::empty());
        }
        r
    }

    /// Records one test case's outcome from all its replies, or reports a
    /// protocol-invariant violation (and records nothing) if a reply has
    /// a message kind only the orchestrator may send.
    pub fn record(&mut self, test: &TestCase, replies: &Vec<Message>) -> (r: Result<(), ()>)
        requires
            test@.wf(),
            old(self).wf(),
        ensures
            final(self).wf(),
            r is Ok <==> !spec_violation(msgs_view(replies@)),
            r is Ok ==> final(self).spec_labels() == old(self).spec_labels().push(test@.msg)
                && final(self).spec_outcomes() == old(self).spec_outcomes().push(
                spec_outcome(test@, msgs_view(replies@)),
            ),
            r is Err ==> *final(self) == *old(self),
    {
        let outcome = match evaluate_case(test, replies) {
            Ok(o) => o,
            Err(()) => {
                return Err(());
            },
        };
        self.labels.push(test.msg.clone());
        self.outcomes.push(outcome);
        proof {
            assert(self.spec_labels() =~= old(self).spec_labels().push(test@.msg));
            assert(self.spec_outcomes() =~= old(self).spec_outcomes().push(
                spec_outcome(test@, msgs_view(replies@)),
            ));
        }
        Ok(())
    }

    /// Whether any recorded test case failed.
    pub fn has_failure(&self) -> (r: bool)
        ensures
            r == spec_any_failure(self.spec_outcomes()),
    {
        let mut i: usize = 0;
        while i < self.outcomes.len()
            invariant
                i <= self.outcomes@.len(),
                forall|k: int| 0 <= k < i ==> !(self.spec_outcomes()[k] is Some),
            decreases self.outcomes@.len() - i,
        {
            if let CaseOutcome::Failed(_) = &self.outcomes[i] {
                proof {
                    assert(self.spec_outcomes()[i as int] is Some);
                }
                return true;
            }
            i = i + 1;
        }
        false
    }

    /// Renders the report: one line per recorded test case, in order,
    /// exactly [`crate::report::spec_report`] of the recorded labels and
    /// outcomes.
    pub fn report(&self) -> (r: String)
        requires
            self.wf(),
        ensures
            r@ == crate::report::spec_report(self.spec_labels(), self.spec_outcomes()),
    {
        let mut s = String::new();
        let mut i: usize = 0;
        while i < self.labels.len()
            invariant
                self.wf(),
                i <= self.labels@.len(),
                self.labels@.len() == self.outcomes@.len(),
                s@ == crate::report::spec_report_upto(
                    self.spec_labels(),
                    self.spec_outcomes(),
                    i as nat,
                ),
            decreases self.labels@.len() - i,
        {
            s.append("Routing Test ");
            let number = crate::report::decimal_string(i + 1);
            s.append(number.as_str());
            s.append(" [");
            s.append(self.labels[i].as_str());
            s.append("] : ");
            match &self.outcomes[i] {
                CaseOutcome::Passed => {
                    s.append("PASSED ");
                },
                CaseOutcome::Failed(m) => {
                    s.append("FAILED '");
                    s.append(m.as_str());
                    s.append("'");
                },
            }
            s.append("\n");
            proof {
                assert(s@ =~= crate::report::spec_report_upto(
                    self.spec_labels(),
                    self.spec_outcomes(),
                    (i + 1) as nat,
                ));
            }
            i = i + 1;
        }
        s
    }

    /// The terminal packet that closes the run: ERR-flagged if any test
    /// failed, END-flagged otherwise.
    pub fn terminal_packet(&self) -> (p: RaniPacket)
        ensures
            p@ == spec_terminal_packet(spec_any_failure(self.spec_outcomes())),
            p@.wf(),
    {
        if self.has_failure() {
            error_packet()
        } else {
            end_packet()
        }
    }
}

} // verus!
