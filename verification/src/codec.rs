//! Wire-level codec for RaNi packets.
//!
//! A packet is an 8-byte header followed by either a command payload
//! (routing-table entries with a 20-bit timestamp) or an opaque data
//! payload.  The header packs a 4-bit TTL with three flag bits, and a
//! 4-bit type nibble with the top bits of a 12-bit sequence number; byte 6
//! carries an 8-bit one's-complement checksum over the first six header
//! bytes and the whole payload.

use vstd::prelude::*;

verus! {

/// Number of bytes in a serialised header.
pub const HEADER_SIZE: usize = 8;

/// Number of bytes in the fixed part of a command payload.
pub const COMMAND_HEADER_SIZE: usize = 4;

/// Number of bytes per routing-table entry in a command payload.
pub const COMMAND_ENTRY_SIZE: usize = 2;

/// Why encoding or decoding a packet failed.
#[derive(Clone, Copy, PartialEq, Eq, Structural, Debug)]
pub enum CodecError {
    /// Fewer bytes were supplied (or offered as destination) than the
    /// packet's declared size demands.
    BufferTooShort,
    /// The one's-complement checksum over the received bytes is invalid.
    ChecksumMismatch,
    /// The type nibble is neither command nor data.
    UnknownPacketType,
}

/// The packet kind carried in the header's type nibble.
#[derive(Clone, Copy, PartialEq, Eq, Structural, Debug)]
pub enum RaniType {
    Command,
    Data,
}

impl RaniType {
    /// Numeric value of the type nibble on the wire.
    pub open spec fn spec_value(self) -> u8 {
        match self {
            RaniType::Command => 4,
            RaniType::Data => 8,
        }
    }

    /// Wire value of the type nibble.
    pub fn value(self) -> (v: u8)
        ensures
            v == self.spec_value(),
    {
        match self {
            RaniType::Command => 4,
            RaniType::Data => 8,
        }
    }

    /// Decodes a type nibble; only 4 (command) and 8 (data) are known.
    pub fn from_nibble(v: u8) -> (r: Result<RaniType, CodecError>)
        ensures
            v == 4 ==> r == Ok::<RaniType, CodecError>(RaniType::Command),
            v == 8 ==> r == Ok::<RaniType, CodecError>(RaniType::Data),
            v != 4 && v != 8 ==> r == Err::<RaniType, CodecError>(CodecError::UnknownPacketType),
    {
        if v == 4 {
            Ok(RaniType::Command)
        } else if v == 8 {
            Ok(RaniType::Data)
        } else {
            Err(CodecError::UnknownPacketType)
        }
    }
}

/// The wraparound 8-bit sum of a byte sequence: the value an 8-bit
/// accumulator holds after adding every byte with wraparound on overflow.
pub open spec fn wrap_sum(s: Seq<u8>) -> int
    decreases s.len(),
{
    if s.len() == 0 {
        0
    } else {
        (wrap_sum(s.drop_last()) + s.last()) % 256
    }
}

/// The wraparound sum always fits in a byte.
pub proof fn lemma_wrap_sum_bounds(s: Seq<u8>)
    ensures
        0 <= wrap_sum(s) < 256,
    decreases s.len(),
{
    if s.len() > 0 {
        lemma_wrap_sum_bounds(s.drop_last());
    }
}

/// Appending one byte adds it to the wraparound sum.
pub proof fn lemma_wrap_sum_push(s: Seq<u8>, b: u8)
    ensures
        wrap_sum(s.push(b)) == (wrap_sum(s) + b) % 256,
{
    assert(s.push(b).drop_last() =~= s);
    assert(s.push(b).last() == b);
}

/// Reducing the left addend modulo 256 first does not change a sum's
/// residue: `((x % 256) + y) % 256 == (x + y) % 256`.
pub proof fn lemma_mod_shift(x: int, y: int)
    ensures
        ((x % 256) + y) % 256 == (x + y) % 256,
{
    vstd::arithmetic::div_mod::lemma_add_mod_noop_right(y, x, 256);
}

/// The wraparound sum of a concatenation combines the two sums.
pub proof fn lemma_wrap_sum_concat(a: Seq<u8>, b: Seq<u8>)
    ensures
        wrap_sum(a + b) == (wrap_sum(a) + wrap_sum(b)) % 256,
    decreases b.len(),
{
    lemma_wrap_sum_bounds(a);
    if b.len() == 0 {
        assert(a + b =~= a);
        vstd::arithmetic::div_mod::lemma_small_mod(wrap_sum(a) as nat, 256);
    } else {
        let b0 = b.drop_last();
        let l = b.last();
        lemma_wrap_sum_concat(a, b0);
        assert(a + b =~= (a + b0).push(l));
        lemma_wrap_sum_push(a + b0, l);
        lemma_mod_shift(wrap_sum(a) + wrap_sum(b0), l as int);
        lemma_mod_shift(wrap_sum(b0) + l, wrap_sum(a));
    }
}

/// Replacing one byte shifts the wraparound sum by the difference.
pub proof fn lemma_wrap_sum_update(s: Seq<u8>, i: int, b: u8)
    requires
        0 <= i < s.len(),
    ensures
        wrap_sum(s.update(i, b)) == (wrap_sum(s) - s[i] + b) % 256,
    decreases s.len(),
{
    let d = wrap_sum(s.drop_last());
    if i == s.len() - 1 {
        assert(s.update(i, b).drop_last() =~= s.drop_last());
        assert(s.update(i, b).last() == b);
        lemma_mod_shift(d + s[i], b - s[i]);
    } else {
        let s0 = s.drop_last();
        lemma_wrap_sum_update(s0, i, b);
        assert(s.update(i, b).drop_last() =~= s0.update(i, b));
        assert(s.update(i, b).last() == s.last());
        lemma_mod_shift(d - s0[i] + b, s.last() as int);
        lemma_mod_shift(d + s.last(), b - s[i]);
    }
}

/// One's-complement checksum of a byte sequence: the bitwise complement
/// (255 minus) of the wraparound sum.
pub open spec fn checksum_of(s: Seq<u8>) -> u8 {
    (255 - wrap_sum(s)) as u8
}

/// A RaNi packet header.
///
/// On the wire it occupies [`HEADER_SIZE`] bytes: source, destination,
/// total length (header plus payload), a byte packing the 4-bit TTL with
/// the ERR/END/ACK flag bits, a byte packing the type nibble with the top
/// 4 bits of the 12-bit sequence number, the low 8 sequence-number bits,
/// the checksum, and a reserved zero byte.
#[derive(Clone, Copy, PartialEq, Eq, Structural, Debug)]
pub struct RaniHeader {
    pub src: u8,
    pub dest: u8,
    pub length: u8,
    pub ttl: u8,
    pub flag_err: bool,
    pub flag_end: bool,
    pub flag_ack: bool,
    pub packet_type: RaniType,
    pub seq_no: u16,
}

impl RaniHeader {
    /// The header invariant: the TTL fits in 4 bits, the sequence number
    /// in 12, and the declared total length covers at least the header.
    pub open spec fn wf(self) -> bool {
        &&& self.ttl < 16
        &&& self.seq_no < 4096
        &&& self.length >= HEADER_SIZE
    }

    /// The flag/TTL byte: TTL in the low nibble, ERR at bit 4, END at
    /// bit 5, ACK at bit 6.
    pub open spec fn spec_flags_ttl_byte(self) -> u8 {
        (self.ttl + (if self.flag_err {
            16int
        } else {
            0int
        }) + (if self.flag_end {
            32int
        } else {
            0int
        }) + (if self.flag_ack {
            64int
        } else {
            0int
        })) as u8
    }

    /// The type/sequence byte: type nibble high, top 4 sequence bits low.
    pub open spec fn spec_type_seq_byte(self) -> u8 {
        (self.packet_type.spec_value() * 16 + self.seq_no / 256) as u8
    }

    /// The eight serialised header bytes, checksummed together with the
    /// given payload bytes.
    pub open spec fn spec_bytes(self, payload: Seq<u8>) -> Seq<u8> {
        let front = seq![
            self.src,
            self.dest,
            self.length,
            self.spec_flags_ttl_byte(),
            self.spec_type_seq_byte(),
            (self.seq_no % 256) as u8,
        ];
        front + seq![checksum_of(front + payload), 0u8]
    }

    /// Builds a data-type header with all flags clear whose length field
    /// declares `payload_length` payload bytes after the header.
    ///
    /// Construction is refused exactly when the TTL does not fit in 4
    /// bits, the sequence number does not fit in 12, or the total length
    /// would not fit in the one-byte length field.
    pub fn new(src: u8, dest: u8, payload_length: u8, ttl: u8, seq_no: u16) -> (r: Option<
        RaniHeader,
    >)
        ensures
            r is Some <==> ttl < 16 && seq_no < 4096 && payload_length <= u8::MAX - HEADER_SIZE,
            r matches Some(h) ==> h == (RaniHeader {
                src,
                dest,
                length: (HEADER_SIZE + payload_length) as u8,
                ttl,
                flag_err: false,
                flag_end: false,
                flag_ack: false,
                packet_type: RaniType::Data,
                seq_no,
            }),
            r matches Some(h) ==> h.wf(),
    {
        if ttl >= 16 || seq_no >= 4096 || payload_length > u8::MAX - (HEADER_SIZE as u8) {
            return None;
        }
        Some(
            RaniHeader {
                src,
                dest,
                length: (HEADER_SIZE as u8) + payload_length,
                ttl,
                flag_err: false,
                flag_end: false,
                flag_ack: false,
                packet_type: RaniType::Data,
                seq_no,
            },
        )
    }

    /// Number of bytes a serialised header occupies.
    pub fn size(&self) -> (n: usize)
        ensures
            n == HEADER_SIZE,
    {
        HEADER_SIZE
    }

    /// Sets the ERR flag.
    pub fn set_err(&mut self)
        ensures
            *final(self) == (RaniHeader { flag_err: true, ..*old(self) }),
    {
        self.flag_err = true;
    }

    /// Sets the END flag.
    pub fn set_end(&mut self)
        ensures
            *final(self) == (RaniHeader { flag_end: true, ..*old(self) }),
    {
        self.flag_end = true;
    }

    /// Sets the ACK flag.
    pub fn set_ack(&mut self)
        ensures
            *final(self) == (RaniHeader { flag_ack: true, ..*old(self) }),
    {
        self.flag_ack = true;
    }

    /// Marks the header as belonging to a command packet.
    pub fn set_command(&mut self)
        ensures
            *final(self) == (RaniHeader { packet_type: RaniType::Command, ..*old(self) }),
    {
        self.packet_type = RaniType::Command;
    }

    /// One's-complement checksum over the first six header bytes followed
    /// by the payload bytes.
    pub fn checksum(hdr_buf: &[u8], payload: &[u8]) -> (c: u8)
        requires
            hdr_buf@.len() >= 6,
        ensures
            c == checksum_of(hdr_buf@.take(6) + payload@),
    {
        let mut sum: u8 = 0;
        let mut i: usize = 0;
        while i < 6
            invariant
                i <= 6,
                hdr_buf@.len() >= 6,
                sum == wrap_sum(hdr_buf@.take(i as int)),
            decreases 6 - i,
        {
            proof {
                lemma_wrap_sum_push(hdr_buf@.take(i as int), hdr_buf@[i as int]);
                assert(hdr_buf@.take(i as int).push(hdr_buf@[i as int]) =~= hdr_buf@.take(
                    i + 1 as int,
                ));
            }
            sum = sum.wrapping_add(hdr_buf[i]);
            i = i + 1;
        }
        let ghost six = hdr_buf@.take(6);
        let mut j: usize = 0;
        while j < payload.len()
            invariant
                j <= payload@.len(),
                sum == wrap_sum(six + payload@.take(j as int)),
            decreases payload@.len() - j,
        {
            proof {
                lemma_wrap_sum_push(six + payload@.take(j as int), payload@[j as int]);
                assert((six + payload@.take(j as int)).push(payload@[j as int]) =~= six
                    + payload@.take(j + 1 as int));
            }
            sum = sum.wrapping_add(payload[j]);
            j = j + 1;
        }
        proof {
            assert(six + payload@.take(payload@.len() as int) =~= six + payload@);
            lemma_wrap_sum_bounds(six + payload@);
        }
        255 - sum
    }

    /// Checks the one's-complement self-checking property over the bytes
    /// given (the received header plus payload, checksum byte included):
    /// the complement of their wraparound sum must be zero, i.e. the sum
    /// must be 255.
    pub fn verify_checksum(buf: &[u8]) -> (r: Result<(), ()>)
        ensures
            r is Ok <==> wrap_sum(buf@) == 255,
    {
        let mut sum: u8 = 0;
        let mut i: usize = 0;
        while i < buf.len()
            invariant
                i <= buf@.len(),
                sum == wrap_sum(buf@.take(i as int)),
            decreases buf@.len() - i,
        {
            proof {
                lemma_wrap_sum_push(buf@.take(i as int), buf@[i as int]);
                assert(buf@.take(i as int).push(buf@[i as int]) =~= buf@.take(i + 1 as int));
            }
            sum = sum.wrapping_add(buf[i]);
            i = i + 1;
        }
        proof {
            assert(buf@.take(buf@.len() as int) =~= buf@);
            lemma_wrap_sum_bounds(buf@);
        }
        if 255 - sum == 0 {
            Ok(())
        } else {
            Err(())
        }
    }

    /// The flag bits of the flag/TTL byte, without the TTL nibble.
    pub fn serialise_flags(&self) -> (r: u8)
        ensures
            r == (if self.flag_err {
                16int
            } else {
                0int
            }) + (if self.flag_end {
                32int
            } else {
                0int
            }) + (if self.flag_ack {
                64int
            } else {
                0int
            }),
    {
        (if self.flag_err {
            16u8
        } else {
            0u8
        }) + (if self.flag_end {
            32u8
        } else {
            0u8
        }) + (if self.flag_ack {
            64u8
        } else {
            0u8
        })
    }

    /// Writes the eight header bytes at the start of `buf`, computing the
    /// checksum over the first six of them and the given payload bytes.
    /// The rest of `buf` is left unchanged.  Fails exactly when `buf` is
    /// shorter than a header.
    pub fn serialise(&self, payload: &[u8], buf: &mut Vec<u8>) -> (r: Result<(), CodecError>)
        requires
            self.wf(),
        ensures
            r is Ok <==> old(buf)@.len() >= HEADER_SIZE,
            r is Err ==> r == Err::<(), CodecError>(CodecError::BufferTooShort) && final(buf)@
                == old(buf)@,
            r is Ok ==> final(buf)@ == self.spec_bytes(payload@) + old(buf)@.skip(
                HEADER_SIZE as int,
            ),
    {
        if buf.len() < HEADER_SIZE {
            return Err(CodecError::BufferTooShort);
        }
        buf.set(0, self.src);
        buf.set(1, self.dest);
        buf.set(2, self.length);
        buf.set(3, self.serialise_flags() + self.ttl % 16);
        buf.set(4, self.packet_type.value() * 16 + (self.seq_no / 256) as u8);
        buf.set(5, (self.seq_no % 256) as u8);
        let ghost front = seq![
            self.src,
            self.dest,
            self.length,
            self.spec_flags_ttl_byte(),
            self.spec_type_seq_byte(),
            (self.seq_no % 256) as u8,
        ];
        let six = vstd::slice::slice_subrange(buf.as_slice(), 0, 6);
        proof {
            assert(six@ =~= front);
        }
        let c = Self::checksum(six, payload);
        proof {
            assert(six@.take(6) =~= front);
        }
        buf.set(6, c);
        buf.set(7, 0);
        proof {
            assert(buf@ =~= self.spec_bytes(payload@) + old(buf)@.skip(HEADER_SIZE as int));
        }
        Ok(())
    }
}

/// The header value that a byte sequence parses to, or the reason it is
/// refused: too few bytes for a header, a declared total length smaller
/// than the header itself or demanding more bytes than were supplied, a
/// wraparound sum over the declared-length region (header plus the
/// payload portion the length field implies, checksum byte included)
/// whose complement is nonzero, or an unknown type nibble.  Bytes beyond
/// the declared length are outside the checksum domain: they are the
/// remainder, and a valid packet decodes the same with or without them.
pub open spec fn spec_parse_header(s: Seq<u8>) -> Result<RaniHeader, CodecError> {
    if s.len() < 8 {
        Err(CodecError::BufferTooShort)
    } else if s[2] < 8 || s.len() < s[2] {
        Err(CodecError::BufferTooShort)
    } else if wrap_sum(s.take(s[2] as int)) != 255 {
        Err(CodecError::ChecksumMismatch)
    } else if s[4] / 16 != 4 && s[4] / 16 != 8 {
        Err(CodecError::UnknownPacketType)
    } else {
        Ok(
            RaniHeader {
                src: s[0],
                dest: s[1],
                length: s[2],
                ttl: (s[3] % 16) as u8,
                flag_err: (s[3] / 16) % 2 == 1,
                flag_end: (s[3] / 32) % 2 == 1,
                flag_ack: (s[3] / 64) % 2 == 1,
                packet_type: if s[4] / 16 == 4 {
                    RaniType::Command
                } else {
                    RaniType::Data
                },
                seq_no: ((s[4] % 16) * 256 + s[5]) as u16,
            },
        )
    }
}

impl RaniHeader {
    /// Parses a header from the front of `buf` and returns it with the
    /// bytes that follow it.  The result is exactly
    /// [`spec_parse_header`] of the input.
    pub fn deserialise(buf: &[u8]) -> (r: Result<(RaniHeader, &[u8]), CodecError>)
        ensures
            r is Ok <==> spec_parse_header(buf@) is Ok,
            r matches Ok((h, rest)) ==> h == spec_parse_header(buf@)->Ok_0 && rest@ == buf@.skip(
                HEADER_SIZE as int,
            ) && h.wf(),
            r matches Err(e) ==> e == spec_parse_header(buf@)->Err_0,
    {
        if buf.len() < HEADER_SIZE {
            return Err(CodecError::BufferTooShort);
        }
        let total = buf[2] as usize;
        if buf[2] < HEADER_SIZE as u8 || buf.len() < total {
            return Err(CodecError::BufferTooShort);
        }
        let domain = vstd::slice::slice_subrange(buf, 0, total);
        proof {
            assert(domain@ =~= buf@.take(buf@[2] as int));
        }
        if Self::verify_checksum(domain).is_err() {
            return Err(CodecError::ChecksumMismatch);
        }
        let packet_type = match RaniType::from_nibble(buf[4] / 16) {
            Ok(t) => t,
            Err(e) => {
                return Err(e);
            },
        };
        let hdr = RaniHeader {
            src: buf[0],
            dest: buf[1],
            length: buf[2],
            ttl: buf[3] % 16,
            flag_err: (buf[3] / 16) % 2 == 1,
            flag_end: (buf[3] / 32) % 2 == 1,
            flag_ack: (buf[3] / 64) % 2 == 1,
            packet_type,
            seq_no: ((buf[4] % 16) as u16) * 256 + (buf[5] as u16),
        };
        let rest = vstd::slice::slice_subrange(buf, HEADER_SIZE, buf.len());
        proof {
            assert(rest@ =~= buf@.skip(HEADER_SIZE as int));
        }
        Ok((hdr, rest))
    }
}

/// One routing-table entry of a command payload: a destination address
/// and the cost of reaching it.
#[derive(Clone, Copy, PartialEq, Eq, Structural, Debug)]
pub struct RaniCommandEntry {
    pub dest: u8,
    pub cost: u8,
}

/// A command payload: a table of routing entries stamped with a 20-bit
/// timestamp (seconds since midnight).
#[derive(Debug)]
pub struct RaniCommandPayload {
    pub entry_count: u8,
    pub timestamp: u32,
    pub entries: Vec<RaniCommandEntry>,
}

/// Mathematical model of a command payload.
pub ghost struct SpecCommandPayload {
    pub entry_count: u8,
    pub timestamp: u32,
    pub entries: Seq<RaniCommandEntry>,
}

impl View for RaniCommandPayload {
    type V = SpecCommandPayload;

    open spec fn view(&self) -> SpecCommandPayload {
        SpecCommandPayload {
            entry_count: self.entry_count,
            timestamp: self.timestamp,
            entries: self.entries@,
        }
    }
}

impl SpecCommandPayload {
    /// The command-payload invariant: the entry count matches the table
    /// and the timestamp fits in 20 bits.
    pub open spec fn wf(self) -> bool {
        &&& self.entry_count == self.entries.len()
        &&& self.timestamp < 0x100000
    }

    /// Number of bytes the payload occupies on the wire.
    pub open spec fn spec_size(self) -> int {
        COMMAND_HEADER_SIZE + COMMAND_ENTRY_SIZE * self.entry_count
    }
}

/// A packet payload: either a command table or opaque data bytes.
#[derive(Debug)]
pub enum RaniPayload {
    Command(RaniCommandPayload),
    Data(Vec<u8>),
}

/// Mathematical model of a payload.
pub ghost enum SpecPayload {
    Command(SpecCommandPayload),
    Data(Seq<u8>),
}

impl View for RaniPayload {
    type V = SpecPayload;

    open spec fn view(&self) -> SpecPayload {
        match self {
            RaniPayload::Command(c) => SpecPayload::Command(c@),
            RaniPayload::Data(d) => SpecPayload::Data(d@),
        }
    }
}

impl SpecPayload {
    /// The payload invariant.
    pub open spec fn wf(self) -> bool {
        match self {
            SpecPayload::Command(c) => c.wf(),
            SpecPayload::Data(_) => true,
        }
    }

    /// Number of bytes the payload occupies on the wire.
    pub open spec fn spec_size(self) -> int {
        match self {
            SpecPayload::Command(c) => c.spec_size(),
            SpecPayload::Data(d) => d.len() as int,
        }
    }
}

/// A complete RaNi packet: header plus payload.
#[derive(Debug)]
pub struct RaniPacket {
    pub header: RaniHeader,
    pub payload: RaniPayload,
}

/// Mathematical model of a packet.
pub ghost struct SpecPacket {
    pub header: RaniHeader,
    pub payload: SpecPayload,
}

impl View for RaniPacket {
    type V = SpecPacket;

    open spec fn view(&self) -> SpecPacket {
        SpecPacket { header: self.header, payload: self.payload@ }
    }
}

impl SpecPacket {
    /// The packet invariant: header and payload are well formed, the type
    /// nibble matches the payload kind, and the declared length equals
    /// header plus payload exactly.
    pub open spec fn wf(self) -> bool {
        &&& self.header.wf()
        &&& self.payload.wf()
        &&& (self.header.packet_type is Command <==> self.payload is Command)
        &&& self.header.length == HEADER_SIZE + self.payload.spec_size()
    }

    /// Number of bytes the packet occupies on the wire.
    pub open spec fn spec_size(self) -> int {
        HEADER_SIZE + self.payload.spec_size()
    }
}

/// The serialised bytes of a routing-table sequence, two bytes per entry.
pub open spec fn spec_entries_bytes(es: Seq<RaniCommandEntry>) -> Seq<u8>
    decreases es.len(),
{
    if es.len() == 0 {
        Seq::empty()
    } else {
        spec_entries_bytes(es.drop_last()) + seq![es.last().dest, es.last().cost]
    }
}

/// A routing table serialises to two bytes per entry.
pub proof fn lemma_entries_bytes_len(es: Seq<RaniCommandEntry>)
    ensures
        spec_entries_bytes(es).len() == 2 * es.len(),
    decreases es.len(),
{
    if es.len() > 0 {
        lemma_entries_bytes_len(es.drop_last());
    }
}

/// The serialised bytes of a command payload: the entry count, the 20-bit
/// timestamp in the low nibble of one byte and the two that follow, then
/// the entries.
pub open spec fn spec_command_bytes(c: SpecCommandPayload) -> Seq<u8> {
    seq![
        c.entry_count,
        (c.timestamp / 65536) as u8,
        ((c.timestamp / 256) % 256) as u8,
        (c.timestamp % 256) as u8,
    ] + spec_entries_bytes(c.entries)
}

/// The serialised bytes of a payload.
pub open spec fn spec_payload_bytes(p: SpecPayload) -> Seq<u8> {
    match p {
        SpecPayload::Command(c) => spec_command_bytes(c),
        SpecPayload::Data(d) => d,
    }
}

/// The serialised bytes of a whole packet.
pub open spec fn spec_packet_bytes(p: SpecPacket) -> Seq<u8> {
    p.header.spec_bytes(spec_payload_bytes(p.payload)) + spec_payload_bytes(p.payload)
}

/// A well-formed payload serialises to exactly its declared size.
pub proof fn lemma_payload_bytes_len(p: SpecPayload)
    requires
        p.wf(),
    ensures
        spec_payload_bytes(p).len() == p.spec_size(),
{
    match p {
        SpecPayload::Command(c) => {
            lemma_entries_bytes_len(c.entries);
        },
        SpecPayload::Data(_) => {},
    }
}

/// The first `n` routing-table entries read from a byte sequence.
pub open spec fn spec_parse_entries(s: Seq<u8>, n: nat) -> Seq<RaniCommandEntry> {
    Seq::new(n, |i: int| RaniCommandEntry { dest: s[2 * i], cost: s[2 * i + 1] })
}

/// The command payload that a byte sequence parses to together with the
/// bytes left over, or a too-short signal when the fixed part or the
/// declared entry table does not fit.
pub open spec fn spec_parse_command(s: Seq<u8>) -> Result<
    (SpecCommandPayload, Seq<u8>),
    CodecError,
> {
    if s.len() < 4 {
        Err(CodecError::BufferTooShort)
    } else if s.len() < 4 + 2 * s[0] {
        Err(CodecError::BufferTooShort)
    } else {
        Ok(
            (
                SpecCommandPayload {
                    entry_count: s[0],
                    timestamp: ((s[1] % 16) * 65536 + s[2] * 256 + s[3]) as u32,
                    entries: spec_parse_entries(s.skip(4), s[0] as nat),
                },
                s.skip(4 + 2 * s[0]),
            ),
        )
    }
}

/// The payload that a byte sequence parses to under a given header,
/// together with the bytes left over.  The declared length must be
/// available in full; a command payload must moreover fill the declared
/// length exactly, so that every parsed packet satisfies the packet
/// invariant.
pub open spec fn spec_parse_payload(h: RaniHeader, s: Seq<u8>) -> Result<
    (SpecPayload, Seq<u8>),
    CodecError,
> {
    let plen = h.length - HEADER_SIZE;
    if s.len() < plen {
        Err(CodecError::BufferTooShort)
    } else {
        match h.packet_type {
            RaniType::Data => Ok((SpecPayload::Data(s.take(plen)), s.skip(plen))),
            RaniType::Command => match spec_parse_command(s) {
                Err(e) => Err(e),
                Ok((c, rest)) => if c.spec_size() == plen {
                    Ok((SpecPayload::Command(c), rest))
                } else {
                    Err(CodecError::BufferTooShort)
                },
            },
        }
    }
}

/// The packet that a byte sequence parses to together with the bytes left
/// over: a header parse followed by a payload parse.
pub open spec fn spec_parse_packet(s: Seq<u8>) -> Result<(SpecPacket, Seq<u8>), CodecError> {
    match spec_parse_header(s) {
        Err(e) => Err(e),
        Ok(h) => match spec_parse_payload(h, s.skip(HEADER_SIZE as int)) {
            Err(e) => Err(e),
            Ok((p, rest)) => Ok((SpecPacket { header: h, payload: p }, rest)),
        },
    }
}

impl RaniCommandEntry {
    /// Builds a routing-table entry.
    pub fn new(dest: u8, cost: u8) -> (r: Self)
        ensures
            r == (RaniCommandEntry { dest, cost }),
    {
        RaniCommandEntry { dest, cost }
    }

    /// Reads one entry from the front of `buf` and returns it with the
    /// bytes that follow it.
    pub fn deserialise(buf: &[u8]) -> (r: Result<(Self, &[u8]), CodecError>)
        ensures
            r is Ok <==> buf@.len() >= COMMAND_ENTRY_SIZE,
            r matches Ok((e, rest)) ==> e == (RaniCommandEntry { dest: buf@[0], cost: buf@[1] })
                && rest@ == buf@.skip(COMMAND_ENTRY_SIZE as int),
            r is Err ==> r == Err::<(Self, &[u8]), CodecError>(CodecError::BufferTooShort),
    {
        if buf.len() < COMMAND_ENTRY_SIZE {
            return Err(CodecError::BufferTooShort);
        }
        let e = RaniCommandEntry { dest: buf[0], cost: buf[1] };
        let rest = vstd::slice::slice_subrange(buf, COMMAND_ENTRY_SIZE, buf.len());
        proof {
            assert(rest@ =~= buf@.skip(COMMAND_ENTRY_SIZE as int));
        }
        Ok((e, rest))
    }

    /// Writes the entry's two bytes into `buf` at offset `at`, leaving the
    /// rest of `buf` unchanged.  Fails exactly when they do not fit.
    pub fn serialise(&self, buf: &mut Vec<u8>, at: usize) -> (r: Result<(), CodecError>)
        ensures
            r is Ok <==> at + COMMAND_ENTRY_SIZE <= old(buf)@.len(),
            r is Err ==> r == Err::<(), CodecError>(CodecError::BufferTooShort) && final(buf)@
                == old(buf)@,
            r is Ok ==> final(buf)@ == old(buf)@.update(at as int, self.dest).update(
                at + 1,
                self.cost,
            ),
    {
        if buf.len() < COMMAND_ENTRY_SIZE || at > buf.len() - COMMAND_ENTRY_SIZE {
            return Err(CodecError::BufferTooShort);
        }
        buf.set(at, self.dest);
        buf.set(at + 1, self.cost);
        Ok(())
    }
}

impl RaniCommandPayload {
    /// Builds a command payload.  Construction is refused exactly when the
    /// entry count does not match the table or the timestamp does not fit
    /// in 20 bits.
    pub fn new(entry_count: u8, timestamp: u32, entries: Vec<RaniCommandEntry>) -> (r: Option<
        Self,
    >)
        ensures
            r is Some <==> entry_count == entries@.len() && timestamp < 0x100000,
            r matches Some(c) ==> c@ == (SpecCommandPayload {
                entry_count,
                timestamp,
                entries: entries@,
            }) && c@.wf(),
    {
        if (entry_count as usize) != entries.len() || timestamp >= 0x100000 {
            return None;
        }
        Some(RaniCommandPayload { entry_count, timestamp, entries })
    }

    /// Number of bytes the payload occupies on the wire.
    pub fn size(&self) -> (n: usize)
        ensures
            n == self@.spec_size(),
    {
        COMMAND_HEADER_SIZE + COMMAND_ENTRY_SIZE * (self.entry_count as usize)
    }

    /// Parses a command payload from the front of `buf` and returns it
    /// with the bytes that follow it.  The result is exactly
    /// [`spec_parse_command`] of the input.
    pub fn deserialise(buf: &[u8]) -> (r: Result<(Self, &[u8]), CodecError>)
        ensures
            r is Ok <==> spec_parse_command(buf@) is Ok,
            r matches Ok((c, rest)) ==> c@ == spec_parse_command(buf@)->Ok_0.0 && rest@
                == spec_parse_command(buf@)->Ok_0.1,
            r matches Err(e) ==> e == spec_parse_command(buf@)->Err_0,
    {
        if buf.len() < COMMAND_HEADER_SIZE {
            return Err(CodecError::BufferTooShort);
        }
        let entry_count = buf[0];
        if buf.len() - COMMAND_HEADER_SIZE < COMMAND_ENTRY_SIZE * (entry_count as usize) {
            return Err(CodecError::BufferTooShort);
        }
        let timestamp: u32 = ((buf[1] % 16) as u32) * 65536 + (buf[2] as u32) * 256 + (
        buf[3] as u32);
        let mut cur = vstd::slice::slice_subrange(buf, COMMAND_HEADER_SIZE, buf.len());
        proof {
            assert(cur@ =~= buf@.skip(COMMAND_HEADER_SIZE as int));
        }
        let mut entries: Vec<RaniCommandEntry> = Vec::new();
        let mut i: usize = 0;
        while i < entry_count as usize
            invariant
                i <= entry_count,
                buf@.len() >= COMMAND_HEADER_SIZE + COMMAND_ENTRY_SIZE * entry_count,
                cur@ == buf@.skip(COMMAND_HEADER_SIZE + COMMAND_ENTRY_SIZE * (i as int)),
                entries@ == spec_parse_entries(
                    buf@.skip(COMMAND_HEADER_SIZE as int),
                    i as nat,
                ).take(i as int),
                entries@.len() == i,
            decreases entry_count - i,
        {
            let (entry, next) = match RaniCommandEntry::deserialise(cur) {
                Ok(v) => v,
                Err(_) => {
                    proof {
                        assert(false);
                    }
                    return Err(CodecError::BufferTooShort);
                },
            };
            entries.push(entry);
            proof {
                let base = buf@.skip(COMMAND_HEADER_SIZE as int);
                assert(cur@[0] == base[2 * (i as int)]);
                assert(cur@[1] == base[2 * (i as int) + 1]);
                assert(entries@ =~= spec_parse_entries(base, (i + 1) as nat).take(i + 1 as int));
                assert(next@ =~= buf@.skip(
                    COMMAND_HEADER_SIZE + COMMAND_ENTRY_SIZE * ((i + 1) as int),
                ));
            }
            cur = next;
            i = i + 1;
        }
        let c = RaniCommandPayload { entry_count, timestamp, entries };
        proof {
            let base = buf@.skip(COMMAND_HEADER_SIZE as int);
            assert(c.entries@ =~= spec_parse_entries(base, entry_count as nat));
        }
        Ok((c, cur))
    }

    /// Writes the command payload's bytes into `buf` at offset `at`,
    /// leaving the rest of `buf` unchanged.  Fails exactly when they do
    /// not fit.
    pub fn serialise(&self, buf: &mut Vec<u8>, at: usize) -> (r: Result<(), CodecError>)
        requires
            self@.wf(),
        ensures
            r is Ok <==> at + self@.spec_size() <= old(buf)@.len(),
            r is Err ==> r == Err::<(), CodecError>(CodecError::BufferTooShort) && final(buf)@
                == old(buf)@,
            r is Ok ==> final(buf)@ == old(buf)@.take(at as int) + spec_command_bytes(self@)
                + old(buf)@.skip(at + self@.spec_size()),
    {
        let size = self.size();
        if buf.len() < size || at > buf.len() - size {
            return Err(CodecError::BufferTooShort);
        }
        buf.set(at, self.entry_count);
        buf.set(at + 1, (self.timestamp / 65536) as u8);
        buf.set(at + 2, ((self.timestamp / 256) % 256) as u8);
        buf.set(at + 3, (self.timestamp % 256) as u8);
        let mut i: usize = 0;
        proof {
            lemma_entries_bytes_len(self.entries@);
        }
        while i < self.entries.len()
            invariant
                self@.wf(),
                i <= self.entries@.len(),
                buf@.len() == old(buf)@.len(),
                at + COMMAND_HEADER_SIZE + COMMAND_ENTRY_SIZE * self.entries@.len()
                    <= old(buf)@.len(),
                old(buf)@.len() <= usize::MAX,
                buf@.take(at as int) == old(buf)@.take(at as int),
                buf@.subrange(at as int, at + 4) =~= seq![
                    self.entry_count,
                    (self.timestamp / 65536) as u8,
                    ((self.timestamp / 256) % 256) as u8,
                    (self.timestamp % 256) as u8,
                ],
                buf@.subrange(at + 4, at + 4 + 2 * (i as int)) =~= spec_entries_bytes(
                    self.entries@.take(i as int),
                ),
                buf@.skip(at + 4 + 2 * (i as int)) == old(buf)@.skip(at + 4 + 2 * (i as int)),
            decreases self.entries@.len() - i,
        {
            proof {
                lemma_entries_bytes_len(self.entries@.take(i as int));
            }
            let ghost pre = buf@;
            let off = at + COMMAND_HEADER_SIZE + COMMAND_ENTRY_SIZE * i;
            match self.entries[i].serialise(buf, off) {
                Ok(()) => (),
                Err(_) => {
                    proof {
                        assert(false);
                    }
                    return Err(CodecError::BufferTooShort);
                },
            }
            proof {
                let e = self.entries@[i as int];
                assert(buf@ == pre.update(off as int, e.dest).update(off + 1, e.cost));
                assert(buf@.take(at as int) =~= pre.take(at as int));
                assert(buf@.subrange(at as int, at + 4) =~= pre.subrange(at as int, at + 4));
                assert(self.entries@.take(i + 1 as int).drop_last() =~= self.entries@.take(
                    i as int,
                ));
                lemma_entries_bytes_len(self.entries@.take(i + 1 as int));
                assert(buf@.subrange(at + 4, at + 4 + 2 * ((i + 1) as int)) =~= spec_entries_bytes(
                    self.entries@.take(i + 1 as int),
                ));
                assert forall|k: int| off + 2 <= k < buf@.len() implies buf@[k] == old(buf)@[k] by {
                    assert(buf@[k] == pre[k]);
                    assert(pre[k] == pre.skip(off as int)[k - off]);
                    assert(old(buf)@[k] == old(buf)@.skip(off as int)[k - off]);
                }
                assert(buf@.skip(at + 4 + 2 * ((i + 1) as int)) =~= old(buf)@.skip(
                    at + 4 + 2 * ((i + 1) as int),
                ));
            }
            i = i + 1;
        }
        proof {
            assert(self.entries@.take(self.entries@.len() as int) =~= self.entries@);
            assert(buf@ =~= old(buf)@.take(at as int) + spec_command_bytes(self@) + old(buf)@.skip(
                at + self@.spec_size(),
            ));
        }
        Ok(())
    }
}

impl RaniPayload {
    /// Number of bytes the payload occupies on the wire.
    pub fn size(&self) -> (n: usize)
        requires
            self@.spec_size() <= usize::MAX,
        ensures
            n == self@.spec_size(),
    {
        match self {
            RaniPayload::Command(c) => c.size(),
            RaniPayload::Data(d) => d.len(),
        }
    }

    /// Parses the payload that a header declares from the front of `buf`
    /// and returns it with the bytes that follow it.  The result is
    /// exactly [`spec_parse_payload`] of the header and the input.
    pub fn deserialise<'a>(header: &RaniHeader, buf: &'a [u8]) -> (r: Result<
        (Self, &'a [u8]),
        CodecError,
    >)
        requires
            header.length >= HEADER_SIZE,
        ensures
            r is Ok <==> spec_parse_payload(*header, buf@) is Ok,
            r matches Ok((p, rest)) ==> p@ == spec_parse_payload(*header, buf@)->Ok_0.0 && rest@
                == spec_parse_payload(*header, buf@)->Ok_0.1,
            r matches Err(e) ==> e == spec_parse_payload(*header, buf@)->Err_0,
    {
        let payload_length = (header.length as usize) - HEADER_SIZE;
        if buf.len() < payload_length {
            return Err(CodecError::BufferTooShort);
        }
        match header.packet_type {
            RaniType::Command => {
                let (c, rest) = match RaniCommandPayload::deserialise(buf) {
                    Ok(v) => v,
                    Err(e) => {
                        return Err(e);
                    },
                };
                if c.size() != payload_length {
                    return Err(CodecError::BufferTooShort);
                }
                Ok((RaniPayload::Command(c), rest))
            },
            RaniType::Data => {
                let data = vstd::slice::slice_to_vec(
                    vstd::slice::slice_subrange(buf, 0, payload_length),
                );
                let rest = vstd::slice::slice_subrange(buf, payload_length, buf.len());
                proof {
                    assert(data@ =~= buf@.take(payload_length as int));
                    assert(rest@ =~= buf@.skip(payload_length as int));
                }
                Ok((RaniPayload::Data(data), rest))
            },
        }
    }

    /// Writes the payload's bytes into `buf` at offset `at`, leaving the
    /// rest of `buf` unchanged.  Fails exactly when they do not fit.
    pub fn serialise(&self, buf: &mut Vec<u8>, at: usize) -> (r: Result<(), CodecError>)
        requires
            self@.wf(),
            self@.spec_size() <= usize::MAX,
        ensures
            r is Ok <==> at + self@.spec_size() <= old(buf)@.len(),
            r is Err ==> r == Err::<(), CodecError>(CodecError::BufferTooShort) && final(buf)@
                == old(buf)@,
            r is Ok ==> final(buf)@ == old(buf)@.take(at as int) + spec_payload_bytes(self@)
                + old(buf)@.skip(at + self@.spec_size()),
    {
        let size = self.size();
        if buf.len() < size || at > buf.len() - size {
            return Err(CodecError::BufferTooShort);
        }
        match self {
            RaniPayload::Command(c) => {
                let r = c.serialise(buf, at);
                proof {
                    assert(r is Ok);
                }
                r
            },
            RaniPayload::Data(d) => {
                let mut i: usize = 0;
                while i < d.len()
                    invariant
                        i <= d@.len(),
                        at + d@.len() <= old(buf)@.len(),
                        old(buf)@.len() <= usize::MAX,
                        buf@.len() == old(buf)@.len(),
                        buf@.take(at as int) == old(buf)@.take(at as int),
                        buf@.subrange(at as int, at + i) =~= d@.take(i as int),
                        buf@.skip(at + i) == old(buf)@.skip(at + i),
                    decreases d@.len() - i,
                {
                    let ghost pre = buf@;
                    buf.set(at + i, d[i]);
                    proof {
                        assert(buf@.take(at as int) =~= pre.take(at as int));
                        assert(buf@.subrange(at as int, at + i + 1) =~= d@.take(i + 1 as int));
                        assert forall|k: int| at + i + 1 <= k < buf@.len() implies buf@[k] == old(
                            buf,
                        )@[k] by {
                            assert(pre[k] == pre.skip(at + i)[k - (at + i)]);
                            assert(old(buf)@[k] == old(buf)@.skip(at + i)[k - (at + i)]);
                        }
                        assert(buf@.skip(at + i + 1) =~= old(buf)@.skip(at + i + 1));
                    }
                    i = i + 1;
                }
                proof {
                    assert(d@.take(d@.len() as int) =~= d@);
                    assert(buf@ =~= old(buf)@.take(at as int) + spec_payload_bytes(self@) + old(
                        buf,
                    )@.skip(at + self@.spec_size()));
                }
                Ok(())
            },
        }
    }
}

impl RaniPacket {
    /// Builds a packet from a header and a payload.
    pub fn new(header: RaniHeader, payload: RaniPayload) -> (r: Self)
        ensures
            r.header == header,
            r.payload == payload,
    {
        RaniPacket { header, payload }
    }

    /// Number of bytes the packet occupies on the wire.
    pub fn size(&self) -> (n: usize)
        requires
            self@.wf(),
        ensures
            n == self@.spec_size(),
            n == self.header.length,
    {
        self.header.size() + self.payload.size()
    }

    /// Parses a packet from the front of `buf` and returns it with the
    /// bytes that follow it.  The result is exactly [`spec_parse_packet`]
    /// of the input, and a parsed packet satisfies the packet invariant.
    pub fn deserialise(buf: &[u8]) -> (r: Result<(Self, &[u8]), CodecError>)
        ensures
            r is Ok <==> spec_parse_packet(buf@) is Ok,
            r matches Ok((p, rest)) ==> p@ == spec_parse_packet(buf@)->Ok_0.0 && rest@
                == spec_parse_packet(buf@)->Ok_0.1 && p@.wf(),
            r matches Err(e) ==> e == spec_parse_packet(buf@)->Err_0,
    {
        let (header, rest) = match RaniHeader::deserialise(buf) {
            Ok(v) => v,
            Err(e) => {
                return Err(e);
            },
        };
        let (payload, rest) = match RaniPayload::deserialise(&header, rest) {
            Ok(v) => v,
            Err(e) => {
                return Err(e);
            },
        };
        Ok((RaniPacket { header, payload }, rest))
    }

    /// Writes the packet's bytes at the start of `buf`: the payload after
    /// the header region, then the header with its checksum over the
    /// payload just written.  The rest of `buf` is left unchanged.  Fails
    /// exactly when `buf` is shorter than the packet.
    pub fn serialise(&self, buf: &mut Vec<u8>) -> (r: Result<(), CodecError>)
        requires
            self@.wf(),
        ensures
            r is Ok <==> old(buf)@.len() >= self@.spec_size(),
            r is Err ==> r == Err::<(), CodecError>(CodecError::BufferTooShort) && final(buf)@
                == old(buf)@,
            r is Ok ==> final(buf)@ == spec_packet_bytes(self@) + old(buf)@.skip(
                self@.spec_size(),
            ),
    {
        let size = self.size();
        if buf.len() < size {
            return Err(CodecError::BufferTooShort);
        }
        let r = self.payload.serialise(buf, HEADER_SIZE);
        proof {
            assert(r is Ok);
        }
        let ghost mid = buf@;
        proof {
            lemma_payload_bytes_len(self.payload@);
            assert(mid.len() == old(buf)@.len());
        }
        let payload_buf = vstd::slice::slice_subrange(buf.as_slice(), HEADER_SIZE, size);
        proof {
            assert(payload_buf@ =~= spec_payload_bytes(self.payload@));
        }
        let mut header_buf: Vec<u8> = vec![0u8; HEADER_SIZE];
        let hr = self.header.serialise(payload_buf, &mut header_buf);
        proof {
            assert(hr is Ok);
            assert(header_buf@ =~= self.header.spec_bytes(spec_payload_bytes(self.payload@)));
        }
        let mut i: usize = 0;
        while i < HEADER_SIZE
            invariant
                i <= HEADER_SIZE,
                buf@.len() == mid.len(),
                mid.len() >= HEADER_SIZE,
                header_buf@.len() == HEADER_SIZE,
                buf@.take(i as int) == header_buf@.take(i as int),
                buf@.skip(i as int) == mid.skip(i as int),
            decreases HEADER_SIZE - i,
        {
            let ghost pre = buf@;
            buf.set(i, header_buf[i]);
            proof {
                assert(buf@.take(i + 1 as int) =~= header_buf@.take(i + 1 as int));
                assert forall|k: int| i + 1 <= k < buf@.len() implies buf@[k] == mid[k] by {
                    assert(pre[k] == pre.skip(i as int)[k - i]);
                    assert(mid[k] == mid.skip(i as int)[k - i]);
                }
                assert(buf@.skip(i + 1 as int) =~= mid.skip(i + 1 as int));
            }
            i = i + 1;
        }
        proof {
            assert(header_buf@.take(HEADER_SIZE as int) =~= header_buf@);
            assert(mid.skip(HEADER_SIZE as int) =~= spec_payload_bytes(self.payload@) + old(
                buf,
            )@.skip(self@.spec_size()));
            assert(buf@ =~= header_buf@ + mid.skip(HEADER_SIZE as int));
            assert(buf@ =~= spec_packet_bytes(self@) + old(buf)@.skip(self@.spec_size()));
        }
        Ok(())
    }
}

impl RaniPacket {
    /// Checks the packet invariant at run time, for callers outside the
    /// library that assembled a packet by hand.
    pub fn is_valid(&self) -> (r: bool)
        ensures
            r == self@.wf(),
    {
        if !(self.header.ttl < 16 && self.header.seq_no < 4096 && self.header.length >= 8) {
            return false;
        }
        let type_matches = match (&self.header.packet_type, &self.payload) {
            (RaniType::Command, RaniPayload::Command(_)) => true,
            (RaniType::Data, RaniPayload::Data(_)) => true,
            _ => false,
        };
        if !type_matches {
            return false;
        }
        let payload_wf = match &self.payload {
            RaniPayload::Command(c) => (c.entry_count as usize) == c.entries.len() && c.timestamp
                < 0x100000,
            RaniPayload::Data(_) => true,
        };
        if !payload_wf {
            return false;
        }
        let psize = match &self.payload {
            RaniPayload::Command(c) => c.size(),
            RaniPayload::Data(d) => d.len(),
        };
        psize <= 247 && (self.header.length as usize) == HEADER_SIZE + psize
    }
}

/// The one's-complement self-checking property: the wraparound sum over a
/// serialised packet, its checksum byte included, is always 255, so the
/// complement of the received sum is zero.
pub proof fn lemma_packet_checksum(h: RaniHeader, pb: Seq<u8>)
    ensures
        wrap_sum(h.spec_bytes(pb) + pb) == 255,
{
    let front = seq![
        h.src,
        h.dest,
        h.length,
        h.spec_flags_ttl_byte(),
        h.spec_type_seq_byte(),
        (h.seq_no % 256) as u8,
    ];
    let a = wrap_sum(front);
    let b = wrap_sum(pb);
    lemma_wrap_sum_bounds(front);
    lemma_wrap_sum_bounds(pb);
    lemma_wrap_sum_concat(front, pb);
    let m = (a + b) % 256;
    vstd::arithmetic::div_mod::lemma_mod_bound(a + b, 256);
    let cs = checksum_of(front + pb);
    assert(cs == 255 - m);
    let hb = h.spec_bytes(pb);
    assert(hb =~= front.push(cs).push(0u8));
    lemma_wrap_sum_push(front, cs);
    lemma_wrap_sum_push(front.push(cs), 0u8);
    vstd::arithmetic::div_mod::lemma_mod_twice(a + cs, 256);
    assert(wrap_sum(hb) == (a + cs) % 256);
    lemma_wrap_sum_concat(hb, pb);
    lemma_mod_shift(a + cs, b);
    assert(wrap_sum(hb + pb) == (a + 255 - m + b) % 256);
    vstd::arithmetic::div_mod::lemma_fundamental_div_mod(a + b, 256);
    let k = (a + b) / 256;
    assert(a + b - m == 256 * k);
    assert(a + 255 - m + b == 256 * k + 255);
    vstd::arithmetic::div_mod::lemma_mod_multiples_vanish(k, 255, 256);
    vstd::arithmetic::div_mod::lemma_small_mod(255, 256);
}

/// Packing the TTL and the three flag bits into one byte loses nothing:
/// each field reads back from its own bits.
proof fn lemma_flags_byte_fields(h: RaniHeader)
    requires
        h.ttl < 16,
    ensures
        h.spec_flags_ttl_byte() % 16 == h.ttl,
        (h.spec_flags_ttl_byte() / 16) % 2 == 1 <==> h.flag_err,
        (h.spec_flags_ttl_byte() / 32) % 2 == 1 <==> h.flag_end,
        (h.spec_flags_ttl_byte() / 64) % 2 == 1 <==> h.flag_ack,
{
    let e: int = if h.flag_err {
        1
    } else {
        0
    };
    let n: int = if h.flag_end {
        1
    } else {
        0
    };
    let a: int = if h.flag_ack {
        1
    } else {
        0
    };
    let fb = h.ttl + 16 * e + 32 * n + 64 * a;
    assert(h.spec_flags_ttl_byte() == fb);
    assert(fb % 16 == h.ttl && (fb / 16) % 2 == e && (fb / 32) % 2 == n && (fb / 64) % 2 == a) by {
        assert(0 <= e <= 1 && 0 <= n <= 1 && 0 <= a <= 1);
        assert(fb == h.ttl + 16 * (e + 2 * n + 4 * a));
        vstd::arithmetic::div_mod::lemma_fundamental_div_mod_converse(
            fb,
            16,
            e + 2 * n + 4 * a,
            h.ttl as int,
        );
        assert(fb == (h.ttl + 16 * e) + 32 * (n + 2 * a));
        vstd::arithmetic::div_mod::lemma_fundamental_div_mod_converse(
            fb,
            32,
            n + 2 * a,
            h.ttl + 16 * e,
        );
        assert(fb == (h.ttl + 16 * e + 32 * n) + 64 * a);
        vstd::arithmetic::div_mod::lemma_fundamental_div_mod_converse(
            fb,
            64,
            a,
            h.ttl + 16 * e + 32 * n,
        );
    }
}

/// Packing the type nibble with the top sequence bits loses nothing.
proof fn lemma_type_seq_byte_fields(h: RaniHeader)
    requires
        h.seq_no < 4096,
    ensures
        h.spec_type_seq_byte() / 16 == h.packet_type.spec_value(),
        (h.spec_type_seq_byte() % 16) * 256 + (h.seq_no % 256) == h.seq_no,
{
    let tv = h.packet_type.spec_value() as int;
    let hi = h.seq_no as int / 256;
    assert(hi < 16) by {
        vstd::arithmetic::div_mod::lemma_div_is_ordered(h.seq_no as int, 4095, 256);
    }
    let tb = tv * 16 + hi;
    assert(h.spec_type_seq_byte() == tb);
    vstd::arithmetic::div_mod::lemma_fundamental_div_mod_converse(tb, 16, tv, hi);
    vstd::arithmetic::div_mod::lemma_fundamental_div_mod(h.seq_no as int, 256);
}

/// A well-formed header whose length field matches its payload parses
/// back to itself, with or without further bytes after the packet: the
/// checksum domain ends at the declared length, so a remainder does not
/// disturb it.
pub proof fn lemma_header_round_trip(h: RaniHeader, pb: Seq<u8>, extra: Seq<u8>)
    requires
        h.wf(),
        h.length == HEADER_SIZE + pb.len(),
    ensures
        spec_parse_header(h.spec_bytes(pb) + pb + extra) == Ok::<RaniHeader, CodecError>(h),
{
    let s = h.spec_bytes(pb) + pb + extra;
    lemma_packet_checksum(h, pb);
    lemma_flags_byte_fields(h);
    lemma_type_seq_byte_fields(h);
    assert(s[0] == h.src && s[1] == h.dest && s[2] == h.length && s[3] == h.spec_flags_ttl_byte()
        && s[4] == h.spec_type_seq_byte() && s[5] == h.seq_no % 256);
    assert(s.take(h.length as int) =~= h.spec_bytes(pb) + pb);
    assert(spec_parse_header(s)->Ok_0 == h);
}

/// Each entry's bytes sit at their own offset in a serialised table.
proof fn lemma_entries_bytes_index(es: Seq<RaniCommandEntry>, i: int)
    requires
        0 <= i < es.len(),
    ensures
        spec_entries_bytes(es)[2 * i] == es[i].dest,
        spec_entries_bytes(es)[2 * i + 1] == es[i].cost,
    decreases es.len(),
{
    lemma_entries_bytes_len(es.drop_last());
    if i == es.len() - 1 {
    } else {
        lemma_entries_bytes_index(es.drop_last(), i);
    }
}

/// A well-formed command payload's bytes parse back to itself exactly,
/// with nothing left over.
pub proof fn lemma_command_round_trip(c: SpecCommandPayload, extra: Seq<u8>)
    requires
        c.wf(),
    ensures
        spec_parse_command(spec_command_bytes(c) + extra) == Ok::<
            (SpecCommandPayload, Seq<u8>),
            CodecError,
        >((c, extra)),
{
    let s = spec_command_bytes(c) + extra;
    lemma_entries_bytes_len(c.entries);
    let n = c.entry_count as int;
    assert(s.len() == 4 + 2 * n + extra.len());
    assert(s[0] == c.entry_count);
    let ts = c.timestamp as int;
    assert((s[1] % 16) * 65536 + s[2] * 256 + s[3] == ts) by {
        let t1 = ts / 65536;
        assert(t1 < 16) by {
            vstd::arithmetic::div_mod::lemma_div_is_ordered(ts, 0xFFFFF, 65536);
        }
        vstd::arithmetic::div_mod::lemma_small_mod(t1 as nat, 16);
        vstd::arithmetic::div_mod::lemma_fundamental_div_mod(ts, 65536);
        vstd::arithmetic::div_mod::lemma_mod_breakdown(ts, 256, 256);
    }
    let parsed = spec_parse_command(s)->Ok_0.0;
    assert(parsed.entries =~= c.entries) by {
        assert forall|i: int| 0 <= i < n implies spec_parse_entries(s.skip(4), c.entry_count as nat)[i]
            == c.entries[i] by {
            lemma_entries_bytes_index(c.entries, i);
            assert(s.skip(4)[2 * i] == spec_entries_bytes(c.entries)[2 * i]);
            assert(s.skip(4)[2 * i + 1] == spec_entries_bytes(c.entries)[2 * i + 1]);
        }
    }
    assert(spec_parse_command(s)->Ok_0.1 =~= extra);
    assert(parsed == c);
}

/// A well-formed payload's bytes parse back to itself under the matching
/// header, handing any further bytes back as the remainder.
pub proof fn lemma_payload_round_trip(h: RaniHeader, p: SpecPayload, extra: Seq<u8>)
    requires
        p.wf(),
        h.length == HEADER_SIZE + p.spec_size(),
        h.packet_type is Command <==> p is Command,
    ensures
        spec_parse_payload(h, spec_payload_bytes(p) + extra) == Ok::<
            (SpecPayload, Seq<u8>),
            CodecError,
        >((p, extra)),
{
    let s = spec_payload_bytes(p) + extra;
    lemma_payload_bytes_len(p);
    let plen = h.length - HEADER_SIZE;
    match p {
        SpecPayload::Data(d) => {
            assert(s.take(plen) =~= d);
            assert(s.skip(plen) =~= extra);
        },
        SpecPayload::Command(c) => {
            lemma_command_round_trip(c, extra);
        },
    }
}

/// Round trip with a remainder: a well-formed packet's serialised bytes,
/// followed by any further bytes, decode back to the very same packet and
/// hand the further bytes back untouched.  The checksum domain ends at
/// the declared length, so a trailing byte never causes a checksum
/// mismatch on the packet before it.
pub proof fn lemma_round_trip_with_remainder(p: SpecPacket, extra: Seq<u8>)
    requires
        p.wf(),
    ensures
        spec_parse_packet(spec_packet_bytes(p) + extra) == Ok::<(SpecPacket, Seq<u8>), CodecError>(
            (p, extra),
        ),
{
    let pb = spec_payload_bytes(p.payload);
    let s = spec_packet_bytes(p) + extra;
    lemma_payload_bytes_len(p.payload);
    assert(s =~= p.header.spec_bytes(pb) + pb + extra);
    lemma_header_round_trip(p.header, pb, extra);
    assert(s.skip(HEADER_SIZE as int) =~= pb + extra);
    lemma_payload_round_trip(p.header, p.payload, extra);
}

/// Round trip: a well-formed packet's serialised bytes decode back to the
/// very same packet, with nothing left over; re-encoding the decoded
/// packet therefore reproduces every byte, the checksum included.
pub proof fn lemma_round_trip(p: SpecPacket)
    requires
        p.wf(),
    ensures
        spec_parse_packet(spec_packet_bytes(p)) == Ok::<(SpecPacket, Seq<u8>), CodecError>(
            (p, Seq::<u8>::empty()),
        ),
        spec_packet_bytes(spec_parse_packet(spec_packet_bytes(p))->Ok_0.0) == spec_packet_bytes(p),
{
    lemma_round_trip_with_remainder(p, Seq::<u8>::empty());
    assert(spec_packet_bytes(p) + Seq::<u8>::empty() =~= spec_packet_bytes(p));
}

/// Checksum sensitivity: in a buffer that holds exactly one checksum-valid
/// packet, changing any single byte other than the length byte (a bit flip
/// changes the byte's value) makes the header parse fail with a checksum
/// mismatch, and restoring the byte recovers the original buffer.  The
/// length byte is excluded because changing it moves the end of the
/// checksum domain itself: the parse then fails on the length bounds
/// instead, or, for a payload crafted to compensate, may even read a
/// shorter valid packet.
pub proof fn lemma_checksum_sensitivity(s: Seq<u8>, i: int, b: u8)
    requires
        s.len() >= 8,
        s[2] == s.len(),
        wrap_sum(s) == 255,
        0 <= i < s.len(),
        i != 2,
        b != s[i],
    ensures
        spec_parse_header(s.update(i, b)) == Err::<RaniHeader, CodecError>(
            CodecError::ChecksumMismatch,
        ),
        s.update(i, b).update(i, s[i]) == s,
{
    lemma_wrap_sum_update(s, i, b);
    assert(s.update(i, b).take(s.update(i, b)[2] as int) =~= s.update(i, b));
    assert(wrap_sum(s.update(i, b)) == (255 - s[i] + b) % 256);
    assert((255 - s[i] + b) % 256 != 255) by {
        let d = 255 - s[i] + b;
        assert(0 <= d < 511 && d != 255);
        if d < 256 {
            vstd::arithmetic::div_mod::lemma_small_mod(d as nat, 256);
        } else {
            vstd::arithmetic::div_mod::lemma_mod_sub_multiples_vanish(d, 256);
            vstd::arithmetic::div_mod::lemma_small_mod((d - 256) as nat, 256);
        }
    }
    assert(s.update(i, b).update(i, s[i]) =~= s);
}

/// Copies a byte vector element by element.
fn clone_bytes(v: &Vec<u8>) -> (r: Vec<u8>)
    ensures
        r@ == v@,
{
    let mut r: Vec<u8> = Vec::new();
    let mut i: usize = 0;
    while i < v.len()
        invariant
            i <= v@.len(),
            r@ == v@.take(i as int),
        decreases v@.len() - i,
    {
        r.push(v[i]);
        proof {
            assert(r@ =~= v@.take(i + 1 as int));
        }
        i = i + 1;
    }
    proof {
        assert(v@.take(v@.len() as int) =~= v@);
    }
    r
}

/// Copies a routing table element by element.
fn clone_entries(v: &Vec<RaniCommandEntry>) -> (r: Vec<RaniCommandEntry>)
    ensures
        r@ == v@,
{
    let mut r: Vec<RaniCommandEntry> = Vec::new();
    let mut i: usize = 0;
    while i < v.len()
        invariant
            i <= v@.len(),
            r@ == v@.take(i as int),
        decreases v@.len() - i,
    {
        r.push(v[i]);
        proof {
            assert(r@ =~= v@.take(i + 1 as int));
        }
        i = i + 1;
    }
    proof {
        assert(v@.take(v@.len() as int) =~= v@);
    }
    r
}

impl Clone for RaniCommandPayload {
    /// A copy with the very same model.
    fn clone(&self) -> (r: Self)
        ensures
            r@ == self@,
    {
        RaniCommandPayload {
            entry_count: self.entry_count,
            timestamp: self.timestamp,
            entries: clone_entries(&self.entries),
        }
    }
}

impl Clone for RaniPayload {
    /// A copy with the very same model.
    fn clone(&self) -> (r: Self)
        ensures
            r@ == self@,
    {
        match self {
            RaniPayload::Command(c) => RaniPayload::Command(c.clone()),
            RaniPayload::Data(d) => RaniPayload::Data(clone_bytes(d)),
        }
    }
}

impl Clone for RaniPacket {
    /// A copy with the very same model.
    fn clone(&self) -> (r: Self)
        ensures
            r@ == self@,
    {
        RaniPacket { header: self.header, payload: self.payload.clone() }
    }
}

/// The text reported for the first header or payload field on which two
/// packets disagree, checked in wire order; meaningful only when the
/// packets differ.
pub open spec fn spec_mismatch_message(a: SpecPacket, b: SpecPacket) -> Seq<char> {
    if a.header.src != b.header.src {
        "src not correct"@
    } else if a.header.dest != b.header.dest {
        "dest not correct"@
    } else if a.header.length != b.header.length {
        "length not correct"@
    } else if a.header.ttl != b.header.ttl {
        "ttl not correct"@
    } else if a.header.flag_err != b.header.flag_err || a.header.flag_end != b.header.flag_end
        || a.header.flag_ack != b.header.flag_ack {
        "flags not correct"@
    } else if a.header.packet_type != b.header.packet_type {
        "type not correct"@
    } else if a.header.seq_no != b.header.seq_no {
        "seq_no not correct"@
    } else {
        "payload not correct"@
    }
}

/// Compares two byte vectors element by element.
fn bytes_eq(a: &Vec<u8>, b: &Vec<u8>) -> (r: bool)
    ensures
        r == (a@ == b@),
{
    if a.len() != b.len() {
        return false;
    }
    let mut i: usize = 0;
    while i < a.len()
        invariant
            i <= a@.len(),
            a@.len() == b@.len(),
            forall|k: int| 0 <= k < i ==> a@[k] == b@[k],
        decreases a@.len() - i,
    {
        if a[i] != b[i] {
            return false;
        }
        i = i + 1;
    }
    proof {
        assert(a@ =~= b@);
    }
    true
}

/// Compares two routing tables element by element.
fn entries_eq(a: &Vec<RaniCommandEntry>, b: &Vec<RaniCommandEntry>) -> (r: bool)
    ensures
        r == (a@ == b@),
{
    if a.len() != b.len() {
        return false;
    }
    let mut i: usize = 0;
    while i < a.len()
        invariant
            i <= a@.len(),
            a@.len() == b@.len(),
            forall|k: int| 0 <= k < i ==> a@[k] == b@[k],
        decreases a@.len() - i,
    {
        if a[i] != b[i] {
            return false;
        }
        i = i + 1;
    }
    proof {
        assert(a@ =~= b@);
    }
    true
}

/// Structural equality of two payloads.
pub fn payload_eq(a: &RaniPayload, b: &RaniPayload) -> (r: bool)
    ensures
        r == (a@ == b@),
{
    match (a, b) {
        (RaniPayload::Command(x), RaniPayload::Command(y)) => {
            let r = x.entry_count == y.entry_count && x.timestamp == y.timestamp && entries_eq(
                &x.entries,
                &y.entries,
            );
            proof {
                if r {
                    assert(a@ == b@);
                }
            }
            r
        },
        (RaniPayload::Data(x), RaniPayload::Data(y)) => bytes_eq(x, y),
        _ => false,
    }
}

/// Validates a received packet against the expected one: exact structural
/// equality of header and payload.  On a mismatch the error names the
/// first wire field (header fields in wire order, then the payload) on
/// which the two disagree.
pub fn validate_packets(a: &RaniPacket, b: &RaniPacket) -> (r: Result<(), String>)
    ensures
        r is Ok <==> a@ == b@,
        r matches Err(m) ==> m@ == spec_mismatch_message(a@, b@),
{
    if a.header.src != b.header.src {
        return Err("src not correct".to_owned());
    }
    if a.header.dest != b.header.dest {
        return Err("dest not correct".to_owned());
    }
    if a.header.length != b.header.length {
        return Err("length not correct".to_owned());
    }
    if a.header.ttl != b.header.ttl {
        return Err("ttl not correct".to_owned());
    }
    if a.header.flag_err != b.header.flag_err || a.header.flag_end != b.header.flag_end
        || a.header.flag_ack != b.header.flag_ack {
        return Err("flags not correct".to_owned());
    }
    if !matches!((a.header.packet_type, b.header.packet_type), (RaniType::Command, RaniType::Command) | (RaniType::Data, RaniType::Data)) {
        return Err("type not correct".to_owned());
    }
    if a.header.seq_no != b.header.seq_no {
        return Err("seq_no not correct".to_owned());
    }
    if !payload_eq(&a.payload, &b.payload) {
        return Err("payload not correct".to_owned());
    }
    proof {
        assert(a.header == b.header);
        assert(a@ == b@);
    }
    Ok(())
}

} // verus!
