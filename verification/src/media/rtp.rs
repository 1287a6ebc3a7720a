//! RTP and RTCP packet layouts (RFC 3550), in network byte order.
use vstd::prelude::*;

verus! {

/// The fixed 12-byte RTP header.
#[derive(Debug, Clone, Copy, PartialEq, Eq)]
pub struct RtpHeader {
    pub version: u8,
    pub padding: bool,
    pub extension: bool,
    pub csrc_count: u8,
    pub marker: bool,
    pub payload_type: u8,
    pub sequence_number: u16,
    pub timestamp: u32,
    pub ssrc: u32,
}

pub open spec fn bit(b: bool) -> u8 {
    if b {
        1
    } else {
        0
    }
}

fn bit_exec(b: bool) -> (r: u8)
    ensures
        r == bit(b),
{
    if b {
        1
    } else {
        0
    }
}

/// Big-endian bytes of a `u16`.
pub open spec fn be16(x: u16) -> Seq<u8> {
    seq![(x >> 8) as u8, x as u8]
}

/// Big-endian bytes of a `u32`.
pub open spec fn be32(x: u32) -> Seq<u8> {
    seq![(x >> 24) as u8, (x >> 16) as u8, (x >> 8) as u8, x as u8]
}

/// Big-endian bytes of a `u64`.
pub open spec fn be64(x: u64) -> Seq<u8> {
    seq![
        (x >> 56) as u8,
        (x >> 48) as u8,
        (x >> 40) as u8,
        (x >> 32) as u8,
        (x >> 24) as u8,
        (x >> 16) as u8,
        (x >> 8) as u8,
        x as u8,
    ]
}

fn push_be16(v: &mut Vec<u8>, x: u16)
    ensures
        final(v)@ == old(v)@ + be16(x),
{
    v.push((x >> 8) as u8);
    v.push(x as u8);
}

fn push_be32(v: &mut Vec<u8>, x: u32)
    ensures
        final(v)@ == old(v)@ + be32(x),
{
    v.push((x >> 24) as u8);
    v.push((x >> 16) as u8);
    v.push((x >> 8) as u8);
    v.push(x as u8);
}

fn push_be64(v: &mut Vec<u8>, x: u64)
    ensures
        final(v)@ == old(v)@ + be64(x),
{
    v.push((x >> 56) as u8);
    v.push((x >> 48) as u8);
    v.push((x >> 40) as u8);
    v.push((x >> 32) as u8);
    v.push((x >> 24) as u8);
    v.push((x >> 16) as u8);
    v.push((x >> 8) as u8);
    v.push(x as u8);
}

/// First header byte: version (2 bits), padding, extension, CSRC count (4 bits).
pub open spec fn rtp_first_byte(h: RtpHeader) -> u8 {
    (h.version << 6u8) | (bit(h.padding) << 5u8) | (bit(h.extension) << 4u8) | (h.csrc_count
        & 0x0Fu8)
}

/// Second header byte: marker, payload type (7 bits).
pub open spec fn rtp_second_byte(h: RtpHeader) -> u8 {
    (bit(h.marker) << 7u8) | (h.payload_type & 0x7Fu8)
}

/// The 12 bytes of an RTP header.
pub open spec fn rtp_header_bytes(h: RtpHeader) -> Seq<u8> {
    seq![rtp_first_byte(h), rtp_second_byte(h)] + be16(h.sequence_number) + be32(h.timestamp)
        + be32(h.ssrc)
}

/// The header that the first 12 bytes of `b` describe.
pub open spec fn rtp_header_of(b: Seq<u8>) -> RtpHeader {
    RtpHeader {
        version: (b[0] >> 6u8) & 0x03u8,
        padding: (b[0] >> 5u8) & 0x01u8 == 1,
        extension: (b[0] >> 4u8) & 0x01u8 == 1,
        csrc_count: b[0] & 0x0Fu8,
        marker: (b[1] >> 7u8) & 0x01u8 == 1,
        payload_type: b[1] & 0x7Fu8,
        sequence_number: ((b[2] as u16) << 8u16) | (b[3] as u16),
        timestamp: ((b[4] as u32) << 24u32) | ((b[5] as u32) << 16u32) | ((b[6] as u32) << 8u32)
            | (b[7] as u32),
        ssrc: ((b[8] as u32) << 24u32) | ((b[9] as u32) << 16u32) | ((b[10] as u32) << 8u32) | (
        b[11] as u32),
    }
}

/// What `RtpHeader::parse` gives: nothing for fewer than 12 bytes.
pub open spec fn parse_rtp_header(b: Seq<u8>) -> Option<RtpHeader> {
    if b.len() < 12 {
        None
    } else {
        Some(rtp_header_of(b))
    }
}

/// A header whose fields fit their bit widths on the wire.
pub open spec fn rtp_header_fits(h: RtpHeader) -> bool {
    h.version < 4 && h.csrc_count < 16 && h.payload_type < 128
}

impl RtpHeader {
    /// A version-2 header without padding, extension, CSRCs or marker.
    pub fn new(payload_type: u8, seq: u16, ts: u32, ssrc: u32) -> (h: Self)
        ensures
            h == (RtpHeader {
                version: 2,
                padding: false,
                extension: false,
                csrc_count: 0,
                marker: false,
                payload_type,
                sequence_number: seq,
                timestamp: ts,
                ssrc,
            }),
    {
        RtpHeader {
            version: 2,
            padding: false,
            extension: false,
            csrc_count: 0,
            marker: false,
            payload_type,
            sequence_number: seq,
            timestamp: ts,
            ssrc,
        }
    }

    /// The header of the next packet of a stream: the sequence number one
    /// higher and the timestamp `samples` later, both wrapping around.
    pub fn next_packet(&self, samples: u32) -> (h: Self)
        ensures
            h == (RtpHeader {
                sequence_number: ((self.sequence_number + 1) % 0x1_0000) as u16,
                timestamp: ((self.timestamp + samples) % 0x1_0000_0000) as u32,
                ..*self
            }),
    {
        let seq: u32 = (self.sequence_number as u32 + 1) % 0x1_0000;
        let ts: u64 = (self.timestamp as u64 + samples as u64) % 0x1_0000_0000;
        RtpHeader { sequence_number: seq as u16, timestamp: ts as u32, ..*self }
    }

    /// The 12 bytes of the header.
    pub fn to_bytes(&self) -> (b: Vec<u8>)
        ensures
            b@ == rtp_header_bytes(*self),
    {
        let mut bytes: Vec<u8> = Vec::with_capacity(12);
        let first_byte = (self.version << 6u8) | (bit_exec(self.padding) << 5u8) | (bit_exec(
            self.extension,
        ) << 4u8) | (self.csrc_count & 0x0Fu8);
        let second_byte = (bit_exec(self.marker) << 7u8) | (self.payload_type & 0x7Fu8);
        bytes.push(first_byte);
        bytes.push(second_byte);
        push_be16(&mut bytes, self.sequence_number);
        push_be32(&mut bytes, self.timestamp);
        push_be32(&mut bytes, self.ssrc);
        assert(bytes@ == rtp_header_bytes(*self));
        bytes
    }

    /// The header in the first 12 bytes; nothing when there are fewer.
    pub fn parse(bytes: &[u8]) -> (r: Option<Self>)
        ensures
            r == parse_rtp_header(bytes@),
    {
        if bytes.len() < 12 {
            return None;
        }
        let first_byte = bytes[0];
        let second_byte = bytes[1];
        let seq = ((bytes[2] as u16) << 8u16) | (bytes[3] as u16);
        let ts = ((bytes[4] as u32) << 24u32) | ((bytes[5] as u32) << 16u32) | ((bytes[6] as u32)
            << 8u32) | (bytes[7] as u32);
        let ssrc = ((bytes[8] as u32) << 24u32) | ((bytes[9] as u32) << 16u32) | ((bytes[10] as u32)
            << 8u32) | (bytes[11] as u32);
        Some(
            RtpHeader {
                version: (first_byte >> 6u8) & 0x03u8,
                padding: (first_byte >> 5u8) & 0x01u8 == 1,
                extension: (first_byte >> 4u8) & 0x01u8 == 1,
                csrc_count: first_byte & 0x0Fu8,
                marker: (second_byte >> 7u8) & 0x01u8 == 1,
                payload_type: second_byte & 0x7Fu8,
                sequence_number: seq,
                timestamp: ts,
                ssrc,
            },
        )
    }
}

/// An RTP packet: header and payload.
pub struct RtpPacket {
    pub header: RtpHeader,
    pub payload: Vec<u8>,
}

/// What `RtpPacket::parse` gives: the header of the first 12 bytes and the rest
/// as payload; nothing for fewer than 12 bytes.
pub open spec fn parse_rtp_packet(b: Seq<u8>) -> Option<(RtpHeader, Seq<u8>)> {
    if b.len() < 12 {
        None
    } else {
        Some((rtp_header_of(b), b.subrange(12, b.len() as int)))
    }
}

impl RtpPacket {
    pub fn new(header: RtpHeader, payload: Vec<u8>) -> (p: Self)
        ensures
            p.header == header,
            p.payload@ == payload@,
    {
        Self { header, payload }
    }

    /// Header bytes followed by the payload.
    pub fn to_bytes(&self) -> (b: Vec<u8>)
        ensures
            b@ == rtp_header_bytes(self.header) + self.payload@,
    {
        let mut bytes = self.header.to_bytes();
        let mut k: usize = 0;
        while k < self.payload.len()
            invariant
                k <= self.payload@.len(),
                bytes@ == rtp_header_bytes(self.header) + self.payload@.subrange(0, k as int),
            decreases self.payload@.len() - k,
        {
            bytes.push(self.payload[k]);
            assert(self.payload@.subrange(0, k + 1) == self.payload@.subrange(0, k as int).push(
                self.payload@[k as int],
            ));
            k = k + 1;
        }
        assert(self.payload@.subrange(0, self.payload@.len() as int) == self.payload@);
        bytes
    }

    /// The packet in `bytes`; nothing when there are fewer than 12.
    pub fn parse(bytes: &[u8]) -> (r: Option<Self>)
        ensures
            match r {
                Some(p) => parse_rtp_packet(bytes@) == Some((p.header, p.payload@)),
                None => parse_rtp_packet(bytes@) is None,
            },
    {
        let header = match RtpHeader::parse(bytes) {
            Some(h) => h,
            None => return None,
        };
        let rest = vstd::slice::slice_subrange(bytes, 12, bytes.len());
        let payload = vstd::slice::slice_to_vec(rest);
        Some(Self { header, payload })
    }
}

/// RTCP packet types.
#[derive(Debug, Clone, Copy, PartialEq, Eq)]
pub enum RtcpPacketType {
    SenderReport,
    ReceiverReport,
    SourceDescription,
    Bye,
    App,
}

/// The packet-type number of an RTCP packet type.
pub open spec fn rtcp_type_code(t: RtcpPacketType) -> u8 {
    match t {
        RtcpPacketType::SenderReport => 200,
        RtcpPacketType::ReceiverReport => 201,
        RtcpPacketType::SourceDescription => 202,
        RtcpPacketType::Bye => 203,
        RtcpPacketType::App => 204,
    }
}

impl RtcpPacketType {
    /// The packet-type number (200 to 204).
    pub fn code(&self) -> (c: u8)
        ensures
            c == rtcp_type_code(*self),
    {
        match self {
            RtcpPacketType::SenderReport => 200,
            RtcpPacketType::ReceiverReport => 201,
            RtcpPacketType::SourceDescription => 202,
            RtcpPacketType::Bye => 203,
            RtcpPacketType::App => 204,
        }
    }
}

/// The 4-byte RTCP common header.
#[derive(Debug, Clone, Copy, PartialEq, Eq)]
pub struct RtcpHeader {
    pub version: u8,
    pub padding: bool,
    pub count: u8,
    pub packet_type: RtcpPacketType,
    pub length: u16,
}

/// The 4 bytes of an RTCP header: version (2 bits), padding, count (5 bits),
/// packet type, length.
pub open spec fn rtcp_header_bytes(h: RtcpHeader) -> Seq<u8> {
    seq![
        (h.version << 6u8) | (bit(h.padding) << 5u8) | (h.count & 0x1Fu8),
        rtcp_type_code(h.packet_type),
    ] + be16(h.length)
}

impl RtcpHeader {
    pub fn to_bytes(&self) -> (b: [u8; 4])
        ensures
            b@ == rtcp_header_bytes(*self),
    {
        let first_byte = (self.version << 6u8) | (bit_exec(self.padding) << 5u8) | (self.count
            & 0x1Fu8);
        let second_byte = self.packet_type.code();
        let b = [first_byte, second_byte, (self.length >> 8) as u8, self.length as u8];
        assert(b@ == rtcp_header_bytes(*self));
        b
    }
}

/// An RTCP sender report without report blocks.
pub struct RtcpSenderReport {
    pub header: RtcpHeader,
    pub ssrc: u32,
    pub ntp_timestamp: u64,
    pub rtp_timestamp: u32,
    pub packet_count: u32,
    pub byte_count: u32,
}

/// The 28 bytes of a sender report.
pub open spec fn rtcp_sender_report_bytes(r: RtcpSenderReport) -> Seq<u8> {
    rtcp_header_bytes(r.header) + be32(r.ssrc) + be64(r.ntp_timestamp) + be32(r.rtp_timestamp)
        + be32(r.packet_count) + be32(r.byte_count)
}

impl RtcpSenderReport {
    pub fn to_bytes(&self) -> (b: Vec<u8>)
        ensures
            b@ == rtcp_sender_report_bytes(*self),
    {
        let h = self.header.to_bytes();
        let mut bytes: Vec<u8> = Vec::new();
        bytes.push(h[0]);
        bytes.push(h[1]);
        bytes.push(h[2]);
        bytes.push(h[3]);
        assert(bytes@ == h@);
        push_be32(&mut bytes, self.ssrc);
        push_be64(&mut bytes, self.ntp_timestamp);
        push_be32(&mut bytes, self.rtp_timestamp);
        push_be32(&mut bytes, self.packet_count);
        push_be32(&mut bytes, self.byte_count);
        bytes
    }
}


proof fn lemma_first_byte_fields(v: u8, p: u8, e: u8, c: u8)
    requires
        v < 4,
        p < 2,
        e < 2,
        c < 16,
    ensures
        ((((v << 6u8) | (p << 5u8) | (e << 4u8) | (c & 0x0Fu8)) >> 6u8) & 0x03u8) == v,
        ((((v << 6u8) | (p << 5u8) | (e << 4u8) | (c & 0x0Fu8)) >> 5u8) & 0x01u8) == p,
        ((((v << 6u8) | (p << 5u8) | (e << 4u8) | (c & 0x0Fu8)) >> 4u8) & 0x01u8) == e,
        (((v << 6u8) | (p << 5u8) | (e << 4u8) | (c & 0x0Fu8)) & 0x0Fu8) == c,
{
    assert(((((v << 6u8) | (p << 5u8) | (e << 4u8) | (c & 0x0Fu8)) >> 6u8) & 0x03u8) == v)
        by (bit_vector)
        requires
            v < 4,
            p < 2,
            e < 2,
            c < 16,
    ;
    assert(((((v << 6u8) | (p << 5u8) | (e << 4u8) | (c & 0x0Fu8)) >> 5u8) & 0x01u8) == p)
        by (bit_vector)
        requires
            v < 4,
            p < 2,
            e < 2,
            c < 16,
    ;
    assert(((((v << 6u8) | (p << 5u8) | (e << 4u8) | (c & 0x0Fu8)) >> 4u8) & 0x01u8) == e)
        by (bit_vector)
        requires
            v < 4,
            p < 2,
            e < 2,
            c < 16,
    ;
    assert((((v << 6u8) | (p << 5u8) | (e << 4u8) | (c & 0x0Fu8)) & 0x0Fu8) == c) by (bit_vector)
        requires
            v < 4,
            p < 2,
            e < 2,
            c < 16,
    ;
}

proof fn lemma_second_byte_fields(m: u8, t: u8)
    requires
        m < 2,
        t < 128,
    ensures
        ((((m << 7u8) | (t & 0x7Fu8)) >> 7u8) & 0x01u8) == m,
        (((m << 7u8) | (t & 0x7Fu8)) & 0x7Fu8) == t,
{
    assert(((((m << 7u8) | (t & 0x7Fu8)) >> 7u8) & 0x01u8) == m) by (bit_vector)
        requires
            m < 2,
            t < 128,
    ;
    assert((((m << 7u8) | (t & 0x7Fu8)) & 0x7Fu8) == t) by (bit_vector)
        requires
            m < 2,
            t < 128,
    ;
}

proof fn lemma_be16(x: u16)
    ensures
        ((((x >> 8) as u8) as u16) << 8u16) | ((x as u8) as u16) == x,
{
    assert(((((x >> 8) as u8) as u16) << 8u16) | ((x as u8) as u16) == x) by (bit_vector);
}

proof fn lemma_be32(x: u32)
    ensures
        ((((x >> 24) as u8) as u32) << 24u32) | ((((x >> 16) as u8) as u32) << 16u32) | ((((x
            >> 8) as u8) as u32) << 8u32) | ((x as u8) as u32) == x,
{
    assert(((((x >> 24) as u8) as u32) << 24u32) | ((((x >> 16) as u8) as u32) << 16u32) | ((((x
        >> 8) as u8) as u32) << 8u32) | ((x as u8) as u32) == x) by (bit_vector);
}

proof fn lemma_bytes_be16(a: u8, b: u8)
    ensures
        ((((a as u16) << 8u16) | (b as u16)) >> 8) as u8 == a,
        (((a as u16) << 8u16) | (b as u16)) as u8 == b,
{
    assert(((((a as u16) << 8u16) | (b as u16)) >> 8) as u8 == a) by (bit_vector);
    assert((((a as u16) << 8u16) | (b as u16)) as u8 == b) by (bit_vector);
}

proof fn lemma_bytes_be32(a: u8, b: u8, c: u8, d: u8)
    ensures
        ((((a as u32) << 24u32) | ((b as u32) << 16u32) | ((c as u32) << 8u32) | (d as u32)) >> 24)
            as u8 == a,
        ((((a as u32) << 24u32) | ((b as u32) << 16u32) | ((c as u32) << 8u32) | (d as u32)) >> 16)
            as u8 == b,
        ((((a as u32) << 24u32) | ((b as u32) << 16u32) | ((c as u32) << 8u32) | (d as u32)) >> 8)
            as u8 == c,
        (((a as u32) << 24u32) | ((b as u32) << 16u32) | ((c as u32) << 8u32) | (d as u32)) as u8
            == d,
{
    assert(((((a as u32) << 24u32) | ((b as u32) << 16u32) | ((c as u32) << 8u32) | (d as u32))
        >> 24) as u8 == a) by (bit_vector);
    assert(((((a as u32) << 24u32) | ((b as u32) << 16u32) | ((c as u32) << 8u32) | (d as u32))
        >> 16) as u8 == b) by (bit_vector);
    assert(((((a as u32) << 24u32) | ((b as u32) << 16u32) | ((c as u32) << 8u32) | (d as u32))
        >> 8) as u8 == c) by (bit_vector);
    assert((((a as u32) << 24u32) | ((b as u32) << 16u32) | ((c as u32) << 8u32) | (d as u32))
        as u8 == d) by (bit_vector);
}

proof fn lemma_header_bytes_reassemble(b0: u8, b1: u8)
    ensures
        ((((b0 >> 6u8) & 0x03u8) << 6u8) | (bit((b0 >> 5u8) & 0x01u8 == 1) << 5u8) | (bit(
            (b0 >> 4u8) & 0x01u8 == 1,
        ) << 4u8) | ((b0 & 0x0Fu8) & 0x0Fu8)) == b0,
        ((bit((b1 >> 7u8) & 0x01u8 == 1) << 7u8) | ((b1 & 0x7Fu8) & 0x7Fu8)) == b1,
{
    let p = bit((b0 >> 5u8) & 0x01u8 == 1);
    let e = bit((b0 >> 4u8) & 0x01u8 == 1);
    let m = bit((b1 >> 7u8) & 0x01u8 == 1);
    assert(p == (b0 >> 5u8) & 0x01u8) by {
        assert((b0 >> 5u8) & 0x01u8 < 2) by (bit_vector);
    }
    assert(e == (b0 >> 4u8) & 0x01u8) by {
        assert((b0 >> 4u8) & 0x01u8 < 2) by (bit_vector);
    }
    assert(m == (b1 >> 7u8) & 0x01u8) by {
        assert((b1 >> 7u8) & 0x01u8 < 2) by (bit_vector);
    }
    assert(((((b0 >> 6u8) & 0x03u8) << 6u8) | (((b0 >> 5u8) & 0x01u8) << 5u8) | (((b0 >> 4u8)
        & 0x01u8) << 4u8) | ((b0 & 0x0Fu8) & 0x0Fu8)) == b0) by (bit_vector);
    assert(((((b1 >> 7u8) & 0x01u8) << 7u8) | ((b1 & 0x7Fu8) & 0x7Fu8)) == b1) by (bit_vector);
}

/// Parsing the bytes of an RTP header whose fields fit their bit widths gives
/// back that header.
pub proof fn lemma_rtp_header_roundtrip(h: RtpHeader)
    requires
        rtp_header_fits(h),
    ensures
        parse_rtp_header(rtp_header_bytes(h)) == Some(h),
{
    let b = rtp_header_bytes(h);
    lemma_first_byte_fields(h.version, bit(h.padding), bit(h.extension), h.csrc_count);
    lemma_second_byte_fields(bit(h.marker), h.payload_type);
    lemma_be16(h.sequence_number);
    lemma_be32(h.timestamp);
    lemma_be32(h.ssrc);
    let g = rtp_header_of(b);
    assert(g.padding == h.padding);
    assert(g.extension == h.extension);
    assert(g.marker == h.marker);
    assert(g == h);
}

/// The bytes of the header parsed from at least 12 bytes are those 12 bytes.
pub proof fn lemma_rtp_bytes_roundtrip(b: Seq<u8>)
    requires
        b.len() >= 12,
    ensures
        parse_rtp_header(b) matches Some(h) && rtp_header_bytes(h) == b.subrange(0, 12),
{
    let h = rtp_header_of(b);
    lemma_header_bytes_reassemble(b[0], b[1]);
    lemma_bytes_be16(b[2], b[3]);
    lemma_bytes_be32(b[4], b[5], b[6], b[7]);
    lemma_bytes_be32(b[8], b[9], b[10], b[11]);
    assert(rtp_header_bytes(h) == b.subrange(0, 12));
}

/// Parsing the bytes of a packet whose header fields fit their bit widths gives
/// back its header and payload.
pub proof fn lemma_rtp_packet_roundtrip(h: RtpHeader, payload: Seq<u8>)
    requires
        rtp_header_fits(h),
    ensures
        parse_rtp_packet(rtp_header_bytes(h) + payload) == Some((h, payload)),
{
    let b = rtp_header_bytes(h) + payload;
    lemma_rtp_header_roundtrip(h);
    assert(b.subrange(0, 12) == rtp_header_bytes(h));
    assert(rtp_header_of(b) == rtp_header_of(rtp_header_bytes(h)));
    assert(b.subrange(12, b.len() as int) == payload);
}

/// Writing out a parsed packet gives back the bytes it was parsed from.
pub proof fn lemma_rtp_packet_bytes_roundtrip(b: Seq<u8>)
    requires
        b.len() >= 12,
    ensures
        parse_rtp_packet(b) matches Some((h, p)) && rtp_header_bytes(h) + p == b,
{
    lemma_rtp_bytes_roundtrip(b);
    assert(b.subrange(0, 12) + b.subrange(12, b.len() as int) == b);
}

} // verus!
