use vstd::prelude::*;
use crate::error::CodecError;
use crate::wire::{be16_bytes, be16_value, lemma_be16_bytes_of_value, lemma_be16_round_trip};

verus! {

/// Whether a message is a query or a response.
#[derive(Debug, Clone, Copy, PartialEq, Eq, Structural)]
pub enum QR {
    QUERY,
    RESPONSE,
}

/// Operation code.
#[derive(Debug, Clone, Copy, PartialEq, Eq, Structural)]
pub enum OPCODE {
    QUERY,
    IQUERY,
    STATUS,
    UNASSIGNED,
    NOTIFY,
    UPDATE,
    /// DNS stateful operation.
    DSO,
}

/// Response code.
#[derive(Debug, Clone, Copy, PartialEq, Eq, Structural)]
pub enum RCODE {
    NOERROR,
    FORMERR,
    SERVFAIL,
    NXDOMAIN,
    NOTIMP,
    REFUSED,
    YXDOMAIN,
    YXRRSET,
    NXRRSET,
    NOTAUTH,
    NOTZONE,
    DSOTYPENI,
}

impl QR {
    pub open spec fn spec_code(self) -> u8 {
        match self {
            QR::QUERY => 0,
            QR::RESPONSE => 1,
        }
    }

    pub open spec fn spec_try_from(value: u8) -> Result<QR, CodecError> {
        if value == 0 {
            Ok(QR::QUERY)
        } else if value == 1 {
            Ok(QR::RESPONSE)
        } else {
            Err(CodecError::UnknownCode)
        }
    }

    pub fn code(self) -> (r: u8)
        ensures
            r == self.spec_code(),
    {
        match self {
            QR::QUERY => 0,
            QR::RESPONSE => 1,
        }
    }

    pub fn try_from(value: u8) -> (r: Result<QR, CodecError>)
        ensures
            r == Self::spec_try_from(value),
    {
        match value {
            0 => Ok(QR::QUERY),
            1 => Ok(QR::RESPONSE),
            _ => Err(CodecError::UnknownCode),
        }
    }
}

impl OPCODE {
    pub open spec fn spec_code(self) -> u8 {
        match self {
            OPCODE::QUERY => 0,
            OPCODE::IQUERY => 1,
            OPCODE::STATUS => 2,
            OPCODE::UNASSIGNED => 3,
            OPCODE::NOTIFY => 4,
            OPCODE::UPDATE => 5,
            OPCODE::DSO => 6,
        }
    }

    pub open spec fn spec_try_from(value: u8) -> Result<OPCODE, CodecError> {
        if value == 0 { Ok(OPCODE::QUERY) }
        else if value == 1 { Ok(OPCODE::IQUERY) }
        else if value == 2 { Ok(OPCODE::STATUS) }
        else if value == 3 { Ok(OPCODE::UNASSIGNED) }
        else if value == 4 { Ok(OPCODE::NOTIFY) }
        else if value == 5 { Ok(OPCODE::UPDATE) }
        else if value == 6 { Ok(OPCODE::DSO) }
        else { Err(CodecError::UnknownCode) }
    }

    pub fn code(self) -> (r: u8)
        ensures
            r == self.spec_code(),
    {
        match self {
            OPCODE::QUERY => 0,
            OPCODE::IQUERY => 1,
            OPCODE::STATUS => 2,
            OPCODE::UNASSIGNED => 3,
            OPCODE::NOTIFY => 4,
            OPCODE::UPDATE => 5,
            OPCODE::DSO => 6,
        }
    }

    pub fn try_from(value: u8) -> (r: Result<OPCODE, CodecError>)
        ensures
            r == Self::spec_try_from(value),
    {
        match value {
            0 => Ok(OPCODE::QUERY),
            1 => Ok(OPCODE::IQUERY),
            2 => Ok(OPCODE::STATUS),
            3 => Ok(OPCODE::UNASSIGNED),
            4 => Ok(OPCODE::NOTIFY),
            5 => Ok(OPCODE::UPDATE),
            6 => Ok(OPCODE::DSO),
            _ => Err(CodecError::UnknownCode),
        }
    }
}

impl RCODE {
    pub open spec fn spec_code(self) -> u8 {
        match self {
            RCODE::NOERROR => 0,
            RCODE::FORMERR => 1,
            RCODE::SERVFAIL => 2,
            RCODE::NXDOMAIN => 3,
            RCODE::NOTIMP => 4,
            RCODE::REFUSED => 5,
            RCODE::YXDOMAIN => 6,
            RCODE::YXRRSET => 7,
            RCODE::NXRRSET => 8,
            RCODE::NOTAUTH => 9,
            RCODE::NOTZONE => 10,
            RCODE::DSOTYPENI => 11,
        }
    }

    pub open spec fn spec_try_from(value: u8) -> Result<RCODE, CodecError> {
        if value == 0 { Ok(RCODE::NOERROR) }
        else if value == 1 { Ok(RCODE::FORMERR) }
        else if value == 2 { Ok(RCODE::SERVFAIL) }
        else if value == 3 { Ok(RCODE::NXDOMAIN) }
        else if value == 4 { Ok(RCODE::NOTIMP) }
        else if value == 5 { Ok(RCODE::REFUSED) }
        else if value == 6 { Ok(RCODE::YXDOMAIN) }
        else if value == 7 { Ok(RCODE::YXRRSET) }
        else if value == 8 { Ok(RCODE::NXRRSET) }
        else if value == 9 { Ok(RCODE::NOTAUTH) }
        else if value == 10 { Ok(RCODE::NOTZONE) }
        else if value == 11 { Ok(RCODE::DSOTYPENI) }
        else { Err(CodecError::UnknownCode) }
    }

    pub fn code(self) -> (r: u8)
        ensures
            r == self.spec_code(),
    {
        match self {
            RCODE::NOERROR => 0,
            RCODE::FORMERR => 1,
            RCODE::SERVFAIL => 2,
            RCODE::NXDOMAIN => 3,
            RCODE::NOTIMP => 4,
            RCODE::REFUSED => 5,
            RCODE::YXDOMAIN => 6,
            RCODE::YXRRSET => 7,
            RCODE::NXRRSET => 8,
            RCODE::NOTAUTH => 9,
            RCODE::NOTZONE => 10,
            RCODE::DSOTYPENI => 11,
        }
    }

    pub fn try_from(value: u8) -> (r: Result<RCODE, CodecError>)
        ensures
            r == Self::spec_try_from(value),
    {
        match value {
            0 => Ok(RCODE::NOERROR),
            1 => Ok(RCODE::FORMERR),
            2 => Ok(RCODE::SERVFAIL),
            3 => Ok(RCODE::NXDOMAIN),
            4 => Ok(RCODE::NOTIMP),
            5 => Ok(RCODE::REFUSED),
            6 => Ok(RCODE::YXDOMAIN),
            7 => Ok(RCODE::YXRRSET),
            8 => Ok(RCODE::NXRRSET),
            9 => Ok(RCODE::NOTAUTH),
            10 => Ok(RCODE::NOTZONE),
            11 => Ok(RCODE::DSOTYPENI),
            _ => Err(CodecError::UnknownCode),
        }
    }
}

/// The fixed 12-byte header of a DNS message.
#[derive(Debug, Clone, Copy, PartialEq, Eq, Structural)]
pub struct DnsHeader {
    /// Packet identifier, echoed from query to response.
    pub id: u16,
    pub qr: QR,
    pub opcode: OPCODE,
    /// Authoritative answer (one bit).
    pub aa: u8,
    /// Truncation (one bit).
    pub tc: u8,
    /// Recursion desired (one bit).
    pub rd: u8,
    /// Recursion available (one bit).
    pub ra: u8,
    /// Reserved (three bits).
    pub z: u8,
    pub rcode: RCODE,
    pub qdcount: u16,
    pub ancount: u16,
    pub nscount: u16,
    pub arcount: u16,
}

/// Byte 2 of the header: `qr<<7 | opcode<<3 | aa<<2 | tc<<1 | rd`.
pub open spec fn flags_hi(qr: u8, opcode: u8, aa: u8, tc: u8, rd: u8) -> u8 {
    (qr << 7u8) | ((opcode & 0xfu8) << 3u8) | ((aa & 1u8) << 2u8) | ((tc & 1u8) << 1u8) | (rd & 1u8)
}

/// Byte 3 of the header: `ra<<7 | z<<4 | rcode`.
pub open spec fn flags_lo(ra: u8, z: u8, rcode: u8) -> u8 {
    ((ra & 1u8) << 7u8) | ((z & 7u8) << 4u8) | (rcode & 0xfu8)
}

impl DnsHeader {
    /// The single-bit fields hold 0 or 1 and `z` fits in three bits.
    pub open spec fn wf(&self) -> bool {
        &&& self.aa <= 1
        &&& self.tc <= 1
        &&& self.rd <= 1
        &&& self.ra <= 1
        &&& self.z <= 7
    }

    /// The wire bytes of a header.
    pub open spec fn spec_bytes(&self) -> Seq<u8> {
        be16_bytes(self.id) + seq![
            flags_hi(self.qr.spec_code(), self.opcode.spec_code(), self.aa, self.tc, self.rd),
            flags_lo(self.ra, self.z, self.rcode.spec_code()),
        ] + be16_bytes(self.qdcount) + be16_bytes(self.ancount) + be16_bytes(self.nscount)
            + be16_bytes(self.arcount)
    }

    /// The header that 12 wire bytes hold, or `UnknownCode` where the opcode
    /// or the rcode bits name no known code.
    pub open spec fn spec_decode(b: Seq<u8>) -> Result<DnsHeader, CodecError> {
        let qr = if b[2] >> 7u8 == 0 { QR::QUERY } else { QR::RESPONSE };
        match (OPCODE::spec_try_from((b[2] >> 3u8) & 0xfu8), RCODE::spec_try_from(b[3] & 0xfu8)) {
            (Ok(opcode), Ok(rcode)) => Ok(DnsHeader {
                id: be16_value(b[0], b[1]),
                qr,
                opcode,
                aa: (b[2] >> 2u8) & 1u8,
                tc: (b[2] >> 1u8) & 1u8,
                rd: b[2] & 1u8,
                ra: b[3] >> 7u8,
                z: (b[3] >> 4u8) & 7u8,
                rcode,
                qdcount: be16_value(b[4], b[5]),
                ancount: be16_value(b[6], b[7]),
                nscount: be16_value(b[8], b[9]),
                arcount: be16_value(b[10], b[11]),
            }),
            _ => Err(CodecError::UnknownCode),
        }
    }

    /// The value of `DnsHeader::new()`.
    pub open spec fn new_spec() -> DnsHeader {
        DnsHeader {
            id: 1234,
            qr: QR::RESPONSE,
            opcode: OPCODE::QUERY,
            aa: 0,
            tc: 0,
            rd: 0,
            ra: 0,
            z: 0,
            rcode: RCODE::NOERROR,
            qdcount: 0,
            ancount: 1,
            nscount: 0,
            arcount: 0,
        }
    }

    /// The header of a response to a standard query, with one answer.
    pub fn new() -> (r: DnsHeader)
        ensures
            r == Self::new_spec(),
    {
        DnsHeader {
            id: 1234,
            qr: QR::RESPONSE,
            opcode: OPCODE::QUERY,
            aa: 0,
            tc: 0,
            rd: 0,
            ra: 0,
            z: 0,
            rcode: RCODE::NOERROR,
            qdcount: 0,
            ancount: 1,
            nscount: 0,
            arcount: 0,
        }
    }

    pub fn set_qr(&mut self, qr: QR)
        ensures
            *final(self) == (DnsHeader { qr, ..*old(self) }),
    {
        self.qr = qr;
    }

    /// Packs the header into its 12 wire bytes, each field most significant
    /// bit first; out-of-range flag values are masked to their width.
    pub fn to_bytes(&self) -> (r: [u8; 12])
        ensures
            r@ == self.spec_bytes(),
    {
        let hi = (self.qr.code() << 7u8) | ((self.opcode.code() & 0xf) << 3u8) | ((self.aa & 1) << 2u8)
            | ((self.tc & 1) << 1u8) | (self.rd & 1);
        let lo = ((self.ra & 1) << 7u8) | ((self.z & 7) << 4u8) | (self.rcode.code() & 0xf);
        let r = [
            (self.id / 256) as u8,
            (self.id % 256) as u8,
            hi,
            lo,
            (self.qdcount / 256) as u8,
            (self.qdcount % 256) as u8,
            (self.ancount / 256) as u8,
            (self.ancount % 256) as u8,
            (self.nscount / 256) as u8,
            (self.nscount % 256) as u8,
            (self.arcount / 256) as u8,
            (self.arcount % 256) as u8,
        ];
        assert(r@ =~= self.spec_bytes());
        r
    }

    /// Unpacks 12 wire bytes; an opcode or rcode outside its enumeration is
    /// `UnknownCode`.
    pub fn from_bytes(data: &[u8; 12]) -> (r: Result<DnsHeader, CodecError>)
        ensures
            r == Self::spec_decode(data@),
    {
        let b2 = data[2];
        let b3 = data[3];
        let qr = if b2 >> 7u8 == 0 { QR::QUERY } else { QR::RESPONSE };
        let opcode = match OPCODE::try_from((b2 >> 3u8) & 0xf) {
            Ok(o) => o,
            Err(e) => return Err(e),
        };
        let rcode = match RCODE::try_from(b3 & 0xf) {
            Ok(c) => c,
            Err(e) => return Err(e),
        };
        Ok(DnsHeader {
            id: (data[0] as u16) * 256 + data[1] as u16,
            qr,
            opcode,
            aa: (b2 >> 2u8) & 1,
            tc: (b2 >> 1u8) & 1,
            rd: b2 & 1,
            ra: b3 >> 7u8,
            z: (b3 >> 4u8) & 7,
            rcode,
            qdcount: (data[4] as u16) * 256 + data[5] as u16,
            ancount: (data[6] as u16) * 256 + data[7] as u16,
            nscount: (data[8] as u16) * 256 + data[9] as u16,
            arcount: (data[10] as u16) * 256 + data[11] as u16,
        })
    }
}

proof fn lemma_flags_hi_fields(q: u8, o: u8, a: u8, t: u8, r: u8)
    requires
        q <= 1,
        o <= 15,
        a <= 1,
        t <= 1,
        r <= 1,
    ensures
        flags_hi(q, o, a, t, r) >> 7u8 == q,
        (flags_hi(q, o, a, t, r) >> 3u8) & 0xfu8 == o,
        (flags_hi(q, o, a, t, r) >> 2u8) & 1u8 == a,
        (flags_hi(q, o, a, t, r) >> 1u8) & 1u8 == t,
        flags_hi(q, o, a, t, r) & 1u8 == r,
{
    assert(((q << 7u8) | ((o & 0xfu8) << 3u8) | ((a & 1u8) << 2u8) | ((t & 1u8) << 1u8) | (r & 1u8))
        >> 7u8 == q) by (bit_vector)
        requires q <= 1, o <= 15, a <= 1, t <= 1, r <= 1;
    assert((((q << 7u8) | ((o & 0xfu8) << 3u8) | ((a & 1u8) << 2u8) | ((t & 1u8) << 1u8) | (r & 1u8))
        >> 3u8) & 0xfu8 == o) by (bit_vector)
        requires q <= 1, o <= 15, a <= 1, t <= 1, r <= 1;
    assert((((q << 7u8) | ((o & 0xfu8) << 3u8) | ((a & 1u8) << 2u8) | ((t & 1u8) << 1u8) | (r & 1u8))
        >> 2u8) & 1u8 == a) by (bit_vector)
        requires q <= 1, o <= 15, a <= 1, t <= 1, r <= 1;
    assert((((q << 7u8) | ((o & 0xfu8) << 3u8) | ((a & 1u8) << 2u8) | ((t & 1u8) << 1u8) | (r & 1u8))
        >> 1u8) & 1u8 == t) by (bit_vector)
        requires q <= 1, o <= 15, a <= 1, t <= 1, r <= 1;
    assert(((q << 7u8) | ((o & 0xfu8) << 3u8) | ((a & 1u8) << 2u8) | ((t & 1u8) << 1u8) | (r & 1u8))
        & 1u8 == r) by (bit_vector)
        requires q <= 1, o <= 15, a <= 1, t <= 1, r <= 1;
}

proof fn lemma_flags_lo_fields(ra: u8, z: u8, rc: u8)
    requires
        ra <= 1,
        z <= 7,
        rc <= 15,
    ensures
        flags_lo(ra, z, rc) >> 7u8 == ra,
        (flags_lo(ra, z, rc) >> 4u8) & 7u8 == z,
        flags_lo(ra, z, rc) & 0xfu8 == rc,
{
    assert((((ra & 1u8) << 7u8) | ((z & 7u8) << 4u8) | (rc & 0xfu8)) >> 7u8 == ra) by (bit_vector)
        requires ra <= 1, z <= 7, rc <= 15;
    assert(((((ra & 1u8) << 7u8) | ((z & 7u8) << 4u8) | (rc & 0xfu8)) >> 4u8) & 7u8 == z)
        by (bit_vector)
        requires ra <= 1, z <= 7, rc <= 15;
    assert((((ra & 1u8) << 7u8) | ((z & 7u8) << 4u8) | (rc & 0xfu8)) & 0xfu8 == rc) by (bit_vector)
        requires ra <= 1, z <= 7, rc <= 15;
}

proof fn lemma_flags_repack(b2: u8, b3: u8)
    ensures
        flags_hi(b2 >> 7u8, (b2 >> 3u8) & 0xfu8, (b2 >> 2u8) & 1u8, (b2 >> 1u8) & 1u8, b2 & 1u8) == b2,
        flags_lo(b3 >> 7u8, (b3 >> 4u8) & 7u8, b3 & 0xfu8) == b3,
        b2 >> 7u8 <= 1,
        b3 >> 7u8 <= 1,
        (b2 >> 2u8) & 1u8 <= 1,
        (b2 >> 1u8) & 1u8 <= 1,
        b2 & 1u8 <= 1,
        (b3 >> 4u8) & 7u8 <= 7,
{
    assert(((b2 >> 7u8) << 7u8) | ((((b2 >> 3u8) & 0xfu8) & 0xfu8) << 3u8) | ((((b2 >> 2u8) & 1u8)
        & 1u8) << 2u8) | ((((b2 >> 1u8) & 1u8) & 1u8) << 1u8) | ((b2 & 1u8) & 1u8) == b2)
        by (bit_vector);
    assert((((b3 >> 7u8) & 1u8) << 7u8) | ((((b3 >> 4u8) & 7u8) & 7u8) << 4u8) | ((b3 & 0xfu8)
        & 0xfu8) == b3) by (bit_vector);
    assert(b2 >> 7u8 <= 1 && b3 >> 7u8 <= 1) by (bit_vector);
    assert((b2 >> 2u8) & 1u8 <= 1 && (b2 >> 1u8) & 1u8 <= 1 && b2 & 1u8 <= 1) by (bit_vector);
    assert((b3 >> 4u8) & 7u8 <= 7) by (bit_vector);
}

/// Decoding the bytes of a well-formed header gives that header back.
pub proof fn lemma_header_round_trip(h: DnsHeader)
    requires
        h.wf(),
    ensures
        h.spec_bytes().len() == 12,
        DnsHeader::spec_decode(h.spec_bytes()) == Ok::<DnsHeader, CodecError>(h),
{
    let b = h.spec_bytes();
    lemma_flags_hi_fields(h.qr.spec_code(), h.opcode.spec_code(), h.aa, h.tc, h.rd);
    lemma_flags_lo_fields(h.ra, h.z, h.rcode.spec_code());
    lemma_be16_round_trip(h.id);
    lemma_be16_round_trip(h.qdcount);
    lemma_be16_round_trip(h.ancount);
    lemma_be16_round_trip(h.nscount);
    lemma_be16_round_trip(h.arcount);
    assert(b[2] == flags_hi(h.qr.spec_code(), h.opcode.spec_code(), h.aa, h.tc, h.rd));
    assert(b[3] == flags_lo(h.ra, h.z, h.rcode.spec_code()));
    assert(b[0] == be16_bytes(h.id)[0] && b[1] == be16_bytes(h.id)[1]);
    assert(b[4] == be16_bytes(h.qdcount)[0] && b[5] == be16_bytes(h.qdcount)[1]);
    assert(b[6] == be16_bytes(h.ancount)[0] && b[7] == be16_bytes(h.ancount)[1]);
    assert(b[8] == be16_bytes(h.nscount)[0] && b[9] == be16_bytes(h.nscount)[1]);
    assert(b[10] == be16_bytes(h.arcount)[0] && b[11] == be16_bytes(h.arcount)[1]);
}

/// Every 12 bytes that decode to a header are exactly the bytes of that
/// header, and the header is well-formed.
pub proof fn lemma_header_bytes_of_decoded(b: Seq<u8>)
    requires
        b.len() == 12,
        DnsHeader::spec_decode(b) is Ok,
    ensures
        DnsHeader::spec_decode(b)->Ok_0.wf(),
        DnsHeader::spec_decode(b)->Ok_0.spec_bytes() == b,
{
    let h = DnsHeader::spec_decode(b)->Ok_0;
    lemma_flags_repack(b[2], b[3]);
    lemma_be16_bytes_of_value(b[0], b[1]);
    lemma_be16_bytes_of_value(b[4], b[5]);
    lemma_be16_bytes_of_value(b[6], b[7]);
    lemma_be16_bytes_of_value(b[8], b[9]);
    lemma_be16_bytes_of_value(b[10], b[11]);
    assert(h.spec_bytes() =~= b);
}

/// A header whose opcode bits are not a known operation code does not
/// decode; it is reported as `UnknownCode`.
pub proof fn lemma_unknown_opcode_rejected(b: Seq<u8>)
    requires
        b.len() == 12,
        (b[2] >> 3u8) & 0xfu8 > 6,
    ensures
        DnsHeader::spec_decode(b) == Err::<DnsHeader, CodecError>(CodecError::UnknownCode),
{
}

} // verus!
