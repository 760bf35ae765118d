use vstd::prelude::*;
use crate::error::CodecError;
use crate::name::{
    decode_name, encode_name, labels_fit, labels_valid, labels_view, lemma_decoded_name_bytes,
    lemma_name_decodes_within, spec_decode_name_at, spec_encode_name,
};
use crate::question::{default_name, spec_default_name};
use crate::types::{Class, Type};
use crate::wire::{
    be16_bytes, be16_value, be32_bytes, be32_value, copy_range, lemma_be16_bytes_of_value,
    lemma_be16_round_trip, lemma_be32_bytes_of_value, lemma_be32_round_trip, push_all, push_u16,
    push_u32, read_u16, read_u32,
};

verus! {

/// A resource record: name, type, class, time to live and its data.
#[derive(Debug, Clone, PartialEq)]
pub struct RR {
    /// The labels of the name.
    pub name: Vec<Vec<u8>>,
    pub atype: Type,
    pub aclass: Class,
    /// Time to live, in seconds.
    pub ttl: u32,
    /// The declared length of `rdata`.
    pub rdlength: u16,
    pub rdata: Vec<u8>,
}

/// The mathematical value of a resource record.
pub struct RecordView {
    pub name: Seq<Seq<u8>>,
    pub atype: Type,
    pub aclass: Class,
    pub ttl: u32,
    pub rdlength: u16,
    pub rdata: Seq<u8>,
}

impl View for RR {
    type V = RecordView;

    open spec fn view(&self) -> RecordView {
        RecordView {
            name: labels_view(self.name@),
            atype: self.atype,
            aclass: self.aclass,
            ttl: self.ttl,
            rdlength: self.rdlength,
            rdata: self.rdata@,
        }
    }
}

/// The wire form of a record: name, type, class, TTL, RDATA length, RDATA.
pub open spec fn spec_encode_record(r: RecordView) -> Seq<u8> {
    spec_encode_name(r.name) + be16_bytes(r.atype.spec_code()) + be16_bytes(r.aclass.spec_code())
        + be32_bytes(r.ttl) + be16_bytes(r.rdlength) + r.rdata
}

/// What encoding a record gives: its wire form; `LabelTooLong` when a label
/// is longer than 63 bytes; else `InvariantViolation` when `rdlength` is not
/// the length of `rdata`.
pub open spec fn spec_record_bytes(r: RecordView) -> Result<Seq<u8>, CodecError> {
    if !labels_fit(r.name) {
        Err(CodecError::LabelTooLong)
    } else if r.rdata.len() != r.rdlength {
        Err(CodecError::InvariantViolation)
    } else {
        Ok(spec_encode_record(r))
    }
}

/// The record that starts at `pos` in `b`, with the position just after it.
pub open spec fn spec_decode_record_at(b: Seq<u8>, pos: int) -> Result<(RecordView, int), CodecError> {
    match spec_decode_name_at(b, pos) {
        Err(e) => Err(e),
        Ok((name, end)) => if end + 10 > b.len() {
            Err(CodecError::TruncatedInput)
        } else {
            match Type::spec_try_from(be16_value(b[end], b[end + 1])) {
                Err(e) => Err(e),
                Ok(atype) => match Class::spec_try_from(be16_value(b[end + 2], b[end + 3])) {
                    Err(e) => Err(e),
                    Ok(aclass) => {
                        let ttl = be32_value(b[end + 4], b[end + 5], b[end + 6], b[end + 7]);
                        let rdlength = be16_value(b[end + 8], b[end + 9]);
                        let next = end + 10 + rdlength;
                        if next > b.len() {
                            Err(CodecError::TruncatedInput)
                        } else {
                            Ok(
                                (
                                    RecordView {
                                        name,
                                        atype,
                                        aclass,
                                        ttl,
                                        rdlength,
                                        rdata: b.subrange(end + 10, next),
                                    },
                                    next,
                                ),
                            )
                        }
                    },
                },
            }
        },
    }
}

impl RR {
    /// The value of `RR::new()`.
    pub open spec fn new_spec() -> RecordView {
        RecordView {
            name: spec_default_name(),
            atype: Type::A,
            aclass: Class::IN,
            ttl: 60,
            rdlength: 4,
            rdata: seq![127u8, 0, 0, 1],
        }
    }

    /// An A record for codecrafters.io in class IN, TTL 60, address 127.0.0.1.
    pub fn new() -> (r: RR)
        ensures
            r@ == Self::new_spec(),
    {
        let r = RR {
            name: default_name(),
            atype: Type::A,
            aclass: Class::IN,
            ttl: 60,
            rdlength: 4,
            rdata: vec![127, 0, 0, 1],
        };
        assert(r.rdata@ =~= seq![127u8, 0, 0, 1]);
        r
    }

    /// Encodes the record. A label longer than 63 bytes is `LabelTooLong`;
    /// otherwise an `rdlength` that differs from the length of `rdata` is
    /// `InvariantViolation`.
    pub fn to_bytes(&self) -> (r: Result<Vec<u8>, CodecError>)
        ensures
            match r {
                Ok(bytes) => spec_record_bytes(self@) == Ok::<Seq<u8>, CodecError>(bytes@),
                Err(e) => spec_record_bytes(self@) == Err::<Seq<u8>, CodecError>(e),
            },
    {
        let mut out = match encode_name(&self.name) {
            Ok(v) => v,
            Err(e) => return Err(e),
        };
        if self.rdata.len() != self.rdlength as usize {
            return Err(CodecError::InvariantViolation);
        }
        push_u16(&mut out, self.atype.code());
        push_u16(&mut out, self.aclass.code());
        push_u32(&mut out, self.ttl);
        push_u16(&mut out, self.rdlength);
        push_all(&mut out, self.rdata.as_slice());
        Ok(out)
    }

    /// Decodes the record that starts at `offset`, with the number of bytes it
    /// takes.
    pub fn decode_at(buf: &[u8], offset: usize) -> (r: Result<(RR, usize), CodecError>)
        ensures
            match r {
                Ok((rr, n)) => spec_decode_record_at(buf@, offset as int) == Ok::<
                    (RecordView, int),
                    CodecError,
                >((rr@, offset + n)),
                Err(e) => spec_decode_record_at(buf@, offset as int) == Err::<
                    (RecordView, int),
                    CodecError,
                >(e),
            },
    {
        let (name, used) = match decode_name(buf, offset) {
            Ok(p) => p,
            Err(e) => return Err(e),
        };
        let len = buf.len();
        let end = offset + used;
        if len < 10 || end > len - 10 {
            return Err(CodecError::TruncatedInput);
        }
        let atype = match Type::try_from(read_u16(buf, end)) {
            Ok(t) => t,
            Err(e) => return Err(e),
        };
        let aclass = match Class::try_from(read_u16(buf, end + 2)) {
            Ok(c) => c,
            Err(e) => return Err(e),
        };
        let ttl = read_u32(buf, end + 4);
        let rdlength = read_u16(buf, end + 8);
        if rdlength as usize > len - end - 10 {
            return Err(CodecError::TruncatedInput);
        }
        let next = end + 10 + rdlength as usize;
        let rdata = copy_range(buf, end + 10, next);
        Ok((RR { name, atype, aclass, ttl, rdlength, rdata }, next - offset))
    }

    /// Decodes the record at the start of `buf`.
    pub fn from_bytes(buf: &[u8]) -> (r: Result<(RR, usize), CodecError>)
        ensures
            match r {
                Ok((rr, n)) => spec_decode_record_at(buf@, 0) == Ok::<(RecordView, int), CodecError>(
                    (rr@, n as int),
                ),
                Err(e) => spec_decode_record_at(buf@, 0) == Err::<(RecordView, int), CodecError>(e),
            },
    {
        Self::decode_at(buf, 0)
    }

    /// Takes the name that starts `buf`. When no complete name is there the
    /// record is left as it was and the decoding error is returned.
    pub fn set_name(&mut self, buf: &[u8]) -> (r: Result<(), CodecError>)
        ensures
            match r {
                Ok(()) => spec_decode_name_at(buf@, 0) is Ok && final(self)@ == (RecordView {
                    name: spec_decode_name_at(buf@, 0)->Ok_0.0,
                    ..old(self)@
                }),
                Err(e) => spec_decode_name_at(buf@, 0) == Err::<(Seq<Seq<u8>>, int), CodecError>(e)
                    && *final(self) == *old(self),
            },
    {
        match decode_name(buf, 0) {
            Ok((name, _)) => {
                self.name = name;
                Ok(())
            },
            Err(e) => Err(e),
        }
    }

    pub fn set_type(&mut self, atype: Type)
        ensures
            final(self)@ == (RecordView { atype, ..old(self)@ }),
    {
        self.atype = atype;
    }

    pub fn set_class(&mut self, aclass: Class)
        ensures
            final(self)@ == (RecordView { aclass, ..old(self)@ }),
    {
        self.aclass = aclass;
    }

    pub fn set_ttl(&mut self, ttl: u32)
        ensures
            final(self)@ == (RecordView { ttl, ..old(self)@ }),
    {
        self.ttl = ttl;
    }

    pub fn set_rdlength(&mut self, rdlength: u16)
        ensures
            final(self)@ == (RecordView { rdlength, ..old(self)@ }),
    {
        self.rdlength = rdlength;
    }

    pub fn set_rdata(&mut self, rdata: Vec<u8>)
        ensures
            final(self)@ == (RecordView { rdata: rdata@, ..old(self)@ }),
    {
        self.rdata = rdata;
    }
}

/// A record whose name labels each hold 1 to 63 bytes and whose `rdlength`
/// is the length of its data decodes back from its wire form wherever that
/// form stands in a buffer.
pub proof fn lemma_record_decodes_within(r: RecordView, b: Seq<u8>, pos: int)
    requires
        labels_valid(r.name),
        r.rdata.len() == r.rdlength,
        0 <= pos,
        pos + spec_encode_record(r).len() <= b.len(),
        b.subrange(pos, pos + spec_encode_record(r).len()) == spec_encode_record(r),
    ensures
        spec_decode_record_at(b, pos) == Ok::<(RecordView, int), CodecError>(
            (r, pos + spec_encode_record(r).len()),
        ),
{
    let enc = spec_encode_record(r);
    let nenc = spec_encode_name(r.name);
    let nl = nenc.len() as int;
    let end = pos + nl;
    assert(b.subrange(pos, end) =~= nenc) by {
        assert forall|j: int| 0 <= j < nl implies b.subrange(pos, end)[j] == nenc[j] by {
            assert(b.subrange(pos, pos + enc.len())[j] == enc[j]);
        }
    }
    assert forall|i: int| end <= i < end + 10 implies #[trigger] b[i] == enc[i - pos] by {
        assert(b.subrange(pos, pos + enc.len())[i - pos] == enc[i - pos]);
    }
    lemma_name_decodes_within(r.name, b, pos);
    lemma_be16_round_trip(r.atype.spec_code());
    lemma_be16_round_trip(r.aclass.spec_code());
    lemma_be32_round_trip(r.ttl);
    lemma_be16_round_trip(r.rdlength);
    Type::lemma_code_round_trip(r.atype);
    Class::lemma_code_round_trip(r.aclass);
    assert(b.subrange(end + 10, end + 10 + r.rdlength) =~= r.rdata) by {
        assert forall|j: int| 0 <= j < r.rdata.len() implies b.subrange(
            end + 10,
            end + 10 + r.rdlength,
        )[j] == r.rdata[j] by {
            assert(b.subrange(pos, pos + enc.len())[nl + 10 + j] == enc[nl + 10 + j]);
        }
    }
}

/// Encoding then decoding a record whose name labels each hold 1 to 63 bytes
/// and whose `rdlength` is the length of its data gives the record back, and
/// the decoder takes every byte.
pub proof fn lemma_record_round_trip(r: RecordView)
    requires
        labels_valid(r.name),
        r.rdata.len() == r.rdlength,
    ensures
        spec_decode_record_at(spec_encode_record(r), 0) == Ok::<(RecordView, int), CodecError>(
            (r, spec_encode_record(r).len() as int),
        ),
{
    let enc = spec_encode_record(r);
    assert(enc.subrange(0, enc.len() as int) =~= enc);
    lemma_record_decodes_within(r, enc, 0);
}

/// What the decoder reads as a record has a valid name and data of its
/// declared length, and the bytes it took are exactly that record's wire form.
pub proof fn lemma_decoded_record_bytes(b: Seq<u8>, pos: int)
    requires
        spec_decode_record_at(b, pos) is Ok,
    ensures
        labels_valid(spec_decode_record_at(b, pos)->Ok_0.0.name),
        spec_decode_record_at(b, pos)->Ok_0.0.rdata.len() == spec_decode_record_at(b, pos)->Ok_0.0.rdlength,
        pos < spec_decode_record_at(b, pos)->Ok_0.1 <= b.len(),
        b.subrange(pos, spec_decode_record_at(b, pos)->Ok_0.1) == spec_encode_record(
            spec_decode_record_at(b, pos)->Ok_0.0,
        ),
{
    let (r, next) = spec_decode_record_at(b, pos)->Ok_0;
    lemma_decoded_name_bytes(b, pos);
    let end = spec_decode_name_at(b, pos)->Ok_0.1;
    lemma_be16_bytes_of_value(b[end], b[end + 1]);
    lemma_be16_bytes_of_value(b[end + 2], b[end + 3]);
    lemma_be32_bytes_of_value(b[end + 4], b[end + 5], b[end + 6], b[end + 7]);
    lemma_be16_bytes_of_value(b[end + 8], b[end + 9]);
    assert(b.subrange(pos, next) =~= b.subrange(pos, end) + seq![b[end], b[end + 1]] + seq![
        b[end + 2],
        b[end + 3],
    ] + seq![b[end + 4], b[end + 5], b[end + 6], b[end + 7]] + seq![b[end + 8], b[end + 9]]
        + b.subrange(end + 10, next));
}

} // verus!
