use vstd::prelude::*;
use crate::error::CodecError;
use crate::name::{
    decode_name, encode_name, encoded_name_len, labels_valid, labels_view, labels_fit,
    lemma_decoded_name_bytes, lemma_name_decodes_within, spec_decode_name_at, spec_encode_name,
};
use crate::types::{Class, Type};
use crate::wire::{
    be16_bytes, be16_value, lemma_be16_bytes_of_value, lemma_be16_round_trip, push_u16, read_u16,
};

verus! {

/// A question of a DNS message: the name asked about, its type and class.
#[derive(Debug, Clone, PartialEq)]
pub struct DnsQuestion {
    /// The labels of the name.
    pub name: Vec<Vec<u8>>,
    pub qtype: Type,
    pub qclass: Class,
}

/// The mathematical value of a question.
pub struct QuestionView {
    pub name: Seq<Seq<u8>>,
    pub qtype: Type,
    pub qclass: Class,
}

impl View for DnsQuestion {
    type V = QuestionView;

    open spec fn view(&self) -> QuestionView {
        QuestionView { name: labels_view(self.name@), qtype: self.qtype, qclass: self.qclass }
    }
}

/// The wire form of a question: its name, then type and class as
/// big-endian 16-bit codes.
pub open spec fn spec_encode_question(q: QuestionView) -> Seq<u8> {
    spec_encode_name(q.name) + be16_bytes(q.qtype.spec_code()) + be16_bytes(q.qclass.spec_code())
}

/// What encoding a question gives: its wire form, or `LabelTooLong` when a
/// label is longer than 63 bytes.
pub open spec fn spec_question_bytes(q: QuestionView) -> Result<Seq<u8>, CodecError> {
    if labels_fit(q.name) {
        Ok(spec_encode_question(q))
    } else {
        Err(CodecError::LabelTooLong)
    }
}

/// The question that starts at `pos` in `b`, with the position just after it.
pub open spec fn spec_decode_question_at(b: Seq<u8>, pos: int) -> Result<
    (QuestionView, int),
    CodecError,
> {
    match spec_decode_name_at(b, pos) {
        Err(e) => Err(e),
        Ok((name, end)) => if end + 4 > b.len() {
            Err(CodecError::TruncatedInput)
        } else {
            match Type::spec_try_from(be16_value(b[end], b[end + 1])) {
                Err(e) => Err(e),
                Ok(qtype) => match Class::spec_try_from(be16_value(b[end + 2], b[end + 3])) {
                    Err(e) => Err(e),
                    Ok(qclass) => Ok((QuestionView { name, qtype, qclass }, end + 4)),
                },
            }
        },
    }
}

/// The labels "codecrafters" and "io".
pub open spec fn spec_default_name() -> Seq<Seq<u8>> {
    seq![
        seq![0x63u8, 0x6f, 0x64, 0x65, 0x63, 0x72, 0x61, 0x66, 0x74, 0x65, 0x72, 0x73],
        seq![0x69u8, 0x6f],
    ]
}

/// The name codecrafters.io, as labels.
pub fn default_name() -> (r: Vec<Vec<u8>>)
    ensures
        labels_view(r@) == spec_default_name(),
{
    // "codecrafters"
    let first: Vec<u8> = vec![0x63, 0x6f, 0x64, 0x65, 0x63, 0x72, 0x61, 0x66, 0x74, 0x65, 0x72, 0x73];
    // "io"
    let second: Vec<u8> = vec![0x69, 0x6f];
    let r = vec![first, second];
    assert(labels_view(r@) =~= spec_default_name());
    r
}

impl DnsQuestion {
    /// The value of `DnsQuestion::new()`.
    pub open spec fn new_spec() -> QuestionView {
        QuestionView { name: spec_default_name(), qtype: Type::A, qclass: Class::IN }
    }

    /// A question for the A record of codecrafters.io in class IN.
    pub fn new() -> (r: DnsQuestion)
        ensures
            r@ == Self::new_spec(),
    {
        DnsQuestion { name: default_name(), qtype: Type::A, qclass: Class::IN }
    }

    /// The number of bytes that the question's name takes on the wire.
    pub fn len(&self) -> (r: usize)
        requires
            spec_encode_name(self@.name).len() <= usize::MAX,
        ensures
            r == spec_encode_name(self@.name).len(),
    {
        encoded_name_len(&self.name)
    }

    /// Encodes the question; a label longer than 63 bytes is `LabelTooLong`.
    pub fn serialize(&self) -> (r: Result<Vec<u8>, CodecError>)
        ensures
            match r {
                Ok(bytes) => spec_question_bytes(self@) == Ok::<Seq<u8>, CodecError>(bytes@),
                Err(e) => spec_question_bytes(self@) == Err::<Seq<u8>, CodecError>(e),
            },
    {
        let mut out = match encode_name(&self.name) {
            Ok(v) => v,
            Err(e) => return Err(e),
        };
        push_u16(&mut out, self.qtype.code());
        push_u16(&mut out, self.qclass.code());
        Ok(out)
    }

    /// Decodes the question that starts at `offset`, with the number of bytes
    /// it takes.
    pub fn decode_at(buf: &[u8], offset: usize) -> (r: Result<(DnsQuestion, usize), CodecError>)
        ensures
            match r {
                Ok((q, n)) => spec_decode_question_at(buf@, offset as int) == Ok::<
                    (QuestionView, int),
                    CodecError,
                >((q@, offset + n)),
                Err(e) => spec_decode_question_at(buf@, offset as int) == Err::<
                    (QuestionView, int),
                    CodecError,
                >(e),
            },
    {
        let (name, used) = match decode_name(buf, offset) {
            Ok(p) => p,
            Err(e) => return Err(e),
        };
        let len = buf.len();
        let end = offset + used;
        if len < 4 || end > len - 4 {
            return Err(CodecError::TruncatedInput);
        }
        let qtype = match Type::try_from(read_u16(buf, end)) {
            Ok(t) => t,
            Err(e) => return Err(e),
        };
        let qclass = match Class::try_from(read_u16(buf, end + 2)) {
            Ok(c) => c,
            Err(e) => return Err(e),
        };
        Ok((DnsQuestion { name, qtype, qclass }, used + 4))
    }

    /// Decodes the question at the start of `buf`.
    pub fn deserialize(buf: &[u8]) -> (r: Result<(DnsQuestion, usize), CodecError>)
        ensures
            match r {
                Ok((q, n)) => spec_decode_question_at(buf@, 0) == Ok::<
                    (QuestionView, int),
                    CodecError,
                >((q@, n as int)),
                Err(e) => spec_decode_question_at(buf@, 0) == Err::<(QuestionView, int), CodecError>(
                    e,
                ),
            },
    {
        Self::decode_at(buf, 0)
    }
}

/// A question whose name labels each hold 1 to 63 bytes decodes back from
/// its wire form wherever that form stands in a buffer.
pub proof fn lemma_question_decodes_within(q: QuestionView, b: Seq<u8>, pos: int)
    requires
        labels_valid(q.name),
        0 <= pos,
        pos + spec_encode_question(q).len() <= b.len(),
        b.subrange(pos, pos + spec_encode_question(q).len()) == spec_encode_question(q),
    ensures
        spec_decode_question_at(b, pos) == Ok::<(QuestionView, int), CodecError>(
            (q, pos + spec_encode_question(q).len()),
        ),
{
    let enc = spec_encode_question(q);
    let nenc = spec_encode_name(q.name);
    let nl = nenc.len() as int;
    let end = pos + nl;
    assert(b.subrange(pos, end) =~= nenc) by {
        assert forall|j: int| 0 <= j < nenc.len() implies b.subrange(pos, end)[j] == nenc[j] by {
            assert(b.subrange(pos, pos + enc.len())[j] == enc[j]);
        }
    }
    lemma_name_decodes_within(q.name, b, pos);
    assert forall|i: int| end <= i < pos + enc.len() implies #[trigger] b[i] == enc[i - pos] by {
        assert(b.subrange(pos, pos + enc.len())[i - pos] == enc[i - pos]);
    }
    lemma_be16_round_trip(q.qtype.spec_code());
    lemma_be16_round_trip(q.qclass.spec_code());
    Type::lemma_code_round_trip(q.qtype);
    Class::lemma_code_round_trip(q.qclass);
}

/// Encoding then decoding a question whose name labels each hold 1 to 63
/// bytes gives the question back, and the decoder takes every byte.
pub proof fn lemma_question_round_trip(q: QuestionView)
    requires
        labels_valid(q.name),
    ensures
        spec_decode_question_at(spec_encode_question(q), 0) == Ok::<(QuestionView, int), CodecError>(
            (q, spec_encode_question(q).len() as int),
        ),
{
    let enc = spec_encode_question(q);
    assert(enc.subrange(0, enc.len() as int) =~= enc);
    lemma_question_decodes_within(q, enc, 0);
}

/// What the decoder reads as a question has a valid name, and the bytes it
/// took are exactly that question's wire form.
pub proof fn lemma_decoded_question_bytes(b: Seq<u8>, pos: int)
    requires
        spec_decode_question_at(b, pos) is Ok,
    ensures
        labels_valid(spec_decode_question_at(b, pos)->Ok_0.0.name),
        pos < spec_decode_question_at(b, pos)->Ok_0.1 <= b.len(),
        b.subrange(pos, spec_decode_question_at(b, pos)->Ok_0.1) == spec_encode_question(
            spec_decode_question_at(b, pos)->Ok_0.0,
        ),
{
    let (q, next) = spec_decode_question_at(b, pos)->Ok_0;
    lemma_decoded_name_bytes(b, pos);
    let end = spec_decode_name_at(b, pos)->Ok_0.1;
    lemma_be16_bytes_of_value(b[end], b[end + 1]);
    lemma_be16_bytes_of_value(b[end + 2], b[end + 3]);
    assert(b.subrange(pos, next) =~= b.subrange(pos, end) + seq![b[end], b[end + 1]] + seq![
        b[end + 2],
        b[end + 3],
    ]);
}

} // verus!
