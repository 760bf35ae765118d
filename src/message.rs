use vstd::prelude::*;
use crate::buffer::{bytes_as_slice, bytes_from_vec, bytes_view};
use crate::error::CodecError;
use crate::header::{lemma_header_bytes_of_decoded, DnsHeader};
use crate::question::{
    lemma_decoded_question_bytes, lemma_question_decodes_within, spec_decode_question_at,
    spec_question_bytes, DnsQuestion, QuestionView,
};
use crate::record::{
    lemma_decoded_record_bytes, lemma_record_decodes_within, spec_decode_record_at,
    spec_record_bytes, RecordView, RR,
};
use crate::wire::push_all;

verus! {

/// The size of the UDP datagram that carries a message.
pub const FRAME_LEN: usize = 512;

/// A DNS message: header, at most one question, at most one answer record,
/// the authority address, and the number of bytes left after them.
#[derive(Debug, Clone, PartialEq)]
pub struct DnsMessage {
    pub header: DnsHeader,
    pub question: Option<DnsQuestion>,
    pub answer: Option<RR>,
    /// An IPv4 address, one byte per dotted-decimal octet.
    pub authority: [u8; 4],
    /// The number of frame bytes that follow the authority address.
    pub additional_space: usize,
}

/// The mathematical value of a message.
pub struct MessageView {
    pub header: DnsHeader,
    pub question: Option<QuestionView>,
    pub answer: Option<RecordView>,
    pub authority: Seq<u8>,
    pub additional_space: nat,
}

impl View for DnsMessage {
    type V = MessageView;

    open spec fn view(&self) -> MessageView {
        MessageView {
            header: self.header,
            question: match self.question {
                Some(q) => Some(q@),
                None => None,
            },
            answer: match self.answer {
                Some(r) => Some(r@),
                None => None,
            },
            authority: self.authority@,
            additional_space: self.additional_space as nat,
        }
    }
}

/// What encoding the optional question gives: no bytes when there is none.
pub open spec fn spec_opt_question_bytes(q: Option<QuestionView>) -> Result<Seq<u8>, CodecError> {
    match q {
        Some(q) => spec_question_bytes(q),
        None => Ok(Seq::empty()),
    }
}

/// What encoding the optional record gives: no bytes when there is none.
pub open spec fn spec_opt_record_bytes(r: Option<RecordView>) -> Result<Seq<u8>, CodecError> {
    match r {
        Some(r) => spec_record_bytes(r),
        None => Ok(Seq::empty()),
    }
}

/// The sections of a message one after another: header, question if any,
/// record if any, authority address. The first error of a section wins.
pub open spec fn spec_sections(m: MessageView) -> Result<Seq<u8>, CodecError> {
    match spec_opt_question_bytes(m.question) {
        Err(e) => Err(e),
        Ok(qb) => match spec_opt_record_bytes(m.answer) {
            Err(e) => Err(e),
            Ok(ab) => Ok(m.header.spec_bytes() + qb + ab + m.authority),
        },
    }
}

/// `s` zero-padded, or cut, to exactly 512 bytes.
pub open spec fn spec_frame(s: Seq<u8>) -> Seq<u8> {
    if s.len() >= 512 {
        s.take(512)
    } else {
        s + Seq::new((512 - s.len()) as nat, |i: int| 0u8)
    }
}

/// The 512-byte frame of a message.
pub open spec fn spec_serialize(m: MessageView) -> Result<Seq<u8>, CodecError> {
    match spec_sections(m) {
        Ok(s) => Ok(spec_frame(s)),
        Err(e) => Err(e),
    }
}

/// The question at `pos`, if one starts there: none when the buffer ends or
/// the byte there is zero.
pub open spec fn spec_opt_question_at(b: Seq<u8>, pos: int) -> Result<
    (Option<QuestionView>, int),
    CodecError,
> {
    if pos < b.len() && b[pos] != 0 {
        match spec_decode_question_at(b, pos) {
            Ok((q, next)) => Ok((Some(q), next)),
            Err(e) => Err(e),
        }
    } else {
        Ok((None, pos))
    }
}

/// The record at `pos`, if one starts there: none when the buffer ends or the
/// byte there is zero.
pub open spec fn spec_opt_record_at(b: Seq<u8>, pos: int) -> Result<
    (Option<RecordView>, int),
    CodecError,
> {
    if pos < b.len() && b[pos] != 0 {
        match spec_decode_record_at(b, pos) {
            Ok((r, next)) => Ok((Some(r), next)),
            Err(e) => Err(e),
        }
    } else {
        Ok((None, pos))
    }
}

/// The message that a received frame holds. Each section starts where the
/// one before it ended; the bytes after the authority address are counted.
/// The header's `qdcount` and `ancount` are carried as they are and are not
/// compared with the sections found: a frame whose counts disagree with its
/// sections still decodes.
pub open spec fn spec_deserialize(b: Seq<u8>) -> Result<MessageView, CodecError> {
    if b.len() < 12 {
        Err(CodecError::TruncatedInput)
    } else {
        match DnsHeader::spec_decode(b.take(12)) {
            Err(e) => Err(e),
            Ok(header) => match spec_opt_question_at(b, 12) {
                Err(e) => Err(e),
                Ok((question, q_end)) => match spec_opt_record_at(b, q_end) {
                    Err(e) => Err(e),
                    Ok((answer, r_end)) => if r_end + 4 > b.len() {
                        Err(CodecError::TruncatedInput)
                    } else {
                        Ok(
                            MessageView {
                                header,
                                question,
                                answer,
                                authority: b.subrange(r_end, r_end + 4),
                                additional_space: (b.len() - (r_end + 4)) as nat,
                            },
                        )
                    },
                },
            },
        }
    }
}

impl DnsMessage {
    /// The response that `DnsHeader::new`, `DnsQuestion::new` and `RR::new`
    /// make up, with authority 127.0.0.1.
    pub fn new() -> (r: DnsMessage)
        ensures
            r.header == DnsHeader::new_spec(),
            r@.question == Some(DnsQuestion::new_spec()),
            r@.answer == Some(RR::new_spec()),
            r@.authority == seq![127u8, 0, 0, 1],
            r.additional_space == 0,
    {
        let r = DnsMessage {
            header: DnsHeader::new(),
            question: Some(DnsQuestion::new()),
            answer: Some(RR::new()),
            authority: [127, 0, 0, 1],
            additional_space: 0,
        };
        assert(r.authority@ =~= seq![127u8, 0, 0, 1]);
        r
    }

    /// Encodes the message into its 512-byte frame: header, question if any,
    /// record if any, authority address, then zeros; a longer message is cut
    /// at 512 bytes.
    pub fn to_frame(&self) -> (r: Result<Vec<u8>, CodecError>)
        ensures
            match r {
                Ok(bytes) => spec_serialize(self@) == Ok::<Seq<u8>, CodecError>(bytes@),
                Err(e) => spec_serialize(self@) == Err::<Seq<u8>, CodecError>(e),
            },
    {
        let header = self.header.to_bytes();
        let mut out: Vec<u8> = Vec::new();
        push_all(&mut out, &header);
        let mut qb: Vec<u8> = Vec::new();
        match &self.question {
            Some(q) => {
                qb = match q.serialize() {
                    Ok(v) => v,
                    Err(e) => return Err(e),
                };
            },
            None => {},
        }
        assert(spec_opt_question_bytes(self@.question) == Ok::<Seq<u8>, CodecError>(qb@));
        let mut ab: Vec<u8> = Vec::new();
        match &self.answer {
            Some(a) => {
                ab = match a.to_bytes() {
                    Ok(v) => v,
                    Err(e) => return Err(e),
                };
            },
            None => {},
        }
        assert(spec_opt_record_bytes(self@.answer) == Ok::<Seq<u8>, CodecError>(ab@));
        push_all(&mut out, qb.as_slice());
        push_all(&mut out, ab.as_slice());
        push_all(&mut out, &self.authority);
        let ghost sections = out@;
        assert(sections =~= self.header.spec_bytes() + qb@ + ab@ + self.authority@);
        if out.len() > FRAME_LEN {
            out.truncate(FRAME_LEN);
            assert(out@ =~= spec_frame(sections));
        } else {
            while out.len() < FRAME_LEN
                invariant
                    sections.len() <= out@.len() <= 512,
                    out@ == sections + Seq::new((out@.len() - sections.len()) as nat, |i: int| 0u8),
                decreases 512 - out@.len(),
            {
                out.push(0u8);
                assert(out@ =~= sections + Seq::new(
                    (out@.len() - sections.len()) as nat,
                    |i: int| 0u8,
                ));
            }
            assert(out@ =~= spec_frame(sections));
        }
        Ok(out)
    }

    /// Decodes a received frame: the header, then a question where the next
    /// byte is not zero, then a record where the next byte is not zero, then
    /// the 4-byte authority address. The remaining byte count becomes
    /// `additional_space`. The section counts in the header are not checked
    /// against the sections found.
    pub fn from_frame(buf: &[u8]) -> (r: Result<DnsMessage, CodecError>)
        ensures
            match r {
                Ok(m) => spec_deserialize(buf@) == Ok::<MessageView, CodecError>(m@),
                Err(e) => spec_deserialize(buf@) == Err::<MessageView, CodecError>(e),
            },
    {
        let len = buf.len();
        if len < 12 {
            return Err(CodecError::TruncatedInput);
        }
        let hb: [u8; 12] = [
            buf[0],
            buf[1],
            buf[2],
            buf[3],
            buf[4],
            buf[5],
            buf[6],
            buf[7],
            buf[8],
            buf[9],
            buf[10],
            buf[11],
        ];
        assert(hb@ =~= buf@.take(12));
        let header = match DnsHeader::from_bytes(&hb) {
            Ok(h) => h,
            Err(e) => return Err(e),
        };
        let mut pos: usize = 12;
        let mut question: Option<DnsQuestion> = None;
        if pos < len && buf[pos] != 0 {
            match DnsQuestion::decode_at(buf, pos) {
                Ok((q, n)) => {
                    question = Some(q);
                    pos = pos + n;
                },
                Err(e) => return Err(e),
            }
        }
        let mut answer: Option<RR> = None;
        if pos < len && buf[pos] != 0 {
            match RR::decode_at(buf, pos) {
                Ok((a, n)) => {
                    answer = Some(a);
                    pos = pos + n;
                },
                Err(e) => return Err(e),
            }
        }
        if len < 4 || pos > len - 4 {
            return Err(CodecError::TruncatedInput);
        }
        let authority: [u8; 4] = [buf[pos], buf[pos + 1], buf[pos + 2], buf[pos + 3]];
        assert(authority@ =~= buf@.subrange(pos as int, pos + 4));
        Ok(DnsMessage { header, question, answer, authority, additional_space: len - (pos + 4) })
    }

    /// Encodes the message into its 512-byte datagram.
    pub fn serialize(&self) -> (r: Result<bytes::Bytes, CodecError>)
        ensures
            match r {
                Ok(bytes) => spec_serialize(self@) == Ok::<Seq<u8>, CodecError>(bytes_view(bytes)),
                Err(e) => spec_serialize(self@) == Err::<Seq<u8>, CodecError>(e),
            },
    {
        match self.to_frame() {
            Ok(v) => Ok(bytes_from_vec(v)),
            Err(e) => Err(e),
        }
    }

    /// Decodes a received datagram.
    pub fn deserialize(s: &bytes::Bytes) -> (r: Result<DnsMessage, CodecError>)
        ensures
            match r {
                Ok(m) => spec_deserialize(bytes_view(*s)) == Ok::<MessageView, CodecError>(m@),
                Err(e) => spec_deserialize(bytes_view(*s)) == Err::<MessageView, CodecError>(e),
            },
    {
        Self::from_frame(bytes_as_slice(s))
    }
}

proof fn lemma_decoded_sections(b: Seq<u8>)
    requires
        spec_deserialize(b) is Ok,
    ensures
        16 <= b.len() - spec_deserialize(b)->Ok_0.additional_space <= b.len(),
        spec_sections(spec_deserialize(b)->Ok_0) == Ok::<Seq<u8>, CodecError>(
            b.take(b.len() - spec_deserialize(b)->Ok_0.additional_space),
        ),
{
    let m = spec_deserialize(b)->Ok_0;
    lemma_header_bytes_of_decoded(b.take(12));
    let (question, q_end) = spec_opt_question_at(b, 12)->Ok_0;
    let (answer, r_end) = spec_opt_record_at(b, q_end)->Ok_0;
    let end = r_end + 4;
    if question is Some {
        lemma_decoded_question_bytes(b, 12);
    } else {
        assert(b.subrange(12, q_end) =~= Seq::<u8>::empty());
    }
    assert(spec_opt_question_bytes(question) == Ok::<Seq<u8>, CodecError>(b.subrange(12, q_end)));
    if answer is Some {
        lemma_decoded_record_bytes(b, q_end);
    } else {
        assert(b.subrange(q_end, r_end) =~= Seq::<u8>::empty());
    }
    assert(spec_opt_record_bytes(answer) == Ok::<Seq<u8>, CodecError>(b.subrange(q_end, r_end)));
    assert(m.header.spec_bytes() + b.subrange(12, q_end) + b.subrange(q_end, r_end) + b.subrange(r_end, end)
        =~= b.take(end));
}

proof fn lemma_question_ignores_tail(b: Seq<u8>, b2: Seq<u8>, end: int)
    requires
        spec_opt_question_at(b, 12) is Ok,
        12 < end <= b.len(),
        spec_opt_question_at(b, 12)->Ok_0.1 <= end,
        b2.len() == b.len(),
        forall|i: int| 0 <= i < end ==> #[trigger] b2[i] == b[i],
    ensures
        spec_opt_question_at(b2, 12) == spec_opt_question_at(b, 12),
{
    let (question, q_end) = spec_opt_question_at(b, 12)->Ok_0;
    assert(b2[12] == b[12]);
    if question is Some {
        let q = question->Some_0;
        lemma_decoded_question_bytes(b, 12);
        assert(b2.subrange(12, q_end) =~= b.subrange(12, q_end));
        lemma_question_decodes_within(q, b2, 12);
    }
}

proof fn lemma_record_ignores_tail(b: Seq<u8>, b2: Seq<u8>, q_end: int, end: int)
    requires
        spec_opt_record_at(b, q_end) is Ok,
        12 <= q_end < end <= b.len(),
        spec_opt_record_at(b, q_end)->Ok_0.1 <= end,
        b2.len() == b.len(),
        forall|i: int| 0 <= i < end ==> #[trigger] b2[i] == b[i],
    ensures
        spec_opt_record_at(b2, q_end) == spec_opt_record_at(b, q_end),
{
    let (answer, r_end) = spec_opt_record_at(b, q_end)->Ok_0;
    assert(b2[q_end] == b[q_end]);
    if answer is Some {
        let r = answer->Some_0;
        lemma_decoded_record_bytes(b, q_end);
        assert(b2.subrange(q_end, r_end) =~= b.subrange(q_end, r_end));
        lemma_record_decodes_within(r, b2, q_end);
    }
}

proof fn lemma_decode_ignores_tail(b: Seq<u8>, b2: Seq<u8>)
    requires
        spec_deserialize(b) is Ok,
        b2.len() == b.len(),
        forall|i: int|
            0 <= i < b.len() - spec_deserialize(b)->Ok_0.additional_space ==> #[trigger] b2[i] == b[i],
    ensures
        spec_deserialize(b2) == spec_deserialize(b),
{
    let m = spec_deserialize(b)->Ok_0;
    let (question, q_end) = spec_opt_question_at(b, 12)->Ok_0;
    let (answer, r_end) = spec_opt_record_at(b, q_end)->Ok_0;
    let end = r_end + 4;
    lemma_decoded_sections(b);
    if question is Some {
        lemma_decoded_question_bytes(b, 12);
    }
    if answer is Some {
        lemma_decoded_record_bytes(b, q_end);
    }
    assert(end == b.len() - m.additional_space);
    assert(b2.take(12) =~= b.take(12));
    assert(b2.subrange(r_end, end) =~= b.subrange(r_end, end));
    lemma_question_ignores_tail(b, b2, end);
    lemma_record_ignores_tail(b, b2, q_end, end);
}

/// Serializing a message decoded from a 512-byte frame gives the frame's
/// sections back byte for byte, followed by zeros, and decoding that frame
/// gives the same message again.
pub proof fn lemma_reserialize_decoded(b: Seq<u8>)
    requires
        b.len() == 512,
        spec_deserialize(b) is Ok,
    ensures
        ({
            let m = spec_deserialize(b)->Ok_0;
            let end = 512 - m.additional_space;
            &&& spec_serialize(m) == Ok::<Seq<u8>, CodecError>(
                b.take(end) + Seq::new(m.additional_space, |i: int| 0u8),
            )
            &&& spec_deserialize(spec_serialize(m)->Ok_0) == Ok::<MessageView, CodecError>(m)
        }),
{
    let m = spec_deserialize(b)->Ok_0;
    let end = 512 - m.additional_space;
    let zeros = Seq::new(m.additional_space, |i: int| 0u8);
    lemma_decoded_sections(b);
    let s = b.take(end);
    assert(spec_sections(m) == Ok::<Seq<u8>, CodecError>(s));
    lemma_frame_pads(s);
    let b2 = s + zeros;
    assert(spec_serialize(m) == Ok::<Seq<u8>, CodecError>(b2));
    assert forall|i: int| 0 <= i < end implies #[trigger] b2[i] == b[i] by {}
    lemma_decode_ignores_tail(b, b2);
}

proof fn lemma_frame_pads(s: Seq<u8>)
    requires
        s.len() <= 512,
    ensures
        spec_frame(s) == s + Seq::new((512 - s.len()) as nat, |i: int| 0u8),
{
}

} // verus!
