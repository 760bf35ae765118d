use vstd::prelude::*;
use crate::error::CodecError;
use crate::wire::{copy_range, push_all};

verus! {

/// The longest label that a name may hold.
pub const MAX_LABEL_LEN: usize = 63;

/// The labels of a name, as sequences of bytes.
pub open spec fn labels_view(labels: Seq<Vec<u8>>) -> Seq<Seq<u8>> {
    labels.map_values(|l: Vec<u8>| l@)
}

/// No label is longer than 63 bytes.
pub open spec fn labels_fit(labels: Seq<Seq<u8>>) -> bool {
    forall|i: int| 0 <= i < labels.len() ==> #[trigger] labels[i].len() <= 63
}

/// Every label holds 1 to 63 bytes.
pub open spec fn labels_valid(labels: Seq<Seq<u8>>) -> bool {
    forall|i: int| 0 <= i < labels.len() ==> 1 <= #[trigger] labels[i].len() <= 63
}

/// Each label preceded by its length byte, without the terminator.
pub open spec fn spec_labels_bytes(labels: Seq<Seq<u8>>) -> Seq<u8>
    decreases labels.len(),
{
    if labels.len() == 0 {
        Seq::empty()
    } else {
        seq![#[verifier::truncate] (labels[0].len() as u8)] + labels[0] + spec_labels_bytes(labels.drop_first())
    }
}

/// The wire form of a name: its length-prefixed labels, then a zero byte.
pub open spec fn spec_encode_name(labels: Seq<Seq<u8>>) -> Seq<u8> {
    spec_labels_bytes(labels) + seq![0u8]
}

/// The labels read from `pos` on: each nonzero length byte is followed by
/// that many label bytes, up to a zero length byte, with the position just
/// after it. A buffer that ends before that zero byte is `TruncatedInput`,
/// whatever the length bytes are.
pub open spec fn spec_walk_name_at(b: Seq<u8>, pos: int) -> Result<(Seq<Seq<u8>>, int), CodecError>
    decreases b.len() - pos,
{
    if pos < 0 || pos >= b.len() {
        Err(CodecError::TruncatedInput)
    } else if b[pos] == 0 {
        Ok((Seq::empty(), pos + 1))
    } else if pos + 1 + b[pos] > b.len() {
        Err(CodecError::TruncatedInput)
    } else {
        let end = pos + 1 + b[pos];
        match spec_walk_name_at(b, end) {
            Ok((rest, next)) => Ok((seq![b.subrange(pos + 1, end)] + rest, next)),
            Err(e) => Err(e),
        }
    }
}

/// The name that starts at `pos` in `b`, with the position just after its
/// terminating zero byte. A buffer that ends before the terminator is
/// `TruncatedInput`; a complete name with a label longer than 63 bytes is
/// `LabelTooLong`.
pub open spec fn spec_decode_name_at(b: Seq<u8>, pos: int) -> Result<(Seq<Seq<u8>>, int), CodecError> {
    match spec_walk_name_at(b, pos) {
        Ok((labels, next)) => if labels_fit(labels) {
            Ok((labels, next))
        } else {
            Err(CodecError::LabelTooLong)
        },
        Err(e) => Err(e),
    }
}

/// Puts `first` in front of the labels of a decoding result.
pub open spec fn prepend_labels(
    first: Seq<Seq<u8>>,
    r: Result<(Seq<Seq<u8>>, int), CodecError>,
) -> Result<(Seq<Seq<u8>>, int), CodecError> {
    match r {
        Ok((rest, next)) => Ok((first + rest, next)),
        Err(e) => Err(e),
    }
}

proof fn lemma_labels_bytes_push(labels: Seq<Seq<u8>>, l: Seq<u8>)
    ensures
        spec_labels_bytes(labels.push(l)) == spec_labels_bytes(labels) + seq![#[verifier::truncate] (l.len() as u8)] + l,
    decreases labels.len(),
{
    if labels.len() == 0 {
        assert(labels.push(l).drop_first() =~= Seq::<Seq<u8>>::empty());
        assert(spec_labels_bytes(labels.push(l).drop_first()) == Seq::<u8>::empty());
        assert(spec_labels_bytes(labels.push(l)) =~= seq![#[verifier::truncate] (l.len() as u8)] + l);
    } else {
        assert(labels.push(l).drop_first() =~= labels.drop_first().push(l));
        lemma_labels_bytes_push(labels.drop_first(), l);
        assert(spec_labels_bytes(labels.push(l)) =~= spec_labels_bytes(labels) + seq![#[verifier::truncate] (l.len() as u8)]
            + l);
    }
}

/// Encodes a name as length-prefixed labels and a terminating zero byte.
/// Fails with `LabelTooLong` when a label is longer than 63 bytes.
pub fn encode_name(labels: &Vec<Vec<u8>>) -> (r: Result<Vec<u8>, CodecError>)
    ensures
        match r {
            Ok(bytes) => labels_fit(labels_view(labels@)) && bytes@ == spec_encode_name(
                labels_view(labels@),
            ),
            Err(e) => !labels_fit(labels_view(labels@)) && e == CodecError::LabelTooLong,
        },
{
    let ghost lv = labels_view(labels@);
    let mut out: Vec<u8> = Vec::new();
    let mut i: usize = 0;
    while i < labels.len()
        invariant
            0 <= i <= labels@.len(),
            lv == labels_view(labels@),
            labels_fit(lv.take(i as int)),
            out@ == spec_labels_bytes(lv.take(i as int)),
        decreases labels@.len() - i,
    {
        let label = &labels[i];
        if label.len() > MAX_LABEL_LEN {
            assert(lv[i as int].len() > 63);
            return Err(CodecError::LabelTooLong);
        }
        out.push(label.len() as u8);
        push_all(&mut out, label.as_slice());
        proof {
            assert(lv.take(i + 1) =~= lv.take(i as int).push(lv[i as int]));
            lemma_labels_bytes_push(lv.take(i as int), lv[i as int]);
        }
        i = i + 1;
    }
    out.push(0u8);
    assert(lv.take(i as int) =~= lv);
    Ok(out)
}

/// Decodes the name that starts at `offset`, with the number of bytes it
/// takes, terminator included.
pub fn decode_name(buf: &[u8], offset: usize) -> (r: Result<(Vec<Vec<u8>>, usize), CodecError>)
    ensures
        match r {
            Ok((labels, consumed)) => spec_decode_name_at(buf@, offset as int) == Ok::<
                (Seq<Seq<u8>>, int),
                CodecError,
            >((labels_view(labels@), offset + consumed)) && offset + consumed <= buf@.len(),
            Err(e) => spec_decode_name_at(buf@, offset as int) == Err::<
                (Seq<Seq<u8>>, int),
                CodecError,
            >(e),
        },
{
    let ghost b = buf@;
    let mut labels: Vec<Vec<u8>> = Vec::new();
    let mut too_long = false;
    let mut pos: usize = offset;
    loop
        invariant
            offset <= pos,
            b == buf@,
            too_long == !labels_fit(labels_view(labels@)),
            spec_walk_name_at(b, offset as int) == prepend_labels(
                labels_view(labels@),
                spec_walk_name_at(b, pos as int),
            ),
        decreases buf@.len() - pos,
    {
        if pos >= buf.len() {
            return Err(CodecError::TruncatedInput);
        }
        let n = buf[pos];
        if n == 0 {
            assert(labels_view(labels@) + Seq::<Seq<u8>>::empty() =~= labels_view(labels@));
            if too_long {
                return Err(CodecError::LabelTooLong);
            }
            return Ok((labels, pos + 1 - offset));
        }
        if n as usize > buf.len() - pos - 1 {
            return Err(CodecError::TruncatedInput);
        }
        let end = pos + 1 + n as usize;
        let label = copy_range(buf, pos + 1, end);
        let ghost before = labels_view(labels@);
        if n as usize > MAX_LABEL_LEN {
            too_long = true;
        }
        labels.push(label);
        proof {
            assert(labels_view(labels@) =~= before + seq![label@]);
            let after = labels_view(labels@);
            assert(after[before.len() as int] == label@);
            assert(label@.len() == n as int);
            if !too_long {
                assert forall|i: int| 0 <= i < after.len() implies #[trigger] after[i].len() <= 63 by {
                    if i < before.len() {
                        assert(after[i] == before[i]);
                    }
                }
            } else if n as usize > MAX_LABEL_LEN {
                assert(after[before.len() as int] == label@);
            } else {
                let k = choose|k: int| 0 <= k < before.len() && !(#[trigger] before[k].len() <= 63);
                assert(after[k] == before[k]);
            }
            match spec_walk_name_at(b, end as int) {
                Ok((rest, next)) => {
                    assert(before + (seq![label@] + rest) =~= (before + seq![label@]) + rest);
                },
                Err(e) => {},
            }
        }
        pos = end;
    }
}

proof fn lemma_labels_bytes_append(a: Seq<Seq<u8>>, b: Seq<Seq<u8>>)
    ensures
        spec_labels_bytes(a + b) == spec_labels_bytes(a) + spec_labels_bytes(b),
    decreases a.len(),
{
    if a.len() == 0 {
        assert(a + b =~= b);
        assert(spec_labels_bytes(a) + spec_labels_bytes(b) =~= spec_labels_bytes(b));
    } else {
        assert((a + b).drop_first() =~= a.drop_first() + b);
        lemma_labels_bytes_append(a.drop_first(), b);
        assert(spec_labels_bytes(a + b) =~= spec_labels_bytes(a) + spec_labels_bytes(b));
    }
}

/// The number of bytes that the wire form of a name takes.
pub fn encoded_name_len(labels: &Vec<Vec<u8>>) -> (r: usize)
    requires
        spec_encode_name(labels_view(labels@)).len() <= usize::MAX,
    ensures
        r == spec_encode_name(labels_view(labels@)).len(),
{
    let ghost lv = labels_view(labels@);
    let mut total: usize = 1;
    let mut i: usize = 0;
    while i < labels.len()
        invariant
            0 <= i <= labels@.len(),
            lv == labels_view(labels@),
            spec_encode_name(lv).len() <= usize::MAX,
            total == spec_labels_bytes(lv.take(i as int)).len() + 1,
        decreases labels@.len() - i,
    {
        proof {
            assert(lv =~= lv.take(i as int) + lv.skip(i as int));
            lemma_labels_bytes_append(lv.take(i as int), lv.skip(i as int));
            assert(lv.skip(i as int)[0] == lv[i as int]);
            assert(lv.take(i + 1) =~= lv.take(i as int).push(lv[i as int]));
            lemma_labels_bytes_push(lv.take(i as int), lv[i as int]);
        }
        total = total + 1 + labels[i].len();
        i = i + 1;
    }
    assert(lv.take(i as int) =~= lv);
    total
}

proof fn lemma_name_walks_within(labels: Seq<Seq<u8>>, b: Seq<u8>, pos: int)
    requires
        labels_valid(labels),
        0 <= pos,
        pos + spec_encode_name(labels).len() <= b.len(),
        b.subrange(pos, pos + spec_encode_name(labels).len()) == spec_encode_name(labels),
    ensures
        spec_walk_name_at(b, pos) == Ok::<(Seq<Seq<u8>>, int), CodecError>(
            (labels, pos + spec_encode_name(labels).len()),
        ),
    decreases labels.len(),
{
    let enc = spec_encode_name(labels);
    assert(b[pos] == b.subrange(pos, pos + enc.len())[0]);
    if labels.len() == 0 {
        assert(enc =~= seq![0u8]);
        assert(b[pos] == 0);
        assert(labels =~= Seq::<Seq<u8>>::empty());
    } else {
        let l = labels[0];
        let rest = labels.drop_first();
        let n = l.len();
        let renc = spec_encode_name(rest);
        assert(enc =~= seq![n as u8] + l + renc);
        assert(b.subrange(pos + 1, pos + 1 + n) =~= l) by {
            assert forall|j: int| 0 <= j < n implies b.subrange(pos + 1, pos + 1 + n)[j] == l[j] by {
                assert(b.subrange(pos, pos + enc.len())[1 + j] == enc[1 + j]);
            }
        }
        assert(b.subrange(pos + 1 + n, pos + 1 + n + renc.len()) =~= renc) by {
            assert forall|j: int| 0 <= j < renc.len() implies b.subrange(
                pos + 1 + n,
                pos + 1 + n + renc.len(),
            )[j] == renc[j] by {
                assert(b.subrange(pos, pos + enc.len())[1 + n + j] == enc[1 + n + j]);
            }
        }
        assert(labels_valid(rest)) by {
            assert forall|i: int| 0 <= i < rest.len() implies 1 <= #[trigger] rest[i].len() <= 63 by {
                assert(rest[i] == labels[i + 1]);
            }
        }
        lemma_name_walks_within(rest, b, pos + 1 + n);
        assert(1 <= n <= 63);
        assert(b[pos] == enc[0]);
        assert(b[pos] as int == n);
        assert(enc.len() == 1 + n + renc.len());
        assert(seq![l] + rest =~= labels);
    }
}

/// A name whose labels each hold 1 to 63 bytes decodes back from its wire
/// form wherever that form stands in a buffer, ending just after it.
pub proof fn lemma_name_decodes_within(labels: Seq<Seq<u8>>, b: Seq<u8>, pos: int)
    requires
        labels_valid(labels),
        0 <= pos,
        pos + spec_encode_name(labels).len() <= b.len(),
        b.subrange(pos, pos + spec_encode_name(labels).len()) == spec_encode_name(labels),
    ensures
        spec_decode_name_at(b, pos) == Ok::<(Seq<Seq<u8>>, int), CodecError>(
            (labels, pos + spec_encode_name(labels).len()),
        ),
{
    lemma_name_walks_within(labels, b, pos);
}

/// A name whose labels each hold 1 to 63 bytes decodes back from its wire
/// form, and the decoder takes all of that form.
pub proof fn lemma_name_round_trip(labels: Seq<Seq<u8>>)
    requires
        labels_valid(labels),
    ensures
        spec_decode_name_at(spec_encode_name(labels), 0) == Ok::<(Seq<Seq<u8>>, int), CodecError>(
            (labels, spec_encode_name(labels).len() as int),
        ),
{
    let enc = spec_encode_name(labels);
    assert(enc.subrange(0, enc.len() as int) =~= enc);
    lemma_name_decodes_within(labels, enc, 0);
}

proof fn lemma_walked_name_bytes(b: Seq<u8>, pos: int)
    requires
        spec_walk_name_at(b, pos) is Ok,
    ensures
        forall|i: int|
            0 <= i < spec_walk_name_at(b, pos)->Ok_0.0.len() ==> 1 <= #[trigger] spec_walk_name_at(
                b,
                pos,
            )->Ok_0.0[i].len() <= 255,
        pos < spec_walk_name_at(b, pos)->Ok_0.1 <= b.len(),
        b.subrange(pos, spec_walk_name_at(b, pos)->Ok_0.1) == spec_encode_name(
            spec_walk_name_at(b, pos)->Ok_0.0,
        ),
    decreases b.len() - pos,
{
    let (l, end) = spec_walk_name_at(b, pos)->Ok_0;
    if b[pos] == 0 {
        assert(b.subrange(pos, end) =~= spec_encode_name(l));
    } else {
        let n = b[pos] as int;
        let end1 = pos + 1 + n;
        lemma_walked_name_bytes(b, end1);
        let rest = spec_walk_name_at(b, end1)->Ok_0.0;
        let sub = b.subrange(pos + 1, end1);
        assert(l == seq![sub] + rest);
        assert(l.drop_first() =~= rest);
        assert(l[0] == sub);
        assert(spec_encode_name(l) =~= seq![n as u8] + sub + spec_encode_name(rest));
        assert(b.subrange(pos, end) =~= seq![b[pos]] + sub + b.subrange(end1, end));
        assert forall|i: int| 0 <= i < l.len() implies 1 <= #[trigger] l[i].len() <= 255 by {
            if i > 0 {
                assert(l[i] == rest[i - 1]);
            }
        }
    }
}

/// What the decoder reads as a name is a valid name, and the bytes it took
/// are exactly that name's wire form.
pub proof fn lemma_decoded_name_bytes(b: Seq<u8>, pos: int)
    requires
        spec_decode_name_at(b, pos) is Ok,
    ensures
        labels_valid(spec_decode_name_at(b, pos)->Ok_0.0),
        pos < spec_decode_name_at(b, pos)->Ok_0.1 <= b.len(),
        b.subrange(pos, spec_decode_name_at(b, pos)->Ok_0.1) == spec_encode_name(
            spec_decode_name_at(b, pos)->Ok_0.0,
        ),
{
    lemma_walked_name_bytes(b, pos);
    let l = spec_decode_name_at(b, pos)->Ok_0.0;
    assert forall|i: int| 0 <= i < l.len() implies 1 <= #[trigger] l[i].len() <= 63 by {
        assert(l[i].len() <= 63);
    }
}

proof fn lemma_walk_fails_truncated(b: Seq<u8>, pos: int)
    requires
        spec_walk_name_at(b, pos) is Err,
    ensures
        spec_walk_name_at(b, pos) == Err::<(Seq<Seq<u8>>, int), CodecError>(
            CodecError::TruncatedInput,
        ),
    decreases b.len() - pos,
{
    if 0 <= pos < b.len() && b[pos] != 0 && pos + 1 + b[pos] <= b.len() {
        lemma_walk_fails_truncated(b, pos + 1 + b[pos]);
    }
}

/// When reading length bytes and labels from `pos` runs past the end of the
/// buffer before a zero length byte, decoding fails with `TruncatedInput`,
/// whatever the length bytes are.
pub proof fn lemma_incomplete_name_truncated(b: Seq<u8>, pos: int)
    requires
        spec_walk_name_at(b, pos) is Err,
    ensures
        spec_decode_name_at(b, pos) == Err::<(Seq<Seq<u8>>, int), CodecError>(
            CodecError::TruncatedInput,
        ),
{
    lemma_walk_fails_truncated(b, pos);
}

proof fn lemma_walk_without_zero(b: Seq<u8>, pos: int)
    requires
        0 <= pos,
        forall|i: int| pos <= i < b.len() ==> b[i] != 0,
    ensures
        spec_walk_name_at(b, pos) is Err,
    decreases b.len() - pos,
{
    if pos < b.len() && pos + 1 + b[pos] <= b.len() {
        lemma_walk_without_zero(b, pos + 1 + b[pos]);
    }
}

/// A buffer in which no byte from `pos` on is zero holds no complete name:
/// decoding fails with `TruncatedInput`.
pub proof fn lemma_unterminated_name(b: Seq<u8>, pos: int)
    requires
        0 <= pos,
        forall|i: int| pos <= i < b.len() ==> b[i] != 0,
    ensures
        spec_decode_name_at(b, pos) == Err::<(Seq<Seq<u8>>, int), CodecError>(
            CodecError::TruncatedInput,
        ),
{
    lemma_walk_without_zero(b, pos);
    lemma_incomplete_name_truncated(b, pos);
}

} // verus!
