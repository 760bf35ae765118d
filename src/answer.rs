use vstd::prelude::*;
use crate::error::CodecError;
use crate::name::spec_decode_name_at;
use crate::record::{spec_record_bytes, RecordView, RR};
use crate::types::{Class, Type};

verus! {

/// The answer section of a message.
#[derive(Debug)]
pub struct DnsAnswer {
    pub rrs: Vec<RR>,
}

impl DnsAnswer {
    /// An answer that holds the record `RR::new()`.
    pub fn new() -> (r: DnsAnswer)
        ensures
            r.rrs@.len() == 1,
            r.rrs@[0]@ == RR::new_spec(),
    {
        DnsAnswer { rrs: vec![RR::new()] }
    }

    /// The encoding of the first record; no bytes when there is none.
    pub fn to_bytes(&self) -> (r: Result<Vec<u8>, CodecError>)
        ensures
            self.rrs@.len() == 0 ==> (r matches Ok(bytes) && bytes@.len() == 0),
            self.rrs@.len() > 0 ==> match r {
                Ok(bytes) => spec_record_bytes(self.rrs@[0]@) == Ok::<Seq<u8>, CodecError>(bytes@),
                Err(e) => spec_record_bytes(self.rrs@[0]@) == Err::<Seq<u8>, CodecError>(e),
            },
    {
        if self.rrs.len() == 0 {
            Ok(Vec::new())
        } else {
            self.rrs[0].to_bytes()
        }
    }
}

/// Builds an answer with one A record for the name that starts `buf`: class
/// IN, TTL 60, address 127.0.0.1. Fails as decoding that name fails.
pub fn build_answer(buf: &[u8]) -> (r: Result<DnsAnswer, CodecError>)
    ensures
        match r {
            Ok(answer) => spec_decode_name_at(buf@, 0) is Ok && answer.rrs@.len() == 1
                && answer.rrs@[0]@ == (RecordView {
                name: spec_decode_name_at(buf@, 0)->Ok_0.0,
                atype: Type::A,
                aclass: Class::IN,
                ttl: 60,
                rdlength: 4,
                rdata: seq![127u8, 0, 0, 1],
            }),
            Err(e) => spec_decode_name_at(buf@, 0) == Err::<(Seq<Seq<u8>>, int), CodecError>(e),
        },
{
    let mut rr = RR::new();
    match rr.set_name(buf) {
        Ok(()) => {},
        Err(e) => return Err(e),
    }
    rr.set_type(Type::A);
    rr.set_class(Class::IN);
    rr.set_ttl(60);
    rr.set_rdlength(4);
    let rdata: Vec<u8> = vec![127, 0, 0, 1];
    assert(rdata@ =~= seq![127u8, 0, 0, 1]);
    rr.set_rdata(rdata);
    Ok(DnsAnswer { rrs: vec![rr] })
}

} // verus!
