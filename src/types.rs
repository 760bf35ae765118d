use vstd::prelude::*;
use crate::error::CodecError;

verus! {

/// Resource record types.
#[derive(Debug, Clone, Copy, PartialEq, Eq, Structural)]
pub enum Type {
    A,
    NS,
    CNAME,
    SOA,
    PTR,
    MX,
    TXT,
    AAAA,
    SRV,
    NAPTR,
    DS,
    RRSIG,
    DNSKEY,
    NSEC3,
    NSEC3PARAM,
    TLSA,
    CAA,
    ANY,
}

impl Type {
    /// The 16-bit wire code of a record type.
    pub open spec fn spec_code(self) -> u16 {
        match self {
            Type::A => 1,
            Type::NS => 2,
            Type::CNAME => 5,
            Type::SOA => 6,
            Type::PTR => 12,
            Type::MX => 15,
            Type::TXT => 16,
            Type::AAAA => 28,
            Type::SRV => 33,
            Type::NAPTR => 35,
            Type::DS => 43,
            Type::RRSIG => 46,
            Type::DNSKEY => 48,
            Type::NSEC3 => 50,
            Type::NSEC3PARAM => 51,
            Type::TLSA => 52,
            Type::CAA => 257,
            Type::ANY => 255,
        }
    }

    /// The record type whose wire code is `value`, if there is one.
    pub open spec fn spec_try_from(value: u16) -> Result<Type, CodecError> {
        if value == 1 { Ok(Type::A) }
        else if value == 2 { Ok(Type::NS) }
        else if value == 5 { Ok(Type::CNAME) }
        else if value == 6 { Ok(Type::SOA) }
        else if value == 12 { Ok(Type::PTR) }
        else if value == 15 { Ok(Type::MX) }
        else if value == 16 { Ok(Type::TXT) }
        else if value == 28 { Ok(Type::AAAA) }
        else if value == 33 { Ok(Type::SRV) }
        else if value == 35 { Ok(Type::NAPTR) }
        else if value == 43 { Ok(Type::DS) }
        else if value == 46 { Ok(Type::RRSIG) }
        else if value == 48 { Ok(Type::DNSKEY) }
        else if value == 50 { Ok(Type::NSEC3) }
        else if value == 51 { Ok(Type::NSEC3PARAM) }
        else if value == 52 { Ok(Type::TLSA) }
        else if value == 257 { Ok(Type::CAA) }
        else if value == 255 { Ok(Type::ANY) }
        else { Err(CodecError::UnknownCode) }
    }

    pub fn code(self) -> (r: u16)
        ensures
            r == self.spec_code(),
    {
        match self {
            Type::A => 1,
            Type::NS => 2,
            Type::CNAME => 5,
            Type::SOA => 6,
            Type::PTR => 12,
            Type::MX => 15,
            Type::TXT => 16,
            Type::AAAA => 28,
            Type::SRV => 33,
            Type::NAPTR => 35,
            Type::DS => 43,
            Type::RRSIG => 46,
            Type::DNSKEY => 48,
            Type::NSEC3 => 50,
            Type::NSEC3PARAM => 51,
            Type::TLSA => 52,
            Type::CAA => 257,
            Type::ANY => 255,
        }
    }

    /// Maps a wire code to its record type; an unknown code is an error,
    /// never a default.
    pub fn try_from(value: u16) -> (r: Result<Type, CodecError>)
        ensures
            r == Self::spec_try_from(value),
    {
        match value {
            1 => Ok(Type::A),
            2 => Ok(Type::NS),
            5 => Ok(Type::CNAME),
            6 => Ok(Type::SOA),
            12 => Ok(Type::PTR),
            15 => Ok(Type::MX),
            16 => Ok(Type::TXT),
            28 => Ok(Type::AAAA),
            33 => Ok(Type::SRV),
            35 => Ok(Type::NAPTR),
            43 => Ok(Type::DS),
            46 => Ok(Type::RRSIG),
            48 => Ok(Type::DNSKEY),
            50 => Ok(Type::NSEC3),
            51 => Ok(Type::NSEC3PARAM),
            52 => Ok(Type::TLSA),
            257 => Ok(Type::CAA),
            255 => Ok(Type::ANY),
            _ => Err(CodecError::UnknownCode),
        }
    }

    /// Decoding the wire code of a record type gives that type back.
    pub proof fn lemma_code_round_trip(t: Type)
        ensures
            Self::spec_try_from(t.spec_code()) == Ok::<Type, CodecError>(t),
    {
    }
}

/// Resource record classes.
#[derive(Debug, Clone, Copy, PartialEq, Eq, Structural)]
pub enum Class {
    IN,
    CS,
    CH,
    HS,
    ANY,
}

impl Class {
    /// The 16-bit wire code of a class.
    pub open spec fn spec_code(self) -> u16 {
        match self {
            Class::IN => 1,
            Class::CS => 2,
            Class::CH => 3,
            Class::HS => 4,
            Class::ANY => 255,
        }
    }

    /// The class whose wire code is `value`, if there is one.
    pub open spec fn spec_try_from(value: u16) -> Result<Class, CodecError> {
        if value == 1 { Ok(Class::IN) }
        else if value == 2 { Ok(Class::CS) }
        else if value == 3 { Ok(Class::CH) }
        else if value == 4 { Ok(Class::HS) }
        else if value == 255 { Ok(Class::ANY) }
        else { Err(CodecError::UnknownCode) }
    }

    pub fn code(self) -> (r: u16)
        ensures
            r == self.spec_code(),
    {
        match self {
            Class::IN => 1,
            Class::CS => 2,
            Class::CH => 3,
            Class::HS => 4,
            Class::ANY => 255,
        }
    }

    /// Maps a wire code to its class; an unknown code is an error.
    pub fn try_from(value: u16) -> (r: Result<Class, CodecError>)
        ensures
            r == Self::spec_try_from(value),
    {
        match value {
            1 => Ok(Class::IN),
            2 => Ok(Class::CS),
            3 => Ok(Class::CH),
            4 => Ok(Class::HS),
            255 => Ok(Class::ANY),
            _ => Err(CodecError::UnknownCode),
        }
    }

    /// Decoding the wire code of a class gives that class back.
    pub proof fn lemma_code_round_trip(c: Class)
        ensures
            Self::spec_try_from(c.spec_code()) == Ok::<Class, CodecError>(c),
    {
    }
}

} // verus!
