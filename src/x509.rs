use vstd::prelude::*;
use vstd::slice::slice_subrange;
use num::bigint::BigInt;
use simple_asn1::ASN1Block;
use crate::block::{
    lemma_parse_single, models, parse_blocks, parse_blocks_spec, tlv, Block, BlockModel,
    Class,
};
use crate::error::Asn1Error;
use crate::integer::{
    decode_integer, encode_integer, in_i64, lemma_integer_round_trip, lemma_minimal_len_i64,
    minimal_twos, twos_value,
};

verus! {

/// Relies on simple_asn1::to_der, which writes an INTEGER block as the octet 0x02,
/// one length octet for a length below 128 and then BigInt::to_signed_bytes_be of
/// the number; and on BigInt::from_signed_bytes_be, which reads minimal
/// two's-complement octets as the number they stand for, so that the content
/// comes back unchanged.
#[verifier::external_body]
fn integer_tlv(content: &Vec<u8>) -> (r: Vec<u8>)
    requires
        content@.len() < 128,
        content@ == minimal_twos(twos_value(content@)),
    ensures
        r@ == tlv(0x02, content@),
{
    let value = BigInt::from_signed_bytes_be(content);
    simple_asn1::to_der(&ASN1Block::Integer(0, value)).unwrap()
}

/// The DER octets of a single INTEGER holding `n`.
pub open spec fn integer_der(n: int) -> Seq<u8> {
    tlv(0x02, minimal_twos(n))
}

/// DER octets for a number that fits in 64 signed bits.
fn der_of_i64(n: i64) -> (r: Vec<u8>)
    ensures
        r@ == integer_der(n as int),
{
    let content = encode_integer(n);
    proof {
        lemma_integer_round_trip(n as int);
    }
    integer_tlv(&content)
}

/// The version of the certificate format.
#[derive(Debug, Clone, Copy, PartialEq, Eq, Structural)]
pub enum Version {
    V1,
    V2,
    V3,
}

/// The number that stands for a version on the wire.
pub open spec fn version_code(v: Version) -> int {
    match v {
        Version::V1 => 0,
        Version::V2 => 1,
        Version::V3 => 2,
    }
}

/// The version that a number stands for, if any.
pub open spec fn version_of_code(n: int) -> Option<Version> {
    if n == 0 {
        Some(Version::V1)
    } else if n == 1 {
        Some(Version::V2)
    } else if n == 2 {
        Some(Version::V3)
    } else {
        None
    }
}

/// The block that a version encodes to.
pub open spec fn version_block(v: Version) -> BlockModel {
    BlockModel::Integer(minimal_twos(version_code(v)))
}

/// The version that one block holds: the block must be an INTEGER (else
/// `UnsupportedEncoding`) with content (else `MalformedInteger`) standing for 0, 1
/// or 2 (else `UnsupportedVersion`).
pub open spec fn version_of_block(b: BlockModel) -> Result<Version, Asn1Error> {
    match b {
        BlockModel::Integer(c) => {
            if c.len() == 0 {
                Err(Asn1Error::MalformedInteger)
            } else {
                match version_of_code(twos_value(c)) {
                    Some(v) => Ok(v),
                    None => Err(Asn1Error::UnsupportedVersion),
                }
            }
        },
        _ => Err(Asn1Error::UnsupportedEncoding),
    }
}

/// Decoding a version from the front of a run of blocks: the version in the first
/// block and every block after it.
pub open spec fn decode_version_spec(bs: Seq<BlockModel>) -> Result<
    (Version, Seq<BlockModel>),
    Asn1Error,
>
    recommends
        bs.len() > 0,
{
    match version_of_block(bs[0]) {
        Ok(v) => Ok((v, bs.skip(1))),
        Err(e) => Err(e),
    }
}

/// The version in the first block of a DER byte stream.
pub open spec fn der_decode_version_spec(b: Seq<u8>) -> Result<Version, Asn1Error> {
    match parse_blocks_spec(b) {
        Some(bs) => if bs.len() == 0 {
            Err(Asn1Error::MalformedBlock)
        } else {
            version_of_block(bs[0])
        },
        None => Err(Asn1Error::MalformedBlock),
    }
}

impl Version {
    /// The blocks of this version: one INTEGER holding 0, 1 or 2. The class is
    /// not used: a version is always a universal INTEGER.
    pub fn to_asn1_class(&self, _c: Class) -> (r: Vec<Block>)
        ensures
            models(r@) == seq![version_block(*self)],
    {
        let n: i64 = match self {
            Version::V1 => 0,
            Version::V2 => 1,
            Version::V3 => 2,
        };
        let mut r: Vec<Block> = Vec::new();
        r.push(Block::Integer(encode_integer(n)));
        assert(models(r@) =~= seq![version_block(*self)]);
        r
    }

    /// Decodes the version in the first block and hands back the blocks after it.
    pub fn from_asn1(v: &[Block]) -> (r: Result<(Version, &[Block]), Asn1Error>)
        requires
            v@.len() >= 1,
        ensures
            match r {
                Ok((ver, tail)) => decode_version_spec(models(v@)) == Ok::<
                    (Version, Seq<BlockModel>),
                    Asn1Error,
                >((ver, models(tail@))) && tail@ == v@.skip(1),
                Err(e) => decode_version_spec(models(v@)) == Err::<
                    (Version, Seq<BlockModel>),
                    Asn1Error,
                >(e),
            },
    {
        let tail = slice_subrange(v, 1, v.len());
        assert(models(tail@) =~= models(v@).skip(1));
        match &v[0] {
            Block::Integer(c) => match decode_integer(c.as_slice()) {
                Ok(n) => {
                    if n == 0 {
                        Ok((Version::V1, tail))
                    } else if n == 1 {
                        Ok((Version::V2, tail))
                    } else if n == 2 {
                        Ok((Version::V3, tail))
                    } else {
                        Err(Asn1Error::UnsupportedVersion)
                    }
                },
                Err(Asn1Error::MalformedInteger) => Err(Asn1Error::MalformedInteger),
                Err(_) => Err(Asn1Error::UnsupportedVersion),
            },
            _ => Err(Asn1Error::UnsupportedEncoding),
        }
    }

    /// The DER octets of this version.
    pub fn der_encode(&self) -> (r: Vec<u8>)
        ensures
            r@ == integer_der(version_code(*self)),
    {
        let n: i64 = match self {
            Version::V1 => 0,
            Version::V2 => 1,
            Version::V3 => 2,
        };
        der_of_i64(n)
    }

    /// Decodes the version in the first block of a DER byte stream.
    pub fn der_decode(bytes: &[u8]) -> (r: Result<Version, Asn1Error>)
        ensures
            r == der_decode_version_spec(bytes@),
    {
        let blocks = parse_blocks(bytes)?;
        if blocks.len() == 0 {
            return Err(Asn1Error::MalformedBlock);
        }
        match Version::from_asn1(blocks.as_slice()) {
            Ok((ver, _)) => Ok(ver),
            Err(e) => Err(e),
        }
    }
}

/// A certificate serial number, within the 64-bit signed range.
#[derive(Debug, Clone, Copy, PartialEq, Eq, Structural)]
pub struct CertificateSerialNumber(pub i64);

/// The block that a serial number encodes to.
pub open spec fn serial_block(s: CertificateSerialNumber) -> BlockModel {
    BlockModel::Integer(minimal_twos(s.0 as int))
}

/// The serial number that one block holds: the block must be an INTEGER (else
/// `UnsupportedEncoding`) with content (else `MalformedInteger`) standing for a
/// number in the 64-bit signed range (else `SerialNumberOutOfRange`).
pub open spec fn serial_of_block(b: BlockModel) -> Result<CertificateSerialNumber, Asn1Error> {
    match b {
        BlockModel::Integer(c) => {
            if c.len() == 0 {
                Err(Asn1Error::MalformedInteger)
            } else if in_i64(twos_value(c)) {
                Ok(CertificateSerialNumber(twos_value(c) as i64))
            } else {
                Err(Asn1Error::SerialNumberOutOfRange)
            }
        },
        _ => Err(Asn1Error::UnsupportedEncoding),
    }
}

/// Decoding a serial number from the front of a run of blocks: the number in the
/// first block and every block after it.
pub open spec fn decode_serial_spec(bs: Seq<BlockModel>) -> Result<
    (CertificateSerialNumber, Seq<BlockModel>),
    Asn1Error,
>
    recommends
        bs.len() > 0,
{
    match serial_of_block(bs[0]) {
        Ok(s) => Ok((s, bs.skip(1))),
        Err(e) => Err(e),
    }
}

/// The serial number in the first block of a DER byte stream.
pub open spec fn der_decode_serial_spec(b: Seq<u8>) -> Result<CertificateSerialNumber, Asn1Error> {
    match parse_blocks_spec(b) {
        Some(bs) => if bs.len() == 0 {
            Err(Asn1Error::MalformedBlock)
        } else {
            serial_of_block(bs[0])
        },
        None => Err(Asn1Error::MalformedBlock),
    }
}

impl CertificateSerialNumber {
    /// The blocks of this serial number: one INTEGER. The class is not used: a
    /// serial number is always a universal INTEGER.
    pub fn to_asn1_class(&self, _c: Class) -> (r: Vec<Block>)
        ensures
            models(r@) == seq![serial_block(*self)],
    {
        let mut r: Vec<Block> = Vec::new();
        r.push(Block::Integer(encode_integer(self.0)));
        assert(models(r@) =~= seq![serial_block(*self)]);
        r
    }

    /// Decodes the serial number in the first block and hands back the blocks
    /// after it.
    pub fn from_asn1(v: &[Block]) -> (r: Result<(CertificateSerialNumber, &[Block]), Asn1Error>)
        requires
            v@.len() >= 1,
        ensures
            match r {
                Ok((s, tail)) => decode_serial_spec(models(v@)) == Ok::<
                    (CertificateSerialNumber, Seq<BlockModel>),
                    Asn1Error,
                >((s, models(tail@))) && tail@ == v@.skip(1),
                Err(e) => decode_serial_spec(models(v@)) == Err::<
                    (CertificateSerialNumber, Seq<BlockModel>),
                    Asn1Error,
                >(e),
            },
    {
        let tail = slice_subrange(v, 1, v.len());
        assert(models(tail@) =~= models(v@).skip(1));
        match &v[0] {
            Block::Integer(c) => match decode_integer(c.as_slice()) {
                Ok(n) => Ok((CertificateSerialNumber(n), tail)),
                Err(e) => Err(e),
            },
            _ => Err(Asn1Error::UnsupportedEncoding),
        }
    }

    /// The DER octets of this serial number.
    pub fn der_encode(&self) -> (r: Vec<u8>)
        ensures
            r@ == integer_der(self.0 as int),
    {
        der_of_i64(self.0)
    }

    /// Decodes the serial number in the first block of a DER byte stream.
    pub fn der_decode(bytes: &[u8]) -> (r: Result<CertificateSerialNumber, Asn1Error>)
        ensures
            r == der_decode_serial_spec(bytes@),
    {
        let blocks = parse_blocks(bytes)?;
        if blocks.len() == 0 {
            return Err(Asn1Error::MalformedBlock);
        }
        match CertificateSerialNumber::from_asn1(blocks.as_slice()) {
            Ok((s, _)) => Ok(s),
            Err(e) => Err(e),
        }
    }
}

/// Decoding a run of blocks whose first block is the encoding of `v` gives `v`
/// and exactly the blocks that follow it.
pub proof fn lemma_version_decode_prefix(v: Version, rest: Seq<BlockModel>)
    ensures
        decode_version_spec(seq![version_block(v)] + rest) == Ok::<
            (Version, Seq<BlockModel>),
            Asn1Error,
        >((v, rest)),
{
    lemma_integer_round_trip(version_code(v));
    assert((seq![version_block(v)] + rest).skip(1) =~= rest);
}

/// Every version decodes back from its own encoding, with nothing left over:
/// from its block, and from its DER octets.
pub proof fn lemma_version_round_trip(v: Version)
    ensures
        decode_version_spec(seq![version_block(v)]) == Ok::<
            (Version, Seq<BlockModel>),
            Asn1Error,
        >((v, Seq::empty())),
        der_decode_version_spec(integer_der(version_code(v))) == Ok::<Version, Asn1Error>(v),
{
    lemma_version_decode_prefix(v, Seq::empty());
    assert(seq![version_block(v)] + Seq::<BlockModel>::empty() =~= seq![version_block(v)]);
    lemma_minimal_len_i64(version_code(v));
    lemma_parse_single(0x02, minimal_twos(version_code(v)));
}

/// Decoding a run of blocks whose first block is the encoding of `s` gives `s`
/// and exactly the blocks that follow it.
pub proof fn lemma_serial_decode_prefix(s: CertificateSerialNumber, rest: Seq<BlockModel>)
    ensures
        decode_serial_spec(seq![serial_block(s)] + rest) == Ok::<
            (CertificateSerialNumber, Seq<BlockModel>),
            Asn1Error,
        >((s, rest)),
{
    lemma_integer_round_trip(s.0 as int);
    assert((seq![serial_block(s)] + rest).skip(1) =~= rest);
}

/// Every serial number decodes back from its own encoding, with nothing left
/// over: from its block, and from its DER octets.
pub proof fn lemma_serial_round_trip(s: CertificateSerialNumber)
    ensures
        decode_serial_spec(seq![serial_block(s)]) == Ok::<
            (CertificateSerialNumber, Seq<BlockModel>),
            Asn1Error,
        >((s, Seq::empty())),
        der_decode_serial_spec(integer_der(s.0 as int)) == Ok::<CertificateSerialNumber, Asn1Error>(
            s,
        ),
{
    lemma_serial_decode_prefix(s, Seq::empty());
    assert(seq![serial_block(s)] + Seq::<BlockModel>::empty() =~= seq![serial_block(s)]);
    lemma_minimal_len_i64(s.0 as int);
    lemma_parse_single(0x02, minimal_twos(s.0 as int));
}

} // verus!
