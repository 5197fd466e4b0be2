//! The codecs of the content-addressed store and their numbers.

use vstd::prelude::*;

verus! {

/// The different codecs supported by the IPLD store.
#[derive(Debug, Clone, PartialEq, Eq, Structural, Hash)]
pub enum Codec {
    /// Raw bytes.
    Raw,
    /// DAG-CBOR codec.
    DagCbor,
    /// DAG-JSON codec.
    DagJson,
    /// DAG-PB codec.
    DagPb,
    /// Unknown codec.
    Unknown(u64),
}

/// The multicodec number of a codec.
pub open spec fn codec_code(c: Codec) -> u64 {
    match c {
        Codec::Raw => 0x55,
        Codec::DagCbor => 0x71,
        Codec::DagJson => 0x0129,
        Codec::DagPb => 0x70,
        Codec::Unknown(v) => v,
    }
}

/// The codec with a multicodec number: a known codec for its number, `Unknown` otherwise.
pub open spec fn codec_of(v: u64) -> Codec {
    if v == 0x55 {
        Codec::Raw
    } else if v == 0x71 {
        Codec::DagCbor
    } else if v == 0x0129 {
        Codec::DagJson
    } else if v == 0x70 {
        Codec::DagPb
    } else {
        Codec::Unknown(v)
    }
}

impl Codec {
    /// The codec with the given multicodec number; every number gives one.
    pub fn try_from_u64(value: u64) -> (r: Result<Codec, ()>)
        ensures
            r == Result::<Codec, ()>::Ok(codec_of(value)),
    {
        Ok(if value == 0x55 {
            Codec::Raw
        } else if value == 0x71 {
            Codec::DagCbor
        } else if value == 0x0129 {
            Codec::DagJson
        } else if value == 0x70 {
            Codec::DagPb
        } else {
            Codec::Unknown(value)
        })
    }

    /// The multicodec number of the codec.
    pub fn to_u64(&self) -> (v: u64)
        ensures
            v == codec_code(*self),
    {
        match self {
            Codec::Raw => 0x55,
            Codec::DagCbor => 0x71,
            Codec::DagJson => 0x0129,
            Codec::DagPb => 0x70,
            Codec::Unknown(value) => *value,
        }
    }
}

/// A number read as a codec gives the number back; a codec gives itself back from its number
/// unless it is an `Unknown` that carries the number of a known codec.
pub proof fn law_codec_roundtrip(v: u64, c: Codec)
    ensures
        codec_code(codec_of(v)) == v,
        !(c matches Codec::Unknown(u) && (u == 0x55 || u == 0x71 || u == 0x0129 || u == 0x70)) ==> codec_of(
            codec_code(c),
        ) == c,
{
}

} // verus!
