//! The feature flags of a header: twelve independent bits of one `u64` mask.
use vstd::prelude::*;

verus! {

/// One feature of a datum; each flag is a distinct power of two.
#[derive(Copy, Clone, Debug, PartialEq, Eq, Structural)]
pub enum DatumFlag {
    DatumInvalid,
    DatumDraft,
    DatumEmpty,
    DatumChecksum,
    DatumOPC,
    DatumCompressed,
    DatumEncrypted,
    DatumExtractable,
    DatumSigned,
    DatumStreamable,
    DatumCustom,
    DatumCompromised,
}

impl DatumFlag {
    /// The position of the flag's bit in the mask.
    pub open spec fn spec_index(self) -> nat {
        match self {
            DatumFlag::DatumInvalid => 0,
            DatumFlag::DatumDraft => 1,
            DatumFlag::DatumEmpty => 2,
            DatumFlag::DatumChecksum => 3,
            DatumFlag::DatumOPC => 4,
            DatumFlag::DatumCompressed => 5,
            DatumFlag::DatumEncrypted => 6,
            DatumFlag::DatumExtractable => 7,
            DatumFlag::DatumSigned => 8,
            DatumFlag::DatumStreamable => 9,
            DatumFlag::DatumCustom => 10,
            DatumFlag::DatumCompromised => 11,
        }
    }

    /// The flag's value as a mask: `2` to the power of its index.
    pub open spec fn spec_bit(self) -> u64 {
        match self {
            DatumFlag::DatumInvalid => 1,
            DatumFlag::DatumDraft => 2,
            DatumFlag::DatumEmpty => 4,
            DatumFlag::DatumChecksum => 8,
            DatumFlag::DatumOPC => 16,
            DatumFlag::DatumCompressed => 32,
            DatumFlag::DatumEncrypted => 64,
            DatumFlag::DatumExtractable => 128,
            DatumFlag::DatumSigned => 256,
            DatumFlag::DatumStreamable => 512,
            DatumFlag::DatumCustom => 1024,
            DatumFlag::DatumCompromised => 2048,
        }
    }

    /// The flag's bit as a mask.
    pub fn bit(self) -> (r: u64)
        ensures
            r == self.spec_bit(),
            r == vstd::arithmetic::power2::pow2(self.spec_index()),
    {
        proof {
            vstd::arithmetic::power2::lemma2_to64();
        }
        match self {
            DatumFlag::DatumInvalid => 1,
            DatumFlag::DatumDraft => 2,
            DatumFlag::DatumEmpty => 4,
            DatumFlag::DatumChecksum => 8,
            DatumFlag::DatumOPC => 16,
            DatumFlag::DatumCompressed => 32,
            DatumFlag::DatumEncrypted => 64,
            DatumFlag::DatumExtractable => 128,
            DatumFlag::DatumSigned => 256,
            DatumFlag::DatumStreamable => 512,
            DatumFlag::DatumCustom => 1024,
            DatumFlag::DatumCompromised => 2048,
        }
    }

    /// The flag whose mask is exactly `value`, if there is one.
    pub fn from_bit(value: u64) -> (r: Option<DatumFlag>)
        ensures
            forall|f: DatumFlag| r == Some(f) <==> #[trigger] f.spec_bit() == value,
    {
        let r = match value {
            1 => Some(DatumFlag::DatumInvalid),
            2 => Some(DatumFlag::DatumDraft),
            4 => Some(DatumFlag::DatumEmpty),
            8 => Some(DatumFlag::DatumChecksum),
            16 => Some(DatumFlag::DatumOPC),
            32 => Some(DatumFlag::DatumCompressed),
            64 => Some(DatumFlag::DatumEncrypted),
            128 => Some(DatumFlag::DatumExtractable),
            256 => Some(DatumFlag::DatumSigned),
            512 => Some(DatumFlag::DatumStreamable),
            1024 => Some(DatumFlag::DatumCustom),
            2048 => Some(DatumFlag::DatumCompromised),
            _ => None,
        };
        assert forall|f: DatumFlag| r == Some(f) <==> #[trigger] f.spec_bit() == value by {
            match f {
                DatumFlag::DatumInvalid => {},
                DatumFlag::DatumDraft => {},
                DatumFlag::DatumEmpty => {},
                DatumFlag::DatumChecksum => {},
                DatumFlag::DatumOPC => {},
                DatumFlag::DatumCompressed => {},
                DatumFlag::DatumEncrypted => {},
                DatumFlag::DatumExtractable => {},
                DatumFlag::DatumSigned => {},
                DatumFlag::DatumStreamable => {},
                DatumFlag::DatumCustom => {},
                DatumFlag::DatumCompromised => {},
            }
        }
        r
    }
}

/// Whether `flag` is set in `mask`.
pub open spec fn spec_flag_is_set(mask: u64, flag: DatumFlag) -> bool {
    mask & flag.spec_bit() != 0
}

/// Whether `flag` is set in `mask`.
pub fn flag_is_set(mask: u64, flag: DatumFlag) -> (r: bool)
    ensures
        r == spec_flag_is_set(mask, flag),
{
    mask & flag.bit() != 0
}

} // verus!
