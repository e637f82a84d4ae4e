//! Colour description enumerations of the sequence header.
use vstd::prelude::*;

use crate::error::ParseError;

verus! {

/// Colour primaries of the video.
#[derive(Debug, Clone, Copy, PartialEq, Eq, Structural)]
pub enum ColorPrimaries {
    Bt709,
    Unspecified,
    Bt470m,
    Bt470bg,
    Bt601,
    Smpte240,
    Film,
    Bt2020,
    Xyz,
    Smpte431,
    Smpte432,
    Ebu3213,
}

impl ColorPrimaries {
    /// The value that codes this variant in the bitstream.
    pub open spec fn code(self) -> u8 {
        match self {
            ColorPrimaries::Bt709 => 1,
            ColorPrimaries::Unspecified => 2,
            ColorPrimaries::Bt470m => 4,
            ColorPrimaries::Bt470bg => 5,
            ColorPrimaries::Bt601 => 6,
            ColorPrimaries::Smpte240 => 7,
            ColorPrimaries::Film => 8,
            ColorPrimaries::Bt2020 => 9,
            ColorPrimaries::Xyz => 10,
            ColorPrimaries::Smpte431 => 11,
            ColorPrimaries::Smpte432 => 12,
            ColorPrimaries::Ebu3213 => 22,
        }
    }

    /// The variant coded by `v`; fails on a value with no meaning.
    pub fn from_code(v: u8) -> (r: Result<ColorPrimaries, ParseError>)
        ensures
            r matches Ok(x) ==> x.code() == v,
            r is Err ==> r == Err::<ColorPrimaries, ParseError>(ParseError::InvalidEnumTag) && forall|x: ColorPrimaries| x.code() != v,
    {
        match v {
            1 => Ok(ColorPrimaries::Bt709),
            2 => Ok(ColorPrimaries::Unspecified),
            4 => Ok(ColorPrimaries::Bt470m),
            5 => Ok(ColorPrimaries::Bt470bg),
            6 => Ok(ColorPrimaries::Bt601),
            7 => Ok(ColorPrimaries::Smpte240),
            8 => Ok(ColorPrimaries::Film),
            9 => Ok(ColorPrimaries::Bt2020),
            10 => Ok(ColorPrimaries::Xyz),
            11 => Ok(ColorPrimaries::Smpte431),
            12 => Ok(ColorPrimaries::Smpte432),
            22 => Ok(ColorPrimaries::Ebu3213),
            _ => Err(ParseError::InvalidEnumTag),
        }
    }
}

/// Transfer characteristics of the video.
#[derive(Debug, Clone, Copy, PartialEq, Eq, Structural)]
#[allow(non_camel_case_types)]
pub enum TransferCharacteristics {
    Reserved0,
    Bt709,
    Unspecified,
    Reserved3,
    Bt470m,
    Bt470bg,
    Bt601,
    Smpte240,
    Linear,
    Log100,
    Log100Sqrt10,
    Iec61966,
    Bt1361,
    Srgb,
    Bt2020_10Bit,
    Bt2020_12Bit,
    Smpte2084,
    Smpte428,
    Hlg,
}

impl TransferCharacteristics {
    /// The value that codes this variant in the bitstream.
    pub open spec fn code(self) -> u8 {
        match self {
            TransferCharacteristics::Reserved0 => 0,
            TransferCharacteristics::Bt709 => 1,
            TransferCharacteristics::Unspecified => 2,
            TransferCharacteristics::Reserved3 => 3,
            TransferCharacteristics::Bt470m => 4,
            TransferCharacteristics::Bt470bg => 5,
            TransferCharacteristics::Bt601 => 6,
            TransferCharacteristics::Smpte240 => 7,
            TransferCharacteristics::Linear => 8,
            TransferCharacteristics::Log100 => 9,
            TransferCharacteristics::Log100Sqrt10 => 10,
            TransferCharacteristics::Iec61966 => 11,
            TransferCharacteristics::Bt1361 => 12,
            TransferCharacteristics::Srgb => 13,
            TransferCharacteristics::Bt2020_10Bit => 14,
            TransferCharacteristics::Bt2020_12Bit => 15,
            TransferCharacteristics::Smpte2084 => 16,
            TransferCharacteristics::Smpte428 => 17,
            TransferCharacteristics::Hlg => 18,
        }
    }

    /// The variant coded by `v`; fails on a value with no meaning.
    pub fn from_code(v: u8) -> (r: Result<TransferCharacteristics, ParseError>)
        ensures
            r matches Ok(x) ==> x.code() == v,
            r is Err ==> r == Err::<TransferCharacteristics, ParseError>(ParseError::InvalidEnumTag) && forall|x: TransferCharacteristics| x.code() != v,
    {
        match v {
            0 => Ok(TransferCharacteristics::Reserved0),
            1 => Ok(TransferCharacteristics::Bt709),
            2 => Ok(TransferCharacteristics::Unspecified),
            3 => Ok(TransferCharacteristics::Reserved3),
            4 => Ok(TransferCharacteristics::Bt470m),
            5 => Ok(TransferCharacteristics::Bt470bg),
            6 => Ok(TransferCharacteristics::Bt601),
            7 => Ok(TransferCharacteristics::Smpte240),
            8 => Ok(TransferCharacteristics::Linear),
            9 => Ok(TransferCharacteristics::Log100),
            10 => Ok(TransferCharacteristics::Log100Sqrt10),
            11 => Ok(TransferCharacteristics::Iec61966),
            12 => Ok(TransferCharacteristics::Bt1361),
            13 => Ok(TransferCharacteristics::Srgb),
            14 => Ok(TransferCharacteristics::Bt2020_10Bit),
            15 => Ok(TransferCharacteristics::Bt2020_12Bit),
            16 => Ok(TransferCharacteristics::Smpte2084),
            17 => Ok(TransferCharacteristics::Smpte428),
            18 => Ok(TransferCharacteristics::Hlg),
            _ => Err(ParseError::InvalidEnumTag),
        }
    }
}

/// Matrix coefficients of the video.
#[derive(Debug, Clone, Copy, PartialEq, Eq, Structural)]
pub enum MatrixCoefficients {
    Identity,
    Bt709,
    Unspecified,
    Reserved3,
    Fcc,
    Bt470bg,
    Bt601,
    Smpte240,
    SmpteYCgCo,
    Bt2020Ncl,
    Bt2020Cl,
    Smpte2085,
    ChromaticityNcl,
    ChromaticityCl,
    ICtCp,
}

impl MatrixCoefficients {
    /// The value that codes this variant in the bitstream.
    pub open spec fn code(self) -> u8 {
        match self {
            MatrixCoefficients::Identity => 0,
            MatrixCoefficients::Bt709 => 1,
            MatrixCoefficients::Unspecified => 2,
            MatrixCoefficients::Reserved3 => 3,
            MatrixCoefficients::Fcc => 4,
            MatrixCoefficients::Bt470bg => 5,
            MatrixCoefficients::Bt601 => 6,
            MatrixCoefficients::Smpte240 => 7,
            MatrixCoefficients::SmpteYCgCo => 8,
            MatrixCoefficients::Bt2020Ncl => 9,
            MatrixCoefficients::Bt2020Cl => 10,
            MatrixCoefficients::Smpte2085 => 11,
            MatrixCoefficients::ChromaticityNcl => 12,
            MatrixCoefficients::ChromaticityCl => 13,
            MatrixCoefficients::ICtCp => 14,
        }
    }

    /// The variant coded by `v`; fails on a value with no meaning.
    pub fn from_code(v: u8) -> (r: Result<MatrixCoefficients, ParseError>)
        ensures
            r matches Ok(x) ==> x.code() == v,
            r is Err ==> r == Err::<MatrixCoefficients, ParseError>(ParseError::InvalidEnumTag) && forall|x: MatrixCoefficients| x.code() != v,
    {
        match v {
            0 => Ok(MatrixCoefficients::Identity),
            1 => Ok(MatrixCoefficients::Bt709),
            2 => Ok(MatrixCoefficients::Unspecified),
            3 => Ok(MatrixCoefficients::Reserved3),
            4 => Ok(MatrixCoefficients::Fcc),
            5 => Ok(MatrixCoefficients::Bt470bg),
            6 => Ok(MatrixCoefficients::Bt601),
            7 => Ok(MatrixCoefficients::Smpte240),
            8 => Ok(MatrixCoefficients::SmpteYCgCo),
            9 => Ok(MatrixCoefficients::Bt2020Ncl),
            10 => Ok(MatrixCoefficients::Bt2020Cl),
            11 => Ok(MatrixCoefficients::Smpte2085),
            12 => Ok(MatrixCoefficients::ChromaticityNcl),
            13 => Ok(MatrixCoefficients::ChromaticityCl),
            14 => Ok(MatrixCoefficients::ICtCp),
            _ => Err(ParseError::InvalidEnumTag),
        }
    }
}

/// Studio (limited) or full sample range.
#[derive(Debug, Clone, Copy, PartialEq, Eq, Structural)]
pub enum ColorRange {
    Limited,
    Full,
}

impl ColorRange {
    /// The value that codes this variant in the bitstream.
    pub open spec fn code(self) -> u8 {
        match self {
            ColorRange::Limited => 0,
            ColorRange::Full => 1,
        }
    }

    /// The variant coded by `v`; fails on a value with no meaning.
    pub fn from_code(v: u8) -> (r: Result<ColorRange, ParseError>)
        ensures
            r matches Ok(x) ==> x.code() == v,
            r is Err ==> r == Err::<ColorRange, ParseError>(ParseError::InvalidEnumTag) && forall|x: ColorRange| x.code() != v,
    {
        match v {
            0 => Ok(ColorRange::Limited),
            1 => Ok(ColorRange::Full),
            _ => Err(ParseError::InvalidEnumTag),
        }
    }
}

} // verus!
