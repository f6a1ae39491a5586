//! Configuration values of the vector unit: register grouping, element
//! width and the fixed-point rounding mode.

use vstd::prelude::*;

verus! {

/// The fixed-point rounding mode held in the `vxrm` register.
#[derive(Clone, Copy, Debug, PartialEq, Eq, Structural)]
pub enum FixedPointRoundingMode {
    RoundToNearestUp,
    RoundToNearestEven,
    RoundDown,
    RoundToOdd,
}

/// The register-grouping multiplier `LMUL`.
#[derive(Clone, Copy, Debug, PartialEq, Eq, Structural)]
pub enum Vlmul {
    M1,
    M2,
    M4,
    M8,
    Mf8,
    Mf4,
    Mf2,
}

/// The selected element width `SEW`.
#[derive(Clone, Copy, Debug, PartialEq, Eq, Structural)]
pub enum Vsew {
    E8,
    E16,
    E32,
    E64,
}

/// The number of whole registers that a group of the given multiplier spans;
/// a fractional multiplier still occupies one register.
pub open spec fn lmul_spec(v: Vlmul) -> nat {
    match v {
        Vlmul::M1 => 1,
        Vlmul::M2 => 2,
        Vlmul::M4 => 4,
        Vlmul::M8 => 8,
        Vlmul::Mf8 => 1,
        Vlmul::Mf4 => 1,
        Vlmul::Mf2 => 1,
    }
}

/// The element width in bytes.
pub open spec fn sew_bytes_spec(v: Vsew) -> nat {
    match v {
        Vsew::E8 => 1,
        Vsew::E16 => 2,
        Vsew::E32 => 4,
        Vsew::E64 => 8,
    }
}

impl Vlmul {
    /// Decodes the 3-bit `vlmul` field; the reserved encoding 4 has no value.
    pub fn from_bits(value: u8) -> (r: Option<Vlmul>)
        ensures
            r == (match value {
                0 => Some(Vlmul::M1),
                1 => Some(Vlmul::M2),
                2 => Some(Vlmul::M4),
                3 => Some(Vlmul::M8),
                5 => Some(Vlmul::Mf8),
                6 => Some(Vlmul::Mf4),
                7 => Some(Vlmul::Mf2),
                _ => None::<Vlmul>,
            }),
    {
        match value {
            0 => Some(Vlmul::M1),
            1 => Some(Vlmul::M2),
            2 => Some(Vlmul::M4),
            3 => Some(Vlmul::M8),
            5 => Some(Vlmul::Mf8),
            6 => Some(Vlmul::Mf4),
            7 => Some(Vlmul::Mf2),
            _ => None,
        }
    }

    /// The number of registers in a group.
    pub fn get_lmul(self) -> (r: u8)
        ensures
            r == lmul_spec(self),
    {
        match self {
            Vlmul::M1 => 1,
            Vlmul::M2 => 2,
            Vlmul::M4 => 4,
            Vlmul::M8 => 8,
            Vlmul::Mf8 => 1,
            Vlmul::Mf4 => 1,
            Vlmul::Mf2 => 1,
        }
    }
}

impl Vsew {
    /// Decodes the `vsew` field.
    pub fn from_bits(value: u8) -> (r: Option<Vsew>)
        ensures
            r == (match value {
                0 => Some(Vsew::E8),
                1 => Some(Vsew::E16),
                2 => Some(Vsew::E32),
                3 => Some(Vsew::E64),
                _ => None::<Vsew>,
            }),
    {
        match value {
            0 => Some(Vsew::E8),
            1 => Some(Vsew::E16),
            2 => Some(Vsew::E32),
            3 => Some(Vsew::E64),
            _ => None,
        }
    }

    /// The element width in bytes.
    pub fn get_sew(self) -> (r: u8)
        ensures
            r == sew_bytes_spec(self),
    {
        match self {
            Vsew::E8 => 1,
            Vsew::E16 => 2,
            Vsew::E32 => 4,
            Vsew::E64 => 8,
        }
    }

    /// The element width in bytes.
    pub fn into_byte_width(self) -> (r: u8)
        ensures
            r == sew_bytes_spec(self),
    {
        self.get_sew()
    }

    /// The element width of the given number of bytes, if there is one.
    pub fn from_byte_width(width: u8) -> (r: Option<Vsew>)
        ensures
            r == (match width {
                1 => Some(Vsew::E8),
                2 => Some(Vsew::E16),
                4 => Some(Vsew::E32),
                8 => Some(Vsew::E64),
                _ => None::<Vsew>,
            }),
    {
        match width {
            1 => Some(Vsew::E8),
            2 => Some(Vsew::E16),
            4 => Some(Vsew::E32),
            8 => Some(Vsew::E64),
            _ => None,
        }
    }
}

/// The `nf` field of a segment memory instruction: the encoding holds the
/// number of fields minus one.
pub struct NFIELDS {
    pub nf: u8,
}

impl NFIELDS {
    pub fn new(nf: u8) -> (r: NFIELDS)
        ensures
            r.nf == nf,
    {
        NFIELDS { nf }
    }

    /// The number of fields.
    pub fn encode(self) -> (r: u8)
        requires
            self.nf < 255,
        ensures
            r == self.nf + 1,
    {
        self.nf + 1
    }
}

/// The state of the vector unit's configuration registers.
pub struct VectorConfig {
    pub vlmul: Vlmul,
    pub vsew: Vsew,
    pub tail_agnostic: bool,
    pub mask_agnostic: bool,
    pub fixed_point_accrued_saturation_flag: bool,
    pub fixed_point_rounding_mode: FixedPointRoundingMode,
    pub vl: u16,
}

impl VectorConfig {
    /// The reset configuration: `LMUL` 1, `SEW` 8, undisturbed policies,
    /// round-to-nearest-up, no saturation, `vl` 0.
    pub fn new() -> (r: VectorConfig)
        ensures
            r.vlmul == Vlmul::M1,
            r.vsew == Vsew::E8,
            !r.tail_agnostic,
            !r.mask_agnostic,
            !r.fixed_point_accrued_saturation_flag,
            r.fixed_point_rounding_mode == FixedPointRoundingMode::RoundToNearestUp,
            r.vl == 0,
    {
        VectorConfig {
            vlmul: Vlmul::M1,
            vsew: Vsew::E8,
            tail_agnostic: false,
            mask_agnostic: false,
            fixed_point_accrued_saturation_flag: false,
            fixed_point_rounding_mode: FixedPointRoundingMode::RoundToNearestUp,
            vl: 0,
        }
    }
}

} // verus!
