//! Bit patterns of the numbers that the library's rules name.
//!
//! `P025` is 0.025, `ONE_P15` is 1.15, `TINY_12` is 1e-12.

use vstd::prelude::*;

verus! {

pub const ZERO: u64 = 0x0000_0000_0000_0000;
pub const ONE: u64 = 0x3FF0_0000_0000_0000;
pub const TWO: u64 = 0x4000_0000_0000_0000;
pub const FOUR: u64 = 0x4010_0000_0000_0000;
pub const FIVE: u64 = 0x4014_0000_0000_0000;
pub const SIX: u64 = 0x4018_0000_0000_0000;
pub const EIGHT: u64 = 0x4020_0000_0000_0000;
pub const TEN: u64 = 0x4024_0000_0000_0000;
pub const TWENTY: u64 = 0x4034_0000_0000_0000;
pub const TWENTY_FIVE: u64 = 0x4039_0000_0000_0000;
pub const FORTY: u64 = 0x4044_0000_0000_0000;
pub const FIFTY: u64 = 0x4049_0000_0000_0000;
pub const SIXTY: u64 = 0x404E_0000_0000_0000;
pub const HUNDRED: u64 = 0x4059_0000_0000_0000;
pub const FIVE_HUNDRED: u64 = 0x407F_4000_0000_0000;
pub const THOUSAND: u64 = 0x408F_4000_0000_0000;
pub const TEN_THOUSAND: u64 = 0x40C3_8800_0000_0000;
pub const BILLION: u64 = 0x41CD_CD65_0000_0000;
pub const HALF: u64 = 0x3FE0_0000_0000_0000;
pub const QUARTER: u64 = 0x3FD0_0000_0000_0000;
pub const ONE_AND_A_HALF: u64 = 0x3FF8_0000_0000_0000;
pub const MINUS_ONE: u64 = 0xBFF0_0000_0000_0000;
pub const P02: u64 = 0x3F94_7AE1_47AE_147B;
pub const P01: u64 = 0x3F84_7AE1_47AE_147B;
pub const P001: u64 = 0x3F50_624D_D2F1_A9FC;
pub const P008: u64 = 0x3F80_624D_D2F1_A9FC;
pub const P03: u64 = 0x3F9E_B851_EB85_1EB8;
pub const P05: u64 = 0x3FA9_9999_9999_999A;
pub const P06: u64 = 0x3FAE_B851_EB85_1EB8;
pub const P1: u64 = 0x3FB9_9999_9999_999A;
pub const P025: u64 = 0x3F99_9999_9999_999A;
pub const P35: u64 = 0x3FD6_6666_6666_6666;
pub const P45: u64 = 0x3FDC_CCCC_CCCC_CCCD;
pub const P65: u64 = 0x3FE4_CCCC_CCCC_CCCD;
pub const P75: u64 = 0x3FE8_0000_0000_0000;
pub const P85: u64 = 0x3FEB_3333_3333_3333;
pub const ONE_P15: u64 = 0x3FF2_6666_6666_6666;
pub const ONE_P0001: u64 = 0x3FF0_0068_DB8B_AC71;
pub const TINY_6: u64 = 0x3EB0_C6F7_A0B5_ED8D;
pub const TINY_8: u64 = 0x3E45_798E_E230_8C3A;
pub const TINY_9: u64 = 0x3E11_2E0B_E826_D695;
pub const TINY_10: u64 = 0x3DDB_7CDF_D9D7_BDBB;
pub const TINY_12: u64 = 0x3D71_9799_812D_EA11;
pub const EPSILON: u64 = 0x3CB0_0000_0000_0000;

/// The infinity.
pub const INFINITY: u64 = 0x7FF0_0000_0000_0000;

/// The NaN that operations return.
pub const NAN: u64 = 0x7FF8_0000_0000_0000;

} // verus!
