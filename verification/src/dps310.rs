use vstd::prelude::*;
use crate::twos::{from_twos_complement, bit_set, lemma_widths, lemma_twos_complement_roundtrip};
use crate::bus::{Script, Procedure, Step, StepView, RequestView, Decoder, OpView, Reading, issue,
    initial,
    any_masked, tolerated_write, required_write, write_read, wait_for, run, spec_resume,
    lemma_run_append, lemma_run_from, lemma_kept_single_bytes, reply_fits, kept_bytes, Refusal,
    spec_refusal};

verus! {

/// 7-bit I2C address of the DPS310 pressure sensor.
pub const DPS310_ADDR: u8 = 0x77;

/// Register addresses of the DPS310 used by this driver.
pub const REG_PRS_CFG: u8 = 0x6;
pub const REG_TMP_CFG: u8 = 0x7;
pub const REG_MEAS_CFG: u8 = 0x8;
/// Soft reset register: writing 0b1001 resets the sensor.
pub const REG_RESET: u8 = 0xc;
/// Register selecting where the coefficients (and the temperature sensor
/// used for calibration) come from.
pub const REG_COEF_SRCE: u8 = 0x28;
/// Interrupt and FIFO configuration register.
pub const REG_CFG: u8 = 0x9;
/// First of the 18 calibration coefficient registers 0x10..=0x21.
pub const REG_COEF_FIRST: u8 = 0x10;
/// First of the three pressure result registers 0x00..=0x02.
pub const REG_PRS_B2: u8 = 0x0;
/// First of the three temperature result registers 0x03..=0x05.
pub const REG_TMP_B2: u8 = 0x3;

/// Sign-extends a 12-bit field held in the low bits of `x`.
///
/// When bit 11 is set, bits 11..16 of the result are ones; otherwise `x` is
/// reinterpreted as is.
pub fn sign_ext_12bit(x: u16) -> (r: i16)
    ensures
        r as int == (if x % 4096 >= 2048 {
            x % 4096 - 4096
        } else if x < 32768 {
            x as int
        } else {
            x - 65536
        }),
        x < 4096 ==> r as int == from_twos_complement(x as int, 12),
{
    proof { lemma_widths(); }
    if x & (1u16 << 11) != 0 {
        let y: u16 = x | (u16::MAX << 11);
        assert(x % 4096 >= 2048 && (y as i16) as int == x % 4096 - 4096) by (bit_vector)
            requires
                x & (1u16 << 11) != 0,
                y == x | (u16::MAX << 11),
        ;
        #[verifier::truncate]
        (y as i16)
    } else {
        assert(x % 4096 < 2048 && (x as i16) as int == (if x < 32768 { x as int } else { x - 65536 }))
            by (bit_vector)
            requires
                x & (1u16 << 11) == 0,
        ;
        #[verifier::truncate]
        (x as i16)
    }
}

/// Sign-extends a 20-bit field held in the low bits of `x`.
///
/// When bit 19 is set, bits 19..32 of the result are ones; otherwise `x` is
/// reinterpreted as is.
pub fn sign_ext_20bit(x: u32) -> (r: i32)
    ensures
        r as int == (if x % 0x100000 >= 0x80000 {
            x % 0x100000 - 0x100000
        } else if x < 0x8000_0000 {
            x as int
        } else {
            x - 0x1_0000_0000
        }),
        x < 0x100000 ==> r as int == from_twos_complement(x as int, 20),
{
    proof { lemma_widths(); }
    if x & (1u32 << 19) != 0 {
        let y: u32 = x | (u32::MAX << 19);
        assert(x % 0x100000 >= 0x80000 && (y as i32) as int == x % 0x100000 - 0x100000)
            by (bit_vector)
            requires
                x & (1u32 << 19) != 0,
                y == x | (u32::MAX << 19),
        ;
        #[verifier::truncate]
        (y as i32)
    } else {
        assert(x % 0x100000 < 0x80000 && (x as i32) as int == (if x < 0x8000_0000 {
            x as int
        } else {
            x - 0x1_0000_0000
        })) by (bit_vector)
            requires
                x & (1u32 << 19) == 0,
        ;
        #[verifier::truncate]
        (x as i32)
    }
}

/// Sign-extends a 24-bit field held in the low bits of `x`.
///
/// When bit 23 is set, bits 23..32 of the result are ones; otherwise `x` is
/// reinterpreted as is.
pub fn sign_ext_24bit(x: u32) -> (r: i32)
    ensures
        r as int == (if x % 0x1000000 >= 0x800000 {
            x % 0x1000000 - 0x1000000
        } else if x < 0x8000_0000 {
            x as int
        } else {
            x - 0x1_0000_0000
        }),
        x < 0x1000000 ==> r as int == from_twos_complement(x as int, 24),
{
    proof { lemma_widths(); }
    if x & (1u32 << 23) != 0 {
        let y: u32 = x | (u32::MAX << 23);
        assert(x % 0x1000000 >= 0x800000 && (y as i32) as int == x % 0x1000000 - 0x1000000)
            by (bit_vector)
            requires
                x & (1u32 << 23) != 0,
                y == x | (u32::MAX << 23),
        ;
        #[verifier::truncate]
        (y as i32)
    } else {
        assert(x % 0x1000000 < 0x800000 && (x as i32) as int == (if x < 0x8000_0000 {
            x as int
        } else {
            x - 0x1_0000_0000
        })) by (bit_vector)
            requires
                x & (1u32 << 23) == 0,
        ;
        #[verifier::truncate]
        (x as i32)
    }
}

/// The flags of the DPS310 MEAS_CFG register.
#[derive(Debug, Clone, Copy, PartialEq, Eq)]
pub struct Dps310Status {
    pub coef_ready: bool,
    pub sens_ready: bool,
    pub temp_ready: bool,
    pub prs_ready: bool,
    pub ctr: u8,
}

/// The status that a MEAS_CFG register value `data` stands for.
pub open spec fn spec_status(data: u8) -> Dps310Status {
    Dps310Status {
        coef_ready: bit_set(data, 7),
        sens_ready: bit_set(data, 6),
        temp_ready: bit_set(data, 5),
        prs_ready: bit_set(data, 4),
        ctr: data % 8,
    }
}

impl Dps310Status {
    /// Decodes a MEAS_CFG register value: bit 7 coefficients ready, bit 6
    /// sensor ready, bit 5 temperature ready, bit 4 pressure ready, bits 0..3
    /// the measurement control field.
    pub fn from_u8(data: u8) -> (r: Self)
        ensures
            r == spec_status(data),
            r.coef_ready == (data & 0x80 != 0),
            r.sens_ready == (data & 0x40 != 0),
            r.temp_ready == (data & 0x20 != 0),
            r.prs_ready == (data & 0x10 != 0),
            r.ctr == data % 8,
            r.ctr < 8,
    {
        assert(((data & (1u8 << 7) != 0) == bit_set(data, 7))
            && ((data & (1u8 << 6) != 0) == bit_set(data, 6))
            && ((data & (1u8 << 5) != 0) == bit_set(data, 5))
            && ((data & (1u8 << 4) != 0) == bit_set(data, 4))
            && (data & 0b111) == data % 8
            && (1u8 << 7) == 0x80u8 && (1u8 << 6) == 0x40u8 && (1u8 << 5) == 0x20u8
            && (1u8 << 4) == 0x10u8) by (bit_vector);
        Self {
            coef_ready: data & (1 << 7) != 0,
            sens_ready: data & (1 << 6) != 0,
            temp_ready: data & (1 << 5) != 0,
            prs_ready: data & (1 << 4) != 0,
            ctr: data & 0b111,
        }
    }
}

/// The calibration coefficients of a DPS310 (c0, c1: 12 bit; c00, c10:
/// 20 bit; the others 16 bit; all two's complement).
#[derive(Debug, Clone, Copy, PartialEq, Eq)]
pub struct Dps310Coefficients {
    pub c0: i16,
    pub c1: i16,
    pub c00: i32,
    pub c10: i32,
    pub c01: i16,
    pub c11: i16,
    pub c20: i16,
    pub c21: i16,
    pub c30: i16,
}

/// The coefficients stored in the 18 coefficient registers 0x10..=0x21,
/// `b[i]` being register `0x10 + i`.
pub open spec fn spec_coefficients(b: Seq<u8>) -> Dps310Coefficients {
    Dps310Coefficients {
        c0: from_twos_complement(b[0] * 16 + b[1] / 16, 12) as i16,
        c1: from_twos_complement((b[1] % 16) * 256 + b[2], 12) as i16,
        c00: from_twos_complement(b[3] * 4096 + b[4] * 16 + b[5] / 16, 20) as i32,
        c10: from_twos_complement((b[5] % 16) * 65536 + b[6] * 256 + b[7], 20) as i32,
        c01: from_twos_complement(b[8] * 256 + b[9], 16) as i16,
        c11: from_twos_complement(b[10] * 256 + b[11], 16) as i16,
        c20: from_twos_complement(b[12] * 256 + b[13], 16) as i16,
        c21: from_twos_complement(b[14] * 256 + b[15], 16) as i16,
        c30: from_twos_complement(b[16] * 256 + b[17], 16) as i16,
    }
}

/// A big-endian 16-bit register pair read as two's complement.
fn word_i16(hi: u8, lo: u8) -> (r: i16)
    ensures
        r as int == from_twos_complement(hi * 256 + lo, 16),
{
    proof { lemma_widths(); }
    let w: u16 = ((hi as u16) << 8) | (lo as u16);
    assert(w == hi * 256 + lo && (w as i16) as int == (if w >= 32768 { w - 65536 } else { w as int }))
        by (bit_vector)
        requires
            w == ((hi as u16) << 8) | (lo as u16),
    ;
    #[verifier::truncate]
    (w as i16)
}

/// Assembles the calibration coefficients from the 18 coefficient
/// registers 0x10..=0x21 (`raw[i]` being register `0x10 + i`).
pub fn decode_coefficients(raw: &[u8]) -> (r: Dps310Coefficients)
    requires
        raw@.len() == 18,
    ensures
        r == spec_coefficients(raw@),
{
    proof { lemma_widths(); }
    let b0: u8 = raw[0];
    let b1: u8 = raw[1];
    let b2: u8 = raw[2];
    let b3: u8 = raw[3];
    let b4: u8 = raw[4];
    let b5: u8 = raw[5];
    let b6: u8 = raw[6];
    let b7: u8 = raw[7];

    let f0: u16 = ((b0 as u16) << 4) | ((((b1 & 0xf0) as u16) >> 4) & 0xf);
    assert(f0 == b0 * 16 + b1 / 16 && f0 < 4096) by (bit_vector)
        requires
            f0 == ((b0 as u16) << 4) | ((((b1 & 0xf0) as u16) >> 4) & 0xf),
    ;
    let f1: u16 = (((b1 & 0x0f) as u16) << 8) | (b2 as u16);
    assert(f1 == (b1 % 16) * 256 + b2 && f1 < 4096) by (bit_vector)
        requires
            f1 == (((b1 & 0x0f) as u16) << 8) | (b2 as u16),
    ;
    let f00: u32 = ((b3 as u32) << 12) | ((b4 as u32) << 4) | (((b5 as u32) >> 4) & 0xf);
    assert(f00 == b3 * 4096 + b4 * 16 + b5 / 16 && f00 < 0x100000) by (bit_vector)
        requires
            f00 == ((b3 as u32) << 12) | ((b4 as u32) << 4) | (((b5 as u32) >> 4) & 0xf),
    ;
    let f10: u32 = (((b5 & 0xf) as u32) << 16) | ((b6 as u32) << 8) | (b7 as u32);
    assert(f10 == (b5 % 16) * 65536 + b6 * 256 + b7 && f10 < 0x100000) by (bit_vector)
        requires
            f10 == (((b5 & 0xf) as u32) << 16) | ((b6 as u32) << 8) | (b7 as u32),
    ;

    let c0: i16 = sign_ext_12bit(f0);
    let c1: i16 = sign_ext_12bit(f1);
    let c00: i32 = sign_ext_20bit(f00);
    let c10: i32 = sign_ext_20bit(f10);
    let c01: i16 = word_i16(raw[8], raw[9]);
    let c11: i16 = word_i16(raw[10], raw[11]);
    let c20: i16 = word_i16(raw[12], raw[13]);
    let c21: i16 = word_i16(raw[14], raw[15]);
    let c30: i16 = word_i16(raw[16], raw[17]);
    Dps310Coefficients { c0, c1, c00, c10, c01, c11, c20, c21, c30 }
}

/// The 18 coefficient registers of a sensor storing coefficients `c`, laid
/// out as the DPS310 does: c0 (12 bit) and c1 (12 bit) in 0x10..=0x12,
/// c00 and c10 (20 bit each) in 0x13..=0x17, then c01, c11, c20, c21, c30
/// (16 bit each), every field most significant bits first.
pub open spec fn coefficient_registers(c: Dps310Coefficients) -> Seq<u8> {
    let u0: int = (c.c0 as int) % 4096;
    let u1: int = (c.c1 as int) % 4096;
    let u00: int = (c.c00 as int) % 0x100000;
    let u10: int = (c.c10 as int) % 0x100000;
    let u01: int = (c.c01 as int) % 65536;
    let u11: int = (c.c11 as int) % 65536;
    let u20: int = (c.c20 as int) % 65536;
    let u21: int = (c.c21 as int) % 65536;
    let u30: int = (c.c30 as int) % 65536;
    seq![
        (u0 / 16) as u8,
        ((u0 % 16) * 16 + u1 / 256) as u8,
        (u1 % 256) as u8,
        (u00 / 4096) as u8,
        ((u00 / 16) % 256) as u8,
        ((u00 % 16) * 16 + u10 / 65536) as u8,
        ((u10 / 256) % 256) as u8,
        (u10 % 256) as u8,
        (u01 / 256) as u8,
        (u01 % 256) as u8,
        (u11 / 256) as u8,
        (u11 % 256) as u8,
        (u20 / 256) as u8,
        (u20 % 256) as u8,
        (u21 / 256) as u8,
        (u21 % 256) as u8,
        (u30 / 256) as u8,
        (u30 % 256) as u8,
    ]
}

/// The coefficients fit the widths of their register fields.
pub open spec fn coefficients_fit(c: Dps310Coefficients) -> bool {
    &&& -2048 <= c.c0 < 2048
    &&& -2048 <= c.c1 < 2048
    &&& -0x80000 <= c.c00 < 0x80000
    &&& -0x80000 <= c.c10 < 0x80000
}

proof fn lemma_split_16(u: int)
    requires
        0 <= u < 65536,
    ensures
        0 <= u / 256 < 256,
        (u / 256) * 256 + u % 256 == u,
{
    assert(0 <= u / 256 < 256 && (u / 256) * 256 + u % 256 == u) by (nonlinear_arith)
        requires
            0 <= u < 65536,
    ;
}

proof fn lemma_split_12_12(u0: int, u1: int)
    requires
        0 <= u0 < 4096,
        0 <= u1 < 4096,
    ensures
        0 <= u0 / 16 < 256,
        0 <= (u0 % 16) * 16 + u1 / 256 < 256,
        ((u0 % 16) * 16 + u1 / 256) / 16 == u0 % 16,
        ((u0 % 16) * 16 + u1 / 256) % 16 == u1 / 256,
        (u0 / 16) * 16 + u0 % 16 == u0,
        (u1 / 256) * 256 + u1 % 256 == u1,
{
    assert(0 <= u0 / 16 < 256 && 0 <= (u0 % 16) * 16 + u1 / 256 < 256
        && ((u0 % 16) * 16 + u1 / 256) / 16 == u0 % 16
        && ((u0 % 16) * 16 + u1 / 256) % 16 == u1 / 256
        && (u0 / 16) * 16 + u0 % 16 == u0
        && (u1 / 256) * 256 + u1 % 256 == u1) by (nonlinear_arith)
        requires
            0 <= u0 < 4096,
            0 <= u1 < 4096,
    ;
}

proof fn lemma_split_20_20(u00: int, u10: int)
    requires
        0 <= u00 < 0x100000,
        0 <= u10 < 0x100000,
    ensures
        0 <= u00 / 4096 < 256,
        0 <= (u00 / 16) % 256 < 256,
        0 <= (u00 % 16) * 16 + u10 / 65536 < 256,
        ((u00 % 16) * 16 + u10 / 65536) / 16 == u00 % 16,
        ((u00 % 16) * 16 + u10 / 65536) % 16 == u10 / 65536,
        (u00 / 4096) * 4096 + ((u00 / 16) % 256) * 16 + u00 % 16 == u00,
        (u10 / 65536) * 65536 + ((u10 / 256) % 256) * 256 + u10 % 256 == u10,
        0 <= (u10 / 256) % 256 < 256,
{
    assert(0 <= u00 / 4096 < 256 && 0 <= (u00 / 16) % 256 < 256
        && 0 <= (u00 % 16) * 16 + u10 / 65536 < 256
        && ((u00 % 16) * 16 + u10 / 65536) / 16 == u00 % 16
        && ((u00 % 16) * 16 + u10 / 65536) % 16 == u10 / 65536
        && (u00 / 4096) * 4096 + ((u00 / 16) % 256) * 16 + u00 % 16 == u00
        && (u10 / 65536) * 65536 + ((u10 / 256) % 256) * 256 + u10 % 256 == u10
        && 0 <= (u10 / 256) % 256 < 256) by (nonlinear_arith)
        requires
            0 <= u00 < 0x100000,
            0 <= u10 < 0x100000,
    ;
}

/// Decoding the coefficient registers of a sensor that stores coefficients
/// `c` gives back `c`, for all coefficients that fit their fields.
pub proof fn lemma_coefficients_roundtrip(c: Dps310Coefficients)
    requires
        coefficients_fit(c),
    ensures
        spec_coefficients(coefficient_registers(c)) == c,
{
    lemma_widths();
    let b = coefficient_registers(c);
    lemma_twos_complement_roundtrip(c.c0 as int, 12);
    lemma_twos_complement_roundtrip(c.c1 as int, 12);
    lemma_twos_complement_roundtrip(c.c00 as int, 20);
    lemma_twos_complement_roundtrip(c.c10 as int, 20);
    lemma_twos_complement_roundtrip(c.c01 as int, 16);
    lemma_twos_complement_roundtrip(c.c11 as int, 16);
    lemma_twos_complement_roundtrip(c.c20 as int, 16);
    lemma_twos_complement_roundtrip(c.c21 as int, 16);
    lemma_twos_complement_roundtrip(c.c30 as int, 16);
    let u0: int = (c.c0 as int) % 4096;
    let u1: int = (c.c1 as int) % 4096;
    let u00: int = (c.c00 as int) % 0x100000;
    let u10: int = (c.c10 as int) % 0x100000;
    lemma_split_12_12(u0, u1);
    lemma_split_20_20(u00, u10);
    lemma_split_16((c.c01 as int) % 65536);
    lemma_split_16((c.c11 as int) % 65536);
    lemma_split_16((c.c20 as int) % 65536);
    lemma_split_16((c.c21 as int) % 65536);
    lemma_split_16((c.c30 as int) % 65536);
    let d = spec_coefficients(b);
    assert(b[0] * 16 + b[1] / 16 == u0);
    assert((b[1] % 16) * 256 + b[2] == u1);
    assert(b[3] * 4096 + b[4] * 16 + b[5] / 16 == u00);
    assert((b[5] % 16) * 65536 + b[6] * 256 + b[7] == u10);
    assert(d.c0 == c.c0);
    assert(d.c1 == c.c1);
    assert(d.c00 == c.c00);
    assert(d.c10 == c.c10);
}

/// The raw (unscaled) 24-bit two's complement measurement held in three
/// result registers, most significant byte first.
pub open spec fn spec_raw_measurement(b: Seq<u8>) -> i32 {
    from_twos_complement(b[0] * 65536 + b[1] * 256 + b[2], 24) as i32
}

/// Assembles a raw pressure or temperature value from its three result
/// registers (`raw[0]` the most significant byte).
pub fn decode_raw_measurement(raw: &[u8]) -> (r: i32)
    requires
        raw@.len() == 3,
    ensures
        r == spec_raw_measurement(raw@),
{
    proof { lemma_widths(); }
    let b2: u8 = raw[0];
    let b1: u8 = raw[1];
    let b0: u8 = raw[2];
    let x: u32 = ((b2 as u32) << 16) | ((b1 as u32) << 8) | (b0 as u32);
    assert(x == b2 * 65536 + b1 * 256 + b0 && x < 0x1000000) by (bit_vector)
        requires
            x == ((b2 as u32) << 16) | ((b1 as u32) << 8) | (b0 as u32),
    ;
    sign_ext_24bit(x)
}

/// The three result registers holding a 24-bit two's complement value `v`
/// (most significant byte first) decode back to `v`, for every value the
/// registers can hold.
pub proof fn lemma_raw_measurement_roundtrip(v: int)
    requires
        -0x800000 <= v < 0x800000,
    ensures
        spec_raw_measurement(
            seq![
                ((v % 0x1000000) / 65536) as u8,
                (((v % 0x1000000) / 256) % 256) as u8,
                ((v % 0x1000000) % 256) as u8,
            ],
        ) == v,
{
    lemma_widths();
    lemma_twos_complement_roundtrip(v, 24);
    let u: int = v % 0x1000000;
    assert(0 <= u < 0x1000000);
    assert((u / 65536) * 65536 + ((u / 256) % 256) * 256 + u % 256 == u
        && 0 <= u / 65536 < 256) by (nonlinear_arith)
        requires
            0 <= u < 0x1000000,
    ;
}

/// Polling MEAS_CFG until the status bit(s) in `mask` are set; with
/// `fatal`, a driver error on a poll is refused.
pub open spec fn wait_status(mask: u8, fatal: bool) -> OpView {
    wait_for(DPS310_ADDR, seq![REG_MEAS_CFG], seq![mask], fatal)
}

/// Waiting on a one-bit status mask ends exactly when the status decoded
/// from the polled byte shows the corresponding flag.
pub proof fn lemma_status_masks(b: u8)
    ensures
        any_masked(seq![b], seq![0x80u8]) == spec_status(b).coef_ready,
        any_masked(seq![b], seq![0x40u8]) == spec_status(b).sens_ready,
        any_masked(seq![b], seq![0x20u8]) == spec_status(b).temp_ready,
        any_masked(seq![b], seq![0x10u8]) == spec_status(b).prs_ready,
{
    assert(((b & 0x80) != 0) == bit_set(b, 7) && ((b & 0x40) != 0) == bit_set(b, 6)
        && ((b & 0x20) != 0) == bit_set(b, 5) && ((b & 0x10) != 0) == bit_set(b, 4))
        by (bit_vector);
    assert(seq![b][0] == b);
    assert(seq![0x80u8][0] == 0x80u8);
    assert(seq![0x40u8][0] == 0x40u8);
    assert(seq![0x20u8][0] == 0x20u8);
    assert(seq![0x10u8][0] == 0x10u8);
}

/// The bus steps of `setup`: soft reset, coefficient
/// source, interrupt/FIFO configuration for oversampling, wait for the
/// sensor to be ready, external temperature sensor as calibration source,
/// 64 times pressure and temperature oversampling (temperature from the
/// external sensor). Write errors are ignored; a failed status read is
/// refused, as the sensor node cannot go on without a ready sensor.
pub open spec fn setup_script() -> Seq<OpView> {
    seq![
        tolerated_write(DPS310_ADDR, seq![REG_RESET, 0b1001u8]),
        tolerated_write(DPS310_ADDR, seq![REG_COEF_SRCE, 0u8]),
        tolerated_write(DPS310_ADDR, seq![REG_CFG, 0b1100u8]),
        wait_status(0x40, true),
        tolerated_write(DPS310_ADDR, seq![REG_COEF_SRCE, 0x80u8]),
        tolerated_write(DPS310_ADDR, seq![REG_PRS_CFG, 0b0110u8]),
        tolerated_write(DPS310_ADDR, seq![REG_TMP_CFG, 0b1000_0110u8]),
    ]
}

/// Configures the sensor for 64 times oversampled measurements.
pub fn setup() -> (r: (Procedure, Step))
    ensures
        r.0.inv(),
        (r.0@, r.1@) == issue(initial(setup_script(), Decoder::Nothing), 0, Seq::empty()),
{
    let mut s = Script::new();
    s.write(DPS310_ADDR, vec![REG_RESET, 0b1001], false);
    s.write(DPS310_ADDR, vec![REG_COEF_SRCE, 0], false);
    s.write(DPS310_ADDR, vec![REG_CFG, 0b1100], false);
    s.wait_for(DPS310_ADDR, vec![REG_MEAS_CFG], vec![0x40], true);
    s.write(DPS310_ADDR, vec![REG_COEF_SRCE, 0x80], false);
    s.write(DPS310_ADDR, vec![REG_PRS_CFG, 0b0110], false);
    s.write(DPS310_ADDR, vec![REG_TMP_CFG, 0b1000_0110], false);
    assert(s@ =~~= setup_script());
    s.start(Decoder::Nothing)
}

/// In `setup`, whatever the driver reported on the first three writes, a
/// failed read of the status is refused: the sensor node does not go on
/// without knowing the sensor is ready.
pub proof fn lemma_setup_status_failure_refused(ok0: bool, ok1: bool, ok2: bool, data: Seq<u8>)
    ensures
        spec_refusal(
            run(
                issue(initial(setup_script(), Decoder::Nothing), 0, Seq::empty()),
                seq![(Seq::<u8>::empty(), ok0), (Seq::<u8>::empty(), ok1), (Seq::<u8>::empty(), ok2)],
            ).0,
            data,
            false,
        ) == Some(Refusal::BusError),
{
    let script = setup_script();
    let replies = seq![(Seq::<u8>::empty(), ok0), (Seq::<u8>::empty(), ok1), (Seq::<u8>::empty(), ok2)];
    assert forall|i: int| 0 <= i < 3 implies #[trigger] script[0 + i] is Run && reply_fits(script[0 + i], replies[i]) by {
    }
    lemma_run_from(script, Decoder::Nothing, 0, Seq::empty(), replies, 3);
    assert(replies.take(3) =~= replies);
}

/// The start of `setup`, whatever the driver reports on its writes: a soft
/// reset write of 0b1001 to register 0x0C first, then the coefficient source
/// and interrupt/FIFO writes, then polls of MEAS_CFG (0x08) that go on, with
/// 1 ms pauses, until SENSOR_RDY (bit 6, 0x40) is set; only then comes the
/// write selecting the external temperature sensor (0x28 := 0x80).
pub proof fn lemma_setup_protocol(ok0: bool, ok1: bool, ok2: bool, status: u8)
    ensures
        ({
            let s0 = issue(initial(setup_script(), Decoder::Nothing), 0, Seq::empty());
            let e = Seq::<u8>::empty();
            let writes = seq![(e, ok0), (e, ok1), (e, ok2)];
            &&& s0.1 == StepView::Perform(RequestView::Write { addr: 0x77, bytes: seq![0x0cu8, 0x09u8] })
            &&& run(s0, writes).1 == StepView::Perform(
                RequestView::WriteRead { addr: 0x77, bytes: seq![0x08u8], len: 1 },
            )
            &&& run(s0, writes.push((seq![status], true))).1 == if status & 0x40 != 0 {
                StepView::Perform(RequestView::Write { addr: 0x77, bytes: seq![0x28u8, 0x80u8] })
            } else {
                StepView::Perform(RequestView::Delay { ms: 1 })
            }
            &&& status & 0x40 == 0 ==> run(s0, writes.push((seq![status], true)).push((e, true)))
                == run(s0, writes)
        }),
{
    let script = setup_script();
    let d = Decoder::Nothing;
    let s0 = issue(initial(script, d), 0, Seq::empty());
    let e = Seq::<u8>::empty();
    let writes = seq![(e, ok0), (e, ok1), (e, ok2)];
    assert forall|i: int| 0 <= i < 3 implies #[trigger] script[0 + i] is Run && reply_fits(script[0 + i], writes[i]) by {
    }
    lemma_run_from(script, d, 0, Seq::empty(), writes, 3);
    assert(writes.take(3) =~= writes);
    let w1 = writes.push((seq![status], true));
    assert(w1.drop_last() =~= writes);
    assert(any_masked(seq![status], seq![0x40u8]) == (status & 0x40 != 0)) by {
        assert(seq![status][0] == status);
        assert(seq![0x40u8][0] == 0x40u8);
    }
    let w2 = w1.push((e, true));
    assert(w2.drop_last() =~= w1);
}

/// Reading the coefficients polls MEAS_CFG (0x08) until COEF_RDY (bit 7,
/// 0x80) is set, pausing 1 ms after each poll without it, and only then
/// reads the first coefficient register 0x10.
pub proof fn lemma_read_coefficients_waits(status: u8)
    ensures
        ({
            let s0 = issue(initial(read_coefficients_script(), Decoder::Dps310Coefficients), 0, Seq::empty());
            &&& s0.1 == StepView::Perform(RequestView::WriteRead { addr: 0x77, bytes: seq![0x08u8], len: 1 })
            &&& run(s0, seq![(seq![status], true)]).1 == if status & 0x80 != 0 {
                StepView::Perform(RequestView::WriteRead { addr: 0x77, bytes: seq![0x10u8], len: 1 })
            } else {
                StepView::Perform(RequestView::Delay { ms: 1 })
            }
            &&& status & 0x80 == 0 ==> run(s0, seq![(seq![status], true), (Seq::<u8>::empty(), true)])
                == s0
        }),
{
    let script = read_coefficients_script();
    let s0 = issue(initial(script, Decoder::Dps310Coefficients), 0, Seq::empty());
    let r1 = seq![(seq![status], true)];
    let r2 = seq![(seq![status], true), (Seq::<u8>::empty(), true)];
    assert(r1.drop_last() =~= Seq::<(Seq<u8>, bool)>::empty());
    assert(r2.drop_last() =~= r1);
    assert(run(s0, r1.drop_last()) == s0);
    assert(script[0] == wait_status(0x80, false));
    assert(script[1] == coefficient_read(0));
    assert(any_masked(seq![status], seq![0x80u8]) == (status & 0x80 != 0)) by {
        assert(seq![status][0] == status);
        assert(seq![0x80u8][0] == 0x80u8);
    }
}

/// The bus steps of `get_status`: one read of MEAS_CFG.
pub open spec fn get_status_script() -> Seq<OpView> {
    seq![write_read(DPS310_ADDR, seq![REG_MEAS_CFG], 1, true, true)]
}

/// Reads and decodes the MEAS_CFG status register.
pub fn get_status() -> (r: (Procedure, Step))
    ensures
        r.0.inv(),
        (r.0@, r.1@) == issue(initial(get_status_script(), Decoder::Dps310Status), 0, Seq::empty()),
{
    let mut s = Script::new();
    s.write_read(DPS310_ADDR, vec![REG_MEAS_CFG], 1, true, true);
    assert(s@ =~~= get_status_script());
    s.start(Decoder::Dps310Status)
}

/// Reading coefficient register `0x10 + i`; a driver error is ignored and
/// the zero-filled buffer read as is.
pub open spec fn coefficient_read(i: int) -> OpView {
    write_read(DPS310_ADDR, seq![(REG_COEF_FIRST + i) as u8], 1, true, false)
}

/// The bus steps of `read_coefficients`: wait until the coefficients are
/// ready, then read the 18 coefficient registers in order.
pub open spec fn read_coefficients_script() -> Seq<OpView> {
    seq![wait_status(0x80, false)] + Seq::new(18, |i: int| coefficient_read(i))
}

/// Reads the calibration coefficients.
pub fn read_coefficients() -> (r: (Procedure, Step))
    ensures
        r.0.inv(),
        (r.0@, r.1@) == issue(
            initial(read_coefficients_script(), Decoder::Dps310Coefficients),
            0,
            Seq::empty(),
        ),
{
    let mut s = Script::new();
    s.wait_for(DPS310_ADDR, vec![REG_MEAS_CFG], vec![0x80], false);
    let ghost head = s@;
    let mut i: u8 = 0;
    while i < 18
        invariant
            i <= 18,
            head =~~= seq![wait_status(0x80, false)],
            s@ == head + Seq::new(i as nat, |k: int| coefficient_read(k)),
            crate::bus::kept_len(s@) == i,
            crate::bus::all_well_formed(s@),
        decreases 18 - i,
    {
        s.write_read(DPS310_ADDR, vec![REG_COEF_FIRST + i], 1, true, false);
        assert(s@ =~~= head + Seq::new((i + 1) as nat, |k: int| coefficient_read(k)));
        i += 1;
    }
    assert(s@ =~= read_coefficients_script());
    s.start(Decoder::Dps310Coefficients)
}

/// The replies of a sensor that reports its coefficients ready with
/// `status` and then returns the registers `regs`, the driver reporting
/// `oks[i]` on the read of register `0x10 + i`.
pub open spec fn coefficient_replies(status: u8, regs: Seq<u8>, oks: Seq<bool>) -> Seq<(Seq<u8>, bool)> {
    seq![(seq![status], true)] + Seq::new(18, |i: int| (seq![regs[i]], oks[i]))
}

/// When the sensor reports its coefficients ready and its 18 coefficient
/// registers hold `regs` (driver errors on those reads being ignored),
/// reading the coefficients finishes with the decoding of `regs`.
pub proof fn lemma_read_coefficients_run(status: u8, regs: Seq<u8>, oks: Seq<bool>)
    requires
        status & 0x80 != 0,
        regs.len() == 18,
        oks.len() == 18,
    ensures
        run(
            issue(initial(read_coefficients_script(), Decoder::Dps310Coefficients), 0, Seq::empty()),
            coefficient_replies(status, regs, oks),
        ).1 == StepView::Done(Ok(Reading::Coefficients(spec_coefficients(regs)))),
{
    let script = read_coefficients_script();
    let d = Decoder::Dps310Coefficients;
    let s0 = issue(initial(script, d), 0, Seq::empty());
    let first = seq![(seq![status], true)];
    let rest = Seq::new(18, |i: int| (seq![regs[i]], oks[i]));
    assert(coefficient_replies(status, regs, oks) == first + rest);
    lemma_run_append(s0, first, rest);
    assert(first.drop_last() =~= Seq::<(Seq<u8>, bool)>::empty());
    assert(any_masked(seq![status], seq![0x80u8])) by {
        assert(seq![status][0] & seq![0x80u8][0] != 0);
    }
    assert(script[0] == wait_status(0x80, false));
    assert(first.last() == (seq![status], true));
    assert(run(s0, first.drop_last()) == s0);
    assert(run(s0, first) == issue(initial(script, d), 1, Seq::empty()));
    assert forall|i: int| 0 <= i < 18 implies #[trigger] script[1 + i] is Run && reply_fits(script[1 + i], rest[i])
        && script[1 + i]->Run_keep by {
        assert(script[1 + i] == coefficient_read(i));
    }
    lemma_run_from(script, d, 1, Seq::empty(), rest, 18);
    lemma_kept_single_bytes(script, 1, rest, 18);
    assert(rest.take(18) =~= rest);
    assert(Seq::<u8>::empty() + kept_bytes(script.subrange(1, 19), rest) =~= regs) by {
        assert(Seq::new(18, |i: int| rest[i].0[0]) =~= regs);
    }
}

/// Reading the coefficients of a sensor that stores coefficients `c` gives
/// `c`.
pub proof fn lemma_read_coefficients_gives_stored(status: u8, c: Dps310Coefficients, oks: Seq<bool>)
    requires
        status & 0x80 != 0,
        coefficients_fit(c),
        oks.len() == 18,
    ensures
        run(
            issue(initial(read_coefficients_script(), Decoder::Dps310Coefficients), 0, Seq::empty()),
            coefficient_replies(status, coefficient_registers(c), oks),
        ).1 == StepView::Done(Ok(Reading::Coefficients(c))),
{
    lemma_read_coefficients_run(status, coefficient_registers(c), oks);
    lemma_coefficients_roundtrip(c);
}

/// The bus steps of a measurement: command it (`command` in MEAS_CFG),
/// read its configuration register `cfg` (result unused), wait for the
/// ready flag `ready`, then read the three result registers from `first`
/// on, most significant first. Errors of the result reads are ignored.
pub open spec fn measurement_script(command: u8, cfg: u8, ready: u8, first: u8) -> Seq<OpView> {
    seq![
        required_write(DPS310_ADDR, seq![REG_MEAS_CFG, command]),
        write_read(DPS310_ADDR, seq![cfg], 1, false, true),
        wait_status(ready, false),
        write_read(DPS310_ADDR, seq![first], 1, true, false),
        write_read(DPS310_ADDR, seq![(first + 1) as u8], 1, true, false),
        write_read(DPS310_ADDR, seq![(first + 2) as u8], 1, true, false),
    ]
}

fn measurement(command: u8, cfg: u8, ready: u8, first: u8) -> (r: (Procedure, Step))
    requires
        first <= 253,
    ensures
        r.0.inv(),
        (r.0@, r.1@) == issue(
            initial(measurement_script(command, cfg, ready, first), Decoder::Dps310RawMeasurement),
            0,
            Seq::empty(),
        ),
{
    let mut s = Script::new();
    s.write(DPS310_ADDR, vec![REG_MEAS_CFG, command], true);
    s.write_read(DPS310_ADDR, vec![cfg], 1, false, true);
    s.wait_for(DPS310_ADDR, vec![REG_MEAS_CFG], vec![ready], false);
    s.write_read(DPS310_ADDR, vec![first], 1, true, false);
    s.write_read(DPS310_ADDR, vec![first + 1], 1, true, false);
    s.write_read(DPS310_ADDR, vec![first + 2], 1, true, false);
    assert(s@ =~~= measurement_script(command, cfg, ready, first));
    s.start(Decoder::Dps310RawMeasurement)
}

/// When the sensor accepts the command, answers the configuration read, reports
/// the result ready (`status` shares a bit with `ready`) and returns the bytes
/// `b2`, `b1`, `b0` (driver errors on those three being ignored), a
/// measurement finishes with the 24-bit value `b2 b1 b0`.
pub proof fn lemma_measurement_run(
    command: u8,
    cfg: u8,
    ready: u8,
    first: u8,
    cfg_value: u8,
    status: u8,
    b2: u8,
    b1: u8,
    b0: u8,
    ok2: bool,
    ok1: bool,
    ok0: bool,
)
    requires
        status & ready != 0,
    ensures
        run(
            issue(
                initial(measurement_script(command, cfg, ready, first), Decoder::Dps310RawMeasurement),
                0,
                Seq::empty(),
            ),
            seq![
                (Seq::<u8>::empty(), true),
                (seq![cfg_value], true),
                (seq![status], true),
                (seq![b2], ok2),
                (seq![b1], ok1),
                (seq![b0], ok0),
            ],
        ).1 == StepView::Done(Ok(Reading::RawMeasurement(spec_raw_measurement(seq![b2, b1, b0])))),
{
    let script = measurement_script(command, cfg, ready, first);
    let d = Decoder::Dps310RawMeasurement;
    let r = seq![
        (Seq::<u8>::empty(), true),
        (seq![cfg_value], true),
        (seq![status], true),
        (seq![b2], ok2),
        (seq![b1], ok1),
        (seq![b0], ok0),
    ];
    let s0 = issue(initial(script, d), 0, Seq::empty());
    assert(r.drop_last() =~= r.take(5));
    assert(r.take(5).drop_last() =~= r.take(4));
    assert(r.take(4).drop_last() =~= r.take(3));
    assert(r.take(3).drop_last() =~= r.take(2));
    assert(r.take(2).drop_last() =~= r.take(1));
    assert(r.take(1).drop_last() =~= r.take(0));
    assert(run(s0, r.take(0)) == s0);
    let s1 = spec_resume(s0.0, Seq::empty(), true);
    assert(run(s0, r.take(1)) == s1);
    let s2 = spec_resume(s1.0, seq![cfg_value], true);
    assert(run(s0, r.take(2)) == s2);
    assert(any_masked(seq![status], seq![ready])) by {
        assert(seq![status][0] & seq![ready][0] != 0);
    }
    let s3 = spec_resume(s2.0, seq![status], true);
    assert(run(s0, r.take(3)) == s3);
    assert(s3.0.kept =~= Seq::<u8>::empty());
    let s4 = spec_resume(s3.0, seq![b2], ok2);
    assert(run(s0, r.take(4)) == s4);
    assert(s4.0.kept =~= seq![b2]);
    let s5 = spec_resume(s4.0, seq![b1], ok1);
    assert(run(s0, r.take(5)) == s5);
    assert(s5.0.kept =~= seq![b2, b1]);
    let s6 = spec_resume(s5.0, seq![b0], ok0);
    assert(run(s0, r) == s6);
    assert(s6.0.kept =~= seq![b2, b1, b0]);
}

/// The requests of a measurement procedure, step by step: the command
/// write, the read of the configuration register, the status poll, and
/// after a status reply either the first result register (when `status`
/// shares a bit with `ready`) or a 1 ms pause followed by the same poll.
proof fn lemma_measurement_steps(command: u8, cfg: u8, ready: u8, first: u8, cfg_value: u8, status: u8)
    ensures
        ({
            let s0 = issue(
                initial(measurement_script(command, cfg, ready, first), Decoder::Dps310RawMeasurement),
                0,
                Seq::empty(),
            );
            let e = Seq::<u8>::empty();
            &&& s0.1 == StepView::Perform(RequestView::Write { addr: 0x77, bytes: seq![0x08u8, command] })
            &&& run(s0, seq![(e, true)]).1 == StepView::Perform(
                RequestView::WriteRead { addr: 0x77, bytes: seq![cfg], len: 1 },
            )
            &&& run(s0, seq![(e, true), (seq![cfg_value], true)]).1 == StepView::Perform(
                RequestView::WriteRead { addr: 0x77, bytes: seq![0x08u8], len: 1 },
            )
            &&& run(s0, seq![(e, true), (seq![cfg_value], true), (seq![status], true)]).1 == if status
                & ready != 0 {
                StepView::Perform(RequestView::WriteRead { addr: 0x77, bytes: seq![first], len: 1 })
            } else {
                StepView::Perform(RequestView::Delay { ms: 1 })
            }
            &&& status & ready == 0 ==> run(
                s0,
                seq![(e, true), (seq![cfg_value], true), (seq![status], true), (e, true)],
            ) == run(s0, seq![(e, true), (seq![cfg_value], true)])
        }),
{
    let script = measurement_script(command, cfg, ready, first);
    let d = Decoder::Dps310RawMeasurement;
    let s0 = issue(initial(script, d), 0, Seq::empty());
    let e = Seq::<u8>::empty();
    let r1 = seq![(e, true)];
    let r2 = seq![(e, true), (seq![cfg_value], true)];
    let r3 = seq![(e, true), (seq![cfg_value], true), (seq![status], true)];
    let r4 = seq![(e, true), (seq![cfg_value], true), (seq![status], true), (e, true)];
    assert(r1.drop_last() =~= Seq::<(Seq<u8>, bool)>::empty());
    assert(r2.drop_last() =~= r1);
    assert(r3.drop_last() =~= r2);
    assert(r4.drop_last() =~= r3);
    assert(run(s0, r1.drop_last()) == s0);
    let s1 = spec_resume(s0.0, e, true);
    assert(run(s0, r1) == s1);
    let s2 = spec_resume(s1.0, seq![cfg_value], true);
    assert(run(s0, r2) == s2);
    assert(any_masked(seq![status], seq![ready]) == (status & ready != 0)) by {
        assert(seq![status][0] == status);
        assert(seq![ready][0] == ready);
    }
    let s3 = spec_resume(s2.0, seq![status], true);
    assert(run(s0, r3) == s3);
    assert(run(s0, r4) == spec_resume(s3.0, e, true));
    assert(s2.0.kept =~= Seq::<u8>::empty());
}

/// The value of the 24-bit two's complement number whose bytes are `b2`,
/// `b1`, `b0`, most significant first.
pub open spec fn signed_24(b2: u8, b1: u8, b0: u8) -> int {
    let u = b2 * 65536 + b1 * 256 + b0;
    if u >= 0x800000 {
        u - 0x1000000
    } else {
        u
    }
}

/// A pressure measurement: command 0b001 into MEAS_CFG (0x08), read
/// PRS_CFG (0x06), poll MEAS_CFG until PRS_RDY (bit 4, 0x10) is set, pausing
/// 1 ms after each poll without it, and only then read the result registers
/// 0x00, 0x01, 0x02; it finishes with their 24-bit two's complement value.
pub proof fn lemma_read_pressure_protocol(
    cfg_value: u8,
    status: u8,
    b2: u8,
    b1: u8,
    b0: u8,
    ok2: bool,
    ok1: bool,
    ok0: bool,
)
    ensures
        ({
            let s0 = issue(
                initial(read_pressure_script(), Decoder::Dps310RawMeasurement),
                0,
                Seq::empty(),
            );
            let e = Seq::<u8>::empty();
            &&& s0.1 == StepView::Perform(RequestView::Write { addr: 0x77, bytes: seq![0x08u8, 0x01u8] })
            &&& run(s0, seq![(e, true)]).1 == StepView::Perform(
                RequestView::WriteRead { addr: 0x77, bytes: seq![0x06u8], len: 1 },
            )
            &&& run(s0, seq![(e, true), (seq![cfg_value], true)]).1 == StepView::Perform(
                RequestView::WriteRead { addr: 0x77, bytes: seq![0x08u8], len: 1 },
            )
            &&& run(s0, seq![(e, true), (seq![cfg_value], true), (seq![status], true)]).1 == if status
                & 0x10 != 0 {
                StepView::Perform(RequestView::WriteRead { addr: 0x77, bytes: seq![0x00u8], len: 1 })
            } else {
                StepView::Perform(RequestView::Delay { ms: 1 })
            }
            &&& status & 0x10 == 0 ==> run(
                s0,
                seq![(e, true), (seq![cfg_value], true), (seq![status], true), (e, true)],
            ) == run(s0, seq![(e, true), (seq![cfg_value], true)])
            &&& status & 0x10 != 0 ==> run(
                s0,
                seq![
                    (e, true),
                    (seq![cfg_value], true),
                    (seq![status], true),
                    (seq![b2], ok2),
                    (seq![b1], ok1),
                    (seq![b0], ok0),
                ],
            ).1 == StepView::Done(Ok(Reading::RawMeasurement(signed_24(b2, b1, b0) as i32)))
        }),
{
    lemma_measurement_steps(0b001, REG_PRS_CFG, 0x10, REG_PRS_B2, cfg_value, status);
    if status & 0x10 != 0 {
        lemma_measurement_run(0b001, REG_PRS_CFG, 0x10, REG_PRS_B2, cfg_value, status, b2, b1, b0, ok2, ok1, ok0);
        lemma_widths();
    }
}

/// A temperature measurement: command 0b010 into MEAS_CFG (0x08), read
/// TMP_CFG (0x07), poll MEAS_CFG until TMP_RDY (bit 5, 0x20) is set, pausing
/// 1 ms after each poll without it, and only then read the result registers
/// 0x03, 0x04, 0x05; it finishes with their 24-bit two's complement value.
pub proof fn lemma_read_temprature_protocol(
    cfg_value: u8,
    status: u8,
    b2: u8,
    b1: u8,
    b0: u8,
    ok2: bool,
    ok1: bool,
    ok0: bool,
)
    ensures
        ({
            let s0 = issue(
                initial(read_temprature_script(), Decoder::Dps310RawMeasurement),
                0,
                Seq::empty(),
            );
            let e = Seq::<u8>::empty();
            &&& s0.1 == StepView::Perform(RequestView::Write { addr: 0x77, bytes: seq![0x08u8, 0x02u8] })
            &&& run(s0, seq![(e, true)]).1 == StepView::Perform(
                RequestView::WriteRead { addr: 0x77, bytes: seq![0x07u8], len: 1 },
            )
            &&& run(s0, seq![(e, true), (seq![cfg_value], true)]).1 == StepView::Perform(
                RequestView::WriteRead { addr: 0x77, bytes: seq![0x08u8], len: 1 },
            )
            &&& run(s0, seq![(e, true), (seq![cfg_value], true), (seq![status], true)]).1 == if status
                & 0x20 != 0 {
                StepView::Perform(RequestView::WriteRead { addr: 0x77, bytes: seq![0x03u8], len: 1 })
            } else {
                StepView::Perform(RequestView::Delay { ms: 1 })
            }
            &&& status & 0x20 == 0 ==> run(
                s0,
                seq![(e, true), (seq![cfg_value], true), (seq![status], true), (e, true)],
            ) == run(s0, seq![(e, true), (seq![cfg_value], true)])
            &&& status & 0x20 != 0 ==> run(
                s0,
                seq![
                    (e, true),
                    (seq![cfg_value], true),
                    (seq![status], true),
                    (seq![b2], ok2),
                    (seq![b1], ok1),
                    (seq![b0], ok0),
                ],
            ).1 == StepView::Done(Ok(Reading::RawMeasurement(signed_24(b2, b1, b0) as i32)))
        }),
{
    lemma_measurement_steps(0b010, REG_TMP_CFG, 0x20, REG_TMP_B2, cfg_value, status);
    if status & 0x20 != 0 {
        lemma_measurement_run(0b010, REG_TMP_CFG, 0x20, REG_TMP_B2, cfg_value, status, b2, b1, b0, ok2, ok1, ok0);
        lemma_widths();
    }
}

/// Reading the status with a successful one-byte reply `b` finishes with
/// the flags of `b`: coefficients ready bit 7 (0x80), sensor ready bit 6
/// (0x40), temperature ready bit 5 (0x20), pressure ready bit 4 (0x10), and
/// the control field `b % 8`.
pub proof fn lemma_get_status_run(b: u8)
    ensures
        run(
            issue(initial(get_status_script(), Decoder::Dps310Status), 0, Seq::empty()),
            seq![(seq![b], true)],
        ).1 == StepView::Done(Ok(Reading::Status(Dps310Status {
            coef_ready: b & 0x80 != 0,
            sens_ready: b & 0x40 != 0,
            temp_ready: b & 0x20 != 0,
            prs_ready: b & 0x10 != 0,
            ctr: b % 8,
        }))),
{
    let script = get_status_script();
    let replies = seq![(seq![b], true)];
    crate::bus::lemma_run_completes(script, Decoder::Dps310Status, replies);
    assert(script.drop_last() =~= script.take(0));
    assert(replies.drop_last() =~= replies.take(0));
    reveal_with_fuel(kept_bytes, 2);
    assert(kept_bytes(script, replies) =~= seq![b]);
    assert(((b & 0x80 != 0) == bit_set(b, 7)) && ((b & 0x40 != 0) == bit_set(b, 6)) && ((b & 0x20
        != 0) == bit_set(b, 5)) && ((b & 0x10 != 0) == bit_set(b, 4))) by (bit_vector);
}

/// The bus steps of `read_pressure`: a single pressure measurement.
pub open spec fn read_pressure_script() -> Seq<OpView> {
    measurement_script(0b001, REG_PRS_CFG, 0x10, REG_PRS_B2)
}

/// Measures the raw (unscaled) pressure once.
pub fn read_pressure() -> (r: (Procedure, Step))
    ensures
        r.0.inv(),
        (r.0@, r.1@) == issue(
            initial(read_pressure_script(), Decoder::Dps310RawMeasurement),
            0,
            Seq::empty(),
        ),
{
    measurement(0b001, REG_PRS_CFG, 0x10, REG_PRS_B2)
}

/// The bus steps of `read_temprature`: a single temperature measurement.
pub open spec fn read_temprature_script() -> Seq<OpView> {
    measurement_script(0b010, REG_TMP_CFG, 0x20, REG_TMP_B2)
}

/// Measures the raw (unscaled) temperature once.
pub fn read_temprature() -> (r: (Procedure, Step))
    ensures
        r.0.inv(),
        (r.0@, r.1@) == issue(
            initial(read_temprature_script(), Decoder::Dps310RawMeasurement),
            0,
            Seq::empty(),
        ),
{
    measurement(0b010, REG_TMP_CFG, 0x20, REG_TMP_B2)
}

} // verus!
