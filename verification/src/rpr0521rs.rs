use vstd::prelude::*;
use crate::byte_order::read_u16_le;
use crate::bus::{Script, Procedure, Step, StepView, Decoder, OpView, Reading, issue, initial,
    tolerated_write, write_read, run, kept_bytes, lemma_run_completes};

verus! {

/// 7-bit I2C address of the RPR-0521RS ambient light / proximity sensor.
pub const RPR_ADDR: u8 = 0x38;

/// Register addresses of the RPR-0521RS used by this driver.
pub const REG_SYSTEM_CONTROL: u8 = 0x40;
pub const REG_MODE_CONTROL: u8 = 0x41;
pub const REG_ALS_PS_CONTROL: u8 = 0x42;
pub const REG_ALS0_LSB: u8 = 0x46;

/// ALS gain patterns of the ALS_PS_CONTROL register (both channels).
pub const ALS_GAIN_X1: u8 = 0b00_00_00_00;
pub const ALS_GAIN_X64: u8 = 0b00_10_10_00;
/// LED current setting of 200 mA.
pub const ALS_LED_CURRENT_200: u8 = 0b00_00_00_11;

/// The gain of one ALS channel.
#[derive(Debug, Clone, Copy, PartialEq, Eq)]
pub enum AlsGain {
    X1,
    X2,
    X64,
    X128,
}

/// The gain that a 2-bit gain code selects: 0 x1, 1 x2, 2 x64, 3 x128.
pub open spec fn spec_gain_code(code: int) -> AlsGain {
    if code == 0 {
        AlsGain::X1
    } else if code == 1 {
        AlsGain::X2
    } else if code == 2 {
        AlsGain::X64
    } else {
        AlsGain::X128
    }
}

/// The gains of channel 0 (bits 5..4) and channel 1 (bits 3..2) selected by
/// an ALS_PS_CONTROL value.
pub open spec fn spec_gains(ctrl: u8) -> (AlsGain, AlsGain) {
    (spec_gain_code(((ctrl / 16) % 4) as int), spec_gain_code(((ctrl / 4) % 4) as int))
}

/// The multiplication factor of a gain.
pub open spec fn spec_factor(g: AlsGain) -> u8 {
    match g {
        AlsGain::X1 => 1,
        AlsGain::X2 => 2,
        AlsGain::X64 => 64,
        AlsGain::X128 => 128,
    }
}

impl AlsGain {
    /// The multiplication factor of the gain, which a count is divided by.
    pub fn factor(&self) -> (r: u8)
        ensures
            r == spec_factor(*self),
    {
        match self {
            AlsGain::X1 => 1,
            AlsGain::X2 => 2,
            AlsGain::X64 => 64,
            AlsGain::X128 => 128,
        }
    }
}

fn gain_of_code(code: u8) -> (r: AlsGain)
    requires
        code < 4,
    ensures
        r == spec_gain_code(code as int),
{
    if code == 0 {
        AlsGain::X1
    } else if code == 1 {
        AlsGain::X2
    } else if code == 2 {
        AlsGain::X64
    } else {
        AlsGain::X128
    }
}

/// Reads the gains of channel 0 and channel 1 from an ALS_PS_CONTROL value.
pub fn gain_from_control(ctrl: u8) -> (r: (AlsGain, AlsGain))
    ensures
        r == spec_gains(ctrl),
{
    let code0: u8 = (ctrl >> 4u8) & 0b11;
    let code1: u8 = (ctrl >> 2u8) & 0b11;
    assert(code0 == (ctrl / 16) % 4 && code1 == (ctrl / 4) % 4) by (bit_vector)
        requires
            code0 == (ctrl >> 4u8) & 0b11,
            code1 == (ctrl >> 2u8) & 0b11,
    ;
    (gain_of_code(code0), gain_of_code(code1))
}

/// The ALS gain patterns of both channels at x1 and both at x64 have the
/// gain codes 0 and 2.
pub proof fn lemma_gain_patterns()
    ensures
        spec_gains(ALS_GAIN_X1 | ALS_LED_CURRENT_200) == (AlsGain::X1, AlsGain::X1),
        spec_gains(ALS_GAIN_X64) == (AlsGain::X64, AlsGain::X64),
{
    assert(0b00_00_00_00u8 | 0b00_00_00_11u8 == 3u8) by (bit_vector);
}

/// One ambient light reading: the two raw ALS channel counts (visible +
/// infrared, and infrared) and the gain each was taken with.
#[derive(Debug, Clone, Copy, PartialEq, Eq)]
pub struct AlsSample {
    pub als0: u16,
    pub als1: u16,
    pub gain0: AlsGain,
    pub gain1: AlsGain,
}

/// The sample held in the four ALS data registers (channel 0 then
/// channel 1, each least significant byte first) and the control register.
pub open spec fn spec_sample(b: Seq<u8>) -> AlsSample {
    AlsSample {
        als0: (b[0] + b[1] * 256) as u16,
        als1: (b[2] + b[3] * 256) as u16,
        gain0: spec_gains(b[4]).0,
        gain1: spec_gains(b[4]).1,
    }
}

/// Decodes the ALS data registers 0x46..=0x49 followed by the
/// ALS_PS_CONTROL register.
pub fn decode_sample(raw: &[u8]) -> (r: AlsSample)
    requires
        raw@.len() == 5,
    ensures
        r == spec_sample(raw@),
{
    let als0: u16 = read_u16_le(&raw[0..2]);
    let als1: u16 = read_u16_le(&raw[2..4]);
    let (gain0, gain1) = gain_from_control(raw[4]);
    AlsSample { als0, als1, gain0, gain1 }
}

/// The bus steps of `setup`: soft reset, ALS on with 400 ms measurement
/// time, all gains x1 with 200 mA LED current. Driver errors are ignored.
pub open spec fn setup_script() -> Seq<OpView> {
    seq![
        tolerated_write(RPR_ADDR, seq![REG_SYSTEM_CONTROL, 0x80u8]),
        tolerated_write(RPR_ADDR, seq![REG_MODE_CONTROL, 0x8au8]),
        tolerated_write(RPR_ADDR, seq![REG_ALS_PS_CONTROL, ALS_GAIN_X1 | ALS_LED_CURRENT_200]),
    ]
}

/// Resets the sensor and configures ambient light measurement.
pub fn setup() -> (r: (Procedure, Step))
    ensures
        r.0.inv(),
        (r.0@, r.1@) == issue(initial(setup_script(), Decoder::Nothing), 0, Seq::empty()),
{
    let mut s = Script::new();
    s.write(RPR_ADDR, vec![REG_SYSTEM_CONTROL, 0x80], false);
    s.write(RPR_ADDR, vec![REG_MODE_CONTROL, 0x8a], false);
    s.write(RPR_ADDR, vec![REG_ALS_PS_CONTROL, ALS_GAIN_X1 | ALS_LED_CURRENT_200], false);
    assert(s@ =~~= setup_script());
    s.start(Decoder::Nothing)
}

/// The bus steps of `perform_measurement`: read the four ALS data
/// registers, then the ALS_PS_CONTROL register. Every driver error ends
/// the procedure.
pub open spec fn perform_measurement_script() -> Seq<OpView> {
    seq![
        write_read(RPR_ADDR, seq![REG_ALS0_LSB], 4, true, true),
        write_read(RPR_ADDR, seq![REG_ALS_PS_CONTROL], 1, true, true),
    ]
}

/// Reads one ambient light sample.
pub fn perform_measurement() -> (r: (Procedure, Step))
    ensures
        r.0.inv(),
        (r.0@, r.1@) == issue(
            initial(perform_measurement_script(), Decoder::Rpr0521Sample),
            0,
            Seq::empty(),
        ),
{
    let mut s = Script::new();
    s.write_read(RPR_ADDR, vec![REG_ALS0_LSB], 4, true, true);
    s.write_read(RPR_ADDR, vec![REG_ALS_PS_CONTROL], 1, true, true);
    assert(s@ =~~= perform_measurement_script());
    s.start(Decoder::Rpr0521Sample)
}

/// When the bus returns the four ALS data bytes `data` and the control
/// byte `ctrl`, a measurement finishes with the two little-endian channel
/// counts and the gains that `ctrl` selects: channel 0 from bits 5..4,
/// channel 1 from bits 3..2, codes 0, 1, 2, 3 meaning x1, x2, x64, x128.
pub proof fn lemma_measurement_run(data: Seq<u8>, ctrl: u8)
    requires
        data.len() == 4,
    ensures
        run(
            issue(initial(perform_measurement_script(), Decoder::Rpr0521Sample), 0, Seq::empty()),
            seq![(data, true), (seq![ctrl], true)],
        ).1 == StepView::Done(Ok(Reading::Als(AlsSample {
            als0: (data[0] + data[1] * 256) as u16,
            als1: (data[2] + data[3] * 256) as u16,
            gain0: if ctrl & 0x30 == 0x00 {
                AlsGain::X1
            } else if ctrl & 0x30 == 0x10 {
                AlsGain::X2
            } else if ctrl & 0x30 == 0x20 {
                AlsGain::X64
            } else {
                AlsGain::X128
            },
            gain1: if ctrl & 0x0c == 0x00 {
                AlsGain::X1
            } else if ctrl & 0x0c == 0x04 {
                AlsGain::X2
            } else if ctrl & 0x0c == 0x08 {
                AlsGain::X64
            } else {
                AlsGain::X128
            },
        }))),
{
    let script = perform_measurement_script();
    let replies = seq![(data, true), (seq![ctrl], true)];
    lemma_run_completes(script, Decoder::Rpr0521Sample, replies);
    assert(script.drop_last() =~= script.take(1));
    assert(replies.drop_last() =~= replies.take(1));
    assert(script.take(1).drop_last() =~= script.take(0));
    assert(replies.take(1).drop_last() =~= replies.take(0));
    reveal_with_fuel(kept_bytes, 3);
    assert(kept_bytes(script, replies) =~= data + seq![ctrl]);
    assert((data + seq![ctrl])[4] == ctrl);
    assert(((ctrl / 16) % 4 == 0) == (ctrl & 0x30 == 0x00) && ((ctrl / 16) % 4 == 1) == (ctrl & 0x30
        == 0x10) && ((ctrl / 16) % 4 == 2) == (ctrl & 0x30 == 0x20) && ((ctrl / 4) % 4 == 0) == (ctrl
        & 0x0c == 0x00) && ((ctrl / 4) % 4 == 1) == (ctrl & 0x0c == 0x04) && ((ctrl / 4) % 4 == 2) == (
    ctrl & 0x0c == 0x08) && (ctrl / 16) % 4 < 4 && (ctrl / 4) % 4 < 4) by (bit_vector);
}

} // verus!
