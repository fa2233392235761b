use vstd::prelude::*;
use crate::bus::{Script, Procedure, Step, StepView, Decoder, OpView, Reading, issue, initial,
    tolerated_write, required_write, required_read, pause, run, kept_bytes, lemma_run_completes};

verus! {

/// 7-bit I2C address of the BH1750 ambient light sensor.
pub const BH1750_ADDR: u8 = 0x23;

/// Instruction opcodes of the BH1750.
pub const OPECODE_POWER_ON: u8 = 0x1;
pub const OPECODE_ONE_TIME_H_RES2: u8 = 0x21;
/// The high and low bits of the MTreg value are OR-ed into these two.
pub const OPECODE_CHANGE_MEASUREMENT_TIME_HIGH: u8 = 0b0100_0000;
pub const OPECODE_CHANGE_MEASUREMENT_TIME_LOW: u8 = 0b0110_0000;

/// The measurement time register value this driver sets (the default is 69);
/// a measurement then takes `MTreg / 69` times as long.
pub const BH1750_MTREG: u8 = 0xfe;

/// The two "change measurement time" instructions that set MTreg to
/// `mtreg`: the high one carries bits 5..8 of it, the low one bits 0..5.
pub fn measurement_time_commands(mtreg: u8) -> (r: (u8, u8))
    ensures
        r.0 == 0x40 + mtreg / 32,
        r.1 == 0x60 + mtreg % 32,
        r.0 / 8 == 0b01000,
        r.1 / 32 == 0b011,
        (r.0 % 8) * 32 + r.1 % 32 == mtreg,
{
    let high: u8 = OPECODE_CHANGE_MEASUREMENT_TIME_HIGH | (mtreg >> 5u8);
    let low: u8 = OPECODE_CHANGE_MEASUREMENT_TIME_LOW | (mtreg & 0x1f);
    assert(high == 0x40 + mtreg / 32 && low == 0x60 + mtreg % 32 && high / 8 == 0b01000
        && low / 32 == 0b011 && (high % 8) * 32 + low % 32 == mtreg) by (bit_vector)
        requires
            high == 0b0100_0000u8 | (mtreg >> 5u8),
            low == 0b0110_0000u8 | (mtreg & 0x1f),
    ;
    (high, low)
}

/// The raw illuminance count of a two-byte measurement reply, most
/// significant byte first.
pub open spec fn spec_measurement(b: Seq<u8>) -> u16 {
    (b[0] * 256 + b[1]) as u16
}

/// Decodes the two-byte reply of a one-time measurement.
pub fn decode_measurement(raw: &[u8]) -> (r: u16)
    requires
        raw@.len() == 2,
    ensures
        r == spec_measurement(raw@),
{
    let hi: u8 = raw[0];
    let lo: u8 = raw[1];
    let r: u16 = (hi as u16) << 8 | lo as u16;
    assert(r == hi * 256 + lo) by (bit_vector)
        requires
            r == (hi as u16) << 8 | lo as u16,
    ;
    r
}

/// The bus steps of `setup`: power on, set MTreg through its two
/// "change measurement time" instructions, then give the sensor 480 ms.
/// Driver errors are ignored.
pub open spec fn setup_script() -> Seq<OpView> {
    seq![
        tolerated_write(BH1750_ADDR, seq![OPECODE_POWER_ON]),
        tolerated_write(BH1750_ADDR, seq![(OPECODE_CHANGE_MEASUREMENT_TIME_HIGH + BH1750_MTREG / 32) as u8]),
        tolerated_write(BH1750_ADDR, seq![(OPECODE_CHANGE_MEASUREMENT_TIME_LOW + BH1750_MTREG % 32) as u8]),
        pause(480),
    ]
}

/// Powers the sensor on and sets its measurement time register.
pub fn setup() -> (r: (Procedure, Step))
    ensures
        r.0.inv(),
        (r.0@, r.1@) == issue(initial(setup_script(), Decoder::Nothing), 0, Seq::empty()),
{
    let (high, low) = measurement_time_commands(BH1750_MTREG);
    let mut s = Script::new();
    s.write(BH1750_ADDR, vec![OPECODE_POWER_ON], false);
    s.write(BH1750_ADDR, vec![high], false);
    s.write(BH1750_ADDR, vec![low], false);
    s.pause(120 * 4);
    assert(s@ =~~= setup_script());
    s.start(Decoder::Nothing)
}

/// The bus steps of `perform_measurement`: power on, start a one-time
/// high resolution (mode 2) measurement, read the two result bytes.
/// Every driver error ends the procedure.
pub open spec fn perform_measurement_script() -> Seq<OpView> {
    seq![
        required_write(BH1750_ADDR, seq![OPECODE_POWER_ON]),
        required_write(BH1750_ADDR, seq![OPECODE_ONE_TIME_H_RES2]),
        required_read(BH1750_ADDR, 2),
    ]
}

/// Takes one raw illuminance measurement.
pub fn perform_measurement() -> (r: (Procedure, Step))
    ensures
        r.0.inv(),
        (r.0@, r.1@) == issue(
            initial(perform_measurement_script(), Decoder::Bh1750Measurement),
            0,
            Seq::empty(),
        ),
{
    let mut s = Script::new();
    s.write(BH1750_ADDR, vec![OPECODE_POWER_ON], true);
    s.write(BH1750_ADDR, vec![OPECODE_ONE_TIME_H_RES2], true);
    s.read(BH1750_ADDR, 2);
    assert(s@ =~~= perform_measurement_script());
    s.start(Decoder::Bh1750Measurement)
}

/// When the bus accepts both instructions and returns the bytes `hi`, `lo`,
/// a measurement finishes with the illuminance count `hi * 256 + lo`.
pub proof fn lemma_measurement_run(hi: u8, lo: u8)
    ensures
        run(
            issue(initial(perform_measurement_script(), Decoder::Bh1750Measurement), 0, Seq::empty()),
            seq![(Seq::<u8>::empty(), true), (Seq::<u8>::empty(), true), (seq![hi, lo], true)],
        ).1 == StepView::Done(Ok(Reading::Illuminance((hi * 256 + lo) as u16))),
{
    let script = perform_measurement_script();
    let replies = seq![(Seq::<u8>::empty(), true), (Seq::<u8>::empty(), true), (seq![hi, lo], true)];
    lemma_run_completes(script, Decoder::Bh1750Measurement, replies);
    assert(script.drop_last() =~= script.take(2));
    assert(replies.drop_last() =~= replies.take(2));
    assert(script.take(2).drop_last() =~= script.take(1));
    assert(replies.take(2).drop_last() =~= replies.take(1));
    assert(script.take(1).drop_last() =~= script.take(0));
    assert(replies.take(1).drop_last() =~= replies.take(0));
    reveal_with_fuel(kept_bytes, 4);
    assert(kept_bytes(script, replies) =~= seq![hi, lo]);
}

} // verus!
