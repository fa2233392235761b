use vstd::prelude::*;
use crate::byte_order::read_u16_be;
use crate::bus::{Script, Procedure, Step, StepView, Decoder, OpView, Reading, Refusal, issue,
    initial, spec_refusal, any_masked, wait_for,
    tolerated_write, required_write, write_read, pause, run, kept_bytes, lemma_run_completes};

verus! {

/// 7-bit I2C address of the SCD41 CO2 sensor.
pub const SCD41_ADDR: u8 = 0x62;

/// Command words of the SCD41 (sent most significant byte first).
pub const CMD_START_PERIODIC_MEASUREMENT: u16 = 0x21b1;
pub const CMD_STOP_PERIODIC_MEASUREMENT: u16 = 0x3f86;
pub const CMD_GET_DATA_READY_STATUS: u16 = 0xe4b8;
pub const CMD_READ_MEASUREMENT: u16 = 0xec05;

/// The two bytes that send command word `w`, most significant first.
pub open spec fn command_bytes(w: u16) -> Seq<u8> {
    seq![(w / 256) as u8, (w % 256) as u8]
}

/// The bytes that send command word `w`.
pub fn command(w: u16) -> (r: Vec<u8>)
    ensures
        r@ == command_bytes(w),
{
    let hi: u8 = (w >> 8u16) as u8;
    let lo: u8 = (w & 0xff) as u8;
    assert(hi == w / 256 && lo == w % 256) by (bit_vector)
        requires
            hi == (w >> 8u16) as u8,
            lo == (w & 0xff) as u8,
    ;
    let r = vec![hi, lo];
    assert(r@ =~= command_bytes(w));
    r
}

/// Generator polynomial x^8 + x^5 + x^4 + 1 of the Sensirion CRC-8.
pub const CRC8_POLYNOMIAL: u8 = 0x31;
/// Initial value of the Sensirion CRC-8.
pub const CRC8_INIT: u8 = 0xff;

/// One step of the CRC-8 shift register.
pub open spec fn crc_shift(c: u8) -> u8 {
    if c & 0x80 != 0 {
        (c << 1u8) ^ CRC8_POLYNOMIAL
    } else {
        c << 1u8
    }
}

/// `n` steps of the CRC-8 shift register.
pub open spec fn crc_shift_n(c: u8, n: nat) -> u8
    decreases n,
{
    if n == 0 {
        c
    } else {
        crc_shift(crc_shift_n(c, (n - 1) as nat))
    }
}

/// The register after feeding byte `b` into register value `c`.
pub open spec fn crc_feed(c: u8, b: u8) -> u8 {
    crc_shift_n(c ^ b, 8)
}

/// The register after feeding the bytes of `s`, in order, into `c`.
pub open spec fn crc8_from(c: u8, s: Seq<u8>) -> u8
    decreases s.len(),
{
    if s.len() == 0 {
        c
    } else {
        crc_feed(crc8_from(c, s.drop_last()), s.last())
    }
}

/// The Sensirion CRC-8 (polynomial 0x31, initial value 0xff) of `s`.
pub open spec fn crc8(s: Seq<u8>) -> u8 {
    crc8_from(CRC8_INIT, s)
}

/// Runs the CRC-8 over `data` and tells whether the remainder is zero, which
/// holds for a data word followed by its CRC byte.
pub fn check_crc(data: &[u8]) -> (r: bool)
    ensures
        r == (crc8(data@) == 0),
{
    let mut crc: u8 = CRC8_INIT;
    for i in 0..data.len()
        invariant
            crc == crc8(data@.subrange(0, i as int)),
    {
        assert(data@.subrange(0, i + 1).drop_last() =~= data@.subrange(0, i as int));
        crc ^= data[i];
        let ghost start = crc;
        for j in 0..8u32
            invariant
                crc == crc_shift_n(start, j as nat),
        {
            if crc & 0x80 != 0 {
                crc = (crc << 1u8) ^ CRC8_POLYNOMIAL;
            } else {
                crc = crc << 1u8;
            }
        }
    }
    assert(data@.subrange(0, data@.len() as int) =~= data@);
    assert((crc & 0xff == 0) == (crc == 0)) by (bit_vector);
    crc & 0xff == 0
}

/// Eight register steps map zero, and only zero, to zero (the generator
/// polynomial has a constant term, so each step is invertible).
proof fn lemma_shift8_zero(v: u8)
    ensures
        (crc_shift_n(v, 8) == 0) <==> (v == 0),
{
    reveal_with_fuel(crc_shift_n, 9);
    assert((crc_shift(crc_shift(crc_shift(crc_shift(crc_shift(crc_shift(crc_shift(crc_shift(v))))))))
        == 0) <==> (v == 0)) by (bit_vector);
}

/// Feeding one more byte `c` into the CRC-8 of `data` gives remainder zero
/// exactly when `c` is that CRC: a data word followed by a byte passes the
/// check if and only if the byte is the data's CRC.
pub proof fn lemma_crc_check_iff(data: Seq<u8>, c: u8)
    ensures
        (crc8(data.push(c)) == 0) <==> (c == crc8(data)),
{
    assert(data.push(c).drop_last() =~= data);
    let x: u8 = crc8(data);
    assert(crc8(data.push(c)) == crc_feed(x, c));
    lemma_shift8_zero(x ^ c);
    assert(((x ^ c) == 0) <==> (x == c)) by (bit_vector);
}

/// Appending its CRC to a data word makes the word pass the check.
pub proof fn lemma_crc_appended(data: Seq<u8>)
    ensures
        crc8(data.push(crc8(data))) == 0,
{
    lemma_crc_check_iff(data, crc8(data));
}

/// Parity (0 or 1) of the number of set bits of `b`.
pub open spec fn byte_parity(b: u8) -> u8 {
    (b ^ (b >> 1u8) ^ (b >> 2u8) ^ (b >> 3u8) ^ (b >> 4u8) ^ (b >> 5u8) ^ (b >> 6u8) ^ (b >> 7u8)) & 1
}

/// Parity (0 or 1) of the number of set bits of all bytes of `s`.
pub open spec fn parity(s: Seq<u8>) -> u8
    decreases s.len(),
{
    if s.len() == 0 {
        0
    } else {
        parity(s.drop_last()) ^ byte_parity(s.last())
    }
}

/// The bytewise exclusive or of two byte strings of equal length: the bits
/// in which they differ.
pub open spec fn xor_seq(a: Seq<u8>, b: Seq<u8>) -> Seq<u8> {
    Seq::new(a.len(), |i: int| a[i] ^ b[i])
}

proof fn lemma_shift_n_parity(v: u8, n: nat)
    ensures
        byte_parity(crc_shift_n(v, n)) == byte_parity(v),
    decreases n,
{
    if n > 0 {
        lemma_shift_n_parity(v, (n - 1) as nat);
        let w = crc_shift_n(v, (n - 1) as nat);
        assert(byte_parity(crc_shift(w)) == byte_parity(w)) by (bit_vector);
    }
}

proof fn lemma_shift8_parity(c: u8, b: u8)
    ensures
        byte_parity(crc_feed(c, b)) == byte_parity(c) ^ byte_parity(b),
{
    lemma_shift_n_parity(c ^ b, 8);
    assert(byte_parity(c ^ b) == byte_parity(c) ^ byte_parity(b)) by (bit_vector);
}

/// The register keeps the parity of everything fed into it.
proof fn lemma_crc_parity(c: u8, s: Seq<u8>)
    ensures
        byte_parity(crc8_from(c, s)) == byte_parity(c) ^ parity(s),
    decreases s.len(),
{
    if s.len() == 0 {
        assert(byte_parity(c) ^ 0u8 == byte_parity(c)) by (bit_vector);
    } else {
        lemma_crc_parity(c, s.drop_last());
        lemma_shift8_parity(crc8_from(c, s.drop_last()), s.last());
        let x = byte_parity(c);
        let y = parity(s.drop_last());
        let z = byte_parity(s.last());
        assert((x ^ y) ^ z == x ^ (y ^ z)) by (bit_vector);
    }
}

proof fn lemma_parity_xor(a: Seq<u8>, b: Seq<u8>)
    requires
        a.len() == b.len(),
    ensures
        parity(xor_seq(a, b)) == parity(a) ^ parity(b),
    decreases a.len(),
{
    if a.len() == 0 {
        assert(0u8 ^ 0u8 == 0u8) by (bit_vector);
    } else {
        lemma_parity_xor(a.drop_last(), b.drop_last());
        assert(xor_seq(a, b).drop_last() =~= xor_seq(a.drop_last(), b.drop_last()));
        assert(xor_seq(a, b).last() == a.last() ^ b.last());
        let x = a.last();
        let y = b.last();
        let pa = parity(a.drop_last());
        let pb = parity(b.drop_last());
        assert(byte_parity(x ^ y) == byte_parity(x) ^ byte_parity(y)) by (bit_vector);
        assert((pa ^ pb) ^ (byte_parity(x) ^ byte_parity(y)) == (pa ^ byte_parity(x)) ^ (pb
            ^ byte_parity(y))) by (bit_vector);
    }
}

/// Every byte string that passes the CRC check has an even number of set
/// bits (the generator polynomial has an even number of terms), so the
/// check detects every error that flips an odd number of bits.
pub proof fn lemma_crc_detects_odd_errors(d: Seq<u8>, d2: Seq<u8>)
    requires
        d.len() == d2.len(),
        crc8(d) == 0,
        parity(xor_seq(d, d2)) == 1,
    ensures
        parity(d) == 0,
        crc8(d2) != 0,
{
    lemma_crc_parity(CRC8_INIT, d);
    lemma_crc_parity(CRC8_INIT, d2);
    lemma_parity_xor(d, d2);
    let p = parity(d);
    let q = parity(d2);
    let c2 = crc8(d2);
    assert(byte_parity(0) == 0 && byte_parity(0xff) == 0) by (bit_vector);
    let z = byte_parity(0);
    assert(p == 0) by (bit_vector)
        requires
            z == 0,
            z == 0u8 ^ p,
    ;
    assert(q == 1) by (bit_vector)
        requires
            p == 0,
            p ^ q == 1,
    ;
    assert(byte_parity(c2) == 1);

}

/// The 16 bits of byte `a` followed by byte `b`, most significant first.
pub open spec fn word16(a: u8, b: u8) -> u16 {
    ((a as u16) << 8u16) | (b as u16)
}

/// The set bits of `w` lie within 8 consecutive bit positions: `w` is an
/// 8-bit value shifted left by 0 to 8 places.
pub open spec fn burst_of_8(w: u16) -> bool {
    ||| w < 0x100
    ||| (w & 0x1 == 0 && w < 0x200)
    ||| (w & 0x3 == 0 && w < 0x400)
    ||| (w & 0x7 == 0 && w < 0x800)
    ||| (w & 0xf == 0 && w < 0x1000)
    ||| (w & 0x1f == 0 && w < 0x2000)
    ||| (w & 0x3f == 0 && w < 0x4000)
    ||| (w & 0x7f == 0 && w < 0x8000)
    ||| w & 0xff == 0
}

proof fn lemma_shift_xor(a: u8, b: u8)
    ensures
        crc_shift(a) ^ crc_shift(b) == crc_shift(a ^ b),
{
    assert(crc_shift(a) ^ crc_shift(b) == crc_shift(a ^ b)) by (bit_vector);
}

proof fn lemma_shift_n_xor(a: u8, b: u8, n: nat)
    ensures
        crc_shift_n(a, n) ^ crc_shift_n(b, n) == crc_shift_n(a ^ b, n),
    decreases n,
{
    if n > 0 {
        lemma_shift_n_xor(a, b, (n - 1) as nat);
        lemma_shift_xor(crc_shift_n(a, (n - 1) as nat), crc_shift_n(b, (n - 1) as nat));
    }
}

/// The CRC register is linear: running two byte strings of equal length from
/// two start values and combining the results is running their combination.
proof fn lemma_crc_linear(c1: u8, s1: Seq<u8>, c2: u8, s2: Seq<u8>)
    requires
        s1.len() == s2.len(),
    ensures
        crc8_from(c1, s1) ^ crc8_from(c2, s2) == crc8_from(c1 ^ c2, xor_seq(s1, s2)),
    decreases s1.len(),
{
    if s1.len() > 0 {
        lemma_crc_linear(c1, s1.drop_last(), c2, s2.drop_last());
        assert(xor_seq(s1, s2).drop_last() =~= xor_seq(s1.drop_last(), s2.drop_last()));
        let r1 = crc8_from(c1, s1.drop_last());
        let r2 = crc8_from(c2, s2.drop_last());
        let x = s1.last();
        let y = s2.last();
        lemma_shift_n_xor(r1 ^ x, r2 ^ y, 8);
        assert((r1 ^ x) ^ (r2 ^ y) == (r1 ^ r2) ^ (x ^ y)) by (bit_vector);
    }
}

/// Running `a` then `b` is running `a + b`.
proof fn lemma_crc_concat(c: u8, a: Seq<u8>, b: Seq<u8>)
    ensures
        crc8_from(c, a + b) == crc8_from(crc8_from(c, a), b),
    decreases b.len(),
{
    if b.len() == 0 {
        assert(a + b =~= a);
    } else {
        lemma_crc_concat(c, a, b.drop_last());
        assert((a + b).drop_last() =~= a + b.drop_last());
        assert((a + b).last() == b.last());
    }
}

/// Zero bytes keep a zero register at zero and a nonzero one nonzero.
proof fn lemma_crc_zeros(c: u8, z: Seq<u8>)
    requires
        forall|i: int| 0 <= i < z.len() ==> z[i] == 0,
    ensures
        (crc8_from(c, z) == 0) == (c == 0),
    decreases z.len(),
{
    if z.len() > 0 {
        lemma_crc_zeros(c, z.drop_last());
        let r = crc8_from(c, z.drop_last());
        assert(r ^ 0u8 == r) by (bit_vector);
        lemma_shift8_zero(r);
    }
}

/// A nonzero error confined to 8 consecutive bits of two bytes leaves a
/// nonzero register (the generator polynomial has degree 8 and a constant
/// term).
proof fn lemma_burst_pair(a: u8, b: u8)
    requires
        burst_of_8(word16(a, b)),
        a != 0 || b != 0,
    ensures
        crc_feed(crc_feed(0, a), b) != 0,
{
    reveal_with_fuel(crc_shift_n, 9);
    assert(crc_shift(crc_shift(crc_shift(crc_shift(crc_shift(crc_shift(crc_shift(crc_shift(a))))))))
        != b) by (bit_vector)
        requires
            burst_of_8(word16(a, b)),
            a != 0 || b != 0,
    ;
    assert(0u8 ^ a == a) by (bit_vector);
    let x = crc_feed(0, a);
    assert(x != b);
    lemma_shift8_zero(x ^ b);
    assert((x ^ b == 0) == (x == b)) by (bit_vector);
}

/// The CRC check detects every error burst of at most 8 bits: when `d`
/// passes and `d2` differs from it only within 8 consecutive bits (most
/// significant bit of each byte first), starting in byte `j`, `d2` fails.
pub proof fn lemma_crc_detects_bursts(d: Seq<u8>, d2: Seq<u8>, j: int)
    requires
        d.len() == d2.len(),
        0 <= j < d.len(),
        d != d2,
        forall|i: int| 0 <= i < d.len() && i != j && i != j + 1 ==> d[i] == d2[i],
        burst_of_8(word16(d[j] ^ d2[j], if j + 1 < d.len() { d[j + 1] ^ d2[j + 1] } else { 0 })),
        crc8(d) == 0,
    ensures
        crc8(d2) != 0,
{
    let n = d.len() as int;
    let e = xor_seq(d, d2);
    assert forall|i: int| 0 <= i < n implies #[trigger] xor_seq(d, e)[i] == d2[i] by {
        let x = d[i];
        let y = d2[i];
        assert(x ^ (x ^ y) == y) by (bit_vector);
    }
    assert(xor_seq(d, e) =~= d2);
    lemma_crc_linear(CRC8_INIT, d, 0, e);
    let r = crc8_from(0, e);
    assert(CRC8_INIT ^ 0u8 == CRC8_INIT) by (bit_vector);
    assert(0u8 ^ r == r) by (bit_vector);
    assert(crc8(d2) == r);
    assert forall|i: int| 0 <= i < n && i != j && i != j + 1 implies e[i] == 0 by {
        let x = d[i];
        assert(x ^ x == 0) by (bit_vector);
    }
    let j2 = if j + 1 < n { j + 2 } else { j + 1 };
    let head = e.take(j);
    let mid = e.subrange(j, j2);
    let tail = e.subrange(j2, n);
    assert(e =~= head + mid + tail);
    lemma_crc_concat(0, head + mid, tail);
    lemma_crc_concat(0, head, mid);
    lemma_crc_zeros(0, head);
    let m = crc8_from(0, mid);
    // Some byte within the burst differs.
    assert(exists|k: int| 0 <= k < n && d[k] != d2[k]) by {
        if forall|k: int| 0 <= k < n ==> d[k] == d2[k] {
            assert(d =~= d2);
        }
    }
    let k = choose|k: int| 0 <= k < n && d[k] != d2[k];
    assert(e[k] != 0) by {
        let x = d[k];
        let y = d2[k];
        assert(x != y ==> x ^ y != 0) by (bit_vector);
    }
    if j + 1 < n {
        assert(mid.drop_last().drop_last() =~= Seq::<u8>::empty());
        assert(mid.drop_last().last() == e[j]);
        assert(mid.last() == e[j + 1]);
        assert(crc8_from(0, mid.drop_last().drop_last()) == 0);
        assert(crc8_from(0, mid.drop_last()) == crc_feed(0, e[j]));
        assert(m == crc_feed(crc_feed(0, e[j]), e[j + 1]));
        lemma_burst_pair(e[j], e[j + 1]);
    } else {
        assert(mid.drop_last() =~= Seq::<u8>::empty());
        assert(mid.last() == e[j]);
        assert(crc8_from(0, mid.drop_last()) == 0);
        assert(m == crc_feed(0, e[j]));
        let ej = e[j];
        assert(0u8 ^ ej == ej) by (bit_vector);
        lemma_shift8_zero(ej);
    }
    assert(m != 0);
    lemma_crc_zeros(m, tail);
}

/// Whether a "get data ready status" reply announces a measurement: the
/// low 11 bits of its first word are not all zero.
pub open spec fn spec_data_ready(b: Seq<u8>) -> bool {
    (b[0] * 256 + b[1]) % 2048 != 0
}

/// Decodes the three-byte reply of "get data ready status".
pub fn data_ready(raw: &[u8]) -> (r: bool)
    requires
        raw@.len() == 3,
    ensures
        r == spec_data_ready(raw@),
{
    let b0: u8 = raw[0];
    let b1: u8 = raw[1];
    let word: u16 = ((b0 as u16) << 8) | (b1 as u16);
    assert(word == b0 * 256 + b1 && ((word & 0b111_1111_1111 != 0) == (word % 2048 != 0)))
        by (bit_vector)
        requires
            word == ((b0 as u16) << 8) | (b1 as u16),
    ;
    word & 0b111_1111_1111 != 0
}

/// Whether every three-byte word (two data bytes and their CRC) of a
/// nine-byte measurement reply passes the CRC check.
pub open spec fn words_valid(b: Seq<u8>) -> bool {
    forall|k: int| 0 <= k < 3 ==> #[trigger] crc8(b.subrange(3 * k, 3 * k + 3)) == 0
}

/// Checks the CRC of each of the three words of a measurement reply.
pub fn measurement_valid(raw: &[u8]) -> (r: bool)
    requires
        raw@.len() == 9,
    ensures
        r == words_valid(raw@),
{
    for i in 0..3usize
        invariant
            raw@.len() == 9,
            forall|k: int| 0 <= k < i ==> #[trigger] crc8(raw@.subrange(3 * k, 3 * k + 3)) == 0,
    {
        let word = &raw[i * 3..i * 3 + 3];
        if !check_crc(word) {
            assert(!words_valid(raw@)) by {
                assert(crc8(raw@.subrange(3 * (i as int), 3 * (i as int) + 3)) != 0);
            }
            return false;
        }
    }
    true
}

/// The raw (CO2, temperature, humidity) words of a measurement reply.
pub open spec fn spec_measurement(b: Seq<u8>) -> (u16, u16, u16) {
    ((b[0] * 256 + b[1]) as u16, (b[3] * 256 + b[4]) as u16, (b[6] * 256 + b[7]) as u16)
}

/// Decodes the nine-byte reply of "read measurement", whose words all pass
/// their CRC check, into the raw CO2 (ppm), temperature and humidity words.
/// A reply with a corrupt word is not decoded: the sensor node stops on it.
pub fn decode_measurement(raw: &[u8]) -> (r: (u16, u16, u16))
    requires
        raw@.len() == 9,
        words_valid(raw@),
    ensures
        r == spec_measurement(raw@),
        r.0 == raw@[0] * 256 + raw@[1],
        r.1 == raw@[3] * 256 + raw@[4],
        r.2 == raw@[6] * 256 + raw@[7],
{
    let co2: u16 = read_u16_be(&raw[0..2]);
    let temp: u16 = read_u16_be(&raw[3..5]);
    let humidity: u16 = read_u16_be(&raw[6..8]);
    (co2, temp, humidity)
}

/// The bus steps of `setup`: stop periodic measurement, wait 500 ms, start
/// periodic measurement. Driver errors are ignored.
pub open spec fn setup_script() -> Seq<OpView> {
    seq![
        tolerated_write(SCD41_ADDR, command_bytes(CMD_STOP_PERIODIC_MEASUREMENT)),
        pause(500),
        tolerated_write(SCD41_ADDR, command_bytes(CMD_START_PERIODIC_MEASUREMENT)),
    ]
}

/// Restarts periodic measurement.
pub fn setup() -> (r: (Procedure, Step))
    ensures
        r.0.inv(),
        (r.0@, r.1@) == issue(initial(setup_script(), Decoder::Nothing), 0, Seq::empty()),
{
    let mut s = Script::new();
    s.write(SCD41_ADDR, command(CMD_STOP_PERIODIC_MEASUREMENT), false);
    s.pause(500);
    s.write(SCD41_ADDR, command(CMD_START_PERIODIC_MEASUREMENT), false);
    assert(s@ =~~= setup_script());
    s.start(Decoder::Nothing)
}

/// Sending the single command word `w`; a driver error ends the procedure.
pub open spec fn command_script(w: u16) -> Seq<OpView> {
    seq![required_write(SCD41_ADDR, command_bytes(w))]
}

fn single_command(w: u16) -> (r: (Procedure, Step))
    ensures
        r.0.inv(),
        (r.0@, r.1@) == issue(initial(command_script(w), Decoder::Nothing), 0, Seq::empty()),
{
    let mut s = Script::new();
    s.write(SCD41_ADDR, command(w), true);
    assert(s@ =~~= command_script(w));
    s.start(Decoder::Nothing)
}

/// Starts periodic measurement.
pub fn start_periodic_measurement() -> (r: (Procedure, Step))
    ensures
        r.0.inv(),
        (r.0@, r.1@) == issue(
            initial(command_script(CMD_START_PERIODIC_MEASUREMENT), Decoder::Nothing),
            0,
            Seq::empty(),
        ),
{
    single_command(CMD_START_PERIODIC_MEASUREMENT)
}

/// Stops periodic measurement.
pub fn stop_periodic_measurement() -> (r: (Procedure, Step))
    ensures
        r.0.inv(),
        (r.0@, r.1@) == issue(
            initial(command_script(CMD_STOP_PERIODIC_MEASUREMENT), Decoder::Nothing),
            0,
            Seq::empty(),
        ),
{
    single_command(CMD_STOP_PERIODIC_MEASUREMENT)
}

/// The bus steps of `is_data_ready`: "get data ready status", reading its
/// three-byte reply.
pub open spec fn is_data_ready_script() -> Seq<OpView> {
    seq![write_read(SCD41_ADDR, command_bytes(CMD_GET_DATA_READY_STATUS), 3, true, true)]
}

/// Asks whether a measurement is ready to be read.
pub fn is_data_ready() -> (r: (Procedure, Step))
    ensures
        r.0.inv(),
        (r.0@, r.1@) == issue(
            initial(is_data_ready_script(), Decoder::Scd41DataReady),
            0,
            Seq::empty(),
        ),
{
    let mut s = Script::new();
    s.write_read(SCD41_ADDR, command(CMD_GET_DATA_READY_STATUS), 3, true, true);
    assert(s@ =~~= is_data_ready_script());
    s.start(Decoder::Scd41DataReady)
}

/// The bus steps of `read_measurement`: "read measurement", reading its
/// nine-byte reply.
pub open spec fn read_measurement_script() -> Seq<OpView> {
    seq![write_read(SCD41_ADDR, command_bytes(CMD_READ_MEASUREMENT), 9, true, true)]
}

/// Reads the latest measurement (raw CO2, temperature and humidity words).
pub fn read_measurement() -> (r: (Procedure, Step))
    ensures
        r.0.inv(),
        (r.0@, r.1@) == issue(
            initial(read_measurement_script(), Decoder::Scd41Measurement),
            0,
            Seq::empty(),
        ),
{
    let mut s = Script::new();
    s.write_read(SCD41_ADDR, command(CMD_READ_MEASUREMENT), 9, true, true);
    assert(s@ =~~= read_measurement_script());
    s.start(Decoder::Scd41Measurement)
}

/// When the bus returns the nine bytes `raw` to "read measurement": a
/// reply with a corrupt word is refused (the sensor node stops on it), and
/// any other finishes the procedure with the three big-endian words: CO2
/// `raw[0] raw[1]`, temperature `raw[3] raw[4]`, humidity `raw[6] raw[7]`.
pub proof fn lemma_read_measurement_run(raw: Seq<u8>)
    requires
        raw.len() == 9,
    ensures
        spec_refusal(
            issue(initial(read_measurement_script(), Decoder::Scd41Measurement), 0, Seq::empty()).0,
            raw,
            true,
        ) == (if words_valid(raw) { None } else { Some(Refusal::CrcMismatch) }),
        words_valid(raw) ==> run(
            issue(initial(read_measurement_script(), Decoder::Scd41Measurement), 0, Seq::empty()),
            seq![(raw, true)],
        ).1 == StepView::Done(Ok(Reading::Measurement(spec_measurement(raw)))),
        words_valid(raw) ==> run(
            issue(initial(read_measurement_script(), Decoder::Scd41Measurement), 0, Seq::empty()),
            seq![(raw, true)],
        ).1 == StepView::Done(
            Ok(
                Reading::Measurement(
                    (
                        (raw[0] * 256 + raw[1]) as u16,
                        (raw[3] * 256 + raw[4]) as u16,
                        (raw[6] * 256 + raw[7]) as u16,
                    ),
                ),
            ),
        ),
{
    let script = read_measurement_script();
    let replies = seq![(raw, true)];
    lemma_run_completes(script, Decoder::Scd41Measurement, replies);
    assert(script.drop_last() =~= script.take(0));
    assert(replies.drop_last() =~= replies.take(0));
    reveal_with_fuel(kept_bytes, 2);
    assert(kept_bytes(script, replies) =~= raw);
    let s0 = issue(initial(script, Decoder::Scd41Measurement), 0, Seq::empty());
    assert(s0.0.kept + raw =~= raw);
}

/// Asking whether data is ready with a successful reply `b` finishes with
/// "ready" exactly when the low 11 bits of the word `b[0] b[1]` are not all
/// zero (bit 0 of `b[0]` up to bit 7 of `b[1]`, the CRC byte ignored).
pub proof fn lemma_is_data_ready_run(b: Seq<u8>)
    requires
        b.len() == 3,
    ensures
        run(
            issue(initial(is_data_ready_script(), Decoder::Scd41DataReady), 0, Seq::empty()),
            seq![(b, true)],
        ).1 == StepView::Done(Ok(Reading::DataReady(b[0] & 0x07 != 0 || b[1] != 0))),
{
    let script = is_data_ready_script();
    let replies = seq![(b, true)];
    lemma_run_completes(script, Decoder::Scd41DataReady, replies);
    assert(script.drop_last() =~= script.take(0));
    assert(replies.drop_last() =~= replies.take(0));
    reveal_with_fuel(kept_bytes, 2);
    assert(kept_bytes(script, replies) =~= b);
    let b0 = b[0];
    let b1 = b[1];
    assert((((b0 as int) * 256 + (b1 as int)) % 2048 != 0) == ((b0 & 7) != 0 || b1 != 0))
        by (bit_vector);
}

/// A poll of "get data ready status" with the mask [0x07, 0xff, 0x00]
/// ends exactly when the reply announces a measurement.
pub proof fn lemma_data_ready_mask(b: Seq<u8>)
    requires
        b.len() == 3,
    ensures
        any_masked(b, data_ready_mask()) == spec_data_ready(b),
{
    let b0 = b[0];
    let b1 = b[1];
    let b2 = b[2];
    assert((((b0 as int) * 256 + (b1 as int)) % 2048 != 0) == ((b0 & 7) != 0 || (b1 & 0xff) != 0))
        by (bit_vector);
    assert(b2 & 0 == 0) by (bit_vector);
    let m = data_ready_mask();
    if (b0 & 7) != 0 {
        assert(b[0] & m[0] != 0);
    } else if (b1 & 0xff) != 0 {
        assert(b[1] & m[1] != 0);
    } else {
        assert forall|i: int| 0 <= i < m.len() && i < b.len() implies (b[i] & m[i]) == 0 by {
            if i == 2 {
                assert(b[2] & m[2] == 0);
            }
        }
    }
}

/// The mask selecting the low 11 bits of the data-ready word.
pub open spec fn data_ready_mask() -> Seq<u8> {
    seq![0x07u8, 0xffu8, 0x00u8]
}

/// The bus steps of `wait_data_ready`: poll "get data ready status",
/// pausing 1 ms between polls, until a measurement is announced. A failed
/// poll is refused: the sensor node cannot go on.
pub open spec fn wait_data_ready_script() -> Seq<OpView> {
    seq![wait_for(SCD41_ADDR, command_bytes(CMD_GET_DATA_READY_STATUS), data_ready_mask(), true)]
}

/// Waits until a measurement is ready to be read.
pub fn wait_data_ready() -> (r: (Procedure, Step))
    ensures
        r.0.inv(),
        (r.0@, r.1@) == issue(initial(wait_data_ready_script(), Decoder::Nothing), 0, Seq::empty()),
{
    let mut s = Script::new();
    s.wait_for(SCD41_ADDR, command(CMD_GET_DATA_READY_STATUS), vec![0x07, 0xff, 0x00], true);
    assert(s@ =~~= wait_data_ready_script());
    s.start(Decoder::Nothing)
}

} // verus!
