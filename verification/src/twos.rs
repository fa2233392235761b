use vstd::prelude::*;
use vstd::arithmetic::power2::{pow2, lemma2_to64};

verus! {

/// The value of a `width`-bit two's complement field whose bits, read as an
/// unsigned number, are `raw` (with `0 <= raw < 2^width`).
pub open spec fn from_twos_complement(raw: int, width: nat) -> int {
    if raw >= pow2((width - 1) as nat) {
        raw - pow2(width)
    } else {
        raw
    }
}

/// Whether bit `n` (0 = least significant) of `data` is set.
pub open spec fn bit_set(data: u8, n: u8) -> bool {
    (data >> n) & 1 == 1
}

/// A value of a `width`-bit two's complement field lies in
/// `[-2^(width-1), 2^(width-1))`.
pub proof fn lemma_twos_complement_range(raw: int, width: nat)
    requires
        1 <= width,
        0 <= raw < pow2(width),
    ensures
        -(pow2((width - 1) as nat) as int) <= from_twos_complement(raw, width) < pow2((width - 1) as nat),
{
    vstd::arithmetic::power2::lemma_pow2_unfold(width);
}

/// Writing a value into a `width`-bit field (keeping its low `width` bits)
/// and reading the field back as two's complement gives the value again,
/// for every value the field can hold.
pub proof fn lemma_twos_complement_roundtrip(v: int, width: nat)
    requires
        1 <= width,
        -(pow2((width - 1) as nat) as int) <= v < pow2((width - 1) as nat),
    ensures
        0 <= v % (pow2(width) as int) < pow2(width),
        from_twos_complement(v % (pow2(width) as int), width) == v,
{
    vstd::arithmetic::power2::lemma_pow2_unfold(width);
    let m: int = pow2(width) as int;
    let h: int = pow2((width - 1) as nat) as int;
    assert(m == 2 * h);
    if v >= 0 {
        vstd::arithmetic::div_mod::lemma_small_mod(v as nat, m as nat);
    } else {
        vstd::arithmetic::div_mod::lemma_mod_add_multiples_vanish(v, m);
        vstd::arithmetic::div_mod::lemma_small_mod((v + m) as nat, m as nat);
    }
}

/// The constants the sign extensions of this crate are stated with.
pub proof fn lemma_widths()
    ensures
        pow2(11) == 2048,
        pow2(12) == 4096,
        pow2(15) == 32768,
        pow2(16) == 65536,
        pow2(19) == 0x80000,
        pow2(20) == 0x100000,
        pow2(23) == 0x800000,
        pow2(24) == 0x1000000,
{
    lemma2_to64();
}

} // verus!
