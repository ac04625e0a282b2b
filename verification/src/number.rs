//! JSON numbers, held the way a JSON reader holds them: a non-negative
//! integer, a negative integer, or a binary64 floating-point value kept as
//! its IEEE-754 bit pattern.
//!
//! Ordered comparisons between numbers are made on their binary64 values,
//! integers being rounded to the nearest binary64 value (ties to even), as a
//! conversion of an integer to binary64 does. The order of binary64 values is
//! read off their bit patterns: a sign bit and a magnitude whose order agrees
//! with the order of the values it encodes.
use vstd::arithmetic::power2::*;
use vstd::prelude::*;

verus! {

/// A JSON number.
#[derive(Clone, Copy, Debug, PartialEq, Eq, Structural)]
pub enum JsonNumber {
    /// A non-negative integer.
    PosInt(u64),
    /// A negative integer.
    NegInt(i64),
    /// A binary64 value, by its IEEE-754 bit pattern.
    Float(u64),
}

/// The bits of a binary64 value below the sign bit.
pub open spec fn magnitude_mask() -> u64 {
    0x7fff_ffff_ffff_ffffu64
}

/// Whether a binary64 bit pattern encodes a NaN (all exponent bits set,
/// non-zero fraction).
pub open spec fn float_is_nan(bits: u64) -> bool {
    &&& (bits >> 52u64) & 0x7ffu64 == 0x7ffu64
    &&& bits & 0xf_ffff_ffff_ffffu64 != 0
}

/// The order key of a binary64 bit pattern: its magnitude bits, negated when
/// the sign bit is set. Both zeros get the key 0.
pub open spec fn float_key(bits: u64) -> int {
    if bits >> 63u64 == 1 {
        -((bits & magnitude_mask()) as int)
    } else {
        bits as int
    }
}

/// The number of binary digits of `n` (0 for 0).
pub open spec fn bit_len(n: nat) -> nat
    decreases n,
{
    if n == 0 {
        0
    } else {
        1 + bit_len(n / 2)
    }
}

/// The significand of the binary64 value nearest to `u` (ties to even),
/// before renormalisation: `u` itself when it has at most 53 digits,
/// otherwise `u` shifted right by the surplus digits and rounded.
pub open spec fn rounded_significand(u: nat) -> nat {
    let len = bit_len(u);
    if len <= 53 {
        u
    } else {
        let s = (len - 53) as nat;
        let q = u / pow2(s);
        let r = u % pow2(s);
        let half = pow2((s - 1) as nat);
        if r > half || (r == half && q % 2 == 1) {
            q + 1
        } else {
            q
        }
    }
}

/// The IEEE-754 binary64 bit pattern of the value nearest to `u`, ties to
/// even: the value that converting `u` to binary64 gives.
pub open spec fn u64_float_bits(u: u64) -> u64 {
    let len = bit_len(u as nat);
    if u == 0 {
        0
    } else if len <= 53 {
        ((len - 1 + 1023) * pow2(52) + (u * pow2((53 - len) as nat) - pow2(52))) as u64
    } else if rounded_significand(u as nat) == pow2(53) {
        ((len + 1023) * pow2(52)) as u64
    } else {
        ((len - 1 + 1023) * pow2(52) + (rounded_significand(u as nat) - pow2(52))) as u64
    }
}

/// The magnitude of an `i64`, as an unsigned integer.
pub open spec fn i64_magnitude(i: i64) -> u64 {
    if i < 0 {
        (-(i as int)) as u64
    } else {
        i as u64
    }
}

impl JsonNumber {
    /// Whether the number is a NaN (only a `Float` can be).
    pub open spec fn spec_is_nan(self) -> bool {
        match self {
            JsonNumber::Float(bits) => float_is_nan(bits),
            _ => false,
        }
    }

    /// The order key of the number's binary64 value: numbers compare as
    /// their keys do, NaN aside.
    pub open spec fn order_key(self) -> int {
        match self {
            JsonNumber::PosInt(u) => u64_float_bits(u) as int,
            JsonNumber::NegInt(i) => if i < 0 {
                -(u64_float_bits(i64_magnitude(i)) as int)
            } else {
                u64_float_bits(i64_magnitude(i)) as int
            },
            JsonNumber::Float(bits) => float_key(bits),
        }
    }

    /// Equality of numbers: integers of the same kind by value, binary64
    /// values as binary64 equality does (NaN equals nothing, the two zeros
    /// are equal). An integer never equals a binary64 value.
    pub open spec fn same_number(self, other: JsonNumber) -> bool {
        match (self, other) {
            (JsonNumber::PosInt(a), JsonNumber::PosInt(b)) => a == b,
            (JsonNumber::NegInt(a), JsonNumber::NegInt(b)) => a == b,
            (JsonNumber::Float(a), JsonNumber::Float(b)) => !float_is_nan(a) && !float_is_nan(b)
                && float_key(a) == float_key(b),
            _ => false,
        }
    }

    /// The number as an unsigned integer, when it is one.
    pub open spec fn spec_as_u64(self) -> Option<u64> {
        match self {
            JsonNumber::PosInt(u) => Some(u),
            _ => None,
        }
    }

    /// `self > other` on binary64 values.
    pub open spec fn greater(self, other: JsonNumber) -> bool {
        !self.spec_is_nan() && !other.spec_is_nan() && self.order_key() > other.order_key()
    }

    /// `self >= other` on binary64 values.
    pub open spec fn greater_eq(self, other: JsonNumber) -> bool {
        !self.spec_is_nan() && !other.spec_is_nan() && self.order_key() >= other.order_key()
    }

    /// `self < other` on binary64 values.
    pub open spec fn less(self, other: JsonNumber) -> bool {
        !self.spec_is_nan() && !other.spec_is_nan() && self.order_key() < other.order_key()
    }

    /// `self <= other` on binary64 values.
    pub open spec fn less_eq(self, other: JsonNumber) -> bool {
        !self.spec_is_nan() && !other.spec_is_nan() && self.order_key() <= other.order_key()
    }
}


/// `pow2(len - 1) <= n < pow2(len)` for a positive `n` of `len` digits.
pub proof fn lemma_bit_len_bounds(n: nat)
    requires
        n > 0,
    ensures
        bit_len(n) >= 1,
        pow2((bit_len(n) - 1) as nat) <= n,
        n < pow2(bit_len(n)),
    decreases n,
{
    lemma2_to64();
        lemma2_to64_rest();
    if n == 1 {
        assert(bit_len(0) == 0);
        assert(bit_len(1) == 1);
    } else {
        lemma_bit_len_bounds(n / 2);
        let l = bit_len(n / 2);
        lemma_pow2_unfold(l);
        lemma_pow2_unfold(l + 1);
        assert(bit_len(n) == 1 + l);
    }
}

/// A `u64` has at most 64 digits.
pub proof fn lemma_bit_len_u64(u: u64)
    ensures
        bit_len(u as nat) <= 64,
{
    if u > 0 {
        lemma_bit_len_bounds(u as nat);
        lemma2_to64();
        lemma2_to64_rest();
        if bit_len(u as nat) > 64 {
            lemma_pow2_strictly_increases(64, (bit_len(u as nat) - 1) as nat);
        }
    }
}

/// The number of binary digits of `u`.
fn bit_length(u: u64) -> (len: u64)
    ensures
        len == bit_len(u as nat),
        len <= 64,
{
    proof {
        lemma_bit_len_u64(u);
    }
    let mut t = u;
    let mut len: u64 = 0;
    while t > 0
        invariant
            len + bit_len(t as nat) == bit_len(u as nat),
            bit_len(u as nat) <= 64,
        decreases t,
    {
        assert(bit_len(t as nat) == 1 + bit_len((t / 2) as nat));
        t = t / 2;
        len = len + 1;
    }
    len
}

/// `2` to the power `k`.
fn power_of_two(k: u64) -> (p: u64)
    requires
        k < 64,
    ensures
        p == pow2(k as nat),
{
    let mut p: u64 = 1;
    let mut i: u64 = 0;
    proof {
        lemma2_to64();
        lemma2_to64_rest();
    }
    while i < k
        invariant
            i <= k < 64,
            p == pow2(i as nat),
        decreases k - i,
    {
        proof {
            lemma_pow2_unfold((i + 1) as nat);
            lemma_pow2_strictly_increases((i + 1) as nat, 64);
            lemma2_to64();
        lemma2_to64_rest();
        }
        p = p * 2;
        i = i + 1;
    }
    p
}

/// The IEEE-754 binary64 bit pattern of the value nearest to `u`.
pub fn float_bits_of_u64(u: u64) -> (bits: u64)
    ensures
        bits == u64_float_bits(u),
{
    if u == 0 {
        return 0;
    }
    let len = bit_length(u);
    let p52 = power_of_two(52);
    proof {
        lemma_bit_len_bounds(u as nat);
        lemma2_to64();
        lemma2_to64_rest();
        assert((len + 1023) * p52 <= 1087 * 0x10_0000_0000_0000) by (nonlinear_arith)
            requires
                len <= 64,
                p52 == 0x10_0000_0000_0000u64,
        ;
        assert((len - 1 + 1023) * p52 <= 1086 * 0x10_0000_0000_0000) by (nonlinear_arith)
            requires
                1 <= len <= 64,
                p52 == 0x10_0000_0000_0000u64,
        ;
    }
    if len <= 53 {
        let p = power_of_two(53 - len);
        proof {
            lemma_pow2_pos((53 - len) as nat);
            lemma_pow2_adds(len as nat, (53 - len) as nat);
            lemma_pow2_adds((len - 1) as nat, (53 - len) as nat);
            assert(u * p < pow2(len as nat) * pow2((53 - len) as nat)) by (nonlinear_arith)
                requires
                    u < pow2(len as nat),
                    p == pow2((53 - len) as nat),
                    p > 0,
            ;
            assert(u * p >= pow2((len - 1) as nat) * pow2((53 - len) as nat)) by (nonlinear_arith)
                requires
                    u >= pow2((len - 1) as nat),
                    p == pow2((53 - len) as nat),
            ;
            assert(u * p < pow2(53));
            assert(u * p >= pow2(52));
        }
        let sig = u * p;
        (len - 1 + 1023) * p52 + (sig - p52)
    } else {
        let s = len - 53;
        let p = power_of_two(s);
        let half = power_of_two(s - 1);
        let q = u / p;
        let r = u % p;
        proof {
            lemma_pow2_adds(52, s as nat);
            lemma_pow2_adds(53, s as nat);
            lemma_pow2_pos(s as nat);
            assert(q >= pow2(52)) by (nonlinear_arith)
                requires
                    u >= pow2(52) * p,
                    q == u / p,
                    p > 0,
            ;
            assert(q < pow2(53)) by (nonlinear_arith)
                requires
                    u < pow2(53) * p,
                    q == u / p,
                    p > 0,
            ;
        }
        let qr = if r > half || (r == half && q % 2 == 1) {
            q + 1
        } else {
            q
        };
        assert(qr == rounded_significand(u as nat));
        if qr == 2 * p52 {
            (len + 1023) * p52
        } else {
            (len - 1 + 1023) * p52 + (qr - p52)
        }
    }
}

impl JsonNumber {
    /// Whether the number is a NaN.
    pub fn is_nan(&self) -> (r: bool)
        ensures
            r == self.spec_is_nan(),
    {
        match self {
            JsonNumber::Float(bits) => (*bits >> 52u64) & 0x7ffu64 == 0x7ffu64 && *bits
                & 0xf_ffff_ffff_ffffu64 != 0,
            _ => false,
        }
    }

    /// The order key of the number's binary64 value.
    pub fn key(&self) -> (k: i128)
        ensures
            k == self.order_key(),
    {
        match self {
            JsonNumber::PosInt(u) => float_bits_of_u64(*u) as i128,
            JsonNumber::NegInt(i) => {
                let m: u64 = if *i < 0 {
                    (-(*i as i128)) as u64
                } else {
                    *i as u64
                };
                let b = float_bits_of_u64(m);
                if *i < 0 {
                    -(b as i128)
                } else {
                    b as i128
                }
            },
            JsonNumber::Float(bits) => {
                if *bits >> 63u64 == 1 {
                    -((*bits & 0x7fff_ffff_ffff_ffffu64) as i128)
                } else {
                    *bits as i128
                }
            },
        }
    }

    /// Equality of numbers (see `same_number`).
    pub fn equals(&self, other: &JsonNumber) -> (r: bool)
        ensures
            r == self.same_number(*other),
    {
        match (self, other) {
            (JsonNumber::PosInt(a), JsonNumber::PosInt(b)) => *a == *b,
            (JsonNumber::NegInt(a), JsonNumber::NegInt(b)) => *a == *b,
            (JsonNumber::Float(_), JsonNumber::Float(_)) => !self.is_nan() && !other.is_nan()
                && self.key() == other.key(),
            _ => false,
        }
    }

    /// The number as an unsigned integer, when it is one.
    pub fn as_u64(&self) -> (r: Option<u64>)
        ensures
            r == self.spec_as_u64(),
    {
        match self {
            JsonNumber::PosInt(u) => Some(*u),
            _ => None,
        }
    }
}


/// The digits of a positive integer below `2^53`: at most 53 of them, and
/// the binary64 bit pattern of the integer is its exact encoding, lying
/// between `(len + 1022) * 2^52` and `(len + 1023) * 2^52`.
pub proof fn lemma_exact_float_bits(u: u64)
    requires
        0 < u < 0x20_0000_0000_0000u64,
    ensures
        1 <= bit_len(u as nat) <= 53,
        (bit_len(u as nat) + 1022) * pow2(52) <= u64_float_bits(u) < (bit_len(u as nat) + 1023) * pow2(52),
        u64_float_bits(u) == (bit_len(u as nat) + 1022) * pow2(52) + u * pow2((53 - bit_len(u as nat)) as nat) - pow2(52),
        u64_float_bits(u) > 0,
{
    lemma_bit_len_bounds(u as nat);
    lemma2_to64();
    lemma2_to64_rest();
    let len = bit_len(u as nat);
    if len > 53 {
        lemma_pow2_strictly_increases(53, (len - 1) as nat);
    }
    let p = pow2((53 - len) as nat);
    lemma_pow2_pos((53 - len) as nat);
    lemma_pow2_adds(len, (53 - len) as nat);
    lemma_pow2_adds((len - 1) as nat, (53 - len) as nat);
    assert(u * p < pow2(len) * pow2((53 - len) as nat)) by (nonlinear_arith)
        requires
            u < pow2(len),
            p == pow2((53 - len) as nat),
            p > 0,
    ;
    assert(u * p >= pow2((len - 1) as nat) * pow2((53 - len) as nat)) by (nonlinear_arith)
        requires
            u >= pow2((len - 1) as nat),
            p == pow2((53 - len) as nat),
    ;
    assert((len + 1023) * pow2(52) <= 1076 * 0x10_0000_0000_0000) by (nonlinear_arith)
        requires
            len <= 53,
            pow2(52) == 0x10_0000_0000_0000,
    ;
    assert((len - 1 + 1023) * pow2(52) == (len + 1022) * pow2(52));
    assert((len + 1022) * pow2(52) > 0) by (nonlinear_arith)
        requires
            pow2(52) > 0,
            len >= 1,
    ;
}

/// Integers below `2^53` convert to binary64 bit patterns that grow with
/// them.
pub proof fn lemma_float_bits_increase(u: u64, v: u64)
    requires
        u < v < 0x20_0000_0000_0000u64,
    ensures
        u64_float_bits(u) < u64_float_bits(v),
{
    lemma2_to64();
    lemma_exact_float_bits(v);
    assert((bit_len(v as nat) + 1022) * pow2(52) > 0) by (nonlinear_arith)
        requires
            pow2(52) > 0,
    ;
    if u > 0 {
        lemma_exact_float_bits(u);
        lemma_bit_len_bounds(u as nat);
        lemma_bit_len_bounds(v as nat);
        let lu = bit_len(u as nat);
        let lv = bit_len(v as nat);
        if lv < lu {
            if lv < lu - 1 {
                lemma_pow2_strictly_increases(lv, (lu - 1) as nat);
            }
        }
        if lu < lv {
            assert((lu + 1023) * pow2(52) <= (lv + 1022) * pow2(52)) by (nonlinear_arith)
                requires
                    lu + 1 <= lv,
                    pow2(52) > 0,
            ;
        } else {
            assert(lu == lv);
            let p = pow2((53 - lu) as nat);
            lemma_pow2_pos((53 - lu) as nat);
            assert(u * p < v * p) by (nonlinear_arith)
                requires
                    u < v,
                    p > 0,
            ;
            assert(u64_float_bits(u) == (lu + 1022) * pow2(52) + u * p - pow2(52));
            assert(u64_float_bits(v) == (lu + 1022) * pow2(52) + v * p - pow2(52));
        }
    }
}

/// The value of an integer number.
pub open spec fn int_value(n: JsonNumber) -> int {
    match n {
        JsonNumber::PosInt(u) => u as int,
        JsonNumber::NegInt(i) => i as int,
        JsonNumber::Float(_) => 0,
    }
}

/// Whether a number is an integer that binary64 holds exactly: its
/// magnitude is below `2^53`.
pub open spec fn exact_integer(n: JsonNumber) -> bool {
    match n {
        JsonNumber::PosInt(u) => u < 0x20_0000_0000_0000u64,
        JsonNumber::NegInt(i) => -0x20_0000_0000_0000 < i < 0x20_0000_0000_0000,
        JsonNumber::Float(_) => false,
    }
}

/// Order keys of exactly held integers order as the integers do.
pub proof fn lemma_integer_keys(a: JsonNumber, b: JsonNumber)
    requires
        exact_integer(a),
        exact_integer(b),
    ensures
        int_value(a) < int_value(b) ==> a.order_key() < b.order_key(),
        int_value(a) == int_value(b) ==> a.order_key() == b.order_key(),
{
    lemma2_to64();
    let ma: u64 = if int_value(a) < 0 { (-int_value(a)) as u64 } else { int_value(a) as u64 };
    let mb: u64 = if int_value(b) < 0 { (-int_value(b)) as u64 } else { int_value(b) as u64 };
    assert(a.order_key() == if int_value(a) < 0 { -(u64_float_bits(ma) as int) } else { u64_float_bits(ma) as int });
    assert(b.order_key() == if int_value(b) < 0 { -(u64_float_bits(mb) as int) } else { u64_float_bits(mb) as int });
    if ma > 0 {
        lemma_exact_float_bits(ma);
    }
    if mb > 0 {
        lemma_exact_float_bits(mb);
    }
    if ma < mb {
        lemma_float_bits_increase(ma, mb);
    }
    if mb < ma {
        lemma_float_bits_increase(mb, ma);
    }
}


/// The sign bit of a binary64 bit pattern.
pub open spec fn float_sign(bits: u64) -> u64 {
    bits >> 63u64
}

/// The biased exponent of a binary64 bit pattern.
pub open spec fn float_exponent(bits: u64) -> u64 {
    (bits >> 52u64) & 0x7ffu64
}

/// The fraction of a binary64 bit pattern.
pub open spec fn float_fraction(bits: u64) -> u64 {
    bits & 0xf_ffff_ffff_ffffu64
}

/// A bit pattern is its sign, exponent and fraction, and its magnitude bits
/// are its exponent and fraction.
pub proof fn lemma_float_fields(bits: u64)
    ensures
        float_sign(bits) <= 1,
        float_exponent(bits) < 0x800,
        float_fraction(bits) < 0x10_0000_0000_0000,
        bits & magnitude_mask() == float_exponent(bits) * 0x10_0000_0000_0000 + float_fraction(bits),
        float_sign(bits) == 0 ==> bits == float_exponent(bits) * 0x10_0000_0000_0000 + float_fraction(bits),
{
    assert(bits >> 63u64 <= 1) by (bit_vector);
    assert((bits >> 52u64) & 0x7ffu64 < 0x800) by (bit_vector);
    assert(bits & 0xf_ffff_ffff_ffffu64 < 0x10_0000_0000_0000) by (bit_vector);
    assert(bits & 0x7fff_ffff_ffff_ffffu64 == ((bits >> 52u64) & 0x7ffu64) * 0x10_0000_0000_0000u64
        + (bits & 0xf_ffff_ffff_ffffu64)) by (bit_vector);
    assert(bits >> 63u64 == 0 ==> bits == ((bits >> 52u64) & 0x7ffu64) * 0x10_0000_0000_0000u64
        + (bits & 0xf_ffff_ffff_ffffu64)) by (bit_vector);
}

} // verus!
