//! Fixed-width big-endian values: addresses, hashes and 256-bit integers.
use vstd::prelude::*;
use vstd::arithmetic::div_mod::*;
use vstd::arithmetic::power2::*;
use vstd::bits::*;

verus! {

/// A 20-byte account or contract address.
pub type Address = [u8; 20];

/// A 32-byte word: a hash, a pool identifier, a storage slot or its value.
pub type B256 = [u8; 32];

/// The number that a byte sequence denotes in big-endian order.
pub open spec fn be_value(bytes: Seq<u8>) -> nat
    decreases bytes.len(),
{
    if bytes.len() == 0 {
        0
    } else {
        be_value(bytes.drop_last()) * 256 + bytes.last() as nat
    }
}

/// The last `n` big-endian bytes of `v`.
pub open spec fn be_bytes(v: nat, n: nat) -> Seq<u8>
    decreases n,
{
    if n == 0 {
        Seq::empty()
    } else {
        be_bytes(v / 256, (n - 1) as nat).push((v % 256) as u8)
    }
}

/// The two's complement reading of `v` on `bits` bits.
pub open spec fn twos_complement(v: nat, bits: nat) -> int
    recommends
        bits > 0,
        v < pow2(bits),
{
    if v < pow2((bits - 1) as nat) {
        v as int
    } else {
        v - pow2(bits)
    }
}

/// The word that holds the unsigned integer `v`.
pub open spec fn uint_word(v: nat) -> Seq<u8> {
    be_bytes(v, 32)
}

/// The word that holds the signed integer `v` in two's complement.
pub open spec fn int_word(v: int) -> Seq<u8> {
    be_bytes((v % pow2(256) as int) as nat, 32)
}

/// The word that holds an address, left-padded with zeroes.
pub open spec fn address_word(a: Seq<u8>) -> Seq<u8> {
    Seq::new(12, |i: int| 0u8) + a
}

/// Whether binary digit `i` of `v` is one.
pub open spec fn bit_of(v: nat, i: nat) -> bool {
    (v / pow2(i)) % 2 == 1
}

/// Splitting a number at a byte boundary: the leading bytes weigh a power of 256.
pub proof fn lemma_be_value_append(a: Seq<u8>, b: Seq<u8>)
    ensures
        be_value(a + b) == be_value(a) * pow2(8 * b.len()) + be_value(b),
    decreases b.len(),
{
    lemma2_to64();
    if b.len() == 0 {
        assert(a + b =~= a);
        assert(be_value(a) * pow2(0) == be_value(a)) by {
            assert(pow2(0) == 1);
        }
    } else {
        let t = b.drop_last();
        lemma_be_value_append(a, t);
        assert((a + b).drop_last() =~= a + t);
        assert((a + b).last() == b.last());
        let x = be_value(a) as int;
        let p = pow2(8 * t.len()) as int;
        lemma_pow2_adds(8 * t.len(), 8);
        assert(8 * t.len() + 8 == 8 * b.len());
        assert((x * p) * 256 == x * (p * 256)) by (nonlinear_arith);
        let y = be_value(t) as int;
        assert((x * p + y) * 256 == (x * p) * 256 + y * 256) by (nonlinear_arith);
    }
}

/// A number written on `n` bytes is below 256 to the power `n`.
pub proof fn lemma_be_value_bound(s: Seq<u8>)
    ensures
        be_value(s) < pow2(8 * s.len()),
    decreases s.len(),
{
    lemma2_to64();
    if s.len() > 0 {
        lemma_be_value_bound(s.drop_last());
        lemma_pow2_adds(8 * s.drop_last().len(), 8);
        assert(8 * s.drop_last().len() + 8 == 8 * s.len());
    }
}

/// Writing a number on `n` bytes and reading it back keeps it modulo 256 to the power `n`.
pub proof fn lemma_be_bytes_value(v: nat, n: nat)
    ensures
        be_bytes(v, n).len() == n,
        be_value(be_bytes(v, n)) == v % pow2(8 * n),
    decreases n,
{
    lemma2_to64();
    if n == 0 {
    } else {
        let m = (n - 1) as nat;
        lemma_be_bytes_value(v / 256, m);
        let s = be_bytes(v, n);
        assert(s.drop_last() =~= be_bytes(v / 256, m));
        lemma_pow2_adds(8, 8 * m);
        assert(8 + 8 * m == 8 * n);
        lemma_pow2_pos(8 * m);
        lemma_mod_breakdown(v as int, 256, pow2(8 * m) as int);
    }
}

/// Reading a byte sequence and writing it back on as many bytes gives it back.
pub proof fn lemma_be_value_bytes(s: Seq<u8>)
    ensures
        be_bytes(be_value(s), s.len()) == s,
    decreases s.len(),
{
    if s.len() > 0 {
        lemma_be_value_bytes(s.drop_last());
        let h = be_value(s.drop_last());
        assert((h * 256 + s.last() as nat) / 256 == h);
        assert((h * 256 + s.last() as nat) % 256 == s.last() as nat);
        assert(s.drop_last().push(s.last()) =~= s);
    }
}

/// Two byte sequences of one length that denote the same number are equal.
pub proof fn lemma_be_value_injective(a: Seq<u8>, b: Seq<u8>)
    requires
        a.len() == b.len(),
        be_value(a) == be_value(b),
    ensures
        a == b,
{
    lemma_be_value_bytes(a);
    lemma_be_value_bytes(b);
}

/// The digits of a number at and above a byte boundary do not see the bytes below it.
proof fn lemma_be_value_split(s: Seq<u8>, k: int)
    requires
        0 <= k < s.len(),
    ensures
        be_value(s) == (be_value(s.take(k)) * 256 + s[k] as nat) * pow2(
            8 * (s.len() - 1 - k) as nat,
        ) + be_value(s.skip(k + 1)),
        be_value(s.skip(k + 1)) < pow2(8 * (s.len() - 1 - k) as nat),
{
    let head = s.take(k + 1);
    let tail = s.skip(k + 1);
    assert(s =~= head + tail);
    assert(head.drop_last() =~= s.take(k));
    lemma_be_value_append(head, tail);
    lemma_be_value_bound(tail);
}

/// Binary digit `i` of a number sits in one of its bytes.
proof fn lemma_bit_in_byte(s: Seq<u8>, i: nat)
    requires
        s.len() == 32,
        i < 256,
    ensures
        bit_of(be_value(s), i) == bit_of(s[31 - i / 8] as nat, i % 8),
{
    let q = i / 8;
    let r = i % 8;
    let k = 31 - q;
    lemma_be_value_split(s, k);
    let hi = be_value(s.take(k)) as int;
    let b = s[k] as int;
    let m = hi * 256 + b;
    let p = pow2(8 * q) as int;
    let lo = be_value(s.skip(k + 1)) as int;
    assert(8 * (s.len() - 1 - k) as nat == 8 * q);
    let v = be_value(s) as int;
    lemma_pow2_pos(8 * q);
    lemma_pow2_pos(r);
    assert(v == m * p + lo);
    lemma_fundamental_div_mod_converse(v, p, m, lo);
    assert(v / p == m);
    lemma_pow2_adds(8 * q, r);
    assert(8 * q + r == i);
    lemma_div_denominator(v, p, pow2(r) as int);
    assert(v / (p * pow2(r) as int) == m / pow2(r) as int);
    // the bytes above contribute an even amount
    let t = pow2(r) as int;
    let u = pow2((7 - r) as nat) as int;
    lemma_pow2_adds(r, (7 - r) as nat);
    lemma2_to64();
    assert(t * u == 128);
    assert(hi * 256 == t * (2 * (hi * u))) by (nonlinear_arith)
        requires
            t * u == 128,
    ;
    lemma_hoist_over_denominator(b, 2 * (hi * u), t as nat);
    assert(b / t + 2 * (hi * u) == (b + (2 * (hi * u)) * t) / t);
    assert((2 * (hi * u)) * t == t * (2 * (hi * u))) by (nonlinear_arith);
    assert(m / t == b / t + 2 * (hi * u));
}

/// Adding one to or dropping one from a binary digit moves the number by that digit's weight.
proof fn lemma_byte_weight(s: Seq<u8>, t: Seq<u8>, i: nat)
    requires
        s.len() == 32,
        t.len() == 32,
        i < 256,
        t == s.update(31 - i / 8, t[31 - i / 8]),
        t[31 - i / 8] == s[31 - i / 8] + pow2(i % 8) || t[31 - i / 8] == s[31 - i / 8] - pow2(
            i % 8,
        ),
    ensures
        t[31 - i / 8] == s[31 - i / 8] + pow2(i % 8) ==> be_value(t) == be_value(s) + pow2(i),
        t[31 - i / 8] == s[31 - i / 8] - pow2(i % 8) ==> be_value(t) == be_value(s) - pow2(i),
{
    let q = i / 8;
    let r = i % 8;
    let k = 31 - q;
    lemma_be_value_split(s, k);
    lemma_be_value_split(t, k);
    assert(s.take(k) =~= t.take(k));
    assert(s.skip(k + 1) =~= t.skip(k + 1));
    assert(8 * (s.len() - 1 - k) as nat == 8 * q);
    lemma_pow2_adds(8 * q, r);
    assert(8 * q + r == i);
    let hi = be_value(s.take(k)) as int;
    let p = pow2(8 * q) as int;
    let w = pow2(r) as int;
    let b = s[k] as int;
    assert((hi * 256 + (b + w)) * p == (hi * 256 + b) * p + p * w) by (nonlinear_arith);
    assert((hi * 256 + (b - w)) * p == (hi * 256 + b) * p - p * w) by (nonlinear_arith);
}

/// A 256-bit unsigned integer, held as its 32 big-endian bytes.
#[derive(Debug, Clone, Copy, PartialEq, Eq)]
pub struct U256 {
    pub be: [u8; 32],
}

impl View for U256 {
    type V = nat;

    /// The integer itself.
    open spec fn view(&self) -> nat {
        be_value(self.be@)
    }
}

impl U256 {
    /// The integer that 32 big-endian bytes denote.
    pub fn from_be_bytes(be: [u8; 32]) -> (r: U256)
        ensures
            r.be@ == be@,
    {
        U256 { be }
    }

    /// Zero.
    pub fn zero() -> (r: U256)
        ensures
            r@ == 0,
            r.be@ == uint_word(0),
    {
        let r = U256 { be: [0u8; 32] };
        proof {
            lemma_be_value_zeros(32);
            assert(r.be@ =~= Seq::new(32, |i: int| 0u8));
            lemma_be_value_bytes(r.be@);
        }
        r
    }

    /// The integer that one byte denotes.
    pub fn from_byte(v: u8) -> (r: U256)
        ensures
            r@ == v,
            r.be@ == uint_word(v as nat),
    {
        let mut be = [0u8; 32];
        be[31] = v;
        let r = U256 { be };
        proof {
            lemma_be_value_zeros(31);
            assert(r.be@.drop_last() =~= Seq::new(31, |i: int| 0u8));
            lemma_be_value_bytes(r.be@);
        }
        r
    }

    /// Whether the integer is zero.
    pub fn is_zero(&self) -> (r: bool)
        ensures
            r == (self@ == 0),
    {
        let mut i: usize = 0;
        while i < 32
            invariant
                0 <= i <= 32,
                forall|j: int| 0 <= j < i ==> self.be@[j] == 0,
            decreases 32 - i,
        {
            if self.be[i] != 0 {
                proof {
                    if self@ == 0 {
                        lemma_be_value_zeros(32);
                        lemma_be_value_injective(self.be@, Seq::new(32, |j: int| 0u8));
                    }
                }
                return false;
            }
            i = i + 1;
        }
        proof {
            assert(self.be@ =~= Seq::new(32, |j: int| 0u8));
            lemma_be_value_zeros(32);
        }
        true
    }

    /// The sum of two integers modulo 2 to the power 256.
    pub fn wrapping_add(self, other: U256) -> (r: U256)
        ensures
            r@ == (self@ + other@) % pow2(256),
            r.be@ == uint_word(self@ + other@),
    {
        let mut be: [u8; 32] = [0u8; 32];
        let mut carry: u16 = 0;
        let mut i: usize = 32;
        proof {
            lemma2_to64();
        }
        while i > 0
            invariant
                0 <= i <= 32,
                carry <= 1,
                be_value(be@.skip(i as int)) + carry * pow2(8 * (32 - i) as nat) == be_value(
                    self.be@.skip(i as int),
                ) + be_value(other.be@.skip(i as int)),
            decreases i,
        {
            let ghost tail = be@.skip(i as int);
            let ghost p = pow2(8 * (32 - i) as nat) as int;
            let ghost c0 = carry as int;
            let ghost a_tail = self.be@.skip(i as int);
            let ghost b_tail = other.be@.skip(i as int);
            i = i - 1;
            let sum: u16 = self.be[i] as u16 + other.be[i] as u16 + carry;
            be[i] = (sum % 256) as u8;
            carry = sum / 256;
            proof {
                let x = be@[i as int];
                assert(be@.skip(i as int) =~= seq![x] + tail);
                assert(self.be@.skip(i as int) =~= seq![self.be@[i as int]] + a_tail);
                assert(other.be@.skip(i as int) =~= seq![other.be@[i as int]] + b_tail);
                lemma_be_value_append(seq![x], tail);
                lemma_be_value_append(seq![self.be@[i as int]], a_tail);
                lemma_be_value_append(seq![other.be@[i as int]], b_tail);
                lemma_be_value_single(x);
                lemma_be_value_single(self.be@[i as int]);
                lemma_be_value_single(other.be@[i as int]);
                lemma2_to64();
                lemma_pow2_adds(8 * (31 - i) as nat, 8);
                assert(8 * (31 - i) as nat + 8 == 8 * (32 - i) as nat);
                let a0 = self.be@[i as int] as int;
                let b0 = other.be@[i as int] as int;
                let c1 = carry as int;
                assert(x + 256 * c1 == a0 + b0 + c0);
                assert(x * p + c1 * (p * 256) == a0 * p + b0 * p + c0 * p) by (nonlinear_arith)
                    requires
                        x + 256 * c1 == a0 + b0 + c0,
                ;
            }
        }
        let r = U256 { be };
        proof {
            assert(be@.skip(0) =~= be@);
            assert(self.be@.skip(0) =~= self.be@);
            assert(other.be@.skip(0) =~= other.be@);
            lemma_be_value_bound(be@);
            let m = pow2(256) as int;
            lemma_pow2_pos(256);
            let total = self@ + other@;
            assert(total == carry as int * m + r@);
            lemma_fundamental_div_mod_converse(total as int, m, carry as int, r@ as int);
            lemma_be_bytes_value(self@ + other@, 32);
            lemma_be_value_injective(be@, uint_word(self@ + other@));
        }
        r
    }

    /// Whether binary digit `i` is one.
    pub fn bit(&self, i: usize) -> (r: bool)
        requires
            i < 256,
        ensures
            r == bit_of(self@, i as nat),
    {
        let b = self.be[31 - i / 8];
        let shift: u8 = (i % 8) as u8;
        proof {
            lemma_bit_in_byte(self.be@, i as nat);
            lemma_u8_shr_is_div(b, shift);
        }
        (b >> shift) % 2 == 1
    }

    /// The integer with binary digit `i` inverted.
    pub fn flip_bit(&self, i: usize) -> (r: U256)
        requires
            i < 256,
        ensures
            bit_of(self@, i as nat) ==> r@ == self@ - pow2(i as nat),
            !bit_of(self@, i as nat) ==> r@ == self@ + pow2(i as nat),
    {
        let k: usize = 31 - i / 8;
        let b = self.be[k];
        let shift: u8 = (i % 8) as u8;
        let mask: u8 = 1u8 << shift;
        let mut be = self.be;
        be[k] = b ^ mask;
        proof {
            lemma_bit_in_byte(self.be@, i as nat);
            lemma_u8_shr_is_div(b, shift);
            lemma2_to64();
            assert(mask == pow2(shift as nat)) by {
                lemma_pow2_strictly_increases(shift as nat, 8);
                lemma_u8_shl_is_mul(1, shift);
            }
            assert((b >> shift) % 2 == 1 ==> (b ^ (1u8 << shift)) == b - (1u8 << shift))
                by (bit_vector)
                requires
                    shift < 8,
            ;
            assert((b >> shift) % 2 != 1 ==> (b ^ (1u8 << shift)) == b + (1u8 << shift))
                by (bit_vector)
                requires
                    shift < 8,
            ;
            assert(be@ =~= self.be@.update(k as int, be@[k as int]));
            lemma_byte_weight(self.be@, be@, i as nat);
        }
        U256 { be }
    }
}

/// A 256-bit signed integer, held as its 32 big-endian bytes in two's complement.
#[derive(Debug, Clone, Copy, PartialEq, Eq)]
pub struct I256 {
    pub be: [u8; 32],
}

impl View for I256 {
    type V = int;

    /// The integer itself.
    open spec fn view(&self) -> int {
        twos_complement(be_value(self.be@), 256)
    }
}

/// A run of zero bytes denotes zero.
proof fn lemma_be_value_zeros(n: nat)
    ensures
        be_value(Seq::new(n, |i: int| 0u8)) == 0,
    decreases n,
{
    let s = Seq::new(n, |i: int| 0u8);
    if n > 0 {
        lemma_be_value_zeros((n - 1) as nat);
        assert(s.drop_last() =~= Seq::new((n - 1) as nat, |i: int| 0u8));
    }
}

/// A single byte denotes itself.
proof fn lemma_be_value_single(x: u8)
    ensures
        be_value(seq![x]) == x,
{
    assert(seq![x].drop_last() =~= Seq::<u8>::empty());
    assert(be_value(Seq::<u8>::empty()) == 0);
}

/// The number that three bytes denote.
pub(crate) proof fn lemma_be_value_three(s: Seq<u8>)
    requires
        s.len() == 3,
    ensures
        be_value(s) == s[0] * 0x1_0000 + s[1] * 0x100 + s[2],
{
    reveal_with_fuel(be_value, 4);
    let t = s.drop_last();
    let u = t.drop_last();
    assert(u.drop_last() =~= Seq::<u8>::empty());
}

/// Leading zero bytes do not change the number.
pub(crate) proof fn lemma_be_value_padded(s: Seq<u8>, n: int)
    requires
        0 <= n <= s.len(),
        forall|j: int| 0 <= j < n ==> s[j] == 0,
    ensures
        be_value(s) == be_value(s.skip(n)),
{
    assert(s.take(n) =~= Seq::new(n as nat, |i: int| 0u8));
    lemma_be_value_zeros(n as nat);
    lemma_be_value_append(s.take(n), s.skip(n));
    assert(s =~= s.take(n) + s.skip(n));
}

/// The two's complement words of two integers on 24 bits are equal only where the integers are.
pub proof fn lemma_int_word_injective(a: int, b: int)
    requires
        -0x80_0000 <= a < 0x80_0000,
        -0x80_0000 <= b < 0x80_0000,
        int_word(a) == int_word(b),
    ensures
        a == b,
{
    let m = pow2(256) as int;
    lemma2_to64();
    lemma_pow2_strictly_increases(32, 256);
    lemma_mod_bound(a, m);
    lemma_mod_bound(b, m);
    lemma_be_bytes_value((a % m) as nat, 32);
    lemma_be_bytes_value((b % m) as nat, 32);
    lemma_small_mod((a % m) as nat, m as nat);
    lemma_small_mod((b % m) as nat, m as nat);
    assert(a % m == b % m);
    lemma_word_residue(a, m);
    lemma_word_residue(b, m);
}

/// The residue of a number that is small against the modulus.
proof fn lemma_word_residue(a: int, m: int)
    requires
        m > 0x100_0000,
        -0x80_0000 <= a < 0x80_0000,
    ensures
        a % m == if a < 0 {
            a + m
        } else {
            a
        },
{
    if a < 0 {
        assert(a == (-1) * m + (a + m)) by (nonlinear_arith);
        lemma_fundamental_div_mod_converse(a, m, -1, a + m);
    } else {
        lemma_small_mod(a as nat, m as nat);
    }
}

/// The words of two unsigned integers below the modulus are equal only where the integers are.
pub proof fn lemma_uint_word_injective(a: nat, b: nat)
    requires
        a < pow2(256),
        b < pow2(256),
        uint_word(a) == uint_word(b),
    ensures
        a == b,
{
    lemma_be_bytes_value(a, 32);
    lemma_be_bytes_value(b, 32);
    lemma_small_mod(a, pow2(256));
    lemma_small_mod(b, pow2(256));
}

/// The last bytes of a number are its residue, and the bytes before them its quotient.
pub proof fn lemma_be_value_parts(s: Seq<u8>, k: int)
    requires
        0 <= k <= s.len(),
    ensures
        be_value(s.skip(k)) == be_value(s) % pow2(8 * (s.len() - k) as nat),
        be_value(s.take(k)) == be_value(s) / pow2(8 * (s.len() - k) as nat),
{
    assert(s =~= s.take(k) + s.skip(k));
    lemma_be_value_append(s.take(k), s.skip(k));
    lemma_be_value_bound(s.skip(k));
    lemma_fundamental_div_mod_converse(
        be_value(s) as int,
        pow2(8 * (s.len() - k) as nat) as int,
        be_value(s.take(k)) as int,
        be_value(s.skip(k)) as int,
    );
}

/// Bytes are digits to the base 256, the most significant first.
pub proof fn law_big_endian(s: Seq<u8>, first: u8, last: u8)
    ensures
        be_value(Seq::<u8>::empty()) == 0,
        be_value(s.push(last)) == 256 * be_value(s) + last,
        be_value(seq![first] + s) == first * pow2(8 * s.len()) + be_value(s),
        be_value(s) < pow2(8 * s.len()),
{
    assert(s.push(last).drop_last() =~= s);
    lemma_be_value_append(seq![first], s);
    lemma_be_value_single(first);
    lemma_be_value_bound(s);
}

/// The two's complement reading is the integer of the signed range that is congruent to the number.
pub proof fn law_twos_complement(v: nat, bits: nat)
    requires
        bits > 0,
        v < pow2(bits),
    ensures
        -(pow2((bits - 1) as nat) as int) <= twos_complement(v, bits) < pow2((bits - 1) as nat),
        twos_complement(v, bits) % pow2(bits) as int == v,
{
    let m = pow2(bits) as int;
    lemma2_to64();
    lemma_pow2_adds(1, (bits - 1) as nat);
    lemma_pow2_pos(bits);
    let t = twos_complement(v, bits);
    if t >= 0 {
        lemma_small_mod(v, pow2(bits));
    } else {
        assert(t == (-1) * m + v) by (nonlinear_arith)
            requires
                t == v - m,
        ;
        lemma_fundamental_div_mod_converse(t, m, -1, v as int);
    }
}

/// Of the integers of a signed range, only one is congruent to a given number.
pub proof fn lemma_signed_unique(a: int, b: int, bits: nat)
    requires
        bits > 0,
        -(pow2((bits - 1) as nat) as int) <= a < pow2((bits - 1) as nat),
        -(pow2((bits - 1) as nat) as int) <= b < pow2((bits - 1) as nat),
        a % pow2(bits) as int == b % pow2(bits) as int,
    ensures
        a == b,
{
    let m = pow2(bits) as int;
    lemma2_to64();
    lemma_pow2_adds(1, (bits - 1) as nat);
    lemma_pow2_pos(bits);
    lemma_fundamental_div_mod(a, m);
    lemma_fundamental_div_mod(b, m);
    let d = a / m - b / m;
    assert(a - b == m * d) by (nonlinear_arith)
        requires
            a == m * (a / m) + a % m,
            b == m * (b / m) + b % m,
            a % m == b % m,
            d == a / m - b / m,
    ;
    assert(d == 0) by (nonlinear_arith)
        requires
            a - b == m * d,
            -m < a - b < m,
            m > 0,
    ;
}

/// A word gives back what is written to it: an unsigned and a signed integer modulo the size of a
/// word, and an address in the last 20 of its 32 bytes, behind zeroes.
pub proof fn law_words_read_back(v: nat, n: int, a: Seq<u8>)
    requires
        a.len() == 20,
    ensures
        uint_word(v).len() == 32,
        be_value(uint_word(v)) == v % pow2(256),
        int_word(n).len() == 32,
        be_value(int_word(n)) == n % pow2(256) as int,
        address_word(a).len() == 32,
        address_word(a).subrange(12, 32) == a,
        forall|i: int| 0 <= i < 12 ==> address_word(a)[i] == 0,
{
    let m = pow2(256) as int;
    lemma_pow2_pos(256);
    lemma_mod_bound(n, m);
    lemma_be_bytes_value(v, 32);
    lemma_be_bytes_value((n % m) as nat, 32);
    lemma_small_mod((n % m) as nat, m as nat);
    assert(address_word(a).subrange(12, 32) =~= a);
}

/// Binary digit `i` is one exactly where what is left modulo the next power of two reaches its
/// weight.
pub proof fn law_binary_digit(v: nat, i: nat)
    ensures
        bit_of(v, i) <==> v % pow2(i + 1) >= pow2(i),
{
    let p = pow2(i) as int;
    lemma2_to64();
    lemma_pow2_adds(i, 1);
    lemma_pow2_pos(i);
    let q = v as int / p;
    let r = v as int % p;
    lemma_fundamental_div_mod(v as int, p);
    lemma_mod_bound(v as int, p);
    let h = q / 2;
    let b = q % 2;
    assert(v == h * (p * 2) + (b * p + r)) by (nonlinear_arith)
        requires
            v == p * q + r,
            q == 2 * h + b,
    ;
    assert(0 <= b * p + r < p * 2) by (nonlinear_arith)
        requires
            0 <= b <= 1,
            0 <= r < p,
    ;
    lemma_fundamental_div_mod_converse(v as int, p * 2, h, b * p + r);
    assert(b == 0 ==> b * p == 0) by (nonlinear_arith);
    assert(b == 1 ==> b * p == p) by (nonlinear_arith);
}

} // verus!
