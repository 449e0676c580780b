//! Big integers as the managed side holds them: a sign and a magnitude in
//! big-endian bytes. The arithmetic on magnitudes is that of
//! `num_bigint_dig`.

use vstd::prelude::*;
use vstd::arithmetic::power::pow;
use num_bigint_dig::BigUint;
use num_integer::Integer;

verus! {

/// An integer of any size.
#[derive(Debug, Clone, PartialEq, Eq)]
pub struct BigInteger {
    /// Whether the integer is below zero. It counts for nothing where the
    /// magnitude is zero.
    pub negative: bool,
    /// The absolute value, most significant byte first. Leading zero bytes
    /// are allowed, and no bytes at all stand for zero.
    pub magnitude: Vec<u8>,
}

/// The number that big-endian bytes stand for.
pub open spec fn be_value(bytes: Seq<u8>) -> nat
    decreases bytes.len(),
{
    if bytes.len() == 0 {
        0
    } else {
        be_value(bytes.drop_last()) * 256 + bytes.last() as nat
    }
}

impl View for BigInteger {
    type V = int;

    open spec fn view(&self) -> int {
        if self.negative {
            -(be_value(self.magnitude@) as int)
        } else {
            be_value(self.magnitude@) as int
        }
    }
}

/// Whether bytes are the shortest that stand for their number: one byte at
/// least, and no leading zero byte before another byte.
pub open spec fn is_canonical(bytes: Seq<u8>) -> bool {
    bytes.len() > 0 && (bytes.len() > 1 ==> bytes[0] != 0)
}

impl BigInteger {
    /// Whether this is the one way to write its integer: the shortest
    /// magnitude, and no sign on zero.
    pub open spec fn is_normal(&self) -> bool {
        is_canonical(self.magnitude@) && (self.negative ==> be_value(self.magnitude@) > 0)
    }
}

/// The number 256 to the power of `n`.
pub open spec fn radix_power(n: nat) -> nat
    decreases n,
{
    if n == 0 {
        1
    } else {
        256 * radix_power((n - 1) as nat)
    }
}

/// Bytes stand for a number below 256 to the power of their count, and for
/// no less than their first byte times 256 to the power of the count of the
/// others.
pub proof fn lemma_be_value_bounds(bytes: Seq<u8>)
    ensures
        be_value(bytes) < radix_power(bytes.len()),
        bytes.len() > 0 ==> be_value(bytes) >= bytes[0] * radix_power((bytes.len() - 1) as nat),
    decreases bytes.len(),
{
    if bytes.len() > 0 {
        let head = bytes.drop_last();
        lemma_be_value_bounds(head);
        let rest = radix_power(head.len());
        assert(radix_power(bytes.len()) == 256 * rest);
        assert(be_value(bytes) == be_value(head) * 256 + bytes.last());
        if head.len() > 0 {
            let low = radix_power((head.len() - 1) as nat);
            assert(rest == 256 * low);
            assert(head[0] == bytes[0]);
            assert(be_value(head) * 256 >= (bytes[0] * low) * 256) by (nonlinear_arith)
                requires
                    be_value(head) >= bytes[0] * low,
            ;
            assert((bytes[0] * low) * 256 == bytes[0] * (256 * low)) by (nonlinear_arith);
            assert(radix_power((bytes.len() - 1) as nat) == rest);
        } else {
            assert(bytes[0] == bytes.last());
            assert(be_value(head) == 0);
            assert(radix_power((bytes.len() - 1) as nat) == 1);
            assert(bytes[0] * 1 == bytes[0] as int);
        }
    }
}

/// The powers of 256 grow with the exponent.
pub proof fn lemma_radix_power_grows(m: nat, n: nat)
    requires
        m <= n,
    ensures
        0 < radix_power(m) <= radix_power(n),
    decreases n,
{
    if n == 0 {
    } else if m == n {
        lemma_radix_power_grows(0, (n - 1) as nat);
    } else {
        lemma_radix_power_grows(m, (n - 1) as nat);
    }
}

/// The shortest bytes of a number are its only shortest bytes.
pub proof fn lemma_canonical_unique(a: Seq<u8>, b: Seq<u8>)
    requires
        is_canonical(a),
        is_canonical(b),
        be_value(a) == be_value(b),
    ensures
        a == b,
    decreases a.len(),
{
    lemma_be_value_bounds(a);
    lemma_be_value_bounds(b);
    if a.len() < b.len() {
        lemma_radix_power_grows(a.len(), (b.len() - 1) as nat);
        assert(b[0] * radix_power((b.len() - 1) as nat) >= radix_power((b.len() - 1) as nat))
            by (nonlinear_arith)
            requires
                b[0] >= 1,
        ;
    } else if b.len() < a.len() {
        lemma_radix_power_grows(b.len(), (a.len() - 1) as nat);
        assert(a[0] * radix_power((a.len() - 1) as nat) >= radix_power((a.len() - 1) as nat))
            by (nonlinear_arith)
            requires
                a[0] >= 1,
        ;
    } else {
        lemma_same_length_unique(a, b);
    }
}

/// Bytes of one count that stand for one number are the same bytes.
pub proof fn lemma_same_length_unique(a: Seq<u8>, b: Seq<u8>)
    requires
        a.len() == b.len(),
        be_value(a) == be_value(b),
    ensures
        a == b,
    decreases a.len(),
{
    if a.len() == 0 {
        assert(a =~= b);
    } else {
        assert(a.last() == b.last() && be_value(a.drop_last()) == be_value(b.drop_last()));
        lemma_same_length_unique(a.drop_last(), b.drop_last());
        assert(a =~= a.drop_last().push(a.last()));
        assert(b =~= b.drop_last().push(b.last()));
    }
}

/// An integer is written in one normal way.
pub proof fn lemma_normal_unique(x: BigInteger, y: BigInteger)
    requires
        x.is_normal(),
        y.is_normal(),
        x@ == y@,
    ensures
        x.negative == y.negative,
        x.magnitude@ == y.magnitude@,
{
    lemma_canonical_unique(x.magnitude@, y.magnitude@);
}

/// Whether `d` divides both `a` and `b`.
pub open spec fn is_common_divisor(d: nat, a: nat, b: nat) -> bool {
    d > 0 && a % d == 0 && b % d == 0
}

/// Whether `g` is the greatest common divisor of `a` and `b`: the largest
/// number that divides both, and 0 where both are 0.
pub open spec fn is_gcd(g: nat, a: nat, b: nat) -> bool {
    if a == 0 && b == 0 {
        g == 0
    } else {
        is_common_divisor(g, a, b) && forall|d: nat| is_common_divisor(d, a, b) ==> d <= g
    }
}

/// Whether 1 is the only number that divides both `a` and `b`.
pub open spec fn coprime(a: nat, b: nat) -> bool {
    is_gcd(1, a, b)
}

/// Two numbers have one greatest common divisor.
pub proof fn lemma_gcd_unique(g: nat, h: nat, a: nat, b: nat)
    requires
        is_gcd(g, a, b),
        is_gcd(h, a, b),
    ensures
        g == h,
{
}

/// Bytes of which all but the last are zero stand for the last byte, and
/// bytes with another byte that is not zero stand for 256 at least.
pub proof fn lemma_be_value_small(bytes: Seq<u8>)
    ensures
        bytes.len() > 0 && (forall|i: int| 0 <= i < bytes.len() - 1 ==> #[trigger] bytes[i] == 0)
            ==> be_value(bytes) == bytes.last(),
        (exists|i: int| 0 <= i < bytes.len() - 1 && #[trigger] bytes[i] != 0) ==> be_value(bytes)
            >= 256,
    decreases bytes.len(),
{
    if bytes.len() > 0 {
        let head = bytes.drop_last();
        lemma_be_value_small(head);
        if forall|i: int| 0 <= i < bytes.len() - 1 ==> #[trigger] bytes[i] == 0 {
            if head.len() > 0 {
                assert forall|i: int| 0 <= i < head.len() - 1 implies #[trigger] head[i] == 0 by {
                    assert(head[i] == bytes[i]);
                }
                assert(head.last() == bytes[bytes.len() - 2]);
            }
        }
        if exists|i: int| 0 <= i < bytes.len() - 1 && #[trigger] bytes[i] != 0 {
            let i = choose|i: int| 0 <= i < bytes.len() - 1 && #[trigger] bytes[i] != 0;
            assert(head[i] == bytes[i]);
            if i < head.len() - 1 {
                assert(be_value(head) >= 256);
            } else {
                assert(head.last() == bytes[i]);
                assert(be_value(head) >= 1);
            }
        }
    }
}

/// The value of a magnitude where it is below 256, and `None` where it is
/// not.
pub fn small_value(magnitude: &[u8]) -> (value: Option<u8>)
    ensures
        match value {
            Some(v) => be_value(magnitude@) == v,
            None => be_value(magnitude@) >= 256,
        },
{
    let n = magnitude.len();
    if n == 0 {
        return Some(0);
    }
    let mut i: usize = 0;
    while i < n - 1
        invariant
            0 < n == magnitude@.len(),
            i <= n - 1,
            forall|j: int| 0 <= j < i ==> #[trigger] magnitude@[j] == 0,
        decreases n - i,
    {
        if magnitude[i] != 0 {
            proof {
                lemma_be_value_small(magnitude@);
            }
            return None;
        }
        i += 1;
    }
    proof {
        lemma_be_value_small(magnitude@);
    }
    Some(magnitude[n - 1])
}

/// The greatest common divisor of two magnitudes.
///
/// Trusted: the body makes a `BigUint` of each argument with
/// `BigUint::from_bytes_be`, calls `Integer::gcd` on them, which gives
/// their greatest common divisor, the other number where one is zero
/// and zero where both are, and takes the bytes of the result with
/// `BigUint::to_bytes_be`.
#[verifier::external_body]
pub(crate) fn magnitude_gcd(a: &[u8], b: &[u8]) -> (g: Vec<u8>)
    ensures
        is_gcd(be_value(g@), be_value(a@), be_value(b@)),
        is_canonical(g@),
{
    BigUint::from_bytes_be(a).gcd(&BigUint::from_bytes_be(b)).to_bytes_be()
}

/// A power of a magnitude, reduced by a modulus.
///
/// Trusted: the body makes a `BigUint` of the base and of the modulus with
/// `BigUint::from_bytes_be` and of the exponent with `From<u32>`, calls
/// `BigUint::modpow`, which gives the base to the power of the exponent,
/// reduced by the modulus, and takes the bytes of the result with
/// `BigUint::to_bytes_be`. `modpow` panics on a modulus of zero; a modulus
/// of one is left out as well.
#[verifier::external_body]
pub(crate) fn magnitude_modpow(base: &[u8], exponent: u32, modulus: &[u8]) -> (power: Vec<u8>)
    requires
        be_value(modulus@) > 1,
    ensures
        be_value(power@) == pow(be_value(base@) as int, exponent as nat) % (be_value(
            modulus@,
        ) as int),
        is_canonical(power@),
{
    BigUint::from_bytes_be(base).modpow(
        &BigUint::from(exponent),
        &BigUint::from_bytes_be(modulus),
    ).to_bytes_be()
}

} // verus!
