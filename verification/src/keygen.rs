//! The parameters of the RSA accumulator: drawing a key and writing the
//! parameter record that every entry point of the engine takes.

use vstd::prelude::*;
use vstd::arithmetic::power2::pow2;
use num_bigint_dig::RandBigInt;
use rand::rngs::ThreadRng;
use rsa::traits::PublicKeyParts;
use rsa::RsaPrivateKey;
use crate::bigint::{
    be_value,
    coprime,
    is_canonical,
    lemma_gcd_unique,
    magnitude_gcd,
    magnitude_modpow,
    small_value,
    BigInteger,
};
use crate::decimal::{encode_big_integer, lemma_parse_text, terminated_text};
use crate::c_types::CommonParam;
use crate::types::RsaKey;

verus! {

/// The generator of the calling thread, seeded by the system.
#[verifier::external_type_specification]
#[verifier::external_body]
pub struct ExThreadRng(ThreadRng);

/// Nothing is known of the generator that `rand::thread_rng` hands out.
pub assume_specification[ rand::thread_rng ]() -> (rng: ThreadRng);

/// How often `rsa_keygen` draws a candidate before it gives up.
pub const MAX_DRAWS: u64 = u64::MAX;

/// The modulus of a fresh RSA key of `bit_size` bits, or `None` where no
/// key could be made.
///
/// Trusted: the body calls `RsaPrivateKey::new`, which draws two primes
/// until their product has exactly `bit_size` bits, and takes the bytes of
/// the modulus from `PublicKeyParts::n` with `BigUint::to_bytes_be`. Which
/// modulus comes back is up to the generator.
#[verifier::external_body]
fn random_modulus(rng: &mut ThreadRng, bit_size: usize) -> (modulus: Option<Vec<u8>>)
    ensures
        modulus matches Some(n) ==> bit_size > 0 && pow2((bit_size - 1) as nat) <= be_value(n@)
            < pow2(bit_size as nat) && is_canonical(n@),
{
    match RsaPrivateKey::new(rng, bit_size) {
        Ok(key) => Some(key.n().to_bytes_be()),
        Err(_) => None,
    }
}

/// A number drawn from those of `bit_size` bits at most.
///
/// Trusted: the body calls `RandBigInt::gen_biguint`, which fills
/// `bit_size` bits from the generator, and takes the bytes of the number
/// with `BigUint::to_bytes_be`.
#[verifier::external_body]
fn random_candidate(rng: &mut ThreadRng, bit_size: usize) -> (candidate: Vec<u8>)
    ensures
        be_value(candidate@) < pow2(bit_size as nat),
        is_canonical(candidate@),
{
    rng.gen_biguint(bit_size).to_bytes_be()
}

/// The generator that a candidate gives for a modulus: its square, reduced
/// by the modulus.
pub open spec fn generator_of(candidate: nat, modulus: nat) -> nat {
    (candidate * candidate) % modulus
}

/// Whether a candidate can be taken for a modulus: the modulus is above 1
/// and shares no divisor with the candidate.
pub open spec fn acceptable(candidate: nat, modulus: nat) -> bool {
    modulus > 1 && coprime(candidate, modulus)
}

/// The generator for a modulus from one candidate. The candidate is taken
/// if and only if it is acceptable.
pub fn generator_from_candidate(modulus: &[u8], candidate: &[u8]) -> (generator: Option<Vec<u8>>)
    ensures
        match generator {
            Some(g) => acceptable(be_value(candidate@), be_value(modulus@)) && be_value(g@)
                == generator_of(be_value(candidate@), be_value(modulus@)) && is_canonical(g@),
            None => !acceptable(be_value(candidate@), be_value(modulus@)),
        },
{
    match small_value(modulus) {
        Some(m) => {
            if m <= 1 {
                return None;
            }
        },
        None => {},
    }
    let divisor = magnitude_gcd(candidate, modulus);
    let ghost c = be_value(candidate@);
    let ghost m = be_value(modulus@);
    match small_value(divisor.as_slice()) {
        Some(d) => {
            if d != 1 {
                proof {
                    if coprime(c, m) {
                        lemma_gcd_unique(1, be_value(divisor@), c, m);
                    }
                }
                return None;
            }
        },
        None => {
            proof {
                if coprime(c, m) {
                    lemma_gcd_unique(1, be_value(divisor@), c, m);
                }
            }
            return None;
        },
    }
    let g = magnitude_modpow(candidate, 2, modulus);
    proof {
        vstd::arithmetic::power::lemma_square_is_pow2(c as int);
    }
    Some(g)
}

/// Whether `key` is a key for `lambda` bits: a modulus of exactly that many
/// bits, and as generator the square of a number that shares no divisor
/// with the modulus.
pub open spec fn is_key(key: RsaKey, lambda: nat) -> bool {
    &&& !key.n.negative
    &&& !key.g.negative
    &&& is_canonical(key.n.magnitude@)
    &&& is_canonical(key.g.magnitude@)
    &&& lambda > 0
    &&& pow2((lambda - 1) as nat) <= key.n@ < pow2(lambda)
    &&& exists|candidate: nat|
        candidate < pow2(lambda) && #[trigger] acceptable(candidate, key.n@ as nat) && key.g@
            == generator_of(candidate, key.n@ as nat)
}

/// Draws the parameters of an accumulator for `lambda` bits: the modulus of
/// a fresh RSA key, and the square of a number drawn until it shares no
/// divisor with the modulus. `None` where no key could be made, or where
/// `MAX_DRAWS` numbers in a row were turned down.
pub fn rsa_keygen(lambda: usize) -> (res: Option<RsaKey>)
    ensures
        res matches Some(key) ==> is_key(key, lambda as nat),
{
    let mut rng = rand::thread_rng();
    let n = match random_modulus(&mut rng, lambda) {
        Some(n) => n,
        None => { return None; },
    };
    let mut draws: u64 = 0;
    while draws < MAX_DRAWS
        invariant
            lambda > 0,
            pow2((lambda - 1) as nat) <= be_value(n@) < pow2(lambda as nat),
            is_canonical(n@),
        decreases MAX_DRAWS - draws,
    {
        let f = random_candidate(&mut rng, lambda);
        match generator_from_candidate(n.as_slice(), f.as_slice()) {
            Some(g) => {
                let key = RsaKey {
                    n: BigInteger { negative: false, magnitude: n },
                    g: BigInteger { negative: false, magnitude: g },
                };
                assert(acceptable(be_value(f@), key.n@ as nat));
                return Some(key);
            },
            None => {},
        }
        draws += 1;
    }
    None
}

/// Writes the parameter record: the modulus and the generator as decimal
/// text, each closed by a zero byte, and the three sizes as they are.
pub fn init_common_params(rsa_key: RsaKey, k: i64, n: i64, d: i64) -> (params: CommonParam)
    ensures
        params.key_n@ == terminated_text(rsa_key.n@),
        params.key_g@ == terminated_text(rsa_key.g@),
        params.k == k,
        params.n == n,
        params.d == d,
        params.well_formed(),
{
    let key_n = encode_big_integer(&rsa_key.n);
    let key_g = encode_big_integer(&rsa_key.g);
    proof {
        lemma_parse_text(rsa_key.n@, key_n@.len());
        lemma_parse_text(rsa_key.g@, key_g@.len());
    }
    CommonParam { key_n, key_g, k, n, d }
}

} // verus!
