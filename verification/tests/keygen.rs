use pois_bridge::bigint::BigInteger;
use pois_bridge::decimal::decode_big_integer;
use pois_bridge::c_types::CommonParam;
use pois_bridge::keygen::{generator_from_candidate, init_common_params, rsa_keygen};
use pois_bridge::types::RsaKey;

fn bit_length(magnitude: &[u8]) -> usize {
    let significant: Vec<u8> = magnitude.iter().copied().skip_while(|b| *b == 0).collect();
    match significant.first() {
        Some(first) => 8 * significant.len() - first.leading_zeros() as usize,
        None => 0,
    }
}

#[test]
fn generator_is_the_square_below_the_modulus() {
    assert_eq!(generator_from_candidate(&[35], &[2]), Some(vec![4]));
    assert_eq!(generator_from_candidate(&[35], &[17]), Some(vec![9]));
    assert_eq!(generator_from_candidate(&[35], &[1]), Some(vec![1]));
    assert_eq!(generator_from_candidate(&[35], &[36]), Some(vec![1]));
    assert_eq!(generator_from_candidate(&[1, 1], &[255]), Some(vec![4]));
    assert_eq!(generator_from_candidate(&[0x03, 0xe9], &[0x02, 0x00]), Some(vec![0x03, 0x73]));
}

#[test]
fn candidate_with_a_common_divisor_is_turned_down() {
    assert_eq!(generator_from_candidate(&[35], &[5]), None);
    assert_eq!(generator_from_candidate(&[35], &[14]), None);
    assert_eq!(generator_from_candidate(&[35], &[70]), None);
    assert_eq!(generator_from_candidate(&[35], &[0]), None);
    assert_eq!(generator_from_candidate(&[35], &[]), None);
    assert_eq!(generator_from_candidate(&[1, 0], &[2]), None);
}

#[test]
fn modulus_of_zero_or_one_takes_no_candidate() {
    assert_eq!(generator_from_candidate(&[], &[3]), None);
    assert_eq!(generator_from_candidate(&[0], &[3]), None);
    assert_eq!(generator_from_candidate(&[0, 1], &[3]), None);
    assert_eq!(generator_from_candidate(&[1], &[0]), None);
}

#[test]
fn drawn_key_has_the_bits_asked_for() {
    for lambda in [128usize, 256, 512] {
        let key = rsa_keygen(lambda).unwrap();
        assert!(!key.n.negative);
        assert!(!key.g.negative);
        assert_eq!(bit_length(&key.n.magnitude), lambda);
        assert_eq!(key.n.magnitude.len(), lambda / 8);
        assert!(key.g.magnitude < key.n.magnitude || key.g.magnitude.len() < lambda / 8);
        assert_ne!(key.g.magnitude.first(), Some(&0));
        assert_eq!(key.n.magnitude.last().unwrap() % 2, 1);
    }
}

#[test]
fn no_key_of_too_few_bits() {
    assert_eq!(rsa_keygen(0), None);
    assert_eq!(rsa_keygen(1), None);
    assert_eq!(rsa_keygen(8), None);
}

#[test]
fn parameters_are_written_as_text() {
    let key = RsaKey {
        n: BigInteger { negative: false, magnitude: vec![0x0c, 0x81] },
        g: BigInteger { negative: false, magnitude: vec![9] },
    };
    let params = init_common_params(key, 7, 512, 64);
    assert_eq!(
        params,
        CommonParam { key_n: b"3201\0".to_vec(), key_g: b"9\0".to_vec(), k: 7, n: 512, d: 64 }
    );
}

#[test]
fn parameters_of_a_drawn_key_are_read_back() {
    let key = rsa_keygen(128).unwrap();
    let params = init_common_params(key.clone(), 7, 1024 * 1024 * 4, 64);
    assert_eq!(params.k, 7);
    assert_eq!(params.n, 1024 * 1024 * 4);
    assert_eq!(params.d, 64);
    assert_eq!(decode_big_integer(&params.key_n, 64), Ok(key.n));
    assert_eq!(decode_big_integer(&params.key_g, 64), Ok(key.g));
}

fn gcd(a: u128, b: u128) -> u128 {
    if b == 0 {
        a
    } else {
        gcd(b, a % b)
    }
}

fn canonical(value: u128) -> Vec<u8> {
    let bytes: Vec<u8> = value.to_be_bytes().iter().copied().skip_while(|b| *b == 0).collect();
    if bytes.is_empty() {
        vec![0]
    } else {
        bytes
    }
}

#[test]
fn generator_agrees_with_machine_integers() {
    let mut state: u64 = 0x9e37_79b9_7f4a_7c15;
    let mut next = || {
        state = state.wrapping_mul(6364136223846793005).wrapping_add(1442695040888963407);
        (state >> 33) as u128
    };
    let mut taken = 0;
    for round in 0..500 {
        let modulus = if round % 2 == 0 { next() | 1 } else { next() };
        let candidate = next() * next();
        let expected = if modulus > 1 && gcd(candidate, modulus) == 1 {
            taken += 1;
            Some(canonical((candidate % modulus) * (candidate % modulus) % modulus))
        } else {
            None
        };
        assert_eq!(
            generator_from_candidate(&canonical(modulus), &canonical(candidate)),
            expected,
            "{} {}",
            modulus,
            candidate
        );
    }
    assert!(taken > 50);
}
