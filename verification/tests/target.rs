//! Tests for difficulty to target and the PoW hash check.

use pow_gate_core::target::{difficulty_to_target, digest_solves, hash_below, pow_hash, solution_valid};

#[test]
fn difficulty_one_or_zero_is_max_target() {
    assert_eq!(difficulty_to_target(1), [0xff; 32]);
    assert_eq!(difficulty_to_target(0), [0xff; 32]);
}

#[test]
fn difficulty_two_halves_target() {
    // 2^256 / 2 = 2^255 = 0x80 then 31 zero bytes.
    let mut expected = [0u8; 32];
    expected[0] = 0x80;
    assert_eq!(difficulty_to_target(2), expected);
}

#[test]
fn difficulty_256_shifts_one_byte() {
    // 2^256 / 256 = 2^248. Byte 0 is most-significant, so bit 248 lands as the
    // low bit of byte 0: result = 0x01 followed by 31 zero bytes.
    let mut expected = [0u8; 32];
    expected[0] = 0x01;
    assert_eq!(difficulty_to_target(256), expected);
}

#[test]
fn hash_below_orders_big_endian_strictly() {
    let mut a = [0u8; 32];
    let mut b = [0u8; 32];
    a[0] = 0x10;
    b[0] = 0x20;
    assert!(hash_below(&a, &b));
    assert!(!hash_below(&b, &a));
    assert!(!hash_below(&a, &a));
}

#[test]
fn pow_hash_is_stable() {
    // Pin the contract the browser must reproduce: SHA-256(utf8(salt + nonce)).
    let h1 = pow_hash("deadbeef", 42);
    let h2 = pow_hash("deadbeef", 42);
    assert_eq!(h1, h2);
    assert_ne!(h1, pow_hash("deadbeef", 43));
    assert_ne!(h1, pow_hash("deadbeee", 42));
}

#[test]
fn a_solution_can_be_found_and_verifies() {
    let salt = "deadbeef";
    let difficulty = 2000;
    let mut nonce = 0u64;
    while !solution_valid(salt, nonce, difficulty) {
        nonce += 1;
        assert!(nonce < 10_000_000, "should find a solution quickly");
    }
    assert!(solution_valid(salt, nonce, difficulty));
    // a hard target makes that same nonce overwhelmingly unlikely to pass
    assert!(!solution_valid("cafebabe", nonce, 1 << 40));
}

#[test]
fn difficulty_three_is_a_third() {
    // floor(2^256 / 3) = 0x5555...55
    assert_eq!(difficulty_to_target(3), [0x55; 32]);
}

#[test]
fn largest_difficulty_still_has_a_target() {
    // floor(2^256 / (2^64 - 1)) = 2^192 + 2^128 + 2^64 + 1
    let mut expected = [0u8; 32];
    for i in [7usize, 15, 23, 31] {
        expected[i] = 1;
    }
    assert_eq!(difficulty_to_target(u64::MAX), expected);
}

#[test]
fn targets_shrink_with_difficulty() {
    let mut prev = difficulty_to_target(1);
    for d in 2..300u64 {
        let next = difficulty_to_target(d);
        assert!(hash_below(&next, &prev));
        prev = next;
    }
}

#[test]
fn hash_below_decides_at_the_first_difference() {
    let mut a = [7u8; 32];
    let mut b = [7u8; 32];
    a[30] = 6;
    b[31] = 0;
    assert!(hash_below(&a, &b));
    assert!(!hash_below(&b, &a));
}

#[test]
fn pow_hash_is_sha256_of_salt_then_decimal_nonce() {
    // SHA-256("abc") split as salt "a", nonce text
    let h = pow_hash("", 0);
    assert_eq!(
        pow_gate_core::codec::hex(&h),
        "5feceb66ffc86f38d952786c6d696c79c2dbc239dd4e91b46729d73a27fb57e9"
    );
    assert_eq!(pow_hash("1", 23), pow_hash("12", 3));
    assert_eq!(pow_hash("12", 3), pow_hash("", 123));
}

#[test]
fn digests_are_measured_against_the_target() {
    assert!(digest_solves(&[0u8; 32], u64::MAX));
    assert!(!digest_solves(&[0xffu8; 32], 2));
    assert!(!digest_solves(&[0x80u8; 32], 2));
    assert!(digest_solves(&[0x7fu8; 32], 2));
}

#[test]
fn every_digest_passes_at_one_and_at_zero() {
    for d in [0u64, 1] {
        for b in [0u8, 0x80, 0xfe, 0xff] {
            assert!(digest_solves(&[b; 32], d));
        }
        for n in 0..50u64 {
            assert!(solution_valid("cafebabe", n, d));
        }
    }
}

#[test]
fn what_solves_a_hard_difficulty_solves_an_easy_one() {
    for n in 0..300u64 {
        let digest = pow_hash("deadbeef", n);
        let mut solved = false;
        for d in [100u64, 50, 20, 7, 3, 2, 1, 0] {
            let now = digest_solves(&digest, d);
            assert!(now || !solved, "nonce {n} at {d}");
            solved = now;
        }
    }
}
