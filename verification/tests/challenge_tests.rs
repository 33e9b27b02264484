use woodpecker::bits::BitMem;
use woodpecker::challenge::{
    evaluate_solution, full_add_problem_bits, get_full_add_problem, get_multiply_problem,
    get_one_bit_add_problem, get_sha256_problem, get_xor_problem, multiply_problem_bits,
    one_bit_add_problem_bits, rng_from_seed, sha256_problem_bits, xor_problem_bits,
    ChallengeError,
};
use woodpecker::cpu::Command;

fn bits_of(m: &BitMem) -> Vec<bool> {
    let mut out = Vec::new();
    for i in 0..m.len() {
        out.push(m.get(i));
    }
    out
}

fn word_at(m: &BitMem, start: usize) -> u32 {
    let mut w: u32 = 0;
    for j in 0..32 {
        if m.get(start + j) {
            w |= 1 << j;
        }
    }
    w
}

#[test]
fn xor_of_one_and_zero_is_one() {
    let (input, output) = xor_problem_bits(true, false);
    assert_eq!(bits_of(&input), vec![true, false]);
    assert_eq!(bits_of(&output), vec![true]);
}

#[test]
fn xor_of_one_and_one_is_zero() {
    let (input, output) = xor_problem_bits(true, true);
    assert_eq!(bits_of(&input), vec![true, true]);
    assert_eq!(bits_of(&output), vec![false]);
}

#[test]
fn one_bit_add_of_one_and_one_encodes_two() {
    let (input, output) = one_bit_add_problem_bits(true, true);
    assert_eq!(bits_of(&input), vec![true, true]);
    // two, little-endian in two bits
    assert_eq!(bits_of(&output), vec![false, true]);
}

#[test]
fn one_bit_add_of_one_and_zero_encodes_one() {
    let (_, output) = one_bit_add_problem_bits(true, false);
    assert_eq!(bits_of(&output), vec![true, false]);
}

#[test]
fn full_add_of_three_and_five_encodes_eight() {
    let (input, output) = full_add_problem_bits(3, 5);
    assert_eq!(input.len(), 32);
    assert_eq!(output.len(), 17);
    let mut value: u32 = 0;
    for j in 0..17 {
        if output.get(j) {
            value |= 1 << j;
        }
    }
    assert_eq!(value, 8);
}

#[test]
fn full_add_carries_into_bit_sixteen() {
    let (_, output) = full_add_problem_bits(0xffff, 1);
    for j in 0..16 {
        assert!(!output.get(j));
    }
    assert!(output.get(16));
}

#[test]
fn multiply_of_three_and_five_encodes_fifteen() {
    let (input, output) = multiply_problem_bits(3, 5);
    // a = 3 and b = 5, 16-bit little-endian
    assert_eq!(bits_of(&input)[0..3], [true, true, false]);
    assert_eq!(bits_of(&input)[16..19], [true, false, true]);
    assert_eq!(output.len(), 32);
    assert_eq!(word_at(&output, 0), 15);
}

#[test]
fn multiply_of_large_factors_fills_high_bits() {
    let (_, output) = multiply_problem_bits(0xffff, 0xffff);
    assert_eq!(word_at(&output, 0), 0xfffe0001);
}

#[test]
fn sha256_problem_matches_the_empty_message_vector() {
    // the padding block of the empty message and the standard initial state
    let mut msg = vec![0u8; 64];
    msg[0] = 0x80;
    let state: Vec<u32> = vec![
        0x6a09e667, 0xbb67ae85, 0x3c6ef372, 0xa54ff53a, 0x510e527f, 0x9b05688c, 0x1f83d9ab,
        0x5be0cd19,
    ];
    let (input, output) = sha256_problem_bits(&msg, &state);
    assert_eq!(input.len(), 768);
    assert_eq!(output.len(), 256);

    // the input spells the block bytes in reversed order: byte 0 of the
    // region is msg[63] == 0, byte 63 is msg[0] == 0x80
    for i in 0..504 {
        assert!(!input.get(i));
    }
    assert_eq!(
        (504..512).map(|i| input.get(i)).collect::<Vec<bool>>(),
        // 0x80 little-endian bit order
        vec![false, false, false, false, false, false, false, true]
    );
    // the input spells the state words in reversed order
    assert_eq!(word_at(&input, 512), state[7]);
    assert_eq!(word_at(&input, 512 + 7 * 32), state[0]);

    // the compressed state is the SHA-256 digest of the empty message,
    // whose words stand in the output in reversed order
    let digest: [u32; 8] = [
        0xe3b0c442, 0x98fc1c14, 0x9afbf4c8, 0x996fb924, 0x27ae41e4, 0x649b934c, 0xa495991b,
        0x7852b855,
    ];
    for i in 0..8 {
        assert_eq!(word_at(&output, i * 32), digest[7 - i]);
    }
}

#[test]
fn drawn_xor_problems_satisfy_the_relation() {
    let mut rng = rng_from_seed(7);
    for _ in 0..20 {
        let (input, output) = get_xor_problem(&mut rng);
        assert_eq!(output.get(0), input.get(0) != input.get(1));
    }
}

#[test]
fn drawn_add_problems_satisfy_the_relation() {
    let mut rng = rng_from_seed(8);
    for _ in 0..20 {
        let (input, output) = get_one_bit_add_problem(&mut rng);
        let sum = input.get(0) as u8 + input.get(1) as u8;
        let encoded = output.get(0) as u8 + 2 * output.get(1) as u8;
        assert_eq!(encoded, sum);
    }
}

#[test]
fn drawn_full_add_problems_satisfy_the_relation() {
    let mut rng = rng_from_seed(9);
    for _ in 0..10 {
        let (input, output) = get_full_add_problem(&mut rng);
        let mut a: u32 = 0;
        let mut b: u32 = 0;
        let mut s: u32 = 0;
        for j in 0..16 {
            a |= (input.get(j) as u32) << j;
            b |= (input.get(16 + j) as u32) << j;
        }
        for j in 0..17 {
            s |= (output.get(j) as u32) << j;
        }
        assert_eq!(s, a + b);
    }
}

#[test]
fn drawn_multiply_problems_satisfy_the_relation() {
    let mut rng = rng_from_seed(10);
    for _ in 0..10 {
        let (input, output) = get_multiply_problem(&mut rng);
        let mut a: u32 = 0;
        let mut b: u32 = 0;
        for j in 0..16 {
            a |= (input.get(j) as u32) << j;
            b |= (input.get(16 + j) as u32) << j;
        }
        assert_eq!(word_at(&output, 0), a.wrapping_mul(b));
    }
}

#[test]
fn drawn_sha_problems_have_the_catalog_sizes() {
    let mut rng = rng_from_seed(11);
    let (input, output) = get_sha256_problem(&mut rng);
    assert_eq!(input.len(), 768);
    assert_eq!(output.len(), 256);
}

#[test]
fn unknown_challenge_ids_are_rejected() {
    let mut rng = rng_from_seed(1);
    let commands = vec![Command::Inv];
    for id in [4u8, 5, 6, 7, 9, 10, 255] {
        assert_eq!(
            evaluate_solution(id, &commands, &mut rng),
            Err(ChallengeError::InvalidChallenge)
        );
    }
    assert_eq!(ChallengeError::InvalidChallenge.message(), "no such challenge exists");
}
