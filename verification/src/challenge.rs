use vstd::prelude::*;

use vstd::arithmetic::div_mod::lemma_mod_breakdown;
use vstd::arithmetic::div_mod::lemma_small_mod;
use vstd::arithmetic::power2::lemma_pow2_pos;
use vstd::arithmetic::power2::lemma_pow2_unfold;
use vstd::arithmetic::power2::lemma2_to64;
use vstd::arithmetic::power2::pow2;
use vstd::bits::lemma_u32_low_bits_mask_is_mod;
use vstd::bits::lemma_u32_shr_is_div;
use vstd::bits::lemma_low_bits_mask_values;

use rand::rngs::StdRng;

use crate::bits::BitMem;
use crate::bits::bit_seq;
use crate::cpu::Command;
use crate::cpu::Cpu;
use crate::cpu::MachineState;
use crate::cpu::run_from;
use crate::cpu::spec_forward;

verus! {

/// The number of randomized trials one grading run makes.
pub const NUM_TRIALS: u8 = 100;

/// The bit capacity of the engine memory that grading allocates. It holds
/// the largest catalog problem (1024 bits) with working space to spare; a
/// program that moves past it faults, and the faulting trial's remaining
/// steps are inert no-ops (the engine freezes at the faulting step), so
/// such a trial is graded on the memory it reached.
pub const GRADE_MEM_BITS: usize = 65536;

/// The grading fault: the challenge id names nothing in the catalog.
#[derive(Debug, Copy, Clone, PartialEq, Eq, Structural)]
pub enum ChallengeError {
    InvalidChallenge,
}

impl ChallengeError {
    /// The fixed text that describes the fault.
    pub fn message(&self) -> (r: &'static str)
        ensures
            r@ == "no such challenge exists"@,
    {
        "no such challenge exists"
    }
}

#[verifier::external_type_specification]
#[verifier::external_body]
pub struct ExStdRng(StdRng);

/// Relies on rand's `SeedableRng::seed_from_u64` for `StdRng`: a generator
/// built from the seed alone. Nothing is assumed of the values it yields.
#[verifier::external_body]
pub fn rng_from_seed(seed: u64) -> (r: StdRng) {
    rand::SeedableRng::seed_from_u64(seed)
}

/// Relies on rand's `Rng::gen` for `bool`. Nothing is assumed of the value.
#[verifier::external_body]
fn rng_bool(rng: &mut StdRng) -> (r: bool) {
    rand::Rng::gen::<bool>(rng)
}

/// Relies on rand's `Rng::gen` for `u8`. Nothing is assumed of the value.
#[verifier::external_body]
fn rng_u8(rng: &mut StdRng) -> (r: u8) {
    rand::Rng::gen::<u8>(rng)
}

/// Relies on rand's `Rng::gen` for `u16`. Nothing is assumed of the value.
#[verifier::external_body]
fn rng_u16(rng: &mut StdRng) -> (r: u16) {
    rand::Rng::gen::<u16>(rng)
}

/// Relies on rand's `Rng::gen` for `u32`. Nothing is assumed of the value.
#[verifier::external_body]
fn rng_u32(rng: &mut StdRng) -> (r: u32) {
    rand::Rng::gen::<u32>(rng)
}

/// What one SHA-256 compression round returns: the eight state words after
/// compressing the 64-byte block into the eight given state words. The
/// value is a function of the arguments alone; it is named here, not
/// written out.
pub uninterp spec fn sha256_compress(state: Seq<u32>, block: Seq<u8>) -> Seq<u32>;

/// Relies on sha2's `compress256`: one SHA-256 compression round of
/// `block` into `state`, whose result depends on the arguments alone.
#[verifier::external_body]
fn sha_compress(state: &Vec<u32>, block: &Vec<u8>) -> (r: Vec<u32>)
    requires
        state@.len() == 8,
        block@.len() == 64,
    ensures
        r@ == sha256_compress(state@, block@),
        r@.len() == 8,
{
    let mut st = [0u32; 8];
    st.copy_from_slice(state.as_slice());
    let arr = sha2::digest::generic_array::GenericArray::clone_from_slice(block.as_slice());
    sha2::compress256(&mut st, &[arr]);
    st.to_vec()
}

/// Bit `i` of a 32-bit word, 0 being the least significant.
pub open spec fn u32_bit(x: u32, i: int) -> bool {
    i >= 0 && (x as nat / pow2(i as nat)) % 2 == 1
}

/// Bit `i` of a byte, 0 being the least significant.
pub open spec fn u8_bit(x: u8, i: int) -> bool {
    u32_bit(x as u32, i)
}

/// The low `w` bits of a 32-bit word, least significant first.
pub open spec fn u32_le_bits(x: u32, w: int) -> Seq<bool> {
    Seq::new(w as nat, |i: int| u32_bit(x, i))
}

/// The number that a bit pattern denotes, read little-endian.
pub open spec fn le_val(s: Seq<bool>) -> nat
    decreases s.len(),
{
    if s.len() == 0 {
        0
    } else {
        (if s[0] {
            1nat
        } else {
            0nat
        }) + 2 * le_val(s.drop_first())
    }
}

/// Extracts bit `i` of `x`.
pub fn get_bit32(x: u32, i: u32) -> (r: bool)
    requires
        i < 32,
    ensures
        r == u32_bit(x, i as int),
{
    proof {
        lemma_u32_shr_is_div(x, i);
        lemma_u32_low_bits_mask_is_mod(x >> i, 1);
        lemma_low_bits_mask_values();
        lemma_pow2_pos(1);
        assert(pow2(1) == 2) by {
            lemma2_to64();
        }
    }
    (x >> i) & 1 == 1
}

/// Appending one bit at the high end adds its weight.
pub proof fn lemma_le_val_push(s: Seq<bool>, b: bool)
    ensures
        le_val(s.push(b)) == le_val(s) + (if b {
            pow2(s.len())
        } else {
            0nat
        }),
    decreases s.len(),
{
    if s.len() == 0 {
        assert(s.push(b)[0] == b);
        assert(s.push(b).drop_first() =~= Seq::<bool>::empty());
        assert(le_val(s.push(b)) == (if b {
            1nat
        } else {
            0nat
        }) + 2 * le_val(Seq::<bool>::empty()));
        assert(pow2(0) == 1) by {
            lemma2_to64();
        }
    } else {
        assert(s.push(b)[0] == s[0]);
        assert(s.push(b).drop_first() =~= s.drop_first().push(b));
        lemma_le_val_push(s.drop_first(), b);
        lemma_pow2_unfold(s.len());
        assert(le_val(s.push(b)) == (if s[0] {
            1nat
        } else {
            0nat
        }) + 2 * le_val(s.drop_first().push(b)));
    }
}

/// The little-endian encoding is faithful: the low `w` bits of `x` denote
/// `x mod 2^w`.
pub proof fn lemma_le_val_of_bits(x: u32, w: nat)
    requires
        w <= 32,
    ensures
        le_val(u32_le_bits(x, w as int)) == x as nat % pow2(w),
    decreases w,
{
    if w == 0 {
        assert(u32_le_bits(x, 0) =~= Seq::<bool>::empty());
        assert(le_val(u32_le_bits(x, 0)) == 0);
        assert(pow2(0) == 1) by {
            lemma2_to64();
        }
        assert(x as nat % 1 == 0);
    } else {
        let v = (w - 1) as nat;
        lemma_le_val_of_bits(x, v);
        assert(u32_le_bits(x, w as int) =~= u32_le_bits(x, v as int).push(u32_bit(x, v as int)));
        lemma_le_val_push(u32_le_bits(x, v as int), u32_bit(x, v as int));
        lemma_pow2_pos(v);
        lemma_mod_breakdown(x as int, pow2(v) as int, 2);
        lemma_pow2_unfold(w);
        let q = (x as nat / pow2(v)) % 2;
        assert(q == 0 || q == 1);
        assert(x as nat % (pow2(v) * 2) == pow2(v) * q + x as nat % pow2(v));
        assert(pow2(w) == pow2(v) * 2);
        assert(le_val(u32_le_bits(x, w as int)) == x as nat % pow2(v) + (if u32_bit(x, v as int) {
            pow2(v)
        } else {
            0nat
        }));
    }
}

/// The challenge ids of the catalog.
pub open spec fn challenge_known(c: u8) -> bool {
    c == 0 || c == 1 || c == 2 || c == 3 || c == 8
}

pub open spec fn bool_val(b: bool) -> nat {
    if b {
        1nat
    } else {
        0nat
    }
}

/// The bits that the input region of a catalog problem spells for a message
/// block and a state: the 64 block bytes in reversed order, each least
/// significant bit first, then the 8 state words in reversed order, each
/// least significant bit first.
pub open spec fn sha_input_bits(msg: Seq<u8>, st: Seq<u32>) -> Seq<bool> {
    Seq::new(768, |i: int| if i < 512 {
        u8_bit(msg[63 - i / 8], i % 8)
    } else {
        u32_bit(st[7 - (i - 512) / 32], (i - 512) % 32)
    })
}

/// The bits that the expected output region spells for eight state words:
/// the words in reversed order, each least significant bit first.
pub open spec fn sha_output_bits(words: Seq<u32>) -> Seq<bool> {
    Seq::new(256, |i: int| u32_bit(words[7 - i / 32], i % 32))
}

/// The catalog: what the expected output of challenge `challenge` says
/// about its input, both read as little-endian bit patterns.
/// - 0: 2 input bits, 1 output bit, their exclusive or;
/// - 1: 2 input bits, 2 output bits encoding their sum;
/// - 2: two 16-bit numbers, their 17-bit sum;
/// - 3: two 16-bit numbers, their 32-bit product;
/// - 8: a 64-byte block and 8 state words, the state after one SHA-256
///   compression round, in reversed word order.
pub open spec fn problem_spec(challenge: u8, input: Seq<bool>, output: Seq<bool>) -> bool {
    if challenge == 0 {
        input.len() == 2 && output.len() == 1 && output[0] == (input[0] != input[1])
    } else if challenge == 1 {
        input.len() == 2 && output.len() == 2 && le_val(output) == bool_val(input[0]) + bool_val(
            input[1],
        )
    } else if challenge == 2 {
        input.len() == 32 && output.len() == 17 && le_val(output) == le_val(input.take(16))
            + le_val(input.skip(16))
    } else if challenge == 3 {
        input.len() == 32 && output.len() == 32 && le_val(output) == le_val(input.take(16))
            * le_val(input.skip(16))
    } else if challenge == 8 {
        &&& input.len() == 768
        &&& output.len() == 256
        &&& exists|msg: Seq<u8>, st: Seq<u32>|
            msg.len() == 64 && st.len() == 8 && input == sha_input_bits(msg, st) && output
                == sha_output_bits(sha256_compress(st, msg))
    } else {
        false
    }
}

/// Writes the low `w` bits of `x`, least significant first, at offset
/// `off`.
fn store_le_bits(mem: &mut BitMem, off: usize, x: u32, w: usize)
    requires
        w <= 32,
        off + w <= bit_seq(*old(mem)).len(),
    ensures
        bit_seq(*final(mem)).len() == bit_seq(*old(mem)).len(),
        forall|i: int| 0 <= i < w ==> bit_seq(*final(mem))[off + i] == u32_bit(x, i),
        forall|i: int|
            0 <= i < bit_seq(*old(mem)).len() && !(off <= i < off + w) ==> bit_seq(
                *final(mem),
            )[i] == bit_seq(*old(mem))[i],
{
    let total = mem.len();
    let mut j: usize = 0;
    while j < w
        invariant
            j <= w,
            w <= 32,
            off + w <= total,
            total == bit_seq(*old(mem)).len(),
            bit_seq(*mem).len() == bit_seq(*old(mem)).len(),
            forall|i: int| 0 <= i < j ==> bit_seq(*mem)[off + i] == u32_bit(x, i),
            forall|i: int|
                0 <= i < bit_seq(*old(mem)).len() && !(off <= i < off + j) ==> bit_seq(*mem)[i]
                    == bit_seq(*old(mem))[i],
        decreases w - j,
    {
        let b = get_bit32(x, j as u32);
        mem.set(off + j, b);
        j = j + 1;
    }
}

/// The bits of a `BitMem`, one by one, as a vector of booleans.
pub fn bitmem_to_vec(m: &BitMem) -> (r: Vec<bool>)
    ensures
        r@ == bit_seq(*m),
{
    let n = m.len();
    let mut out: Vec<bool> = Vec::new();
    let mut i: usize = 0;
    while i < n
        invariant
            i <= n,
            n == bit_seq(*m).len(),
            out@ == bit_seq(*m).take(i as int),
        decreases n - i,
    {
        out.push(m.get(i));
        proof {
            assert(bit_seq(*m).take(i + 1 as int) =~= bit_seq(*m).take(i as int).push(
                bit_seq(*m)[i as int],
            ));
        }
        i = i + 1;
    }
    proof {
        assert(bit_seq(*m).take(n as int) =~= bit_seq(*m));
    }
    out
}

/// The exclusive-or problem for the two given input bits.
pub fn xor_problem_bits(a: bool, b: bool) -> (r: (BitMem, BitMem))
    ensures
        bit_seq(r.0) == seq![a, b],
        bit_seq(r.1) == seq![a != b],
        problem_spec(0, bit_seq(r.0), bit_seq(r.1)),
{
    let mut input = BitMem::zeros(2);
    input.set(0, a);
    input.set(1, b);
    let mut output = BitMem::zeros(1);
    output.set(0, a != b);
    proof {
        assert(bit_seq(input) =~= seq![a, b]);
        assert(bit_seq(output) =~= seq![a != b]);
    }
    (input, output)
}

/// The one-bit addition problem for the two given input bits: the output's
/// two bits encode their sum, little-endian.
pub fn one_bit_add_problem_bits(a: bool, b: bool) -> (r: (BitMem, BitMem))
    ensures
        bit_seq(r.0) == seq![a, b],
        bit_seq(r.1) == u32_le_bits((bool_val(a) + bool_val(b)) as u32, 2),
        problem_spec(1, bit_seq(r.0), bit_seq(r.1)),
{
    let mut input = BitMem::zeros(2);
    input.set(0, a);
    input.set(1, b);
    let sum: u32 = (if a {
        1
    } else {
        0
    }) + (if b {
        1
    } else {
        0
    });
    let mut output = BitMem::zeros(2);
    store_le_bits(&mut output, 0, sum, 2);
    proof {
        assert(bit_seq(input) =~= seq![a, b]);
        assert(bit_seq(output) =~= u32_le_bits(sum, 2));
        lemma_le_val_of_bits(sum, 2);
        assert(pow2(2) == 4) by {
            lemma2_to64();
        }
        lemma_small_mod(sum as nat, pow2(2));
    }
    (input, output)
}

/// The 16-bit addition problem for the two given numbers: the input spells
/// `a` then `b`, the output their 17-bit sum, all little-endian.
pub fn full_add_problem_bits(a: u16, b: u16) -> (r: (BitMem, BitMem))
    ensures
        bit_seq(r.0) == u32_le_bits(a as u32, 16) + u32_le_bits(b as u32, 16),
        bit_seq(r.1) == u32_le_bits((a + b) as u32, 17),
        problem_spec(2, bit_seq(r.0), bit_seq(r.1)),
{
    let mut input = BitMem::zeros(32);
    store_le_bits(&mut input, 0, a as u32, 16);
    store_le_bits(&mut input, 16, b as u32, 16);
    let sum: u32 = a as u32 + b as u32;
    let mut output = BitMem::zeros(17);
    store_le_bits(&mut output, 0, sum, 17);
    proof {
        assert(bit_seq(input) =~= u32_le_bits(a as u32, 16) + u32_le_bits(b as u32, 16));
        assert(bit_seq(output) =~= u32_le_bits(sum, 17));
        assert(bit_seq(input).take(16) =~= u32_le_bits(a as u32, 16));
        assert(bit_seq(input).skip(16) =~= u32_le_bits(b as u32, 16));
        lemma_le_val_of_bits(a as u32, 16);
        lemma_le_val_of_bits(b as u32, 16);
        lemma_le_val_of_bits(sum, 17);
        assert(pow2(16) == 0x10000 && pow2(17) == 0x20000) by {
            lemma2_to64();
        }
        lemma_small_mod(a as nat, pow2(16));
        lemma_small_mod(b as nat, pow2(16));
        lemma_small_mod(sum as nat, pow2(17));
    }
    (input, output)
}

/// The product of two 16-bit numbers fits in 32 bits.
proof fn lemma_u16_product_fits(a: u16, b: u16) by (nonlinear_arith)
    ensures
        (a as int) * (b as int) < 0x100000000,
{
}

/// The 16-bit multiplication problem for the two given numbers: the input
/// spells `a` then `b`, the output their 32-bit product, all little-endian.
pub fn multiply_problem_bits(a: u16, b: u16) -> (r: (BitMem, BitMem))
    ensures
        bit_seq(r.0) == u32_le_bits(a as u32, 16) + u32_le_bits(b as u32, 16),
        bit_seq(r.1) == u32_le_bits((a * b) as u32, 32),
        problem_spec(3, bit_seq(r.0), bit_seq(r.1)),
{
    let mut input = BitMem::zeros(32);
    store_le_bits(&mut input, 0, a as u32, 16);
    store_le_bits(&mut input, 16, b as u32, 16);
    proof {
        lemma_u16_product_fits(a, b);
    }
    let product: u32 = a as u32 * b as u32;
    let mut output = BitMem::zeros(32);
    store_le_bits(&mut output, 0, product, 32);
    proof {
        assert(bit_seq(input) =~= u32_le_bits(a as u32, 16) + u32_le_bits(b as u32, 16));
        assert(bit_seq(output) =~= u32_le_bits(product, 32));
        assert(bit_seq(input).take(16) =~= u32_le_bits(a as u32, 16));
        assert(bit_seq(input).skip(16) =~= u32_le_bits(b as u32, 16));
        lemma_le_val_of_bits(a as u32, 16);
        lemma_le_val_of_bits(b as u32, 16);
        lemma_le_val_of_bits(product, 32);
        assert(pow2(16) == 0x10000 && pow2(32) == 0x100000000) by {
            lemma2_to64();
        }
        lemma_small_mod(a as nat, pow2(16));
        lemma_small_mod(b as nat, pow2(16));
        lemma_small_mod(product as nat, pow2(32));
    }
    (input, output)
}

/// A fresh exclusive-or problem over two drawn bits.
pub fn get_xor_problem(rng: &mut StdRng) -> (r: (BitMem, BitMem))
    ensures
        problem_spec(0, bit_seq(r.0), bit_seq(r.1)),
{
    let a = rng_bool(rng);
    let b = rng_bool(rng);
    xor_problem_bits(a, b)
}

/// A fresh one-bit addition problem over two drawn bits.
pub fn get_one_bit_add_problem(rng: &mut StdRng) -> (r: (BitMem, BitMem))
    ensures
        problem_spec(1, bit_seq(r.0), bit_seq(r.1)),
{
    let a = rng_bool(rng);
    let b = rng_bool(rng);
    one_bit_add_problem_bits(a, b)
}

/// A fresh 16-bit addition problem over two drawn numbers.
pub fn get_full_add_problem(rng: &mut StdRng) -> (r: (BitMem, BitMem))
    ensures
        problem_spec(2, bit_seq(r.0), bit_seq(r.1)),
{
    let a = rng_u16(rng);
    let b = rng_u16(rng);
    full_add_problem_bits(a, b)
}

/// A fresh 16-bit multiplication problem over two drawn numbers.
pub fn get_multiply_problem(rng: &mut StdRng) -> (r: (BitMem, BitMem))
    ensures
        problem_spec(3, bit_seq(r.0), bit_seq(r.1)),
{
    let a = rng_u16(rng);
    let b = rng_u16(rng);
    multiply_problem_bits(a, b)
}

/// The SHA-256 compression problem for the given 64-byte block and eight
/// state words: the input region spells the block and the state, the
/// expected output the compressed state, all in the catalog's reversed
/// order.
pub fn sha256_problem_bits(msg: &Vec<u8>, state: &Vec<u32>) -> (r: (BitMem, BitMem))
    requires
        msg@.len() == 64,
        state@.len() == 8,
    ensures
        bit_seq(r.0) == sha_input_bits(msg@, state@),
        bit_seq(r.1) == sha_output_bits(sha256_compress(state@, msg@)),
        problem_spec(8, bit_seq(r.0), bit_seq(r.1)),
{
    let mut input = BitMem::zeros(768);
    let mut i: usize = 0;
    while i < 64
        invariant
            i <= 64,
            msg@.len() == 64,
            bit_seq(input).len() == 768,
            forall|k: int| 0 <= k < 8 * i ==> bit_seq(input)[k] == u8_bit(msg@[63 - k / 8], k % 8),
            forall|k: int| 8 * i <= k < 768 ==> bit_seq(input)[k] == false,
        decreases 64 - i,
    {
        let byte = msg[63 - i];
        store_le_bits(&mut input, 8 * i, byte as u32, 8);
        i = i + 1;
    }
    let mut w: usize = 0;
    while w < 8
        invariant
            w <= 8,
            msg@.len() == 64,
            state@.len() == 8,
            bit_seq(input).len() == 768,
            forall|k: int| 0 <= k < 512 ==> bit_seq(input)[k] == u8_bit(msg@[63 - k / 8], k % 8),
            forall|k: int|
                512 <= k < 512 + 32 * w ==> bit_seq(input)[k] == u32_bit(
                    state@[7 - (k - 512) / 32],
                    (k - 512) % 32,
                ),
        decreases 8 - w,
    {
        let word = state[7 - w];
        store_le_bits(&mut input, 512 + 32 * w, word, 32);
        w = w + 1;
    }
    proof {
        assert(bit_seq(input) =~= sha_input_bits(msg@, state@));
    }
    let compressed = sha_compress(state, msg);
    let mut output = BitMem::zeros(256);
    let mut v: usize = 0;
    while v < 8
        invariant
            v <= 8,
            compressed@.len() == 8,
            compressed@ == sha256_compress(state@, msg@),
            bit_seq(output).len() == 256,
            forall|k: int|
                0 <= k < 32 * v ==> bit_seq(output)[k] == u32_bit(
                    compressed@[7 - k / 32],
                    k % 32,
                ),
        decreases 8 - v,
    {
        let word = compressed[7 - v];
        store_le_bits(&mut output, 32 * v, word, 32);
        v = v + 1;
    }
    proof {
        assert(bit_seq(output) =~= sha_output_bits(sha256_compress(state@, msg@)));
    }
    (input, output)
}

/// A fresh SHA-256 compression problem over a drawn block and state.
pub fn get_sha256_problem(rng: &mut StdRng) -> (r: (BitMem, BitMem))
    ensures
        problem_spec(8, bit_seq(r.0), bit_seq(r.1)),
{
    let mut msg: Vec<u8> = Vec::new();
    let mut i: usize = 0;
    while i < 64
        invariant
            msg@.len() == i,
            i <= 64,
        decreases 64 - i,
    {
        msg.push(rng_u8(rng));
        i = i + 1;
    }
    let mut state: Vec<u32> = Vec::new();
    let mut j: usize = 0;
    while j < 8
        invariant
            state@.len() == j,
            j <= 8,
        decreases 8 - j,
    {
        state.push(rng_u32(rng));
        j = j + 1;
    }
    sha256_problem_bits(&msg, &state)
}

/// The engine's data registers when a trial begins: the input pattern at
/// address 0 of a zeroed memory of `size` bits, the registers cleared.
pub open spec fn initial_mstate(size: nat, input: Seq<bool>) -> MachineState {
    MachineState {
        mem: Seq::new(size, |i: int| 0 <= i < input.len() && input[i]),
        addr: 0,
        store: false,
    }
}

/// The memory after one trial: the program run from the initial state
/// until its end or its first fault (a faulted trial keeps the memory it
/// reached).
pub open spec fn trial_mem(size: nat, prog: Seq<Command>, input: Seq<bool>) -> Seq<bool> {
    run_from(initial_mstate(size, input), prog, 0).state.mem
}

/// The graded window of one trial: the `out_len` bits just after the input
/// region.
pub open spec fn trial_window(size: nat, prog: Seq<Command>, input: Seq<bool>, out_len: nat) -> Seq<
    bool,
> {
    trial_mem(size, prog, input).subrange(
        input.len() as int,
        input.len() as int + out_len as int,
    )
}

/// Whether one trial passes: the graded window equals the expected output,
/// bit for bit.
pub open spec fn trial_passes(
    size: nat,
    prog: Seq<Command>,
    input: Seq<bool>,
    expected: Seq<bool>,
) -> bool {
    trial_window(size, prog, input, expected.len()) == expected
}

/// A run keeps the state well formed and never changes the memory's
/// capacity.
pub proof fn lemma_run_from_len(s: MachineState, prog: Seq<Command>, i: int)
    requires
        s.wf(),
    ensures
        run_from(s, prog, i).state.mem.len() == s.mem.len(),
        run_from(s, prog, i).state.wf(),
    decreases prog.len() - i,
{
    if 0 <= i < prog.len() {
        match spec_forward(s, prog[i]) {
            Ok(s2) => {
                crate::cpu::lemma_forward_wf(s, prog[i]);
                lemma_run_from_len(s2, prog, i + 1);
                assert(run_from(s, prog, i) == run_from(s2, prog, i + 1));
            },
            Err(_) => {},
        }
    }
}

fn write_input(cpu: &mut Cpu, input: &BitMem)
    requires
        old(cpu).wf(),
        bit_seq(*input).len() <= bit_seq(old(cpu).memory).len(),
    ensures
        final(cpu).wf(),
        final(cpu).addr == old(cpu).addr,
        final(cpu).store == old(cpu).store,
        final(cpu).step == old(cpu).step,
        final(cpu).done == old(cpu).done,
        final(cpu).commands@ == old(cpu).commands@,
        bit_seq(final(cpu).memory).len() == bit_seq(old(cpu).memory).len(),
        forall|i: int|
            0 <= i < bit_seq(*input).len() ==> bit_seq(final(cpu).memory)[i] == bit_seq(*input)[i],
        forall|i: int|
            bit_seq(*input).len() <= i < bit_seq(old(cpu).memory).len() ==> bit_seq(
                final(cpu).memory,
            )[i] == bit_seq(old(cpu).memory)[i],
{
    let n = input.len();
    let mut i: usize = 0;
    while i < n
        invariant
            i <= n,
            n == bit_seq(*input).len(),
            n <= bit_seq(cpu.memory).len(),
            cpu.addr == old(cpu).addr,
            cpu.store == old(cpu).store,
            cpu.step == old(cpu).step,
            cpu.done == old(cpu).done,
            cpu.commands@ == old(cpu).commands@,
            cpu.wf(),
            bit_seq(cpu.memory).len() == bit_seq(old(cpu).memory).len(),
            forall|k: int| 0 <= k < i ==> bit_seq(cpu.memory)[k] == bit_seq(*input)[k],
            forall|k: int|
                i <= k < bit_seq(old(cpu).memory).len() ==> bit_seq(cpu.memory)[k] == bit_seq(
                    old(cpu).memory,
                )[k],
        decreases n - i,
    {
        let b = input.get(i);
        cpu.memory.set(i, b);
        i = i + 1;
    }
}

/// Runs one trial on the engine: resets it, writes the input pattern at
/// address 0, steps the program exactly its length in steps (a faulted
/// step freezes the engine, so the remaining steps are inert), and returns
/// the graded window of `out_len` bits just after the input region.
pub fn run_trial(cpu: &mut Cpu, input: &BitMem, out_len: usize) -> (r: Vec<bool>)
    requires
        old(cpu).wf(),
        bit_seq(*input).len() + out_len <= bit_seq(old(cpu).memory).len(),
    ensures
        final(cpu).wf(),
        final(cpu).commands@ == old(cpu).commands@,
        bit_seq(final(cpu).memory).len() == bit_seq(old(cpu).memory).len(),
        r@ == trial_window(
            bit_seq(old(cpu).memory).len(),
            old(cpu).commands@,
            bit_seq(*input),
            out_len as nat,
        ),
{
    cpu.reset();
    write_input(cpu, input);
    let ghost size = bit_seq(old(cpu).memory).len();
    let ghost s0 = cpu.mstate();
    let ghost prog = cpu.commands@;
    proof {
        assert(s0 =~= initial_mstate(size, bit_seq(*input)));
    }
    let n = cpu.commands.len();
    let mut t: usize = 0;
    while t < n
        invariant
            cpu.wf(),
            cpu.commands@ == prog,
            n == prog.len(),
            t <= n,
            bit_seq(cpu.memory).len() == s0.mem.len(),
            run_from(s0, prog, 0) == run_from(cpu.mstate(), prog, cpu.step as int),
            cpu.step == t || (cpu.step < n && spec_forward(cpu.mstate(), prog[cpu.step as int])
                is Err),
        decreases n - t,
    {
        let _ = cpu.step();
        t = t + 1;
    }
    proof {
        assert(cpu.mstate() == run_from(s0, prog, 0).state);
        lemma_run_from_len(s0, prog, 0);
    }
    let start = input.len();
    let mut out: Vec<bool> = Vec::new();
    let mut i: usize = 0;
    while i < out_len
        invariant
            i <= out_len,
            start == bit_seq(*input).len(),
            start + out_len <= bit_seq(cpu.memory).len(),
            bit_seq(cpu.memory).len() <= u32::MAX,
            out@ == bit_seq(cpu.memory).subrange(start as int, start as int + i),
        decreases out_len - i,
    {
        out.push(cpu.memory.get(start + i));
        proof {
            assert(bit_seq(cpu.memory).subrange(start as int, start as int + i + 1)
                =~= bit_seq(cpu.memory).subrange(start as int, start as int + i).push(
                bit_seq(cpu.memory)[start as int + i],
            ));
        }
        i = i + 1;
    }
    out
}

/// What a grading run reports: overall success, or the 0-based index of
/// the first failing trial with that trial's literal input, actual and
/// expected output bits.
#[derive(Debug, Clone, PartialEq, Eq)]
pub enum Outcome {
    Pass,
    Fail { trial: usize, input: Vec<bool>, actual: Vec<bool>, expected: Vec<bool> },
}

/// The views of a list of problems: each input and expected output as a
/// bit sequence.
pub open spec fn problem_views(ps: Seq<(BitMem, BitMem)>) -> Seq<(Seq<bool>, Seq<bool>)> {
    ps.map_values(|p: (BitMem, BitMem)| (bit_seq(p.0), bit_seq(p.1)))
}

/// The first trial at or after `i` that fails, if any.
pub open spec fn first_failure(
    size: nat,
    prog: Seq<Command>,
    pv: Seq<(Seq<bool>, Seq<bool>)>,
    i: int,
) -> Option<int>
    decreases pv.len() - i,
{
    if i < 0 || i >= pv.len() {
        None
    } else if !trial_passes(size, prog, pv[i].0, pv[i].1) {
        Some(i)
    } else {
        first_failure(size, prog, pv, i + 1)
    }
}

fn window_matches(actual: &Vec<bool>, expected: &BitMem) -> (r: bool)
    ensures
        r <==> actual@ == bit_seq(*expected),
{
    let n = expected.len();
    if actual.len() != n {
        return false;
    }
    let mut i: usize = 0;
    while i < n
        invariant
            i <= n,
            n == bit_seq(*expected).len(),
            actual@.len() == n,
            forall|k: int| 0 <= k < i ==> actual@[k] == bit_seq(*expected)[k],
        decreases n - i,
    {
        if actual[i] != expected.get(i) {
            return false;
        }
        i = i + 1;
    }
    proof {
        assert(actual@ =~= bit_seq(*expected));
    }
    true
}

/// Grades the loaded program against the given problems, one trial per
/// problem in order: each trial runs on a freshly reset engine and
/// bit-compares the graded window against the expected output. The first
/// mismatch stops grading and is reported with the trial's literal bits.
pub fn run_trials(cpu: &mut Cpu, problems: &Vec<(BitMem, BitMem)>) -> (r: Outcome)
    requires
        old(cpu).wf(),
        forall|i: int|
            0 <= i < problems@.len() ==> bit_seq(#[trigger] problems@[i].0).len() + bit_seq(
                problems@[i].1,
            ).len() <= bit_seq(old(cpu).memory).len(),
    ensures
        final(cpu).wf(),
        final(cpu).commands@ == old(cpu).commands@,
        bit_seq(final(cpu).memory).len() == bit_seq(old(cpu).memory).len(),
        ({
            let size = bit_seq(old(cpu).memory).len();
            let prog = old(cpu).commands@;
            let pv = problem_views(problems@);
            match first_failure(size, prog, pv, 0) {
                None => r == Outcome::Pass,
                Some(t) => r matches Outcome::Fail { trial, input, actual, expected }
                    && trial == t && input@ == pv[t].0 && expected@ == pv[t].1 && actual@
                    == trial_window(size, prog, pv[t].0, pv[t].1.len()),
            }
        }),
{
    let ghost size = bit_seq(old(cpu).memory).len();
    let ghost prog = old(cpu).commands@;
    let ghost pv = problem_views(problems@);
    let n = problems.len();
    let mut t: usize = 0;
    while t < n
        invariant
            cpu.wf(),
            cpu.commands@ == prog,
            bit_seq(cpu.memory).len() == size,
            prog == old(cpu).commands@,
            size == bit_seq(old(cpu).memory).len(),
            t <= n,
            n == problems@.len(),
            pv == problem_views(problems@),
            forall|i: int|
                0 <= i < problems@.len() ==> bit_seq(#[trigger] problems@[i].0).len() + bit_seq(
                    problems@[i].1,
                ).len() <= size,
            first_failure(size, prog, pv, 0) == first_failure(size, prog, pv, t as int),
        decreases n - t,
    {
        let p = &problems[t];
        let expected_len = p.1.len();
        let actual = run_trial(cpu, &p.0, expected_len);
        if !window_matches(&actual, &p.1) {
            let input_bits = bitmem_to_vec(&p.0);
            let expected_bits = bitmem_to_vec(&p.1);
            return Outcome::Fail {
                trial: t,
                input: input_bits,
                actual,
                expected: expected_bits,
            };
        }
        t = t + 1;
    }
    Outcome::Pass
}

fn copy_commands(v: &Vec<Command>) -> (r: Vec<Command>)
    ensures
        r@ == v@,
{
    let mut out: Vec<Command> = Vec::new();
    let mut i: usize = 0;
    while i < v.len()
        invariant
            i <= v@.len(),
            out@ == v@.take(i as int),
        decreases v@.len() - i,
    {
        out.push(v[i]);
        proof {
            assert(v@.take(i + 1 as int) =~= v@.take(i as int).push(v@[i as int]));
        }
        i = i + 1;
    }
    proof {
        assert(v@.take(v@.len() as int) =~= v@);
    }
    out
}

/// A genuine drawn problem sequence for challenge `c`: one problem per
/// trial of a grading run, each expected output standing in the
/// challenge's relation to its input.
pub open spec fn genuine_problems(c: u8, pv: Seq<(Seq<bool>, Seq<bool>)>) -> bool {
    &&& pv.len() == NUM_TRIALS as nat
    &&& forall|i: int| 0 <= i < pv.len() ==> problem_spec(c, (#[trigger] pv[i]).0, pv[i].1)
}

/// Grades a candidate program against a catalog challenge: an unknown id
/// fails at once; otherwise the engine runs one trial per drawn problem.
/// Whatever the drawn inputs were, the outcome is grounded: a `Pass`
/// certifies that the program passed every trial of a genuine drawn
/// problem sequence, and a reported failure is the first failing trial of
/// one — its expected output stands in the challenge's relation to its
/// input, its actual output is exactly what running the program on that
/// input leaves in the graded window, and the two differ.
pub fn evaluate_solution(challenge: u8, commands: &Vec<Command>, rng: &mut StdRng) -> (r: Result<
    Outcome,
    ChallengeError,
>)
    ensures
        r is Err <==> !challenge_known(challenge),
        r is Err ==> r == Err::<Outcome, ChallengeError>(ChallengeError::InvalidChallenge),
        match r {
            Ok(out) => match out {
                Outcome::Pass => exists|pv: Seq<(Seq<bool>, Seq<bool>)>|
                    #[trigger] genuine_problems(challenge, pv) && first_failure(
                        GRADE_MEM_BITS as nat,
                        commands@,
                        pv,
                        0,
                    ) is None,
                Outcome::Fail { trial, input, actual, expected } => {
                    &&& trial < NUM_TRIALS as usize
                    &&& problem_spec(challenge, input@, expected@)
                    &&& actual@ == trial_window(
                        GRADE_MEM_BITS as nat,
                        commands@,
                        input@,
                        expected@.len(),
                    )
                    &&& actual@ != expected@
                    &&& exists|pv: Seq<(Seq<bool>, Seq<bool>)>|
                        #[trigger] genuine_problems(challenge, pv) && first_failure(
                            GRADE_MEM_BITS as nat,
                            commands@,
                            pv,
                            0,
                        ) == Some(trial as int) && pv[trial as int].0 == input@ && pv[
                            trial as int
                        ].1 == expected@
                },
            },
            Err(_) => true,
        },
{
    if !(challenge == 0 || challenge == 1 || challenge == 2 || challenge == 3 || challenge == 8) {
        return Err(ChallengeError::InvalidChallenge);
    }
    let mut problems: Vec<(BitMem, BitMem)> = Vec::new();
    let mut k: usize = 0;
    while k < NUM_TRIALS as usize
        invariant
            challenge_known(challenge),
            problems@.len() == k,
            k <= NUM_TRIALS as usize,
            forall|i: int|
                0 <= i < k ==> problem_spec(
                    challenge,
                    bit_seq(#[trigger] problems@[i].0),
                    bit_seq(problems@[i].1),
                ),
        decreases NUM_TRIALS as usize - k,
    {
        let p = if challenge == 0 {
            get_xor_problem(rng)
        } else if challenge == 1 {
            get_one_bit_add_problem(rng)
        } else if challenge == 2 {
            get_full_add_problem(rng)
        } else if challenge == 3 {
            get_multiply_problem(rng)
        } else {
            get_sha256_problem(rng)
        };
        problems.push(p);
        k = k + 1;
    }
    let mut cpu = Cpu::new(GRADE_MEM_BITS, copy_commands(commands));
    let out = run_trials(&mut cpu, &problems);
    proof {
        let pv = problem_views(problems@);
        assert(forall|i: int|
            0 <= i < pv.len() ==> #[trigger] pv[i] == (
                bit_seq(problems@[i].0),
                bit_seq(problems@[i].1),
            ));
        assert(genuine_problems(challenge, pv));
        lemma_first_failure_located(GRADE_MEM_BITS as nat, commands@, pv, 0);
    }
    Ok(out)
}

/// Where `first_failure` points: at a failing trial in range, with every
/// trial before it passing; and nowhere only when every trial passes.
pub proof fn lemma_first_failure_located(
    size: nat,
    prog: Seq<Command>,
    pv: Seq<(Seq<bool>, Seq<bool>)>,
    i: int,
)
    requires
        0 <= i,
    ensures
        match first_failure(size, prog, pv, i) {
            Some(t) => i <= t < pv.len() && !trial_passes(size, prog, pv[t].0, pv[t].1)
                && forall|j: int|
                i <= j < t ==> trial_passes(size, prog, #[trigger] pv[j].0, pv[j].1),
            None => forall|j: int|
                i <= j < pv.len() ==> trial_passes(size, prog, #[trigger] pv[j].0, pv[j].1),
        },
    decreases pv.len() - i,
{
    if i < pv.len() {
        if trial_passes(size, prog, pv[i].0, pv[i].1) {
            lemma_first_failure_located(size, prog, pv, i + 1);
        }
    }
}

/// Whether every bit of `s` is clear.
pub open spec fn all_false(s: Seq<bool>) -> bool {
    forall|i: int| 0 <= i < s.len() ==> !s[i]
}

/// The first trial at or after `i` whose expected output has a set bit, if
/// any.
pub open spec fn first_nonzero_expected(pv: Seq<(Seq<bool>, Seq<bool>)>, i: int) -> Option<int>
    decreases pv.len() - i,
{
    if i < 0 || i >= pv.len() {
        None
    } else if !all_false(pv[i].1) {
        Some(i)
    } else {
        first_nonzero_expected(pv, i + 1)
    }
}

/// Law: a program whose runs leave the graded window all zero fails
/// grading exactly on the first trial whose expected output has a set bit,
/// and passes every trial before it (and the whole run, where no expected
/// output has one).
pub proof fn lemma_all_zero_output(
    size: nat,
    prog: Seq<Command>,
    pv: Seq<(Seq<bool>, Seq<bool>)>,
    i: int,
)
    requires
        forall|j: int|
            0 <= j < pv.len() ==> all_false(
                trial_window(size, prog, #[trigger] pv[j].0, pv[j].1.len()),
            ),
        forall|j: int|
            0 <= j < pv.len() ==> (#[trigger] pv[j].0).len() + pv[j].1.len() <= size,
        1 <= size,
    ensures
        first_failure(size, prog, pv, i) == first_nonzero_expected(pv, i),
    decreases pv.len() - i,
{
    if 0 <= i < pv.len() {
        let win = trial_window(size, prog, pv[i].0, pv[i].1.len());
        let exp = pv[i].1;
        assert(initial_mstate(size, pv[i].0).wf());
        lemma_run_from_len(initial_mstate(size, pv[i].0), prog, 0);
        assert(win.len() == exp.len());
        if all_false(exp) {
            assert(win =~= exp);
        } else {
            let k = choose|k: int| 0 <= k < exp.len() && exp[k];
            assert(win[k] != exp[k]);
        }
        lemma_all_zero_output(size, prog, pv, i + 1);
    }
}

} // verus!
