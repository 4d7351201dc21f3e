//! The kernel's ChaCha20 generator behind getrandom(2): seeding from a
//! 64-bit seed through SplitMix64, stirring in fresh timing samples before
//! each request, the keystream, and the forward-security rekey after it.
//!
//! The timing samples (TSC, PIT counter, clocks) are read by the caller and
//! passed in; every result here is a function of them.
use vstd::prelude::*;
use crate::ext2::le32_bytes;

verus! {

pub open spec fn rotl32(x: u32, k: u32) -> u32 {
    ((x << k) | (x >> ((32 - k) as u32))) as u32
}

fn rotate32(x: u32, k: u32) -> (r: u32)
    requires
        1 <= k < 32,
    ensures
        r == rotl32(x, k),
{
    (x << k) | (x >> (32 - k))
}

pub open spec fn rotl64(x: u64, k: u64) -> u64 {
    if k == 0 {
        x
    } else {
        ((x << k) | (x >> ((64 - k) as u64))) as u64
    }
}

fn rotate64(x: u64, k: u64) -> (r: u64)
    requires
        k < 64,
    ensures
        r == rotl64(x, k),
{
    if k == 0 {
        x
    } else {
        (x << k) | (x >> (64 - k))
    }
}

/// The ChaCha quarter round on words `a, b, c, d` of the state.
pub open spec fn spec_quarter_round(x: Seq<u32>, a: int, b: int, c: int, d: int) -> Seq<u32> {
    let a0 = x[a].wrapping_add(x[b]);
    let d0 = rotl32(x[d] ^ a0, 16);
    let c0 = x[c].wrapping_add(d0);
    let b0 = rotl32(x[b] ^ c0, 12);
    let a1 = a0.wrapping_add(b0);
    let d1 = rotl32(d0 ^ a1, 8);
    let c1 = c0.wrapping_add(d1);
    let b1 = rotl32(b0 ^ c1, 7);
    x.update(a, a1).update(b, b1).update(c, c1).update(d, d1)
}

pub fn quarter_round(x: &mut [u32; 16], a: usize, b: usize, c: usize, d: usize)
    requires
        a < 16 && b < 16 && c < 16 && d < 16,
    ensures
        final(x)@ == spec_quarter_round(old(x)@, a as int, b as int, c as int, d as int),
{
    let mut a0 = x[a];
    let mut b0 = x[b];
    let mut c0 = x[c];
    let mut d0 = x[d];
    a0 = a0.wrapping_add(b0);
    d0 = rotate32(d0 ^ a0, 16);
    c0 = c0.wrapping_add(d0);
    b0 = rotate32(b0 ^ c0, 12);
    a0 = a0.wrapping_add(b0);
    d0 = rotate32(d0 ^ a0, 8);
    c0 = c0.wrapping_add(d0);
    b0 = rotate32(b0 ^ c0, 7);
    x[a] = a0;
    x[b] = b0;
    x[c] = c0;
    x[d] = d0;
}

/// A column round followed by a diagonal round.
pub open spec fn spec_double_round(x: Seq<u32>) -> Seq<u32> {
    let x = spec_quarter_round(x, 0, 4, 8, 12);
    let x = spec_quarter_round(x, 1, 5, 9, 13);
    let x = spec_quarter_round(x, 2, 6, 10, 14);
    let x = spec_quarter_round(x, 3, 7, 11, 15);
    let x = spec_quarter_round(x, 0, 5, 10, 15);
    let x = spec_quarter_round(x, 1, 6, 11, 12);
    let x = spec_quarter_round(x, 2, 7, 8, 13);
    spec_quarter_round(x, 3, 4, 9, 14)
}

/// `n` double rounds.
pub open spec fn double_rounds(x: Seq<u32>, n: nat) -> Seq<u32>
    decreases n,
{
    if n == 0 {
        x
    } else {
        spec_double_round(double_rounds(x, (n - 1) as nat))
    }
}

/// The ChaCha20 input block: constants, key, 64-bit counter (its high
/// half mixed with the first nonce word) and the other two nonce words.
pub open spec fn chacha_input(key: Seq<u32>, counter: u64, nonce: Seq<u32>) -> Seq<u32> {
    seq![
        0x6170_7865u32,
        0x3320_646e,
        0x7962_2d32,
        0x6b20_6574,
        key[0],
        key[1],
        key[2],
        key[3],
        key[4],
        key[5],
        key[6],
        key[7],
        counter as u32,
        ((counter / 0x1_0000_0000) as u32) ^ nonce[0],
        nonce[1],
        nonce[2],
    ]
}

/// The 64 keystream bytes for one counter value: twenty rounds, the input
/// added back word by word, each word little-endian.
pub open spec fn block_bytes(key: Seq<u32>, counter: u64, nonce: Seq<u32>) -> Seq<u8> {
    let input = chacha_input(key, counter, nonce);
    let x = double_rounds(input, 10);
    Seq::new(64, |j: int| le32_bytes(x[j / 4].wrapping_add(input[j / 4]))[j % 4])
}

/// `n` consecutive blocks from `counter` on (the counter wraps).
pub open spec fn keystream(key: Seq<u32>, counter: u64, nonce: Seq<u32>, n: nat) -> Seq<u8>
    decreases n,
{
    if n == 0 {
        Seq::empty()
    } else {
        keystream(key, counter, nonce, (n - 1) as nat) + block_bytes(key, counter.wrapping_add((n - 1) as u64), nonce)
    }
}

/// SplitMix64: the next state and the output drawn from it.
pub open spec fn splitmix_state(state: u64) -> u64 {
    state.wrapping_add(0x9E37_79B9_7F4A_7C15)
}

pub open spec fn splitmix_output(state: u64) -> u64 {
    let z = splitmix_state(state);
    let z = (z ^ (z >> 30u64)).wrapping_mul(0xBF58_476D_1CE4_E5B9);
    let z = (z ^ (z >> 27u64)).wrapping_mul(0x94D0_49BB_1331_11EB);
    z ^ (z >> 31u64)
}

pub fn splitmix64(state: &mut u64) -> (r: u64)
    ensures
        *final(state) == splitmix_state(*old(state)),
        r == splitmix_output(*old(state)),
{
    *state = state.wrapping_add(0x9E37_79B9_7F4A_7C15);
    let mut z = *state;
    z = (z ^ (z >> 30)).wrapping_mul(0xBF58_476D_1CE4_E5B9);
    z = (z ^ (z >> 27)).wrapping_mul(0x94D0_49BB_1331_11EB);
    z ^ (z >> 31)
}

/// One timing sample taken for seeding: TSC before and after a short
/// spin, the PIT countdown between them, and the jiffies count.
#[derive(Clone, Copy, Debug)]
pub struct SeedSample {
    pub before: u64,
    pub pit: u64,
    pub after: u64,
    pub jiffies: u64,
}

/// Spin count the seeding loop uses after a sample's first two readings.
pub open spec fn spec_spins(before: u64, pit: u64) -> int {
    ((before ^ pit) & 0x1f) as int + 1
}

pub fn sample_spins(before: u64, pit: u64) -> (r: usize)
    ensures
        r == spec_spins(before, pit),
{
    let low = (before ^ pit) & 0x1f;
    assert(low <= 0x1f) by (bit_vector)
        requires
            low == (before ^ pit) & 0x1f,
    ;
    low as usize + 1
}

/// The seed before the samples: TSC, wall clock, uptime and a stack
/// address, rotated apart and combined.
pub open spec fn seed_start(tsc: u64, realtime_ms: u64, uptime_ms: u64, address: u64) -> u64 {
    tsc ^ rotl64(realtime_ms, 7) ^ rotl64(uptime_ms, 29) ^ rotl64(address, 19)
}

/// Fold sample `i` into the seed.
pub open spec fn seed_step(seed: u64, s: SeedSample, i: u64) -> u64 {
    let sample = s.after ^ rotl64(s.before, ((i % 32) + 1) as u64) ^ rotl64(s.pit, ((i % 47) + 1) as u64) ^ rotl64(
        s.jiffies,
        ((i % 59) + 1) as u64,
    );
    rotl64(seed ^ sample, 17).wrapping_mul(0x9E37_79B9_7F4A_7C15)
}

pub open spec fn seed_fold(seed: u64, samples: Seq<SeedSample>) -> u64
    decreases samples.len(),
{
    if samples.len() == 0 {
        seed
    } else {
        seed_step(seed_fold(seed, samples.drop_last()), samples.last(), (samples.len() - 1) as u64)
    }
}

/// Seed from the timing samples; never zero.
pub fn collect_seed(tsc: u64, realtime_ms: u64, uptime_ms: u64, address: u64, samples: &[SeedSample]) -> (r: u64)
    requires
        samples@.len() <= 64,
    ensures
        ({
            let s = seed_fold(seed_start(tsc, realtime_ms, uptime_ms, address), samples@);
            r == if s == 0 { 0xD1B5_4A32_D192_ED03u64 } else { s }
        }),
{
    let mut seed = tsc ^ rotate64(realtime_ms, 7) ^ rotate64(uptime_ms, 29) ^ rotate64(address, 19);
    let ghost start = seed;
    let mut i: usize = 0;
    while i < samples.len()
        invariant
            samples@.len() <= 64,
            0 <= i <= samples@.len(),
            seed == seed_fold(start, samples@.subrange(0, i as int)),
            start == seed_start(tsc, realtime_ms, uptime_ms, address),
        decreases samples@.len() - i,
    {
        let s = samples[i];
        let k = i as u64;
        let sample = s.after ^ rotate64(s.before, (k % 32) + 1) ^ rotate64(s.pit, (k % 47) + 1) ^ rotate64(
            s.jiffies,
            (k % 59) + 1,
        );
        seed = rotate64(seed ^ sample, 17).wrapping_mul(0x9E37_79B9_7F4A_7C15);
        proof {
            let prefix = samples@.subrange(0, i + 1);
            assert(prefix.drop_last() =~= samples@.subrange(0, i as int));
            assert(prefix.last() == s);
        }
        i = i + 1;
    }
    assert(samples@.subrange(0, samples@.len() as int) =~= samples@);
    if seed == 0 {
        0xD1B5_4A32_D192_ED03
    } else {
        seed
    }
}

/// Generator state.
pub struct RandomState {
    pub key: [u32; 8],
    pub counter: u64,
    pub nonce: [u32; 3],
    pub initialized: bool,
}

/// Key word drawn from one SplitMix64 output.
pub open spec fn fold_word(v: u64) -> u32 {
    (v as u32) ^ ((v >> 32u64) as u32)
}

/// The `n`-th SplitMix64 state after `seed`.
pub open spec fn splitmix_nth(seed: u64, n: nat) -> u64
    decreases n,
{
    if n == 0 { seed } else { splitmix_state(splitmix_nth(seed, (n - 1) as nat)) }
}

/// The `n`-th output (from 0) drawn from `seed`.
pub open spec fn splitmix_out(seed: u64, n: nat) -> u64 {
    splitmix_output(splitmix_nth(seed, n))
}

/// Mixing word of a stir from the TSC, PIT and uptime readings.
pub open spec fn stir_mix(tsc: u64, pit: u16, uptime_ms: u64) -> u64 {
    tsc ^ rotl64(pit as u64, 17) ^ rotl64(uptime_ms, 31)
}

impl RandomState {
    pub fn new() -> (r: Self)
        ensures
            r.key@ == Seq::new(8, |i: int| 0u32),
            r.counter == 0,
            r.nonce@ == Seq::new(3, |i: int| 0u32),
            !r.initialized,
    {
        let r = RandomState { key: [0u32; 8], counter: 0, nonce: [0u32; 3], initialized: false };
        assert(r.key@ =~= Seq::new(8, |i: int| 0u32));
        assert(r.nonce@ =~= Seq::new(3, |i: int| 0u32));
        r
    }

    /// Seed the generator: eight key words, then two outputs for the
    /// nonce, then the counter, all drawn from SplitMix64 over `seed`.
    pub fn initialize(&mut self, seed: u64)
        ensures
            final(self).initialized,
            forall|i: int| 0 <= i < 8 ==> #[trigger] final(self).key@[i] == fold_word(splitmix_out(seed, i as nat)),
            final(self).nonce@ == seq![
                splitmix_out(seed, 8) as u32,
                (splitmix_out(seed, 8) >> 32u64) as u32,
                splitmix_out(seed, 9) as u32,
            ],
            final(self).counter == splitmix_out(seed, 10),
    {
        let mut state = seed;
        let mut i: usize = 0;
        while i < 8
            invariant
                0 <= i <= 8,
                state == splitmix_nth(seed, i as nat),
                forall|j: int| 0 <= j < i ==> #[trigger] self.key@[j] == fold_word(splitmix_out(seed, j as nat)),
            decreases 8 - i,
        {
            let value = splitmix64(&mut state);
            self.key[i] = (value as u32) ^ ((value >> 32) as u32);
            i = i + 1;
        }
        let n0 = splitmix64(&mut state);
        let n1 = splitmix64(&mut state);
        self.nonce = [n0 as u32, (n0 >> 32) as u32, n1 as u32];
        self.counter = splitmix64(&mut state);
        self.initialized = true;
        assert(self.nonce@ =~= seq![
            splitmix_out(seed, 8) as u32,
            (splitmix_out(seed, 8) >> 32u64) as u32,
            splitmix_out(seed, 9) as u32,
        ]);
    }

    /// Stir fresh timing into the key and counter.
    pub fn stir_timing(&mut self, tsc: u64, pit: u16, uptime_ms: u64)
        ensures
            ({
                let mix = stir_mix(tsc, pit, uptime_ms);
                &&& final(self).key@ == old(self).key@.update(0, old(self).key@[0] ^ (mix as u32)).update(
                    3,
                    old(self).key@[3] ^ ((mix >> 32u64) as u32),
                ).update(5, old(self).key@[5].wrapping_add(rotl64(mix, 11) as u32))
                &&& final(self).counter == old(self).counter.wrapping_add(mix | 1)
                &&& final(self).nonce == old(self).nonce
                &&& final(self).initialized == old(self).initialized
            }),
    {
        let mix = tsc ^ rotate64(pit as u64, 17) ^ rotate64(uptime_ms, 31);
        self.key[0] = self.key[0] ^ (mix as u32);
        self.key[3] = self.key[3] ^ ((mix >> 32) as u32);
        self.key[5] = self.key[5].wrapping_add(rotate64(mix, 11) as u32);
        self.counter = self.counter.wrapping_add(mix | 1);
    }

    /// The next 64 keystream bytes; the counter advances by one.
    pub fn block(&mut self) -> (r: [u8; 64])
        ensures
            r@ == block_bytes(old(self).key@, old(self).counter, old(self).nonce@),
            final(self).counter == old(self).counter.wrapping_add(1),
            final(self).key == old(self).key,
            final(self).nonce == old(self).nonce,
            final(self).initialized == old(self).initialized,
    {
        let counter_lo = self.counter as u32;
        let counter_hi = (self.counter / 0x1_0000_0000) as u32;
        let input: [u32; 16] = [
            0x6170_7865,
            0x3320_646e,
            0x7962_2d32,
            0x6b20_6574,
            self.key[0],
            self.key[1],
            self.key[2],
            self.key[3],
            self.key[4],
            self.key[5],
            self.key[6],
            self.key[7],
            counter_lo,
            counter_hi ^ self.nonce[0],
            self.nonce[1],
            self.nonce[2],
        ];
        let ghost inp = chacha_input(self.key@, self.counter, self.nonce@);
        assert(input@ =~= inp);
        let mut x = input;
        let mut round: usize = 0;
        while round < 10
            invariant
                0 <= round <= 10,
                input@ == inp,
                x@ == double_rounds(inp, round as nat),
            decreases 10 - round,
        {
            quarter_round(&mut x, 0, 4, 8, 12);
            quarter_round(&mut x, 1, 5, 9, 13);
            quarter_round(&mut x, 2, 6, 10, 14);
            quarter_round(&mut x, 3, 7, 11, 15);
            quarter_round(&mut x, 0, 5, 10, 15);
            quarter_round(&mut x, 1, 6, 11, 12);
            quarter_round(&mut x, 2, 7, 8, 13);
            quarter_round(&mut x, 3, 4, 9, 14);
            round = round + 1;
        }
        let mut out = [0u8; 64];
        let mut i: usize = 0;
        while i < 16
            invariant
                0 <= i <= 16,
                input@ == inp,
                x@ == double_rounds(inp, 10),
                forall|j: int| 0 <= j < 4 * i ==> #[trigger] out@[j] == le32_bytes(
                    x@[j / 4].wrapping_add(input@[j / 4]),
                )[j % 4],
            decreases 16 - i,
        {
            let word = x[i].wrapping_add(input[i]);
            out[4 * i] = (word % 256) as u8;
            out[4 * i + 1] = ((word / 256) % 256) as u8;
            out[4 * i + 2] = ((word / 65536) % 256) as u8;
            out[4 * i + 3] = (word / 16777216) as u8;
            i = i + 1;
        }
        assert(out@ =~= block_bytes(self.key@, self.counter, self.nonce@));
        self.counter = self.counter.wrapping_add(1);
        out
    }
}

/// What the generator's state holds, as values.
pub struct RngView {
    pub key: Seq<u32>,
    pub counter: u64,
    pub nonce: Seq<u32>,
}

impl RandomState {
    pub open spec fn rng_view(&self) -> RngView {
        RngView { key: self.key@, counter: self.counter, nonce: self.nonce@ }
    }
}

/// The state seeding from `seed` produces.
pub open spec fn seeded(seed: u64) -> RngView {
    RngView {
        key: Seq::new(8, |i: int| fold_word(splitmix_out(seed, i as nat))),
        counter: splitmix_out(seed, 10),
        nonce: seq![splitmix_out(seed, 8) as u32, (splitmix_out(seed, 8) >> 32u64) as u32, splitmix_out(seed, 9) as u32],
    }
}

/// The state after stirring in the timing readings.
pub open spec fn stirred(v: RngView, tsc: u64, pit: u16, uptime_ms: u64) -> RngView {
    let mix = stir_mix(tsc, pit, uptime_ms);
    RngView {
        key: v.key.update(0, v.key[0] ^ (mix as u32)).update(3, v.key[3] ^ ((mix >> 32u64) as u32)).update(
            5,
            v.key[5].wrapping_add(rotl64(mix, 11) as u32),
        ),
        counter: v.counter.wrapping_add(mix | 1),
        nonce: v.nonce,
    }
}

/// Blocks a request of `len` bytes consumes.
pub open spec fn blocks_for_len(len: int) -> nat {
    ((len + 63) / 64) as nat
}

/// The key after the rekey block `rekey` is folded in.
pub open spec fn rekeyed(key: Seq<u32>, rekey: Seq<u8>) -> Seq<u32> {
    Seq::new(8, |i: int| key[i] ^ (crate::ext2::le32(rekey, 4 * i) as u32))
}

/// Adding one after adding `k` is adding `k + 1`.
proof fn lemma_wrapping_step(c: u64, k: u64)
    requires
        k < u64::MAX,
    ensures
        c.wrapping_add(k).wrapping_add(1) == c.wrapping_add((k + 1) as u64),
{
}

impl RandomState {
    /// Fill `output` with keystream: seed from `seed` first when the
    /// generator has not been seeded, stir in the timing readings, emit
    /// whole blocks (the last one cut to fit), then draw one more block and
    /// fold it into the key so the key that produced the output is gone.
    pub fn fill(&mut self, output: &mut Vec<u8>, seed: u64, tsc: u64, pit: u16, uptime_ms: u64)
        requires
            old(output)@.len() + 64 <= usize::MAX,
            blocks_for_len(old(output)@.len() as int) + 1 < u64::MAX,
        ensures
            final(self).initialized,
            ({
                let v0 = if old(self).initialized { old(self).rng_view() } else { seeded(seed) };
                let v = stirred(v0, tsc, pit, uptime_ms);
                let n = blocks_for_len(old(output)@.len() as int);
                &&& final(output)@ == keystream(v.key, v.counter, v.nonce, n).subrange(0, old(output)@.len() as int)
                &&& final(self).counter == v.counter.wrapping_add((n + 1) as u64)
                &&& final(self).nonce@ == v.nonce
                &&& final(self).key@ == rekeyed(v.key, block_bytes(v.key, v.counter.wrapping_add(n as u64), v.nonce))
            }),
    {
        let ghost v0 = if old(self).initialized { old(self).rng_view() } else { seeded(seed) };
        if !self.initialized {
            self.initialize(seed);
            assert(self.key@ =~= seeded(seed).key);
        }
        assert(self.rng_view() == v0);
        self.stir_timing(tsc, pit, uptime_ms);
        let ghost v = self.rng_view();
        assert(v == stirred(v0, tsc, pit, uptime_ms));
        let len = output.len();
        let ghost out0 = output@;
        let mut offset: usize = 0;
        let mut k: u64 = 0;
        while offset < len
            invariant
                len == output@.len(),
                len == out0.len(),
                len + 64 <= usize::MAX,
                blocks_for_len(len as int) + 1 < u64::MAX,
                self.initialized,
                offset <= len,
                offset == (if 64 * k <= len { 64 * k } else { len as int }),
                offset < len ==> 64 * k == offset,
                k <= blocks_for_len(len as int),
                offset == len ==> k == blocks_for_len(len as int),
                self.key@ == v.key,
                self.nonce@ == v.nonce,
                self.counter == v.counter.wrapping_add(k),
                keystream(v.key, v.counter, v.nonce, k as nat).len() == 64 * k,
                forall|j: int| 0 <= j < offset ==> #[trigger] output@[j] == keystream(v.key, v.counter, v.nonce, k as nat)[j],
            decreases len - offset,
        {
            let block = self.block();
            proof {
                lemma_wrapping_step(v.counter, k);
            }
            let count = if len - offset < 64 { len - offset } else { 64 };
            let mut j: usize = 0;
            while j < count
                invariant
                    j <= count,
                    count <= 64,
                    offset + count <= len,
                    len == output@.len(),
                    forall|t: int| 0 <= t < offset ==> #[trigger] output@[t] == keystream(v.key, v.counter, v.nonce, k as nat)[t],
                    forall|t: int| 0 <= t < j ==> #[trigger] output@[offset + t] == block@[t],
                decreases count - j,
            {
                output.set(offset + j, block[j]);
                j = j + 1;
            }
            proof {
                let ks = keystream(v.key, v.counter, v.nonce, k as nat);
                let ks1 = keystream(v.key, v.counter, v.nonce, (k + 1) as nat);
                assert(ks1 == ks + block_bytes(v.key, v.counter.wrapping_add(k), v.nonce));
                assert forall|t: int| 0 <= t < offset + count implies #[trigger] output@[t] == ks1[t] by {
                    if t >= offset {
                        assert(output@[offset + (t - offset)] == block@[t - offset]);
                    }
                }
            }
            offset = offset + count;
            k = k + 1;
        }
        let rekey = self.block();
        proof {
            lemma_wrapping_step(v.counter, k);
        }
        let mut i: usize = 0;
        while i < 8
            invariant
                0 <= i <= 8,
                self.initialized,
                self.nonce@ == v.nonce,
                self.counter == v.counter.wrapping_add((k + 1) as u64),
                forall|t: int| 0 <= t < i ==> #[trigger] self.key@[t] == v.key[t] ^ (crate::ext2::le32(rekey@, 4 * t) as u32),
                forall|t: int| i <= t < 8 ==> #[trigger] self.key@[t] == v.key[t],
            decreases 8 - i,
        {
            let word = crate::ext2::get_u32_le(&rekey, 4 * i);
            self.key[i] = self.key[i] ^ word;
            i = i + 1;
        }
        assert(self.key@ =~= rekeyed(v.key, block_bytes(v.key, v.counter.wrapping_add(k), v.nonce)));
    }
}

/// Fill `bytes` from the generator; an empty request leaves everything
/// untouched.
pub fn fill_bytes(rng: &mut RandomState, bytes: &mut Vec<u8>, seed: u64, tsc: u64, pit: u16, uptime_ms: u64)
    requires
        old(bytes)@.len() + 64 <= usize::MAX,
        blocks_for_len(old(bytes)@.len() as int) + 1 < u64::MAX,
    ensures
        old(bytes)@.len() == 0 ==> final(bytes)@ == old(bytes)@ && final(rng).key == old(rng).key
            && final(rng).counter == old(rng).counter && final(rng).initialized == old(rng).initialized,
        old(bytes)@.len() > 0 ==> {
            let v0 = if old(rng).initialized { old(rng).rng_view() } else { seeded(seed) };
            let v = stirred(v0, tsc, pit, uptime_ms);
            let n = blocks_for_len(old(bytes)@.len() as int);
            &&& final(rng).initialized
            &&& final(bytes)@ == keystream(v.key, v.counter, v.nonce, n).subrange(0, old(bytes)@.len() as int)
            &&& final(rng).counter == v.counter.wrapping_add((n + 1) as u64)
            &&& final(rng).key@ == rekeyed(v.key, block_bytes(v.key, v.counter.wrapping_add(n as u64), v.nonce))
        },
{
    if bytes.len() == 0 {
        return;
    }
    rng.fill(bytes, seed, tsc, pit, uptime_ms);
}

} // verus!
