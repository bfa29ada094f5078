//! Deterministic, context-keyed random number source.
//!
//! The generator holds a 32-byte state and a step counter. Every draw advances
//! the state through a SHAKE256 extendable-output hash of the previous state,
//! the big-endian step counter and a fixed domain tag, then derives the output
//! from the new state and a caller-supplied context tag. The context tag
//! identifies the logical draw site, so that adding or removing an unrelated
//! draw does not shift the streams of other sites.
//!
//! Everything here is a function of the seed bytes and the context tags, which
//! is what makes every stochastic primitive built on top reproducible.

use vstd::prelude::*;
use sha3::Shake256;
use sha3::digest::{ExtendableOutput, Update, XofReader};

verus! {

/// The SHAKE256 extendable-output digest of `input`, truncated to its first
/// `out_len` bytes. The digest is a function of the input bytes alone.
pub uninterp spec fn shake256_of(input: Seq<u8>, out_len: nat) -> Seq<u8>;

/// Relies on sha3's `Shake256` (`update`, `finalize_xof`, `XofReader::read`):
/// the bytes read from the reader depend on the absorbed input alone, and
/// `read` fills the whole output buffer.
#[verifier::external_body]
fn shake256(input: &Vec<u8>, out_len: usize) -> (r: Vec<u8>)
    ensures
        r@ == shake256_of(input@, out_len as nat),
        r@.len() == out_len,
{
    let mut h = Shake256::default();
    h.update(input.as_slice());
    let mut reader = h.finalize_xof();
    let mut out = vec![0u8; out_len];
    reader.read(&mut out);
    out
}

/// The domain tag absorbed after the seed when a generator is created:
/// the ASCII bytes of "OND_INIT".
pub open spec fn init_tag() -> Seq<u8> {
    seq![79u8, 78u8, 68u8, 95u8, 73u8, 78u8, 73u8, 84u8]
}

/// The domain tag absorbed after the step counter on every state advance:
/// the ASCII bytes of "QSIM".
pub open spec fn step_tag() -> Seq<u8> {
    seq![81u8, 83u8, 73u8, 77u8]
}

/// The domain tag of the extra mixing step taken when the advanced state
/// starts with a byte below 16: the ASCII bytes of "SKIP".
pub open spec fn skip_tag() -> Seq<u8> {
    seq![83u8, 75u8, 73u8, 80u8]
}

/// The eight big-endian base-256 digits of `x`.
pub open spec fn be_bytes8(x: u64) -> Seq<u8> {
    seq![
        ((x as int / 0x100000000000000) % 256) as u8,
        ((x as int / 0x1000000000000) % 256) as u8,
        ((x as int / 0x10000000000) % 256) as u8,
        ((x as int / 0x100000000) % 256) as u8,
        ((x as int / 0x1000000) % 256) as u8,
        ((x as int / 0x10000) % 256) as u8,
        ((x as int / 0x100) % 256) as u8,
        ((x as int) % 256) as u8,
    ]
}

/// The value of `s` read as a big-endian base-256 numeral.
pub open spec fn be_value(s: Seq<u8>) -> nat
    decreases s.len(),
{
    if s.len() == 0 {
        0
    } else {
        be_value(s.drop_last()) * 256 + s.last() as nat
    }
}

/// 256 raised to the power `n`.
pub open spec fn pow256(n: nat) -> nat
    decreases n,
{
    if n == 0 {
        1
    } else {
        256 * pow256((n - 1) as nat)
    }
}

proof fn lemma_pow256_pos(n: nat)
    ensures
        pow256(n) >= 1,
    decreases n,
{
    if n > 0 {
        lemma_pow256_pos((n - 1) as nat);
    }
}

proof fn lemma_pow256_mono(a: nat, b: nat)
    requires
        a <= b,
    ensures
        pow256(a) <= pow256(b),
    decreases b,
{
    if a < b {
        lemma_pow256_mono(a, (b - 1) as nat);
        lemma_pow256_pos((b - 1) as nat);
    }
}

proof fn lemma_be_value_bound(s: Seq<u8>)
    ensures
        be_value(s) < pow256(s.len()),
    decreases s.len(),
{
    if s.len() > 0 {
        lemma_be_value_bound(s.drop_last());
    }
}

/// Appends every byte of `src` to `dst`.
fn push_slice(dst: &mut Vec<u8>, src: &[u8])
    requires
        old(dst)@.len() + src@.len() <= usize::MAX,
    ensures
        final(dst)@ == old(dst)@ + src@,
{
    let ghost orig = dst@;
    let mut i: usize = 0;
    while i < src.len()
        invariant
            i <= src@.len(),
            orig.len() + src@.len() <= usize::MAX,
            dst@ == orig + src@.take(i as int),
        decreases src@.len() - i,
    {
        dst.push(src[i]);
        i = i + 1;
        proof {
            assert(dst@ =~= orig + src@.take(i as int));
        }
    }
    proof {
        assert(dst@ =~= orig + src@);
    }
}

/// Appends the ASCII bytes of "OND_INIT" to `v`.
fn push_init_tag(v: &mut Vec<u8>)
    requires
        old(v)@.len() + 8 <= usize::MAX,
    ensures
        final(v)@ == old(v)@ + init_tag(),
{
    let ghost orig = v@;
    v.push(79);
    v.push(78);
    v.push(68);
    v.push(95);
    v.push(73);
    v.push(78);
    v.push(73);
    v.push(84);
    proof {
        assert(v@ =~= orig + init_tag());
    }
}

/// Appends the ASCII bytes of "QSIM" to `v`.
fn push_step_tag(v: &mut Vec<u8>)
    requires
        old(v)@.len() + 4 <= usize::MAX,
    ensures
        final(v)@ == old(v)@ + step_tag(),
{
    let ghost orig = v@;
    v.push(81);
    v.push(83);
    v.push(73);
    v.push(77);
    proof {
        assert(v@ =~= orig + step_tag());
    }
}

/// Appends the ASCII bytes of "SKIP" to `v`.
fn push_skip_tag(v: &mut Vec<u8>)
    requires
        old(v)@.len() + 4 <= usize::MAX,
    ensures
        final(v)@ == old(v)@ + skip_tag(),
{
    let ghost orig = v@;
    v.push(83);
    v.push(75);
    v.push(73);
    v.push(80);
    proof {
        assert(v@ =~= orig + skip_tag());
    }
}

/// Appends the eight big-endian bytes of `x` to `v`.
fn push_be_bytes8(v: &mut Vec<u8>, x: u64)
    requires
        old(v)@.len() + 8 <= usize::MAX,
    ensures
        final(v)@ == old(v)@ + be_bytes8(x),
{
    let ghost orig = v@;
    v.push(((x / 0x100000000000000) % 256) as u8);
    v.push(((x / 0x1000000000000) % 256) as u8);
    v.push(((x / 0x10000000000) % 256) as u8);
    v.push(((x / 0x100000000) % 256) as u8);
    v.push(((x / 0x1000000) % 256) as u8);
    v.push(((x / 0x10000) % 256) as u8);
    v.push(((x / 0x100) % 256) as u8);
    v.push((x % 256) as u8);
    proof {
        assert(v@ =~= orig + be_bytes8(x));
    }
}

/// Reads eight bytes as a big-endian `u64`.
fn be_to_u64(bytes: &Vec<u8>) -> (r: u64)
    requires
        bytes@.len() == 8,
    ensures
        r == be_value(bytes@),
{
    let mut acc: u64 = 0;
    let mut i: usize = 0;
    while i < 8
        invariant
            i <= 8,
            bytes@.len() == 8,
            acc == be_value(bytes@.take(i as int)),
        decreases 8 - i,
    {
        proof {
            lemma_be_value_bound(bytes@.take(i as int));
            lemma_pow256_mono(i as nat, 7);
            assert(pow256(0) == 1);
            assert(pow256(1) == 256);
            assert(pow256(2) == 0x10000);
            assert(pow256(3) == 0x1000000);
            assert(pow256(4) == 0x100000000);
            assert(pow256(5) == 0x10000000000);
            assert(pow256(6) == 0x1000000000000);
            assert(pow256(7) == 0x100000000000000);
            assert(bytes@.take(i as int + 1).drop_last() =~= bytes@.take(i as int));
        }
        acc = acc * 256 + (bytes[i] as u64);
        i = i + 1;
    }
    proof {
        assert(bytes@.take(8) =~= bytes@);
    }
    acc
}

/// The state a generator starts from: the SHAKE256 digest of the seed bytes
/// followed by the "OND_INIT" tag.
pub open spec fn init_state_of(seed: Seq<u8>) -> Seq<u8> {
    shake256_of(seed + init_tag(), 32)
}

/// The advanced state: the SHAKE256 digest of the previous state, the
/// big-endian step counter and the "QSIM" tag.
pub open spec fn next_state_of(state: Seq<u8>, step: u64) -> Seq<u8> {
    shake256_of(state + be_bytes8(step) + step_tag(), 32)
}

/// The extra state-mixing quirk: when the advanced state's leading byte is
/// below 16, the stored state is hashed once more under the "SKIP" tag.
pub open spec fn skip_mix(state: Seq<u8>) -> Seq<u8> {
    if state.len() > 0 && state[0] < 16 {
        shake256_of(state + skip_tag(), 32)
    } else {
        state
    }
}

/// The integer drawn from an advanced state under a context tag: eight digest
/// bytes of state and tag, read big-endian.
pub open spec fn draw_of(state: Seq<u8>, ctx: Seq<u8>) -> nat {
    be_value(shake256_of(state + ctx, 8))
}

/// A deterministic, seedable generator: 32 bytes of hash state plus a
/// monotonically increasing step counter.
pub struct ONDRng {
    state: Vec<u8>,
    step: u64,
}

impl ONDRng {
    /// The current 32-byte hash state.
    pub closed spec fn state_view(&self) -> Seq<u8> {
        self.state@
    }

    /// How many draws have been made.
    pub closed spec fn step_count(&self) -> u64 {
        self.step
    }

    pub open spec fn wf(&self) -> bool {
        self.state_view().len() == 32
    }

    /// Seeds a generator. Distinct seed bytes give independent streams;
    /// identical seed bytes give identical streams.
    pub fn new(seed: &[u8]) -> (rng: ONDRng)
        requires
            seed@.len() + 8 <= usize::MAX,
        ensures
            rng.wf(),
            rng.state_view() == init_state_of(seed@),
            rng.step_count() == 0,
    {
        let mut input: Vec<u8> = Vec::new();
        push_slice(&mut input, seed);
        push_init_tag(&mut input);
        let state = shake256(&input, 32);
        ONDRng { state, step: 0 }
    }

    /// One draw: advances the state keyed by the step counter, derives a
    /// uniform 64-bit integer keyed by `ctx`, and applies the state-mixing
    /// quirk before storing the state.
    pub fn next_u64(&mut self, ctx: &[u8]) -> (r: u64)
        requires
            old(self).wf(),
            old(self).step_count() < u64::MAX,
            ctx@.len() + 32 <= usize::MAX,
        ensures
            final(self).wf(),
            final(self).step_count() == old(self).step_count() + 1,
            final(self).state_view() == skip_mix(
                next_state_of(old(self).state_view(), (old(self).step_count() + 1) as u64),
            ),
            r == draw_of(
                next_state_of(old(self).state_view(), (old(self).step_count() + 1) as u64),
                ctx@,
            ),
    {
        self.step = self.step + 1;

        let mut input: Vec<u8> = Vec::new();
        push_slice(&mut input, self.state.as_slice());
        push_be_bytes8(&mut input, self.step);
        push_step_tag(&mut input);
        let new_state = shake256(&input, 32);
        self.state = new_state;
        let ghost advanced = self.state@;
        proof {
            assert(input@ =~= old(self).state_view() + be_bytes8(
                (old(self).step_count() + 1) as u64,
            ) + step_tag());
        }

        let mut draw_input: Vec<u8> = Vec::new();
        push_slice(&mut draw_input, self.state.as_slice());
        push_slice(&mut draw_input, ctx);
        let out = shake256(&draw_input, 8);
        let r = be_to_u64(&out);

        if self.state[0] < 16 {
            let mut skip_input: Vec<u8> = Vec::new();
            push_slice(&mut skip_input, self.state.as_slice());
            push_skip_tag(&mut skip_input);
            self.state = shake256(&skip_input, 32);
            proof {
                assert(self.state@ == skip_mix(advanced));
            }
        }
        r
    }
}

/// Seeding is deterministic: generators constructed from identical seed bytes
/// start in identical states, so they produce identical streams for identical
/// context sequences.
pub proof fn lemma_seed_deterministic(seed_a: Seq<u8>, seed_b: Seq<u8>)
    requires
        seed_a == seed_b,
    ensures
        init_state_of(seed_a) == init_state_of(seed_b),
{
}

/// Drawing is deterministic: two generators holding equal states and step
/// counters yield the same value and the same successor state for the same
/// context tag.
pub proof fn lemma_draw_deterministic(a: ONDRng, b: ONDRng, ctx: Seq<u8>)
    requires
        a.state_view() == b.state_view(),
        a.step_count() == b.step_count(),
    ensures
        draw_of(next_state_of(a.state_view(), (a.step_count() + 1) as u64), ctx) == draw_of(
            next_state_of(b.state_view(), (b.step_count() + 1) as u64),
            ctx,
        ),
        skip_mix(next_state_of(a.state_view(), (a.step_count() + 1) as u64)) == skip_mix(
            next_state_of(b.state_view(), (b.step_count() + 1) as u64),
        ),
{
}

} // verus!
