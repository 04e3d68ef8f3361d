use vstd::prelude::*;

verus! {

broadcast use vstd::array::group_array_axioms;

use crate::util::lemma_byte_masks;

/// Mathematical state of the keystream generator: the two 1024-word tables
/// and the step counter, which cycles through `[0, 2048)`.
#[verifier::ext_equal]
pub ghost struct GenState {
    pub p: Seq<u32>,
    pub q: Seq<u32>,
    pub c: nat,
}

/// Right rotation of a 32-bit word by `n` places, for `0 < n < 32`.
pub open spec fn spec_rotr(x: u32, n: u32) -> u32
    recommends
        0 < n < 32,
{
    (x >> n) | (x << (32 - n))
}

/// First mixing function of the key/iv expansion.
pub open spec fn spec_f1(x: u32) -> u32 {
    spec_rotr(x, 7) ^ spec_rotr(x, 18) ^ (x >> 3)
}

/// Second mixing function of the key/iv expansion.
pub open spec fn spec_f2(x: u32) -> u32 {
    spec_rotr(x, 17) ^ spec_rotr(x, 19) ^ (x >> 10)
}

/// Compression function: folds the four bytes of `u` into four byte-indexed
/// lookups of the table `t`, summed modulo `2^32`.
pub open spec fn spec_h(t: Seq<u32>, u: u32) -> u32
    recommends
        t.len() == 1024,
{
    t[(u & 0xff) as int].wrapping_add(t[256 + ((u >> 8) & 0xff) as int]).wrapping_add(
        t[512 + ((u >> 16) & 0xff) as int],
    ).wrapping_add(t[768 + ((u >> 24) & 0xff) as int])
}

/// New value for entry `i` of the active table `t`, with `o` the other table.
pub open spec fn table_step(t: Seq<u32>, o: Seq<u32>, i: int) -> u32
    recommends
        t.len() == 1024,
        o.len() == 1024,
        0 <= i < 1024,
{
    let i3: int = (i + 1021) % 1024;
    let i10: int = (i + 1014) % 1024;
    let i1023: int = (i + 1) % 1024;
    t[i].wrapping_add(t[i10]).wrapping_add(spec_rotr(t[i3], 10) ^ spec_rotr(t[i1023], 23))
        .wrapping_add(o[((t[i3] ^ t[i1023]) % 1024) as int])
}

/// One generation step: exactly one entry of the active table changes and the
/// counter advances, wrapping modulo 2048.
pub open spec fn gen_update(g: GenState) -> GenState {
    let i: int = (g.c % 1024) as int;
    if g.c < 1024 {
        GenState { p: g.p.update(i, table_step(g.p, g.q, i)), q: g.q, c: (g.c + 1) % 2048 }
    } else {
        GenState { p: g.p, q: g.q.update(i, table_step(g.q, g.p, i)), c: (g.c + 1) % 2048 }
    }
}

/// The keystream word emitted by one generation step.
pub open spec fn gen_output(g: GenState) -> u32 {
    let i: int = (g.c % 1024) as int;
    let i12: int = (i + 1012) % 1024;
    if g.c < 1024 {
        spec_h(g.q, g.p[i12]) ^ table_step(g.p, g.q, i)
    } else {
        spec_h(g.p, g.q[i12]) ^ table_step(g.q, g.p, i)
    }
}

/// Word `i` of the expansion buffer built from the 16 seed words.
pub open spec fn w_word(seed: Seq<u32>, i: int) -> u32
    recommends
        seed.len() == 16,
        0 <= i < 2560,
    decreases i,
{
    if i < 16 {
        seed[i]
    } else {
        spec_f2(w_word(seed, i - 2)).wrapping_add(w_word(seed, i - 7)).wrapping_add(
            spec_f1(w_word(seed, i - 15)),
        ).wrapping_add(w_word(seed, i - 16)).wrapping_add(i as u32)
    }
}

/// The full 2560-word expansion buffer for the 16 seed words.
pub open spec fn expanded(seed: Seq<u32>) -> Seq<u32> {
    Seq::new(2560, |i: int| w_word(seed, i))
}

/// The generator tables as first sliced out of the expansion buffer.
pub open spec fn init_state(seed: Seq<u32>) -> GenState {
    GenState {
        p: expanded(seed).subrange(512, 1536),
        q: expanded(seed).subrange(1536, 2560),
        c: 0,
    }
}

/// `n` generation steps with their outputs discarded.
pub open spec fn warm(g: GenState, n: nat) -> GenState
    decreases n,
{
    if n == 0 {
        g
    } else {
        warm(gen_update(g), (n - 1) as nat)
    }
}

/// The ready generator state for the 16 seed words: expansion followed by the
/// 4096 discarded warm-up steps.
pub open spec fn keyed_state(seed: Seq<u32>) -> GenState {
    warm(init_state(seed), 4096)
}

/// The HC-256 keystream generator: two 1024-word tables mutated in place and
/// a step counter. Copying it forks two fully independent keystreams.
#[derive(Clone, Copy)]
pub struct Hc256Rng {
    p: [u32; 1024],
    q: [u32; 1024],
    c: usize,
}

impl View for Hc256Rng {
    type V = GenState;

    closed spec fn view(&self) -> GenState {
        GenState { p: self.p@, q: self.q@, c: self.c as nat }
    }
}

/// Right rotation of a 32-bit word.
fn rotr(x: u32, n: u32) -> (r: u32)
    requires
        0 < n < 32,
    ensures
        r == spec_rotr(x, n),
{
    (x >> n) | (x << (32 - n))
}

/// First mixing function.
fn f1(x: u32) -> (r: u32)
    ensures
        r == spec_f1(x),
{
    rotr(x, 7) ^ rotr(x, 18) ^ (x >> 3)
}

/// Second mixing function.
fn f2(x: u32) -> (r: u32)
    ensures
        r == spec_f2(x),
{
    rotr(x, 17) ^ rotr(x, 19) ^ (x >> 10)
}

/// Compression function over one table.
fn h(t: &[u32; 1024], u: u32) -> (r: u32)
    ensures
        r == spec_h(t@, u),
{
    proof {
        lemma_byte_masks(u);
    }
    let b0: usize = (u & 0xff) as usize;
    let b1: usize = ((u >> 8) & 0xff) as usize;
    let b2: usize = ((u >> 16) & 0xff) as usize;
    let b3: usize = ((u >> 24) & 0xff) as usize;
    t[b0].wrapping_add(t[256 + b1]).wrapping_add(t[512 + b2]).wrapping_add(t[768 + b3])
}

impl Hc256Rng {
    /// The counter stays inside its 2048-step cycle; the table sizes are
    /// fixed by the type.
    pub closed spec fn wf(self) -> bool {
        self.c < 2048
    }

    /// Builds a generator from eight key words and eight iv words.
    pub fn init(key: &[u32; 8], iv: &[u32; 8]) -> (rng: Hc256Rng)
        ensures
            rng.wf(),
            rng@ == keyed_state(key@ + iv@),
    {
        let mut w: [u32; 2560] = [0; 2560];
        let mut i: usize = 0;
        while i < 8
            invariant
                i <= 8,
                forall|j: int| 0 <= j < i ==> w@[j] == key@[j],
                forall|j: int| 0 <= j < i ==> w@[8 + j] == iv@[j],
            decreases 8 - i,
        {
            w[i] = key[i];
            w[i + 8] = iv[i];
            i += 1;
        }
        let ghost seed0: Seq<u32> = w@.subrange(0, 16);
        proof {
            assert(seed0 =~= key@ + iv@);
        }
        Hc256Rng::with_w(&mut w)
    }

    /// Builds a generator from an expansion buffer whose first 16 words hold
    /// the seed: fills the recurrence in place, slices the two tables out of
    /// the result, and runs the 4096 discarded warm-up steps.
    pub fn with_w(w: &mut [u32; 2560]) -> (rng: Hc256Rng)
        ensures
            rng.wf(),
            final(w)@ == expanded(old(w)@.subrange(0, 16)),
            rng@ == keyed_state(old(w)@.subrange(0, 16)),
    {
        let ghost seed: Seq<u32> = w@.subrange(0, 16);
        let mut i: usize = 16;
        while i < 2560
            invariant
                16 <= i <= 2560,
                seed == old(w)@.subrange(0, 16),
                forall|j: int| 0 <= j < 16 ==> w@[j] == old(w)@[j],
                forall|j: int| 0 <= j < i ==> w@[j] == w_word(seed, j),
            decreases 2560 - i,
        {
            let v: u32 = f2(w[i - 2]).wrapping_add(w[i - 7]).wrapping_add(f1(w[i - 15]))
                .wrapping_add(w[i - 16]).wrapping_add(i as u32);
            proof {
                assert(w_word(seed, i as int) == spec_f2(w_word(seed, i as int - 2)).wrapping_add(
                    w_word(seed, i as int - 7),
                ).wrapping_add(spec_f1(w_word(seed, i as int - 15))).wrapping_add(
                    w_word(seed, i as int - 16),
                ).wrapping_add(i as u32));
                assert(v == w_word(seed, i as int));
            }
            w[i] = v;
            i += 1;
        }

        let mut p: [u32; 1024] = [0; 1024];
        let mut q: [u32; 1024] = [0; 1024];
        let mut j: usize = 0;
        while j < 1024
            invariant
                j <= 1024,
                seed == old(w)@.subrange(0, 16),
                forall|t: int| 0 <= t < 2560 ==> w@[t] == w_word(seed, t),
                forall|t: int| 0 <= t < j ==> p@[t] == w@[512 + t],
                forall|t: int| 0 <= t < j ==> q@[t] == w@[1536 + t],
            decreases 1024 - j,
        {
            p[j] = w[512 + j];
            q[j] = w[1536 + j];
            j += 1;
        }

        let mut rng = Hc256Rng { p, q, c: 0 };
        proof {
            assert(w@ =~= expanded(seed));
            assert(rng@.p =~= expanded(seed).subrange(512, 1536));
            assert(rng@.q =~= expanded(seed).subrange(1536, 2560));
            assert(rng@ =~= init_state(seed));
        }

        let ghost g0: GenState = rng@;
        let mut k: usize = 0;
        while k < 4096
            invariant
                rng.wf(),
                k <= 4096,
                warm(rng@, (4096 - k) as nat) == warm(g0, 4096),
            decreases 4096 - k,
        {
            proof {
                assert(warm(rng@, (4096 - k) as nat) == warm(
                    gen_update(rng@),
                    (4096 - (k + 1)) as nat,
                ));
            }
            rng.gen();
            k += 1;
        }
        proof {
            assert(warm(rng@, 0) == rng@);
            assert(rng@ == keyed_state(seed));
        }
        rng
    }

    /// One generation step: updates exactly one entry of the active table,
    /// advances the counter, and returns the keystream word.
    pub fn gen(&mut self) -> (output: u32)
        requires
            old(self).wf(),
        ensures
            final(self).wf(),
            final(self)@ == gen_update(old(self)@),
            output == gen_output(old(self)@),
    {
        let i: usize = self.c % 1024;
        let i3: usize = (i + 1021) % 1024;
        let i10: usize = (i + 1014) % 1024;
        let i12: usize = (i + 1012) % 1024;
        let i1023: usize = (i + 1) % 1024;
        proof {
            assert(i12 != i);
        }

        let output: u32 = if self.c < 1024 {
            let v: u32 = self.p[i].wrapping_add(self.p[i10]).wrapping_add(
                rotr(self.p[i3], 10) ^ rotr(self.p[i1023], 23),
            ).wrapping_add(self.q[((self.p[i3] ^ self.p[i1023]) % 1024) as usize]);
            self.p[i] = v;
            h(&self.q, self.p[i12]) ^ self.p[i]
        } else {
            let v: u32 = self.q[i].wrapping_add(self.q[i10]).wrapping_add(
                rotr(self.q[i3], 10) ^ rotr(self.q[i1023], 23),
            ).wrapping_add(self.p[((self.q[i3] ^ self.q[i1023]) % 1024) as usize]);
            self.q[i] = v;
            h(&self.p, self.q[i12]) ^ self.q[i]
        };

        self.c = (self.c + 1) % 2048;
        output
    }
}

} // verus!
