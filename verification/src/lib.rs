mod ops;
mod util;

pub use ops::Hc256Rng;
pub use util::u8_to_u32;
pub use util::u32_to_u8;

use vstd::prelude::*;

verus! {

use crate::ops::GenState;
use crate::ops::gen_output;
use crate::ops::gen_update;
use crate::ops::keyed_state;
use crate::util::le_word;
use crate::util::lemma_byte_masks;
use crate::util::lemma_pending_shift;
use crate::util::read_le_word;
use crate::util::word_bytes;

/// Mathematical state of the cipher: the generator state plus the keystream
/// bytes already generated but not yet consumed, first to go out first.
#[verifier::ext_equal]
pub ghost struct CipherState {
    pub gen: GenState,
    pub pending: Seq<u8>,
}

/// One keystream byte: a pending byte if any is left, else the first byte of
/// a freshly generated word, whose other three bytes become pending.
pub open spec fn cipher_step(s: CipherState) -> (CipherState, u8) {
    if s.pending.len() > 0 {
        (
            CipherState { gen: s.gen, pending: s.pending.subrange(1, s.pending.len() as int) },
            s.pending[0],
        )
    } else {
        let w: u32 = gen_output(s.gen);
        (
            CipherState { gen: gen_update(s.gen), pending: word_bytes(w).subrange(1, 4) },
            word_bytes(w)[0],
        )
    }
}

/// The cipher state after emitting `n` keystream bytes.
pub open spec fn advance(s: CipherState, n: nat) -> CipherState
    decreases n,
{
    if n == 0 {
        s
    } else {
        advance(cipher_step(s).0, (n - 1) as nat)
    }
}

/// The next `n` keystream bytes emitted from state `s`.
pub open spec fn stream(s: CipherState, n: nat) -> Seq<u8>
    decreases n,
{
    if n == 0 {
        Seq::empty()
    } else {
        seq![cipher_step(s).1] + stream(cipher_step(s).0, (n - 1) as nat)
    }
}

/// Bytewise XOR of `a` against the same-length prefix of `k`.
pub open spec fn xor_with(a: Seq<u8>, k: Seq<u8>) -> Seq<u8>
    recommends
        k.len() >= a.len(),
{
    Seq::new(a.len(), |i: int| a[i] ^ k[i])
}

/// The 16 seed words: the key as eight little-endian words, then the iv.
pub open spec fn seed_of(key: Seq<u8>, iv: Seq<u8>) -> Seq<u32>
    recommends
        key.len() == 32,
        iv.len() == 32,
{
    Seq::new(
        16,
        |i: int|
            if i < 8 {
                le_word(key, i)
            } else {
                le_word(iv, i - 8)
            },
    )
}

/// The cipher state straight after construction: the warmed-up generator and
/// no pending byte.
pub open spec fn fresh_state(key: Seq<u8>, iv: Seq<u8>) -> CipherState {
    CipherState { gen: keyed_state(seed_of(key, iv)), pending: Seq::empty() }
}

/// `stream` emits exactly as many bytes as asked for.
pub proof fn lemma_stream_len(s: CipherState, n: nat)
    ensures
        stream(s, n).len() == n,
    decreases n,
{
    if n > 0 {
        lemma_stream_len(cipher_step(s).0, (n - 1) as nat);
    }
}

/// Asking for no bytes changes nothing and emits nothing.
pub proof fn lemma_zero_advance(s: CipherState)
    ensures
        advance(s, 0) == s,
        stream(s, 0) == Seq::<u8>::empty(),
{
}

/// One step of `advance` and `stream`, written out.
pub proof fn lemma_one_step(s: CipherState)
    ensures
        advance(s, 1) == cipher_step(s).0,
        stream(s, 1) =~= seq![cipher_step(s).1],
{
    assert(advance(s, 1) == advance(cipher_step(s).0, 0));
    assert(stream(s, 1) == seq![cipher_step(s).1] + stream(cipher_step(s).0, 0));
    assert(seq![cipher_step(s).1] + Seq::<u8>::empty() =~= seq![cipher_step(s).1]);
}

/// Emitting `m + k` keystream bytes is emitting `m`, then `k` more from the
/// state so reached: the keystream is the same however the request is split.
pub proof fn lemma_stream_split(s: CipherState, m: nat, k: nat)
    ensures
        advance(s, m + k) == advance(advance(s, m), k),
        stream(s, m + k) == stream(s, m) + stream(advance(s, m), k),
    decreases m,
{
    if m == 0 {
        assert(advance(s, 0) == s);
        assert(stream(s, 0) + stream(s, k) =~= stream(s, k));
    } else {
        let s1: CipherState = cipher_step(s).0;
        lemma_stream_split(s1, (m - 1) as nat, k);
        assert(advance(s, m + k) == advance(s1, (m + k - 1) as nat));
        assert(advance(s, m) == advance(s1, (m - 1) as nat));
        assert(stream(s, m + k) == seq![cipher_step(s).1] + stream(s1, (m + k - 1) as nat));
        assert(stream(s, m) == seq![cipher_step(s).1] + stream(s1, (m - 1) as nat));
        assert(stream(s, m + k) =~= stream(s, m) + stream(advance(s, m), k));
    }
}

/// With no pending byte, four keystream bytes are exactly one generator word
/// in little-endian order, and they leave no pending byte behind.
pub proof fn lemma_whole_word(s: CipherState)
    requires
        s.pending.len() == 0,
    ensures
        advance(s, 4) == (CipherState { gen: gen_update(s.gen), pending: Seq::<u8>::empty() }),
        stream(s, 4) =~= word_bytes(gen_output(s.gen)),
{
    let w: u32 = gen_output(s.gen);
    let wb: Seq<u8> = word_bytes(w);
    let s1: CipherState = cipher_step(s).0;
    let s2: CipherState = cipher_step(s1).0;
    let s3: CipherState = cipher_step(s2).0;
    let s4: CipherState = cipher_step(s3).0;
    assert(s1.pending =~= wb.subrange(1, 4));
    assert(s2.pending =~= wb.subrange(2, 4));
    assert(s3.pending =~= wb.subrange(3, 4));
    assert(s4.pending =~= Seq::<u8>::empty());
    assert(advance(s, 4) == advance(s1, 3));
    assert(advance(s1, 3) == advance(s2, 2));
    assert(advance(s2, 2) == advance(s3, 1));
    assert(advance(s3, 1) == advance(s4, 0));
    assert(s4 =~= (CipherState { gen: gen_update(s.gen), pending: Seq::<u8>::empty() }));
    assert(cipher_step(s).1 == wb[0]);
    assert(cipher_step(s1).1 == wb[1]);
    assert(cipher_step(s2).1 == wb[2]);
    assert(cipher_step(s3).1 == wb[3]);
    assert(stream(s, 4) == seq![wb[0]] + stream(s1, 3));
    assert(stream(s1, 3) == seq![wb[1]] + stream(s2, 2));
    assert(stream(s2, 2) == seq![wb[2]] + stream(s3, 1));
    assert(stream(s3, 1) == seq![wb[3]] + stream(s4, 0));
    assert(stream(s, 4) =~= wb);
}

/// XOR against the keystream is an involution: transforming a transform,
/// starting both times from the same state, gives the bytes back.
pub proof fn lemma_xor_involution(s: CipherState, m: Seq<u8>)
    ensures
        xor_with(xor_with(m, stream(s, m.len())), stream(s, m.len())) =~= m,
{
    lemma_stream_len(s, m.len());
    let k: Seq<u8> = stream(s, m.len());
    assert forall|i: int| 0 <= i < m.len() implies ((m[i] ^ k[i]) ^ k[i]) == m[i] by {
        let a: u8 = m[i];
        let b: u8 = k[i];
        assert(((a ^ b) ^ b) == a) by (bit_vector);
    }
}

/// Transforming a concatenation equals transforming the chunks in order on
/// the continuing state.
pub proof fn lemma_chunked_xor(s: CipherState, a: Seq<u8>, b: Seq<u8>)
    ensures
        xor_with(a + b, stream(s, a.len() + b.len())) =~= xor_with(a, stream(s, a.len()))
            + xor_with(b, stream(advance(s, a.len()), b.len())),
{
    lemma_stream_split(s, a.len(), b.len());
    lemma_stream_len(s, a.len());
    lemma_stream_len(advance(s, a.len()), b.len());
}

/// Construction and transform errors.
#[derive(Clone, Copy, Debug, PartialEq, Eq, Structural)]
pub enum Hc256Error {
    /// The key is not exactly 32 bytes.
    InvalidKeyLength,
    /// The iv is not exactly 32 bytes.
    InvalidIVLength,
    /// Input and output buffers differ in length.
    LengthMismatch,
}

/// The HC-256 stream cipher: a ready generator plus up to three keystream
/// bytes generated but not yet consumed. Copying it forks two fully
/// independent streams.
#[derive(Clone, Copy)]
pub struct HC256 {
    inner: Hc256Rng,
    buff: u32,
    count: usize,
}

impl View for HC256 {
    type V = CipherState;

    closed spec fn view(&self) -> CipherState {
        CipherState {
            gen: self.inner@,
            pending: word_bytes(self.buff).subrange(0, self.count as int),
        }
    }
}

impl HC256 {
    /// The generator is ready and at most three bytes are pending.
    pub closed spec fn wf(self) -> bool {
        self.inner.wf() && self.count <= 3
    }

    /// Builds a cipher from a 32-byte key and a 32-byte iv: decodes each into
    /// eight little-endian words, then expands and warms up the generator.
    pub fn new(key: &[u8], iv: &[u8]) -> (c: HC256)
        requires
            key@.len() == 32,
            iv@.len() == 32,
        ensures
            c.wf(),
            c@ == fresh_state(key@, iv@),
    {
        let mut kw: [u32; 8] = [0; 8];
        let mut vw: [u32; 8] = [0; 8];
        let mut i: usize = 0;
        while i < 8
            invariant
                i <= 8,
                key@.len() == 32,
                iv@.len() == 32,
                forall|j: int| 0 <= j < i ==> kw@[j] == le_word(key@, j),
                forall|j: int| 0 <= j < i ==> vw@[j] == le_word(iv@, j),
            decreases 8 - i,
        {
            kw[i] = read_le_word(key, i);
            vw[i] = read_le_word(iv, i);
            i += 1;
        }
        let inner = Hc256Rng::init(&kw, &vw);
        let c = HC256 { inner, buff: 0, count: 0 };
        proof {
            assert(kw@ + vw@ =~= seed_of(key@, iv@));
            assert(c@.pending =~= Seq::<u8>::empty());
            assert(c@ =~= fresh_state(key@, iv@));
        }
        c
    }

    /// Fallible construction: rejects a key, then an iv, that is not exactly
    /// 32 bytes.
    pub fn try_new(key: &[u8], iv: &[u8]) -> (r: Result<HC256, Hc256Error>)
        ensures
            r is Ok <==> key@.len() == 32 && iv@.len() == 32,
            key@.len() != 32 ==> r == Err::<HC256, Hc256Error>(Hc256Error::InvalidKeyLength),
            key@.len() == 32 && iv@.len() != 32 ==> r == Err::<HC256, Hc256Error>(
                Hc256Error::InvalidIVLength,
            ),
            r is Ok ==> r->Ok_0.wf() && r->Ok_0@ == fresh_state(key@, iv@),
    {
        if key.len() != 32 {
            Err(Hc256Error::InvalidKeyLength)
        } else if iv.len() != 32 {
            Err(Hc256Error::InvalidIVLength)
        } else {
            Ok(HC256::new(key, iv))
        }
    }

    /// Emits one keystream byte, generating a fresh word when none is pending.
    fn next_byte(&mut self) -> (b: u8)
        requires
            old(self).wf(),
        ensures
            final(self).wf(),
            final(self)@ == cipher_step(old(self)@).0,
            b == cipher_step(old(self)@).1,
    {
        if self.count == 0 {
            proof {
                assert(old(self)@.pending =~= Seq::<u8>::empty());
            }
            self.buff = self.inner.gen();
            self.count = 4;
        }
        proof {
            lemma_byte_masks(self.buff);
        }
        let b: u8 = (self.buff & 0xff) as u8;
        let ghost w: u32 = self.buff;
        let ghost cnt: int = self.count as int;
        self.buff = self.buff >> 8;
        self.count = self.count - 1;
        proof {
            lemma_pending_shift(w, cnt);
            if old(self).count == 0 {
                assert(w == gen_output(old(self)@.gen));
                assert(self@.pending =~= word_bytes(w).subrange(1, 4));
                assert(b == word_bytes(w)[0]);
            } else {
                assert(old(self)@.pending =~= word_bytes(w).subrange(0, cnt));
                assert(old(self)@.pending.subrange(1, cnt) =~= word_bytes(w).subrange(1, cnt));
                assert(self@.pending =~= word_bytes(w).subrange(1, cnt));
                assert(b == old(self)@.pending[0]);
            }
            assert(self@ =~= cipher_step(old(self)@).0);
        }
        b
    }

    /// In-place XOR transform: `output[k] = input[k] XOR keystream byte`, the
    /// keystream continuing across calls. Pending bytes are consumed first,
    /// then whole generator words; a trailing part of the last word is kept
    /// for the next call.
    pub fn process(&mut self, input: &[u8], output: &mut [u8])
        requires
            old(self).wf(),
            input@.len() == old(output)@.len(),
        ensures
            final(self).wf(),
            final(output)@.len() == input@.len(),
            final(self)@ == advance(old(self)@, input@.len()),
            final(output)@ == xor_with(input@, stream(old(self)@, input@.len())),
    {
        let ghost s0: CipherState = self@;
        let n: usize = input.len();
        let mut pos: usize = 0;

        while pos < n && self.count != 0
            invariant
                self.wf(),
                pos <= n,
                n == input@.len(),
                output@.len() == n,
                self@ == advance(s0, pos as nat),
                forall|j: int| 0 <= j < pos ==> output@[j] == (input@[j] ^ stream(
                    s0,
                    pos as nat,
                )[j]),
            decreases n - pos,
        {
            proof {
                lemma_stream_split(s0, pos as nat, 1);
                lemma_one_step(advance(s0, pos as nat));
                lemma_stream_len(s0, pos as nat);
                lemma_stream_len(s0, (pos + 1) as nat);
            }
            let b: u8 = self.next_byte();
            output[pos] = input[pos] ^ b;
            pos += 1;
        }

        while n - pos >= 4
            invariant
                self.wf(),
                pos <= n,
                n == input@.len(),
                output@.len() == n,
                self@ == advance(s0, pos as nat),
                n - pos >= 4 ==> self.count == 0,
                forall|j: int| 0 <= j < pos ==> output@[j] == (input@[j] ^ stream(
                    s0,
                    pos as nat,
                )[j]),
            decreases n - pos,
        {
            proof {
                lemma_stream_split(s0, pos as nat, 4);
                lemma_stream_len(s0, pos as nat);
                lemma_stream_len(s0, (pos + 4) as nat);
                assert(self@.pending =~= Seq::<u8>::empty());
                lemma_whole_word(advance(s0, pos as nat));
            }
            let w: u32 = self.inner.gen();
            proof {
                lemma_byte_masks(w);
            }
            output[pos] = input[pos] ^ ((w & 0xff) as u8);
            output[pos + 1] = input[pos + 1] ^ (((w >> 8) & 0xff) as u8);
            output[pos + 2] = input[pos + 2] ^ (((w >> 16) & 0xff) as u8);
            output[pos + 3] = input[pos + 3] ^ (((w >> 24) & 0xff) as u8);
            proof {
                assert(self@ =~= advance(s0, (pos + 4) as nat));
            }
            pos += 4;
        }

        while pos < n
            invariant
                self.wf(),
                pos <= n,
                n == input@.len(),
                output@.len() == n,
                self@ == advance(s0, pos as nat),
                forall|j: int| 0 <= j < pos ==> output@[j] == (input@[j] ^ stream(
                    s0,
                    pos as nat,
                )[j]),
            decreases n - pos,
        {
            proof {
                lemma_stream_split(s0, pos as nat, 1);
                lemma_one_step(advance(s0, pos as nat));
                lemma_stream_len(s0, pos as nat);
                lemma_stream_len(s0, (pos + 1) as nat);
            }
            let b: u8 = self.next_byte();
            output[pos] = input[pos] ^ b;
            pos += 1;
        }

        proof {
            lemma_stream_len(s0, n as nat);
            assert(output@ =~= xor_with(input@, stream(s0, n as nat)));
        }
    }

    /// Fallible transform: rejects buffers of unequal length; on a mismatch
    /// nothing is generated and nothing is written.
    pub fn try_process(&mut self, input: &[u8], output: &mut [u8]) -> (r: Result<
        (),
        Hc256Error,
    >)
        requires
            old(self).wf(),
        ensures
            final(self).wf(),
            r is Ok <==> input@.len() == old(output)@.len(),
            input@.len() != old(output)@.len() ==> r == Err::<(), Hc256Error>(
                Hc256Error::LengthMismatch,
            ) && *final(self) == *old(self) && final(output)@ == old(output)@,
            r is Ok ==> final(self)@ == advance(old(self)@, input@.len()) && final(output)@
                == xor_with(input@, stream(old(self)@, input@.len())),
    {
        if input.len() != output.len() {
            Err(Hc256Error::LengthMismatch)
        } else {
            self.process(input, output);
            Ok(())
        }
    }
}

} // verus!
