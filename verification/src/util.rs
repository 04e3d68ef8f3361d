use vstd::prelude::*;

verus! {

/// The four bytes of a 32-bit word, least significant first.
pub open spec fn word_bytes(w: u32) -> Seq<u8> {
    seq![
        (w & 0xff) as u8,
        ((w >> 8) & 0xff) as u8,
        ((w >> 16) & 0xff) as u8,
        ((w >> 24) & 0xff) as u8,
    ]
}

/// The 32-bit word stored little-endian at byte offset `4 * k` of `b`.
pub open spec fn le_word(b: Seq<u8>, k: int) -> u32 {
    (b[4 * k] as u32) | ((b[4 * k + 1] as u32) << 8) | ((b[4 * k + 2] as u32) << 16) | ((b[4 * k
        + 3] as u32) << 24)
}

/// Each byte extracted from a word by mask and shift fits in eight bits.
pub proof fn lemma_byte_masks(w: u32)
    ensures
        w & 0xff < 256,
        (w >> 8) & 0xff < 256,
        (w >> 16) & 0xff < 256,
        (w >> 24) & 0xff < 256,
{
    assert((w & 0xff) < 256 && ((w >> 8) & 0xff) < 256 && ((w >> 16) & 0xff) < 256 && ((w >> 24)
        & 0xff) < 256) by (bit_vector);
}

/// Shifting a word right by eight bits moves each remaining byte down one place.
pub proof fn lemma_shifted_bytes(w: u32)
    ensures
        ((w >> 8) >> 8) & 0xff == (w >> 16) & 0xff,
        ((w >> 8) >> 16) & 0xff == (w >> 24) & 0xff,
{
    assert((((w >> 8) >> 8) & 0xff == (w >> 16) & 0xff) && (((w >> 8) >> 16) & 0xff == (w >> 24)
        & 0xff)) by (bit_vector);
}

/// After a word is shifted right by eight bits, its first `count - 1` bytes
/// are the original word's bytes moved one place down.
pub proof fn lemma_pending_shift(w: u32, count: int)
    requires
        1 <= count <= 4,
    ensures
        word_bytes(w >> 8).subrange(0, count - 1) =~= word_bytes(w).subrange(1, count),
{
    lemma_shifted_bytes(w);
    assert forall|j: int| 0 <= j < count - 1 implies word_bytes(w >> 8)[j] == word_bytes(w)[j
        + 1] by {
        if j == 1 {
            assert(word_bytes(w >> 8)[1] == word_bytes(w)[2]);
        } else if j == 2 {
            assert(word_bytes(w >> 8)[2] == word_bytes(w)[3]);
        }
    }
}

/// Reads the 32-bit little-endian word at byte offset `4 * k` of `b`.
pub fn read_le_word(b: &[u8], k: usize) -> (r: u32)
    requires
        4 * k + 4 <= b@.len(),
    ensures
        r == le_word(b@, k as int),
{
    // Pins the slice length to a machine word, so the offsets below fit.
    let _n: usize = b.len();
    let i: usize = 4 * k;
    (b[i] as u32) | ((b[i + 1] as u32) << 8) | ((b[i + 2] as u32) << 16) | ((b[i + 3] as u32)
        << 24)
}

/// Decodes consecutive 4-byte little-endian groups of `input` into `output`.
pub fn u8_to_u32(input: &[u8], output: &mut [u32])
    requires
        4 * old(output)@.len() <= input@.len(),
    ensures
        final(output)@.len() == old(output)@.len(),
        forall|i: int| 0 <= i < final(output)@.len() ==> final(output)@[i] == le_word(input@, i),
{
    let n = output.len();
    let mut i: usize = 0;
    while i < n
        invariant
            i <= n,
            n == output@.len(),
            output@.len() == old(output)@.len(),
            4 * output@.len() <= input@.len(),
            forall|j: int| 0 <= j < i ==> output@[j] == le_word(input@, j),
        decreases n - i,
    {
        let v = read_le_word(input, i);
        output[i] = v;
        i += 1;
    }
}

/// Writes the word into the first four bytes of `output`, little-endian;
/// later bytes are left as they were.
pub fn u32_to_u8(input: u32, output: &mut [u8])
    requires
        4 <= old(output)@.len(),
    ensures
        final(output)@.len() == old(output)@.len(),
        forall|j: int| 0 <= j < 4 ==> final(output)@[j] == word_bytes(input)[j],
        forall|j: int| 4 <= j < final(output)@.len() ==> final(output)@[j] == old(output)@[j],
{
    proof {
        lemma_byte_masks(input);
    }
    output[0] = (input & 0xff) as u8;
    output[1] = ((input >> 8) & 0xff) as u8;
    output[2] = ((input >> 16) & 0xff) as u8;
    output[3] = ((input >> 24) & 0xff) as u8;
}

} // verus!
