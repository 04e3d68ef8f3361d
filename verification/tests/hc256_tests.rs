use hc256::{Hc256Rng, HC256, Hc256Error, u8_to_u32, u32_to_u8};

const VECTOR_A: [u8; 32] = [
    0x5b, 0x07, 0x89, 0x85, 0xd8, 0xf6, 0xf3, 0x0d, 0x42, 0xc5, 0xc0, 0x2f, 0xa6, 0xb6, 0x79,
    0x51, 0x53, 0xf0, 0x65, 0x34, 0x80, 0x1f, 0x89, 0xf2, 0x4e, 0x74, 0x24, 0x8b, 0x72, 0x0b,
    0x48, 0x18,
];

const VECTOR_B: [u8; 32] = [
    0xaf, 0xe2, 0xa2, 0xbf, 0x4f, 0x17, 0xce, 0xe9, 0xfe, 0xc2, 0x05, 0x8b, 0xd1, 0xb1, 0x8b,
    0xb1, 0x5f, 0xc0, 0x42, 0xee, 0x71, 0x2b, 0x31, 0x01, 0xdd, 0x50, 0x1f, 0xc6, 0x0b, 0x08,
    0x2a, 0x50,
];

const VECTOR_C: [u8; 32] = [
    0x1c, 0x40, 0x4a, 0xfe, 0x4f, 0xe2, 0x5f, 0xed, 0x95, 0x8f, 0x9a, 0xd1, 0xae, 0x36, 0xc0,
    0x6f, 0x88, 0xa6, 0x5a, 0x3c, 0xc0, 0xab, 0xe2, 0x23, 0xae, 0xb3, 0x90, 0x2f, 0x42, 0x0e,
    0xd3, 0xa8,
];

#[test]
fn lib_test() {
    let mut output = [0; 32];

    HC256::new(&[0; 32], &[0; 32]).process(&[0; 32], &mut output);
    assert_eq!(
        output,
        [
            0x5b, 0x07, 0x89, 0x85, 0xd8, 0xf6, 0xf3, 0x0d, 0x42, 0xc5, 0xc0, 0x2f, 0xa6, 0xb6,
            0x79, 0x51, 0x53, 0xf0, 0x65, 0x34, 0x80, 0x1f, 0x89, 0xf2, 0x4e, 0x74, 0x24, 0x8b,
            0x72, 0x0b, 0x48, 0x18
        ]
    );

    let mut iv = [0; 32];
    iv[0] = 1;
    HC256::new(&[0; 32], &iv).process(&[0; 32], &mut output);
    assert_eq!(
        output,
        [
            0xaf, 0xe2, 0xa2, 0xbf, 0x4f, 0x17, 0xce, 0xe9, 0xfe, 0xc2, 0x05, 0x8b, 0xd1, 0xb1,
            0x8b, 0xb1, 0x5f, 0xc0, 0x42, 0xee, 0x71, 0x2b, 0x31, 0x01, 0xdd, 0x50, 0x1f, 0xc6,
            0x0b, 0x08, 0x2a, 0x50
        ]
    );

    let mut key = [0; 32];
    key[0] = 0x55;
    HC256::new(&key, &[0; 32]).process(&[0; 32], &mut output);
    assert_eq!(
        output,
        [
            0x1c, 0x40, 0x4a, 0xfe, 0x4f, 0xe2, 0x5f, 0xed, 0x95, 0x8f, 0x9a, 0xd1, 0xae, 0x36,
            0xc0, 0x6f, 0x88, 0xa6, 0x5a, 0x3c, 0xc0, 0xab, 0xe2, 0x23, 0xae, 0xb3, 0x90, 0x2f,
            0x42, 0x0e, 0xd3, 0xa8
        ]
    );

    let mut key = [0; 32];
    key[0] = 0x55;
    let mut cipher = HC256::new(&key, &[0; 32]);
    cipher.process(&[0; 11], &mut output[..11]);
    cipher.process(&[0; 21], &mut output[11..]);
    assert_eq!(
        output,
        [
            0x1c, 0x40, 0x4a, 0xfe, 0x4f, 0xe2, 0x5f, 0xed, 0x95, 0x8f, 0x9a, 0xd1, 0xae, 0x36,
            0xc0, 0x6f, 0x88, 0xa6, 0x5a, 0x3c, 0xc0, 0xab, 0xe2, 0x23, 0xae, 0xb3, 0x90, 0x2f,
            0x42, 0x0e, 0xd3, 0xa8
        ]
    );
}

#[test]
fn ops_test() {
    let mut rng = Hc256Rng::init(&[0; 8], &[0; 8]);
    assert_eq!(rng.gen(), 2240350043);
}

#[test]
fn raw_word_matches_first_keystream_bytes() {
    // The first generator word, split little-endian, is the start of vector A.
    let mut rng = Hc256Rng::init(&[0; 8], &[0; 8]);
    let w: u32 = rng.gen();
    assert_eq!(w.to_le_bytes(), [VECTOR_A[0], VECTOR_A[1], VECTOR_A[2], VECTOR_A[3]]);
}

#[test]
fn involution_recovers_plaintext() {
    let mut key = [0u8; 32];
    let mut iv = [0u8; 32];
    for i in 0..32 {
        key[i] = (i as u8).wrapping_mul(37).wrapping_add(5);
        iv[i] = (i as u8).wrapping_mul(11).wrapping_add(190);
    }
    let plaintext: Vec<u8> = (0..57u8).map(|i| i.wrapping_mul(73).wrapping_add(29)).collect();

    let mut ciphertext = vec![0u8; plaintext.len()];
    HC256::new(&key, &iv).process(&plaintext, &mut ciphertext);
    assert_ne!(ciphertext, plaintext);

    let mut recovered = vec![0u8; plaintext.len()];
    HC256::new(&key, &iv).process(&ciphertext, &mut recovered);
    assert_eq!(recovered, plaintext);
}

#[test]
fn partition_invariance() {
    let mut key = [0u8; 32];
    key[7] = 0xab;
    let iv = [0x3cu8; 32];
    let plaintext: Vec<u8> = (0..40u8).map(|i| i.wrapping_mul(19).wrapping_add(3)).collect();

    let mut whole = vec![0u8; 40];
    HC256::new(&key, &iv).process(&plaintext, &mut whole);

    // One byte at a time.
    let mut bytewise = vec![0u8; 40];
    let mut cipher = HC256::new(&key, &iv);
    for i in 0..40 {
        cipher.process(&plaintext[i..i + 1], &mut bytewise[i..i + 1]);
    }
    assert_eq!(bytewise, whole);

    // Uneven chunks.
    let mut chunked = vec![0u8; 40];
    let mut cipher = HC256::new(&key, &iv);
    cipher.process(&plaintext[..3], &mut chunked[..3]);
    cipher.process(&plaintext[3..20], &mut chunked[3..20]);
    cipher.process(&plaintext[20..20], &mut chunked[20..20]);
    cipher.process(&plaintext[20..], &mut chunked[20..]);
    assert_eq!(chunked, whole);
}

#[test]
fn zero_length_process_changes_nothing() {
    let mut cipher = HC256::new(&[0; 32], &[0; 32]);
    cipher.process(&[], &mut []);
    let mut output = [0u8; 32];
    cipher.process(&[0; 32], &mut output);
    assert_eq!(output, VECTOR_A);
}

#[test]
fn four_byte_calls_stay_word_aligned() {
    let mut cipher = HC256::new(&[0; 32], &[0; 32]);
    let mut output = [0u8; 32];
    for i in 0..8 {
        cipher.process(&[0; 4], &mut output[4 * i..4 * i + 4]);
    }
    assert_eq!(output, VECTOR_A);
}

#[test]
fn try_new_rejects_bad_lengths() {
    assert_eq!(HC256::try_new(&[0; 31], &[0; 32]).err(), Some(Hc256Error::InvalidKeyLength));
    assert_eq!(HC256::try_new(&[0; 33], &[0; 32]).err(), Some(Hc256Error::InvalidKeyLength));
    assert_eq!(HC256::try_new(&[0; 32], &[0; 31]).err(), Some(Hc256Error::InvalidIVLength));
    assert_eq!(HC256::try_new(&[0; 32], &[0; 0]).err(), Some(Hc256Error::InvalidIVLength));
    // The key is checked first.
    assert_eq!(HC256::try_new(&[0; 31], &[0; 31]).err(), Some(Hc256Error::InvalidKeyLength));
}

#[test]
fn try_new_accepts_exact_lengths() {
    let mut key = [0u8; 32];
    key[0] = 0x55;
    let mut cipher = HC256::try_new(&key, &[0; 32]).ok().unwrap();
    let mut output = [0u8; 32];
    cipher.process(&[0; 32], &mut output);
    assert_eq!(output, VECTOR_C);
}

#[test]
fn try_process_rejects_length_mismatch() {
    let mut cipher = HC256::try_new(&[0; 32], &[0; 32]).ok().unwrap();
    let mut short = [7u8; 3];
    assert_eq!(cipher.try_process(&[0; 4], &mut short), Err(Hc256Error::LengthMismatch));
    assert_eq!(short, [7u8; 3]);
    // The failed call consumed no keystream.
    let mut output = [0u8; 32];
    assert_eq!(cipher.try_process(&[0; 32], &mut output), Ok(()));
    assert_eq!(output, VECTOR_A);
}

#[test]
fn cloned_cipher_forks_an_independent_stream() {
    let mut iv = [0u8; 32];
    iv[0] = 1;
    let mut cipher = HC256::new(&[0; 32], &iv);
    let mut head = [0u8; 5];
    cipher.process(&[0; 5], &mut head);
    assert_eq!(&head[..], &VECTOR_B[..5]);

    let mut forked = cipher.clone();
    let mut rest_a = [0u8; 27];
    let mut rest_b = [0u8; 27];
    cipher.process(&[0; 27], &mut rest_a);
    forked.process(&[0; 27], &mut rest_b);
    assert_eq!(&rest_a[..], &VECTOR_B[5..]);
    assert_eq!(&rest_b[..], &VECTOR_B[5..]);
}

#[test]
fn u8_to_u32_reads_little_endian_words() {
    let bytes = [0x78, 0x56, 0x34, 0x12, 0xff, 0x00, 0x00, 0x80];
    let mut words = [0u32; 2];
    u8_to_u32(&bytes, &mut words);
    assert_eq!(words, [0x12345678, 0x800000ff]);
}

#[test]
fn u32_to_u8_writes_little_endian_bytes() {
    let mut bytes = [0xaau8; 6];
    u32_to_u8(0x12345678, &mut bytes);
    assert_eq!(bytes, [0x78, 0x56, 0x34, 0x12, 0xaa, 0xaa]);
}
