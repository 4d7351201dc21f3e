use felix_kernel::random::{collect_seed, fill_bytes, quarter_round, splitmix64, RandomState};

#[test]
fn quarter_round_matches_the_chacha_test_vector() {
    let mut x = [0u32; 16];
    x[0] = 0x1111_1111;
    x[1] = 0x0102_0304;
    x[2] = 0x9b8d_6f43;
    x[3] = 0x0123_4567;
    quarter_round(&mut x, 0, 1, 2, 3);
    assert_eq!(x[0], 0xea2a_92f4);
    assert_eq!(x[1], 0xcb1c_f8ce);
    assert_eq!(x[2], 0x4581_472e);
    assert_eq!(x[3], 0x5881_c4bb);
}

#[test]
fn block_matches_the_chacha20_test_vector() {
    let mut rng = RandomState::new();
    for i in 0..8 {
        let b = (4 * i) as u32;
        rng.key[i] = b | ((b + 1) << 8) | ((b + 2) << 16) | ((b + 3) << 24);
    }
    rng.counter = 1;
    rng.nonce = [0x0900_0000, 0x4a00_0000, 0];
    let out = rng.block();
    let expected: [u8; 64] = [
        0x10, 0xf1, 0xe7, 0xe4, 0xd1, 0x3b, 0x59, 0x15, 0x50, 0x0f, 0xdd, 0x1f, 0xa3, 0x20, 0x71, 0xc4, 0xc7, 0xd1,
        0xf4, 0xc7, 0x33, 0xc0, 0x68, 0x03, 0x04, 0x22, 0xaa, 0x9a, 0xc3, 0xd4, 0x6c, 0x4e, 0xd2, 0x82, 0x64, 0x46,
        0x07, 0x9f, 0xaa, 0x09, 0x14, 0xc2, 0xd7, 0x05, 0xd9, 0x8b, 0x02, 0xa2, 0xb5, 0x12, 0x9c, 0xd1, 0xde, 0x16,
        0x4e, 0xb9, 0xcb, 0xd0, 0x83, 0xe8, 0xa2, 0x50, 0x3c, 0x4e,
    ];
    assert_eq!(out, expected);
    assert_eq!(rng.counter, 2);
}

#[test]
fn splitmix_matches_reference_outputs() {
    let mut s = 0u64;
    assert_eq!(splitmix64(&mut s), 0xE220_A839_7B1D_CDAF);
    assert_eq!(splitmix64(&mut s), 0x6E78_9E6A_A1B9_65F4);
    assert_eq!(splitmix64(&mut s), 0x06C4_5D18_8009_454F);
}

#[test]
fn zero_seed_is_replaced() {
    assert_eq!(collect_seed(0, 0, 0, 0, &[]), 0xD1B5_4A32_D192_ED03);
    assert_eq!(collect_seed(5, 0, 0, 0, &[]), 5);
}

#[test]
fn seeding_draws_key_nonce_and_counter_from_splitmix() {
    let mut rng = RandomState::new();
    rng.initialize(42);
    let mut s = 42u64;
    for i in 0..8 {
        let v = splitmix64(&mut s);
        assert_eq!(rng.key[i], (v as u32) ^ ((v >> 32) as u32));
    }
    let n0 = splitmix64(&mut s);
    let n1 = splitmix64(&mut s);
    assert_eq!(rng.nonce, [n0 as u32, (n0 >> 32) as u32, n1 as u32]);
    assert_eq!(rng.counter, splitmix64(&mut s));
    assert!(rng.initialized);
}

#[test]
fn fill_emits_keystream_then_rekeys() {
    let mut rng = RandomState::new();
    let mut out = vec![0u8; 100];
    fill_bytes(&mut rng, &mut out, 42, 1000, 77, 5000);

    let mut twin = RandomState::new();
    twin.initialize(42);
    twin.stir_timing(1000, 77, 5000);
    let key_before = twin.key;
    let b1 = twin.block();
    let b2 = twin.block();
    let mut expected = b1.to_vec();
    expected.extend_from_slice(&b2[..36]);
    assert_eq!(out, expected);
    let rekey = twin.block();
    for i in 0..8 {
        let w = u32::from_le_bytes([rekey[4 * i], rekey[4 * i + 1], rekey[4 * i + 2], rekey[4 * i + 3]]);
        assert_eq!(rng.key[i], key_before[i] ^ w);
    }
    assert_eq!(rng.counter, twin.counter);
}

#[test]
fn empty_request_changes_nothing() {
    let mut rng = RandomState::new();
    let mut out: Vec<u8> = Vec::new();
    fill_bytes(&mut rng, &mut out, 42, 1, 2, 3);
    assert!(out.is_empty());
    assert!(!rng.initialized);
    assert_eq!(rng.counter, 0);
}
