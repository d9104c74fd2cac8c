use mobaxterm_keygen::cipher::{encrypt_decrypt_bytes, INITIAL_KEY};
use mobaxterm_keygen::encoder::{process_block_encode, variant_base64_dict, variant_base64_encode};
use mobaxterm_keygen::encode_record;

const DATA_SYMBOLS: &[u8] = b"ABCDEFGHIJKLMNOPQRSTUVWXYZabcdefghijklmnopqrstuvwxyz0123456789+/";

fn expected_len(n: usize) -> usize {
    4 * (n / 3) + [0, 2, 3][n % 3]
}

#[test]
fn encode_empty_is_empty() {
    assert_eq!(variant_base64_encode(vec![]), Vec::<u8>::new());
}

#[test]
fn encode_single_zero_byte() {
    assert_eq!(variant_base64_encode(vec![0x00]), b"AA".to_vec());
}

#[test]
fn encode_exact_values() {
    assert_eq!(variant_base64_encode(vec![1, 2, 3]), b"BIwA".to_vec());
    assert_eq!(variant_base64_encode(vec![255, 255]), b"//P".to_vec());
    assert_eq!(variant_base64_encode(vec![255, 255, 255]), b"////".to_vec());
    assert_eq!(variant_base64_encode(b"Man".to_vec()), b"NFmb".to_vec());
    assert_eq!(variant_base64_encode(vec![1, 2, 3, 0]), b"BIwAAA".to_vec());
}

#[test]
fn encrypt_single_zero_byte() {
    let mut key: u16 = 0x0787;
    let out = encrypt_decrypt_bytes(&mut key, &[0x00], true);
    assert_eq!(out, vec![0x07]);
    assert_eq!(key, (0x07 & 0x0787) | 0x482D);
    assert_eq!(key, 18479);
}

#[test]
fn encrypt_several_bytes() {
    let mut key: u16 = INITIAL_KEY;
    let out = encrypt_decrypt_bytes(&mut key, &[1, 2, 3, 250], true);
    assert_eq!(out, vec![6, 74, 75, 178]);
    assert_eq!(key, 18479);
}

#[test]
fn decrypt_mode_folds_input_byte_into_key() {
    let mut key: u16 = 0xFFFF;
    let out = encrypt_decrypt_bytes(&mut key, &[0x00, 0x00], false);
    assert_eq!(out, vec![0xFF, 0x48]);
    assert_eq!(key, 0x482D);
}

#[test]
fn encrypt_empty_keeps_key() {
    let mut key: u16 = 0x1234;
    let out = encrypt_decrypt_bytes(&mut key, &[], true);
    assert!(out.is_empty());
    assert_eq!(key, 0x1234);
}

#[test]
fn cipher_round_trip() {
    let inputs: Vec<Vec<u8>> = vec![
        vec![],
        vec![0],
        b"1#alice|107#3107366#0#0#0#".to_vec(),
        (0..=255u8).collect(),
    ];
    for k in [0u16, 0x0787, 0xFFFF, 0x1234] {
        for input in &inputs {
            let mut k1 = k;
            let enc = encrypt_decrypt_bytes(&mut k1, input, true);
            let mut k2 = k;
            let dec = encrypt_decrypt_bytes(&mut k2, &enc, false);
            assert_eq!(&dec, input);
        }
    }
}

#[test]
fn cipher_keeps_length() {
    for n in 0..20usize {
        let input: Vec<u8> = (0..n).map(|i| (i * 37) as u8).collect();
        for mode in [true, false] {
            let mut key: u16 = 0xBEEF;
            assert_eq!(encrypt_decrypt_bytes(&mut key, &input, mode).len(), n);
        }
    }
}

#[test]
fn encode_block_length_law() {
    for n in 0..30usize {
        let input: Vec<u8> = (0..n).map(|i| (i * 91 + 7) as u8).collect();
        assert_eq!(variant_base64_encode(input).len(), expected_len(n));
    }
}

#[test]
fn encode_alphabet_closure() {
    let input: Vec<u8> = (0..=255u8).chain((0..=255u8).rev()).collect();
    let out = variant_base64_encode(input);
    assert!(!out.is_empty());
    assert!(out.iter().all(|c| DATA_SYMBOLS.contains(c)));
    assert!(!out.contains(&b'='));
}

#[test]
fn pipeline_is_deterministic() {
    let text = "3#bob|107#2#103767#0#0#0#";
    assert_eq!(encode_record(text), encode_record(text));
    let mut k1: u16 = 0x0787;
    let mut k2: u16 = 0x0787;
    let a = encrypt_decrypt_bytes(&mut k1, b"same input", true);
    let b = encrypt_decrypt_bytes(&mut k2, b"same input", true);
    assert_eq!(a, b);
    assert_eq!(k1, k2);
}

#[test]
fn encode_record_golden() {
    assert_eq!(
        encode_record("1#alice|107#3107366#0#0#0#"),
        b"2sWKkEyKtQTe493a7lHe/tnf+tGerh3a4tG".to_vec()
    );
}

#[test]
fn encode_record_empty() {
    assert!(encode_record("").is_empty());
}

#[test]
fn dictionary_is_the_symbol_table() {
    assert_eq!(
        variant_base64_dict(),
        b"ABCDEFGHIJKLMNOPQRSTUVWXYZabcdefghijklmnopqrstuvwxyz0123456789+/=".to_vec()
    );
}

#[test]
fn block_encode_values() {
    let dict = variant_base64_dict();
    let bytes = [9u8, 1, 2, 3, 255, 255];
    assert_eq!(process_block_encode(1, 3, &dict, &bytes), b"BIwA".to_vec());
    assert_eq!(process_block_encode(4, 2, &dict, &bytes), b"//P".to_vec());
    assert_eq!(process_block_encode(0, 1, &dict, &bytes), b"JA".to_vec());
}
