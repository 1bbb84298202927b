use rustfl::field::{mul_mod, small_inverse, FIELD_P};
use rustfl::codec::{encode_share, decode_share, encode_weight, decode_weight};
use rustfl::cipher::{ShareCipher, encrypt_share, decrypt_share};
use rustfl::errors::{CryptoError, ShamirError};
use rustfl::shamir::{secret_share_weights, combine};

fn reconstruct(shares: &[(u64, Vec<u64>)], threshold: usize) -> Vec<u64> {
    let subset: Vec<(u64, Vec<u64>)> = shares.iter().cloned().collect();
    combine(&subset, threshold).expect("reconstruction must succeed")
}

#[test]
fn small_inverses_are_inverses() {
    let mut d: u64 = 1;
    while d <= 16 {
        assert_eq!(mul_mod(d, small_inverse(d)), 1);
        d += 1;
    }
}

#[test]
fn split_roundtrip_threshold_one() {
    let secret: Vec<u64> = vec![5, 10, 0, FIELD_P - 1];
    let shares = secret_share_weights(&secret, 1, 1).unwrap();
    assert_eq!(shares.len(), 1);
    // A threshold-one share is the secret itself.
    assert_eq!(shares[0], secret);
    let got = reconstruct(&[(1, shares[0].clone())], 1);
    assert_eq!(got, secret);
}

#[test]
fn split_roundtrip_two_of_three() {
    let secret: Vec<u64> = vec![42, 0, 4242424242, 7];
    let shares = secret_share_weights(&secret, 3, 2).unwrap();
    assert_eq!(shares.len(), 3);
    for share in &shares {
        assert_eq!(share.len(), secret.len());
    }
    // Any two of the three shares reconstruct exactly.
    let s12 = reconstruct(&[(1, shares[0].clone()), (2, shares[1].clone())], 2);
    let s13 = reconstruct(&[(1, shares[0].clone()), (3, shares[2].clone())], 2);
    let s23 = reconstruct(&[(2, shares[1].clone()), (3, shares[2].clone())], 2);
    let s21 = reconstruct(&[(3, shares[2].clone()), (1, shares[0].clone())], 2);
    assert_eq!(s12, secret);
    assert_eq!(s13, secret);
    assert_eq!(s23, secret);
    assert_eq!(s21, secret);
}

#[test]
fn split_roundtrip_three_of_five() {
    let secret: Vec<u64> = vec![1000000, 2500000, 123456789];
    let shares = secret_share_weights(&secret, 5, 3).unwrap();
    let got = reconstruct(
        &[
            (2, shares[1].clone()),
            (4, shares[3].clone()),
            (5, shares[4].clone()),
        ],
        3,
    );
    assert_eq!(got, secret);
}

#[test]
fn split_rejects_bad_parameters() {
    let secret: Vec<u64> = vec![1, 2];
    assert_eq!(
        secret_share_weights(&secret, 3, 0).unwrap_err(),
        ShamirError::InvalidParameters
    );
    assert_eq!(
        secret_share_weights(&secret, 2, 3).unwrap_err(),
        ShamirError::InvalidParameters
    );
    assert_eq!(
        secret_share_weights(&secret, 17, 2).unwrap_err(),
        ShamirError::TooManyShares
    );
}

#[test]
fn combine_rejects_bad_subsets() {
    let v = vec![1u64, 2, 3];
    let w = vec![1u64, 2];
    assert_eq!(
        combine(&vec![(1, v.clone()), (1, v.clone())], 2).unwrap_err(),
        ShamirError::DuplicateShareIndex
    );
    assert_eq!(
        combine(&vec![(0, v.clone()), (2, v.clone())], 2).unwrap_err(),
        ShamirError::BadShareIndex
    );
    assert_eq!(
        combine(&vec![(1, v.clone()), (2, w.clone())], 2).unwrap_err(),
        ShamirError::LengthMismatch
    );
    assert_eq!(
        combine(&vec![(1, v.clone()), (2, v.clone())], 3).unwrap_err(),
        ShamirError::InvalidParameters
    );
    assert_eq!(
        combine(&vec![(1, vec![FIELD_P]), (2, vec![0])], 2).unwrap_err(),
        ShamirError::ShareValueOutOfField
    );
}

#[test]
fn single_share_spreads_over_the_field() {
    // With threshold two, shareholder one's value is secret + c for a fresh
    // uniform coefficient c each split: across many splits of the same
    // secret the share takes many different values, so one share alone
    // pins the secret down not at all.
    let secret: Vec<u64> = vec![7];
    let mut seen: Vec<u64> = Vec::new();
    for _ in 0..200 {
        let shares = secret_share_weights(&secret, 3, 2).unwrap();
        seen.push(shares[0][0]);
    }
    seen.sort();
    seen.dedup();
    assert!(seen.len() > 150, "share values barely vary: {}", seen.len());
}

#[test]
fn weight_encoding_roundtrip() {
    for w in [0i64, 1, -1, 1000000, -1000000, 2147483645, -2147483645] {
        let e = encode_weight(w).unwrap();
        assert!(e < FIELD_P);
        assert_eq!(decode_weight(e), w);
    }
    assert!(encode_weight(2147483646).is_none());
    assert!(encode_weight(-2147483646).is_none());
}

#[test]
fn share_framing_exact_bytes() {
    let bytes = encode_share(&vec![1u64, 0x01020304]);
    assert_eq!(
        bytes,
        vec![1, 0, 0, 0, 0, 0, 0, 0, 4, 3, 2, 1, 0, 0, 0, 0]
    );
    let back = decode_share(&bytes).unwrap();
    assert_eq!(back, vec![1u64, 0x01020304]);
}

#[test]
fn share_framing_rejects_garbage() {
    assert_eq!(
        decode_share(&vec![1, 2, 3]).unwrap_err(),
        CryptoError::MalformedShare
    );
    // The field prime itself is not a field element.
    let not_an_element = vec![0xFB, 0xFF, 0xFF, 0xFF, 0, 0, 0, 0];
    assert_eq!(
        decode_share(&not_an_element).unwrap_err(),
        CryptoError::MalformedShare
    );
}

#[test]
fn cipher_roundtrip() {
    let key = ShareCipher::generate_key();
    let cipher = ShareCipher::new(&key).unwrap();
    for share in [vec![], vec![42u64], vec![0u64, FIELD_P - 1, 123456]] {
        let token = encrypt_share(&cipher, &share);
        let back = decrypt_share(&cipher, &token).unwrap();
        assert_eq!(back, share);
    }
}

#[test]
fn cipher_rejects_wrong_key_and_tampering() {
    let cipher1 = ShareCipher::new(&ShareCipher::generate_key()).unwrap();
    let cipher2 = ShareCipher::new(&ShareCipher::generate_key()).unwrap();
    let token = encrypt_share(&cipher1, &vec![1, 2, 3]);
    // A wrong key fails loudly, never yields a wrong share.
    assert_eq!(
        decrypt_share(&cipher2, &token).unwrap_err(),
        CryptoError::DecryptionFailed
    );
    // A tampered token fails authentication.
    let mut tampered = token.clone().into_bytes();
    let last = tampered.len() - 1;
    tampered[last] = if tampered[last] == b'A' { b'B' } else { b'A' };
    let tampered = String::from_utf8(tampered).unwrap();
    assert_eq!(
        decrypt_share(&cipher1, &tampered).unwrap_err(),
        CryptoError::DecryptionFailed
    );
}

#[test]
fn cipher_rejects_bad_key() {
    assert!(ShareCipher::new("not a key").is_none());
    assert!(ShareCipher::new("").is_none());
}
