use ratchet_tree::ecdh::{Key, PublicKey, Secret, Take};
use ratchet_tree::errors::ECErrorKind;

use k256::elliptic_curve::sec1::ToEncodedPoint;
use k256::elliptic_curve::AffineXCoordinate;

fn scalar_bytes(k: u8) -> [u8; 32] {
    let mut b = [0u8; 32];
    b[31] = k;
    b
}

fn secret(k: u8) -> Secret {
    Secret::from_repr(&scalar_bytes(k)).expect("small non-zero scalar must be valid")
}

#[test]
fn from_repr_rejects_zero() {
    let r = Secret::from_repr(&[0u8; 32]);
    match r {
        Err(e) => assert_eq!(e.kind, ECErrorKind::InvalidScalar),
        Ok(_) => panic!("zero must be rejected"),
    }
}

#[test]
fn from_repr_rejects_order() {
    // The big-endian bytes of the secp256k1 scalar-field order.
    let order: [u8; 32] = [
        0xFF, 0xFF, 0xFF, 0xFF, 0xFF, 0xFF, 0xFF, 0xFF, 0xFF, 0xFF, 0xFF, 0xFF, 0xFF, 0xFF, 0xFF,
        0xFE, 0xBA, 0xAE, 0xDC, 0xE6, 0xAF, 0x48, 0xA0, 0x3B, 0xBF, 0xD2, 0x5E, 0x8C, 0xD0, 0x36,
        0x41, 0x41,
    ];
    assert!(Secret::from_repr(&order).is_err());
    let mut below = order;
    below[31] = 0x40;
    assert!(Secret::from_repr(&below).is_ok());
}

#[test]
fn from_repr_roundtrips() {
    let s = secret(7);
    assert_eq!(s.to_repr(), scalar_bytes(7));
}

#[test]
fn public_key_matches_curve_library() {
    // The library's public key must be the point 7 * G as k256 computes it.
    let s = secret(7);
    let scalar = k256::NonZeroScalar::from_repr(scalar_bytes(7).into()).unwrap();
    let expected = k256::PublicKey::from_secret_scalar(&scalar);
    let expected_bytes: [u8; 33] =
        expected.to_encoded_point(true).as_bytes().try_into().unwrap();
    assert_eq!(*s.public_key().as_bytes(), expected_bytes);
}

#[test]
fn diffie_hellman_matches_curve_library() {
    // The library's reduction must be the affine x-coordinate of 7 * (11 * G).
    let a = secret(7);
    let b = secret(11);
    let shared = a.diffie_hellman(&b.public_key()).unwrap();
    let sk = k256::NonZeroScalar::from_repr(scalar_bytes(7).into()).unwrap();
    let pk = k256::NonZeroScalar::from_repr(scalar_bytes(11).into()).unwrap();
    let point = k256::PublicKey::from_secret_scalar(&pk);
    let x = (k256::ProjectivePoint::from(*point.as_affine()) * sk.as_ref()).to_affine().x();
    assert_eq!(shared.to_repr().as_slice(), x.as_slice());
}

#[test]
fn free_diffie_hellman_matches_method() {
    let a = secret(7);
    let b = secret(11);
    let via_fn = ratchet_tree::ecdh::diffie_hellman(&a, &b.public_key()).unwrap();
    let via_method = a.diffie_hellman(&b.public_key()).unwrap();
    assert_eq!(via_fn.to_repr(), via_method.to_repr());
}

#[test]
fn diffie_hellman_commutes() {
    let a = secret(7);
    let b = secret(11);
    let ab = a.diffie_hellman(&b.public_key()).unwrap();
    let ba = b.diffie_hellman(&a.public_key()).unwrap();
    assert_eq!(ab.public_key().as_bytes(), ba.public_key().as_bytes());
    assert_eq!(ab.to_repr(), ba.to_repr());
}

#[test]
fn key_diffie_hellman_commutes() {
    let ka = Key::from_secret(secret(3));
    let kb = Key::from_secret(secret(5));
    let ab = ka.diffie_hellman(&kb).unwrap();
    let ba = kb.diffie_hellman(&ka).unwrap();
    assert!(ab == ba);
}

#[test]
fn key_diffie_hellman_uses_either_secret() {
    let ka = Key::from_secret(secret(3));
    let kb_pub = Key::from_public(*Key::from_secret(secret(5)).pk());
    // Secret on the left.
    let left = ka.diffie_hellman(&kb_pub).unwrap();
    // Secret on the right: delegated to the side that has one.
    let right = kb_pub.diffie_hellman(&ka).unwrap();
    assert!(left == right);
}

#[test]
fn key_diffie_hellman_without_secrets_fails() {
    let pa = Key::from_public(*Key::from_secret(secret(3)).pk());
    let pb = Key::from_public(*Key::from_secret(secret(5)).pk());
    let r = pa.diffie_hellman(&pb);
    match r {
        Err(e) => assert_eq!(e.kind, ECErrorKind::NoSecret),
        Ok(_) => panic!("two public keys must not agree on a secret"),
    }
}

#[test]
fn key_equality_is_pk_only() {
    let s = secret(9);
    let k1 = Key::from_secret(s);
    let k2 = Key::from_public(s.public_key());
    // Same point, one with and one without the secret: still equal.
    assert!(k1 == k2);
    let k3 = Key::from_secret(secret(10));
    assert!(k1 != k3);
}

#[test]
fn random_secrets_work() {
    let a = Secret::random();
    let b = Secret::random();
    let ab = a.diffie_hellman(&b.public_key()).unwrap();
    let ba = b.diffie_hellman(&a.public_key()).unwrap();
    assert_eq!(ab.to_repr(), ba.to_repr());
}

#[test]
fn replace_scalar_overwrites() {
    let mut s = secret(4);
    s.replace_scalar(secret(6)).unwrap();
    assert_eq!(s.to_repr(), scalar_bytes(6));
}

#[test]
fn set_sk_overwrites_pk() {
    let mut k = Key::default();
    k.set_sk(Some(secret(8))).unwrap();
    assert_eq!(k.pk().as_bytes(), secret(8).public_key().as_bytes());
    assert!(k.sk().is_some());
}

#[test]
fn set_pk_checks_against_secret() {
    let mut k = Key::from_secret(secret(8));
    let wrong = secret(9).public_key();
    let r = k.set_pk(wrong);
    match r {
        Err(e) => assert_eq!(e.kind, ECErrorKind::KeyMismatch),
        Ok(_) => panic!("mismatching public key must be rejected"),
    }
    // The matching point is accepted, and a bare key takes any point.
    assert!(k.set_pk(secret(8).public_key()).is_ok());
    let mut bare = Key::from_public(secret(2).public_key());
    assert!(bare.set_pk(secret(3).public_key()).is_ok());
    assert_eq!(bare.pk().as_bytes(), secret(3).public_key().as_bytes());
}

#[test]
fn default_key_is_point_one() {
    let d = Key::default();
    assert!(d.sk().is_none());
    assert_eq!(d.pk().as_bytes(), secret(1).public_key().as_bytes());
}

#[test]
fn take_from_default_fails() {
    let mut k = Key::default();
    let r = k.take_value();
    match r {
        Err(e) => assert_eq!(e.kind, ECErrorKind::TakeEmpty),
        Ok(_) => panic!("taking from a default key must fail"),
    }
}

#[test]
fn take_leaves_default_behind() {
    let mut k = Key::from_secret(secret(12));
    let taken = k.take_value().unwrap();
    assert_eq!(taken.pk().as_bytes(), secret(12).public_key().as_bytes());
    assert!(k == Key::default());
    // The trait form behaves the same.
    let mut k2 = Key::from_secret(secret(12));
    let taken2: Result<Key, _> = Take::take(&mut k2);
    assert!(taken2.unwrap() == taken);
}

#[test]
fn key_new_pairs_point_and_secret() {
    let s = secret(13);
    let k = Key::new(s.public_key(), Some(s));
    assert!(k == Key::from_secret(s));
    let bare = Key::new(s.public_key(), None);
    assert!(bare.sk().is_none());
}

#[test]
fn key_from_conversions() {
    let s = secret(9);
    let from_secret: Key = Key::from(s);
    assert!(from_secret == Key::from_secret(s));
    assert!(from_secret.sk().is_some());
    let from_point: Key = Key::from(s.public_key());
    assert!(from_point.sk().is_none());
    assert!(from_point == from_secret);
}

#[test]
fn public_key_equality_is_byte_equality() {
    let p1: PublicKey = secret(14).public_key();
    let p2: PublicKey = secret(14).public_key();
    let p3: PublicKey = secret(15).public_key();
    assert!(p1 == p2);
    assert!(p1 != p3);
}
