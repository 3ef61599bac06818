//! Scalar and point containers for the secp256k1 curve, and the
//! Diffie-Hellman operation they support.
//!
//! A `Secret` owns the canonical 32-byte big-endian representation of a
//! non-zero scalar; a `PublicKey` owns the 33-byte compressed SEC1 encoding
//! of the scalar's public point. The curve arithmetic itself is performed
//! by the k256 crate behind a small set of trusted wrappers; everything
//! the library states about the results is phrased over the byte
//! representations.

use vstd::prelude::*;

use crate::errors::{ECError, ECErrorKind};

use k256::elliptic_curve::sec1::ToEncodedPoint;
use k256::elliptic_curve::AffineXCoordinate;
use rand_core::OsRng;

verus! {

// ---------------------------------------------------------------------------
// Mathematical model
// ---------------------------------------------------------------------------

/// The value of a byte string read as a big-endian unsigned integer.
pub open spec fn be_int(b: Seq<u8>) -> int
    decreases b.len(),
{
    if b.len() == 0 {
        0
    } else {
        be_int(b.drop_last()) * 256 + b.last()
    }
}

/// The order of the secp256k1 scalar field,
/// `0xFFFFFFFF FFFFFFFF FFFFFFFF FFFFFFFE BAAEDCE6 AF48A03B BFD25E8C D0364141`,
/// assembled from its two 128-bit halves.
pub open spec fn scalar_order() -> int {
    (0xFFFFFFFFFFFFFFFFFFFFFFFFFFFFFFFEu128 as int) * (0x10000000000000000u128 as int) * (
    0x10000000000000000u128 as int) + (0xBAAEDCE6AF48A03BBFD25E8CD0364141u128 as int)
}

/// A 32-byte representation decodes to a usable scalar exactly when its
/// big-endian value is non-zero and below the field order.
pub open spec fn repr_valid(b: Seq<u8>) -> bool {
    &&& b.len() == 32
    &&& 0 < be_int(b)
    &&& be_int(b) < scalar_order()
}

/// The compressed SEC1 encoding of `s * G`, for a scalar with canonical
/// representation `s`. The encoding is a function of the scalar alone;
/// its definition lives in the curve library.
pub uninterp spec fn pk_bytes_of(s: Seq<u8>) -> Seq<u8>;

/// The affine x-coordinate, as 32 big-endian bytes, of the point encoded
/// by `pk` multiplied by the scalar with representation `s`. This is the
/// raw Diffie-Hellman reduction output; it is a function of its two
/// arguments alone.
pub uninterp spec fn dh_x_of(s: Seq<u8>, pk: Seq<u8>) -> Seq<u8>;

/// A byte string is a point encoding if some valid scalar produces it.
/// Scalar multiples of the generator by non-zero scalars are never the
/// identity, so every such encoding names a real affine point.
pub open spec fn is_point_bytes(p: Seq<u8>) -> bool {
    exists|s: Seq<u8>| repr_valid(s) && p == pk_bytes_of(s)
}

/// The canonical representation of the scalar one.
pub open spec fn one_repr() -> Seq<u8> {
    Seq::new(32, |i: int| if i == 31 { 1u8 } else { 0u8 })
}

/// The public-key bytes of the distinguished tombstone key: the point
/// `1 * G` with no secret attached.
pub open spec fn tombstone_pk() -> Seq<u8> {
    pk_bytes_of(one_repr())
}

/// A sequence of zero bytes has big-endian value zero.
proof fn lemma_be_int_zeros(b: Seq<u8>)
    requires
        forall|i: int| 0 <= i < b.len() ==> b[i] == 0u8,
    ensures
        be_int(b) == 0,
    decreases b.len(),
{
    if b.len() > 0 {
        lemma_be_int_zeros(b.drop_last());
    }
}

/// The scalar one has a valid representation.
proof fn lemma_one_repr_valid()
    ensures
        repr_valid(one_repr()),
{
    let b = one_repr();
    assert(b.drop_last().len() == 31);
    lemma_be_int_zeros(b.drop_last());
    assert(be_int(b) == 1);
}

// ---------------------------------------------------------------------------
// Trusted wrappers around the curve library
// ---------------------------------------------------------------------------

/// Relies on `k256::NonZeroScalar::from_repr`: it accepts a 32-byte
/// big-endian representation exactly when the value is non-zero and below
/// the curve order.
#[verifier::external_body]
fn check_scalar_repr(repr: &[u8; 32]) -> (r: bool)
    ensures
        r == repr_valid(repr@),
{
    let ct = k256::NonZeroScalar::from_repr((*repr).into());
    ct.is_some().into()
}

/// Relies on `k256::NonZeroScalar::random`: rejection sampling over the
/// operating-system RNG yields a non-zero scalar below the order, returned
/// here in its canonical big-endian representation.
#[verifier::external_body]
fn random_scalar_repr() -> (r: [u8; 32])
    ensures
        repr_valid(r@),
{
    let scalar = k256::NonZeroScalar::random(&mut OsRng);
    k256::FieldBytes::from(scalar).into()
}

/// Relies on `elliptic_curve::PublicKey::from_secret_scalar` (the point
/// `scalar * G`) and on `to_encoded_point(true)` (its 33-byte compressed
/// SEC1 encoding): the bytes are a function of the scalar alone.
#[verifier::external_body]
fn compute_public_key(repr: &[u8; 32]) -> (r: [u8; 33])
    requires
        repr_valid(repr@),
    ensures
        r@ == pk_bytes_of(repr@),
{
    let scalar = k256::NonZeroScalar::from_repr((*repr).into()).unwrap();
    let pk = k256::PublicKey::from_secret_scalar(&scalar);
    pk.to_encoded_point(true).as_bytes().try_into().unwrap()
}

/// Relies on `k256::PublicKey::from_sec1_bytes`, projective point
/// multiplication and `AffineXCoordinate::x`: the x-coordinate of
/// `scalar * P` is a function of the scalar and the point alone. The
/// second clause is the Diffie-Hellman agreement property: when the
/// point is `b * G`, the computed point is `repr * b * G`, which is the
/// same point both parties compute.
#[verifier::external_body]
fn compute_dh_x(repr: &[u8; 32], pk: &[u8; 33]) -> (r: [u8; 32])
    requires
        repr_valid(repr@),
        is_point_bytes(pk@),
    ensures
        r@ == dh_x_of(repr@, pk@),
        forall|b: Seq<u8>| repr_valid(b) && pk@ == pk_bytes_of(b) ==> r@ == dh_x_of(
            b,
            pk_bytes_of(repr@),
        ),
{
    let scalar = k256::NonZeroScalar::from_repr((*repr).into()).unwrap();
    let point = k256::PublicKey::from_sec1_bytes(pk).unwrap();
    let shared = (k256::ProjectivePoint::from(*point.as_affine()) * scalar.as_ref()).to_affine();
    shared.x().into()
}

// ---------------------------------------------------------------------------
// Byte comparison
// ---------------------------------------------------------------------------

/// Compares two byte slices for equality.
fn bytes_eq(a: &[u8], b: &[u8]) -> (r: bool)
    ensures
        r == (a@ == b@),
{
    if a.len() != b.len() {
        assert(a@ != b@);
        return false;
    }
    let n = a.len();
    let mut i: usize = 0;
    while i < n
        invariant
            n == a@.len() == b@.len(),
            i <= n,
            forall|j: int| 0 <= j < i ==> a@[j] == b@[j],
        decreases n - i,
    {
        if a[i] != b[i] {
            return false;
        }
        i = i + 1;
    }
    proof {
        assert(a@ =~= b@);
    }
    true
}

// ---------------------------------------------------------------------------
// Secret
// ---------------------------------------------------------------------------

/// Owner of one non-zero scalar of the secp256k1 scalar field, kept as its
/// canonical 32-byte big-endian representation.
#[derive(Clone, Copy)]
pub struct Secret {
    repr: [u8; 32],
}

impl View for Secret {
    type V = Seq<u8>;

    closed spec fn view(&self) -> Seq<u8> {
        self.repr@
    }
}

impl Secret {
    #[verifier::type_invariant]
    spec fn inv(self) -> bool {
        repr_valid(self.repr@)
    }

    /// Generates a fresh secret from the cryptographically secure
    /// operating-system RNG.
    pub fn random() -> (r: Secret)
    {
        let repr = random_scalar_repr();
        Secret { repr }
    }

    /// Reduces a 32-byte big-endian representation to a secret. Succeeds
    /// exactly when the value is non-zero and below the curve order.
    pub fn from_repr(repr: &[u8; 32]) -> (r: Result<Secret, ECError>)
        ensures
            repr_valid(repr@) ==> (r matches Ok(s) && s@ == repr@),
            !repr_valid(repr@) ==> (r matches Err(e) && e.kind == ECErrorKind::InvalidScalar),
    {
        if check_scalar_repr(repr) {
            Ok(Secret { repr: *repr })
        } else {
            Err(ECError::new(ECErrorKind::InvalidScalar, "Invalid scalar provided!"))
        }
    }

    /// Overwrites this secret in place with another scalar.
    pub fn replace_scalar(&mut self, scalar: Secret) -> (r: Result<(), ECError>)
        ensures
            final(self)@ == scalar@,
            r is Ok,
    {
        proof {
            use_type_invariant(&scalar);
        }
        self.repr = scalar.repr;
        Ok(())
    }

    /// The canonical representation bytes of this secret.
    pub fn to_repr(&self) -> (r: [u8; 32])
        ensures
            r@ == self@,
    {
        self.repr
    }

    /// The public point of this secret, `scalar * G`.
    pub fn public_key(&self) -> (r: PublicKey)
        ensures
            r@ == pk_bytes_of(self@),
    {
        proof {
            use_type_invariant(self);
        }
        let bytes = compute_public_key(&self.repr);
        PublicKey { bytes }
    }

    /// Performs the Diffie-Hellman exchange of this secret with a public
    /// point: the affine x-coordinate of `scalar * P` is reduced to a new
    /// secret. Fails exactly when that x-coordinate is not a valid
    /// non-zero scalar representation.
    pub fn diffie_hellman(&self, target: &PublicKey) -> (r: Result<Secret, ECError>)
        ensures
            repr_valid(dh_x_of(self@, target@)) ==> (r matches Ok(s) && s@ == dh_x_of(
                self@,
                target@,
            )),
            !repr_valid(dh_x_of(self@, target@)) ==> (r matches Err(e) && e.kind
                == ECErrorKind::InvalidScalar),
            forall|b: Seq<u8>| repr_valid(b) && target@ == pk_bytes_of(b) ==> dh_x_of(
                self@,
                target@,
            ) == dh_x_of(b, pk_bytes_of(self@)),
    {
        proof {
            use_type_invariant(self);
            use_type_invariant(target);
        }
        let x = compute_dh_x(&self.repr, &target.bytes);
        Secret::from_repr(&x)
    }
}

/// The Diffie-Hellman exchange of a secret with a public point, as a free
/// function: the affine x-coordinate of `scalar * P` reduced to a new
/// secret.
pub fn diffie_hellman(sk: &Secret, pk: &PublicKey) -> (r: Result<Secret, ECError>)
    ensures
        repr_valid(dh_x_of(sk@, pk@)) ==> (r matches Ok(s) && s@ == dh_x_of(sk@, pk@)),
        !repr_valid(dh_x_of(sk@, pk@)) ==> (r matches Err(e) && e.kind
            == ECErrorKind::InvalidScalar),
{
    sk.diffie_hellman(pk)
}

// ---------------------------------------------------------------------------
// PublicKey
// ---------------------------------------------------------------------------

/// An affine point on secp256k1, kept as its 33-byte compressed SEC1
/// encoding. Point equality is encoding equality.
#[derive(Clone, Copy)]
pub struct PublicKey {
    bytes: [u8; 33],
}

impl View for PublicKey {
    type V = Seq<u8>;

    closed spec fn view(&self) -> Seq<u8> {
        self.bytes@
    }
}

impl PublicKey {
    #[verifier::type_invariant]
    spec fn inv(self) -> bool {
        is_point_bytes(self.bytes@)
    }

    /// The compressed SEC1 encoding of this point.
    pub fn as_bytes(&self) -> (r: &[u8; 33])
        ensures
            r@ == self@,
    {
        &self.bytes
    }
}

impl PartialEq for PublicKey {
    fn eq(&self, other: &PublicKey) -> (r: bool) {
        bytes_eq(self.bytes.as_slice(), other.bytes.as_slice())
    }
}

impl vstd::std_specs::cmp::PartialEqSpecImpl for PublicKey {
    open spec fn obeys_eq_spec() -> bool {
        true
    }

    open spec fn eq_spec(&self, other: &PublicKey) -> bool {
        self@ == other@
    }
}

// ---------------------------------------------------------------------------
// Key
// ---------------------------------------------------------------------------

/// The mathematical content of a `Key`: the optional secret's scalar
/// representation and the public point's encoding.
pub ghost struct KeyView {
    pub sk: Option<Seq<u8>>,
    pub pk: Seq<u8>,
}

/// Two keys are equal exactly when their public points are equal; the
/// secret never participates.
pub open spec fn key_view_eq(a: KeyView, b: KeyView) -> bool {
    a.pk == b.pk
}

/// The view of a key built from a secret.
pub open spec fn key_from_secret_view(s: Seq<u8>) -> KeyView {
    KeyView { sk: Some(s), pk: pk_bytes_of(s) }
}

/// The view of the default key, which is also the tombstone: the point
/// `1 * G` with no secret.
pub open spec fn tombstone_key_view() -> KeyView {
    KeyView { sk: None, pk: tombstone_pk() }
}

/// A keypair container: an optional secret together with its public
/// point. When the secret is present the public point is always the
/// secret's own.
#[derive(Clone, Copy)]
pub struct Key {
    sk: Option<Secret>,
    pk: PublicKey,
}

impl View for Key {
    type V = KeyView;

    closed spec fn view(&self) -> KeyView {
        KeyView {
            sk: match self.sk {
                Some(s) => Some(s@),
                None => None,
            },
            pk: self.pk@,
        }
    }
}

impl PartialEq for Key {
    fn eq(&self, other: &Key) -> (r: bool) {
        self.pk == other.pk
    }
}

impl vstd::std_specs::cmp::PartialEqSpecImpl for Key {
    open spec fn obeys_eq_spec() -> bool {
        true
    }

    open spec fn eq_spec(&self, other: &Key) -> bool {
        key_view_eq(self@, other@)
    }
}

impl Key {
    #[verifier::type_invariant]
    spec fn inv(self) -> bool {
        self.sk matches Some(s) ==> (repr_valid(s@) && self.pk@ == pk_bytes_of(s@))
    }

    /// Pairs a public point with an optional secret. The caller must
    /// hand over a matching pair; `set_pk` offers the checked route.
    pub fn new(pk: PublicKey, sk: Option<Secret>) -> (r: Key)
        requires
            sk matches Some(s) ==> pk@ == pk_bytes_of(s@),
        ensures
            r@.pk == pk@,
            r@.sk == match sk {
                Some(s) => Some(s@),
                None => None::<Seq<u8>>,
            },
    {
        match &sk {
            Some(s) => {
                proof {
                    use_type_invariant(s);
                }
            },
            None => {},
        }
        Key { sk, pk }
    }

    /// Builds the key owning a secret: both sides are set from it.
    pub fn from_secret(sk: Secret) -> (r: Key)
        ensures
            r@ == key_from_secret_view(sk@),
    {
        proof {
            use_type_invariant(&sk);
        }
        let pk = sk.public_key();
        Key { sk: Some(sk), pk }
    }

    /// Builds the key around a bare public point, with no secret.
    pub fn from_public(pk: PublicKey) -> (r: Key)
        ensures
            r@.sk is None,
            r@.pk == pk@,
    {
        Key { sk: None, pk }
    }

    /// The public point of this key.
    pub fn pk(&self) -> (r: &PublicKey)
        ensures
            r@ == self@.pk,
    {
        &self.pk
    }

    /// The secret of this key, if one is present.
    pub fn sk(&self) -> (r: &Option<Secret>)
        ensures
            r is Some <==> self@.sk is Some,
            r matches Some(s) ==> self@.sk == Some(s@),
    {
        &self.sk
    }

    /// Replaces the secret. When one is given, the public point is
    /// overwritten with the secret's own.
    pub fn set_sk(&mut self, sk: Option<Secret>) -> (r: Result<(), ECError>)
        ensures
            r is Ok,
            match sk {
                Some(s) => final(self)@ == key_from_secret_view(s@),
                None => final(self)@.sk is None && final(self)@.pk == old(self)@.pk,
            },
    {
        match sk {
            Some(s) => {
                *self = Key::from_secret(s);
            },
            None => {
                *self = Key { sk: None, pk: self.pk };
            },
        }
        Ok(())
    }

    /// Replaces the public point. Fails with `KeyMismatch` when a secret
    /// is present whose own point disagrees; the key is then unchanged.
    pub fn set_pk(&mut self, pk: PublicKey) -> (r: Result<(), ECError>)
        ensures
            match old(self)@.sk {
                Some(s) => if pk_bytes_of(s) == pk@ {
                    r is Ok && *final(self) == *old(self)
                } else {
                    (r matches Err(e) && e.kind == ECErrorKind::KeyMismatch) && *final(self)
                        == *old(self)
                },
                None => r is Ok && final(self)@.sk is None && final(self)@.pk == pk@,
            },
    {
        proof {
            use_type_invariant(&*self);
        }
        match &self.sk {
            Some(secret) => {
                let own = secret.public_key();
                if own == pk {
                    proof {
                        assert(self.pk@ == pk@);
                        assert(self.pk == pk) by {
                            assert(self.pk@ =~= pk@);
                            vstd::array::axiom_array_ext_equal::<u8, 33>(self.pk.bytes, pk.bytes);
                        }
                    }
                    Ok(())
                } else {
                    Err(ECError::new(ECErrorKind::KeyMismatch, "Invalid public key set for secret key"))
                }
            },
            None => {
                *self = Key { sk: None, pk };
                Ok(())
            },
        }
    }

    /// Performs the Diffie-Hellman exchange between two keys. The secret
    /// side is taken from `self` when present, else from `target`
    /// (the exchange is commutative); when neither key holds a secret the
    /// exchange fails with `NoSecret`, and when the reduction output is
    /// not a valid scalar it fails with `InvalidScalar`.
    pub fn diffie_hellman(&self, target: &Key) -> (r: Result<Key, ECError>)
        ensures
            match dh_result_repr(self@, target@) {
                Some(x) => if repr_valid(x) {
                    r matches Ok(k) && k@ == key_from_secret_view(x)
                } else {
                    r matches Err(e) && e.kind == ECErrorKind::InvalidScalar
                },
                None => r matches Err(e) && e.kind == ECErrorKind::NoSecret,
            },
            (self@.sk is Some && target@.sk is Some) ==> dh_x_of(self@.sk.unwrap(), target@.pk)
                == dh_x_of(target@.sk.unwrap(), self@.pk),
    {
        proof {
            use_type_invariant(&*self);
            use_type_invariant(&*target);
        }
        match &self.sk {
            Some(secret) => {
                proof {
                    use_type_invariant(secret);
                }
                match secret.diffie_hellman(&target.pk) {
                    Ok(shared) => Ok(Key::from_secret(shared)),
                    Err(e) => Err(e),
                }
            },
            None => {
                match &target.sk {
                    Some(secret) => {
                        match secret.diffie_hellman(&self.pk) {
                            Ok(shared) => Ok(Key::from_secret(shared)),
                            Err(e) => Err(e),
                        }
                    },
                    None => {
                        Err(
                            ECError::new(
                                ECErrorKind::NoSecret,
                                "No Secret Key available to perform Diffie-Hellman!",
                            ),
                        )
                    },
                }
            },
        }
    }

    /// Returns the current value and leaves the default key behind. Fails
    /// with `TakeEmpty` when the current value is already the default;
    /// either way the key afterwards holds the default.
    pub fn take_value(&mut self) -> (r: Result<Key, ECError>)
        ensures
            final(self)@ == tombstone_key_view(),
            if old(self)@.sk is None && old(self)@.pk == tombstone_pk() {
                r matches Err(e) && e.kind == ECErrorKind::TakeEmpty
            } else {
                r matches Ok(k) && k@ == old(self)@
            },
    {
        let taken = *self;
        let d = Key::default();
        *self = d;
        if taken.sk.is_none() && taken.pk == d.pk {
            Err(ECError::new(ECErrorKind::TakeEmpty, "Unable to take reference from Key"))
        } else {
            Ok(taken)
        }
    }
}

/// The raw Diffie-Hellman reduction two keys agree on: the secret side
/// comes from `a` when present, else from `b`; `None` when neither key
/// holds a secret.
pub open spec fn dh_result_repr(a: KeyView, b: KeyView) -> Option<Seq<u8>> {
    if a.sk is Some {
        Some(dh_x_of(a.sk.unwrap(), b.pk))
    } else if b.sk is Some {
        Some(dh_x_of(b.sk.unwrap(), a.pk))
    } else {
        None
    }
}

impl Default for Key {
    /// The default key is the tombstone: the point `1 * G`, no secret.
    fn default() -> (r: Key)
        ensures
            r@ == tombstone_key_view(),
    {
        let mut one: [u8; 32] = [0u8; 32];
        one[31] = 1;
        proof {
            lemma_one_repr_valid();
            assert(one@ =~= one_repr());
        }
        let s = Secret { repr: one };
        let pk = s.public_key();
        Key { sk: None, pk }
    }
}

/// Two keys with the same mathematical content are the same key: the
/// byte representations determine the values.
proof fn lemma_key_view_injective(k1: Key, k2: Key)
    requires
        k1@ == k2@,
    ensures
        k1 == k2,
{
    assert(k1.pk.bytes =~= k2.pk.bytes);
    match (k1.sk, k2.sk) {
        (Some(s1), Some(s2)) => {
            assert(s1.repr =~= s2.repr);
        },
        _ => {},
    }
}

impl From<Secret> for Key {
    /// Builds the key owning the secret, as `from_secret` does.
    fn from(sk: Secret) -> (r: Key) {
        let r = Key::from_secret(sk);
        proof {
            assert(r@ == key_from_secret_view(sk@));
            let c = choose|k: Key| k@ == key_from_secret_view(sk@);
            lemma_key_view_injective(c, r);
        }
        r
    }
}

impl vstd::std_specs::convert::FromSpecImpl<Secret> for Key {
    open spec fn obeys_from_spec() -> bool {
        true
    }

    open spec fn from_spec(sk: Secret) -> Key {
        choose|k: Key| k@ == key_from_secret_view(sk@)
    }
}

impl From<PublicKey> for Key {
    /// Builds the key around the bare point, as `from_public` does.
    fn from(pk: PublicKey) -> (r: Key) {
        let r = Key::from_public(pk);
        proof {
            assert(r@ == (KeyView { sk: None, pk: pk@ }));
            let c = choose|k: Key| k@ == (KeyView { sk: None, pk: pk@ });
            lemma_key_view_injective(c, r);
        }
        r
    }
}

impl vstd::std_specs::convert::FromSpecImpl<PublicKey> for Key {
    open spec fn obeys_from_spec() -> bool {
        true
    }

    open spec fn from_spec(pk: PublicKey) -> Key {
        choose|k: Key| k@ == (KeyView { sk: None, pk: pk@ })
    }
}

/// Moves a value out, leaving a default behind.
pub trait Take<T> {
    fn take(&mut self) -> T;
}

impl Take<Result<Key, ECError>> for Key {
    fn take(&mut self) -> Result<Key, ECError> {
        self.take_value()
    }
}

// ---------------------------------------------------------------------------
// Laws
// ---------------------------------------------------------------------------

/// Key equality is pk-only: two keys built from secrets are equal exactly
/// when the secrets' public points are equal, whatever the secrets are.
pub proof fn lemma_key_equality_is_pk_only(s1: Seq<u8>, s2: Seq<u8>)
    ensures
        key_view_eq(key_from_secret_view(s1), key_from_secret_view(s2)) <==> (pk_bytes_of(s1)
            == pk_bytes_of(s2)),
{
}

} // verus!
