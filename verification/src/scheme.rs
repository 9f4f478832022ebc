//! The threshold encryption scheme: keys, ciphertexts and decryption shares,
//! and the operations on them.
//!
//! The master secret `s` is shared among `n` holders by a polynomial `f` of
//! degree `t - 1` with `f(0) = s`. The holder at position `i` of the key
//! vectors (positions count from zero) has the private scalar `f(i + 1)`.
//! All public keys live in the first group, next to the nonce of a
//! ciphertext and the decryption shares; the authentication tag and the
//! hash that it is built from live in the second group.

use crate::error::{fails_with, ThresholdEncryptionError};
use crate::group::{
    g1_generator_encoding, g1_negation, g1_scalar_product, g1_sum, g2_scalar_product, hash_to_g2,
    pairing_product_is_identity, pairing_product_is_one, G1Point, G2Point,
};
use crate::interpolation::{lagrange_coefficients, lagrange_weights, pairwise_distinct};
use crate::key_generation::holder_point;
use crate::scalar::{modulus, scalar_values, Scalar};
use crate::symmetric::{
    apply_stream, derive_key, lemma_stream_round_trip, max_stream_len, stream_xor, symmetric_key,
};
use ark_std::rand::rngs::StdRng;
use vstd::prelude::*;

verus! {

/// The public key that messages are encrypted to: `Y = s * G`.
#[derive(Clone, Copy, Debug, PartialEq, Eq)]
pub struct EncryptionPubkey {
    pub key: G1Point,
}

/// The public keys that decryption shares are verified against:
/// `Y_i = f(i + 1) * G` at position `i`.
#[derive(Clone, Debug, PartialEq, Eq)]
pub struct ShareVerificationPubkey {
    pub decryptor_pubkeys: Vec<G1Point>,
}

/// The secret of one holder.
pub struct PrivkeyShare {
    /// The holder's position among the holders, counted from zero.
    pub index: usize,
    /// The holder's private scalar `x_i = f(index + 1)`.
    pub privkey: Scalar,
    /// The holder's public key `Y_i = x_i * G`.
    pub pubkey: G1Point,
}

/// An encrypted message.
#[derive(Clone, Debug, PartialEq, Eq)]
pub struct Ciphertext {
    /// `U = r * G`
    pub nonce: G1Point,
    /// `V`, the message under the stream cipher
    pub ciphertext: Vec<u8>,
    /// `W = r * H(U, V, additional data)`
    pub auth_tag: G2Point,
}

/// One holder's contribution to the decryption of one ciphertext.
#[derive(Clone, Copy, Debug, PartialEq, Eq)]
pub struct DecryptionShare {
    /// The holder's position among the holders, counted from zero.
    pub decryptor_index: usize,
    /// `U_i = x_i * U`
    pub decryption_share: G1Point,
}

/// The domain label of the hash that authentication tags are built from,
/// the ASCII text `auth_tag`.
pub open spec fn tag_domain() -> Seq<u8> {
    seq![0x61u8, 0x75, 0x74, 0x68, 0x5f, 0x74, 0x61, 0x67]
}

/// The hash `H(U, V, additional data)` in the second group: the hash of the
/// three byte strings, one after the other.
pub open spec fn tag_hash(
    nonce: Seq<u8>,
    stream_ciphertext: Seq<u8>,
    additional_data: Seq<u8>,
) -> Option<Seq<u8>> {
    hash_to_g2(tag_domain(), nonce + stream_ciphertext + additional_data)
}

/// The positions of the shares' holders, in the order of the shares.
pub open spec fn share_indices(shares: Seq<DecryptionShare>) -> Seq<usize> {
    shares.map_values(|share: DecryptionShare| share.decryptor_index)
}

/// Whether no earlier position holds the index that `position` holds.
pub open spec fn is_first_occurrence(indices: Seq<usize>, position: int) -> bool {
    forall|earlier: int| 0 <= earlier < position ==> indices[earlier] != indices[position]
}

/// The positions at which an index occurs for the first time, in increasing
/// order. There are as many as there are distinct indices.
pub open spec fn first_occurrences(indices: Seq<usize>) -> Seq<int>
    decreases indices.len(),
{
    if indices.len() == 0 {
        Seq::empty()
    } else {
        let before = first_occurrences(indices.drop_last());
        if is_first_occurrence(indices, indices.len() - 1) {
            before.push(indices.len() - 1)
        } else {
            before
        }
    }
}

/// The positions of the shares that the combination uses: the first
/// `threshold` shares whose index no earlier share has.
pub open spec fn selected_positions(shares: Seq<DecryptionShare>, threshold: nat) -> Seq<int> {
    first_occurrences(share_indices(shares)).take(threshold as int)
}

/// The interpolation points of the shares that the combination uses.
pub open spec fn selected_points(shares: Seq<DecryptionShare>, threshold: nat) -> Seq<nat> {
    selected_positions(shares, threshold).map_values(
        |position: int| holder_point(shares[position].decryptor_index as int),
    )
}

/// The group elements of the shares that the combination uses.
pub open spec fn selected_elements(shares: Seq<DecryptionShare>, threshold: nat) -> Seq<Seq<u8>> {
    selected_positions(shares, threshold).map_values(
        |position: int| shares[position].decryption_share@,
    )
}

/// The sum of the first `count` elements, each multiplied by its weight.
pub open spec fn weighted_sum(elements: Seq<Seq<u8>>, weights: Seq<nat>, count: int) -> Seq<u8>
    decreases count,
{
    if count <= 1 {
        g1_scalar_product(elements[0], weights[0])
    } else {
        g1_sum(
            weighted_sum(elements, weights, count - 1),
            g1_scalar_product(elements[count - 1], weights[count - 1]),
        )
    }
}

/// The group element that the selected shares interpolate to.
pub open spec fn combined_element(shares: Seq<DecryptionShare>, threshold: nat) -> Seq<u8> {
    weighted_sum(
        selected_elements(shares, threshold),
        lagrange_weights(selected_points(shares, threshold)),
        threshold as int,
    )
}

/// The bytes that the combination of the shares decrypts a stream
/// ciphertext to.
pub open spec fn combined_plaintext(
    stream_ciphertext: Seq<u8>,
    shares: Seq<DecryptionShare>,
    threshold: nat,
) -> Seq<u8> {
    stream_xor(symmetric_key(combined_element(shares, threshold)), stream_ciphertext)
}

/// The hash onto the second group under the scheme's domain label.
pub fn mock_hash(message: &[u8]) -> (hashed: Result<G2Point, ThresholdEncryptionError>)
    ensures
        hashed matches Ok(point) ==> hash_to_g2(tag_domain(), message@) == Some(point@),
        hashed is Err ==> hash_to_g2(tag_domain(), message@) is None && fails_with(
            hashed,
            ThresholdEncryptionError::HashToCurveError,
        ),
{
    let domain: [u8; 8] = [0x61, 0x75, 0x74, 0x68, 0x5f, 0x74, 0x61, 0x67];
    assert(domain@ =~= tag_domain());
    G2Point::hash(domain.as_slice(), message)
}

/// Computes the hash `H(U, V, additional data)` that the authentication tag
/// of a ciphertext is built from.
pub fn construct_tag_hash(u: &G1Point, stream_ciphertext: &[u8], additional_data: &[u8]) -> (hashed:
    Result<G2Point, ThresholdEncryptionError>)
    ensures
        hashed matches Ok(point) ==> tag_hash(u@, stream_ciphertext@, additional_data@) == Some(
            point@,
        ),
        hashed is Err ==> tag_hash(u@, stream_ciphertext@, additional_data@) is None && fails_with(
            hashed,
            ThresholdEncryptionError::HashToCurveError,
        ),
{
    // The hash input is U, V and the additional data, one after the other.
    let encoded = u.to_bytes();
    let mut hash_input = vstd::slice::slice_to_vec(encoded.as_slice());
    hash_input.extend_from_slice(stream_ciphertext);
    hash_input.extend_from_slice(additional_data);
    assert(hash_input@ =~= u@ + stream_ciphertext@ + additional_data@);
    mock_hash(hash_input.as_slice())
}

impl EncryptionPubkey {
    /// Whether `c` is the encryption of `msg` to this key, bound to
    /// `additional_data`, that the scalar `r` gives.
    pub open spec fn encrypts_to(
        &self,
        msg: Seq<u8>,
        additional_data: Seq<u8>,
        r: nat,
        c: Ciphertext,
    ) -> bool {
        &&& c.nonce@ == g1_scalar_product(g1_generator_encoding(), r)
        &&& c.ciphertext@ == stream_xor(symmetric_key(g1_scalar_product(self.key@, r)), msg)
        &&& tag_hash(c.nonce@, c.ciphertext@, additional_data) matches Some(h) && c.auth_tag@
            == g2_scalar_product(h, r)
    }

    /// Whether the hash that the tag is built from exists for the
    /// encryption of `msg` that the scalar `r` gives.
    pub open spec fn tag_hash_exists(
        &self,
        msg: Seq<u8>,
        additional_data: Seq<u8>,
        r: nat,
    ) -> bool {
        tag_hash(
            g1_scalar_product(g1_generator_encoding(), r),
            stream_xor(symmetric_key(g1_scalar_product(self.key@, r)), msg),
            additional_data,
        ) is Some
    }

    /// Encrypts `msg` with the scalar `r`, which must be fresh, secret and
    /// uniformly drawn for every message. A zero `r` is refused.
    pub fn encrypt_with_scalar(&self, msg: &[u8], additional_data: &[u8], r: &Scalar) -> (encrypted:
        Result<Ciphertext, ThresholdEncryptionError>)
        requires
            msg@.len() <= max_stream_len(),
        ensures
            r@ == 0 ==> fails_with(encrypted, ThresholdEncryptionError::RandomnessError),
            r@ != 0 && !self.tag_hash_exists(msg@, additional_data@, r@) ==> fails_with(
                encrypted,
                ThresholdEncryptionError::HashToCurveError,
            ),
            r@ != 0 && self.tag_hash_exists(msg@, additional_data@, r@) ==> encrypted is Ok,
            encrypted matches Ok(c) ==> self.encrypts_to(msg@, additional_data@, r@, c),
    {
        if r.is_zero() {
            return Err(ThresholdEncryptionError::RandomnessError);
        }
        let u = G1Point::generator().mul(r);

        // The key of the stream cipher comes from r * Y, which the holders
        // can reconstruct from U as s * U.
        let key_element = self.key.mul(r);
        let encoded = key_element.to_bytes();
        let stream_key = derive_key(encoded.as_slice());

        let stream_ciphertext = match apply_stream(stream_key.as_slice(), msg) {
            Some(bytes) => bytes,
            None => {
                proof {
                    assert(false);
                }
                return Err(ThresholdEncryptionError::RandomnessError);
            },
        };

        // The authentication tag is the tag hash scaled by r, so that
        // e(U, H) = e(G, W).
        let tag_hash = match construct_tag_hash(&u, stream_ciphertext.as_slice(), additional_data) {
            Ok(point) => point,
            Err(e) => {
                return Err(e);
            },
        };
        let auth_tag = tag_hash.mul(r);
        Ok(Ciphertext { nonce: u, ciphertext: stream_ciphertext, auth_tag })
    }

    /// Encrypts `msg`, bound to `additional_data`, with a scalar drawn from
    /// `rng`.
    pub fn encrypt_msg(&self, msg: &[u8], additional_data: &[u8], rng: &mut StdRng) -> (encrypted:
        Result<Ciphertext, ThresholdEncryptionError>)
        requires
            msg@.len() <= max_stream_len(),
        ensures
            encrypted is Err ==> fails_with(encrypted, ThresholdEncryptionError::RandomnessError)
                || fails_with(encrypted, ThresholdEncryptionError::HashToCurveError),
            encrypted matches Ok(c) ==> exists|r: nat|
                0 < r < modulus() && #[trigger] self.encrypts_to(msg@, additional_data@, r, c),
    {
        let r = Scalar::random(rng);
        self.encrypt_with_scalar(msg, additional_data, &r)
    }
}

impl Ciphertext {
    /// Whether the ciphertext satisfies its pairing equation under
    /// `additional_data`: `e(U, H) = e(G, W)`, where `H` is the tag hash.
    pub open spec fn valid(&self, additional_data: Seq<u8>) -> bool {
        match tag_hash(self.nonce@, self.ciphertext@, additional_data) {
            Some(h) => pairing_product_is_one(
                self.nonce@,
                h,
                g1_negation(g1_generator_encoding()),
                self.auth_tag@,
            ),
            None => false,
        }
    }

    /// The tag hash of a ciphertext that is valid, and `None` for one that
    /// is not.
    fn checked_tag_hash(&self, additional_data: &[u8]) -> (hashed: Option<G2Point>)
        ensures
            hashed is Some <==> self.valid(additional_data@),
            hashed matches Some(h) ==> tag_hash(self.nonce@, self.ciphertext@, additional_data@)
                == Some(h@),
    {
        // e(U, H) = e(G, W) exactly if e(U, H) * e(-G, W) is the identity.
        match construct_tag_hash(&self.nonce, self.ciphertext.as_slice(), additional_data) {
            Ok(tag_hash) => {
                let g_inv = G1Point::generator().neg();
                if pairing_product_is_identity(&self.nonce, &tag_hash, &g_inv, &self.auth_tag) {
                    Some(tag_hash)
                } else {
                    None
                }
            },
            Err(_) => None,
        }
    }

    /// Whether the ciphertext is well formed under `additional_data`. Every
    /// operation on a ciphertext makes this check first.
    pub fn check_ciphertext_validity(&self, additional_data: &[u8]) -> (valid: bool)
        ensures
            valid == self.valid(additional_data@),
    {
        self.checked_tag_hash(additional_data).is_some()
    }
}

impl PrivkeyShare {
    /// The holder's decryption share for a ciphertext, which must be valid
    /// under `additional_data`.
    pub fn create_share(&self, c: &Ciphertext, additional_data: &[u8]) -> (share: Result<
        DecryptionShare,
        ThresholdEncryptionError,
    >)
        ensures
            !c.valid(additional_data@) ==> fails_with(
                share,
                ThresholdEncryptionError::CiphertextVerificationFailed,
            ),
            c.valid(additional_data@) ==> share is Ok,
            share matches Ok(s) ==> s.decryptor_index == self.index && s.decryption_share@
                == g1_scalar_product(c.nonce@, self.privkey@),
    {
        if !c.check_ciphertext_validity(additional_data) {
            return Err(ThresholdEncryptionError::CiphertextVerificationFailed);
        }
        let decryption_share = c.nonce.mul(&self.privkey);
        Ok(DecryptionShare { decryptor_index: self.index, decryption_share })
    }
}

impl DecryptionShare {
    /// Whether the share satisfies its pairing equation, `e(U_i, H) = e(Y_i, W)`,
    /// for the public key `Y_i` at the share's index.
    pub open spec fn satisfies_equation(
        &self,
        c: Ciphertext,
        additional_data: Seq<u8>,
        vpk: ShareVerificationPubkey,
    ) -> bool {
        &&& self.decryptor_index < vpk.decryptor_pubkeys@.len()
        &&& tag_hash(c.nonce@, c.ciphertext@, additional_data) matches Some(h)
            && pairing_product_is_one(
            self.decryption_share@,
            h,
            g1_negation(vpk.decryptor_pubkeys@[self.decryptor_index as int]@),
            c.auth_tag@,
        )
    }

    /// Checks the share against a ciphertext and the holders' public keys,
    /// and says which of the two is at fault where it fails.
    pub fn check_share(
        &self,
        c: &Ciphertext,
        additional_data: &[u8],
        vpk: &ShareVerificationPubkey,
    ) -> (checked: Result<(), ThresholdEncryptionError>)
        ensures
            !c.valid(additional_data@) ==> fails_with(
                checked,
                ThresholdEncryptionError::CiphertextVerificationFailed,
            ),
            c.valid(additional_data@) && !self.satisfies_equation(*c, additional_data@, *vpk)
                ==> fails_with(
                checked,
                ThresholdEncryptionError::DecryptionShareVerificationFailed,
            ),
            c.valid(additional_data@) && self.satisfies_equation(*c, additional_data@, *vpk)
                ==> checked is Ok,
    {
        let tag_hash = match c.checked_tag_hash(additional_data) {
            Some(h) => h,
            None => {
                return Err(ThresholdEncryptionError::CiphertextVerificationFailed);
            },
        };
        if self.decryptor_index >= vpk.decryptor_pubkeys.len() {
            return Err(ThresholdEncryptionError::DecryptionShareVerificationFailed);
        }
        // e(U_i, H) = e(Y_i, W) exactly if e(U_i, H) * e(-Y_i, W) is the identity.
        let pubkey_inv = vpk.decryptor_pubkeys[self.decryptor_index].neg();
        let share = &self.decryption_share;
        if pairing_product_is_identity(share, &tag_hash, &pubkey_inv, &c.auth_tag) {
            Ok(())
        } else {
            Err(ThresholdEncryptionError::DecryptionShareVerificationFailed)
        }
    }

    /// Whether the share is the one that the holder at its index issues for
    /// the ciphertext. A share for a ciphertext that is not valid is not
    /// accepted.
    pub fn verify_share(
        &self,
        c: &Ciphertext,
        additional_data: &[u8],
        vpk: &ShareVerificationPubkey,
    ) -> (accepted: bool)
        ensures
            accepted == (c.valid(additional_data@) && self.satisfies_equation(
                *c,
                additional_data@,
                *vpk,
            )),
    {
        self.check_share(c, additional_data, vpk).is_ok()
    }
}

/// The first occurrences are positions of the sequence, in increasing
/// order, and each is a first occurrence.
pub proof fn lemma_first_occurrences(indices: Seq<usize>)
    ensures
        forall|m: int|
            0 <= m < first_occurrences(indices).len() ==> 0 <= (#[trigger] first_occurrences(
                indices,
            )[m]) < indices.len() && is_first_occurrence(indices, first_occurrences(indices)[m]),
        forall|m1: int, m2: int|
            0 <= m1 < m2 < first_occurrences(indices).len() ==> first_occurrences(indices)[m1]
                < first_occurrences(indices)[m2],
    decreases indices.len(),
{
    if indices.len() > 0 {
        let shorter = indices.drop_last();
        let before = first_occurrences(shorter);
        lemma_first_occurrences(shorter);
        assert forall|m: int| 0 <= m < before.len() implies is_first_occurrence(
            indices,
            before[m],
        ) by {
            assert(is_first_occurrence(shorter, before[m]));
            assert forall|earlier: int| 0 <= earlier < before[m] implies #[trigger] indices[earlier]
                != indices[before[m]] by {
                assert(shorter[earlier] != shorter[before[m]]);
            }
        }
    }
}

/// The positions of the shares whose index no earlier share has, in
/// increasing order.
pub fn distinct_share_positions(shares: &Vec<DecryptionShare>) -> (positions: Vec<usize>)
    ensures
        positions@.map_values(|p: usize| p as int) == first_occurrences(share_indices(shares@)),
{
    let ghost indices = share_indices(shares@);
    let n = shares.len();
    let mut positions: Vec<usize> = Vec::new();
    let mut i: usize = 0;
    proof {
        assert(indices.take(0).len() == 0);
        assert(positions@.map_values(|p: usize| p as int) =~= first_occurrences(indices.take(0)));
    }
    while i < n
        invariant
            n == shares.len(),
            indices == share_indices(shares@),
            i <= n,
            positions@.map_values(|p: usize| p as int) == first_occurrences(indices.take(i as int)),
        decreases n - i,
    {
        let index = shares[i].decryptor_index;
        let mut fresh = true;
        let mut earlier: usize = 0;
        while earlier < i
            invariant
                n == shares.len(),
                indices == share_indices(shares@),
                i < n,
                earlier <= i,
                index == indices[i as int],
                fresh == (forall|e: int| 0 <= e < earlier ==> indices[e] != indices[i as int]),
            decreases i - earlier,
        {
            assert(indices[earlier as int] == shares@[earlier as int].decryptor_index);
            if shares[earlier].decryptor_index == index {
                fresh = false;
            }
            earlier += 1;
        }
        proof {
            let longer = indices.take(i + 1);
            assert(longer.drop_last() =~= indices.take(i as int));
            assert forall|e: int| 0 <= e <= i implies longer[e] == indices[e] by {}
            assert(is_first_occurrence(longer, i as int) == is_first_occurrence(
                indices,
                i as int,
            )) by {
                if is_first_occurrence(indices, i as int) {
                    assert forall|e: int| 0 <= e < i implies longer[e] != longer[i as int] by {
                        assert(indices[e] != indices[i as int]);
                    }
                }
                if is_first_occurrence(longer, i as int) {
                    assert forall|e: int| 0 <= e < i implies indices[e] != indices[i as int] by {
                        assert(longer[e] != longer[i as int]);
                    }
                }
            }
            assert(fresh == is_first_occurrence(indices, i as int));
        }
        let ghost before = positions@;
        if fresh {
            positions.push(i);
            proof {
                assert(positions@.map_values(|p: usize| p as int) =~= before.map_values(
                    |p: usize| p as int,
                ).push(i as int));
            }
        }
        i += 1;
    }
    proof {
        assert(indices.take(n as int) =~= indices);
    }
    positions
}

/// Recovers the message of a valid ciphertext from decryption shares of at
/// least `threshold` different holders.
///
/// The shares must have been verified. Of several shares with one index the
/// first counts, and of those that count the first `threshold` are used.
pub fn share_combine(
    c: &Ciphertext,
    additional_data: &[u8],
    shares: &Vec<DecryptionShare>,
    threshold: usize,
) -> (plaintext: Result<Vec<u8>, ThresholdEncryptionError>)
    ensures
        !c.valid(additional_data@) ==> fails_with(
            plaintext,
            ThresholdEncryptionError::CiphertextVerificationFailed,
        ),
        c.valid(additional_data@) && threshold == 0 ==> fails_with(
            plaintext,
            ThresholdEncryptionError::InvalidParameters,
        ),
        c.valid(additional_data@) && threshold > first_occurrences(share_indices(shares@)).len()
            ==> fails_with(plaintext, ThresholdEncryptionError::InsufficientShares),
        c.valid(additional_data@) && 1 <= threshold <= first_occurrences(
            share_indices(shares@),
        ).len() && c.ciphertext@.len() > max_stream_len() ==> fails_with(
            plaintext,
            ThresholdEncryptionError::DecryptionFailed,
        ),
        c.valid(additional_data@) && 1 <= threshold <= first_occurrences(
            share_indices(shares@),
        ).len() && c.ciphertext@.len() <= max_stream_len() ==> plaintext is Ok,
        plaintext matches Ok(bytes) ==> bytes@ == combined_plaintext(
            c.ciphertext@,
            shares@,
            threshold as nat,
        ),
{
    if !c.check_ciphertext_validity(additional_data) {
        return Err(ThresholdEncryptionError::CiphertextVerificationFailed);
    }
    if threshold == 0 {
        return Err(ThresholdEncryptionError::InvalidParameters);
    }
    let positions = distinct_share_positions(shares);
    if positions.len() < threshold {
        return Err(ThresholdEncryptionError::InsufficientShares);
    }
    let ghost indices = share_indices(shares@);
    let ghost chosen = selected_positions(shares@, threshold as nat);
    let ghost points_spec = selected_points(shares@, threshold as nat);
    let ghost elements_spec = selected_elements(shares@, threshold as nat);
    proof {
        let occurrences = first_occurrences(indices);
        lemma_first_occurrences(indices);
        assert(occurrences.len() == positions.len());
        assert forall|m: int| 0 <= m < positions.len() implies occurrences[m]
            == (#[trigger] positions[m]) as int by {
            assert(positions@.map_values(|p: usize| p as int)[m] == positions[m] as int);
        }
        assert(chosen.len() == threshold);
        assert forall|k: int| 0 <= k < threshold implies chosen[k] == positions[k] as int by {}
    }

    // The interpolation points of the shares that count.
    let mut points: Vec<Scalar> = Vec::new();
    let mut k: usize = 0;
    while k < threshold
        invariant
            1 <= threshold <= positions.len(),
            k <= threshold,
            points.len() == k,
            chosen == selected_positions(shares@, threshold as nat),
            points_spec == selected_points(shares@, threshold as nat),
            chosen.len() == threshold,
            forall|m: int| 0 <= m < positions.len() ==> (#[trigger] positions[m]) < shares.len(),
            forall|m: int| 0 <= m < threshold ==> chosen[m] == positions[m] as int,
            forall|m: int| 0 <= m < k ==> (#[trigger] points[m])@ == points_spec[m],
        decreases threshold - k,
    {
        let position = positions[k];
        points.push(Scalar::from_index(shares[position].decryptor_index));
        k += 1;
    }
    proof {
        assert(scalar_values(points@) =~= points_spec);
        assert(pairwise_distinct(points_spec)) by {
            assert forall|a: int, b: int|
                0 <= a < points_spec.len() && 0 <= b < points_spec.len() && a != b implies
                points_spec[a] != points_spec[b] by {
                let occurrences = first_occurrences(indices);
                let pa = occurrences[a];
                let pb = occurrences[b];
                assert(chosen[a] == pa && chosen[b] == pb);
                assert(indices[pa] == shares@[pa].decryptor_index);
                assert(indices[pb] == shares@[pb].decryptor_index);
                if a < b {
                    assert(pa < pb);
                    assert(is_first_occurrence(indices, pb));
                } else {
                    assert(pb < pa);
                    assert(is_first_occurrence(indices, pa));
                }
            }
        }
    }
    let weights = match lagrange_coefficients(&points) {
        Ok(weights) => weights,
        Err(e) => {
            return Err(e);
        },
    };
    let ghost weights_spec = lagrange_weights(points_spec);
    proof {
        assert(scalar_values(weights@) == weights_spec);
        assert(scalar_values(weights@).len() == weights.len());
        assert(weights_spec.len() == points_spec.len());
        assert(weights.len() == threshold);
        assert forall|m: int| 0 <= m < threshold implies (#[trigger] weights[m])@
            == weights_spec[m] by {
            assert(scalar_values(weights@)[m] == weights[m]@);
        }
    }

    // The sum of the shares, each weighted by its Lagrange coefficient.
    let first = positions[0];
    let mut combined = shares[first].decryption_share.mul(&weights[0]);
    let mut k: usize = 1;
    while k < threshold
        invariant
            1 <= threshold <= positions.len(),
            1 <= k <= threshold,
            weights.len() == threshold,
            chosen == selected_positions(shares@, threshold as nat),
            elements_spec == selected_elements(shares@, threshold as nat),
            chosen.len() == threshold,
            forall|m: int| 0 <= m < positions.len() ==> (#[trigger] positions[m]) < shares.len(),
            forall|m: int| 0 <= m < threshold ==> chosen[m] == positions[m] as int,
            forall|m: int| 0 <= m < threshold ==> (#[trigger] weights[m])@ == weights_spec[m],
            combined@ == weighted_sum(elements_spec, weights_spec, k as int),
        decreases threshold - k,
    {
        let position = positions[k];
        let term = shares[position].decryption_share.mul(&weights[k]);
        combined = combined.add(&term);
        k += 1;
    }

    let encoded = combined.to_bytes();
    let stream_key = derive_key(encoded.as_slice());
    match apply_stream(stream_key.as_slice(), c.ciphertext.as_slice()) {
        Some(bytes) => Ok(bytes),
        None => Err(ThresholdEncryptionError::DecryptionFailed),
    }
}

/// Decryption undoes encryption once the shares combine to the element
/// that the encryptor derived the symmetric key from.
pub proof fn lemma_combination_recovers_message(
    key: EncryptionPubkey,
    msg: Seq<u8>,
    additional_data: Seq<u8>,
    r: nat,
    c: Ciphertext,
    shares: Seq<DecryptionShare>,
    threshold: nat,
)
    requires
        key.encrypts_to(msg, additional_data, r, c),
        combined_element(shares, threshold) == g1_scalar_product(key.key@, r),
    ensures
        combined_plaintext(c.ciphertext@, shares, threshold) == msg,
{
    lemma_stream_round_trip(symmetric_key(g1_scalar_product(key.key@, r)), msg);
}

} // verus!
