//! Primitive layer: hashing, hash-to-curve, scalar blinding, and point
//! decoding. The cryptographic work is done by outside crates behind trusted
//! wrappers; each wrapper's contract names the operation's result, and the
//! rest of the library is verified against those names.

use vstd::prelude::*;
use crate::error::PsiError;

verus! {

/// The 32-byte digest that SHA-512 (truncated to its first 32 bytes)
/// assigns to an input; a function of the input bytes alone.
pub uninterp spec fn digest_of(input: Seq<u8>) -> Seq<u8>;

/// The canonical 32-byte encoding of the group element that the
/// hash-to-curve construction assigns to a digest; a function of the digest
/// bytes alone.
pub uninterp spec fn curve_point_of(digest: Seq<u8>) -> Seq<u8>;

/// The canonical 32-byte encoding of `scalar * P`, where `P` is the group
/// element encoded by `point` and the scalar is read from `scalar` reduced
/// modulo the group order; a function of the two byte strings alone.
/// Meaningful only when `point_decodes(point)` holds.
pub uninterp spec fn scalar_mult_of(point: Seq<u8>, scalar: Seq<u8>) -> Seq<u8>;

/// Whether 32 bytes are the canonical encoding of a group element, i.e.
/// whether decompression succeeds on them.
pub uninterp spec fn point_decodes(encoding: Seq<u8>) -> bool;

/// The compressed single-blinded point for a digest under a secret scalar:
/// the digest's curve point multiplied by the secret.
pub open spec fn blinded_of(digest: Seq<u8>, secret: Seq<u8>) -> Seq<u8> {
    scalar_mult_of(curve_point_of(digest), secret)
}

/// The compressed double-blinded point for a digest: its curve point
/// multiplied first by `s_inner`, and the result by `s_outer`.
pub open spec fn joint_of(digest: Seq<u8>, s_inner: Seq<u8>, s_outer: Seq<u8>) -> Seq<u8> {
    scalar_mult_of(blinded_of(digest, s_inner), s_outer)
}

/// Hash a byte string to a 32-byte digest.
///
/// Relies on sha2's `Sha512` (`new`, `update`, `finalize`): the digest is a
/// deterministic function of the input bytes; the result here is the first
/// 32 bytes of the 64-byte SHA-512 output.
#[verifier::external_body]
pub fn hash_bytes(input: &[u8]) -> (r: [u8; 32])
    ensures
        r@ == digest_of(input@),
{
    let mut hasher = <sha2::Sha512 as sha2::Digest>::new();
    sha2::Digest::update(&mut hasher, input);
    let result = sha2::Digest::finalize(hasher);
    let mut hash = [0u8; 32];
    hash.copy_from_slice(&result[..32]);
    hash
}

/// Map a 32-byte digest to the canonical encoding of a group element.
///
/// Relies on curve25519_dalek's `RistrettoPoint::hash_from_bytes::<Sha512>`
/// and `compress`: the point is a deterministic function of the input bytes,
/// and `compress` produces the canonical encoding of a group element, which
/// decompression accepts.
#[verifier::external_body]
pub fn hash_to_point(hash: &[u8; 32]) -> (r: [u8; 32])
    ensures
        r@ == curve_point_of(hash@),
        point_decodes(r@),
{
    curve25519_dalek::ristretto::RistrettoPoint::hash_from_bytes::<sha2::Sha512>(hash.as_slice())
        .compress()
        .to_bytes()
}

/// Check that 32 bytes are the canonical encoding of a group element,
/// handing back the encoding itself on success.
///
/// Relies on curve25519_dalek's `CompressedRistretto::decompress`, which
/// returns `Some` exactly when the bytes are the canonical encoding of a
/// point, and on the Ristretto encoding being canonical: compressing the
/// decompressed point gives back the same 32 bytes.
#[verifier::external_body]
pub fn decompress_point(compressed: &[u8; 32]) -> (r: Result<[u8; 32], PsiError>)
    ensures
        r is Ok <==> point_decodes(compressed@),
        r matches Ok(p) ==> p@ == compressed@,
        r matches Err(e) ==> (e matches PsiError::CryptoError(m)
            && m@ == "Failed to decompress Ristretto point"@),
{
    match curve25519_dalek::ristretto::CompressedRistretto(*compressed).decompress() {
        Some(point) => Ok(point.compress().to_bytes()),
        None => Err(PsiError::CryptoError(
            "Failed to decompress Ristretto point".to_owned(),
        )),
    }
}

/// Multiply the group element encoded by `point` by the scalar read from
/// `secret`, and compress the result to its canonical encoding.
///
/// Relies on curve25519_dalek's `Scalar::from_bytes_mod_order`,
/// scalar-by-point multiplication, and `compress`. The result is a
/// deterministic function of the two byte arguments, and it is again a
/// canonical encoding. The last clause is the commutativity of scalar
/// multiplication: when the input encodes `s * H(d)`, the result encodes
/// `secret * s * H(d) == s * (secret * H(d))`, the same group element the
/// peer reaches by applying the scalars in the other order, and equal group
/// elements have equal canonical encodings.
#[verifier::external_body]
pub fn blind_point(point: &[u8; 32], secret: &[u8; 32]) -> (r: [u8; 32])
    requires
        point_decodes(point@),
    ensures
        r@ == scalar_mult_of(point@, secret@),
        point_decodes(r@),
        forall|d: Seq<u8>, s: Seq<u8>|
            point@ == #[trigger] blinded_of(d, s) ==> r@ == scalar_mult_of(blinded_of(d, secret@), s),
{
    let s = curve25519_dalek::Scalar::from_bytes_mod_order(*secret);
    let p = curve25519_dalek::ristretto::CompressedRistretto(*point)
        .decompress()
        .expect("canonical point encoding");
    (s * p).compress().to_bytes()
}

/// Draw a uniformly random scalar and hand back its canonical byte form.
///
/// Relies on rand's `OsRng` and curve25519_dalek's `Scalar::random`: the
/// scalar comes from the operating system's entropy source, and the process
/// aborts if that source is unavailable. Nothing is promised of the value;
/// every contract downstream holds for every 32-byte secret.
#[verifier::external_body]
pub fn random_scalar() -> (r: [u8; 32]) {
    let mut rng = rand::rngs::OsRng;
    curve25519_dalek::Scalar::random(&mut rng).to_bytes()
}

/// The digests of a sequence of items, in order.
pub open spec fn digests_of_items(items: Seq<Seq<u8>>) -> Seq<Seq<u8>> {
    items.map_values(|it: Seq<u8>| digest_of(it))
}

/// First-occurrence deduplication of a sequence of byte strings: every
/// element keeps the position of its first appearance, later repeats drop.
pub open spec fn dedup(s: Seq<Seq<u8>>) -> Seq<Seq<u8>>
    decreases s.len(),
{
    if s.len() == 0 {
        Seq::<Seq<u8>>::empty()
    } else {
        let prefix = dedup(s.drop_last());
        if prefix.contains(s.last()) {
            prefix
        } else {
            prefix.push(s.last())
        }
    }
}

/// Deduplication keeps exactly the elements of the sequence, without
/// duplicates.
pub proof fn lemma_dedup(s: Seq<Seq<u8>>)
    ensures
        forall|x: Seq<u8>| dedup(s).contains(x) <==> s.contains(x),
        dedup(s).no_duplicates(),
    decreases s.len(),
{
    if s.len() == 0 {
    } else {
        lemma_dedup(s.drop_last());
        assert forall|x: Seq<u8>| s.contains(x) implies dedup(s).contains(x) by {
            let i = choose|i: int| 0 <= i < s.len() && s[i] == x;
            if i < s.len() - 1 {
                assert(s.drop_last()[i] == x);
                assert(s.drop_last().contains(x));
                if !dedup(s.drop_last()).contains(s.last()) {
                    let j = choose|j: int|
                        0 <= j < dedup(s.drop_last()).len() && dedup(s.drop_last())[j] == x;
                    assert(dedup(s)[j] == x);
                }
            } else {
                if dedup(s.drop_last()).contains(s.last()) {
                } else {
                    assert(dedup(s).last() == x);
                }
            }
        }
        assert forall|x: Seq<u8>| dedup(s).contains(x) implies s.contains(x) by {
            let prefix = dedup(s.drop_last());
            let j = choose|j: int| 0 <= j < dedup(s).len() && dedup(s)[j] == x;
            if j < prefix.len() {
                assert(prefix[j] == x);
                assert(prefix.contains(x));
                assert(s.drop_last().contains(x));
                let i = choose|i: int| 0 <= i < s.drop_last().len() && s.drop_last()[i] == x;
                assert(s[i] == x);
            } else {
                assert(x == s.last());
                assert(s[s.len() - 1] == x);
            }
        }
    }
}

/// The digests of a sequence of digest–point pairs, in order.
pub open spec fn pair_firsts(s: Seq<([u8; 32], [u8; 32])>) -> Seq<Seq<u8>> {
    s.map_values(|p: ([u8; 32], [u8; 32])| p.0@)
}

/// Byte-for-byte equality of two 32-byte values.
pub fn bytes_eq(a: &[u8; 32], b: &[u8; 32]) -> (r: bool)
    ensures
        r == (a@ == b@),
{
    let mut i: usize = 0;
    while i < 32
        invariant
            0 <= i <= 32,
            forall|j: int| 0 <= j < i ==> a@[j] == b@[j],
        decreases 32 - i,
    {
        if a[i] != b[i] {
            assert(a@ != b@);
            return false;
        }
        i = i + 1;
    }
    assert(a@ =~= b@);
    true
}

/// Hash each input to its 32-byte digest, in order.
pub fn hash_multiple(inputs: &[Vec<u8>]) -> (r: Vec<[u8; 32]>)
    ensures
        r@.len() == inputs@.len(),
        forall|i: int| 0 <= i < inputs@.len() ==> r@[i]@ == digest_of(#[trigger] inputs@[i]@),
{
    let mut out: Vec<[u8; 32]> = Vec::new();
    let n = inputs.len();
    let mut i: usize = 0;
    while i < n
        invariant
            n == inputs@.len(),
            0 <= i <= n,
            out@.len() == i,
            forall|j: int| 0 <= j < i ==> out@[j]@ == digest_of(#[trigger] inputs@[j]@),
        decreases n - i,
    {
        out.push(hash_bytes(inputs[i].as_slice()));
        i = i + 1;
    }
    out
}

/// Whether some pair in the vector carries the given digest.
fn contains_digest(pairs: &Vec<([u8; 32], [u8; 32])>, d: &[u8; 32]) -> (r: bool)
    ensures
        r == pair_firsts(pairs@).contains(d@),
{
    let n = pairs.len();
    let mut i: usize = 0;
    while i < n
        invariant
            n == pairs@.len(),
            0 <= i <= n,
            forall|j: int| 0 <= j < i ==> pair_firsts(pairs@)[j] != d@,
        decreases n - i,
    {
        if bytes_eq(&pairs[i].0, d) {
            assert(pair_firsts(pairs@)[i as int] == d@);
            return true;
        }
        i = i + 1;
    }
    false
}

/// Whether the vector holds a 32-byte value equal to the given one.
pub fn contains_point(points: &Vec<[u8; 32]>, p: &[u8; 32]) -> (r: bool)
    ensures
        r == crate::byte_views(points@).contains(p@),
{
    let n = points.len();
    let mut i: usize = 0;
    while i < n
        invariant
            n == points@.len(),
            0 <= i <= n,
            forall|j: int| 0 <= j < i ==> crate::byte_views(points@)[j] != p@,
        decreases n - i,
    {
        if bytes_eq(&points[i], p) {
            assert(crate::byte_views(points@)[i as int] == p@);
            return true;
        }
        i = i + 1;
    }
    false
}

/// Hash every input to its digest and map each distinct digest to its curve
/// point. Duplicate items collapse to one entry — digest identity, not
/// position, is canonical — and first-occurrence order is kept.
pub fn hash_inputs_to_points(inputs: &[Vec<u8>]) -> (r: Vec<([u8; 32], [u8; 32])>)
    ensures
        pair_firsts(r@) == dedup(digests_of_items(crate::item_views(inputs@))),
        forall|i: int| 0 <= i < r@.len() ==> (#[trigger] r@[i]).1@ == curve_point_of(r@[i].0@)
            && point_decodes(r@[i].1@),
{
    let ghost all = digests_of_items(crate::item_views(inputs@));
    let mut out: Vec<([u8; 32], [u8; 32])> = Vec::new();
    let n = inputs.len();
    let mut i: usize = 0;
    while i < n
        invariant
            n == inputs@.len(),
            0 <= i <= n,
            all == digests_of_items(crate::item_views(inputs@)),
            pair_firsts(out@) =~= dedup(all.take(i as int)),
            forall|j: int| 0 <= j < out@.len() ==> (#[trigger] out@[j]).1@ == curve_point_of(
                out@[j].0@,
            ) && point_decodes(out@[j].1@),
        decreases n - i,
    {
        let digest = hash_bytes(inputs[i].as_slice());
        assert(digest@ == all[i as int]);
        assert(all.take(i + 1 as int).drop_last() =~= all.take(i as int));
        assert(all.take(i + 1 as int).last() == all[i as int]);
        if !contains_digest(&out, &digest) {
            let point = hash_to_point(&digest);
            out.push((digest, point));
            assert(pair_firsts(out@) =~= pair_firsts(out@.drop_last()).push(digest@));
        }
        i = i + 1;
    }
    assert(all.take(n as int) =~= all);
    out
}

/// Blind every point in a digest–point vector with the same secret,
/// keeping digests and order.
pub fn blind_points(points: &Vec<([u8; 32], [u8; 32])>, secret: &[u8; 32]) -> (r: Vec<
    ([u8; 32], [u8; 32]),
>)
    requires
        forall|i: int| 0 <= i < points@.len() ==> point_decodes((#[trigger] points@[i]).1@),
    ensures
        r@.len() == points@.len(),
        forall|i: int| 0 <= i < points@.len() ==> (#[trigger] r@[i]).0 == points@[i].0 && r@[i].1@
            == scalar_mult_of(points@[i].1@, secret@) && point_decodes(r@[i].1@),
{
    let mut out: Vec<([u8; 32], [u8; 32])> = Vec::new();
    let n = points.len();
    let mut i: usize = 0;
    while i < n
        invariant
            n == points@.len(),
            0 <= i <= n,
            out@.len() == i,
            forall|j: int| 0 <= j < points@.len() ==> point_decodes((#[trigger] points@[j]).1@),
            forall|j: int| 0 <= j < i ==> (#[trigger] out@[j]).0 == points@[j].0 && out@[j].1@
                == scalar_mult_of(points@[j].1@, secret@) && point_decodes(out@[j].1@),
        decreases n - i,
    {
        let blinded = blind_point(&points[i].1, secret);
        out.push((points[i].0, blinded));
        i = i + 1;
    }
    out
}

} // verus!
