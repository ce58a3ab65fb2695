//! The cryptographic primitives the consensus rules rest on: Schnorr signatures
//! and VRF proofs on Ristretto (schnorrkel), HMAC-SHA-256, SHA-256, BLAKE2b-256
//! and Reed-Solomon erasure coding. Each is a function of its arguments alone
//! and is given a name here; the rules built on them are verified elsewhere.

use vstd::prelude::*;

use blake2::Digest as _;
use hmac::Mac as _;

use crate::bytes::byte_strings;

verus! {

/// Whether `signature` is a valid schnorrkel signature by `public_key` on
/// `message` in the signing context `context`.
pub uninterp spec fn schnorr_signature_valid(
    context: Seq<u8>,
    public_key: Seq<u8>,
    message: Seq<u8>,
    signature: Seq<u8>,
) -> bool;

/// Whether `(output, proof)` is a valid schnorrkel VRF output and proof by
/// `public_key` on `input` in the signing context `context`.
pub uninterp spec fn vrf_proof_valid(
    context: Seq<u8>,
    public_key: Seq<u8>,
    input: Seq<u8>,
    output: Seq<u8>,
    proof: Seq<u8>,
) -> bool;

/// HMAC-SHA-256 of `message` under `key`.
pub uninterp spec fn hmac_sha256(key: Seq<u8>, message: Seq<u8>) -> Seq<u8>;

/// SHA-256 of `data`.
pub uninterp spec fn sha256(data: Seq<u8>) -> Seq<u8>;

/// BLAKE2b with a 32-byte output, of `data`.
pub uninterp spec fn blake2b_256(data: Seq<u8>) -> Seq<u8>;

/// The parity shards that Reed-Solomon coding over GF(2^8) computes for the
/// data shards `records`, as many parity shards as data shards.
pub uninterp spec fn reed_solomon_parity(records: Seq<Seq<u8>>) -> Seq<Seq<u8>>;

/// Relies on schnorrkel 0.9 `PublicKey::verify` (with `PublicKey::from_bytes`,
/// `Signature::from_bytes` and `signing_context(context).bytes(message)`):
/// true exactly when both decode and the signature verifies. The transcript
/// (merlin 2) asserts that the context and the message each fit a four-byte
/// length.
#[verifier::external_body]
pub(crate) fn verify_schnorr_signature(
    context: &[u8],
    public_key: &[u8],
    message: &[u8],
    signature: &[u8],
) -> (r: bool)
    requires
        context@.len() <= u32::MAX,
        message@.len() <= u32::MAX,
    ensures
        r == schnorr_signature_valid(context@, public_key@, message@, signature@),
{
    let public_key = match schnorrkel::PublicKey::from_bytes(public_key) {
        Ok(public_key) => public_key,
        Err(_) => return false,
    };
    let signature = match schnorrkel::Signature::from_bytes(signature) {
        Ok(signature) => signature,
        Err(_) => return false,
    };
    public_key.verify(schnorrkel::signing_context(context).bytes(message), &signature).is_ok()
}

/// Relies on schnorrkel 0.9 `PublicKey::vrf_verify` (with `PublicKey::from_bytes`,
/// `VRFOutput::from_bytes`, `VRFProof::from_bytes` and
/// `signing_context(context).bytes(input)`): true exactly when all decode and
/// the proof verifies. The transcript (merlin 2) asserts that the context and
/// the input each fit a four-byte length.
#[verifier::external_body]
pub(crate) fn verify_vrf_proof(
    context: &[u8],
    public_key: &[u8],
    input: &[u8],
    output: &[u8],
    proof: &[u8],
) -> (r: bool)
    requires
        context@.len() <= u32::MAX,
        input@.len() <= u32::MAX,
    ensures
        r == vrf_proof_valid(context@, public_key@, input@, output@, proof@),
{
    let public_key = match schnorrkel::PublicKey::from_bytes(public_key) {
        Ok(public_key) => public_key,
        Err(_) => return false,
    };
    let (output, proof) = match (schnorrkel::vrf::VRFOutput::from_bytes(output), schnorrkel::vrf::VRFProof::from_bytes(proof)) {
        (Ok(output), Ok(proof)) => (output, proof),
        _ => return false,
    };
    public_key.vrf_verify(schnorrkel::signing_context(context).bytes(input), &output, &proof).is_ok()
}

/// Relies on hmac 0.12 `Hmac::<sha2::Sha256>`: `new_from_slice` accepts keys of
/// any length, and the tag has the 32 bytes of a SHA-256 output.
#[verifier::external_body]
pub(crate) fn compute_hmac_sha256(key: &[u8], message: &[u8]) -> (r: Vec<u8>)
    ensures
        r@ == hmac_sha256(key@, message@),
        r@.len() == 32,
{
    let mut mac = hmac::Hmac::<sha2::Sha256>::new_from_slice(key).expect("HMAC takes keys of any length");
    mac.update(message);
    mac.finalize().into_bytes().to_vec()
}

/// Relies on sha2 0.10 `Sha256::digest`: a 32-byte digest.
#[verifier::external_body]
pub(crate) fn compute_sha256(data: &[u8]) -> (r: Vec<u8>)
    ensures
        r@ == sha256(data@),
        r@.len() == 32,
{
    sha2::Sha256::digest(data).to_vec()
}

/// Relies on blake2 0.10 `Blake2b::<U32>::digest`: a 32-byte digest.
#[verifier::external_body]
pub(crate) fn compute_blake2b_256(data: &[u8]) -> (r: Vec<u8>)
    ensures
        r@ == blake2b_256(data@),
        r@.len() == 32,
{
    blake2::Blake2b::<blake2::digest::consts::U32>::digest(data).to_vec()
}

/// Relies on reed-solomon-erasure 4 `galois_8::ReedSolomon::new(n, n)` and
/// `encode_sep`: `new` fails only for no shards or more than 256 in all, and
/// `encode_sep` only for shards that are empty or of unequal lengths; the
/// parity shards have the length of the data shards.
#[verifier::external_body]
pub(crate) fn compute_reed_solomon_parity(records: &Vec<Vec<u8>>) -> (r: Vec<Vec<u8>>)
    requires
        0 < records@.len() <= 128,
        forall|i: int| 0 <= i < records@.len() ==> #[trigger] records@[i]@.len() == records@[0]@.len(),
        records@[0]@.len() > 0,
    ensures
        byte_strings(r@) == reed_solomon_parity(byte_strings(records@)),
        r@.len() == records@.len(),
        forall|i: int| 0 <= i < r@.len() ==> #[trigger] r@[i]@.len() == records@[0]@.len(),
{
    let codec = reed_solomon_erasure::galois_8::ReedSolomon::new(records.len(), records.len()).expect("between 1 and 128 data shards");
    let mut parity = vec![vec![0u8; records[0].len()]; records.len()];
    codec.encode_sep(records, &mut parity).expect("non-empty shards of equal length");
    parity
}

} // verus!
