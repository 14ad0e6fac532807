//! Content fingerprints: BLAKE3 over the whole file for small files, over
//! four evenly spread chunks for large ones.

use vstd::prelude::*;
use crate::text::{owned, to_lower_hex, lower_hex};

verus! {

/// Files of at least this many bytes are fingerprinted from samples (32 MiB).
pub const THRESHOLD_BYTES: u64 = 33554432;

/// The size of each sampled chunk (256 KiB).
pub const CHUNK_SIZE_BYTES: u64 = 262144;

/// How a file is fingerprinted and what is recorded for it.
#[derive(Debug)]
pub struct FingerprintResult {
    pub hash: String,
    pub algo: String,
    pub mode: String,
    pub sample_chunk_bytes: i64,
    pub sample_count: i64,
}

/// Why a file cannot be fingerprinted.
#[derive(Debug, Clone, Copy, PartialEq, Eq, Structural)]
pub enum FingerprintError {
    /// The file is empty.
    EmptyFile,
}

impl FingerprintError {
    /// The text of the error.
    pub fn message(&self) -> (res: String)
        ensures
            res@ == "0-byte file"@,
    {
        owned("0-byte file")
    }
}

/// Which bytes of a file its fingerprint covers.
#[derive(Debug, Clone, PartialEq, Eq)]
pub enum FingerprintPlan {
    /// All bytes of the file.
    Full,
    /// Up to `CHUNK_SIZE_BYTES` bytes from each offset, in order.
    Sampled(Vec<u64>),
}

/// The offsets of the four sampled chunks: start, about a third, about two
/// thirds, and end of the file.
pub open spec fn sample_offsets_of(size: nat) -> Seq<int> {
    seq![
        0,
        (size / 3) - (CHUNK_SIZE_BYTES / 2) as int,
        ((size * 2) / 3) - (CHUNK_SIZE_BYTES / 2) as int,
        size - CHUNK_SIZE_BYTES as int,
    ]
}

/// Decides which bytes of a file of `size_bytes` bytes are hashed.
pub fn plan_fingerprint(size_bytes: u64) -> (res: Result<FingerprintPlan, FingerprintError>)
    requires
        size_bytes <= u64::MAX / 2,
    ensures
        size_bytes == 0 <==> res is Err,
        res matches Ok(FingerprintPlan::Full) <==> 0 < size_bytes < THRESHOLD_BYTES,
        res matches Ok(FingerprintPlan::Sampled(offs)) ==> offs@.map_values(|o: u64| o as int)
            == sample_offsets_of(size_bytes as nat),
        res matches Ok(FingerprintPlan::Sampled(offs)) ==> {
            &&& offs@.len() == 4
            &&& offs@[0] == 0
            &&& offs@[1] == size_bytes / 3 - CHUNK_SIZE_BYTES / 2
            &&& offs@[2] == (2 * size_bytes) / 3 - CHUNK_SIZE_BYTES / 2
            &&& offs@[3] == size_bytes - CHUNK_SIZE_BYTES
        },
{
    if size_bytes == 0 {
        return Err(FingerprintError::EmptyFile);
    }
    if size_bytes < THRESHOLD_BYTES {
        return Ok(FingerprintPlan::Full);
    }
    let mut offs: Vec<u64> = Vec::new();
    offs.push(0);
    offs.push((size_bytes / 3) - (CHUNK_SIZE_BYTES / 2));
    offs.push(((size_bytes * 2) / 3) - (CHUNK_SIZE_BYTES / 2));
    offs.push(size_bytes - CHUNK_SIZE_BYTES);
    assert(offs@.map_values(|o: u64| o as int) =~= sample_offsets_of(size_bytes as nat));
    Ok(FingerprintPlan::Sampled(offs))
}

/// Every sampled chunk lies inside the file, the chunks come in file order
/// without overlapping, and the first starts at the beginning and the last
/// ends at the end.
pub proof fn law_samples_within_file(size: nat)
    requires
        size >= THRESHOLD_BYTES,
    ensures
        forall|i: int| 0 <= i < 4 ==> 0 <= #[trigger] sample_offsets_of(size)[i]
            && sample_offsets_of(size)[i] + CHUNK_SIZE_BYTES <= size,
        forall|i: int, j: int| 0 <= i <= j < 4 ==> sample_offsets_of(size)[i] <= sample_offsets_of(size)[j],
        sample_offsets_of(size)[0] == 0,
        sample_offsets_of(size)[3] + CHUNK_SIZE_BYTES == size,
        forall|i: int| 0 <= i < 3 ==> #[trigger] sample_offsets_of(size)[i] + CHUNK_SIZE_BYTES
            <= sample_offsets_of(size)[i + 1],
{
    let a = size / 3;
    let b = (size * 2) / 3;
    assert(a * 3 <= size < a * 3 + 3) by (nonlinear_arith)
        requires a == size / 3;
    assert(b * 3 <= size * 2 < b * 3 + 3) by (nonlinear_arith)
        requires b == (size * 2) / 3;
}

/// The four sampled chunks of a large file start at its beginning, at a
/// third and at two thirds of its size (each less half a chunk, so the chunk
/// is centred there), and one chunk before its end.
pub proof fn law_sample_offsets(size: nat)
    requires
        size >= THRESHOLD_BYTES,
    ensures
        sample_offsets_of(size) == seq![
            0int,
            size / 3 - 131072,
            (2 * size) / 3 - 131072,
            size - 262144,
        ],
{
    assert(sample_offsets_of(size) =~= seq![0int, size / 3 - 131072, (2 * size) / 3 - 131072, size - 262144]);
}

/// The BLAKE3 digest (32 bytes) of a byte sequence.
pub uninterp spec fn blake3_digest(data: Seq<u8>) -> Seq<u8>;

/// `blake3::hash`: the 32-byte BLAKE3 digest of `data`.  The contract names
/// the digest and states its length; it does not state the algorithm.
#[verifier::external_body]
fn blake3_hash(data: &[u8]) -> (res: Vec<u8>)
    ensures
        res@ == blake3_digest(data@),
        res@.len() == 32,
{
    blake3::hash(data).as_bytes().to_vec()
}

/// The record for a file whose hashed bytes have the given digest.
pub fn fingerprint_from_digest(size_bytes: u64, digest: &[u8]) -> (res: FingerprintResult)
    requires
        size_bytes > 0,
    ensures
        res.hash@ == lower_hex(digest@),
        res.algo@ == "blake3"@,
        size_bytes < THRESHOLD_BYTES ==> res.mode@ == "full_v1"@ && res.sample_chunk_bytes == 0
            && res.sample_count == 0,
        size_bytes >= THRESHOLD_BYTES ==> res.mode@ == "sampled_v1"@ && res.sample_chunk_bytes
            == CHUNK_SIZE_BYTES && res.sample_count == 4,
{
    let hash = to_lower_hex(digest);
    if size_bytes < THRESHOLD_BYTES {
        FingerprintResult {
            hash,
            algo: owned("blake3"),
            mode: owned("full_v1"),
            sample_chunk_bytes: 0,
            sample_count: 0,
        }
    } else {
        FingerprintResult {
            hash,
            algo: owned("blake3"),
            mode: owned("sampled_v1"),
            sample_chunk_bytes: CHUNK_SIZE_BYTES as i64,
            sample_count: 4,
        }
    }
}

/// The fingerprint of a file of `size_bytes` bytes, from the bytes its plan
/// covers (the whole content, or the sampled chunks one after another).
pub fn fingerprint_of_content(size_bytes: u64, hashed: &[u8]) -> (res: Result<FingerprintResult, FingerprintError>)
    ensures
        size_bytes == 0 <==> res is Err,
        res matches Ok(r) ==> r.hash@ == lower_hex(blake3_digest(hashed@)) && r.hash@.len() == 64
            && r.algo@ == "blake3"@
            && (size_bytes < THRESHOLD_BYTES ==> r.mode@ == "full_v1"@ && r.sample_chunk_bytes == 0
            && r.sample_count == 0)
            && (size_bytes >= THRESHOLD_BYTES ==> r.mode@ == "sampled_v1"@ && r.sample_chunk_bytes
            == CHUNK_SIZE_BYTES && r.sample_count == 4),
{
    if size_bytes == 0 {
        return Err(FingerprintError::EmptyFile);
    }
    let digest = blake3_hash(hashed);
    let r = fingerprint_from_digest(size_bytes, digest.as_slice());
    proof {
        crate::text::lemma_lower_hex_len(digest@);
    }
    Ok(r)
}

} // verus!
