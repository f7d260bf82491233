//! Content hashing.
//!
//! The block manager addresses blocks by a 64-bit hash of their `c_kv` bytes. The hash is not
//! collision-resistant: it finds candidates, and whoever shares a block compares bytes first.

use vstd::prelude::*;
use xxhash_rust::xxh3::xxh3_64;

use crate::device::{self, DeviceBackend, DevicePtr};
use crate::error::BackendError;

verus! {

/// The 64-bit XXH3 hash of `bytes` with seed 0.
pub uninterp spec fn xxh3(bytes: Seq<u8>) -> u64;

/// `xxhash_rust::xxh3::xxh3_64`: a function of the bytes alone, which [`xxh3`] names.
#[verifier::external_body]
pub(crate) fn xxh3_of(bytes: &[u8]) -> (h: u64)
    ensures
        h == xxh3(bytes@),
{
    xxh3_64(bytes)
}

/// Abstraction over content hashers. An implementation gives the same hash for the same bytes
/// across runs and machines.
pub trait ContentHasher: Sized + Send + Sync {
    /// The hash of `bytes`.
    closed spec fn digest(&self, bytes: Seq<u8>) -> u64 {
        arbitrary()
    }

    /// Name of the hasher.
    closed spec fn label(&self) -> Seq<char> {
        arbitrary()
    }

    /// Whether `e` is a failure of the hasher itself. By default it has none of its own: hashing
    /// on the device fails where reading from it does.
    open spec fn own_failure(&self, e: BackendError) -> bool {
        false
    }

    /// Hash a byte slice.
    fn hash(&self, bytes: &[u8]) -> (h: u64)
        ensures
            h == self.digest(bytes@),
    ;

    /// Implementation name for diagnostics and metrics labels.
    fn name(&self) -> (s: &'static str)
        ensures
            s@ == self.label(),
    ;

    /// Hash `len` bytes at a device pointer: by default, read them to host memory and hash them
    /// there.
    fn hash_device<B: DeviceBackend>(&self, backend: &B, ptr: DevicePtr, len: usize) -> (r:
        std::result::Result<u64, BackendError>)
        ensures
            match r {
                Ok(h) => {
                    &&& device::in_range(backend.regions(), ptr, len as nat)
                    &&& h == self.digest(device::bytes_at(backend.regions(), ptr, len as nat))
                },
                Err(e) => {
                    &&& self.own_failure(e) || call_ensures(
                        B::read_bytes,
                        (backend, ptr, len),
                        Err::<Vec<u8>, BackendError>(e),
                    )
                    &&& !(backend.dependable() && device::in_range(
                        backend.regions(),
                        ptr,
                        len as nat,
                    ))
                },
            },
    {
        match backend.read_bytes(ptr, len) {
            Ok(bytes) => Ok(self.hash(bytes.as_slice())),
            Err(e) => Err(e),
        }
    }
}

/// Default hasher: 64-bit XXH3.
#[derive(Debug, Clone, Copy)]
pub struct Xxh3Hasher;

impl Default for Xxh3Hasher {
    fn default() -> (h: Xxh3Hasher)
        ensures
            h == Xxh3Hasher,
    {
        Xxh3Hasher
    }
}

impl ContentHasher for Xxh3Hasher {
    open spec fn digest(&self, bytes: Seq<u8>) -> u64 {
        xxh3(bytes)
    }

    open spec fn label(&self) -> Seq<char> {
        "xxh3"@
    }

    fn hash(&self, bytes: &[u8]) -> (h: u64) {
        xxh3_of(bytes)
    }

    fn name(&self) -> (s: &'static str) {
        "xxh3"
    }
}

/// Sum of the bytes, each weighted by its position, which starts at 1.
pub open spec fn weighted_sum(bytes: Seq<u8>) -> nat
    decreases bytes.len(),
{
    if bytes.len() == 0 {
        0
    } else {
        weighted_sum(bytes.drop_last()) + bytes.last() as nat * bytes.len()
    }
}

/// Placeholder hasher: the sum of the bytes weighted by their positions, modulo 2^64. Collisions
/// are easy to construct, so it is fit for exercising the device path only.
#[derive(Debug, Clone, Copy)]
pub struct WeightedSumHasher;

impl ContentHasher for WeightedSumHasher {
    open spec fn digest(&self, bytes: Seq<u8>) -> u64 {
        (weighted_sum(bytes) % 0x1_0000_0000_0000_0000) as u64
    }

    open spec fn label(&self) -> Seq<char> {
        "cuda-xxh3-stub"@
    }

    fn hash(&self, bytes: &[u8]) -> (h: u64) {
        let mut acc: u64 = 0;
        let mut i: usize = 0;
        while i < bytes.len()
            invariant
                i <= bytes@.len(),
                acc == weighted_sum(bytes@.take(i as int)) % 0x1_0000_0000_0000_0000,
            decreases bytes.len() - i,
        {
            let b: u64 = bytes[i] as u64;
            let weight: u64 = i as u64 + 1;
            let product: u64 = b.wrapping_mul(weight);
            let next: u64 = acc.wrapping_add(product);
            proof {
                let m = 0x1_0000_0000_0000_0000int;
                let sum = weighted_sum(bytes@.take(i as int)) as int;
                let term = b as int * weight as int;
                assert(bytes@.take(i + 1).drop_last() =~= bytes@.take(i as int));
                assert(weighted_sum(bytes@.take(i + 1)) == sum + term);
                assert(product as int == term % m);
                vstd::arithmetic::div_mod::lemma_add_mod_noop(sum, term, m);
                assert(next as int == (sum % m + term % m) % m);
            }
            acc = next;
            i += 1;
        }
        assert(bytes@.take(bytes@.len() as int) =~= bytes@);
        acc
    }

    fn name(&self) -> (s: &'static str) {
        "cuda-xxh3-stub"
    }
}

/// Every byte counts, by its position: changing the byte at index `i` changes the sum by `i + 1`
/// times the difference.
pub proof fn every_byte_has_its_weight(bytes: Seq<u8>, i: int, b: u8)
    requires
        0 <= i < bytes.len(),
    ensures
        weighted_sum(bytes.update(i, b)) - weighted_sum(bytes) == (b - bytes[i]) * (i + 1),
    decreases bytes.len(),
{
    let new = bytes.update(i, b);
    if i == bytes.len() - 1 {
        assert(new.drop_last() =~= bytes.drop_last());
        let n = bytes.len() as int;
        let x = b as int;
        let y = bytes[i] as int;
        assert(x * n - y * n == (x - y) * n) by (nonlinear_arith);
        assert(new.last() as nat * new.len() == x * n);
        assert(bytes.last() as nat * bytes.len() == y * n);
    } else {
        assert(new.drop_last() =~= bytes.drop_last().update(i, b));
        every_byte_has_its_weight(bytes.drop_last(), i, b);
    }
}

/// Zeros sum to zero.
pub proof fn zeros_weigh_nothing(bytes: Seq<u8>)
    requires
        forall|i: int| 0 <= i < bytes.len() ==> #[trigger] bytes[i] == 0,
    ensures
        weighted_sum(bytes) == 0,
        WeightedSumHasher.digest(bytes) == 0,
    decreases bytes.len(),
{
    if bytes.len() > 0 {
        zeros_weigh_nothing(bytes.drop_last());
        assert(bytes[bytes.len() - 1] == 0);
        let n = bytes.len();
        assert(0 * n == 0) by (nonlinear_arith);
    }
}

/// The placeholder hash is the sum up to multiples of 2^64, and the default hash is XXH3 of all the
/// bytes.
pub proof fn hashes_cover_all_bytes(bytes: Seq<u8>)
    ensures
        Xxh3Hasher.digest(bytes) == xxh3(bytes),
        exists|k: nat|
            weighted_sum(bytes) == WeightedSumHasher.digest(bytes) + #[trigger] (k
                * 0x1_0000_0000_0000_0000nat),
{
    let sum = weighted_sum(bytes);
    let k = sum / 0x1_0000_0000_0000_0000nat;
    assert(sum == sum % 0x1_0000_0000_0000_0000nat + k * 0x1_0000_0000_0000_0000nat);
}

} // verus!
