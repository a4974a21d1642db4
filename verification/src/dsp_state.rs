//! Best-effort layout probe for keeping a plugin's DSP state over a reload.
//!
//! A fingerprint is a heuristic: it moves with the path, the size and the
//! alignment of the state's type. It does not see two fields of one size change
//! places, nor what changes behind a pointer.
use vstd::prelude::*;
use vstd::string::*;

verus! {

/// The fingerprint that never matches, for a state with nothing to keep.
pub const NO_PRESERVE: u64 = 0;

pub const FINGERPRINT_SEED: u64 = 0xcbf2_9ce4_8422_2325;

pub const FNV_PRIME: u64 = 0x0000_0100_0000_01b3;

pub const SIZE_FACTOR: u64 = 0x9e37_79b9_7f4a_7c15;

pub const ALIGN_FACTOR: u64 = 0xff51_afd7_ed55_8ccd;

/// A product of 64-bit numbers, cut to 64 bits.
pub open spec fn cut_product(a: u64, b: u64) -> u64 {
    (a * b % 0x1_0000_0000_0000_0000) as u64
}

/// A 64-bit number rotated to the left by 17 bits.
pub open spec fn rotated(n: u64) -> u64 {
    ((n % 0x8000_0000_0000) * 0x2_0000 + n / 0x8000_0000_0000) as u64
}

/// The hash with some bytes folded in, one after the other.
pub open spec fn folded(hash: u64, bytes: Seq<u8>) -> u64
    decreases bytes.len(),
{
    if bytes.len() == 0 {
        hash
    } else {
        cut_product(folded(hash, bytes.drop_last()) ^ (bytes.last() as u64), FNV_PRIME)
    }
}

/// The fingerprint of a type with this path, size and alignment.
pub open spec fn fingerprint_of(path: Seq<u8>, size: u64, align: u64) -> u64 {
    if size == 0 {
        NO_PRESERVE
    } else {
        let sized = folded(FINGERPRINT_SEED, path) ^ cut_product(size, SIZE_FACTOR);
        let hash = rotated(sized) ^ cut_product(align, ALIGN_FACTOR);
        if hash == NO_PRESERVE {
            1
        } else {
            hash
        }
    }
}

fn multiply(a: u64, b: u64) -> (r: u64)
    ensures
        r == cut_product(a, b),
{
    a.wrapping_mul(b)
}

/// Computes the fingerprint of a type from its path, size and alignment.
pub fn fingerprint(path: &[u8], size: u64, align: u64) -> (r: u64)
    ensures
        r == fingerprint_of(path@, size, align),
{
    if size == 0 {
        return NO_PRESERVE;
    }
    let mut hash: u64 = FINGERPRINT_SEED;
    let mut i: usize = 0;
    while i < path.len()
        invariant
            i <= path@.len(),
            hash == folded(FINGERPRINT_SEED, path@.take(i as int)),
        decreases path@.len() - i,
    {
        proof {
            assert(path@.take(i + 1).drop_last() =~= path@.take(i as int));
        }
        hash = multiply(hash ^ (path[i] as u64), FNV_PRIME);
        i = i + 1;
    }
    proof {
        assert(path@.take(i as int) =~= path@);
    }
    hash = hash ^ multiply(size, SIZE_FACTOR);
    let turned: u64 = (hash % 0x8000_0000_0000) * 0x2_0000 + hash / 0x8000_0000_0000;
    hash = turned ^ multiply(align, ALIGN_FACTOR);
    if hash == NO_PRESERVE {
        1
    } else {
        hash
    }
}

/// The layout fingerprint of a DSP state type, whose full path with any generic
/// arguments is `path`. A type without size has nothing to keep; any other has a
/// real fingerprint.
#[must_use]
pub fn layout_fingerprint<S>(path: &str) -> (r: u64)
    ensures
        r == fingerprint_of(
            path.spec_bytes(),
            vstd::layout::size_of::<S>() as u64,
            vstd::layout::align_of::<S>() as u64,
        ),
        r == NO_PRESERVE <==> vstd::layout::size_of::<S>() == 0,
{
    let size: usize = core::mem::size_of::<S>();
    let align: usize = core::mem::align_of::<S>();
    fingerprint(path.as_bytes(), size as u64, align as u64)
}

/// Whether DSP state that was made under the fingerprint `held` may live on under
/// code that reports `reloaded`.
#[must_use]
pub fn may_preserve(reloaded: u64, held: u64) -> (r: bool)
    ensures
        r == preserves(reloaded, held),
{
    reloaded != NO_PRESERVE && reloaded == held
}

/// Two real fingerprints that match.
pub open spec fn preserves(reloaded: u64, held: u64) -> bool {
    reloaded != NO_PRESERVE && reloaded == held
}

/// The fingerprint of a type without size never keeps state, not even against
/// itself; a real one keeps it against itself alone.
pub proof fn law_only_equal_real_fingerprints_preserve(a: u64, b: u64)
    ensures
        !preserves(NO_PRESERVE, a),
        !preserves(a, NO_PRESERVE),
        a != NO_PRESERVE ==> preserves(a, a),
        preserves(a, b) == preserves(b, a),
        preserves(a, b) ==> a == b,
{
}

/// A rotation moves each bit 17 places up, and the highest 17 to the bottom: the lowest 47
/// bits come first and nothing is lost.
pub proof fn law_rotation_moves_the_bits(n: u64)
    ensures
        rotated(n) == (n << 17u64) | (n >> 47u64),
{
    assert(((n % 0x8000_0000_0000) * 0x2_0000 + n / 0x8000_0000_0000) as u64 == ((n << 17u64) | (n
        >> 47u64))) by (bit_vector);
    assert((n % 0x8000_0000_0000) * 0x2_0000 + n / 0x8000_0000_0000 <= u64::MAX);
}

/// A byte more goes into the hash by the multiplication that FNV-1a has for it, behind the
/// bytes in front of it; products keep their lowest 64 bits.
pub proof fn law_bytes_are_folded_in_turn(hash: u64, bytes: Seq<u8>, b: u8)
    ensures
        folded(hash, Seq::empty()) == hash,
        folded(hash, bytes.push(b)) as int == ((folded(hash, bytes) ^ (b as u64))
            * 1099511628211) % 18446744073709551616,
{
    assert(bytes.push(b).drop_last() =~= bytes);
}

/// The fingerprint of a type depends on its path, its size and its alignment: the hash of
/// the path, mixed with the size, turned, and mixed with the alignment. It is zero exactly
/// for a type without size.
pub proof fn law_fingerprints_mix_path_size_and_alignment(path: Seq<u8>, size: u64, align: u64)
    ensures
        fingerprint_of(path, size, align) == 0 <==> size == 0,
        size > 0 ==> ({
            let by_size = (size * 11400714819323198485int) % 18446744073709551616;
            let by_align = (align * 18397679294719823053int) % 18446744073709551616;
            let mixed = folded(14695981039346656037, path) ^ (by_size as u64);
            let hash = ((mixed << 17u64) | (mixed >> 47u64)) ^ (by_align as u64);
            fingerprint_of(path, size, align) == if hash == 0 {
                1
            } else {
                hash
            }
        }),
{
    let mixed = folded(FINGERPRINT_SEED, path) ^ cut_product(size, SIZE_FACTOR);
    law_rotation_moves_the_bits(mixed);
}

} // verus!
