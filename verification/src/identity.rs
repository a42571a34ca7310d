//! The identity of a task: a 64-bit fingerprint of its description, by which
//! the events of one task are found again.
//!
//! The fingerprint is the FNV-1a hash of the description's UTF-8 bytes. It is
//! fixed by its definition, so a fingerprint that was stored compares with one
//! that is computed later. Two descriptions are the same task only if they are
//! the same text, byte for byte: case and white space count. Two different
//! descriptions may share a fingerprint; they then count as one task.

use vstd::prelude::*;
use vstd::utf8::encode_utf8;

verus! {

/// The value that FNV-1a starts from.
pub const FNV_OFFSET_BASIS: u64 = 0xcbf2_9ce4_8422_2325;

/// The number that FNV-1a multiplies by.
pub const FNV_PRIME: u64 = 0x0000_0100_0000_01b3;

/// The 64-bit FNV-1a hash: from the offset basis, each byte in turn is mixed
/// in with exclusive or, and the result multiplied by the prime, modulo 2^64.
pub open spec fn fnv1a(bytes: Seq<u8>) -> u64
    decreases bytes.len(),
{
    if bytes.len() == 0 {
        FNV_OFFSET_BASIS
    } else {
        (fnv1a(bytes.drop_last()) ^ (bytes.last() as u64)).wrapping_mul(FNV_PRIME)
    }
}

/// The fingerprint of a task description.
pub open spec fn fingerprint(task: Seq<char>) -> u64 {
    fnv1a(encode_utf8(task))
}

/// The key that stands for a task description.
#[derive(Clone, Copy, Debug, PartialEq, Eq, Structural, Hash)]
pub struct TaskIdentity {
    pub value: u64,
}

/// The identity of a task description.
pub fn identity_of(task: &str) -> (id: TaskIdentity)
    ensures
        id.value == fingerprint(task@),
{
    let bytes = task.as_bytes();
    let mut hash: u64 = FNV_OFFSET_BASIS;
    let mut i: usize = 0;
    while i < bytes.len()
        invariant
            i <= bytes@.len(),
            hash == fnv1a(bytes@.take(i as int)),
        decreases bytes@.len() - i,
    {
        proof {
            assert(bytes@.take(i + 1).drop_last() == bytes@.take(i as int));
        }
        hash = (hash ^ (bytes[i] as u64)).wrapping_mul(FNV_PRIME);
        i = i + 1;
    }
    proof {
        assert(bytes@.take(i as int) == bytes@);
    }
    TaskIdentity { value: hash }
}

/// The identity depends on the text alone: the same description has the same
/// fingerprint, whenever and wherever it is computed.
pub proof fn lemma_identity_is_stable(first: Seq<char>, second: Seq<char>)
    requires
        first == second,
    ensures
        fingerprint(first) == fingerprint(second),
{
}

} // verus!
