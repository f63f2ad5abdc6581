//! The hash collaborator: an ordered list of integers is laid out as a byte
//! transcript (eight big-endian bytes per integer, in order), digested with
//! SHA-256, and the leading eight digest bytes are read back as an integer.
//!
//! The layout is the canonical transcript contract of the proof layer: a
//! verifier must feed the same integers in the same order to reproduce a
//! challenge.

use vstd::prelude::*;
use crate::encoding::{be_u64_of, u64_be_bytes, value_to_be_bytes, be_bytes_to_value};

verus! {

/// What SHA-256 returns on the given bytes: a function of the input alone,
/// named rather than spelled out.
pub uninterp spec fn sha256_of(input: Seq<u8>) -> Seq<u8>;

/// Relies on sha2::Sha256 through the Digest interface: the digest depends
/// on the input bytes alone and is 32 bytes long.
#[verifier::external_body]
fn sha256_digest(input: &Vec<u8>) -> (r: Vec<u8>)
    ensures
        r@ == sha256_of(input@),
        r@.len() == 32,
{
    <sha2::Sha256 as sha2::Digest>::digest(input.as_slice()).to_vec()
}

/// The byte transcript of a list of integers.
pub open spec fn words_to_bytes(s: Seq<u64>) -> Seq<u8>
    decreases s.len(),
{
    if s.len() == 0 {
        Seq::empty()
    } else {
        words_to_bytes(s.drop_last()) + u64_be_bytes(s.last())
    }
}

/// The integer a list of integers hashes to.
pub open spec fn hash_words(s: Seq<u64>) -> u64 {
    be_u64_of(sha256_of(words_to_bytes(s)))
}

/// Hash an ordered list of integers to a single integer.
pub fn create_hash(values: &[u64]) -> (r: u64)
    ensures
        r == hash_words(values@),
{
    let mut buf: Vec<u8> = Vec::new();
    let mut i: usize = 0;
    while i < values.len()
        invariant
            i <= values@.len(),
            buf@ == words_to_bytes(values@.take(i as int)),
        decreases values@.len() - i,
    {
        let mut word = value_to_be_bytes(values[i]);
        buf.append(&mut word);
        proof {
            let t = values@.take(i + 1 as int);
            assert(t.drop_last() =~= values@.take(i as int));
            assert(t.last() == values@[i as int]);
        }
        i = i + 1;
    }
    proof {
        assert(values@.take(values@.len() as int) =~= values@);
    }
    let digest = sha256_digest(&buf);
    be_bytes_to_value(digest.as_slice())
}

} // verus!
