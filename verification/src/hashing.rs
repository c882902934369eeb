//! The hash transform: a fixed, unseeded 64-bit hash of a text.

use std::hash::DefaultHasher;
use std::hash::Hasher;
use vstd::prelude::*;
use vstd::std_specs::hash::DefaultHasherAdditionalSpecFns;
use vstd::utf8::encode_utf8;

verus! {

/// The hash of a text: what a freshly made `DefaultHasher`, which has fixed
/// keys, returns after it was fed the text's UTF-8 bytes and then the single
/// byte `0xff` that closes a string.
pub open spec fn hash_of(text: Seq<char>) -> u64 {
    DefaultHasher::spec_finish(seq![encode_utf8(text), seq![0xffu8]])
}

/// Hashes a text. Equal texts have equal hashes, in every run.
pub fn hash_text(text: &str) -> (hash: u64)
    ensures
        hash == hash_of(text@),
{
    let mut hasher = DefaultHasher::new();
    hasher.write(text.as_bytes());
    let mut end: Vec<u8> = Vec::new();
    end.push(0xffu8);
    hasher.write(end.as_slice());
    assert(hasher@ =~~= seq![encode_utf8(text@), seq![0xffu8]]);
    hasher.finish()
}

} // verus!
