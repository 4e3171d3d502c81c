//! The stable hash that derives identifiers from names: index ids, keyspaces
//! and the names of shadow fields.

use crate::text::{decimal, push_decimal, string_of};
use vstd::prelude::*;
use vstd::string::StringSliceAdditionalSpecFns;

verus! {

/// The CRC-32 checksum of a byte sequence, as `crc32fast::hash` computes it.
pub uninterp spec fn crc32(bytes: Seq<u8>) -> u32;

/// `crc32fast::hash` feeds the whole slice to a fresh hasher and returns the
/// finished checksum: a function of the bytes and of nothing else.
pub assume_specification[ crc32fast::hash ](buf: &[u8]) -> (sum: u32)
    ensures
        sum == crc32(buf@),
;

/// The stable hash of a name: the CRC-32 of its UTF-8 encoding.
pub open spec fn stable_hash(name: Seq<char>) -> u32 {
    crc32(vstd::utf8::encode_utf8(name))
}

/// Hashes `name` with the stable hash.
pub fn hash_name(name: &str) -> (hash: u32)
    ensures
        hash == stable_hash(name@),
{
    crc32fast::hash(name.as_bytes())
}

/// The characters of the shadow-field name that belongs to a field whose
/// name hashes to `hash`: an underscore followed by the hash in decimal.
pub open spec fn shadow_name_for(hash: u32) -> Seq<char> {
    seq!['_'] + decimal(hash as nat)
}

/// The name of the shadow field of the field called `name`.
pub open spec fn shadow_name(name: Seq<char>) -> Seq<char> {
    shadow_name_for(stable_hash(name))
}

/// Renders the shadow-field name for a field whose name hashes to `hash`.
pub fn shadow_field_name(hash: u32) -> (out: String)
    ensures
        out@ == shadow_name_for(hash),
{
    let mut chars: Vec<char> = Vec::new();
    chars.push('_');
    push_decimal(&mut chars, hash as u64);
    assert(chars@ =~= shadow_name_for(hash));
    string_of(&chars)
}

/// The name of the shadow field that holds the pre-processed variants of the
/// field called `name`.
pub fn shadow_field_of(name: &str) -> (out: String)
    ensures
        out@ == shadow_name(name@),
{
    shadow_field_name(hash_name(name))
}

} // verus!
