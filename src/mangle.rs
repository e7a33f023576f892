//! Derivation of globally unique crate names from GN directories.
use vstd::prelude::*;
use crate::ascii::{DIGIT_ZERO, LOWER_A, UNDERSCORE};
use crate::bytes::append_bytes;

verus! {

/// The SHA-256 digest of a byte string.
pub uninterp spec fn sha256_of(bytes: Seq<u8>) -> Seq<u8>;

/// Relies on `hmac_sha256::Hash::hash`: the 32-byte SHA-256 digest of the input.
#[verifier::external_body]
fn sha256(input: &[u8]) -> (r: Vec<u8>)
    ensures
        r@ == sha256_of(input@),
        r@.len() == 32,
{
    hmac_sha256::Hash::hash(input).to_vec()
}

/// The lowercase hexadecimal digit for a value below 16.
pub open spec fn hex_digit(n: u8) -> u8
    recommends
        n < 16,
{
    if n < 10 {
        (DIGIT_ZERO + n) as u8
    } else {
        (LOWER_A + (n - 10)) as u8
    }
}

/// Two lowercase hexadecimal digits for one byte, high nibble first.
pub open spec fn hex_byte(b: u8) -> Seq<u8> {
    seq![hex_digit(b / 16), hex_digit(b % 16)]
}

/// The eight-digit suffix taken from the first four bytes of a digest.
pub open spec fn hash_suffix(digest: Seq<u8>) -> Seq<u8> {
    hex_byte(digest[0]) + hex_byte(digest[1]) + hex_byte(digest[2]) + hex_byte(digest[3])
}

/// GN's `string_hash`: the first eight hexadecimal digits of the SHA-256 digest.
pub open spec fn gn_hash(s: Seq<u8>) -> Seq<u8> {
    hash_suffix(sha256_of(s))
}

/// The crate name of target `target_name` in the GN directory `dir`.
pub open spec fn mangled_name(dir: Seq<u8>, target_name: Seq<u8>) -> Seq<u8> {
    target_name + seq![UNDERSCORE] + gn_hash(dir)
}

fn hex_digit_of(n: u8) -> (r: u8)
    requires
        n < 16,
    ensures
        r == hex_digit(n),
{
    if n < 10 {
        DIGIT_ZERO + n
    } else {
        LOWER_A + (n - 10)
    }
}

fn push_hex_byte(r: &mut Vec<u8>, b: u8)
    ensures
        final(r)@ == old(r)@ + hex_byte(b),
{
    r.push(hex_digit_of(b / 16));
    r.push(hex_digit_of(b % 16));
    assert(final(r)@ =~= old(r)@ + hex_byte(b));
}

/// Hex-encodes the first four bytes of `digest` as eight lowercase digits.
pub fn hash_suffix_of(digest: &[u8]) -> (r: Vec<u8>)
    requires
        digest@.len() >= 4,
    ensures
        r@ == hash_suffix(digest@),
{
    let mut r: Vec<u8> = Vec::new();
    push_hex_byte(&mut r, digest[0]);
    push_hex_byte(&mut r, digest[1]);
    push_hex_byte(&mut r, digest[2]);
    push_hex_byte(&mut r, digest[3]);
    assert(r@ =~= hash_suffix(digest@));
    r
}

/// GN's `string_hash` of `s`: eight lowercase hexadecimal digits of its SHA-256 digest.
pub fn gn_string_hash(s: &[u8]) -> (r: Vec<u8>)
    ensures
        r@ == gn_hash(s@),
{
    let digest = sha256(s);
    hash_suffix_of(digest.as_slice())
}

/// Joins a target name and a hash suffix with an underscore.
pub fn join_name_and_suffix(target_name: &[u8], suffix: &[u8]) -> (r: Vec<u8>)
    ensures
        r@ == target_name@ + seq![UNDERSCORE] + suffix@,
{
    let mut r: Vec<u8> = Vec::new();
    append_bytes(&mut r, target_name);
    r.push(UNDERSCORE);
    append_bytes(&mut r, suffix);
    r
}

/// Mangles the GN target `dir:target_name` into a crate name that is unique
/// within a GN build graph: the target name, an underscore, and GN's
/// `string_hash` of the directory.
pub fn mangle_crate_name(dir: &[u8], target_name: &[u8]) -> (r: Vec<u8>)
    requires
        target_name@.len() > 0,
    ensures
        r@ == mangled_name(dir@, target_name@),
{
    let dir_hash = gn_string_hash(dir);
    join_name_and_suffix(target_name, dir_hash.as_slice())
}

/// Mangling is a function of its arguments: the same directory and target
/// name always give the same crate name.
pub proof fn mangle_is_deterministic(dir1: Seq<u8>, name1: Seq<u8>, dir2: Seq<u8>, name2: Seq<u8>)
    requires
        dir1 == dir2,
        name1 == name2,
    ensures
        mangled_name(dir1, name1) == mangled_name(dir2, name2),
{
}

} // verus!
