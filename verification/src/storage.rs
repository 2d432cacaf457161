//! Keys and replacement rules of the application's caches.

use vstd::prelude::*;
use vstd::utf8::encode_utf8;

use crate::discovery::{hex_lower, hex_string, sha256, sha256_digest};
use crate::text::{push_char, push_text};

verus! {

/// The text a generated view's cache key digests: subject, mode,
/// fingerprint and prompt version separated by NUL characters.
pub open spec fn cache_key_material(
    subject_id: Seq<char>,
    mode: Seq<char>,
    fingerprint: Seq<char>,
    prompt_version: Seq<char>,
) -> Seq<char> {
    subject_id + seq!['\0'] + mode + seq!['\0'] + fingerprint + seq!['\0'] + prompt_version
}

/// The cache key of a generated view: `generated_` and the lower-case
/// hexadecimal SHA-256 digest of its key material.
pub open spec fn generated_cache_key_of(
    subject_id: Seq<char>,
    mode: Seq<char>,
    fingerprint: Seq<char>,
    prompt_version: Seq<char>,
) -> Seq<char> {
    "generated_"@ + hex_lower(
        sha256_digest(encode_utf8(cache_key_material(subject_id, mode, fingerprint, prompt_version))),
    )
}

/// Derives the cache key of a generated view.
pub fn generated_cache_key(subject_id: &str, mode: &str, fingerprint: &str, prompt_version: &str) -> (r:
    String)
    ensures
        r@ == generated_cache_key_of(subject_id@, mode@, fingerprint@, prompt_version@),
{
    let mut material = subject_id.to_owned();
    push_char(&mut material, '\0');
    push_text(&mut material, mode);
    push_char(&mut material, '\0');
    push_text(&mut material, fingerprint);
    push_char(&mut material, '\0');
    push_text(&mut material, prompt_version);
    assert(material@ =~= cache_key_material(subject_id@, mode@, fingerprint@, prompt_version@));
    let digest = sha256(material.as_str().as_bytes());
    let hex = hex_string(&digest);
    let mut r = "generated_".to_owned();
    push_text(&mut r, hex.as_str());
    r
}

/// Decides whether saving `candidate` would replace a newer cached index.
pub fn keeps_newer_cached_index(
    stored_revision: u64,
    stored_generation: u64,
    candidate_revision: u64,
    candidate_generation: u64,
) -> (r: bool)
    ensures
        r == (stored_revision > candidate_revision || (stored_revision == candidate_revision
            && stored_generation > candidate_generation)),
{
    stored_revision > candidate_revision || (stored_revision == candidate_revision
        && stored_generation > candidate_generation)
}

} // verus!
