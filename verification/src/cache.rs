//! The cache of parsed specifications: where each has its file.
use vstd::prelude::*;
use crate::paths;
use crate::paths::join_path;
use crate::text::cat;

verus! {

/// The SHA-256 digest of the UTF-8 bytes of a text, in small hexadecimal digits.
pub uninterp spec fn sha256_hex(s: Seq<char>) -> Seq<char>;

/// A small hexadecimal digit.
pub open spec fn hex_digit(c: char) -> bool {
    ('0' <= c && c <= '9') || ('a' <= c && c <= 'f')
}

/// `Sha256::digest` of the bytes of a text, written with `{:x}`: it depends on the text alone, and
/// it has two small hexadecimal digits for each of the 32 bytes.
#[verifier::external_body]
fn digest_hex(s: &str) -> (r: String)
    ensures
        r@ == sha256_hex(s@),
        r@.len() == 64,
        forall|i: int| 0 <= i < r@.len() ==> hex_digit(#[trigger] r@[i]),
{
    format!("{:x}", <sha2::Sha256 as sha2::Digest>::digest(s.as_bytes()))
}

/// The cache of parsed specifications.
#[derive(Debug)]
pub struct SpecCache {
    pub cache_dir: String,
}

impl SpecCache {
    /// The cache of the code in a directory.
    pub fn new(manifest_dir: &str) -> (r: SpecCache)
        ensures
            r.cache_dir@ == paths::joined_path(
                paths::joined_path(manifest_dir@, "target"@),
                ".spec-cache"@,
            ),
    {
        let target = join_path(manifest_dir, "target");
        SpecCache { cache_dir: join_path(target.as_str(), ".spec-cache") }
    }

    /// The key of a specification, by its text: it can stand in the name of a file.
    pub fn cache_key(text: &str) -> (r: String)
        ensures
            r@ == sha256_hex(text@),
            r@.len() == 64,
            forall|i: int| 0 <= i < r@.len() ==> hex_digit(#[trigger] r@[i]),
    {
        digest_hex(text)
    }

    /// The file of a key in the cache.
    pub fn cache_file(&self, key: &str) -> (r: String)
        ensures
            r@ == paths::joined_path(self.cache_dir@, key@ + ".cache"@),
    {
        let name = cat(key, ".cache");
        join_path(self.cache_dir.as_str(), name.as_str())
    }
}

} // verus!
