//! What the manifest says of an asset: where it is released, its size and
//! its SHA-256 digest.

use vstd::prelude::*;
use sha2::{Digest, Sha256};
use crate::run::asset_file_name;
use crate::text::{joined, push_char};

verus! {

/// Where the releases' assets are downloaded from.
pub const RELEASES: &'static str = "https://github.com/LiveSplit/auto-splitting-test-fixtures/releases/download";

/// The SHA-256 digest of `data`, as the `sha2` crate computes it.
pub uninterp spec fn sha256(data: Seq<u8>) -> Seq<u8>;

/// `sha2::Sha256::digest`: the SHA-256 digest of `data`. Its output type
/// is an array of 32 bytes.
#[verifier::external_body]
fn sha256_digest(data: &[u8]) -> (d: Vec<u8>)
    ensures
        d@ == sha256(data@),
        d@.len() == 32,
{
    Sha256::digest(data).to_vec()
}

/// The lowercase hexadecimal digit of `n`.
pub open spec fn hex_digit(n: int) -> char {
    if n < 10 {
        (n + 48) as char
    } else {
        (n - 10 + 97) as char
    }
}

/// The bytes as lowercase hexadecimal, two digits a byte, high digit first.
pub open spec fn hex_lower(bytes: Seq<u8>) -> Seq<char>
    decreases bytes.len(),
{
    if bytes.len() == 0 {
        Seq::empty()
    } else {
        hex_lower(bytes.drop_last()) + seq![
            hex_digit(bytes.last() as int / 16),
            hex_digit(bytes.last() as int % 16),
        ]
    }
}

/// The lowercase hexadecimal digit of `n`.
fn hex_digit_char(n: u8) -> (c: char)
    requires
        n < 16,
    ensures
        c == hex_digit(n as int),
{
    if n < 10 {
        (n + 48) as char
    } else {
        (n - 10 + 97) as char
    }
}

/// The bytes as lowercase hexadecimal, as `{:x}` writes a digest.
pub fn to_hex(bytes: &[u8]) -> (s: String)
    ensures
        s@ == hex_lower(bytes@),
        s@.len() == 2 * bytes@.len(),
{
    let mut s = String::new();
    for i in 0..bytes.len()
        invariant
            s@ == hex_lower(bytes@.take(i as int)),
            s@.len() == 2 * i,
    {
        proof {
            assert(bytes@.take(i + 1).drop_last() =~= bytes@.take(i as int));
        }
        let b = bytes[i];
        push_char(&mut s, hex_digit_char(b / 16));
        push_char(&mut s, hex_digit_char(b % 16));
        assert(s@ =~= hex_lower(bytes@.take(i + 1)));
    }
    assert(bytes@.take(bytes.len() as int) =~= bytes@);
    s
}

/// The size of an asset and its SHA-256 digest in lowercase hexadecimal.
pub fn asset_digest(bytes: &[u8]) -> (r: (u64, String))
    ensures
        r.0 == bytes@.len(),
        r.1@ == hex_lower(sha256(bytes@)),
        r.1@.len() == 64,
{
    let digest = sha256_digest(bytes);
    (bytes.len() as u64, to_hex(digest.as_slice()))
}

/// Where the asset of the variant named `name` is released.
pub open spec fn asset_url_of(version: Seq<char>, name: Seq<char>) -> Seq<char> {
    RELEASES@ + "/unity-"@ + version + "/"@ + ("unity-"@ + version + "-"@ + name + ".zip"@)
}

/// Where the asset of the variant named `name` is released:
/// `<releases>/unity-<version>/unity-<version>-<name>.zip`.
pub fn asset_url(version: &str, name: &str) -> (u: String)
    ensures
        u@ == asset_url_of(version@, name@),
{
    let release = joined(&joined(&joined(RELEASES, "/unity-"), version), "/");
    joined(&release, &asset_file_name(version, name))
}

/// One asset's entry in the manifest.
pub struct ManifestEntry {
    pub engine: String,
    pub version: String,
    pub variant: String,
    pub asset: String,
    pub size: u64,
    pub sha256: String,
}

/// The manifest entry of the asset of the variant named `name`, of `size`
/// bytes and with the hexadecimal digest `digest`.
pub fn manifest_entry(version: &str, name: &str, size: u64, digest: &str) -> (e: ManifestEntry)
    ensures
        e.engine@ == "unity"@,
        e.version@ == version@,
        e.variant@ == name@,
        e.asset@ == asset_url_of(version@, name@),
        e.size == size,
        e.sha256@ == digest@,
{
    ManifestEntry {
        engine: String::from_str("unity"),
        version: String::from_str(version),
        variant: String::from_str(name),
        asset: asset_url(version, name),
        size,
        sha256: String::from_str(digest),
    }
}

} // verus!
