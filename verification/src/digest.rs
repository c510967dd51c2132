//! Stable identifiers: SHA-256 over length-framed texts, and the identity of a database file.

use crate::text::{hex_fixed, int_text, integer_text, natural_text, push_hex};
use vstd::bytes::*;
use vstd::prelude::*;
use vstd::string::*;
use vstd::utf8::*;

verus! {

/// The SHA-256 digest of a byte string.
pub uninterp spec fn sha256(data: Seq<u8>) -> Seq<u8>;

/// `<Sha256 as Digest>::digest` of the `sha2` crate: the SHA-256 digest of `data`, which depends on
/// nothing else and is always 32 bytes long.
#[verifier::external_body]
fn sha256_digest(data: &[u8]) -> (r: Vec<u8>)
    ensures
        r@ == sha256(data@),
        r@.len() == 32,
{
    <sha2::Sha256 as sha2::Digest>::digest(data).to_vec()
}

/// One text, framed by its length in bytes.
pub open spec fn framed(part: Seq<char>) -> Seq<u8> {
    spec_u64_to_le_bytes(encode_utf8(part).len() as u64) + encode_utf8(part)
}

/// Several texts, each framed by its length, one after the other.
pub open spec fn framed_all(parts: Seq<Seq<char>>) -> Seq<u8>
    decreases parts.len(),
{
    if parts.len() == 0 {
        Seq::empty()
    } else {
        framed(parts[0]) + framed_all(parts.drop_first())
    }
}

/// Two lower-case hexadecimal digits for each byte.
pub open spec fn hex_text(bytes: Seq<u8>) -> Seq<char>
    decreases bytes.len(),
{
    if bytes.len() == 0 {
        Seq::empty()
    } else {
        hex_text(bytes.drop_last()) + hex_fixed(bytes.last() as nat, 2)
    }
}

/// The text holds lower-case hexadecimal digits only.
pub open spec fn lower_hex(text: Seq<char>) -> bool {
    forall|i: int|
        0 <= i < text.len() ==> '0' <= (#[trigger] text[i]) <= '9' || 'a' <= text[i] <= 'f'
}

/// The identifier of a list of texts: the digest of their framed form, in hexadecimal.
pub open spec fn digest_of(parts: Seq<Seq<char>>) -> Seq<char> {
    hex_text(sha256(framed_all(parts)))
}

/// What each string of a list holds.
pub open spec fn texts(parts: Seq<&str>) -> Seq<Seq<char>> {
    parts.map_values(|p: &str| p@)
}

/// Framing one more text appends its frame.
proof fn lemma_framed_push(parts: Seq<Seq<char>>, part: Seq<char>)
    ensures
        framed_all(parts.push(part)) == framed_all(parts) + framed(part),
    decreases parts.len(),
{
    if parts.len() == 0 {
        assert(parts.push(part).drop_first() =~= parts);
        assert(framed_all(parts) =~= Seq::<u8>::empty());
        assert(framed_all(parts.push(part)) =~= framed(part));
    } else {
        assert(parts.push(part).drop_first() =~= parts.drop_first().push(part));
        lemma_framed_push(parts.drop_first(), part);
        assert(framed_all(parts.push(part)) =~= framed_all(parts) + framed(part));
    }
}

/// As many hexadecimal digits are written as asked for.
pub proof fn lemma_hex_fixed_len(n: nat, width: nat)
    ensures
        hex_fixed(n, width).len() == width,
    decreases width,
{
    if width > 0 {
        lemma_hex_fixed_len(n / 16, (width - 1) as nat);
    }
}

/// Every byte takes two hexadecimal digits.
pub proof fn lemma_hex_text_len(bytes: Seq<u8>)
    ensures
        hex_text(bytes).len() == 2 * bytes.len(),
    decreases bytes.len(),
{
    if bytes.len() > 0 {
        lemma_hex_text_len(bytes.drop_last());
        lemma_hex_fixed_len(bytes.last() as nat, 2);
    }
}

proof fn lemma_hex_fixed_lower(n: nat, width: nat)
    ensures
        lower_hex(hex_fixed(n, width)),
    decreases width,
{
    if width > 0 {
        lemma_hex_fixed_lower(n / 16, (width - 1) as nat);
    }
}

/// Bytes are written with lower-case hexadecimal digits.
pub proof fn lemma_hex_text_lower(bytes: Seq<u8>)
    ensures
        lower_hex(hex_text(bytes)),
    decreases bytes.len(),
{
    if bytes.len() > 0 {
        lemma_hex_text_lower(bytes.drop_last());
        lemma_hex_fixed_lower(bytes.last() as nat, 2);
    }
}

/// Digests texts by SHA-256, each framed by its length so that no two different lists of texts
/// are hashed as the same bytes.
pub fn digest_parts(parts: &[&str]) -> (r: String)
    ensures
        r@ == digest_of(texts(parts@)),
        r@.len() == 64,
        lower_hex(r@),
{
    let mut buffer: Vec<u8> = Vec::new();
    let mut i: usize = 0;
    assert(texts(parts@).take(0) =~= Seq::empty());
    while i < parts.len()
        invariant
            i <= parts@.len(),
            buffer@ == framed_all(texts(parts@).take(i as int)),
        decreases parts@.len() - i,
    {
        let bytes: &[u8] = parts[i].as_bytes();
        let mut length: Vec<u8> = u64_to_le_bytes(bytes.len() as u64);
        let mut body: Vec<u8> = vstd::slice::slice_to_vec(bytes);
        let ghost before = buffer@;
        buffer.append(&mut length);
        buffer.append(&mut body);
        proof {
            let part = texts(parts@)[i as int];
            assert(texts(parts@).take(i + 1) =~= texts(parts@).take(i as int).push(part));
            lemma_framed_push(texts(parts@).take(i as int), part);
            assert(buffer@ =~= before + framed(part));
        }
        i = i + 1;
    }
    assert(texts(parts@).take(i as int) =~= texts(parts@));
    digest_value(buffer.as_slice())
}

/// Digests bytes by SHA-256 and writes the digest in hexadecimal.
pub fn digest_value(bytes: &[u8]) -> (r: String)
    ensures
        r@ == hex_text(sha256(bytes@)),
        r@.len() == 64,
        lower_hex(r@),
{
    let digest: Vec<u8> = sha256_digest(bytes);
    proof {
        lemma_hex_text_len(digest@);
        lemma_hex_text_lower(digest@);
    }
    digest_bytes(digest.as_slice())
}

/// Writes bytes as lower-case hexadecimal digits.
pub fn digest_bytes(bytes: &[u8]) -> (r: String)
    ensures
        r@ == hex_text(bytes@),
{
    let mut out = String::new();
    let mut i: usize = 0;
    while i < bytes.len()
        invariant
            i <= bytes@.len(),
            out@ == hex_text(bytes@.take(i as int)),
        decreases bytes@.len() - i,
    {
        push_hex(&mut out, bytes[i] as u32, 2);
        assert(bytes@.take(i + 1).drop_last() =~= bytes@.take(i as int));
        i = i + 1;
    }
    assert(bytes@.take(i as int) =~= bytes@);
    out
}

/// What the file system says of a file that outlives changes of its content but not its
/// replacement by another file.
#[derive(Debug, Clone, Copy, PartialEq, Eq)]
pub enum FileIdentity {
    /// Device and inode number, with the birth time in seconds and nanoseconds where the file
    /// system records one.
    Unix { device: u64, inode: u64, birth: Option<(i64, u32)> },
    /// Volume serial number, file index and creation time.
    Windows { volume: u32, index_high: u32, index_low: u32, creation_time: u64 },
    /// Creation time alone, where the file index cannot be had.
    WindowsFallback { creation_time: u64 },
    /// Length and time of last modification in nanoseconds since the epoch.
    Other { length: u64, modified: Option<u128> },
}

/// A file identity written as text.
pub open spec fn identity_text(identity: FileIdentity) -> Seq<char> {
    match identity {
        FileIdentity::Unix { device, inode, birth: None } => {
            "unix:"@ + int_text(device as int) + ":"@ + int_text(inode as int)
        },
        FileIdentity::Unix { device, inode, birth: Some((seconds, nanoseconds)) } => {
            "unix:"@ + int_text(device as int) + ":"@ + int_text(inode as int) + ":"@ + int_text(
                seconds as int,
            ) + ":"@ + int_text(nanoseconds as int)
        },
        FileIdentity::Windows { volume, index_high, index_low, creation_time } => {
            "windows:"@ + int_text(volume as int) + ":"@ + hex_fixed(index_high as nat, 16)
                + hex_fixed(index_low as nat, 16) + ":"@ + int_text(creation_time as int)
        },
        FileIdentity::WindowsFallback { creation_time } => {
            "windows-fallback:"@ + int_text(creation_time as int)
        },
        FileIdentity::Other { length, modified: None } => {
            "fallback:"@ + int_text(length as int) + ":"@
        },
        FileIdentity::Other { length, modified: Some(nanoseconds) } => {
            "fallback:"@ + int_text(length as int) + ":"@ + int_text(nanoseconds as int)
        },
    }
}

/// Names one incarnation of a database file: the digest of its identity.
pub fn source_file_incarnation(identity: &FileIdentity) -> (r: String)
    ensures
        r@ == digest_of(seq![identity_text(*identity)]),
        r@.len() == 64,
        lower_hex(r@),
{
    let mut out = String::new();
    match *identity {
        FileIdentity::Unix { device, inode, birth } => {
            out.append("unix:");
            out.append(natural_text(device as u128).as_str());
            out.append(":");
            out.append(natural_text(inode as u128).as_str());
            if let Some((seconds, nanoseconds)) = birth {
                out.append(":");
                out.append(integer_text(seconds).as_str());
                out.append(":");
                out.append(natural_text(nanoseconds as u128).as_str());
            }
        },
        FileIdentity::Windows { volume, index_high, index_low, creation_time } => {
            out.append("windows:");
            out.append(natural_text(volume as u128).as_str());
            out.append(":");
            push_hex(&mut out, index_high, 16);
            push_hex(&mut out, index_low, 16);
            out.append(":");
            out.append(natural_text(creation_time as u128).as_str());
        },
        FileIdentity::WindowsFallback { creation_time } => {
            out.append("windows-fallback:");
            out.append(natural_text(creation_time as u128).as_str());
        },
        FileIdentity::Other { length, modified } => {
            out.append("fallback:");
            out.append(natural_text(length as u128).as_str());
            out.append(":");
            if let Some(nanoseconds) = modified {
                out.append(natural_text(nanoseconds).as_str());
            }
        },
    }
    assert(out@ =~= identity_text(*identity));
    let parts: [&str; 1] = [out.as_str()];
    assert(texts(parts@) =~= seq![identity_text(*identity)]);
    digest_parts(&parts)
}

} // verus!
