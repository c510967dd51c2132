//! What holds of the bytes and texts that identifiers are made of: how texts are framed, how a digest
//! is written down, and how a file is named.

use crate::digest::{digest_of, framed, framed_all, hex_text, identity_text, sha256, FileIdentity};
use crate::text::{hex_fixed, int_text};
use crate::text_laws::{digit_value, law_two_digits_write_a_byte};
use vstd::bytes::*;
use vstd::prelude::*;
use vstd::string::*;
use vstd::utf8::*;

verus! {

/// The number that bytes write down, the least significant one first.
pub open spec fn bytes_value(bytes: Seq<u8>) -> int
    decreases bytes.len(),
{
    if bytes.len() == 0 {
        0
    } else {
        bytes[0] + 256 * bytes_value(bytes.drop_first())
    }
}

proof fn lemma_le_bytes(x: u64)
    ensures
        spec_u64_to_le_bytes(x).len() == 8,
        bytes_value(spec_u64_to_le_bytes(x)) == x,
{
    let s = spec_u64_to_le_bytes(x);
    spec_u64_to_le_bytes_to_open(x);
    reveal_with_fuel(bytes_value, 9);
    let (b0, b1, b2, b3, b4, b5, b6, b7) = (s[0], s[1], s[2], s[3], s[4], s[5], s[6], s[7]);
    assert(s =~= seq![b0, b1, b2, b3, b4, b5, b6, b7]);
    assert(s.drop_first() =~= seq![b1, b2, b3, b4, b5, b6, b7]);
    assert(s.drop_first().drop_first() =~= seq![b2, b3, b4, b5, b6, b7]);
    assert(s.drop_first().drop_first().drop_first() =~= seq![b3, b4, b5, b6, b7]);
    let t = s.drop_first().drop_first().drop_first().drop_first();
    assert(t =~= seq![b4, b5, b6, b7]);
    assert(t.drop_first() =~= seq![b5, b6, b7]);
    assert(t.drop_first().drop_first() =~= seq![b6, b7]);
    assert(t.drop_first().drop_first().drop_first() =~= seq![b7]);
    assert(t.drop_first().drop_first().drop_first().drop_first() =~= Seq::empty());
    assert(bytes_value(t) == b4 + 256 * (b5 + 256 * (b6 + 256 * b7)));
    assert(bytes_value(s) == b0 + 256 * (b1 + 256 * (b2 + 256 * (b3 + 256 * bytes_value(t)))));
    assert(x == (x & 0xff) as u8 + 256 * (((x >> 8) & 0xff) as u8 + 256 * (((x >> 16)
        & 0xff) as u8 + 256 * (((x >> 24) & 0xff) as u8 + 256 * (((x >> 32) & 0xff) as u8 + 256 * (((x
        >> 40) & 0xff) as u8 + 256 * (((x >> 48) & 0xff) as u8 + 256 * ((x >> 56)
        & 0xff) as u8))))))) by (bit_vector);
}

/// A framed text is its length in bytes, as eight bytes, the least significant one first, followed by the
/// text in UTF-8.
pub proof fn law_frame_is_length_and_text(part: Seq<char>)
    requires
        encode_utf8(part).len() <= u64::MAX,
    ensures
        framed(part).len() == 8 + encode_utf8(part).len(),
        bytes_value(framed(part).take(8)) == encode_utf8(part).len(),
        framed(part).skip(8) == encode_utf8(part),
{
    let length = spec_u64_to_le_bytes(encode_utf8(part).len() as u64);
    lemma_le_bytes(encode_utf8(part).len() as u64);
    assert(framed(part).take(8) =~= length);
    assert(framed(part).skip(8) =~= encode_utf8(part));
}

/// Texts are framed one by one, and the frames stand one after the other.
pub proof fn law_frames_stand_in_order(a: Seq<Seq<char>>, b: Seq<Seq<char>>, part: Seq<char>)
    ensures
        framed_all(a + b) == framed_all(a) + framed_all(b),
        framed_all(seq![part]) == framed(part),
    decreases a.len(),
{
    assert(seq![part].drop_first() =~= Seq::empty());
    assert(framed_all(seq![part]) =~= framed(part) + framed_all(Seq::empty()));
    assert(framed_all(Seq::empty()) =~= Seq::<u8>::empty());
    if a.len() == 0 {
        assert(a + b =~= b);
        assert(framed_all(a) =~= Seq::<u8>::empty());
        assert(framed_all(a + b) =~= framed_all(a) + framed_all(b));
    } else {
        law_frames_stand_in_order(a.drop_first(), b, part);
        assert((a + b).drop_first() =~= a.drop_first() + b);
        assert(framed_all(a + b) =~= framed_all(a) + framed_all(b));
    }
}

/// Bytes are written with two hexadecimal digits each, in their order.
pub proof fn law_hex_writes_every_byte(bytes: Seq<u8>, i: int)
    ensures
        hex_text(bytes).len() == 2 * bytes.len(),
        0 <= i < bytes.len() ==> digit_value(hex_text(bytes)[2 * i]) * 16 + digit_value(
            hex_text(bytes)[2 * i + 1],
        ) == bytes[i],
    decreases bytes.len(),
{
    if bytes.len() > 0 {
        let (first, last) = (bytes.drop_last(), bytes.last());
        law_hex_writes_every_byte(first, i);
        law_two_digits_write_a_byte(last);
        let (s, t) = (hex_text(first), hex_fixed(last as nat, 2));
        assert(hex_text(bytes) == s + t);
        if 0 <= i < first.len() {
            assert((s + t)[2 * i] == s[2 * i] && (s + t)[2 * i + 1] == s[2 * i + 1]);
            assert(first[i] == bytes[i]);
        } else if i == first.len() {
            assert((s + t)[2 * i] == t[0] && (s + t)[2 * i + 1] == t[1]);
        }
    }
}

/// An identifier writes down, byte for byte, the SHA-256 digest of the framed texts.
pub proof fn law_identifier_writes_the_digest(parts: Seq<Seq<char>>, i: int)
    ensures
        ({
            let hash = sha256(framed_all(parts));
            &&& digest_of(parts).len() == 2 * hash.len()
            &&& 0 <= i < hash.len() ==> digit_value(digest_of(parts)[2 * i]) * 16 + digit_value(
                digest_of(parts)[2 * i + 1],
            ) == hash[i]
        }),
{
    law_hex_writes_every_byte(sha256(framed_all(parts)), i);
}

/// A file is named by what the file system says of it: device, inode and, where it is known, time of
/// birth; or volume, index and time of creation; or what stands in for them.
pub proof fn law_file_is_named_by_its_identity(
    numbers: (u64, u64, u64, u64),
    volume: (u32, u32, u32),
    birth: (i64, u32),
    modified: u128,
)
    ensures
        ({
            let (device, inode, creation_time, length) = numbers;
            let (serial, index_high, index_low) = volume;
            let unix = "unix:"@ + int_text(device as int) + ":"@ + int_text(inode as int);
            &&& identity_text(FileIdentity::Unix { device, inode, birth: None }) == unix
            &&& identity_text(FileIdentity::Unix { device, inode, birth: Some(birth) }) == unix
                + ":"@ + int_text(birth.0 as int) + ":"@ + int_text(birth.1 as int)
            &&& identity_text(
                FileIdentity::Windows { volume: serial, index_high, index_low, creation_time },
            ) == "windows:"@ + int_text(serial as int) + ":"@ + hex_fixed(index_high as nat, 16)
                + hex_fixed(index_low as nat, 16) + ":"@ + int_text(creation_time as int)
            &&& identity_text(FileIdentity::WindowsFallback { creation_time })
                == "windows-fallback:"@ + int_text(creation_time as int)
            &&& identity_text(FileIdentity::Other { length, modified: None }) == "fallback:"@
                + int_text(length as int) + ":"@
            &&& identity_text(FileIdentity::Other { length, modified: Some(modified) })
                == "fallback:"@ + int_text(length as int) + ":"@ + int_text(modified as int)
        }),
{
}

} // verus!
