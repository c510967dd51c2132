//! What holds of identifiers: texts that differ are hashed as different bytes, so that two
//! identifiers are the same only for the same texts, as far as SHA-256 tells them apart.

use crate::cost::scan;
use crate::cost_laws::lemma_scan_digits;
use crate::digest::{
    digest_of, framed, framed_all, hex_text, identity_text, lemma_hex_fixed_len,
    lemma_hex_text_lower, lower_hex, sha256, FileIdentity,
};
use crate::discover::SourceView;
use crate::import::origin_of;
use crate::reader::{residual_row, HERMES_UNATTRIBUTED_MAIN_TASK};
use crate::source::row_key_of;
use crate::store::HERMES_APP_TYPE;
use crate::text::{decimal_digits, digit_char, hex_fixed, int_text};
use vstd::bytes::*;
use vstd::prelude::*;
use vstd::string::*;
use vstd::utf8::*;

verus! {

/// Every text is short enough for its length in bytes to be written in 64 bits.
pub open spec fn bounded(parts: Seq<Seq<char>>) -> bool {
    forall|i: int| 0 <= i < parts.len() ==> encode_utf8(#[trigger] parts[i]).len() <= u64::MAX
}

/// Two different lists of texts are framed as different bytes.
pub proof fn law_framing_is_injective(a: Seq<Seq<char>>, b: Seq<Seq<char>>)
    requires
        bounded(a),
        bounded(b),
        framed_all(a) == framed_all(b),
    ensures
        a == b,
    decreases a.len(),
{
    lemma_auto_spec_u64_to_from_le_bytes();
    if a.len() == 0 || b.len() == 0 {
        if a.len() > 0 {
            assert(framed_all(a).len() >= framed(a[0]).len() >= 8);
        }
        if b.len() > 0 {
            assert(framed_all(b).len() >= framed(b[0]).len() >= 8);
        }
        assert(a =~= b);
    } else {
        let (x, y) = (encode_utf8(a[0]), encode_utf8(b[0]));
        let (u, v) = (framed_all(a), framed_all(b));
        assert(u.take(8) =~= spec_u64_to_le_bytes(x.len() as u64));
        assert(v.take(8) =~= spec_u64_to_le_bytes(y.len() as u64));
        assert(x.len() as u64 == y.len() as u64);
        assert(x.len() == y.len());
        let n = (8 + x.len()) as int;
        assert(u.subrange(8, n) =~= x);
        assert(v.subrange(8, n) =~= y);
        encode_utf8_decode_utf8(a[0]);
        encode_utf8_decode_utf8(b[0]);
        assert(a[0] == b[0]);
        assert(u.skip(n) =~= framed_all(a.drop_first()));
        assert(v.skip(n) =~= framed_all(b.drop_first()));
        assert forall|i: int| 0 <= i < a.drop_first().len() implies encode_utf8(
            #[trigger] a.drop_first()[i],
        ).len() <= u64::MAX by {
            assert(a.drop_first()[i] == a[i + 1]);
        }
        assert forall|i: int| 0 <= i < b.drop_first().len() implies encode_utf8(
            #[trigger] b.drop_first()[i],
        ).len() <= u64::MAX by {
            assert(b.drop_first()[i] == b[i + 1]);
        }
        law_framing_is_injective(a.drop_first(), b.drop_first());
        assert(a =~= seq![a[0]] + a.drop_first());
        assert(b =~= seq![b[0]] + b.drop_first());
    }
}

/// Sixteen to the power of `n`.
spec fn pow16(n: nat) -> nat
    decreases n,
{
    if n == 0 {
        1
    } else {
        16 * pow16((n - 1) as nat)
    }
}

/// Numbers of so many hexadecimal digits are told apart by them.
proof fn lemma_hex_fixed_injective(a: nat, b: nat, width: nat)
    requires
        a < pow16(width),
        b < pow16(width),
        hex_fixed(a, width) == hex_fixed(b, width),
    ensures
        a == b,
    decreases width,
{
    if width > 0 {
        let w = (width - 1) as nat;
        let (x, y) = (hex_fixed(a / 16, w), hex_fixed(b / 16, w));
        assert(hex_fixed(a, width).drop_last() =~= x);
        assert(hex_fixed(b, width).drop_last() =~= y);
        assert(hex_fixed(a, width).last() == digit_char(a % 16));
        assert(hex_fixed(b, width).last() == digit_char(b % 16));
        assert(a % 16 == b % 16);
        lemma_hex_fixed_injective(a / 16, b / 16, w);
    }
}

/// Two different byte strings have different hexadecimal forms.
pub proof fn law_hex_is_injective(a: Seq<u8>, b: Seq<u8>)
    requires
        hex_text(a) == hex_text(b),
    ensures
        a == b,
    decreases a.len(),
{
    if a.len() > 0 {
        lemma_hex_fixed_len(a.last() as nat, 2);
        assert(hex_text(a).len() >= 2);
    }
    if b.len() > 0 {
        lemma_hex_fixed_len(b.last() as nat, 2);
        assert(hex_text(b).len() >= 2);
    }
    if a.len() == 0 || b.len() == 0 {
        assert(a =~= b);
    } else {
        let (s, t) = (hex_text(a), hex_text(b));
        let n = s.len() - 2;
        assert(s.take(n) =~= hex_text(a.drop_last()));
        assert(t.take(n) =~= hex_text(b.drop_last()));
        assert(s.skip(n) =~= hex_fixed(a.last() as nat, 2));
        assert(t.skip(n) =~= hex_fixed(b.last() as nat, 2));
        law_hex_is_injective(a.drop_last(), b.drop_last());
        assert(pow16(2) == 256) by {
            reveal_with_fuel(pow16, 3);
        }
        lemma_hex_fixed_injective(a.last() as nat, b.last() as nat, 2);
        assert(a =~= a.drop_last().push(a.last()));
        assert(b =~= b.drop_last().push(b.last()));
    }
}

/// SHA-256 does not give the framed forms of two lists of texts the same digest unless they are the
/// same.
pub open spec fn told_apart(a: Seq<Seq<char>>, b: Seq<Seq<char>>) -> bool {
    sha256(framed_all(a)) == sha256(framed_all(b)) ==> framed_all(a) == framed_all(b)
}

/// The identifiers of two lists of texts are the same only where the lists are.
pub proof fn law_identifiers_tell_apart(a: Seq<Seq<char>>, b: Seq<Seq<char>>)
    requires
        bounded(a),
        bounded(b),
        told_apart(a, b),
        digest_of(a) == digest_of(b),
    ensures
        a == b,
{
    law_hex_is_injective(sha256(framed_all(a)), sha256(framed_all(b)));
    law_framing_is_injective(a, b);
}

/// The rows that the session totals add never take the key of a usage row.
pub proof fn law_residual_key_is_reserved(
    session_id: Seq<char>,
    calls: i64,
    dimensions: (Seq<char>, Seq<char>, Seq<char>, Seq<char>, Seq<char>, Seq<char>),
)
    requires
        ({
            let added = seq![HERMES_UNATTRIBUTED_MAIN_TASK@, session_id];
            let usage = seq![
                dimensions.0,
                dimensions.1,
                dimensions.2,
                dimensions.3,
                dimensions.4,
                dimensions.5,
            ];
            bounded(added) && bounded(usage) && told_apart(added, usage)
        }),
    ensures
        residual_row(session_id, calls).row_key != row_key_of(
            dimensions.0,
            dimensions.1,
            dimensions.2,
            dimensions.3,
            dimensions.4,
            dimensions.5,
        ),
{
    let added = seq![HERMES_UNATTRIBUTED_MAIN_TASK@, session_id];
    let usage = seq![
        dimensions.0,
        dimensions.1,
        dimensions.2,
        dimensions.3,
        dimensions.4,
        dimensions.5,
    ];
    if digest_of(added) == digest_of(usage) {
        law_identifiers_tell_apart(added, usage);
        assert(added.len() == usage.len());
    }
}

/// Decimal digits hold no colon, and there is at least one.
proof fn lemma_digits_only(n: nat)
    ensures
        decimal_digits(n).len() > 0,
        forall|i: int|
            0 <= i < decimal_digits(n).len() ==> '0' <= #[trigger] decimal_digits(n)[i] <= '9',
    decreases n,
{
    if n >= 10 {
        lemma_digits_only(n / 10);
    }
}

/// A number in decimal holds no colon.
proof fn lemma_no_colon(i: int)
    ensures
        int_text(i).len() > 0,
        !int_text(i).contains(':'),
{
    if i < 0 {
        lemma_digits_only((-i) as nat);
    } else {
        lemma_digits_only(i as nat);
    }
}

/// Different numbers are written differently.
proof fn lemma_int_text_injective(i: int, j: int)
    requires
        int_text(i) == int_text(j),
    ensures
        i == j,
{
    let (m, n) = (
        (if i < 0 {
            -i
        } else {
            i
        }) as nat,
        (if j < 0 {
            -j
        } else {
            j
        }) as nat,
    );
    lemma_scan_digits(m);
    lemma_scan_digits(n);
    if i < 0 {
        assert(int_text(i).drop_first() =~= decimal_digits(m));
        assert(int_text(i)[0] == '-');
    }
    if j < 0 {
        assert(int_text(j).drop_first() =~= decimal_digits(n));
        assert(int_text(j)[0] == '-');
    }
    assert(scan(decimal_digits(m)) == scan(decimal_digits(n)));
}

/// A text up to its first colon, the colon, and the rest.
spec fn with_colon(a: Seq<char>, b: Seq<char>) -> Seq<char> {
    a + seq![':'] + b
}

/// Texts are split at their first colon in one way.
proof fn lemma_first_colon(a: Seq<char>, b: Seq<char>, c: Seq<char>, d: Seq<char>)
    requires
        !a.contains(':'),
        !c.contains(':'),
        with_colon(a, b) == with_colon(c, d),
    ensures
        a == c,
        b == d,
{
    let (s, t) = (with_colon(a, b), with_colon(c, d));
    assert(s[a.len() as int] == ':');
    assert(t[c.len() as int] == ':');
    if a.len() < c.len() {
        assert(c[a.len() as int] == t[a.len() as int]);
        assert(c.contains(c[a.len() as int]));
    } else if c.len() < a.len() {
        assert(a[c.len() as int] == s[c.len() as int]);
        assert(a.contains(a[c.len() as int]));
    }
    assert(s.take(a.len() as int) =~= a);
    assert(t.take(c.len() as int) =~= c);
    assert(s.skip(a.len() as int + 1) =~= b);
    assert(t.skip(c.len() as int + 1) =~= d);
}

/// A text with a colon is none without one.
proof fn lemma_has_colon(a: Seq<char>, b: Seq<char>)
    ensures
        with_colon(a, b).contains(':'),
{
    assert(with_colon(a, b)[a.len() as int] == ':');
}

/// What follows the device number of a file.
spec fn unix_rest(inode: u64, birth: Option<(i64, u32)>) -> Seq<char> {
    match birth {
        None => int_text(inode as int),
        Some((seconds, nanoseconds)) => with_colon(
            int_text(inode as int),
            with_colon(int_text(seconds as int), int_text(nanoseconds as int)),
        ),
    }
}

/// What follows the device number tells the inode number and the birth time.
proof fn lemma_unix_rest_injective(
    inode: u64,
    birth: Option<(i64, u32)>,
    other_inode: u64,
    other_birth: Option<(i64, u32)>,
)
    requires
        unix_rest(inode, birth) == unix_rest(other_inode, other_birth),
    ensures
        inode == other_inode,
        birth == other_birth,
{
    lemma_no_colon(inode as int);
    lemma_no_colon(other_inode as int);
    match (birth, other_birth) {
        (None, None) => {
            lemma_int_text_injective(inode as int, other_inode as int);
        },
        (Some((s, n)), Some((t, m))) => {
            lemma_no_colon(s as int);
            lemma_no_colon(t as int);
            let (x, y) = (
                with_colon(int_text(s as int), int_text(n as int)),
                with_colon(int_text(t as int), int_text(m as int)),
            );
            lemma_first_colon(int_text(inode as int), x, int_text(other_inode as int), y);
            lemma_first_colon(
                int_text(s as int),
                int_text(n as int),
                int_text(t as int),
                int_text(m as int),
            );
            lemma_int_text_injective(inode as int, other_inode as int);
            lemma_int_text_injective(s as int, t as int);
            lemma_int_text_injective(n as int, m as int);
        },
        (Some((s, n)), None) => {
            lemma_has_colon(
                int_text(inode as int),
                with_colon(int_text(s as int), int_text(n as int)),
            );
        },
        (None, Some((t, m))) => {
            lemma_has_colon(
                int_text(other_inode as int),
                with_colon(int_text(t as int), int_text(m as int)),
            );
        },
    }
}

/// What stands before the first colon of an identity.
spec fn kind_text(identity: FileIdentity) -> Seq<char> {
    match identity {
        FileIdentity::Unix { .. } => seq!['u', 'n', 'i', 'x'],
        FileIdentity::Windows { .. } => seq!['w', 'i', 'n', 'd', 'o', 'w', 's'],
        FileIdentity::WindowsFallback { .. } => seq![
            'w',
            'i',
            'n',
            'd',
            'o',
            'w',
            's',
            '-',
            'f',
            'a',
            'l',
            'l',
            'b',
            'a',
            'c',
            'k',
        ],
        FileIdentity::Other { .. } => seq!['f', 'a', 'l', 'l', 'b', 'a', 'c', 'k'],
    }
}

/// What stands behind the kind of an identity.
spec fn numbers_text(identity: FileIdentity) -> Seq<char> {
    match identity {
        FileIdentity::Unix { device, inode, birth } => with_colon(
            int_text(device as int),
            unix_rest(inode, birth),
        ),
        FileIdentity::Windows { volume, index_high, index_low, creation_time } => with_colon(
            int_text(volume as int),
            with_colon(
                hex_fixed(index_high as nat, 16) + hex_fixed(index_low as nat, 16),
                int_text(creation_time as int),
            ),
        ),
        FileIdentity::WindowsFallback { creation_time } => int_text(creation_time as int),
        FileIdentity::Other { length, modified } => with_colon(
            int_text(length as int),
            match modified {
                None => Seq::empty(),
                Some(nanoseconds) => int_text(nanoseconds as int),
            },
        ),
    }
}

/// An identity is written as its kind, a colon, and numbers set apart by colons.
proof fn lemma_identity_parts(identity: FileIdentity)
    ensures
        identity_text(identity) == with_colon(kind_text(identity), numbers_text(identity)),
        !kind_text(identity).contains(':'),
{
    reveal_strlit("unix:");
    reveal_strlit(":");
    reveal_strlit("windows:");
    reveal_strlit("windows-fallback:");
    reveal_strlit("fallback:");
    assert(identity_text(identity) =~= with_colon(kind_text(identity), numbers_text(identity)));
}

/// Different file identities are written as different texts.
pub proof fn law_identity_text_is_injective(a: FileIdentity, b: FileIdentity)
    requires
        identity_text(a) == identity_text(b),
    ensures
        a == b,
{
    lemma_identity_parts(a);
    lemma_identity_parts(b);
    lemma_first_colon(kind_text(a), numbers_text(a), kind_text(b), numbers_text(b));
    assert(kind_text(a).len() == kind_text(b).len());
    match (a, b) {
        (
            FileIdentity::Unix { device, inode, birth },
            FileIdentity::Unix { device: device_b, inode: inode_b, birth: birth_b },
        ) => {
            lemma_no_colon(device as int);
            lemma_no_colon(device_b as int);
            lemma_first_colon(
                int_text(device as int),
                unix_rest(inode, birth),
                int_text(device_b as int),
                unix_rest(inode_b, birth_b),
            );
            lemma_int_text_injective(device as int, device_b as int);
            lemma_unix_rest_injective(inode, birth, inode_b, birth_b);
        },
        (
            FileIdentity::Windows { volume: v, index_high: h, index_low: l, creation_time: c },
            FileIdentity::Windows { volume: w, index_high: i, index_low: m, creation_time: d },
        ) => {
            lemma_no_colon(v as int);
            lemma_no_colon(w as int);
            let (p, q) = (
                hex_fixed(h as nat, 16) + hex_fixed(l as nat, 16),
                hex_fixed(i as nat, 16) + hex_fixed(m as nat, 16),
            );
            let (s, t) = (
                with_colon(p, int_text(c as int)),
                with_colon(q, int_text(d as int)),
            );
            lemma_first_colon(int_text(v as int), s, int_text(w as int), t);
            lemma_hex_fixed_len(h as nat, 16);
            lemma_hex_fixed_len(l as nat, 16);
            lemma_hex_fixed_len(i as nat, 16);
            lemma_hex_fixed_len(m as nat, 16);
            assert(s.take(16) =~= hex_fixed(h as nat, 16));
            assert(t.take(16) =~= hex_fixed(i as nat, 16));
            assert(s.subrange(16, 32) =~= hex_fixed(l as nat, 16));
            assert(t.subrange(16, 32) =~= hex_fixed(m as nat, 16));
            assert(s.skip(33) =~= int_text(c as int));
            assert(t.skip(33) =~= int_text(d as int));
            assert(pow16(16) == 0x1_0000_0000_0000_0000) by {
                reveal_with_fuel(pow16, 17);
            }
            lemma_hex_fixed_injective(h as nat, i as nat, 16);
            lemma_hex_fixed_injective(l as nat, m as nat, 16);
            lemma_int_text_injective(v as int, w as int);
            lemma_int_text_injective(c as int, d as int);
        },
        (
            FileIdentity::WindowsFallback { creation_time: c },
            FileIdentity::WindowsFallback { creation_time: d },
        ) => {
            lemma_int_text_injective(c as int, d as int);
        },
        (
            FileIdentity::Other { length: k, modified: m },
            FileIdentity::Other { length: l, modified: n },
        ) => {
            let (x, y) = (
                match m {
                    None => Seq::<char>::empty(),
                    Some(t) => int_text(t as int),
                },
                match n {
                    None => Seq::<char>::empty(),
                    Some(t) => int_text(t as int),
                },
            );
            lemma_no_colon(k as int);
            lemma_no_colon(l as int);
            lemma_first_colon(int_text(k as int), x, int_text(l as int), y);
            lemma_int_text_injective(k as int, l as int);
            if let Some(t) = m {
                lemma_no_colon(t as int);
                if let Some(u) = n {
                    lemma_int_text_injective(t as int, u as int);
                }
            }
            if let Some(u) = n {
                lemma_no_colon(u as int);
            }
        },
        _ => {},
    }
}

/// An incarnation is named by the identity of the file alone: the same identity gives the same name,
/// whatever the content is, and another identity gives another name. The name is written in
/// lower-case hexadecimal digits.
pub proof fn law_incarnation_follows_identity(a: FileIdentity, b: FileIdentity)
    requires
        bounded(seq![identity_text(a)]),
        bounded(seq![identity_text(b)]),
        told_apart(seq![identity_text(a)], seq![identity_text(b)]),
    ensures
        digest_of(seq![identity_text(a)]) == digest_of(seq![identity_text(b)]) <==> a == b,
        lower_hex(digest_of(seq![identity_text(a)])),
{
    let (s, t) = (identity_text(a), identity_text(b));
    lemma_hex_text_lower(sha256(framed_all(seq![s])));
    if digest_of(seq![s]) == digest_of(seq![t]) {
        law_identifiers_tell_apart(seq![s], seq![t]);
        assert(seq![s][0] == seq![t][0]);
        law_identity_text_is_injective(a, b);
    }
}

/// The texts of which a source identifier is the digest.
pub open spec fn source_parts(source: SourceView, identity: FileIdentity) -> Seq<Seq<char>> {
    seq![
        HERMES_APP_TYPE@,
        source.profile_name,
        digest_of(seq![source.path]),
        digest_of(seq![identity_text(identity)]),
    ]
}

/// Two databases have the same source identifier only where they are the same file, at the same
/// path, of the same profile: rows of different profiles never mix, and a file that takes the place
/// of another is a new source.
pub proof fn law_sources_do_not_collide(
    a: SourceView,
    a_identity: FileIdentity,
    b: SourceView,
    b_identity: FileIdentity,
)
    requires
        bounded(source_parts(a, a_identity)),
        bounded(source_parts(b, b_identity)),
        bounded(seq![a.path]),
        bounded(seq![b.path]),
        bounded(seq![identity_text(a_identity)]),
        bounded(seq![identity_text(b_identity)]),
        told_apart(source_parts(a, a_identity), source_parts(b, b_identity)),
        told_apart(seq![a.path], seq![b.path]),
        told_apart(seq![identity_text(a_identity)], seq![identity_text(b_identity)]),
        origin_of(a, a_identity).source_id == origin_of(b, b_identity).source_id,
    ensures
        a.profile_name == b.profile_name,
        a.path == b.path,
        a_identity == b_identity,
{
    let (p, q) = (source_parts(a, a_identity), source_parts(b, b_identity));
    law_identifiers_tell_apart(p, q);
    assert(p[1] == q[1] && p[2] == q[2] && p[3] == q[3]);
    law_identifiers_tell_apart(seq![a.path], seq![b.path]);
    assert(seq![a.path][0] == seq![b.path][0]);
    let (s, t) = (identity_text(a_identity), identity_text(b_identity));
    law_identifiers_tell_apart(seq![s], seq![t]);
    assert(seq![s][0] == seq![t][0]);
    law_identity_text_is_injective(a_identity, b_identity);
}

} // verus!
