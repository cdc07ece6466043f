//! Content hashes of build inputs and outputs, and where they are kept.
use vstd::prelude::*;

use base64::engine::general_purpose::URL_SAFE_NO_PAD;
use base64::Engine;
use sha2::{Digest, Sha256};

use crate::paths::{
    extension, extension_of, file_name, file_name_of, join, join_of, stem_of, with_extension,
    with_extension_of,
};
use crate::paths_lemmas::{
    lemma_file_name_normal, lemma_join_dir, lemma_stem_dot_extension,
    lemma_with_extension_of_dir_and_name,
};
use crate::text::chars_of;

verus! {

/// The files whose hashes are recorded so that a build can tell whether the
/// preprocessor has to run again.
pub const HASH_PATHS: [&'static str; 5] = [
    "web/styles.scss",
    "web/entrypoint.js",
    "generated/static/favicon.ico",
    "generated/static/main.js",
    "generated/static/styles.css",
];

/// The SHA-256 digest of a byte sequence.
pub uninterp spec fn sha256_of(data: Seq<u8>) -> Seq<u8>;

/// Calls `sha2::Sha256::digest`. Claimed: the result is the SHA-256 digest
/// of `data` (named `sha256_of`, a function of the bytes alone) and is 32
/// bytes long, the output size of SHA-256.
#[verifier::external_body]
fn sha256(data: &[u8]) -> (r: Vec<u8>)
    ensures
        r@ == sha256_of(data@),
        r@.len() == 32,
{
    Sha256::digest(data).to_vec()
}

/// The digit of the URL-safe base64 alphabet for a value below 64.
pub open spec fn base64_digit(v: int) -> char {
    if v < 26 {
        (65 + v) as char
    } else if v < 52 {
        (97 + v - 26) as char
    } else if v < 62 {
        (48 + v - 52) as char
    } else if v == 62 {
        '-'
    } else {
        '_'
    }
}

/// Base64 with the URL-safe alphabet and no padding: each group of three
/// bytes becomes four digits, a final group of one or two bytes becomes two
/// or three digits.
pub open spec fn base64_url_of(s: Seq<u8>) -> Seq<char>
    decreases s.len(),
{
    if s.len() == 0 {
        Seq::empty()
    } else if s.len() == 1 {
        base64_tail(s[0] as int, 0, 1)
    } else if s.len() == 2 {
        base64_tail(s[0] as int, s[1] as int, 2)
    } else {
        base64_group(s[0] as int, s[1] as int, s[2] as int) + base64_url_of(s.skip(3))
    }
}

/// The four digits of a full group of three bytes.
pub open spec fn base64_group(a: int, b: int, c: int) -> Seq<char> {
    seq![
        base64_digit(a / 4),
        base64_digit((a % 4) * 16 + b / 16),
        base64_digit((b % 16) * 4 + c / 64),
        base64_digit(c % 64),
    ]
}

/// The digits of a final group of `n` (one or two) bytes.
pub open spec fn base64_tail(a: int, b: int, n: int) -> Seq<char> {
    if n == 1 {
        seq![base64_digit(a / 4), base64_digit((a % 4) * 16)]
    } else {
        seq![base64_digit(a / 4), base64_digit((a % 4) * 16 + b / 16), base64_digit((b % 16) * 4)]
    }
}

/// Calls `Engine::encode` of `base64::engine::general_purpose::URL_SAFE_NO_PAD`.
/// Claimed: the result is the standard base64 encoding of `data` with the
/// URL-safe alphabet `A-Z a-z 0-9 - _` and without `=` padding. The length
/// bound keeps the crate's size computation from overflowing, where it
/// panics.
#[verifier::external_body]
fn base64_url_no_pad(data: &[u8]) -> (r: String)
    requires
        data@.len() <= usize::MAX / 4,
    ensures
        r@ == base64_url_of(data@),
{
    URL_SAFE_NO_PAD.encode(data)
}

/// A character of the URL-safe base64 alphabet.
pub open spec fn is_base64_url_char(c: char) -> bool {
    ('A' <= c && c <= 'Z') || ('a' <= c && c <= 'z') || ('0' <= c && c <= '9') || c == '-' || c
        == '_'
}

proof fn lemma_base64_digit(v: int)
    requires
        0 <= v < 64,
    ensures
        is_base64_url_char(base64_digit(v)),
{
}

/// Every character of an encoding is in the URL-safe alphabet.
pub proof fn lemma_base64_url_alphabet(s: Seq<u8>)
    ensures
        forall|k: int|
            0 <= k < base64_url_of(s).len() ==> is_base64_url_char(#[trigger] base64_url_of(s)[k]),
    decreases s.len(),
{
    if s.len() == 0 {
    } else if s.len() < 3 {
        let a = s[0] as int;
        let b = if s.len() == 2 { s[1] as int } else { 0 };
        lemma_base64_digit(a / 4);
        lemma_base64_digit((a % 4) * 16);
        lemma_base64_digit((a % 4) * 16 + b / 16);
        lemma_base64_digit((b % 16) * 4);
    } else {
        let a = s[0] as int;
        let b = s[1] as int;
        let c = s[2] as int;
        lemma_base64_digit(a / 4);
        lemma_base64_digit((a % 4) * 16 + b / 16);
        lemma_base64_digit((b % 16) * 4 + c / 64);
        lemma_base64_digit(c % 64);
        lemma_base64_url_alphabet(s.skip(3));
        let head = base64_group(a, b, c);
        assert forall|k: int|
            0 <= k < base64_url_of(s).len() implies is_base64_url_char(
            #[trigger] base64_url_of(s)[k],
        ) by {
            if k >= 4 {
                assert(base64_url_of(s)[k] == base64_url_of(s.skip(3))[k - 4]);
            } else {
                assert(base64_url_of(s)[k] == head[k]);
            }
        }
    }
}

/// The length of an encoding: four digits per full group of three bytes,
/// and two or three for a final group of one or two bytes.
pub open spec fn base64_url_len(n: nat) -> nat {
    4 * (n / 3) + if n % 3 == 0 {
        0
    } else {
        n % 3 + 1
    }
}

/// An encoding has the length `base64_url_len` gives.
pub proof fn lemma_base64_url_len(s: Seq<u8>)
    ensures
        base64_url_of(s).len() == base64_url_len(s.len()),
    decreases s.len(),
{
    if s.len() >= 3 {
        lemma_base64_url_len(s.skip(3));
        assert(s.skip(3).len() == s.len() - 3);
    }
}

proof fn lemma_base64_digit_injective(v: int, w: int)
    requires
        0 <= v < 64,
        0 <= w < 64,
        base64_digit(v) == base64_digit(w),
    ensures
        v == w,
{
    assert(base64_digit(v) as int == base64_digit(w) as int);
}

proof fn lemma_base64_group_injective(a: int, b: int, c: int, x: int, y: int, z: int)
    requires
        0 <= a < 256,
        0 <= b < 256,
        0 <= c < 256,
        0 <= x < 256,
        0 <= y < 256,
        0 <= z < 256,
        a / 4 == x / 4,
        (a % 4) * 16 + b / 16 == (x % 4) * 16 + y / 16,
        (b % 16) * 4 + c / 64 == (y % 16) * 4 + z / 64,
        c % 64 == z % 64,
    ensures
        a == x && b == y && c == z,
{
    assert(a % 4 == x % 4 && b / 16 == y / 16) by (nonlinear_arith)
        requires
            0 <= a < 256,
            0 <= b < 256,
            0 <= x < 256,
            0 <= y < 256,
            (a % 4) * 16 + b / 16 == (x % 4) * 16 + y / 16,
    ;
    assert(b % 16 == y % 16 && c / 64 == z / 64) by (nonlinear_arith)
        requires
            0 <= b < 256,
            0 <= c < 256,
            0 <= y < 256,
            0 <= z < 256,
            (b % 16) * 4 + c / 64 == (y % 16) * 4 + z / 64,
    ;
}

/// Two byte sequences with the same encoding are the same: the encoding
/// loses nothing.
pub proof fn law_base64_url_injective(s: Seq<u8>, t: Seq<u8>)
    requires
        base64_url_of(s) == base64_url_of(t),
    ensures
        s == t,
    decreases s.len(),
{
    lemma_base64_url_len(s);
    lemma_base64_url_len(t);
    let n = s.len();
    let m = t.len();
    assert(n == m) by (nonlinear_arith)
        requires
            4 * (n / 3) + (if n % 3 == 0 { 0 } else { n % 3 + 1 }) == 4 * (m / 3) + (if m % 3
                == 0 {
                0
            } else {
                m % 3 + 1
            }),
    ;
    let e = base64_url_of(s);
    if n == 0 {
        assert(s =~= t);
    } else if n < 3 {
        let a = s[0] as int;
        let x = t[0] as int;
        let b = if n == 2 { s[1] as int } else { 0 };
        let y = if n == 2 { t[1] as int } else { 0 };
        assert(e[0] == base64_digit(a / 4) && e[0] == base64_digit(x / 4));
        assert(e[1] == base64_digit((a % 4) * 16 + b / 16));
        assert(e[1] == base64_digit((x % 4) * 16 + y / 16));
        lemma_base64_digit_injective(a / 4, x / 4);
        lemma_base64_digit_injective((a % 4) * 16 + b / 16, (x % 4) * 16 + y / 16);
        if n == 2 {
            assert(e[2] == base64_digit((b % 16) * 4) && e[2] == base64_digit((y % 16) * 4));
            lemma_base64_digit_injective((b % 16) * 4, (y % 16) * 4);
        }
        lemma_base64_group_injective(a, b, 0, x, y, 0);
        assert(s =~= t);
    } else {
        let a = s[0] as int;
        let b = s[1] as int;
        let c = s[2] as int;
        let x = t[0] as int;
        let y = t[1] as int;
        let z = t[2] as int;
        let hs = base64_group(a, b, c);
        let ht = base64_group(x, y, z);
        assert(e == hs + base64_url_of(s.skip(3)));
        assert(e == ht + base64_url_of(t.skip(3)));
        assert(e[0] == hs[0] && e[0] == ht[0]);
        assert(e[1] == hs[1] && e[1] == ht[1]);
        assert(e[2] == hs[2] && e[2] == ht[2]);
        assert(e[3] == hs[3] && e[3] == ht[3]);
        lemma_base64_digit_injective(a / 4, x / 4);
        lemma_base64_digit_injective((a % 4) * 16 + b / 16, (x % 4) * 16 + y / 16);
        lemma_base64_digit_injective((b % 16) * 4 + c / 64, (y % 16) * 4 + z / 64);
        lemma_base64_digit_injective(c % 64, z % 64);
        lemma_base64_group_injective(a, b, c, x, y, z);
        assert(base64_url_of(s.skip(3)) =~= e.skip(4));
        assert(base64_url_of(t.skip(3)) =~= e.skip(4));
        law_base64_url_injective(s.skip(3), t.skip(3));
        assert(s =~= t) by {
            assert forall|k: int| 0 <= k < s.len() implies s[k] == t[k] by {
                if k >= 3 {
                    assert(s[k] == s.skip(3)[k - 3]);
                    assert(t[k] == t.skip(3)[k - 3]);
                }
            }
        }
    }
}

/// Contents hash alike only when their digests are alike: contents whose
/// SHA-256 digests differ, such as a file before and after it gains a
/// final line break, never share a recorded hash.
pub proof fn law_content_hash_tells_digests_apart(a: Seq<u8>, b: Seq<u8>)
    requires
        sha256_of(a) != sha256_of(b),
    ensures
        content_hash_of(a) != content_hash_of(b),
{
    if content_hash_of(a) == content_hash_of(b) {
        law_base64_url_injective(sha256_of(a), sha256_of(b));
    }
}

/// The hash recorded for a file's contents.
pub open spec fn content_hash_of(data: Seq<u8>) -> Seq<char> {
    base64_url_of(sha256_of(data))
}

/// The hash of some contents: their SHA-256 digest in URL-safe base64
/// without padding, 43 characters long. It holds no separator of the tag file (`:`, line
/// breaks).
pub fn content_hash(data: &[u8]) -> (r: String)
    ensures
        r@ == content_hash_of(data@),
        r@ == base64_url_of(sha256_of(data@)),
        r@.len() == 43,
        forall|k: int| 0 <= k < r@.len() ==> is_base64_url_char(#[trigger] r@[k]),
{
    let digest = sha256(data);
    let r = base64_url_no_pad(digest.as_slice());
    proof {
        lemma_base64_url_alphabet(digest@);
        lemma_base64_url_len(digest@);
    }
    r
}

/// Whether an input or output is unchanged since its hash was recorded:
/// a hash was recorded and it equals the current one.
pub fn hash_is_current(recorded: Option<&str>, current: &str) -> (r: bool)
    ensures
        r == (recorded matches Some(h) && h@ == current@),
{
    match recorded {
        Some(h) => crate::paths::seq_eq(&chars_of(h), &chars_of(current)),
        None => false,
    }
}

/// The directory that holds the recorded hashes.
pub open spec fn hashes_dir() -> Seq<char> {
    "generated/hashes/"@
}

/// The extension a recorded hash gets: the file's own extension followed by
/// `.hash`, or `hash` alone.
pub open spec fn hash_extension_of(name: Seq<char>) -> Seq<char> {
    match extension_of(name) {
        Some(x) => x + ".hash"@,
        None => "hash"@,
    }
}

/// Where the hash of the file at `path` is recorded: its file name in the
/// hashes directory, with `.hash` after its extension.
pub fn hashed_path(path: &str) -> (r: String)
    requires
        file_name_of(path@) is Some,
    ensures
        r@ == with_extension_of(
            join_of(hashes_dir(), file_name_of(path@)->0),
            hash_extension_of(file_name_of(path@)->0),
        ),
        r@ == hashes_dir() + file_name_of(path@)->0 + ".hash"@,
{
    let name = file_name(path).unwrap();
    let dir = "generated/hashes/";
    let ext = match extension(path) {
        Some(x) => {
            let mut x = x;
            x.append(".hash");
            x
        },
        None => "hash".to_string(),
    };
    let base = join(dir, name.as_str());
    let r = with_extension(base.as_str(), ext.as_str());
    proof {
        reveal_strlit("generated/hashes/");
        reveal_strlit(".hash");
        reveal_strlit("hash");
        let n = file_name_of(path@)->0;
        lemma_file_name_normal(path@);
        assert(hashes_dir().last() == '/');
        lemma_join_dir(hashes_dir(), n);
        lemma_with_extension_of_dir_and_name(hashes_dir(), n, hash_extension_of(n));
        if extension_of(n) is Some {
            lemma_stem_dot_extension(n);
            assert(hashes_dir() + stem_of(n) + (seq!['.'] + hash_extension_of(n)) =~= hashes_dir()
                + (stem_of(n) + seq!['.'] + extension_of(n)->0) + ".hash"@);
        } else {
            assert(stem_of(n) == n);
            assert(hashes_dir() + stem_of(n) + (seq!['.'] + hash_extension_of(n)) =~= hashes_dir()
                + n + ".hash"@);
        }
    }
    r
}

} // verus!
