//! SHA-256 digests of downloaded core archives: normalising the published
//! digest and checking an archive against it.
use sha2::Digest;
use vstd::prelude::*;
use crate::text::{
    ascii_lowercase, ascii_lowercase_chars, chars_equal, chars_of, concat, is_hex_digit,
    string_of, strip_prefix, strip_prefix_chars,
};

verus! {

/// The optional prefix of a published digest.
pub open spec fn sha256_prefix() -> Seq<char> {
    seq!['s', 'h', 'a', '2', '5', '6', ':']
}

/// The text that `normalize_sha256` checks: `value` without a leading
/// `sha256:`, in ASCII lower case.
pub open spec fn digest_candidate(value: Seq<char>) -> Seq<char> {
    let body = match strip_prefix(value, sha256_prefix()) {
        Some(rest) => rest,
        None => value,
    };
    ascii_lowercase(body)
}

/// Exactly 64 ASCII hexadecimal digits.
pub open spec fn is_hex_digest(d: Seq<char>) -> bool {
    d.len() == 64 && forall|i: int| 0 <= i < d.len() ==> is_hex_digit(#[trigger] d[i])
}

/// What `normalize_sha256` returns for `value`.
pub open spec fn normalized_sha256(value: Seq<char>) -> Result<Seq<char>, Seq<char>> {
    if is_hex_digest(digest_candidate(value)) {
        Ok(digest_candidate(value))
    } else {
        Err(invalid_digest_message())
    }
}

/// The error for a published digest that is not a SHA-256 digest.
pub open spec fn invalid_digest_message() -> Seq<char> {
    "release asset does not provide a valid SHA-256 digest"@
}

/// The view of a `Result<String, String>`.
pub open spec fn result_view(r: Result<String, String>) -> Result<Seq<char>, Seq<char>> {
    match r {
        Ok(s) => Ok(s@),
        Err(e) => Err(e@),
    }
}

fn all_hex(d: &[char]) -> (r: bool)
    ensures
        r == (forall|i: int| 0 <= i < d@.len() ==> is_hex_digit(#[trigger] d@[i])),
{
    let mut i: usize = 0;
    while i < d.len()
        invariant
            i <= d@.len(),
            forall|k: int| 0 <= k < i ==> is_hex_digit(#[trigger] d@[k]),
        decreases d@.len() - i,
    {
        let c = d[i];
        if !(('0' <= c && c <= '9') || ('a' <= c && c <= 'f') || ('A' <= c && c <= 'F')) {
            assert(!is_hex_digit(d@[i as int]));
            return false;
        }
        i = i + 1;
    }
    true
}

/// Normalises a published SHA-256 digest: an optional `sha256:` prefix is
/// dropped and the rest lower-cased; the result must be 64 hex digits.
pub fn normalize_sha256(value: &str) -> (r: Result<String, String>)
    ensures
        result_view(r) == normalized_sha256(value@),
        r is Ok <==> is_hex_digest(digest_candidate(value@)),
{
    let v = chars_of(value);
    let prefix: [char; 7] = ['s', 'h', 'a', '2', '5', '6', ':'];
    assert(prefix@ =~= sha256_prefix());
    let body = match strip_prefix_chars(&v, &prefix) {
        Some(rest) => rest,
        None => v,
    };
    let digest = ascii_lowercase_chars(&body);
    if digest.len() != 64 || !all_hex(&digest) {
        return Err(String::from_str("release asset does not provide a valid SHA-256 digest"));
    }
    Ok(string_of(&digest))
}

/// Normalising twice changes nothing: a normalised digest normalises to
/// itself.
pub proof fn lemma_normalize_sha256_idempotent(value: Seq<char>)
    requires
        normalized_sha256(value) is Ok,
    ensures
        normalized_sha256(normalized_sha256(value)->Ok_0) == normalized_sha256(value),
{
    let d = digest_candidate(value);
    assert(is_hex_digest(d));
    let body = match strip_prefix(value, sha256_prefix()) {
        Some(rest) => rest,
        None => value,
    };
    lemma_lowercase_idempotent(body);
    lemma_hex_digest_is_candidate(d);
}

/// A string of 64 hex digits in lower case is its own candidate.
proof fn lemma_hex_digest_is_candidate(d: Seq<char>)
    requires
        is_hex_digest(d),
        d == ascii_lowercase(d),
    ensures
        digest_candidate(d) == d,
{
    assert(is_hex_digit(d[0]));
    assert(!sha256_prefix().is_prefix_of(d)) by {
        if sha256_prefix().is_prefix_of(d) {
            assert(d[0] == d.subrange(0, 7)[0]);
        }
    }
}

proof fn lemma_lowercase_idempotent(s: Seq<char>)
    ensures
        ascii_lowercase(ascii_lowercase(s)) == ascii_lowercase(s),
{
    assert(ascii_lowercase(ascii_lowercase(s)) =~= ascii_lowercase(s));
}


// ---------------------------------------------------------------------------
// Hex rendering and the archive check
// ---------------------------------------------------------------------------

/// The lower-case hex digit for `n < 16`.
pub open spec fn hex_char(n: nat) -> char {
    if n < 10 {
        (n + 48) as char
    } else {
        (n + 87) as char
    }
}

/// Two lower-case hex digits per byte, as `format!("{:x}", digest)` writes
/// a digest.
pub open spec fn lower_hex(bytes: Seq<u8>) -> Seq<char>
    decreases bytes.len(),
{
    if bytes.len() == 0 {
        Seq::empty()
    } else {
        lower_hex(bytes.drop_last()) + seq![
            hex_char((bytes.last() / 16) as nat),
            hex_char((bytes.last() % 16) as nat),
        ]
    }
}

fn hex_char_exec(n: u8) -> (c: char)
    requires
        n < 16,
    ensures
        c == hex_char(n as nat),
{
    if n < 10 {
        (n + 48) as char
    } else {
        (n + 87) as char
    }
}

/// Exec form of [`lower_hex`].
pub fn lower_hex_chars(bytes: &[u8]) -> (r: Vec<char>)
    ensures
        r@ == lower_hex(bytes@),
{
    let mut r: Vec<char> = Vec::new();
    let mut i: usize = 0;
    assert(bytes@.take(0) =~= Seq::<u8>::empty());
    while i < bytes.len()
        invariant
            i <= bytes@.len(),
            r@ == lower_hex(bytes@.take(i as int)),
        decreases bytes@.len() - i,
    {
        let b = bytes[i];
        let hi = hex_char_exec(b / 16);
        let lo = hex_char_exec(b % 16);
        r.push(hi);
        r.push(lo);
        assert(bytes@.take(i + 1).drop_last() =~= bytes@.take(i as int));
        i = i + 1;
    }
    assert(bytes@.take(bytes@.len() as int) =~= bytes@);
    r
}

proof fn lemma_lower_hex_shape(bytes: Seq<u8>)
    ensures
        lower_hex(bytes).len() == 2 * bytes.len(),
        forall|i: int| 0 <= i < lower_hex(bytes).len() ==> {
            let c = #[trigger] lower_hex(bytes)[i];
            ('0' <= c && c <= '9') || ('a' <= c && c <= 'f')
        },
    decreases bytes.len(),
{
    if bytes.len() > 0 {
        lemma_lower_hex_shape(bytes.drop_last());
        let prev = lower_hex(bytes.drop_last());
        let b = bytes.last();
        let pair = seq![hex_char((b / 16) as nat), hex_char((b % 16) as nat)];
        assert forall|i: int| 0 <= i < lower_hex(bytes).len() implies {
            let c = #[trigger] lower_hex(bytes)[i];
            ('0' <= c && c <= '9') || ('a' <= c && c <= 'f')
        } by {
            if i >= prev.len() {
                assert(lower_hex(bytes)[i] == pair[i - prev.len()]);
            } else {
                assert(lower_hex(bytes)[i] == prev[i]);
            }
        }
    }
}

/// The SHA-256 digest of `data`, as the sha2 crate computes it.
pub uninterp spec fn sha256(data: Seq<u8>) -> Seq<u8>;

/// Calls `sha2::Sha256::digest` (the `Digest` trait's one-shot
/// new/update/finalize). Claimed: the result is `sha256(data)` and holds
/// the 32 bytes of SHA-256's output size.
#[verifier::external_body]
fn sha256_digest(data: &[u8]) -> (d: Vec<u8>)
    ensures
        d@ == sha256(data@),
        d@.len() == 32,
{
    sha2::Sha256::digest(data).to_vec()
}

/// The view of a `Result<(), String>`.
pub open spec fn unit_result_view(r: Result<(), String>) -> Result<(), Seq<char>> {
    match r {
        Ok(()) => Ok(()),
        Err(e) => Err(e@),
    }
}

/// The outcome of comparing an archive's digest with the expected one.
pub open spec fn digest_check(actual: Seq<u8>, expected: Seq<char>) -> Result<(), Seq<char>> {
    if lower_hex(actual) == expected {
        Ok(())
    } else {
        Err("SHA-256 mismatch: expected "@ + expected + ", received "@ + lower_hex(actual))
    }
}

/// Compares a computed digest with the expected (normalised) digest.
pub fn compare_digest(actual: &[u8], expected: &str) -> (r: Result<(), String>)
    ensures
        unit_result_view(r) == digest_check(actual@, expected@),
{
    let hex = lower_hex_chars(actual);
    let exp = chars_of(expected);
    if chars_equal(&hex, &exp) {
        Ok(())
    } else {
        let msg = String::from_str("SHA-256 mismatch: expected ");
        let msg = concat(msg, expected);
        let msg = concat(msg, ", received ");
        let hex_text = string_of(&hex);
        let msg = concat(msg, hex_text.as_str());
        Err(msg)
    }
}

/// Checks the bytes of a downloaded archive against the expected
/// (normalised) SHA-256 digest.
pub fn check_archive_digest(archive: &[u8], expected: &str) -> (r: Result<(), String>)
    ensures
        unit_result_view(r) == digest_check(sha256(archive@), expected@),
{
    let actual = sha256_digest(archive);
    compare_digest(&actual, expected)
}

/// The digest text of any 32-byte digest, published bare or with the
/// `sha256:` prefix, normalises to itself, and an archive with that digest
/// passes the check.
pub proof fn lemma_published_digest_accepted(digest: Seq<u8>)
    requires
        digest.len() == 32,
    ensures
        normalized_sha256(lower_hex(digest)) == Ok::<Seq<char>, Seq<char>>(lower_hex(digest)),
        normalized_sha256(sha256_prefix() + lower_hex(digest)) == Ok::<Seq<char>, Seq<char>>(
            lower_hex(digest),
        ),
        digest_check(digest, lower_hex(digest)) is Ok,
{
    let h = lower_hex(digest);
    lemma_lower_hex_shape(digest);
    assert(ascii_lowercase(h) =~= h);
    assert(is_hex_digest(h)) by {
        assert forall|i: int| 0 <= i < h.len() implies is_hex_digit(#[trigger] h[i]) by {
            assert(('0' <= h[i] && h[i] <= '9') || ('a' <= h[i] && h[i] <= 'f'));
        }
    }
    lemma_hex_digest_is_candidate(h);
    let p = sha256_prefix() + h;
    assert(sha256_prefix().is_prefix_of(p)) by {
        assert(p.subrange(0, 7) =~= sha256_prefix());
    }
    assert(p.skip(7) =~= h);
}

} // verus!
