//! The block hasher: a canonical JSON text of the four hashed fields, its
//! SHA-256 digest, and the digest rendered as upper-case hex without
//! zero-padding.

use vstd::prelude::*;
use vstd::string::*;
use vstd::utf8::encode_utf8;
use crate::text::starts_with;

verus! {

/// The SHA-256 digest of a byte string.
pub uninterp spec fn sha256_digest(data: Seq<u8>) -> Seq<u8>;

/// The JSON text of a string value: the quoted, escaped form that
/// `serde_json` writes for it.
pub uninterp spec fn json_string_text(s: Seq<char>) -> Seq<char>;

/// The upper-case hex digit for a value below sixteen.
pub open spec fn hex_digit(n: int) -> char {
    if n == 0 {
        '0'
    } else if n == 1 {
        '1'
    } else if n == 2 {
        '2'
    } else if n == 3 {
        '3'
    } else if n == 4 {
        '4'
    } else if n == 5 {
        '5'
    } else if n == 6 {
        '6'
    } else if n == 7 {
        '7'
    } else if n == 8 {
        '8'
    } else if n == 9 {
        '9'
    } else if n == 10 {
        'A'
    } else if n == 11 {
        'B'
    } else if n == 12 {
        'C'
    } else if n == 13 {
        'D'
    } else if n == 14 {
        'E'
    } else {
        'F'
    }
}

/// One byte in hex, with no leading zero: `0x0A` is `"A"`, `0xAB` is `"AB"`.
pub open spec fn byte_hex(b: u8) -> Seq<char> {
    if b < 16 {
        seq![hex_digit(b as int)]
    } else {
        seq![hex_digit(b as int / 16), hex_digit(b as int % 16)]
    }
}

/// The bytes of `bytes` in hex, each rendered by [`byte_hex`], in order.
pub open spec fn hex_text(bytes: Seq<u8>) -> Seq<char>
    decreases bytes.len(),
{
    if bytes.len() == 0 {
        Seq::empty()
    } else {
        hex_text(bytes.drop_last()) + byte_hex(bytes.last())
    }
}

fn hex_digit_str(n: u8) -> (s: &'static str)
    requires
        n < 16,
    ensures
        s@ == seq![hex_digit(n as int)],
{
    proof {
        reveal_strlit("0");
        reveal_strlit("1");
        reveal_strlit("2");
        reveal_strlit("3");
        reveal_strlit("4");
        reveal_strlit("5");
        reveal_strlit("6");
        reveal_strlit("7");
        reveal_strlit("8");
        reveal_strlit("9");
        reveal_strlit("A");
        reveal_strlit("B");
        reveal_strlit("C");
        reveal_strlit("D");
        reveal_strlit("E");
        reveal_strlit("F");
    }
    let s = if n == 0 {
        "0"
    } else if n == 1 {
        "1"
    } else if n == 2 {
        "2"
    } else if n == 3 {
        "3"
    } else if n == 4 {
        "4"
    } else if n == 5 {
        "5"
    } else if n == 6 {
        "6"
    } else if n == 7 {
        "7"
    } else if n == 8 {
        "8"
    } else if n == 9 {
        "9"
    } else if n == 10 {
        "A"
    } else if n == 11 {
        "B"
    } else if n == 12 {
        "C"
    } else if n == 13 {
        "D"
    } else if n == 14 {
        "E"
    } else {
        "F"
    };
    assert(s@ =~= seq![hex_digit(n as int)]);
    s
}

/// Renders `bytes` as upper-case hex without zero-padding.
pub fn hex_encode(bytes: &Vec<u8>) -> (text: String)
    ensures
        text@ == hex_text(bytes@),
{
    let mut text = String::new();
    let mut i: usize = 0;
    while i < bytes.len()
        invariant
            i <= bytes.len(),
            text@ == hex_text(bytes@.take(i as int)),
        decreases bytes.len() - i,
    {
        let b: u8 = bytes[i];
        if b >= 16 {
            text.append(hex_digit_str(b / 16));
        }
        text.append(hex_digit_str(b % 16));
        proof {
            let next = bytes@.take(i as int + 1);
            assert(next.drop_last() =~= bytes@.take(i as int));
            assert(next.last() == b);
            assert(text@ =~= hex_text(next.drop_last()) + byte_hex(next.last()));
        }
        i += 1;
    }
    proof {
        assert(bytes@.take(bytes.len() as int) =~= bytes@);
    }
    text
}

/// The decimal digits of a natural number, most significant first.
pub open spec fn decimal_digits(n: nat) -> Seq<char>
    decreases n,
{
    if n < 10 {
        seq![hex_digit(n as int)]
    } else {
        decimal_digits(n / 10).push(hex_digit((n % 10) as int))
    }
}

/// The decimal text of an integer, with a leading `-` below zero.
pub open spec fn decimal_text(i: int) -> Seq<char> {
    if i < 0 {
        seq!['-'] + decimal_digits((-i) as nat)
    } else {
        decimal_digits(i as nat)
    }
}

/// The text that is hashed for a block: a compact JSON object with the keys
/// `prev_hash`, `data`, `timestamp`, `nonce`, in that order.
pub open spec fn canonical_text(
    prev_hash: Seq<char>,
    data: Seq<char>,
    timestamp: int,
    nonce: int,
) -> Seq<char> {
    "{\"prev_hash\":"@ + json_string_text(prev_hash) + ",\"data\":"@ + json_string_text(data)
        + ",\"timestamp\":"@ + decimal_text(timestamp) + ",\"nonce\":"@ + decimal_text(nonce)
        + "}"@
}

/// The hash of a block's four hashed fields: the unpadded hex of the SHA-256
/// digest of the UTF-8 bytes of [`canonical_text`].
pub open spec fn hash_text(
    prev_hash: Seq<char>,
    data: Seq<char>,
    timestamp: int,
    nonce: int,
) -> Seq<char> {
    hex_text(sha256_digest(encode_utf8(canonical_text(prev_hash, data, timestamp, nonce))))
}

/// Calls `sha2::Sha256::digest` on `data`. Trusted: the result is the SHA-256
/// digest of the input, which is 32 bytes long.
#[verifier::external_body]
fn sha256(data: &[u8]) -> (digest: Vec<u8>)
    ensures
        digest@ == sha256_digest(data@),
        digest@.len() == 32,
{
    <sha2::Sha256 as sha2::Digest>::digest(data).to_vec()
}

/// Calls `to_string` on the `serde_json::Value` made from `s`. Trusted: the
/// result is the JSON text of that string, a function of `s` alone.
#[verifier::external_body]
pub(crate) fn json_string(s: &str) -> (text: String)
    ensures
        text@ == json_string_text(s@),
{
    serde_json::Value::from(s).to_string()
}

/// Calls `to_string` on the `serde_json::Value` made from `n`. Trusted: a
/// JSON integer is written in plain decimal, with `-` before a negative one.
#[verifier::external_body]
pub(crate) fn json_integer(n: i64) -> (text: String)
    ensures
        text@ == decimal_text(n as int),
{
    serde_json::Value::from(n).to_string()
}

/// Builds the text that is hashed for a block.
pub fn canonical_json(prev_hash: &str, data: &str, timestamp: i64, nonce: i64) -> (text: String)
    ensures
        text@ == canonical_text(prev_hash@, data@, timestamp as int, nonce as int),
{
    let mut text = String::from_str("{\"prev_hash\":");
    text.append(json_string(prev_hash).as_str());
    text.append(",\"data\":");
    text.append(json_string(data).as_str());
    text.append(",\"timestamp\":");
    text.append(json_integer(timestamp).as_str());
    text.append(",\"nonce\":");
    text.append(json_integer(nonce).as_str());
    text.append("}");
    text
}

/// The hex text of some bytes has one or two characters for each byte.
pub proof fn lemma_hex_text_len(bytes: Seq<u8>)
    ensures
        bytes.len() <= hex_text(bytes).len() <= 2 * bytes.len(),
    decreases bytes.len(),
{
    if bytes.len() > 0 {
        lemma_hex_text_len(bytes.drop_last());
    }
}

/// Hashes the four hashed fields of a block.
///
/// The result depends on the arguments alone: it is [`hash_text`] of them,
/// the hex of 32 bytes, and so has 32 to 64 characters.
pub fn hasher(prev_hash: &str, data: &str, timestamp: i64, nonce: i64) -> (hash: String)
    ensures
        hash@ == hash_text(prev_hash@, data@, timestamp as int, nonce as int),
        32 <= hash@.len() <= 64,
{
    let text = canonical_json(prev_hash, data, timestamp, nonce);
    let digest = sha256(text.as_str().as_bytes());
    proof {
        lemma_hex_text_len(digest@);
    }
    hex_encode(&digest)
}

/// Whether `hash` starts with the difficulty prefix: a plain prefix match on
/// the characters of the hex string.
pub fn meets_difficulty(hash: &str, difficulty: &str) -> (met: bool)
    ensures
        met == difficulty@.is_prefix_of(hash@),
{
    starts_with(hash, difficulty)
}

/// The empty difficulty is met by every hash.
pub proof fn lemma_empty_difficulty_always_met(hash: Seq<char>)
    ensures
        Seq::<char>::empty().is_prefix_of(hash),
{
    assert(Seq::<char>::empty() =~= hash.subrange(0, 0));
}

} // verus!
