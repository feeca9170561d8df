//! The hash of a file's content, as text.
//!
//! The hash functions themselves are those of the crates `sha2`, `sha3` and
//! `blake3`. What they compute is not restated here: each has a name, and the
//! contracts of this module say which one was applied to which bytes.
use crate::text::str_eq;
use vstd::prelude::*;
use vstd::string::StringExecFns;

verus! {

/// The hash functions that a scan can use.
#[derive(Clone, Copy, Debug, PartialEq, Eq)]
pub enum HashAlgorithm {
    /// SHA-256.
    Sha2,
    /// SHA3-256.
    Sha3,
    /// BLAKE3, with its default output of 32 bytes.
    Blake3,
}

/// The algorithm that a name selects: `sha2`, `sha3` or `blake3`.
pub open spec fn algorithm_named(name: Seq<char>) -> Option<HashAlgorithm> {
    if name == "sha2"@ {
        Some(HashAlgorithm::Sha2)
    } else if name == "sha3"@ {
        Some(HashAlgorithm::Sha3)
    } else if name == "blake3"@ {
        Some(HashAlgorithm::Blake3)
    } else {
        None
    }
}

/// Selects a hash algorithm by its name. Any name but the three known ones
/// selects none.
pub fn select_algorithm(name: &str) -> (selected: Option<HashAlgorithm>)
    ensures
        selected == algorithm_named(name@),
{
    if str_eq(name, "sha2") {
        Some(HashAlgorithm::Sha2)
    } else if str_eq(name, "sha3") {
        Some(HashAlgorithm::Sha3)
    } else if str_eq(name, "blake3") {
        Some(HashAlgorithm::Blake3)
    } else {
        None
    }
}

/// The SHA-256 digest of `data`, as `sha2` computes it.
pub uninterp spec fn sha2_256_digest(data: Seq<u8>) -> Seq<u8>;

/// The SHA3-256 digest of `data`, as `sha3` computes it.
pub uninterp spec fn sha3_256_digest(data: Seq<u8>) -> Seq<u8>;

/// The BLAKE3 hash of `data`, as `blake3` computes it.
pub uninterp spec fn blake3_digest(data: Seq<u8>) -> Seq<u8>;

/// Calls `Digest::digest` of the crate `digest` for `sha2::Sha256` and hands
/// back the bytes of its output. Trusted: the result is the SHA-256 digest
/// of `data`, a function of `data` alone.
#[verifier::external_body]
fn sha2_256(data: &[u8]) -> (out: Vec<u8>)
    ensures
        out@ == sha2_256_digest(data@),
{
    <sha2::Sha256 as digest::Digest>::digest(data).to_vec()
}

/// Calls `Digest::digest` of the crate `digest` for `sha3::Sha3_256` and
/// hands back the bytes of its output. Trusted: the result is the SHA3-256
/// digest of `data`, a function of `data` alone.
#[verifier::external_body]
fn sha3_256(data: &[u8]) -> (out: Vec<u8>)
    ensures
        out@ == sha3_256_digest(data@),
{
    <sha3::Sha3_256 as digest::Digest>::digest(data).to_vec()
}

/// Calls `blake3::hash` and hands back the bytes of its output. Trusted: the
/// result is the BLAKE3 hash of `data`, a function of `data` alone.
#[verifier::external_body]
fn blake3_hash(data: &[u8]) -> (out: Vec<u8>)
    ensures
        out@ == blake3_digest(data@),
{
    blake3::hash(data).as_bytes().to_vec()
}

/// The digest of `data` under an algorithm.
pub open spec fn digest_spec(algorithm: HashAlgorithm, data: Seq<u8>) -> Seq<u8> {
    match algorithm {
        HashAlgorithm::Sha2 => sha2_256_digest(data),
        HashAlgorithm::Sha3 => sha3_256_digest(data),
        HashAlgorithm::Blake3 => blake3_digest(data),
    }
}

/// The lower-case hexadecimal digit for a value below 16.
pub open spec fn hex_digit(n: u8) -> char {
    if n < 10 {
        ('0' as u8 + n) as char
    } else {
        ('a' as u8 + (n - 10)) as char
    }
}

/// The bytes in lower-case hexadecimal: two digits for each byte, the high
/// half first.
pub open spec fn hex_spec(bytes: Seq<u8>) -> Seq<char>
    decreases bytes.len(),
{
    if bytes.len() == 0 {
        Seq::empty()
    } else {
        hex_spec(bytes.drop_last()) + seq![
            hex_digit(bytes.last() / 16),
            hex_digit(bytes.last() % 16),
        ]
    }
}

fn hex_digit_str(n: u8) -> (digit: &'static str)
    requires
        n < 16,
    ensures
        digit@ == seq![hex_digit(n)],
{
    proof {
        reveal_strlit("0");
        reveal_strlit("1");
        reveal_strlit("2");
        reveal_strlit("3");
        reveal_strlit("4");
        reveal_strlit("5");
        reveal_strlit("6");
        reveal_strlit("7");
        reveal_strlit("8");
        reveal_strlit("9");
        reveal_strlit("a");
        reveal_strlit("b");
        reveal_strlit("c");
        reveal_strlit("d");
        reveal_strlit("e");
        reveal_strlit("f");
    }
    let digit = match n {
        0 => "0",
        1 => "1",
        2 => "2",
        3 => "3",
        4 => "4",
        5 => "5",
        6 => "6",
        7 => "7",
        8 => "8",
        9 => "9",
        10 => "a",
        11 => "b",
        12 => "c",
        13 => "d",
        14 => "e",
        _ => "f",
    };
    assert(digit@ =~= seq![hex_digit(n)]);
    digit
}

/// Writes bytes in lower-case hexadecimal.
pub fn to_hex(bytes: &[u8]) -> (hex: String)
    ensures
        hex@ == hex_spec(bytes@),
{
    let mut hex = String::new();
    let mut i: usize = 0;
    assert(bytes@.take(0) =~= Seq::<u8>::empty());
    while i < bytes.len()
        invariant
            i <= bytes@.len(),
            hex@ == hex_spec(bytes@.take(i as int)),
        decreases bytes@.len() - i,
    {
        let byte: u8 = bytes[i];
        proof {
            assert(bytes@.take(i as int + 1).drop_last() =~= bytes@.take(i as int));
            assert(bytes@.take(i as int + 1).last() == byte);
        }
        let ghost before = hex@;
        hex.append(hex_digit_str(byte / 16));
        hex.append(hex_digit_str(byte % 16));
        assert(hex@ =~= before + seq![hex_digit(byte / 16), hex_digit(byte % 16)]);
        i = i + 1;
    }
    assert(bytes@.take(bytes@.len() as int) =~= bytes@);
    hex
}

/// The hash of `data` under `algorithm`, in lower-case hexadecimal.
pub fn hash_hex(algorithm: HashAlgorithm, data: &[u8]) -> (hex: String)
    ensures
        hex@ == hex_spec(digest_spec(algorithm, data@)),
{
    let digest = match algorithm {
        HashAlgorithm::Sha2 => sha2_256(data),
        HashAlgorithm::Sha3 => sha3_256(data),
        HashAlgorithm::Blake3 => blake3_hash(data),
    };
    to_hex(digest.as_slice())
}

} // verus!
