//! Names for rendered files: hashes of what they were rendered from.

use sha2::Digest;
use sha2::Sha256;
use vstd::prelude::*;
use vstd::string::StringSliceAdditionalSpecFns;

verus! {

/// The SHA-256 digest of a sequence of bytes.
pub uninterp spec fn sha256_of(data: Seq<u8>) -> Seq<u8>;

/// `Sha256::digest` of the crate `sha2`: the SHA-256 digest of `data`,
/// which has 32 bytes. The contract gives the digest a name and states its
/// length; what the digest is, is not stated.
#[verifier::external_body]
fn sha256(data: &[u8]) -> (digest: Vec<u8>)
    ensures
        digest@ == sha256_of(data@),
        digest@.len() == 32,
{
    Sha256::digest(data).to_vec()
}

/// The hexadecimal digit for a number below sixteen, in lower case.
pub open spec fn hex_digit(d: nat) -> char {
    if d == 0 {
        '0'
    } else if d == 1 {
        '1'
    } else if d == 2 {
        '2'
    } else if d == 3 {
        '3'
    } else if d == 4 {
        '4'
    } else if d == 5 {
        '5'
    } else if d == 6 {
        '6'
    } else if d == 7 {
        '7'
    } else if d == 8 {
        '8'
    } else if d == 9 {
        '9'
    } else if d == 10 {
        'a'
    } else if d == 11 {
        'b'
    } else if d == 12 {
        'c'
    } else if d == 13 {
        'd'
    } else if d == 14 {
        'e'
    } else {
        'f'
    }
}

/// The first `count` bytes of `data` in hexadecimal digits, two for each
/// byte, the high half first.
pub open spec fn hex_of(data: Seq<u8>, count: int) -> Seq<char>
    decreases count,
{
    if count <= 0 {
        Seq::empty()
    } else {
        hex_of(data, count - 1).push(hex_digit((data[count - 1] / 16) as nat)).push(
            hex_digit((data[count - 1] % 16) as nat),
        )
    }
}

/// The hexadecimal digit for a number below sixteen, as a text.
fn hex_digit_text(d: u8) -> (text: &'static str)
    requires
        d < 16,
    ensures
        text@ == seq![hex_digit(d as nat)],
{
    proof {
        reveal_strlit("0");
        reveal_strlit("1");
        reveal_strlit("2");
        reveal_strlit("3");
        reveal_strlit("4");
        reveal_strlit("5");
        reveal_strlit("6");
        reveal_strlit("7");
        reveal_strlit("8");
        reveal_strlit("9");
        reveal_strlit("a");
        reveal_strlit("b");
        reveal_strlit("c");
        reveal_strlit("d");
        reveal_strlit("e");
        reveal_strlit("f");
    }
    let text = if d == 0 {
        "0"
    } else if d == 1 {
        "1"
    } else if d == 2 {
        "2"
    } else if d == 3 {
        "3"
    } else if d == 4 {
        "4"
    } else if d == 5 {
        "5"
    } else if d == 6 {
        "6"
    } else if d == 7 {
        "7"
    } else if d == 8 {
        "8"
    } else if d == 9 {
        "9"
    } else if d == 10 {
        "a"
    } else if d == 11 {
        "b"
    } else if d == 12 {
        "c"
    } else if d == 13 {
        "d"
    } else if d == 14 {
        "e"
    } else {
        "f"
    };
    assert(text@ =~= seq![hex_digit(d as nat)]);
    text
}

/// The first `count` bytes of `data` in hexadecimal digits.
pub fn hex_prefix(data: &Vec<u8>, count: usize) -> (text: String)
    requires
        count <= data@.len(),
    ensures
        text@ == hex_of(data@, count as int),
{
    let mut text = String::new();
    let mut i: usize = 0;
    while i < count
        invariant
            i <= count <= data@.len(),
            text@ == hex_of(data@, i as int),
        decreases count - i,
    {
        let b = data[i];
        text.append(hex_digit_text(b / 16));
        text.append(hex_digit_text(b % 16));
        i += 1;
        assert(text@ =~= hex_of(data@, i as int));
    }
    text
}

/// The first 24 hexadecimal digits of the SHA-256 digest of `input`.
pub fn hash(input: &str) -> (text: String)
    ensures
        text@ == hex_of(sha256_of(input.spec_bytes()), 12),
        text@.len() == 24,
{
    let digest = sha256(input.as_bytes());
    proof {
        lemma_hex_len(digest@, 12);
    }
    hex_prefix(&digest, 12)
}

/// The first ten hexadecimal digits of the SHA-256 digest of `input`.
pub fn short_hash(input: &str) -> (text: String)
    ensures
        text@ == hex_of(sha256_of(input.spec_bytes()), 5),
        text@.len() == 10,
{
    let digest = sha256(input.as_bytes());
    proof {
        lemma_hex_len(digest@, 5);
    }
    hex_prefix(&digest, 5)
}

/// Every byte gives two digits.
pub proof fn lemma_hex_len(data: Seq<u8>, count: int)
    requires
        0 <= count,
    ensures
        hex_of(data, count).len() == 2 * count,
    decreases count,
{
    if count > 0 {
        lemma_hex_len(data, count - 1);
    }
}

} // verus!
