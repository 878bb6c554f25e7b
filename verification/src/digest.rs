//! SHA-256 digests and their hexadecimal text.
use sha2::{Digest, Sha256};
use vstd::prelude::*;

verus! {

/// The SHA-256 digest of `data`.
pub uninterp spec fn sha256_of(data: Seq<u8>) -> Seq<u8>;

/// `Sha256::digest`: the 32-byte SHA-256 digest of `data`. The contract
/// names the result and gives its length.
#[verifier::external_body]
pub fn sha256(data: &[u8]) -> (d: Vec<u8>)
    ensures
        d@ == sha256_of(data@),
        d@.len() == 32,
{
    Sha256::digest(data).to_vec()
}

/// The lowercase hexadecimal digit of `n`, which is below sixteen.
pub open spec fn hex_digit(n: u8) -> char {
    if n < 10 {
        ((n + 48) as u8) as char
    } else {
        ((n + 87) as u8) as char
    }
}

/// Each byte of `b` as two lowercase hexadecimal digits, high half first.
pub open spec fn hex_text(b: Seq<u8>) -> Seq<char>
    decreases b.len(),
{
    if b.len() == 0 {
        Seq::empty()
    } else {
        hex_text(b.drop_last()).push(hex_digit(b.last() >> 4u8)).push(hex_digit(b.last() & 0x0fu8))
    }
}

/// `hex::encode`: each byte of `data` as two lowercase hexadecimal digits,
/// high half first, as the crate's source writes them.
#[verifier::external_body]
pub fn hex_encode(data: &[u8]) -> (s: String)
    ensures
        s@ == hex_text(data@),
{
    hex::encode(data)
}

/// The SHA-256 digest of `content` in lowercase hexadecimal.
pub fn sha256_hex(content: &[u8]) -> (s: String)
    ensures
        s@ == hex_text(sha256_of(content@)),
        s@.len() == 64,
{
    let d = sha256(content);
    let s = hex_encode(d.as_slice());
    proof {
        lemma_hex_len(d@);
    }
    s
}

proof fn lemma_hex_len(b: Seq<u8>)
    ensures
        hex_text(b).len() == 2 * b.len(),
    decreases b.len(),
{
    if b.len() > 0 {
        lemma_hex_len(b.drop_last());
    }
}

/// The digits of `hex_text` are ASCII characters.
pub proof fn lemma_hex_ascii(b: Seq<u8>)
    ensures
        vstd::utf8::is_ascii_chars(hex_text(b)),
    decreases b.len(),
{
    if b.len() > 0 {
        lemma_hex_ascii(b.drop_last());
        let x = b.last();
        assert(x >> 4u8 < 16) by (bit_vector);
        assert(x & 0x0fu8 < 16) by (bit_vector);
        let t = hex_text(b);
        let p = hex_text(b.drop_last());
        assert forall|i: int| 0 <= i < t.len() implies '\0' <= #[trigger] t[i] <= '\u{7f}' by {
            if i < p.len() {
                assert(t[i] == p[i]);
            }
        }
    }
}

} // verus!
