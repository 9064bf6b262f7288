//! The name under which a configuration is kept.
use vstd::prelude::*;
use vstd::string::*;
use vstd::utf8::encode_utf8;
use crate::number::digit;

verus! {

/// The SHA-256 digest of the data.
pub uninterp spec fn sha256(data: Seq<u8>) -> Seq<u8>;

/// The digest that `sha2::Sha256::digest` computes. The claim is that it depends on the data
/// alone and has 32 bytes.
#[verifier::external_body]
fn sha256_digest(data: &[u8]) -> (r: Vec<u8>)
    ensures
        r@ == sha256(data@),
        r@.len() == 32,
{
    <sha2::Sha256 as sha2::Digest>::digest(data).to_vec()
}

/// Bytes in hexadecimal notation, two lower case digits for each.
pub open spec fn hex_text(data: Seq<u8>) -> Seq<char>
    decreases data.len(),
{
    if data.len() == 0 {
        seq![]
    } else {
        hex_text(data.drop_last()).push(digit((data.last() / 16) as nat)).push(
            digit((data.last() % 16) as nat),
        )
    }
}

/// The text that `hex::encode` gives for bytes. The claim is that it writes each byte with two
/// lower case digits, the higher one first.
#[verifier::external_body]
fn hex_encode(data: &Vec<u8>) -> (r: String)
    ensures
        r@ == hex_text(data@),
{
    hex::encode(data)
}

/// The name under which the configuration at a path is kept: the digest of the path in
/// hexadecimal notation.
pub fn config_hash(path: &str) -> (r: String)
    ensures
        r@ == hex_text(sha256(encode_utf8(path@))),
        r@.len() == 64,
{
    let digest = sha256_digest(path.as_bytes());
    proof {
        lemma_hex_len(digest@);
    }
    hex_encode(&digest)
}

proof fn lemma_hex_len(data: Seq<u8>)
    ensures
        hex_text(data).len() == 2 * data.len(),
    decreases data.len(),
{
    if data.len() > 0 {
        lemma_hex_len(data.drop_last());
    }
}

/// A configuration is kept under the digest of its path: sixty-four digits, the same for the same
/// path, and written byte by byte.
pub proof fn law_name_is_the_digest_of_the_path(path: &str, other: &str, r: String, s: String)
    requires
        call_ensures(config_hash, (path,), r),
        call_ensures(config_hash, (other,), s),
    ensures
        r@.len() == 64,
        path@ == other@ ==> r@ == s@,
        r@ == hex_text(sha256(encode_utf8(path@))),
{
}

/// Each byte is written with two digits, the higher one first.
pub proof fn law_bytes_in_hexadecimal(data: Seq<u8>, b: u8)
    ensures
        hex_text(data.push(b)) == hex_text(data) + seq![digit(b as nat / 16), digit(b as nat % 16)],
        hex_text(Seq::<u8>::empty()).len() == 0,
        digit(10) == 'a' && digit(15) == 'f' && digit(0) == '0' && digit(9) == '9',
{
    assert(data.push(b).drop_last() =~= data);
    assert(hex_text(data.push(b)) =~= hex_text(data) + seq![
        digit(b as nat / 16),
        digit(b as nat % 16),
    ]);
}

} // verus!
