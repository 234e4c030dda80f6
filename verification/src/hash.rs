//! The fingerprint of a file's content.

use sha2::{Digest, Sha256};
use vstd::prelude::*;
use vstd::string::*;

verus! {

/// The SHA-256 digest of a byte sequence, as the `sha2` crate computes it.
pub uninterp spec fn sha256_of(bytes: Seq<u8>) -> Seq<u8>;

/// Calls `Sha256::digest` of the `sha2` crate, which hashes the whole input
/// at once, and copies the digest into a vector. Nothing is proved of it:
/// the contract only names its result.
#[verifier::external_body]
pub(crate) fn sha256(bytes: &[u8]) -> (r: Vec<u8>)
    ensures
        r@ == sha256_of(bytes@),
{
    Sha256::digest(bytes).to_vec()
}

/// The sixteen digits, upper case.
pub open spec fn hex_digits() -> Seq<char> {
    "0123456789ABCDEF"@
}

/// A byte as two upper-case hexadecimal digits.
pub open spec fn byte_hex(b: u8) -> Seq<char> {
    seq![hex_digits()[b as int / 16], hex_digits()[b as int % 16]]
}

/// The bytes as hexadecimal pairs, separated by a comma and a space.
pub open spec fn hex_list(bytes: Seq<u8>) -> Seq<char>
    decreases bytes.len(),
{
    if bytes.len() == 0 {
        Seq::empty()
    } else if bytes.len() == 1 {
        byte_hex(bytes[0])
    } else {
        hex_list(bytes.drop_last()) + seq![',', ' '] + byte_hex(bytes.last())
    }
}

/// The bytes as a bracketed list of hexadecimal pairs, such as `[E3, B0, 0C]`.
pub open spec fn hex_text(bytes: Seq<u8>) -> Seq<char> {
    seq!['['] + hex_list(bytes) + seq![']']
}

/// Writes bytes as a bracketed list of upper-case hexadecimal pairs.
pub fn hex_string(bytes: &[u8]) -> (r: String)
    ensures
        r@ == hex_text(bytes@),
{
    let digits = "0123456789ABCDEF";
    proof {
        reveal_strlit("0123456789ABCDEF");
        reveal_strlit("[");
        reveal_strlit("]");
        reveal_strlit(", ");
        assert("["@ =~= seq!['[']);
        assert("]"@ =~= seq![']']);
        assert(", "@ =~= seq![',', ' ']);
    }
    let mut out = String::from_str("[");
    let mut i: usize = 0;
    assert(bytes@.take(0) =~= Seq::empty());
    assert(out@ =~= seq!['['] + hex_list(bytes@.take(0)));
    while i < bytes.len()
        invariant
            i <= bytes.len(),
            digits@ == hex_digits(),
            digits@.len() == 16,
            ", "@ == seq![',', ' '],
            out@ == seq!['['] + hex_list(bytes@.take(i as int)),
        decreases bytes.len() - i,
    {
        let ghost cur = bytes@.take(i as int + 1);
        proof {
            assert(cur.drop_last() =~= bytes@.take(i as int));
            assert(cur.last() == bytes[i as int]);
        }
        if i > 0 {
            out.append(", ");
        }
        let b: u8 = bytes[i];
        let hi: usize = (b / 16) as usize;
        let lo: usize = (b % 16) as usize;
        out.append(digits.substring_char(hi, hi + 1));
        out.append(digits.substring_char(lo, lo + 1));
        proof {
            assert(digits@.subrange(hi as int, hi + 1) + digits@.subrange(lo as int, lo + 1)
                =~= byte_hex(b));
            assert(out@ =~= seq!['['] + hex_list(cur));
        }
        i += 1;
    }
    assert(bytes@.take(bytes.len() as int) =~= bytes@);
    out.append("]");
    out
}

} // verus!
