//! Article identifiers: the lowercase hex SHA-256 digest of the trimmed link.

use vstd::prelude::*;
use vstd::utf8::encode_utf8;
use crate::text::{trim, trimmed};
use crate::trusted::{sha256, sha256_digest, push_char};

verus! {

/// The lowercase hexadecimal digit for `n` (`0 <= n < 16`).
pub open spec fn hex_digit(n: int) -> char {
    seq!['0', '1', '2', '3', '4', '5', '6', '7', '8', '9', 'a', 'b', 'c', 'd', 'e', 'f'][n]
}

/// Bytes written as two lowercase hexadecimal digits each, high nibble first.
pub open spec fn hex_lower(bytes: Seq<u8>) -> Seq<char> {
    Seq::new(
        2 * bytes.len(),
        |i: int|
            if i % 2 == 0 {
                hex_digit(bytes[i / 2] as int / 16)
            } else {
                hex_digit(bytes[i / 2] as int % 16)
            },
    )
}

/// Writes bytes as lowercase hexadecimal, two digits per byte.
pub fn to_hex_lower(bytes: &Vec<u8>) -> (r: String)
    ensures
        r@ == hex_lower(bytes@),
{
    let digits: [char; 16] = [
        '0',
        '1',
        '2',
        '3',
        '4',
        '5',
        '6',
        '7',
        '8',
        '9',
        'a',
        'b',
        'c',
        'd',
        'e',
        'f',
    ];
    assert(digits@ =~= seq![
        '0',
        '1',
        '2',
        '3',
        '4',
        '5',
        '6',
        '7',
        '8',
        '9',
        'a',
        'b',
        'c',
        'd',
        'e',
        'f',
    ]);
    let mut r = String::new();
    let mut i: usize = 0;
    while i < bytes.len()
        invariant
            i <= bytes.len(),
            forall|k: int| 0 <= k < 16 ==> digits@[k] == hex_digit(k),
            r@ =~= hex_lower(bytes@.take(i as int)),
        decreases bytes.len() - i,
    {
        let b: u8 = bytes[i];
        let hi: usize = (b / 16) as usize;
        let lo: usize = (b % 16) as usize;
        push_char(&mut r, digits[hi]);
        push_char(&mut r, digits[lo]);
        let ghost t = bytes@.take(i + 1);
        assert(t[i as int] == b);
        assert(forall|k: int| 0 <= k < i ==> t[k] == bytes@.take(i as int)[k]);
        i = i + 1;
        assert(r@ =~= hex_lower(bytes@.take(i as int)));
    }
    assert(bytes@.take(bytes@.len() as int) =~= bytes@);
    r
}

/// The identifier of the article at a link: the lowercase hex SHA-256 digest
/// of the link's UTF-8 encoding once surrounding whitespace is removed.
pub open spec fn article_id_of(link: Seq<char>) -> Seq<char> {
    hex_lower(sha256_digest(encode_utf8(trim(link))))
}

/// Computes the identifier of the article at a link.
pub fn article_id(link: &str) -> (r: String)
    ensures
        r@ == article_id_of(link@),
        r@.len() == 64,
{
    let t = trimmed(link);
    let bytes: &[u8] = t.as_str().as_bytes();
    let digest = sha256(bytes);
    to_hex_lower(&digest)
}

} // verus!
