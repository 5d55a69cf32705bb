//! SHA-256 digests and their lowercase hex form.

use vstd::prelude::*;

verus! {

/// The SHA-256 digest of `data`.
pub uninterp spec fn sha256_digest(data: Seq<u8>) -> Seq<u8>;

/// `sha2::Sha256::digest`: the SHA-256 digest of `data`, named by
/// `sha256_digest`; a SHA-256 digest is 32 bytes long.
#[verifier::external_body]
pub(crate) fn sha256(data: &[u8]) -> (r: Vec<u8>)
    ensures
        r@ == sha256_digest(data@),
        r@.len() == 32,
{
    <sha2::Sha256 as sha2::Digest>::digest(data).to_vec()
}

/// The lowercase hexadecimal digit for `n < 16`.
pub open spec fn hex_digit(n: u8) -> char {
    if n < 10 {
        (('0' as u8) + n) as char
    } else {
        (('a' as u8) + (n - 10)) as char
    }
}

/// Lowercase hex of `data`: two digits per byte, high nibble first.
pub open spec fn hex_lower(data: Seq<u8>) -> Seq<char>
    decreases data.len(),
{
    if data.len() == 0 {
        Seq::empty()
    } else {
        hex_lower(data.drop_last()) + seq![
            hex_digit(data.last() / 16),
            hex_digit(data.last() % 16),
        ]
    }
}

/// A lowercase hexadecimal digit: `0`..`9` or `a`..`f`.
pub open spec fn is_hex_digit(c: char) -> bool {
    ('0' <= c && c <= '9') || ('a' <= c && c <= 'f')
}

/// The hex form of `data` has two digits per byte, each a lowercase hex digit.
pub proof fn lemma_hex_lower_shape(data: Seq<u8>)
    ensures
        hex_lower(data).len() == 2 * data.len(),
        forall|i: int| 0 <= i < hex_lower(data).len() ==> is_hex_digit(#[trigger] hex_lower(data)[i]),
    decreases data.len(),
{
    if data.len() > 0 {
        let p = data.drop_last();
        lemma_hex_lower_shape(p);
        let h = hex_lower(data);
        let hp = hex_lower(p);
        assert forall|i: int| 0 <= i < h.len() implies is_hex_digit(#[trigger] h[i]) by {
            if i < hp.len() {
                assert(h[i] == hp[i]);
            } else {
                let b = data.last();
                assert(b / 16 < 16 && b % 16 < 16);
            }
        }
    }
}

fn hex_char(n: u8) -> (c: char)
    requires
        n < 16,
    ensures
        c == hex_digit(n),
{
    if n < 10 {
        (48u8 + n) as char
    } else {
        (97u8 + (n - 10)) as char
    }
}

/// Each byte of `data` as two lowercase hex digits, high nibble first (what
/// `hex::encode` writes).
pub fn hex_encode(data: &[u8]) -> (r: String)
    ensures
        r@ == hex_lower(data@),
{
    let mut r = String::new();
    let n = data.len();
    for i in 0..n
        invariant
            n == data@.len(),
            r@ == hex_lower(data@.take(i as int)),
    {
        let b = data[i];
        crate::text::push_char(&mut r, hex_char(b / 16));
        crate::text::push_char(&mut r, hex_char(b % 16));
        proof {
            assert(data@.take(i + 1).drop_last() =~= data@.take(i as int));
            assert(data@.take(i + 1).last() == b);
            assert(r@ =~= hex_lower(data@.take(i + 1)));
        }
    }
    assert(data@.take(n as int) =~= data@);
    r
}

/// The first `n` bytes of `v`.
pub fn prefix_bytes(v: &Vec<u8>, n: usize) -> (r: Vec<u8>)
    requires
        n <= v@.len(),
    ensures
        r@ == v@.take(n as int),
{
    let mut r: Vec<u8> = Vec::new();
    for i in 0..n
        invariant
            n <= v@.len(),
            r@ == v@.take(i as int),
    {
        r.push(v[i]);
        assert(v@.take(i + 1) =~= v@.take(i as int).push(v@[i as int]));
    }
    r
}

/// The lowercase hex of the first `n` bytes of the SHA-256 digest of `data`.
pub fn digest_prefix_hex(data: &[u8], n: usize) -> (r: String)
    requires
        n <= 32,
    ensures
        r@ == hex_lower(sha256_digest(data@).take(n as int)),
        r@.len() == 2 * n,
        forall|i: int| 0 <= i < r@.len() ==> is_hex_digit(#[trigger] r@[i]),
{
    let d = sha256(data);
    let p = prefix_bytes(&d, n);
    proof {
        lemma_hex_lower_shape(p@);
    }
    hex_encode(p.as_slice())
}

} // verus!
