//! SHA-256 through the `sha2` crate, and lowercase hexadecimal rendering.

use sha2::Digest;
use sha2::Sha256;
use vstd::prelude::*;

verus! {

/// The SHA-256 digest of a byte string, as computed by `sha2`.
pub uninterp spec fn sha256(bytes: Seq<u8>) -> Seq<u8>;

/// `sha2::Sha256::digest`. Trusted: the result is the SHA-256 digest of
/// exactly the bytes given (named `sha256`), and it is 32 bytes long, the
/// output size `U32` that `sha2` declares for SHA-256.
#[verifier::external_body]
pub(crate) fn sha256_digest(bytes: &[u8]) -> (out: Vec<u8>)
    ensures
        out@ == sha256(bytes@),
        out@.len() == 32,
{
    Sha256::digest(bytes).to_vec()
}

/// The lowercase hexadecimal digit for a value below 16.
pub open spec fn hex_digit(n: u8) -> char {
    if n < 10 {
        (n + 48) as char
    } else {
        (n + 87) as char
    }
}

/// Two lowercase hexadecimal digits per byte, high nibble first.
pub open spec fn lower_hex(bytes: Seq<u8>) -> Seq<char>
    decreases bytes.len(),
{
    if bytes.len() == 0 {
        Seq::empty()
    } else {
        seq![hex_digit(bytes[0] >> 4u8), hex_digit(bytes[0] & 15u8)] + lower_hex(bytes.drop_first())
    }
}

fn hex_digit_exec(n: u8) -> (c: char)
    requires
        n < 16,
    ensures
        c == hex_digit(n),
{
    if n < 10 {
        (n + 48) as char
    } else {
        (n + 87) as char
    }
}

proof fn lemma_lower_hex_push(bytes: Seq<u8>, b: u8)
    ensures
        lower_hex(bytes.push(b)) == lower_hex(bytes) + seq![hex_digit(b >> 4u8), hex_digit(b & 15u8)],
    decreases bytes.len(),
{
    if bytes.len() == 0 {
        assert(bytes.push(b).drop_first() =~= Seq::<u8>::empty());
        assert(lower_hex(Seq::<u8>::empty()) =~= Seq::<char>::empty());
        assert(lower_hex(bytes.push(b)) =~= seq![hex_digit(b >> 4u8), hex_digit(b & 15u8)]);
        assert(lower_hex(bytes) =~= Seq::<char>::empty());
    } else {
        lemma_lower_hex_push(bytes.drop_first(), b);
        assert(bytes.push(b).drop_first() =~= bytes.drop_first().push(b));
        assert(lower_hex(bytes.push(b)) =~= lower_hex(bytes) + seq![hex_digit(b >> 4u8), hex_digit(b & 15u8)]);
    }
}

/// Appends the lowercase hexadecimal rendering of `bytes` to `out`.
pub(crate) fn push_lower_hex(out: &mut String, bytes: &[u8])
    ensures
        final(out)@ == old(out)@ + lower_hex(bytes@),
{
    let mut i: usize = 0;
    assert(bytes@.take(0) =~= Seq::<u8>::empty());
    assert(old(out)@ + lower_hex(Seq::<u8>::empty()) =~= old(out)@);
    while i < bytes.len()
        invariant
            i <= bytes.len(),
            out@ == old(out)@ + lower_hex(bytes@.take(i as int)),
        decreases bytes.len() - i,
    {
        let b = bytes[i];
        assert(b >> 4u8 < 16u8) by (bit_vector);
        assert(b & 15u8 < 16u8) by (bit_vector);
        crate::text::push_char(out, hex_digit_exec(b >> 4u8));
        crate::text::push_char(out, hex_digit_exec(b & 15u8));
        proof {
            assert(bytes@.take(i as int + 1) =~= bytes@.take(i as int).push(b));
            lemma_lower_hex_push(bytes@.take(i as int), b);
        }
        i = i + 1;
    }
    assert(bytes@.take(i as int) =~= bytes@);
}

} // verus!
