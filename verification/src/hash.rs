//! Content hashes: `sha256:` followed by the 64 lowercase hexadecimal
//! digits of a SHA-256 digest.

use vstd::prelude::*;
use vstd::utf8::{decode_utf8, encode_utf8, valid_utf8};

use crate::digest::{lower_hex, push_lower_hex, sha256, sha256_digest};
use crate::normalize::{normalize_hashed_text, normalized_text};

verus! {

/// The text of the content hash of a digest: `sha256:` and the digest in
/// lowercase hexadecimal.
pub open spec fn content_hash_text(digest: Seq<u8>) -> Seq<char> {
    seq!['s', 'h', 'a', '2', '5', '6', ':'] + lower_hex(digest)
}

/// The hash of a text: the SHA-256 of the UTF-8 bytes of its normalized
/// form.
pub open spec fn text_hash(text: Seq<char>) -> Seq<char> {
    content_hash_text(sha256(encode_utf8(normalized_text(text))))
}

/// A hexadecimal digit in either case.
pub open spec fn is_hex_char(c: char) -> bool {
    ('0' <= c && c <= '9') || ('a' <= c && c <= 'f') || ('A' <= c && c <= 'F')
}

/// The accepted textual form of a content hash: `sha256:` then exactly 64
/// hexadecimal characters.
pub open spec fn is_content_hash_text(s: Seq<char>) -> bool {
    &&& s.len() == 71
    &&& s.take(7) == seq!['s', 'h', 'a', '2', '5', '6', ':']
    &&& forall|i: int| 7 <= i < 71 ==> is_hex_char(#[trigger] s[i])
}

proof fn lemma_lower_hex_is_hex(bytes: Seq<u8>)
    ensures
        lower_hex(bytes).len() == 2 * bytes.len(),
        forall|i: int| 0 <= i < lower_hex(bytes).len() ==> is_hex_char(#[trigger] lower_hex(bytes)[i]),
    decreases bytes.len(),
{
    if bytes.len() > 0 {
        lemma_lower_hex_is_hex(bytes.drop_first());
        let b = bytes[0];
        let hi = b >> 4u8;
        let lo = b & 15u8;
        assert(b >> 4u8 < 16) by (bit_vector);
        assert(b & 15u8 < 16) by (bit_vector);
        assert(is_hex_char(crate::digest::hex_digit(hi)));
        assert(is_hex_char(crate::digest::hex_digit(lo)));
        let h = lower_hex(bytes);
        let t = lower_hex(bytes.drop_first());
        assert(h == seq![crate::digest::hex_digit(hi), crate::digest::hex_digit(lo)] + t);
        assert forall|i: int| 0 <= i < h.len() implies is_hex_char(#[trigger] h[i]) by {
            if i >= 2 {
                assert(h[i] == t[i - 2]);
            }
        }
    }
}

/// The text of the hash of any 32-byte digest is in the accepted form
/// `sha256:<64 hexadecimal characters>`.
pub proof fn lemma_content_hash_text_well_formed(digest: Seq<u8>)
    requires
        digest.len() == 32,
    ensures
        is_content_hash_text(content_hash_text(digest)),
{
    lemma_lower_hex_is_hex(digest);
    let s = content_hash_text(digest);
    assert(s.take(7) =~= seq!['s', 'h', 'a', '2', '5', '6', ':']);
    assert forall|i: int| 7 <= i < 71 implies is_hex_char(#[trigger] s[i]) by {
        assert(s[i] == lower_hex(digest)[i - 7]);
    }
}

/// What `String::from_utf8_lossy` makes of a byte string.
pub uninterp spec fn utf8_lossy(bytes: Seq<u8>) -> Seq<char>;

/// `String::from_utf8_lossy`. Trusted: the result is a function of the
/// bytes alone (named `utf8_lossy`), and bytes that are valid UTF-8 decode
/// to exactly their characters, as the standard library documents; what
/// replaces invalid sequences is left unstated.
#[verifier::external_body]
fn from_utf8_lossy(bytes: &[u8]) -> (out: String)
    ensures
        out@ == utf8_lossy(bytes@),
        valid_utf8(bytes@) ==> out@ == decode_utf8(bytes@),
{
    String::from_utf8_lossy(bytes).into_owned()
}

/// SHA-256 hash of a canonical source or record representation.
///
/// The serialized form is `sha256:<64 hexadecimal characters>`.
#[derive(Clone, Debug, PartialEq, Eq, Hash, PartialOrd, Ord)]
pub struct ContentHash(String);

impl View for ContentHash {
    type V = Seq<char>;

    closed spec fn view(&self) -> Seq<char> {
        self.0@
    }
}

fn render_digest(digest: &Vec<u8>) -> (out: String)
    requires
        digest@.len() == 32,
    ensures
        out@ == content_hash_text(digest@),
        is_content_hash_text(out@),
{
    proof {
        lemma_content_hash_text_well_formed(digest@);
    }
    let mut out = "sha256:".to_owned();
    proof {
        reveal_strlit("sha256:");
    }
    push_lower_hex(&mut out, digest.as_slice());
    out
}

impl ContentHash {
    /// Hashes a text after normalizing it (see `normalize_hashed_text`).
    pub fn from_text(text: &str) -> (h: ContentHash)
        ensures
            h@ == text_hash(text@),
            is_content_hash_text(h@),
    {
        let normalized = normalize_hashed_text(text);
        let digest = sha256_digest(normalized.as_str().as_bytes());
        ContentHash(render_digest(&digest))
    }

    /// Hashes a byte string read as UTF-8 text (invalid sequences replaced
    /// as `String::from_utf8_lossy` does), after normalizing it.
    pub fn from_bytes(bytes: &[u8]) -> (h: ContentHash)
        ensures
            h@ == text_hash(utf8_lossy(bytes@)),
            valid_utf8(bytes@) ==> h@ == text_hash(decode_utf8(bytes@)),
            is_content_hash_text(h@),
    {
        let text = from_utf8_lossy(bytes);
        Self::from_text(text.as_str())
    }

    /// A copy of this hash.
    pub fn duplicate(&self) -> (h: ContentHash)
        ensures
            h == *self,
    {
        ContentHash(self.0.clone())
    }

    /// The hash in its textual form.
    pub fn as_str(&self) -> (s: &str)
        ensures
            s@ == self@,
    {
        self.0.as_str()
    }

    /// Hashes an already-canonical byte sequence directly: unlike
    /// `from_bytes`, no UTF-8 reading and no normalization happen first.
    pub fn from_canonical_bytes(bytes: &[u8]) -> (h: ContentHash)
        ensures
            h@ == content_hash_text(sha256(bytes@)),
            is_content_hash_text(h@),
    {
        let digest = sha256_digest(bytes);
        ContentHash(render_digest(&digest))
    }

    /// Reads the textual form `sha256:<64 hexadecimal characters>`.
    pub fn parse(value: &str) -> (r: Result<ContentHash, String>)
        ensures
            r is Ok <==> is_content_hash_text(value@),
            r matches Ok(h) ==> h@ == value@,
            r matches Err(e) ==> e@ == "content hash must be sha256:<64 hexadecimal characters>"@,
    {
        let chars = crate::text::chars_of(value);
        let prefix = ['s', 'h', 'a', '2', '5', '6', ':'];
        let mut ok = chars.len() == 71;
        if ok {
            let mut i: usize = 0;
            while i < 71
                invariant
                    chars@ == value@,
                    chars@.len() == 71,
                    i <= 71,
                    ok == ((forall|k: int| 0 <= k < i && k < 7 ==> chars@[k] == prefix@[k])
                        && (forall|k: int| 7 <= k < i ==> is_hex_char(#[trigger] chars@[k]))),
                decreases 71 - i,
            {
                let c = chars[i];
                let good = if i < 7 {
                    c == prefix[i]
                } else {
                    ('0' <= c && c <= '9') || ('a' <= c && c <= 'f') || ('A' <= c && c <= 'F')
                };
                ok = ok && good;
                i = i + 1;
            }
            assert(prefix@ =~= seq!['s', 'h', 'a', '2', '5', '6', ':']);
            assert(ok ==> chars@.take(7) =~= prefix@);
            assert(chars@.take(7) =~= prefix@ ==> forall|k: int| 0 <= k < 7 ==> chars@[k]
                == prefix@[k]);
        }
        if ok {
            Ok(ContentHash(value.to_owned()))
        } else {
            Err("content hash must be sha256:<64 hexadecimal characters>".to_owned())
        }
    }
}

impl core::str::FromStr for ContentHash {
    type Err = String;

    /// Reads the textual form, as `ContentHash::parse` does.
    fn from_str(value: &str) -> (r: Result<ContentHash, String>)
        ensures
            r is Ok <==> is_content_hash_text(value@),
            r matches Ok(h) ==> h@ == value@,
            r matches Err(e) ==> e@ == "content hash must be sha256:<64 hexadecimal characters>"@,
    {
        ContentHash::parse(value)
    }
}

} // verus!
