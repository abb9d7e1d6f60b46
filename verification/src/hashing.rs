//! SHA-256 content hashes, written as lowercase hexadecimal.
use vstd::prelude::*;
use crate::strings::string_from_chars;

verus! {

/// The SHA-256 digest of a byte sequence.
pub uninterp spec fn sha256_of(data: Seq<u8>) -> Seq<u8>;

/// Calls `sha2::Sha256::digest`. Trusted: the digest is `sha256_of(data)` and,
/// SHA-256 having a 256-bit output, 32 bytes long.
#[verifier::external_body]
fn sha256_digest(data: &[u8]) -> (r: Vec<u8>)
    ensures
        r@ == sha256_of(data@),
        r@.len() == 32,
{
    <sha2::Sha256 as sha2::Digest>::digest(data).to_vec()
}

/// The lowercase hexadecimal digit for `d < 16`.
pub open spec fn hex_digit(d: nat) -> char {
    if d < 10 {
        ((d + 48) as u32) as char
    } else {
        ((d + 87) as u32) as char
    }
}

/// Two lowercase hexadecimal digits per byte, high half first (as `{:x}` writes a
/// digest).
pub open spec fn hex_text(bytes: Seq<u8>) -> Seq<char>
    decreases bytes.len(),
{
    if bytes.len() == 0 {
        Seq::empty()
    } else {
        hex_text(bytes.drop_last()) + seq![
            hex_digit((bytes.last() / 16) as nat),
            hex_digit((bytes.last() % 16) as nat),
        ]
    }
}

fn hex_char(d: u8) -> (c: char)
    requires
        d < 16,
    ensures
        c == hex_digit(d as nat),
{
    let digits: [char; 16] = [
        '0', '1', '2', '3', '4', '5', '6', '7', '8', '9', 'a', 'b', 'c', 'd', 'e', 'f',
    ];
    let c = digits[d as usize];
    assert(c == hex_digit(d as nat)) by {
        assert(('0' as u32) == 48 && ('9' as u32) == 57 && ('a' as u32) == 97 && ('f' as u32)
            == 102);
    }
    c
}

/// Two digits per byte, each a lowercase hexadecimal digit.
pub proof fn lemma_hex_text_shape(bytes: Seq<u8>)
    ensures
        hex_text(bytes).len() == 2 * bytes.len(),
        forall|i: int|
            0 <= i < hex_text(bytes).len() ==> (('0' <= #[trigger] hex_text(bytes)[i] <= '9') || ('a'
                <= hex_text(bytes)[i] <= 'f')),
    decreases bytes.len(),
{
    if bytes.len() > 0 {
        lemma_hex_text_shape(bytes.drop_last());
        let pre = hex_text(bytes.drop_last());
        let hi = (bytes.last() / 16) as nat;
        let lo = (bytes.last() % 16) as nat;
        assert(hex_text(bytes) == pre + seq![hex_digit(hi), hex_digit(lo)]);
        assert forall|i: int| 0 <= i < hex_text(bytes).len() implies (('0' <= #[trigger] hex_text(
            bytes,
        )[i] <= '9') || ('a' <= hex_text(bytes)[i] <= 'f')) by {
            if i < pre.len() {
                assert(hex_text(bytes)[i] == pre[i]);
            } else {
                let d = if i == pre.len() {
                    hi
                } else {
                    lo
                };
                assert(hex_text(bytes)[i] == hex_digit(d));
                assert(d < 16);
                assert(('0' as u32) == 48 && ('9' as u32) == 57 && ('a' as u32) == 97 && ('f' as u32)
                    == 102);
            }
        }
    }
}

/// Lowercase hexadecimal of a byte sequence (see `hex_text`).
pub fn hex_lower(bytes: &Vec<u8>) -> (s: String)
    ensures
        s@ == hex_text(bytes@),
{
    let mut v: Vec<char> = Vec::new();
    let mut i: usize = 0;
    while i < bytes.len()
        invariant
            i <= bytes.len(),
            v@ == hex_text(bytes@.take(i as int)),
        decreases bytes.len() - i,
    {
        let b = bytes[i];
        v.push(hex_char(b / 16));
        v.push(hex_char(b % 16));
        proof {
            assert(bytes@.take(i + 1).drop_last() =~= bytes@.take(i as int));
        }
        i = i + 1;
        assert(v@ =~= hex_text(bytes@.take(i as int)));
    }
    assert(bytes@.take(bytes.len() as int) =~= bytes@);
    string_from_chars(&v)
}

/// The content hash of some bytes: their SHA-256 digest in lowercase hexadecimal.
pub fn content_hash(data: &[u8]) -> (s: String)
    ensures
        s@ == hex_text(sha256_of(data@)),
        s@.len() == 64,
        forall|i: int| 0 <= i < s@.len() ==> (('0' <= #[trigger] s@[i] <= '9') || ('a' <= s@[i] <= 'f')),
{
    let d = sha256_digest(data);
    proof {
        lemma_hex_text_shape(d@);
    }
    hex_lower(&d)
}

/// The hash of a text: the content hash of its UTF-8 bytes.
pub fn text_hash(text: &str) -> (s: String)
    ensures
        s@ == hex_text(sha256_of(vstd::utf8::encode_utf8(text@))),
{
    content_hash(text.as_bytes())
}

} // verus!
