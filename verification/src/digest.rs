//! Keys of news items: the SHA-256 digest of a URL in lowercase hexadecimal.
use sha2::Digest;
use vstd::prelude::*;

verus! {

/// The SHA-256 digest of `data`.
pub uninterp spec fn sha256_of(data: Seq<u8>) -> Seq<u8>;

/// `sha2::Sha256::digest`. The digest is named `sha256_of`; its length, 32 bytes,
/// is the output size of the algorithm.
#[verifier::external_body]
fn sha256(data: &[u8]) -> (r: Vec<u8>)
    ensures
        r@ == sha256_of(data@),
        r@.len() == 32,
{
    sha2::Sha256::digest(data).to_vec()
}

/// The lowercase hexadecimal digit for `d` (`0 <= d < 16`).
pub open spec fn hex_digit(d: int) -> char {
    if d < 10 {
        (d + 48) as char
    } else {
        (d + 87) as char
    }
}

/// Each byte of `data` as two lowercase hexadecimal digits, as `{:02x}` writes it.
pub open spec fn hex_spec(data: Seq<u8>) -> Seq<char>
    decreases data.len(),
{
    if data.len() == 0 {
        seq![]
    } else {
        hex_spec(data.drop_last()) + seq![
            hex_digit(data.last() as int / 16),
            hex_digit(data.last() as int % 16),
        ]
    }
}

fn hex_char(d: u8) -> (c: char)
    requires
        d < 16,
    ensures
        c == hex_digit(d as int),
{
    if d < 10 {
        (d + 48) as char
    } else {
        (d + 87) as char
    }
}

/// `data` in lowercase hexadecimal, two digits per byte.
pub fn to_hex(data: &[u8]) -> (s: String)
    ensures
        s@ == hex_spec(data@),
{
    let mut s = String::new();
    let n: usize = data.len();
    for i in 0..n
        invariant
            n == data@.len(),
            s@ == hex_spec(data@.take(i as int)),
    {
        let b: u8 = data[i];
        assert(data@.take(i + 1).drop_last() =~= data@.take(i as int));
        crate::text::push_char(&mut s, hex_char(b / 16));
        crate::text::push_char(&mut s, hex_char(b % 16));
        assert(s@ =~= hex_spec(data@.take(i + 1)));
    }
    assert(data@.take(n as int) =~= data@);
    s
}

/// The key of a news item: the SHA-256 digest of the UTF-8 bytes of its URL, in
/// lowercase hexadecimal.
pub open spec fn key_spec(url: Seq<char>) -> Seq<char> {
    hex_spec(sha256_of(vstd::utf8::encode_utf8(url)))
}

/// The key of the news item at `url`: 64 lowercase hexadecimal digits.
pub fn generate_key(url: &str) -> (k: String)
    ensures
        k@ == key_spec(url@),
        k@.len() == 64,
        forall|i: int| 0 <= i < k@.len() ==> is_lower_hex_digit(#[trigger] k@[i]),
{
    let bytes = url.as_bytes();
    let d = sha256(bytes);
    proof {
        lemma_hex_len(d@);
        lemma_hex_digits(d@);
    }
    to_hex(d.as_slice())
}

/// `0`–`9` or `a`–`f`.
pub open spec fn is_lower_hex_digit(c: char) -> bool {
    (48 <= c as u32 <= 57) || (97 <= c as u32 <= 102)
}

proof fn lemma_hex_digits(data: Seq<u8>)
    ensures
        forall|i: int| 0 <= i < hex_spec(data).len() ==> is_lower_hex_digit(#[trigger] hex_spec(data)[i]),
    decreases data.len(),
{
    if data.len() > 0 {
        lemma_hex_digits(data.drop_last());
        lemma_hex_len(data.drop_last());
        let b = data.last() as int;
        assert(is_lower_hex_digit(hex_digit(b / 16)));
        assert(is_lower_hex_digit(hex_digit(b % 16)));
    }
}

proof fn lemma_hex_len(data: Seq<u8>)
    ensures
        hex_spec(data).len() == 2 * data.len(),
    decreases data.len(),
{
    if data.len() > 0 {
        lemma_hex_len(data.drop_last());
    }
}

} // verus!
