//! Content hashes of cached images: the MD5 digest written in lower-case hex.
use vstd::prelude::*;

verus! {

/// The MD5 digest of the bytes.
pub uninterp spec fn md5_digest(data: Seq<u8>) -> Seq<u8>;

/// `md5::compute`: the 16-byte MD5 digest of `data`.
#[verifier::external_body]
fn md5_compute(data: &[u8]) -> (res: Vec<u8>)
    ensures
        res@ == md5_digest(data@),
        res@.len() == 16,
{
    md5::compute(data).0.to_vec()
}

/// The lower-case hex digit for a value below 16.
pub open spec fn hex_digit(n: u8) -> char {
    if n < 10 {
        (('0' as u8) + n) as char
    } else {
        (('a' as u8) + (n - 10)) as char
    }
}

/// The lower-case hex encoding: two digits per byte, high half first.
pub open spec fn hex_lower(bytes: Seq<u8>) -> Seq<char>
    decreases bytes.len(),
{
    if bytes.len() == 0 {
        Seq::empty()
    } else {
        seq![hex_digit(bytes[0] / 16), hex_digit(bytes[0] % 16)] + hex_lower(bytes.drop_first())
    }
}

/// `base16ct::lower::encode_string`: the lower-case hex encoding of `bytes`.
#[verifier::external_body]
fn hex_encode(bytes: &[u8]) -> (res: String)
    requires
        bytes@.len() <= usize::MAX / 2,
    ensures
        res@ == hex_lower(bytes@),
{
    base16ct::lower::encode_string(bytes)
}

/// The hash recorded for a cached file: its MD5 digest in lower-case hex.
pub open spec fn file_hash_of(data: Seq<u8>) -> Seq<char> {
    hex_lower(md5_digest(data))
}

/// A lower-case hex digit.
pub open spec fn is_lower_hex(c: char) -> bool {
    ('0' <= c && c <= '9') || ('a' <= c && c <= 'f')
}

/// The text of a recorded hash: 32 lower-case hex digits.
pub open spec fn is_hash_text(h: Seq<char>) -> bool {
    h.len() == 32 && forall|i: int| 0 <= i < h.len() ==> is_lower_hex(#[trigger] h[i])
}

/// The hash recorded for a cached file: 32 lower-case hex digits.
pub fn file_hash(data: &[u8]) -> (res: String)
    ensures
        res@ == file_hash_of(data@),
        is_hash_text(res@),
{
    let digest = md5_compute(data);
    proof {
        lemma_hex_digits(digest@);
    }
    hex_encode(digest.as_slice())
}

/// The hex encoding has two digits per byte, each a lower-case hex digit.
pub proof fn lemma_hex_digits(bytes: Seq<u8>)
    ensures
        hex_lower(bytes).len() == 2 * bytes.len(),
        forall|i: int| 0 <= i < hex_lower(bytes).len() ==> is_lower_hex(#[trigger] hex_lower(bytes)[i]),
    decreases bytes.len(),
{
    if bytes.len() > 0 {
        lemma_hex_digits(bytes.drop_first());
        let hi = bytes[0] / 16;
        let lo = bytes[0] % 16;
        assert(is_lower_hex(hex_digit(hi)));
        assert(is_lower_hex(hex_digit(lo)));
        let h = hex_lower(bytes);
        let t = hex_lower(bytes.drop_first());
        assert forall|i: int| 0 <= i < h.len() implies is_lower_hex(#[trigger] h[i]) by {
            if i >= 2 {
                assert(h[i] == t[i - 2]);
            }
        }
    }
}

/// Hex digits are neither `:` nor a line feed nor a carriage return.
pub proof fn lemma_hex_plain(bytes: Seq<u8>)
    ensures
        hex_lower(bytes).len() == 2 * bytes.len(),
        forall|i: int|
            0 <= i < hex_lower(bytes).len() ==> {
                let c = #[trigger] hex_lower(bytes)[i];
                c != ':' && c != '\n' && c != '\r'
            },
    decreases bytes.len(),
{
    if bytes.len() > 0 {
        lemma_hex_plain(bytes.drop_first());
        let hi = bytes[0] / 16;
        let lo = bytes[0] % 16;
        assert(hex_digit(hi) != ':' && hex_digit(hi) != '\n' && hex_digit(hi) != '\r');
        assert(hex_digit(lo) != ':' && hex_digit(lo) != '\n' && hex_digit(lo) != '\r');
        let h = hex_lower(bytes);
        let t = hex_lower(bytes.drop_first());
        assert forall|i: int| 0 <= i < h.len() implies {
            let c = #[trigger] h[i];
            c != ':' && c != '\n' && c != '\r'
        } by {
            if i >= 2 {
                assert(h[i] == t[i - 2]);
            }
        }
    }
}

} // verus!
