//! SHA-256 digests, rendered as lowercase hexadecimal text.

use vstd::prelude::*;

verus! {

/// What SHA-256 yields for a byte sequence.
pub uninterp spec fn sha256_of(data: Seq<u8>) -> Seq<u8>;

/// `char::is_whitespace`: the characters with Unicode's White_Space property.
pub open spec fn is_ws(c: char) -> bool {
    let n = c as int;
    (0x09 <= n <= 0x0d) || n == 0x20 || n == 0x85 || n == 0xa0 || n == 0x1680 || (0x2000 <= n
        <= 0x200a) || n == 0x2028 || n == 0x2029 || n == 0x202f || n == 0x205f || n == 0x3000
}

/// The text without its leading whitespace.
pub open spec fn trim_start_of(s: Seq<char>) -> Seq<char>
    decreases s.len(),
{
    if s.len() > 0 && is_ws(s[0]) {
        trim_start_of(s.drop_first())
    } else {
        s
    }
}

/// The text without its trailing whitespace.
pub open spec fn trim_end_of(s: Seq<char>) -> Seq<char>
    decreases s.len(),
{
    if s.len() > 0 && is_ws(s.last()) {
        trim_end_of(s.drop_last())
    } else {
        s
    }
}

/// What `str::trim` leaves of a text: the text without its leading and
/// trailing whitespace.
pub open spec fn trim_of(s: Seq<char>) -> Seq<char> {
    trim_end_of(trim_start_of(s))
}

/// SHA-256 refuses messages of 2^64 bits or more.
pub open spec fn digestible(data: Seq<u8>) -> bool {
    data.len() < 0x2000_0000_0000_0000
}

/// The sixteen lowercase hexadecimal digits, in value order.
pub open spec fn hex_digits() -> Seq<char> {
    seq!['0', '1', '2', '3', '4', '5', '6', '7', '8', '9', 'a', 'b', 'c', 'd', 'e', 'f']
}

/// Two lowercase hexadecimal digits per byte, high nibble first.
pub open spec fn hex_lower_of(b: Seq<u8>) -> Seq<char>
    decreases b.len(),
{
    if b.len() == 0 {
        Seq::empty()
    } else {
        seq![hex_digits()[(b[0] / 16) as int], hex_digits()[(b[0] % 16) as int]] + hex_lower_of(b.drop_first())
    }
}

/// The digest text that `sha256_sum` produces for `data`.
pub open spec fn sha256_hex(data: Seq<u8>) -> Seq<char> {
    hex_lower_of(sha256_of(data))
}

/// Relies on `ring::digest::digest` with `ring::digest::SHA256`: the 32-byte
/// SHA-256 digest of the input; it panics only on inputs of 2^61 bytes or more.
#[verifier::external_body]
fn sha256_bytes(data: &[u8]) -> (r: Vec<u8>)
    requires
        digestible(data@),
    ensures
        r@ == sha256_of(data@),
        r@.len() == 32,
{
    ring::digest::digest(&ring::digest::SHA256, data).as_ref().to_vec()
}

/// Relies on `data_encoding::HEXLOWER.encode`: each byte becomes two digits
/// of "0123456789abcdef", high nibble first. It panics on inputs longer than
/// `usize::MAX / 512` bytes; a digest is far shorter.
#[verifier::external_body]
fn hex_lower(b: &[u8]) -> (r: String)
    requires
        b@.len() <= 32,
    ensures
        r@ == hex_lower_of(b@),
{
    data_encoding::HEXLOWER.encode(b)
}

/// Relies on `str::trim`: the text without its leading and trailing
/// characters for which `char::is_whitespace` holds.
#[verifier::external_body]
pub(crate) fn trim(s: &str) -> (r: &str)
    ensures
        r@ == trim_of(s@),
{
    s.trim()
}

/// The lowercase hexadecimal SHA-256 digest of `data`.
pub fn sha256_sum(data: &[u8]) -> (r: String)
    requires
        digestible(data@),
    ensures
        r@ == sha256_hex(data@),
        r@.len() == 64,
{
    let d = sha256_bytes(data);
    let r = hex_lower(d.as_slice());
    proof {
        lemma_hex_len(d@);
    }
    r
}

/// The hexadecimal text is twice as long as the bytes.
pub proof fn lemma_hex_len(b: Seq<u8>)
    ensures
        hex_lower_of(b).len() == 2 * b.len(),
    decreases b.len(),
{
    if b.len() > 0 {
        lemma_hex_len(b.drop_first());
    }
}

/// Whether `published`, once trimmed, names the digest of `data`.
pub fn digest_matches(data: &[u8], published: &str) -> (r: bool)
    requires
        digestible(data@),
    ensures
        r == (sha256_hex(data@) == trim_of(published@)),
{
    let computed = sha256_sum(data);
    let expected = trim(published);
    text_equal(computed.as_str(), expected)
}

/// Character-wise equality of two texts.
pub fn text_equal(a: &str, b: &str) -> (r: bool)
    ensures
        r == (a@ == b@),
{
    let n = a.unicode_len();
    if n != b.unicode_len() {
        return false;
    }
    let mut i: usize = 0;
    while i < n
        invariant
            n == a@.len(),
            n == b@.len(),
            i <= n,
            a@.subrange(0, i as int) == b@.subrange(0, i as int),
        decreases n - i,
    {
        if a.get_char(i) != b.get_char(i) {
            return false;
        }
        proof {
            assert(a@.subrange(0, i + 1) == a@.subrange(0, i as int).push(a@[i as int]));
            assert(b@.subrange(0, i + 1) == b@.subrange(0, i as int).push(b@[i as int]));
        }
        i = i + 1;
    }
    assert(a@ == a@.subrange(0, n as int));
    assert(b@ == b@.subrange(0, n as int));
    true
}

/// No character of a hexadecimal digest text is whitespace.
pub proof fn lemma_hex_has_no_ws(b: Seq<u8>)
    ensures
        forall|k: int| 0 <= k < hex_lower_of(b).len() ==> !is_ws(#[trigger] hex_lower_of(b)[k]),
    decreases b.len(),
{
    if b.len() > 0 {
        lemma_hex_has_no_ws(b.drop_first());
        let head = seq![hex_digits()[(b[0] / 16) as int], hex_digits()[(b[0] % 16) as int]];
        let tail = hex_lower_of(b.drop_first());
        assert forall|k: int| 0 <= k < hex_lower_of(b).len() implies !is_ws(#[trigger] hex_lower_of(b)[k]) by {
            if k >= 2 {
                assert(hex_lower_of(b)[k] == tail[k - 2]);
            } else {
                assert(hex_lower_of(b)[k] == head[k]);
            }
        }
    }
}

proof fn lemma_trim_start_padding(before: Seq<char>, t: Seq<char>)
    requires
        forall|k: int| 0 <= k < before.len() ==> is_ws(#[trigger] before[k]),
        t.len() == 0 || !is_ws(t[0]),
    ensures
        trim_start_of(before + t) == t,
    decreases before.len(),
{
    if before.len() > 0 {
        assert((before + t).drop_first() == before.drop_first() + t);
        lemma_trim_start_padding(before.drop_first(), t);
    } else {
        assert(before + t == t);
    }
}

proof fn lemma_trim_end_padding(t: Seq<char>, after: Seq<char>)
    requires
        forall|k: int| 0 <= k < after.len() ==> is_ws(#[trigger] after[k]),
        t.len() == 0 || !is_ws(t.last()),
    ensures
        trim_end_of(t + after) == t,
    decreases after.len(),
{
    if after.len() > 0 {
        assert((t + after).drop_last() == t + after.drop_last());
        assert((t + after).last() == after[after.len() - 1]);
        lemma_trim_end_padding(t, after.drop_last());
    } else {
        assert(t + after == t);
    }
}

/// A published digest text that has whitespace before or after the digest,
/// such as a final newline, still names that digest.
pub proof fn law_padded_digest_accepted(data: Seq<u8>, before: Seq<char>, after: Seq<char>)
    requires
        forall|k: int| 0 <= k < before.len() ==> is_ws(#[trigger] before[k]),
        forall|k: int| 0 <= k < after.len() ==> is_ws(#[trigger] after[k]),
    ensures
        trim_of(before + sha256_hex(data) + after) == sha256_hex(data),
{
    let h = sha256_hex(data);
    lemma_hex_has_no_ws(sha256_of(data));
    if h.len() > 0 {
        assert(!is_ws(h[0]));
        assert(!is_ws(h.last()));
        assert(before + h + after == before + (h + after));
        lemma_trim_start_padding(before, h + after);
        lemma_trim_end_padding(h, after);
    } else {
        let pad = before + after;
        assert(before + h + after == pad + h);
        assert forall|k: int| 0 <= k < pad.len() implies is_ws(#[trigger] pad[k]) by {
            if k < before.len() {
                assert(pad[k] == before[k]);
            } else {
                assert(pad[k] == after[k - before.len()]);
            }
        }
        lemma_trim_start_padding(pad, h);
    }
}

} // verus!
