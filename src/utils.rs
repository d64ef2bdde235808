//! Hashing, random identifiers and timestamps.

use vstd::prelude::*;

verus! {

/// The sixteen digits of upper-case hexadecimal, in value order.
pub open spec fn hex_digits() -> Seq<char> {
    seq!['0', '1', '2', '3', '4', '5', '6', '7', '8', '9', 'A', 'B', 'C', 'D', 'E', 'F']
}

/// Upper-case hexadecimal text of a byte string: two digits per byte, high
/// nibble first.
pub open spec fn upper_hex(b: Seq<u8>) -> Seq<char>
    decreases b.len(),
{
    if b.len() == 0 {
        Seq::empty()
    } else {
        seq![hex_digits()[(b[0] / 16) as int], hex_digits()[(b[0] % 16) as int]] + upper_hex(b.drop_first())
    }
}

/// Decimal text of a natural number, without sign or leading zeros.
pub open spec fn decimal(n: nat) -> Seq<char>
    decreases n,
{
    if n < 10 {
        seq![hex_digits()[n as int]]
    } else {
        decimal(n / 10).push(hex_digits()[(n % 10) as int])
    }
}

/// ASCII letters and digits.
pub open spec fn is_alphanumeric(c: char) -> bool {
    ('a' <= c && c <= 'z') || ('A' <= c && c <= 'Z') || ('0' <= c && c <= '9')
}

/// Strict lexicographic order of texts by code point (for UTF-8 text, the
/// same order as comparing the encoded bytes).
pub open spec fn text_lt(a: Seq<char>, b: Seq<char>) -> bool
    decreases a.len(),
{
    if a.len() == 0 {
        b.len() > 0
    } else if b.len() == 0 {
        false
    } else if a[0] != b[0] {
        (a[0] as u32) < (b[0] as u32)
    } else {
        text_lt(a.drop_first(), b.drop_first())
    }
}

/// `text_lt` is transitive.
pub proof fn lemma_text_lt_transitive(a: Seq<char>, b: Seq<char>, c: Seq<char>)
    requires
        text_lt(a, b),
        text_lt(b, c),
    ensures
        text_lt(a, c),
    decreases a.len(),
{
    if a.len() > 0 && b.len() > 0 && c.len() > 0 && a[0] == b[0] && b[0] == c[0] {
        lemma_text_lt_transitive(a.drop_first(), b.drop_first(), c.drop_first());
    }
}

/// `text_lt` orders any two distinct texts.
pub proof fn lemma_text_lt_total(a: Seq<char>, b: Seq<char>)
    requires
        a != b,
    ensures
        text_lt(a, b) || text_lt(b, a),
    decreases a.len(),
{
    if a.len() > 0 && b.len() > 0 && a[0] == b[0] {
        assert(a.drop_first() != b.drop_first()) by {
            if a.drop_first() == b.drop_first() {
                assert(a =~= seq![a[0]] + a.drop_first());
                assert(b =~= seq![b[0]] + b.drop_first());
            }
        }
        lemma_text_lt_total(a.drop_first(), b.drop_first());
    } else if a.len() == 0 && b.len() == 0 {
        assert(a =~= b);
    } else if a.len() > 0 && b.len() > 0 {
        vstd::utf8::char_u32_cast(a[0], a[0] as u32);
        vstd::utf8::char_u32_cast(b[0], b[0] as u32);
    }
}

/// `text_lt` is irreflexive.
pub proof fn lemma_text_lt_irreflexive(a: Seq<char>)
    ensures
        !text_lt(a, a),
    decreases a.len(),
{
    if a.len() > 0 {
        lemma_text_lt_irreflexive(a.drop_first());
    }
}

/// Whether `a` comes strictly before `b`, by code point.
pub fn text_less(a: &str, b: &str) -> (r: bool)
    ensures
        r == text_lt(a@, b@),
{
    let la = a.unicode_len();
    let lb = b.unicode_len();
    let mut i: usize = 0;
    assert(a@.skip(0) =~= a@ && b@.skip(0) =~= b@);
    while i < la && i < lb
        invariant
            la == a@.len(),
            lb == b@.len(),
            i <= la,
            i <= lb,
            text_lt(a@, b@) == text_lt(a@.skip(i as int), b@.skip(i as int)),
        decreases la - i,
    {
        let ca = a.get_char(i);
        let cb = b.get_char(i);
        assert(a@.skip(i as int)[0] == ca && b@.skip(i as int)[0] == cb);
        if ca != cb {
            return (ca as u32) < (cb as u32);
        }
        assert(a@.skip(i as int).drop_first() =~= a@.skip(i + 1));
        assert(b@.skip(i as int).drop_first() =~= b@.skip(i + 1));
        i = i + 1;
    }
    assert(a@.skip(i as int).len() == la - i);
    i == la && i < lb
}

/// The SHA-256 digest of the UTF-8 encoding of a text.
pub uninterp spec fn sha256_of(s: Seq<char>) -> Seq<u8>;

/// The identity hash of a text: its SHA-256 digest in upper-case hex.
pub open spec fn hash_text(s: Seq<char>) -> Seq<char> {
    upper_hex(sha256_of(s))
}

/// Relies on `sha2::Sha256::digest` over the UTF-8 bytes of `content`: a
/// 32-byte digest that depends on the text alone.
#[verifier::external_body]
fn sha256_digest(content: &str) -> (r: Vec<u8>)
    ensures
        r@ == sha256_of(content@),
        r@.len() == 32,
{
    <sha2::Sha256 as sha2::Digest>::digest(content.as_bytes()).to_vec()
}

/// Relies on `data_encoding::HEXUPPER.encode`: each byte becomes two digits
/// of `0123456789ABCDEF`, high nibble first, in input order.
#[verifier::external_body]
fn encode_upper_hex(bytes: &Vec<u8>) -> (r: String)
    ensures
        r@ == upper_hex(bytes@),
{
    data_encoding::HEXUPPER.encode(bytes.as_slice())
}

/// Relies on the `Display` impl of `usize`: plain decimal digits.
#[verifier::external_body]
pub(crate) fn decimal_string(n: usize) -> (r: String)
    ensures
        r@ == decimal(n as nat),
{
    n.to_string()
}

proof fn lemma_upper_hex_len(b: Seq<u8>)
    ensures
        upper_hex(b).len() == 2 * b.len(),
    decreases b.len(),
{
    if b.len() > 0 {
        lemma_upper_hex_len(b.drop_first());
    }
}

/// SHA-256 of `content`, as 64 upper-case hex digits.
pub fn hasher(content: &str) -> (r: String)
    ensures
        r@ == hash_text(content@),
        r@.len() == 64,
{
    let digest = sha256_digest(content);
    proof {
        lemma_upper_hex_len(digest@);
    }
    encode_upper_hex(&digest)
}

/// A random string of `len` ASCII letters and digits.
///
/// Relies on `rand::distributions::DistString::sample_string` for
/// `Alphanumeric` over `rand::thread_rng`: `len` draws, each one of `a-z`,
/// `A-Z`, `0-9`.
#[verifier::external_body]
pub fn get_rand_string(len: usize) -> (r: String)
    ensures
        r@.len() == len,
        forall|i: int| 0 <= i < r@.len() ==> is_alphanumeric(#[trigger] r@[i]),
{
    rand::distributions::DistString::sample_string(&rand::distributions::Alphanumeric, &mut rand::thread_rng(), len)
}

/// The local time now, as text.
///
/// Relies on `chrono::Local::now` and its `Display`; nothing is promised of
/// the text, which depends on the clock and the time zone.
#[verifier::external_body]
pub fn get_current_time() -> (r: String) {
    chrono::Local::now().to_string()
}

} // verus!
