//! The decoder: a hex string whose first byte is an XOR key for the rest.
use vstd::prelude::*;

verus! {

/// The value of a hexadecimal digit, in either case.
pub open spec fn hex_digit_value(c: char) -> Option<u8> {
    if '0' <= c && c <= '9' {
        Some((c as u32 - '0' as u32) as u8)
    } else if 'a' <= c && c <= 'f' {
        Some((c as u32 - 'a' as u32 + 10) as u8)
    } else if 'A' <= c && c <= 'F' {
        Some((c as u32 - 'A' as u32 + 10) as u8)
    } else {
        None
    }
}

/// Parses one hexadecimal digit.
pub fn hex_digit(c: char) -> (r: Option<u8>)
    ensures
        r == hex_digit_value(c),
{
    if '0' <= c && c <= '9' {
        Some((c as u32 - '0' as u32) as u8)
    } else if 'a' <= c && c <= 'f' {
        Some((c as u32 - 'a' as u32 + 10) as u8)
    } else if 'A' <= c && c <= 'F' {
        Some((c as u32 - 'A' as u32 + 10) as u8)
    } else {
        None
    }
}

/// The byte written as two hexadecimal digits, high digit first.
pub open spec fn hex_pair_value(hi: char, lo: char) -> Option<u8> {
    match (hex_digit_value(hi), hex_digit_value(lo)) {
        (Some(h), Some(l)) => Some((h * 16 + l) as u8),
        _ => None,
    }
}

/// Parses the byte written as the two hexadecimal digits `hi` and `lo`.
pub fn hex_pair(hi: char, lo: char) -> (r: Option<u8>)
    ensures
        r == hex_pair_value(hi, lo),
{
    match (hex_digit(hi), hex_digit(lo)) {
        (Some(h), Some(l)) => Some(h * 16 + l),
        _ => None,
    }
}

/// The character that an encoded byte stands for under `key`.
pub open spec fn decoded_char(b: u8, key: u8) -> char {
    (b ^ key) as char
}

/// The characters hidden in `body` under `key`: each pair of hexadecimal
/// digits gives one character; a pair that is not two hexadecimal digits,
/// and a single character left over at the end, give nothing.
pub open spec fn decode_pairs(body: Seq<char>, key: u8) -> Seq<char>
    decreases body.len(),
{
    if body.len() < 2 {
        Seq::empty()
    } else {
        let rest = decode_pairs(body.subrange(2, body.len() as int), key);
        match hex_pair_value(body[0], body[1]) {
            Some(b) => seq![decoded_char(b, key)] + rest,
            None => rest,
        }
    }
}

/// What is returned for an input whose first two characters are not a byte.
pub open spec fn cfemail_fallback() -> Seq<char> {
    "[email protected]"@
}

/// The email address hidden in `data`: its first two characters are the key,
/// the rest are decoded pair by pair; without a key, the fallback text.
pub open spec fn cfemail_decoded(data: Seq<char>) -> Seq<char> {
    if data.len() >= 2 && hex_pair_value(data[0], data[1]) is Some {
        decode_pairs(data.subrange(2, data.len() as int), hex_pair_value(data[0], data[1])->0)
    } else {
        cfemail_fallback()
    }
}

/// Relies on String::push: the character is appended at the end.
pub assume_specification[ String::push ](s: &mut String, ch: char)
    ensures
        final(s)@ == old(s)@.push(ch),
;

fn chars_of(data: &str) -> (r: Vec<char>)
    ensures
        r@ == data@,
{
    let mut r: Vec<char> = Vec::new();
    for c in it: data.chars()
        invariant
            r@ == it.seq().take(it.index() as int),
            it.seq() == data@,
    {
        r.push(c);
    }
    r
}

/// Decodes the `data-cfemail` attribute value `data` into the email address
/// it hides.
pub fn parse_cfemail(data: &str) -> (email: String)
    ensures
        email@ == cfemail_decoded(data@),
{
    let chars = chars_of(data);
    let len = chars.len();
    if len < 2 {
        return String::from_str("[email protected]");
    }
    let key = match hex_pair(chars[0], chars[1]) {
        Some(k) => k,
        None => {
            return String::from_str("[email protected]");
        },
    };
    let mut email = String::new();
    let mut n: usize = 2;
    while n + 1 < len
        invariant
            chars@ == data@,
            len == chars@.len(),
            2 <= n <= len,
            n % 2 == 0,
            key == hex_pair_value(data@[0], data@[1])->0,
            email@ + decode_pairs(data@.subrange(n as int, len as int), key) == decode_pairs(
                data@.subrange(2, len as int),
                key,
            ),
        decreases len - n,
    {
        let ghost rest = data@.subrange(n as int, len as int);
        assert(rest.subrange(2, rest.len() as int) =~= data@.subrange(n + 2, len as int));
        if let Some(b) = hex_pair(chars[n], chars[n + 1]) {
            email.push((b ^ key) as char);
        }
        n = n + 2;
    }
    email
}

/// Decoding a body split at an even offset decodes each part on its own.
proof fn lemma_decode_pairs_concat(a: Seq<char>, b: Seq<char>, key: u8)
    requires
        a.len() % 2 == 0,
    ensures
        decode_pairs(a + b, key) == decode_pairs(a, key) + decode_pairs(b, key),
    decreases a.len(),
{
    if a.len() == 0 {
        assert(a + b =~= b);
    } else {
        let ab = a + b;
        assert(ab.subrange(2, ab.len() as int) =~= a.subrange(2, a.len() as int) + b);
        lemma_decode_pairs_concat(a.subrange(2, a.len() as int), b, key);
        assert(ab[0] == a[0] && ab[1] == a[1]);
    }
}

/// A body of whole pairs of hexadecimal digits decodes to one character per pair.
proof fn lemma_decode_pairs_len(body: Seq<char>, key: u8)
    requires
        body.len() % 2 == 0,
        forall|i: int| 0 <= i < body.len() ==> hex_digit_value(#[trigger] body[i]) is Some,
    ensures
        decode_pairs(body, key).len() == body.len() / 2,
    decreases body.len(),
{
    if body.len() >= 2 {
        let rest = body.subrange(2, body.len() as int);
        assert forall|i: int| 0 <= i < rest.len() implies hex_digit_value(#[trigger] rest[i]) is Some by {
            assert(rest[i] == body[i + 2]);
        }
        lemma_decode_pairs_len(rest, key);
        assert(hex_digit_value(body[0]) is Some && hex_digit_value(body[1]) is Some);
    }
}

/// An input of even length, at least two, made of hexadecimal digits only,
/// decodes to one character for each pair after the key.
pub proof fn lemma_decoded_len(data: Seq<char>)
    requires
        data.len() >= 2,
        data.len() % 2 == 0,
        forall|i: int| 0 <= i < data.len() ==> hex_digit_value(#[trigger] data[i]) is Some,
    ensures
        cfemail_decoded(data).len() == data.len() / 2 - 1,
{
    let body = data.subrange(2, data.len() as int);
    assert forall|i: int| 0 <= i < body.len() implies hex_digit_value(#[trigger] body[i]) is Some by {
        assert(body[i] == data[i + 2]);
    }
    assert(hex_digit_value(data[0]) is Some && hex_digit_value(data[1]) is Some);
    lemma_decode_pairs_len(body, hex_pair_value(data[0], data[1])->0);
}

/// A pair that is not two hexadecimal digits, standing at a pair boundary
/// after a valid key, is skipped: the pairs before it and after it are
/// decoded as they would be without it.
pub proof fn lemma_malformed_pair_skipped(
    key: Seq<char>,
    before: Seq<char>,
    bad: Seq<char>,
    after: Seq<char>,
)
    requires
        key.len() == 2,
        hex_pair_value(key[0], key[1]) is Some,
        before.len() % 2 == 0,
        bad.len() == 2,
        hex_pair_value(bad[0], bad[1]) is None,
    ensures
        cfemail_decoded(key + before + bad + after) == cfemail_decoded(key + before)
            + cfemail_decoded(key + after),
{
    let k = hex_pair_value(key[0], key[1])->0;
    let whole = key + before + bad + after;
    assert(whole[0] == key[0] && whole[1] == key[1]);
    assert(whole.subrange(2, whole.len() as int) =~= before + (bad + after));
    let kb = key + before;
    assert(kb[0] == key[0] && kb[1] == key[1]);
    assert(kb.subrange(2, kb.len() as int) =~= before);
    let ka = key + after;
    assert(ka[0] == key[0] && ka[1] == key[1]);
    assert(ka.subrange(2, ka.len() as int) =~= after);
    lemma_decode_pairs_concat(before, bad + after, k);
    assert((bad + after).subrange(2, (bad + after).len() as int) =~= after);
    assert((bad + after)[0] == bad[0] && (bad + after)[1] == bad[1]);
}

/// Decoding depends on the input alone: equal inputs decode to equal results.
pub proof fn lemma_decode_deterministic(a: Seq<char>, b: Seq<char>)
    requires
        a == b,
    ensures
        cfemail_decoded(a) == cfemail_decoded(b),
{
}

} // verus!
