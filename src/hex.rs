use vstd::prelude::*;
use vstd::string::StringSliceAdditionalSpecFns;
use vstd::utf8::{encode_utf8, is_ascii_chars, is_ascii_chars_encode_utf8};

use crate::code::ascii_to_string;
use crate::error::SearchError;

verus! {

/// ASCII whitespace: space, tab, line feed, vertical tab, form feed and
/// carriage return.
pub open spec fn is_space(b: u8) -> bool {
    b == 32 || (9 <= b <= 13)
}

/// The text with its whitespace removed.
pub open spec fn strip_spaces(t: Seq<u8>) -> Seq<u8> {
    t.filter(|b: u8| !is_space(b))
}

/// A hexadecimal digit in ASCII: `0`-`9`, `A`-`F` or `a`-`f`.
pub open spec fn is_hex_digit(b: u8) -> bool {
    (48 <= b <= 57) || (65 <= b <= 70) || (97 <= b <= 102)
}

/// The value of a hexadecimal digit, either case.
pub open spec fn hex_value(b: u8) -> nat {
    if b <= 57 {
        (b - 48) as nat
    } else if b <= 70 {
        (b - 55) as nat
    } else {
        (b - 87) as nat
    }
}

/// The index of the first byte at or after `i` that is not a hexadecimal
/// digit, or the length of `d` if there is none.
pub open spec fn first_non_hex(d: Seq<u8>, i: nat) -> nat
    decreases d.len() - i,
{
    if i >= d.len() {
        d.len()
    } else if !is_hex_digit(d[i as int]) {
        i
    } else {
        first_non_hex(d, i + 1)
    }
}

/// The bytes that a run of hexadecimal digit pairs denotes, in order.
pub open spec fn hex_bytes(d: Seq<u8>) -> Seq<u8> {
    Seq::new(
        d.len() / 2,
        |i: int| (hex_value(d[2 * i]) * 16 + hex_value(d[2 * i + 1])) as u8,
    )
}

/// What decoding `t` gives: the bytes its digit pairs denote once whitespace
/// is removed, or where it is malformed.
pub open spec fn decode_outcome(t: Seq<u8>) -> Result<Seq<u8>, SearchError> {
    let d = strip_spaces(t);
    let p = first_non_hex(d, 0);
    if p < d.len() {
        Err(SearchError::MalformedHex { position: p as usize })
    } else if d.len() == 0 || d.len() % 2 == 1 {
        Err(SearchError::MalformedHex { position: d.len() as usize })
    } else {
        Ok(hex_bytes(d))
    }
}

/// The uppercase hexadecimal digit of a value below 16.
pub open spec fn hex_digit(v: nat) -> u8 {
    if v < 10 {
        (48 + v) as u8
    } else {
        (55 + v) as u8
    }
}

/// Two uppercase hexadecimal digits for each byte, in order.
pub open spec fn hex_text(b: Seq<u8>) -> Seq<u8> {
    Seq::new(
        2 * b.len(),
        |i: int|
            if i % 2 == 0 {
                hex_digit((b[i / 2] / 16) as nat)
            } else {
                hex_digit((b[i / 2] % 16) as nat)
            },
    )
}

/// The text of `hex_text` as characters.
pub open spec fn hex_chars(b: Seq<u8>) -> Seq<char> {
    hex_text(b).map_values(|c: u8| c as char)
}

proof fn lemma_strip_without_spaces(s: Seq<u8>)
    requires
        forall|i: int| 0 <= i < s.len() ==> !is_space(#[trigger] s[i]),
    ensures
        strip_spaces(s) == s,
    decreases s.len(),
{
    if s.len() > 0 {
        lemma_strip_without_spaces(s.drop_last());
        s.drop_last().lemma_filter_push(s.last(), |b: u8| !is_space(b));
        assert(s.drop_last().push(s.last()) == s);
    }
}

proof fn lemma_all_hex_from(d: Seq<u8>, i: nat)
    requires
        forall|j: int| i <= j < d.len() ==> is_hex_digit(#[trigger] d[j]),
    ensures
        first_non_hex(d, i) == d.len(),
    decreases d.len() - i,
{
    if i < d.len() {
        lemma_all_hex_from(d, i + 1);
    }
}

proof fn lemma_digit_pair(b: u8)
    ensures
        is_hex_digit(hex_digit((b / 16) as nat)),
        is_hex_digit(hex_digit((b % 16) as nat)),
        hex_digit((b / 16) as nat) < 128,
        hex_digit((b % 16) as nat) < 128,
        hex_value(hex_digit((b / 16) as nat)) * 16 + hex_value(hex_digit((b % 16) as nat)) == b,
{
}

proof fn lemma_hex_text_digits(bytes: Seq<u8>)
    ensures
        forall|i: int|
            0 <= i < hex_text(bytes).len() ==> is_hex_digit(#[trigger] hex_text(bytes)[i])
                && hex_text(bytes)[i] < 128,
        hex_bytes(hex_text(bytes)) == bytes,
{
    let t = hex_text(bytes);
    assert forall|i: int| 0 <= i < t.len() implies is_hex_digit(#[trigger] t[i]) && t[i] < 128 by {
        lemma_digit_pair(bytes[i / 2]);
    }
    assert forall|i: int| 0 <= i < bytes.len() implies #[trigger] hex_bytes(t)[i] == bytes[i] by {
        lemma_digit_pair(bytes[i]);
        assert((2 * i) / 2 == i);
        assert((2 * i + 1) / 2 == i);
    }
    assert(hex_bytes(t) == bytes);
}

/// Encoding bytes and decoding the text gives the bytes back, for any
/// non-empty byte sequence (empty text is malformed).
pub proof fn lemma_hex_round_trip(bytes: Seq<u8>)
    requires
        bytes.len() > 0,
    ensures
        decode_outcome(encode_utf8(hex_chars(bytes))) == Ok::<Seq<u8>, SearchError>(bytes),
{
    let t = hex_text(bytes);
    lemma_hex_text_digits(bytes);
    assert(is_ascii_chars(hex_chars(bytes)));
    is_ascii_chars_encode_utf8(hex_chars(bytes));
    assert(encode_utf8(hex_chars(bytes)) == t);
    lemma_strip_without_spaces(t);
    lemma_all_hex_from(t, 0);
}

/// Decoding valid hexadecimal text, encoding the bytes and decoding again
/// gives the same bytes.
pub proof fn lemma_decode_encode_decode(text: Seq<u8>)
    requires
        decode_outcome(text) is Ok,
    ensures
        decode_outcome(encode_utf8(hex_chars(decode_outcome(text)->Ok_0))) == decode_outcome(text),
{
    lemma_hex_round_trip(decode_outcome(text)->Ok_0);
}

fn strip_whitespace(t: &[u8]) -> (r: Vec<u8>)
    ensures
        r@ == strip_spaces(t@),
{
    let mut r: Vec<u8> = Vec::new();
    let mut i: usize = 0;
    while i < t.len()
        invariant
            i <= t@.len(),
            r@ == strip_spaces(t@.subrange(0, i as int)),
        decreases t@.len() - i,
    {
        let b = t[i];
        proof {
            assert(t@.subrange(0, i + 1) == t@.subrange(0, i as int).push(b));
            t@.subrange(0, i as int).lemma_filter_push(b, |b: u8| !is_space(b));
        }
        if !(b == 32 || (9 <= b && b <= 13)) {
            r.push(b);
        }
        i = i + 1;
    }
    assert(t@.subrange(0, t@.len() as int) == t@);
    r
}

fn hex_value_of(b: u8) -> (r: u8)
    requires
        is_hex_digit(b),
    ensures
        r as nat == hex_value(b),
        r < 16,
{
    if b <= 57 {
        b - 48
    } else if b <= 70 {
        b - 55
    } else {
        b - 87
    }
}

fn hex_digit_of(v: u8) -> (r: u8)
    requires
        v < 16,
    ensures
        r == hex_digit(v as nat),
        r < 128,
{
    if v < 10 {
        48 + v
    } else {
        55 + v
    }
}

/// Decodes hexadecimal text, ignoring whitespace, into the bytes it denotes.
pub fn decode_hex(text: &str) -> (r: Result<Vec<u8>, SearchError>)
    ensures
        match r {
            Ok(bytes) => decode_outcome(text.spec_bytes()) == Ok::<Seq<u8>, SearchError>(bytes@),
            Err(e) => decode_outcome(text.spec_bytes()) == Err::<Seq<u8>, SearchError>(e),
        },
{
    let d = strip_whitespace(text.as_bytes());
    let mut i: usize = 0;
    while i < d.len()
        invariant
            i <= d@.len(),
            d@ == strip_spaces(text.spec_bytes()),
            first_non_hex(d@, 0) == first_non_hex(d@, i as nat),
            forall|j: int| 0 <= j < i ==> is_hex_digit(#[trigger] d@[j]),
        decreases d@.len() - i,
    {
        let b = d[i];
        if !((48 <= b && b <= 57) || (65 <= b && b <= 70) || (97 <= b && b <= 102)) {
            assert(first_non_hex(d@, i as nat) == i);
            return Err(SearchError::MalformedHex { position: i });
        }
        i = i + 1;
    }
    if d.len() == 0 || d.len() % 2 == 1 {
        return Err(SearchError::MalformedHex { position: d.len() });
    }
    let mut out: Vec<u8> = Vec::new();
    let n: usize = d.len();
    let half: usize = n / 2;
    let mut k: usize = 0;
    while k < half
        invariant
            n == d@.len(),
            half == n / 2,
            n % 2 == 0,
            k <= half,
            forall|j: int| 0 <= j < d@.len() ==> is_hex_digit(#[trigger] d@[j]),
            out@ == hex_bytes(d@).subrange(0, k as int),
        decreases half - k,
    {
        assert(2 * k + 1 < d@.len());
        let high = hex_value_of(d[2 * k]);
        let low = hex_value_of(d[2 * k + 1]);
        out.push(high * 16 + low);
        assert(out@ == hex_bytes(d@).subrange(0, k + 1));
        k = k + 1;
    }
    assert(out@ == hex_bytes(d@));
    Ok(out)
}

/// Encodes bytes as uppercase hexadecimal text, two digits per byte.
pub fn encode_hex(bytes: &[u8]) -> (r: String)
    requires
        bytes@.len() <= usize::MAX / 2,
    ensures
        r@ == hex_chars(bytes@),
{
    let mut out: Vec<u8> = Vec::new();
    let mut i: usize = 0;
    while i < bytes.len()
        invariant
            i <= bytes@.len() <= usize::MAX / 2,
            out@ == hex_text(bytes@).subrange(0, 2 * i),
            forall|j: int| 0 <= j < out@.len() ==> out@[j] < 128,
        decreases bytes@.len() - i,
    {
        let b = bytes[i];
        out.push(hex_digit_of(b / 16));
        out.push(hex_digit_of(b % 16));
        assert(out@ == hex_text(bytes@).subrange(0, 2 * (i + 1)));
        i = i + 1;
    }
    assert(out@ == hex_text(bytes@));
    ascii_to_string(out)
}

} // verus!
