use vstd::prelude::*;

verus! {

/// Number of candidate codes: every value with at most eight decimal digits.
pub const CODE_SPACE: u32 = 100_000_000;

/// The last `n` decimal digits of `v` as ASCII bytes, most significant first,
/// zero-padded on the left.
pub open spec fn ascii_digits(v: nat, n: nat) -> Seq<u8>
    decreases n,
{
    if n == 0 {
        Seq::empty()
    } else {
        ascii_digits(v / 10, (n - 1) as nat).push((v % 10 + 48) as u8)
    }
}

/// The 8-byte ASCII form of a candidate code.
pub open spec fn code_bytes(code: nat) -> Seq<u8> {
    ascii_digits(code, 8)
}

/// The 8-character text of a candidate code.
pub open spec fn code_text(code: nat) -> Seq<char> {
    code_bytes(code).map_values(|b: u8| b as char)
}

proof fn lemma_ascii_digits_shape(v: nat, n: nat)
    ensures
        ascii_digits(v, n).len() == n,
        forall|i: int|
            0 <= i < n ==> 48 <= #[trigger] ascii_digits(v, n)[i] <= 57,
    decreases n,
{
    if n > 0 {
        lemma_ascii_digits_shape(v / 10, (n - 1) as nat);
    }
}

/// Every code is rendered as exactly eight ASCII decimal digits.
pub proof fn lemma_code_bytes_are_digits(code: nat)
    ensures
        code_bytes(code).len() == 8,
        forall|i: int| 0 <= i < 8 ==> 48 <= #[trigger] code_bytes(code)[i] <= 57,
{
    lemma_ascii_digits_shape(code, 8);
}

/// Renders `code` as eight ASCII digits, extracting them right to left.
pub fn code_digits(code: u32) -> (r: [u8; 8])
    requires
        code < CODE_SPACE,
    ensures
        r@ == code_bytes(code as nat),
{
    let mut r: [u8; 8] = [0u8; 8];
    let mut rest: u32 = code;
    let mut idx: usize = 8;
    while idx > 0
        invariant
            idx <= 8,
            ascii_digits(rest as nat, idx as nat) + r@.subrange(idx as int, 8)
                == code_bytes(code as nat),
        decreases idx,
    {
        let ghost before = r@;
        let digit: u8 = (rest % 10) as u8 + 48;
        r[idx - 1] = digit;
        assert(r@.subrange(idx - 1, 8) == seq![digit] + before.subrange(idx as int, 8));
        assert(ascii_digits(rest as nat, idx as nat) == ascii_digits(
            (rest / 10) as nat,
            (idx - 1) as nat,
        ).push(digit));
        assert(ascii_digits((rest / 10) as nat, (idx - 1) as nat) + r@.subrange(idx - 1, 8)
            == ascii_digits(rest as nat, idx as nat) + before.subrange(idx as int, 8));
        rest = rest / 10;
        idx = idx - 1;
    }
    assert(r@.subrange(0, 8) == r@);
    r
}

/// Relies on `String::from_utf8`: ASCII bytes are valid UTF-8, and each byte
/// becomes the character of the same value.
#[verifier::external_body]
pub(crate) fn ascii_to_string(bytes: Vec<u8>) -> (r: String)
    requires
        forall|i: int| 0 <= i < bytes@.len() ==> bytes@[i] < 128,
    ensures
        r@ == bytes@.map_values(|b: u8| b as char),
{
    String::from_utf8(bytes).unwrap_or_default()
}

/// The text of `code`: eight decimal digits with leading zeros kept.
pub fn format_code(code: u32) -> (r: String)
    requires
        code < CODE_SPACE,
    ensures
        r@ == code_text(code as nat),
{
    let digits = code_digits(code);
    proof {
        lemma_code_bytes_are_digits(code as nat);
    }
    let mut bytes: Vec<u8> = Vec::new();
    let mut i: usize = 0;
    while i < 8
        invariant
            i <= 8,
            digits@ == code_bytes(code as nat),
            code_bytes(code as nat).len() == 8,
            bytes@ == digits@.subrange(0, i as int),
        decreases 8 - i,
    {
        bytes.push(digits[i]);
        i = i + 1;
    }
    assert(bytes@ == code_bytes(code as nat));
    ascii_to_string(bytes)
}

} // verus!
