use vstd::prelude::*;
use vstd::string::StringSliceAdditionalSpecFns;

use crate::code::{code_bytes, code_digits, code_text, format_code, CODE_SPACE};
use crate::error::SearchError;
use crate::hex::{decode_hex, decode_outcome};
use crate::sha::{sha256, sha256_of};

verus! {

/// The checksum that `code` yields under `suffix`: SHA-256 of the code's
/// eight ASCII digits, followed by the suffix, hashed once more.
pub open spec fn checksum_of(code: nat, suffix: Seq<u8>) -> Seq<u8> {
    sha256_of(sha256_of(code_bytes(code))@ + suffix)@
}

/// The first code in `[lo, hi)` that yields `target`, trying the highest first.
pub open spec fn first_match(target: Seq<u8>, suffix: Seq<u8>, lo: nat, hi: nat) -> Option<nat>
    decreases hi,
{
    if hi <= lo {
        None
    } else if checksum_of((hi - 1) as nat, suffix) == target {
        Some((hi - 1) as nat)
    } else {
        first_match(target, suffix, lo, (hi - 1) as nat)
    }
}

/// What a search over the whole code space gives for decoded inputs.
pub open spec fn search_outcome(target: Seq<u8>, suffix: Seq<u8>) -> Result<Seq<char>, SearchError> {
    if target.len() != 32 || suffix.len() != 32 {
        Err(SearchError::InvalidInputLength)
    } else {
        match first_match(target, suffix, 0, CODE_SPACE as nat) {
            Some(code) => Ok(code_text(code)),
            None => Err(SearchError::NotFound),
        }
    }
}

/// What recovering a code from two hexadecimal texts gives: the first
/// malformed text's error, or the outcome of searching with what they denote.
pub open spec fn recovery_outcome(checksum_text: Seq<u8>, suffix_text: Seq<u8>) -> Result<
    Seq<char>,
    SearchError,
> {
    match decode_outcome(checksum_text) {
        Err(e) => Err(e),
        Ok(target) => match decode_outcome(suffix_text) {
            Err(e) => Err(e),
            Ok(suffix) => search_outcome(target, suffix),
        },
    }
}

/// A code that the search finds lies in the range searched, and yields the target.
pub proof fn lemma_first_match_found(target: Seq<u8>, suffix: Seq<u8>, lo: nat, hi: nat)
    ensures
        match first_match(target, suffix, lo, hi) {
            Some(code) => lo <= code < hi && checksum_of(code, suffix) == target,
            None => true,
        },
    decreases hi,
{
    if hi > lo && checksum_of((hi - 1) as nat, suffix) != target {
        lemma_first_match_found(target, suffix, lo, (hi - 1) as nat);
    }
}

proof fn lemma_first_match_is_highest(target: Seq<u8>, suffix: Seq<u8>, lo: nat, code: nat, hi: nat)
    requires
        lo <= code < hi,
        checksum_of(code, suffix) == target,
        forall|d: nat| code < d < hi ==> checksum_of(d, suffix) != target,
    ensures
        first_match(target, suffix, lo, hi) == Some(code),
    decreases hi,
{
    if hi - 1 > code {
        lemma_first_match_is_highest(target, suffix, lo, code, (hi - 1) as nat);
    }
}

proof fn lemma_first_match_none(target: Seq<u8>, suffix: Seq<u8>, lo: nat, hi: nat)
    ensures
        first_match(target, suffix, lo, hi) is None <==> forall|d: nat|
            lo <= d < hi ==> checksum_of(d, suffix) != target,
    decreases hi,
{
    if hi > lo {
        lemma_first_match_none(target, suffix, lo, (hi - 1) as nat);
        if first_match(target, suffix, lo, hi) is None {
            assert forall|d: nat| lo <= d < hi implies checksum_of(d, suffix) != target by {
                if d < hi - 1 {
                }
            }
        }
    }
}

/// A target built from a code and a 32-byte suffix leads the search back to
/// that code, unless a higher code yields the same checksum.
pub proof fn lemma_constructed_code_is_found(code: nat, suffix: Seq<u8>)
    requires
        code < CODE_SPACE,
        suffix.len() == 32,
        forall|d: nat|
            code < d < CODE_SPACE ==> checksum_of(d, suffix) != checksum_of(code, suffix),
    ensures
        search_outcome(checksum_of(code, suffix), suffix) == Ok::<Seq<char>, SearchError>(
            code_text(code),
        ),
{
    lemma_first_match_is_highest(checksum_of(code, suffix), suffix, 0, code, CODE_SPACE as nat);
}

/// The search reports that nothing was found exactly when both inputs are
/// 32 bytes long and no code in the whole space yields the target.
pub proof fn lemma_not_found_iff_no_code(target: Seq<u8>, suffix: Seq<u8>)
    ensures
        search_outcome(target, suffix) == Err::<Seq<char>, SearchError>(SearchError::NotFound)
            <==> (target.len() == 32 && suffix.len() == 32 && forall|d: nat|
            d < CODE_SPACE ==> checksum_of(d, suffix) != target),
{
    lemma_first_match_none(target, suffix, 0, CODE_SPACE as nat);
}

fn bytes_equal(a: &[u8], b: &[u8]) -> (r: bool)
    ensures
        r == (a@ == b@),
{
    if a.len() != b.len() {
        return false;
    }
    let mut i: usize = 0;
    while i < a.len()
        invariant
            a@.len() == b@.len(),
            i <= a@.len(),
            a@.subrange(0, i as int) == b@.subrange(0, i as int),
        decreases a@.len() - i,
    {
        if a[i] != b[i] {
            assert(a@.subrange(0, i + 1)[i as int] != b@.subrange(0, i + 1)[i as int]);
            return false;
        }
        assert(a@.subrange(0, i + 1) == a@.subrange(0, i as int).push(a@[i as int]));
        assert(b@.subrange(0, i + 1) == b@.subrange(0, i as int).push(b@[i as int]));
        i = i + 1;
    }
    assert(a@ == a@.subrange(0, a@.len() as int));
    assert(b@ == b@.subrange(0, b@.len() as int));
    true
}

/// Computes the checksum that `code` yields under `suffix`.
pub fn candidate_checksum(code: u32, suffix: &[u8]) -> (r: Vec<u8>)
    requires
        code < CODE_SPACE,
    ensures
        r@ == checksum_of(code as nat, suffix@),
{
    let digits = code_digits(code);
    let first = sha256(digits.as_slice());
    let mut block: Vec<u8> = Vec::new();
    let mut i: usize = 0;
    while i < 32
        invariant
            i <= 32,
            block@ == first@.subrange(0, i as int),
        decreases 32 - i,
    {
        block.push(first[i]);
        i = i + 1;
    }
    let mut j: usize = 0;
    while j < suffix.len()
        invariant
            j <= suffix@.len(),
            block@ == first@ + suffix@.subrange(0, j as int),
        decreases suffix@.len() - j,
    {
        block.push(suffix[j]);
        j = j + 1;
    }
    assert(suffix@.subrange(0, suffix@.len() as int) == suffix@);
    let second = sha256(block.as_slice());
    let mut r: Vec<u8> = Vec::new();
    let mut k: usize = 0;
    while k < 32
        invariant
            k <= 32,
            r@ == second@.subrange(0, k as int),
        decreases 32 - k,
    {
        r.push(second[k]);
        k = k + 1;
    }
    r
}

/// Searches the codes in `[lo, hi)` from the highest down and returns the
/// first one whose checksum under `suffix` equals `target`.
pub fn search_range(target: &[u8], suffix: &[u8], lo: u32, hi: u32) -> (r: Option<u32>)
    requires
        lo <= hi <= CODE_SPACE,
    ensures
        match r {
            Some(code) => first_match(target@, suffix@, lo as nat, hi as nat) == Some(code as nat),
            None => first_match(target@, suffix@, lo as nat, hi as nat) is None,
        },
{
    let mut block: Vec<u8> = vec![0u8; 32];
    let mut j: usize = 0;
    while j < suffix.len()
        invariant
            j <= suffix@.len(),
            block@.len() == 32 + j,
            block@.subrange(32, block@.len() as int) == suffix@.subrange(0, j as int),
        decreases suffix@.len() - j,
    {
        let ghost before = block@;
        block.push(suffix[j]);
        assert(block@.subrange(32, block@.len() as int) == before.subrange(
            32,
            before.len() as int,
        ).push(suffix@[j as int]));
        j = j + 1;
    }
    assert(suffix@.subrange(0, suffix@.len() as int) == suffix@);
    let mut code: u32 = hi;
    while code > lo
        invariant
            lo <= code <= hi <= CODE_SPACE,
            first_match(target@, suffix@, lo as nat, hi as nat) == first_match(
                target@,
                suffix@,
                lo as nat,
                code as nat,
            ),
            block@.len() == 32 + suffix@.len(),
            block@.subrange(32, block@.len() as int) == suffix@,
        decreases code,
    {
        code = code - 1;
        let digits = code_digits(code);
        let first = sha256(digits.as_slice());
        let mut i: usize = 0;
        while i < 32
            invariant
                i <= 32,
                block@.len() == 32 + suffix@.len(),
                block@.subrange(0, i as int) == first@.subrange(0, i as int),
                block@.subrange(32, block@.len() as int) == suffix@,
            decreases 32 - i,
        {
            block[i] = first[i];
            assert(block@.subrange(0, i + 1) == first@.subrange(0, i + 1));
            i = i + 1;
        }
        assert(block@ == block@.subrange(0, 32) + block@.subrange(32, block@.len() as int));
        assert(block@ == first@ + suffix@);
        let second = sha256(block.as_slice());
        if bytes_equal(second.as_slice(), target) {
            return Some(code);
        }
    }
    None
}

/// Searches the whole code space for the code whose checksum under `suffix`
/// equals `target`, and returns its eight-digit text.
pub fn search(target: &[u8], suffix: &[u8]) -> (r: Result<String, SearchError>)
    ensures
        match r {
            Ok(text) => search_outcome(target@, suffix@) == Ok::<Seq<char>, SearchError>(text@),
            Err(e) => search_outcome(target@, suffix@) == Err::<Seq<char>, SearchError>(e),
        },
{
    if target.len() != 32 || suffix.len() != 32 {
        return Err(SearchError::InvalidInputLength);
    }
    match search_range(target, suffix, 0, CODE_SPACE) {
        Some(code) => {
            proof {
                lemma_first_match_found(target@, suffix@, 0, CODE_SPACE as nat);
            }
            Ok(format_code(code))
        },
        None => Err(SearchError::NotFound),
    }
}

/// Recovers the code from a target checksum and a fixed suffix, each given as
/// hexadecimal text that may be grouped by whitespace.
pub fn bruteforce_code(checksum_hex: &str, suffix_hex: &str) -> (r: Result<String, SearchError>)
    ensures
        match r {
            Ok(text) => recovery_outcome(checksum_hex.spec_bytes(), suffix_hex.spec_bytes())
                == Ok::<Seq<char>, SearchError>(text@),
            Err(e) => recovery_outcome(checksum_hex.spec_bytes(), suffix_hex.spec_bytes())
                == Err::<Seq<char>, SearchError>(e),
        },
{
    let target = match decode_hex(checksum_hex) {
        Ok(bytes) => bytes,
        Err(e) => return Err(e),
    };
    let suffix = match decode_hex(suffix_hex) {
        Ok(bytes) => bytes,
        Err(e) => return Err(e),
    };
    search(target.as_slice(), suffix.as_slice())
}

} // verus!
