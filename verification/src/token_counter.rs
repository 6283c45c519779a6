//! A rough estimate of how many model tokens a text takes.
use vstd::prelude::*;

verus! {

/// Estimates token counts from text length.
pub struct TokenCounter;

/// The estimate for a text of `bytes` bytes (UTF-8): a third of it, rounded to the
/// nearest ten (halves up).
pub open spec fn spec_count_tokens(bytes: nat) -> nat {
    ((bytes / 3 + 5) / 10 * 10) as nat
}

/// The length of `text` in bytes once encoded as UTF-8, as `str::len` reports it.
pub open spec fn utf8_len(text: Seq<char>) -> usize {
    vstd::utf8::encode_utf8(text).len() as usize
}

impl TokenCounter {
    pub const TOKEN_TO_CHAR_RATIO: usize = 3;

    /// The estimated number of tokens in `content`.
    pub fn count_tokens(content: &str) -> (r: usize)
        ensures
            r == spec_count_tokens(utf8_len(content@) as nat),
    {
        let chars = content.len();
        (chars / Self::TOKEN_TO_CHAR_RATIO + 5) / 10 * 10
    }
}

/// The estimate is a multiple of ten, and a third of the length rounded to the
/// nearest ten: it is within five of that third (halves go up).
pub proof fn law_count_tokens_rounds_to_ten(bytes: nat)
    ensures
        spec_count_tokens(bytes) % 10 == 0,
        bytes / 3 < spec_count_tokens(bytes) + 5,
        spec_count_tokens(bytes) <= bytes / 3 + 5,
{
    let q = bytes / 3;
    let t = (q + 5) / 10;
    assert(t * 10 % 10 == 0) by (nonlinear_arith);
    assert(t * 10 <= q + 5 && q + 5 < t * 10 + 10) by (nonlinear_arith)
        requires
            t == (q + 5) / 10,
    ;
}

/// A longer text never gets a smaller estimate.
pub proof fn law_count_tokens_monotone(a: nat, b: nat)
    requires
        a <= b,
    ensures
        spec_count_tokens(a) <= spec_count_tokens(b),
{
    assert(a / 3 <= b / 3) by (nonlinear_arith)
        requires
            a <= b,
    ;
    let (qa, qb) = (a / 3, b / 3);
    assert((qa + 5) / 10 <= (qb + 5) / 10) by (nonlinear_arith)
        requires
            qa <= qb,
    ;
    let (ta, tb) = ((qa + 5) / 10, (qb + 5) / 10);
    assert(ta * 10 <= tb * 10) by (nonlinear_arith)
        requires
            ta <= tb,
    ;
}

} // verus!
