//! Character-level helpers on strings that the parsers and the command
//! interpreter share.
use vstd::prelude::*;
use vstd::string::{StringExecFns, StringSliceAdditionalSpecFns};

verus! {

/// Whether `c` has the Unicode `White_Space` property, which is what
/// `char::is_whitespace` and `str::trim` go by.
pub open spec fn is_white_space(c: char) -> bool {
    ||| ('\u{9}' <= c && c <= '\u{d}')
    ||| c == ' '
    ||| c == '\u{85}'
    ||| c == '\u{a0}'
    ||| c == '\u{1680}'
    ||| ('\u{2000}' <= c && c <= '\u{200a}')
    ||| c == '\u{2028}'
    ||| c == '\u{2029}'
    ||| c == '\u{202f}'
    ||| c == '\u{205f}'
    ||| c == '\u{3000}'
}

/// Number of white-space characters at the start of `s`.
pub open spec fn leading_ws(s: Seq<char>) -> nat
    decreases s.len(),
{
    if s.len() > 0 && is_white_space(s[0]) {
        1 + leading_ws(s.drop_first())
    } else {
        0
    }
}

/// Number of white-space characters at the end of `s`.
pub open spec fn trailing_ws(s: Seq<char>) -> nat
    decreases s.len(),
{
    if s.len() > 0 && is_white_space(s.last()) {
        1 + trailing_ws(s.drop_last())
    } else {
        0
    }
}

/// `s` without its leading and trailing white space (what `str::trim` gives).
pub open spec fn spec_trim(s: Seq<char>) -> Seq<char> {
    let a = leading_ws(s) as int;
    if a == s.len() {
        Seq::empty()
    } else {
        s.subrange(a, s.len() - trailing_ws(s) as int)
    }
}

/// Whether `p` is a prefix of `s`.
pub open spec fn has_prefix(s: Seq<char>, p: Seq<char>) -> bool {
    p.len() <= s.len() && s.subrange(0, p.len() as int) == p
}

/// Whether `p` is a suffix of `s`.
pub open spec fn has_suffix(s: Seq<char>, p: Seq<char>) -> bool {
    p.len() <= s.len() && s.subrange(s.len() - p.len(), s.len() as int) == p
}

pub proof fn lemma_leading_ws(s: Seq<char>)
    ensures
        leading_ws(s) <= s.len(),
        forall|i: int| 0 <= i < leading_ws(s) ==> is_white_space(#[trigger] s[i]),
        leading_ws(s) < s.len() ==> !is_white_space(s[leading_ws(s) as int]),
    decreases s.len(),
{
    if s.len() > 0 && is_white_space(s[0]) {
        lemma_leading_ws(s.drop_first());
        assert forall|i: int| 0 <= i < leading_ws(s) implies is_white_space(#[trigger] s[i]) by {
            if i > 0 {
                assert(s[i] == s.drop_first()[i - 1]);
            }
        }
    }
}

pub proof fn lemma_trailing_ws(s: Seq<char>)
    ensures
        trailing_ws(s) <= s.len(),
        forall|i: int| s.len() - trailing_ws(s) <= i < s.len() ==> is_white_space(#[trigger] s[i]),
        trailing_ws(s) < s.len() ==> !is_white_space(s[s.len() - trailing_ws(s) - 1]),
    decreases s.len(),
{
    if s.len() > 0 && is_white_space(s.last()) {
        lemma_trailing_ws(s.drop_last());
        assert forall|i: int| s.len() - trailing_ws(s) <= i < s.len() implies is_white_space(
            #[trigger] s[i],
        ) by {
            if i < s.len() - 1 {
                assert(s[i] == s.drop_last()[i]);
            }
        }
    }
}

/// `char::is_whitespace`, written out over the `White_Space` list.
pub fn char_is_white_space(c: char) -> (r: bool)
    ensures
        r == is_white_space(c),
{
    ('\u{9}' <= c && c <= '\u{d}') || c == ' ' || c == '\u{85}' || c == '\u{a0}' || c == '\u{1680}'
        || ('\u{2000}' <= c && c <= '\u{200a}') || c == '\u{2028}' || c == '\u{2029}' || c
        == '\u{202f}' || c == '\u{205f}' || c == '\u{3000}'
}

/// Calls `String::push`: appends one character.
#[verifier::external_body]
pub(crate) fn push_char(s: &mut String, c: char)
    ensures
        final(s)@ == old(s)@.push(c),
{
    s.push(c);
}

/// Whether two string slices hold the same characters, compared byte by byte
/// (equal encodings mean equal characters).
pub(crate) fn str_eq(a: &str, b: &str) -> (r: bool)
    ensures
        r == (a@ == b@),
{
    let x = a.as_bytes();
    let y = b.as_bytes();
    proof {
        vstd::utf8::encode_utf8_decode_utf8(a@);
        vstd::utf8::encode_utf8_decode_utf8(b@);
    }
    if x.len() != y.len() {
        return false;
    }
    let mut i: usize = 0;
    while i < x.len()
        invariant
            x@ == a.spec_bytes(),
            y@ == b.spec_bytes(),
            x@.len() == y@.len(),
            i <= x@.len(),
            forall|k: int| 0 <= k < i ==> x@[k] == y@[k],
        decreases x@.len() - i,
    {
        if x[i] != y[i] {
            return false;
        }
        i = i + 1;
    }
    assert(x@ == y@);
    true
}

/// A new `String` holding the characters of `s`.
pub fn string_of(s: &str) -> (r: String)
    ensures
        r@ == s@,
{
    s.to_owned()
}

/// A new `String` holding the characters `s[from..to]`.
pub fn substring(s: &str, from: usize, to: usize) -> (r: String)
    requires
        from <= to <= s@.len(),
    ensures
        r@ == s@.subrange(from as int, to as int),
{
    let mut r = String::new();
    let mut i = from;
    while i < to
        invariant
            from <= i <= to <= s@.len(),
            r@ == s@.subrange(from as int, i as int),
        decreases to - i,
    {
        push_char(&mut r, s.get_char(i));
        assert(s@.subrange(from as int, i + 1) == s@.subrange(from as int, i as int).push(s@[i as int]));
        i = i + 1;
    }
    r
}

/// Index of the first character of `s` from `from` on that is not white space
/// (or `s@.len()`).
fn skip_ws_forward(s: &str, len: usize, from: usize) -> (r: usize)
    requires
        len == s@.len(),
        from <= len,
    ensures
        from <= r <= len,
        forall|i: int| from <= i < r ==> is_white_space(#[trigger] s@[i]),
        r < len ==> !is_white_space(s@[r as int]),
{
    let mut i = from;
    while i < len && char_is_white_space(s.get_char(i))
        invariant
            from <= i <= len,
            len == s@.len(),
            forall|j: int| from <= j < i ==> is_white_space(#[trigger] s@[j]),
        decreases len - i,
    {
        i = i + 1;
    }
    i
}

/// `str::trim`: the characters of `s` without leading and trailing white space.
pub fn trim(s: &str) -> (r: String)
    ensures
        r@ == spec_trim(s@),
{
    let len = s.unicode_len();
    let start = skip_ws_forward(s, len, 0);
    proof {
        lemma_leading_ws(s@);
        lemma_leading_is_first_non_ws(s@, start as int);
    }
    if start == len {
        return String::new();
    }
    let mut end = len;
    while end > start && char_is_white_space(s.get_char(end - 1))
        invariant
            start < len == s@.len(),
            start <= end <= len,
            !is_white_space(s@[start as int]),
            forall|j: int| end <= j < len ==> is_white_space(#[trigger] s@[j]),
        decreases end,
    {
        end = end - 1;
    }
    proof {
        lemma_trailing_ws(s@);
        lemma_trailing_is_last_non_ws(s@, end as int);
    }
    substring(s, start, end)
}

/// Trimming leaves nothing exactly when `s` is all white space.
pub proof fn lemma_trim_empty_blank(s: Seq<char>)
    ensures
        spec_trim(s).len() == 0 <==> forall|i: int| 0 <= i < s.len() ==> is_white_space(#[trigger] s[i]),
{
    lemma_leading_ws(s);
    lemma_trailing_ws(s);
    let a = leading_ws(s) as int;
    if a < s.len() {
        assert(!is_white_space(s[a]));
        assert(a < s.len() - trailing_ws(s));
    }
}

proof fn lemma_leading_is_first_non_ws(s: Seq<char>, k: int)
    requires
        0 <= k <= s.len(),
        forall|i: int| 0 <= i < k ==> is_white_space(#[trigger] s[i]),
        k < s.len() ==> !is_white_space(s[k]),
    ensures
        leading_ws(s) == k,
    decreases s.len(),
{
    if k > 0 {
        assert(is_white_space(s[0]));
        assert forall|i: int| 0 <= i < k - 1 implies is_white_space(#[trigger] s.drop_first()[i]) by {
            assert(s.drop_first()[i] == s[i + 1]);
        }
        if k < s.len() {
            assert(s.drop_first()[k - 1] == s[k]);
        }
        lemma_leading_is_first_non_ws(s.drop_first(), k - 1);
    }
}

proof fn lemma_trailing_is_last_non_ws(s: Seq<char>, e: int)
    requires
        0 < e <= s.len(),
        forall|i: int| e <= i < s.len() ==> is_white_space(#[trigger] s[i]),
        !is_white_space(s[e - 1]),
    ensures
        trailing_ws(s) == s.len() - e,
    decreases s.len(),
{
    if e < s.len() {
        assert(is_white_space(s.last()));
        assert forall|i: int| e <= i < s.drop_last().len() implies is_white_space(
            #[trigger] s.drop_last()[i],
        ) by {
            assert(s.drop_last()[i] == s[i]);
        }
        assert(s.drop_last()[e - 1] == s[e - 1]);
        lemma_trailing_is_last_non_ws(s.drop_last(), e);
    }
}


/// Appends the characters of `t` to `s`.
pub(crate) fn push_str(s: &mut String, t: &str)
    ensures
        final(s)@ == old(s)@ + t@,
{
    s.append(t);
}

/// What `str::to_lowercase` gives for a string with the characters `s`: the
/// Unicode lowercase of its characters, where a capital sigma maps to the
/// final form or not according to the characters around it. It depends on the
/// characters alone.
pub uninterp spec fn spec_lowercase(s: Seq<char>) -> Seq<char>;

/// The ASCII lowercase of `c`: `A` to `Z` become `a` to `z`, any other
/// character stays.
pub open spec fn ascii_lower(c: char) -> char {
    if 'A' <= c && c <= 'Z' {
        ((c as u32) + 32) as char
    } else {
        c
    }
}

/// Whether every character of `s` is ASCII.
pub open spec fn all_ascii(s: Seq<char>) -> bool {
    forall|i: int| 0 <= i < s.len() ==> (#[trigger] s[i] as u32) < 128
}

/// Calls `str::to_lowercase`: the result is [`spec_lowercase`] of the
/// characters; on an all-ASCII string that is the ASCII lowercase of each
/// character (what the Unicode mapping gives there). For other characters the
/// mapping is not written out here.
#[verifier::external_body]
pub(crate) fn to_lowercase(s: &str) -> (r: String)
    ensures
        r@ == spec_lowercase(s@),
        all_ascii(s@) ==> r@ == s@.map_values(|c: char| ascii_lower(c)),
{
    s.to_lowercase()
}

/// Number of characters at the start of `s` that are not white space.
pub open spec fn word_len(s: Seq<char>) -> nat
    decreases s.len(),
{
    if s.len() > 0 && !is_white_space(s[0]) {
        1 + word_len(s.drop_first())
    } else {
        0
    }
}

/// The white-space separated words of `s`, in order (what `str::split_whitespace`
/// gives).
pub open spec fn split_ws(s: Seq<char>) -> Seq<Seq<char>>
    decreases s.len(),
{
    let t = s.skip(leading_ws(s) as int);
    if leading_ws(s) >= s.len() || t.len() == 0 {
        Seq::empty()
    } else {
        let w = word_len(t);
        if w == 0 || w > t.len() {
            Seq::empty()
        } else {
            seq![t.take(w as int)] + split_ws(t.skip(w as int))
        }
    }
}

proof fn lemma_word_len(s: Seq<char>)
    ensures
        word_len(s) <= s.len(),
        forall|i: int| 0 <= i < word_len(s) ==> !is_white_space(#[trigger] s[i]),
        word_len(s) < s.len() ==> is_white_space(s[word_len(s) as int]),
    decreases s.len(),
{
    if s.len() > 0 && !is_white_space(s[0]) {
        lemma_word_len(s.drop_first());
        assert forall|i: int| 0 <= i < word_len(s) implies !is_white_space(#[trigger] s[i]) by {
            if i > 0 {
                assert(s[i] == s.drop_first()[i - 1]);
            }
        }
    }
}

proof fn lemma_word_len_is_first_ws(s: Seq<char>, k: int)
    requires
        0 <= k <= s.len(),
        forall|i: int| 0 <= i < k ==> !is_white_space(#[trigger] s[i]),
        k < s.len() ==> is_white_space(s[k]),
    ensures
        word_len(s) == k,
    decreases s.len(),
{
    if k > 0 {
        assert(!is_white_space(s[0]));
        assert forall|i: int| 0 <= i < k - 1 implies !is_white_space(#[trigger] s.drop_first()[i]) by {
            assert(s.drop_first()[i] == s[i + 1]);
        }
        if k < s.len() {
            assert(s.drop_first()[k - 1] == s[k]);
        }
        lemma_word_len_is_first_ws(s.drop_first(), k - 1);
    }
}

/// `str::split_whitespace`: the white-space separated words of `s`.
pub fn split_whitespace(s: &str) -> (r: Vec<String>)
    ensures
        r@.len() == split_ws(s@).len(),
        forall|i: int| 0 <= i < r@.len() ==> (#[trigger] r@[i])@ == split_ws(s@)[i],
{
    let len = s.unicode_len();
    let mut r: Vec<String> = Vec::new();
    let mut i: usize = 0;
    let ghost mut acc: Seq<Seq<char>> = Seq::empty();
    assert(s@.skip(0) == s@);
    while i < len
        invariant
            len == s@.len(),
            i <= len,
            r@.len() == acc.len(),
            forall|j: int| 0 <= j < r@.len() ==> (#[trigger] r@[j])@ == acc[j],
            split_ws(s@) == acc + split_ws(s@.skip(i as int)),
        decreases len - i,
    {
        let ghost rest = s@.skip(i as int);
        let start = skip_ws_forward(s, len, i);
        proof {
            lemma_leading_ws(rest);
            assert forall|j: int| 0 <= j < start - i implies is_white_space(#[trigger] rest[j]) by {
                assert(rest[j] == s@[i + j]);
            }
            if start < len {
                assert(rest[start - i] == s@[start as int]);
            }
            lemma_leading_is_first_non_ws(rest, start - i);
            assert(rest.skip(start - i) == s@.skip(start as int));
        }
        if start == len {
            proof {
                assert(split_ws(rest) == Seq::<Seq<char>>::empty());
                assert(acc + Seq::<Seq<char>>::empty() == acc);
            }
            i = len;
            assert(split_ws(s@.skip(i as int)) == Seq::<Seq<char>>::empty());
        } else {
            let mut end = start;
            while end < len && !char_is_white_space(s.get_char(end))
                invariant
                    start <= end <= len,
                    len == s@.len(),
                    forall|j: int| start <= j < end ==> !is_white_space(#[trigger] s@[j]),
                decreases len - end,
            {
                end = end + 1;
            }
            let ghost t = s@.skip(start as int);
            proof {
                assert forall|j: int| 0 <= j < end - start implies !is_white_space(#[trigger] t[j]) by {
                    assert(t[j] == s@[start + j]);
                }
                if end < len {
                    assert(t[end - start] == s@[end as int]);
                }
                lemma_word_len_is_first_ws(t, end - start);
                assert(t.take(end - start) == s@.subrange(start as int, end as int));
                assert(t.skip(end - start) == s@.skip(end as int));
                assert(!is_white_space(s@[start as int]));
                assert(end > start);
            }
            r.push(substring(s, start, end));
            proof {
                acc = acc.push(s@.subrange(start as int, end as int));
                assert(split_ws(rest) == seq![t.take(end - start)] + split_ws(t.skip(end - start)));
            }
            i = end;
        }
    }
    proof {
        assert(s@.skip(len as int) == Seq::<char>::empty());
        assert(split_ws(Seq::<char>::empty()) == Seq::<Seq<char>>::empty());
        assert(acc + Seq::<Seq<char>>::empty() == acc);
    }
    r
}

/// Whether `s` starts with `p`.
pub fn starts_with(s: &str, p: &str) -> (r: bool)
    ensures
        r == has_prefix(s@, p@),
{
    let n = s.unicode_len();
    let m = p.unicode_len();
    if m > n {
        return false;
    }
    let mut i: usize = 0;
    while i < m
        invariant
            n == s@.len(),
            m == p@.len(),
            m <= n,
            i <= m,
            forall|j: int| 0 <= j < i ==> s@[j] == p@[j],
        decreases m - i,
    {
        if s.get_char(i) != p.get_char(i) {
            assert(s@.subrange(0, m as int)[i as int] != p@[i as int]);
            return false;
        }
        i = i + 1;
    }
    assert(s@.subrange(0, m as int) == p@);
    true
}

/// Whether `s` ends with `p`.
pub fn ends_with(s: &str, p: &str) -> (r: bool)
    ensures
        r == has_suffix(s@, p@),
{
    let n = s.unicode_len();
    let m = p.unicode_len();
    if m > n {
        return false;
    }
    let off = n - m;
    let mut i: usize = 0;
    while i < m
        invariant
            n == s@.len(),
            m == p@.len(),
            m <= n,
            off == n - m,
            i <= m,
            forall|j: int| 0 <= j < i ==> s@[off + j] == p@[j],
        decreases m - i,
    {
        if s.get_char(off + i) != p.get_char(i) {
            assert(s@.subrange(off as int, n as int)[i as int] != p@[i as int]);
            return false;
        }
        i = i + 1;
    }
    assert(s@.subrange(off as int, n as int) == p@);
    true
}
} // verus!
