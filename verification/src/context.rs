//! Context files offered to the model, and which of them fit a token budget.
use vstd::prelude::*;
use crate::token_counter::{TokenCounter, spec_count_tokens, utf8_len};

verus! {

/// Simple wrapper for a tuple of (filename, content)
#[derive(Debug)]
pub struct ContextFile {
    pub filename: String,
    pub content: String,
}

/// The files that make up the global context.
#[derive(Debug)]
pub struct ContextConfig {
    pub file_paths: Vec<String>,
}

/// The estimated token count of a context file.
pub open spec fn file_tokens(f: ContextFile) -> nat {
    spec_count_tokens(utf8_len(f.content@) as nat)
}

/// Whether `a` comes before `b` in lexicographic order of characters (the order
/// of `str`'s `Ord`: UTF-8 bytes compare as the code points they encode).
pub open spec fn chars_lt(a: Seq<char>, b: Seq<char>) -> bool
    decreases a.len(),
{
    if a.len() == 0 {
        b.len() > 0
    } else if b.len() == 0 {
        false
    } else if a[0] != b[0] {
        a[0] < b[0]
    } else {
        chars_lt(a.drop_first(), b.drop_first())
    }
}

/// Whether `a` must come before `b`: more tokens first when `by_tokens`, else
/// the smaller file name first.
pub open spec fn goes_before(a: ContextFile, b: ContextFile, by_tokens: bool) -> bool {
    if by_tokens {
        file_tokens(a) > file_tokens(b)
    } else {
        chars_lt(a.filename@, b.filename@)
    }
}

/// How many entries of `sorted` need not come after `x`.
pub open spec fn rank(sorted: Seq<ContextFile>, x: ContextFile, by_tokens: bool) -> nat
    decreases sorted.len(),
{
    if sorted.len() == 0 {
        0
    } else if !goes_before(x, sorted.last(), by_tokens) {
        rank(sorted.drop_last(), x, by_tokens) + 1
    } else {
        rank(sorted.drop_last(), x, by_tokens)
    }
}

/// `sorted` with `x` put after every entry that need not come after it.
pub open spec fn insert_sorted(sorted: Seq<ContextFile>, x: ContextFile, by_tokens: bool) -> Seq<ContextFile> {
    let p = rank(sorted, x, by_tokens) as int;
    sorted.take(p).push(x) + sorted.skip(p)
}

/// `s` stably sorted: ordered by `goes_before`, with entries that are equal in
/// that order kept in the order they came in (what `slice::sort_by` gives).
pub open spec fn stable_sort(s: Seq<ContextFile>, by_tokens: bool) -> Seq<ContextFile>
    decreases s.len(),
{
    if s.len() == 0 {
        Seq::empty()
    } else {
        insert_sorted(stable_sort(s.drop_last(), by_tokens), s.last(), by_tokens)
    }
}

/// `s` ordered by token count, largest first, files with equal counts kept in
/// their order.
pub open spec fn sort_by_tokens(s: Seq<ContextFile>) -> Seq<ContextFile> {
    stable_sort(s, true)
}

/// `s` ordered by file name, files with equal names kept in their order.
pub open spec fn sort_by_filename(s: Seq<ContextFile>) -> Seq<ContextFile> {
    stable_sort(s, false)
}

/// The files of `s[i..]` that do not fit, when `total` tokens are taken and the
/// files are taken in order as long as the total stays within `limit`.
pub open spec fn overflow(s: Seq<ContextFile>, limit: nat, total: nat, i: nat) -> Seq<ContextFile>
    decreases s.len() - i,
{
    if i >= s.len() {
        Seq::empty()
    } else if total + file_tokens(s[i as int]) > limit {
        seq![s[i as int]] + overflow(s, limit, total, i + 1)
    } else {
        overflow(s, limit, total + file_tokens(s[i as int]), i + 1)
    }
}

/// Whether no entry of `s` must come before an earlier one.
pub open spec fn is_sorted(s: Seq<ContextFile>, by_tokens: bool) -> bool {
    forall|i: int, j: int| 0 <= i < j < s.len() ==> !goes_before(#[trigger] s[j], #[trigger] s[i], by_tokens)
}

proof fn lemma_chars_lt_irreflexive(a: Seq<char>)
    ensures
        !chars_lt(a, a),
    decreases a.len(),
{
    if a.len() > 0 {
        lemma_chars_lt_irreflexive(a.drop_first());
    }
}

proof fn lemma_chars_lt_transitive(a: Seq<char>, b: Seq<char>, c: Seq<char>)
    requires
        chars_lt(a, b),
        chars_lt(b, c),
    ensures
        chars_lt(a, c),
    decreases a.len(),
{
    if a.len() > 0 && b.len() > 0 && c.len() > 0 && a[0] == b[0] && b[0] == c[0] {
        lemma_chars_lt_transitive(a.drop_first(), b.drop_first(), c.drop_first());
    }
}

proof fn lemma_chars_lt_total(a: Seq<char>, b: Seq<char>)
    requires
        !chars_lt(a, b),
        !chars_lt(b, a),
    ensures
        a == b,
    decreases a.len(),
{
    if a.len() > 0 && b.len() > 0 {
        lemma_chars_lt_total(a.drop_first(), b.drop_first());
        assert(a == seq![a[0]] + a.drop_first());
        assert(b == seq![b[0]] + b.drop_first());
    } else {
        assert(a =~= b);
    }
}

/// `goes_before` is a strict weak order: irreflexive, transitive, and so is
/// its negation.
proof fn lemma_goes_before_order(a: ContextFile, b: ContextFile, c: ContextFile, by_tokens: bool)
    ensures
        !goes_before(a, a, by_tokens),
        goes_before(a, b, by_tokens) && goes_before(b, c, by_tokens) ==> goes_before(a, c, by_tokens),
        !goes_before(a, b, by_tokens) && !goes_before(b, c, by_tokens) ==> !goes_before(a, c, by_tokens),
        goes_before(a, b, by_tokens) ==> !goes_before(b, a, by_tokens),
{
    if !by_tokens {
        let (x, y, z) = (a.filename@, b.filename@, c.filename@);
        lemma_chars_lt_irreflexive(x);
        if chars_lt(x, y) && chars_lt(y, z) {
            lemma_chars_lt_transitive(x, y, z);
        }
        if chars_lt(x, y) && chars_lt(y, x) {
            lemma_chars_lt_transitive(x, y, x);
        }
        if !chars_lt(x, y) && !chars_lt(y, z) && chars_lt(x, z) {
            if chars_lt(y, x) {
                if chars_lt(z, y) {
                    lemma_chars_lt_transitive(z, y, x);
                    lemma_chars_lt_transitive(x, z, x);
                    lemma_chars_lt_irreflexive(x);
                } else {
                    if !chars_lt(y, z) && !chars_lt(z, y) {
                        lemma_chars_lt_total(y, z);
                    }
                    lemma_chars_lt_transitive(x, z, x);
                }
            } else {
                lemma_chars_lt_total(x, y);
                if chars_lt(z, y) {
                    lemma_chars_lt_transitive(x, z, y);
                    lemma_chars_lt_irreflexive(x);
                } else {
                    lemma_chars_lt_total(y, z);
                    lemma_chars_lt_irreflexive(x);
                }
            }
        }
    }
}

proof fn lemma_rank_prefix(sorted: Seq<ContextFile>, x: ContextFile, b: bool)
    requires
        is_sorted(sorted, b),
    ensures
        rank(sorted, x, b) <= sorted.len(),
        forall|i: int| 0 <= i < rank(sorted, x, b) ==> !goes_before(x, #[trigger] sorted[i], b),
        forall|i: int| rank(sorted, x, b) <= i < sorted.len() ==> goes_before(x, #[trigger] sorted[i], b),
    decreases sorted.len(),
{
    if sorted.len() > 0 {
        let t = sorted.drop_last();
        let n = sorted.len() - 1;
        assert forall|i: int| 0 <= i < t.len() implies #[trigger] t[i] == sorted[i] by {}
        assert(is_sorted(t, b)) by {
            assert forall|i: int, j: int| 0 <= i < j < t.len() implies !goes_before(#[trigger] t[j], #[trigger] t[i], b) by {
                assert(!goes_before(sorted[j], sorted[i], b));
            }
        }
        lemma_rank_prefix(t, x, b);
        if !goes_before(x, sorted[n], b) {
            assert forall|i: int| 0 <= i < n implies !goes_before(x, #[trigger] sorted[i], b) by {
                assert(!goes_before(sorted[n], sorted[i], b));
                lemma_goes_before_order(x, sorted[n], sorted[i], b);
            }
            assert(rank(t, x, b) == t.len()) by {
                if rank(t, x, b) < t.len() {
                    let k = rank(t, x, b) as int;
                    assert(goes_before(x, t[k], b));
                    assert(t[k] == sorted[k]);
                }
            }
            assert(rank(sorted, x, b) == sorted.len());
        } else {
            assert(rank(sorted, x, b) == rank(t, x, b));
            assert forall|i: int| 0 <= i < rank(sorted, x, b) implies !goes_before(x, #[trigger] sorted[i], b) by {
                assert(t[i] == sorted[i]);
            }
            assert forall|i: int| rank(sorted, x, b) <= i < sorted.len() implies goes_before(x, #[trigger] sorted[i], b) by {
                if i < n {
                    assert(t[i] == sorted[i]);
                }
            }
        }
    }
}

/// The rank of `x` in `sorted` is the first position whose entry must come
/// after `x`.
proof fn lemma_rank_is(sorted: Seq<ContextFile>, x: ContextFile, b: bool, p: int)
    requires
        is_sorted(sorted, b),
        0 <= p <= sorted.len(),
        forall|i: int| 0 <= i < p ==> !goes_before(x, #[trigger] sorted[i], b),
        p < sorted.len() ==> goes_before(x, sorted[p], b),
    ensures
        rank(sorted, x, b) == p,
{
    lemma_rank_prefix(sorted, x, b);
    let r = rank(sorted, x, b) as int;
    if r < p {
        assert(goes_before(x, sorted[r], b));
    }
    if p < r {
        assert(!goes_before(x, sorted[p], b));
    }
}

proof fn lemma_insert_sorted(sorted: Seq<ContextFile>, x: ContextFile, b: bool)
    requires
        is_sorted(sorted, b),
    ensures
        is_sorted(insert_sorted(sorted, x, b), b),
        insert_sorted(sorted, x, b).len() == sorted.len() + 1,
{
    lemma_rank_prefix(sorted, x, b);
    let p = rank(sorted, x, b) as int;
    let r = insert_sorted(sorted, x, b);
    assert forall|i: int, j: int| 0 <= i < j < r.len() implies !goes_before(#[trigger] r[j], #[trigger] r[i], b) by {
        let ri = if i < p { sorted[i] } else if i == p { x } else { sorted[i - 1] };
        let rj = if j < p { sorted[j] } else if j == p { x } else { sorted[j - 1] };
        assert(r[i] == ri);
        assert(r[j] == rj);
        if i < p && j > p {
            assert(!goes_before(sorted[j - 1], sorted[i], b));
        } else if i < p && j < p {
            assert(!goes_before(sorted[j], sorted[i], b));
        } else if i > p {
            assert(!goes_before(sorted[j - 1], sorted[i - 1], b));
        } else if i == p {
            assert(goes_before(x, sorted[j - 1], b));
            lemma_goes_before_order(x, sorted[j - 1], x, b);
        }
    }
}

proof fn lemma_sort_sorted(s: Seq<ContextFile>, b: bool)
    ensures
        is_sorted(stable_sort(s, b), b),
        stable_sort(s, b).len() == s.len(),
    decreases s.len(),
{
    if s.len() > 0 {
        lemma_sort_sorted(s.drop_last(), b);
        lemma_insert_sorted(stable_sort(s.drop_last(), b), s.last(), b);
    }
}

/// Whether `a` is before `b` in lexicographic order of characters.
pub fn str_less(a: &str, b: &str) -> (r: bool)
    ensures
        r == chars_lt(a@, b@),
{
    let la = a.unicode_len();
    let lb = b.unicode_len();
    let mut i: usize = 0;
    assert(a@.skip(0) == a@ && b@.skip(0) == b@);
    while i < la && i < lb && a.get_char(i) == b.get_char(i)
        invariant
            la == a@.len(),
            lb == b@.len(),
            i <= la,
            i <= lb,
            chars_lt(a@, b@) == chars_lt(a@.skip(i as int), b@.skip(i as int)),
        decreases la - i,
    {
        proof {
            let (sa, sb) = (a@.skip(i as int), b@.skip(i as int));
            assert(sa.drop_first() == a@.skip(i + 1));
            assert(sb.drop_first() == b@.skip(i + 1));
        }
        i = i + 1;
    }
    if i == la {
        i < lb
    } else if i == lb {
        false
    } else {
        a.get_char(i) < b.get_char(i)
    }
}

/// Whether `a` must come before `b` (see [`goes_before`]).
fn file_goes_before(a: &ContextFile, b: &ContextFile, by_tokens: bool) -> (r: bool)
    ensures
        r == goes_before(*a, *b, by_tokens),
{
    if by_tokens {
        TokenCounter::count_tokens(a.content.as_str()) > TokenCounter::count_tokens(b.content.as_str())
    } else {
        str_less(a.filename.as_str(), b.filename.as_str())
    }
}

/// Moves `files[j]` one place to the left.
fn swap_left(files: &mut [ContextFile], j: usize)
    requires
        0 < j < old(files)@.len(),
    ensures
        final(files)@ == old(files)@.update(j as int, old(files)@[j - 1]).update(
            j - 1,
            old(files)@[j as int],
        ),
{
    let mut tmp = ContextFile { filename: String::new(), content: String::new() };
    std::mem::swap(&mut files[j], &mut tmp);
    std::mem::swap(&mut files[j - 1], &mut tmp);
    std::mem::swap(&mut files[j], &mut tmp);
}

/// Stable insertion sort of `files` by `goes_before`.
#[verifier::rlimit(60)]
fn sort_files(files: &mut [ContextFile], by_tokens: bool)
    ensures
        final(files)@ == stable_sort(old(files)@, by_tokens),
{
    let ghost b = by_tokens;
    let n = files.len();
    let mut i: usize = 0;
    while i < n
        invariant
            n == files@.len() == old(files)@.len(),
            i <= n,
            b == by_tokens,
            files@.subrange(0, i as int) == stable_sort(old(files)@.subrange(0, i as int), b),
            files@.subrange(i as int, n as int) == old(files)@.subrange(i as int, n as int),
        decreases n - i,
    {
        let ghost prefix = files@.subrange(0, i as int);
        let ghost x = files@[i as int];
        proof {
            lemma_sort_sorted(old(files)@.subrange(0, i as int), b);
            assert(old(files)@.subrange(0, i + 1).drop_last() == old(files)@.subrange(0, i as int));
            assert(old(files)@.subrange(0, i + 1).last() == old(files)@[i as int]);
            assert(x == old(files)@[i as int]) by {
                assert(files@.subrange(i as int, n as int)[0] == old(files)@.subrange(i as int, n as int)[0]);
            }
            assert forall|k: int| 0 <= k < n - i - 1 implies #[trigger] files@.subrange(i + 1, n as int)[k]
                == old(files)@.subrange(i + 1, n as int)[k] by {
                assert(files@.subrange(i as int, n as int)[k + 1] == old(files)@.subrange(i as int, n as int)[k + 1]);
            }
            assert(files@.subrange(i + 1, n as int) =~= old(files)@.subrange(i + 1, n as int));
            assert(files@.subrange(0, i as int) =~= prefix.subrange(0, i as int));
            assert(files@.subrange(i + 1, i + 1) =~= prefix.subrange(i as int, i as int));
        }
        let mut j = i;
        while j > 0 && file_goes_before(&files[j], &files[j - 1], by_tokens)
            invariant
                n == files@.len(),
                0 <= j <= i < n,
                b == by_tokens,
                is_sorted(prefix, b),
                prefix.len() == i,
                files@[j as int] == x,
                files@.subrange(0, j as int) == prefix.subrange(0, j as int),
                files@.subrange(j + 1, i + 1) == prefix.subrange(j as int, i as int),
                forall|k: int| j <= k < i ==> goes_before(x, #[trigger] prefix[k], b),
                files@.subrange(i + 1, n as int) == old(files)@.subrange(i + 1, n as int),
            decreases j,
        {
            let ghost before = files@;
            proof {
                assert(before[j - 1] == prefix[j - 1]) by {
                    assert(before.subrange(0, j as int)[j - 1] == prefix.subrange(0, j as int)[j - 1]);
                }
            }
            swap_left(files, j);
            proof {
                assert forall|k: int| 0 <= k < i + 1 - j implies #[trigger] files@.subrange(j as int, i + 1)[k] == prefix.subrange(j - 1, i as int)[k] by {
                    if k > 0 {
                        assert(before.subrange(j + 1, i + 1)[k - 1] == prefix.subrange(j as int, i as int)[k - 1]);
                    }
                }
                assert(files@.subrange(j as int, i + 1) == prefix.subrange(j - 1, i as int));
                assert(files@.subrange(0, j - 1) == prefix.subrange(0, j - 1)) by {
                    assert forall|k: int| 0 <= k < j - 1 implies #[trigger] files@.subrange(0, j - 1)[k] == prefix.subrange(0, j - 1)[k] by {
                        assert(before.subrange(0, j as int)[k] == prefix.subrange(0, j as int)[k]);
                    }
                }
                assert(files@.subrange(i + 1, n as int) == before.subrange(i + 1, n as int));
            }
            j = j - 1;
        }
        proof {
            if j > 0 {
                assert(files@.subrange(0, j as int)[j - 1] == prefix.subrange(0, j as int)[j - 1]);
                assert forall|k: int| 0 <= k < j implies !goes_before(x, #[trigger] prefix[k], b) by {
                    assert(!goes_before(prefix[j - 1], prefix[k], b) || k == j - 1);
                    lemma_goes_before_order(x, prefix[j - 1], prefix[k], b);
                }
            }
            lemma_rank_is(prefix, x, b, j as int);
            let ins = insert_sorted(prefix, x, b);
            assert(files@.subrange(0, i + 1) == ins) by {
                assert forall|k: int| 0 <= k < i + 1 implies #[trigger] files@.subrange(0, i + 1)[k] == ins[k] by {
                    if k < j {
                        assert(files@.subrange(0, j as int)[k] == prefix.subrange(0, j as int)[k]);
                    } else if k > j {
                        assert(files@.subrange(j + 1, i + 1)[k - j - 1] == prefix.subrange(j as int, i as int)[k - j - 1]);
                    }
                }
            }
            assert(files@.subrange(i + 1, n as int) == old(files)@.subrange(i + 1, n as int));
        }
        i = i + 1;
    }
    proof {
        assert(files@.subrange(0, n as int) == files@);
        assert(old(files)@.subrange(0, n as int) == old(files)@);
    }
}

/// Orders `files` by token count, largest first, keeping the order of files
/// with equal counts.
pub fn sort_by_token_count(files: &mut [ContextFile])
    ensures
        final(files)@ == sort_by_tokens(old(files)@),
{
    sort_files(files, true);
}

/// Orders `files` by file name, keeping the order of files with equal names.
pub fn sort_by_file_name(files: &mut [ContextFile])
    ensures
        final(files)@ == sort_by_filename(old(files)@),
{
    sort_files(files, false);
}

/// Orders `files` by token count, largest first, and picks out (copies of) the
/// files that do not fit within `limit` tokens when taken in that order.
pub fn drop_matched_context_files(files: &mut [ContextFile], limit: usize) -> (r: Vec<ContextFile>)
    ensures
        final(files)@ == sort_by_tokens(old(files)@),
        r@ == overflow(sort_by_tokens(old(files)@), limit as nat, 0, 0),
{
    sort_by_token_count(files);
    let mut total_size: usize = 0;
    let mut dropped_files: Vec<ContextFile> = Vec::new();
    let mut i: usize = 0;
    while i < files.len()
        invariant
            files@ == sort_by_tokens(old(files)@),
            i <= files@.len(),
            total_size <= limit,
            overflow(files@, limit as nat, 0, 0) == dropped_files@ + overflow(
                files@,
                limit as nat,
                total_size as nat,
                i as nat,
            ),
        decreases files@.len() - i,
    {
        let size = TokenCounter::count_tokens(files[i].content.as_str());
        let ghost before = dropped_files@;
        if size > limit - total_size {
            dropped_files.push(
                ContextFile { filename: files[i].filename.clone(), content: files[i].content.clone() },
            );
            assert(dropped_files@ == before + seq![files@[i as int]]);
        } else {
            total_size = total_size + size;
        }
        i = i + 1;
    }
    assert(dropped_files@ + Seq::<ContextFile>::empty() == dropped_files@);
    dropped_files
}


/// The largest number of tokens of context files sent with a conversation,
/// unless configured otherwise.
pub const CONTEXT_FILES_MAX_SIZE: usize = 150 * 1024 * 1024;

/// The configured context files, and how many tokens of them fit in a
/// conversation.
#[derive(Debug)]
pub struct ContextManager {
    max_context_files_size: usize,
    pub global_config: ContextConfig,
}

/// The characters of each string of `s`.
pub open spec fn path_views(s: Seq<String>) -> Seq<Seq<char>> {
    s.map_values(|p: String| p@)
}

/// The entries of `paths` not in `existing`, in order.
pub open spec fn new_paths(paths: Seq<Seq<char>>, existing: Seq<Seq<char>>) -> Seq<Seq<char>>
    decreases paths.len(),
{
    if paths.len() == 0 {
        Seq::empty()
    } else if existing.contains(paths.last()) {
        new_paths(paths.drop_last(), existing)
    } else {
        new_paths(paths.drop_last(), existing).push(paths.last())
    }
}

/// The entries of `existing` not in `removed`, in order.
pub open spec fn without_paths(existing: Seq<Seq<char>>, removed: Seq<Seq<char>>) -> Seq<Seq<char>>
    decreases existing.len(),
{
    if existing.len() == 0 {
        Seq::empty()
    } else if removed.contains(existing.last()) {
        without_paths(existing.drop_last(), removed)
    } else {
        without_paths(existing.drop_last(), removed).push(existing.last())
    }
}

/// The names of the files of `s`.
pub open spec fn file_names(s: Seq<ContextFile>) -> Seq<Seq<char>> {
    s.map_values(|f: ContextFile| f.filename@)
}

/// The files of `s` whose name is not in `names`, in order.
pub open spec fn files_not_named(s: Seq<ContextFile>, names: Seq<Seq<char>>) -> Seq<ContextFile>
    decreases s.len(),
{
    if s.len() == 0 {
        Seq::empty()
    } else if names.contains(s.last().filename@) {
        files_not_named(s.drop_last(), names)
    } else {
        files_not_named(s.drop_last(), names).push(s.last())
    }
}

/// What `collect_context_files_with_limit` gives for `files` under `limit`:
/// the files ordered by name, then stably by token count (largest first); those
/// that do not fit are dropped, along with every file of the same name.
pub open spec fn collected_files(files: Seq<ContextFile>, limit: nat) -> (Seq<ContextFile>, Seq<ContextFile>) {
    let sorted = sort_by_tokens(sort_by_filename(files));
    let dropped = overflow(sorted, limit, 0, 0);
    (files_not_named(sorted, file_names(dropped)), dropped)
}

proof fn lemma_without_push(existing: Seq<Seq<char>>, removed: Seq<Seq<char>>, q: Seq<char>)
    ensures
        without_paths(without_paths(existing, removed), seq![q]) == without_paths(existing, removed.push(q)),
    decreases existing.len(),
{
    if existing.len() > 0 {
        lemma_without_push(existing.drop_last(), removed, q);
        let w = without_paths(existing.drop_last(), removed);
        let e = existing.last();
        assert(removed.push(q).contains(e) <==> removed.contains(e) || e == q) by {
            if removed.push(q).contains(e) {
                let k = choose|k: int| 0 <= k < removed.push(q).len() && removed.push(q)[k] == e;
                if k < removed.len() {
                    assert(removed[k] == e);
                }
            }
            if removed.contains(e) {
                let k = choose|k: int| 0 <= k < removed.len() && removed[k] == e;
                assert(removed.push(q)[k] == e);
            }
            if e == q {
                assert(removed.push(q)[removed.len() as int] == e);
            }
        }
        assert(seq![q].contains(e) <==> e == q) by {
            if e == q {
                assert(seq![q][0] == e);
            }
        }
        if !removed.contains(e) {
            assert(w.push(e).drop_last() == w);
            assert(w.push(e).last() == e);
        }
    }
}

/// Whether `list` holds a string with the characters of `p`.
fn contains_path(list: &Vec<String>, p: &String) -> (r: bool)
    ensures
        r == path_views(list@).contains(p@),
{
    let mut i: usize = 0;
    while i < list.len()
        invariant
            i <= list@.len(),
            forall|k: int| 0 <= k < i ==> list@[k]@ != p@,
        decreases list@.len() - i,
    {
        if list[i] == *p {
            assert(path_views(list@)[i as int] == p@);
            return true;
        }
        i = i + 1;
    }
    proof {
        if path_views(list@).contains(p@) {
            let k = choose|k: int| 0 <= k < path_views(list@).len() && path_views(list@)[k] == p@;
            assert(list@[k]@ == p@);
        }
    }
    false
}

/// Whether `list` holds a file named `name`.
fn names_file(list: &Vec<ContextFile>, name: &String) -> (r: bool)
    ensures
        r == file_names(list@).contains(name@),
{
    let mut i: usize = 0;
    while i < list.len()
        invariant
            i <= list@.len(),
            forall|k: int| 0 <= k < i ==> list@[k].filename@ != name@,
        decreases list@.len() - i,
    {
        if list[i].filename == *name {
            assert(file_names(list@)[i as int] == name@);
            return true;
        }
        i = i + 1;
    }
    proof {
        if file_names(list@).contains(name@) {
            let k = choose|k: int| 0 <= k < file_names(list@).len() && file_names(list@)[k] == name@;
            assert(list@[k].filename@ == name@);
        }
    }
    false
}

impl ContextManager {
    /// The token budget for context files.
    pub closed spec fn max_files_size(&self) -> usize {
        self.max_context_files_size
    }

    /// The configured context files.
    pub closed spec fn config(&self) -> ContextConfig {
        self.global_config
    }

    /// A manager of `global_config`, with a budget of `max_context_files_size`
    /// tokens or [`CONTEXT_FILES_MAX_SIZE`] when none is given.
    pub fn new(max_context_files_size: Option<usize>, global_config: ContextConfig) -> (r: Self)
        ensures
            r.max_files_size() == match max_context_files_size {
                Some(m) => m,
                None => CONTEXT_FILES_MAX_SIZE,
            },
            r.config() == global_config,
    {
        let max_context_files_size = match max_context_files_size {
            Some(m) => m,
            None => CONTEXT_FILES_MAX_SIZE,
        };
        ContextManager { max_context_files_size, global_config }
    }

    /// Adds `paths` to the global context, skipping those it already holds.
    /// Only the global context can be changed: with `global` unset nothing is
    /// added. The caller saves the configuration.
    pub fn add_paths(&mut self, paths: Vec<String>, global: bool, force: bool)
        ensures
            final(self).max_files_size() == old(self).max_files_size(),
            path_views(final(self).config().file_paths@) == if global {
                path_views(old(self).config().file_paths@) + new_paths(
                    path_views(paths@),
                    path_views(old(self).config().file_paths@),
                )
            } else {
                path_views(old(self).config().file_paths@)
            },
    {
        if !global {
            return;
        }
        let global_paths = clone_paths(&self.global_config.file_paths);
        let ghost existing = path_views(global_paths@);
        let mut i: usize = 0;
        while i < paths.len()
            invariant
                i <= paths@.len(),
                existing == path_views(old(self).config().file_paths@),
                path_views(global_paths@) == existing,
                self.max_context_files_size == old(self).max_context_files_size,
                path_views(self.global_config.file_paths@) == existing + new_paths(
                    path_views(paths@.subrange(0, i as int)),
                    existing,
                ),
            decreases paths@.len() - i,
        {
            let ghost pv = path_views(paths@.subrange(0, i + 1));
            assert(pv.drop_last() == path_views(paths@.subrange(0, i as int)));
            assert(pv.last() == paths@[i as int]@);
            if !contains_path(&global_paths, &paths[i]) {
                let ghost before = self.global_config.file_paths@;
                self.global_config.file_paths.push(paths[i].clone());
                assert(path_views(self.global_config.file_paths@) == path_views(before).push(paths@[i as int]@));
            }
            i = i + 1;
        }
        assert(paths@.subrange(0, paths@.len() as int) == paths@);
    }

    /// Removes every entry of `paths` from the global context. Only the global
    /// context can be changed: with `global` unset nothing is removed. The
    /// caller saves the configuration.
    pub fn remove_paths(&mut self, paths: Vec<String>, global: bool)
        ensures
            final(self).max_files_size() == old(self).max_files_size(),
            path_views(final(self).config().file_paths@) == if global {
                without_paths(path_views(old(self).config().file_paths@), path_views(paths@))
            } else {
                path_views(old(self).config().file_paths@)
            },
    {
        if !global {
            return;
        }
        let ghost orig = path_views(self.global_config.file_paths@);
        proof {
            lemma_without_none(orig);
            assert(path_views(paths@.subrange(0, 0)) =~= Seq::<Seq<char>>::empty());
        }
        let mut i: usize = 0;
        while i < paths.len()
            invariant
                i <= paths@.len(),
                orig == path_views(old(self).config().file_paths@),
                self.max_context_files_size == old(self).max_context_files_size,
                path_views(self.global_config.file_paths@) == without_paths(
                    orig,
                    path_views(paths@.subrange(0, i as int)),
                ),
            decreases paths@.len() - i,
        {
            let ghost before = path_views(self.global_config.file_paths@);
            let kept = retain_other_paths(&self.global_config.file_paths, &paths[i]);
            self.global_config.file_paths = kept;
            proof {
                lemma_without_push(orig, path_views(paths@.subrange(0, i as int)), paths@[i as int]@);
                assert(path_views(paths@.subrange(0, i + 1)) == path_views(paths@.subrange(0, i as int)).push(paths@[i as int]@));
            }
            i = i + 1;
        }
        assert(paths@.subrange(0, paths@.len() as int) == paths@);
    }

    /// Empties the global context. Only the global context can be changed: with
    /// `global` unset nothing happens. The caller saves the configuration.
    pub fn clear(&mut self, global: bool)
        ensures
            final(self).max_files_size() == old(self).max_files_size(),
            global ==> final(self).config().file_paths@ == Seq::<String>::empty(),
            !global ==> final(self).config().file_paths@ == old(self).config().file_paths@,
    {
        if global {
            self.global_config.file_paths.clear();
        }
    }

    /// Splits the context files read for the configured paths into those to
    /// send and those dropped for the token budget.
    pub fn collect_context_files_with_limit(&self, files: Vec<ContextFile>) -> (r: (Vec<ContextFile>, Vec<ContextFile>))
        ensures
            r.0@ == collected_files(files@, self.max_files_size() as nat).0,
            r.1@ == collected_files(files@, self.max_files_size() as nat).1,
    {
        let mut context_files = files;
        sort_by_file_name(context_files.as_mut_slice());
        let dropped_files = drop_matched_context_files(context_files.as_mut_slice(), self.max_context_files_size);
        let kept = keep_files_not_named(&context_files, &dropped_files);
        (kept, dropped_files)
    }
}

proof fn lemma_without_none(s: Seq<Seq<char>>)
    ensures
        without_paths(s, Seq::empty()) == s,
    decreases s.len(),
{
    if s.len() > 0 {
        lemma_without_none(s.drop_last());
        assert(s.drop_last().push(s.last()) == s);
    }
}

/// Copies of the files of `files` not named in `dropped`, in order.
fn keep_files_not_named(files: &Vec<ContextFile>, dropped: &Vec<ContextFile>) -> (r: Vec<ContextFile>)
    ensures
        r@ == files_not_named(files@, file_names(dropped@)),
{
    let mut kept: Vec<ContextFile> = Vec::new();
    let mut i: usize = 0;
    while i < files.len()
        invariant
            i <= files@.len(),
            kept@ == files_not_named(files@.subrange(0, i as int), file_names(dropped@)),
        decreases files@.len() - i,
    {
        assert(files@.subrange(0, i + 1).drop_last() == files@.subrange(0, i as int));
        assert(files@.subrange(0, i + 1).last() == files@[i as int]);
        if !names_file(dropped, &files[i].filename) {
            kept.push(ContextFile { filename: files[i].filename.clone(), content: files[i].content.clone() });
        }
        i = i + 1;
    }
    assert(files@.subrange(0, files@.len() as int) == files@);
    kept
}

/// A copy of `paths`.
fn clone_paths(paths: &Vec<String>) -> (r: Vec<String>)
    ensures
        r@ == paths@,
{
    let mut r: Vec<String> = Vec::new();
    let mut i: usize = 0;
    while i < paths.len()
        invariant
            i <= paths@.len(),
            r@ == paths@.subrange(0, i as int),
        decreases paths@.len() - i,
    {
        r.push(paths[i].clone());
        assert(paths@.subrange(0, i + 1) == paths@.subrange(0, i as int).push(paths@[i as int]));
        i = i + 1;
    }
    assert(paths@.subrange(0, paths@.len() as int) == paths@);
    r
}

/// Copies of the entries of `paths` other than `p`, in order.
fn retain_other_paths(paths: &Vec<String>, p: &String) -> (r: Vec<String>)
    ensures
        path_views(r@) == without_paths(path_views(paths@), seq![p@]),
{
    let mut r: Vec<String> = Vec::new();
    let mut i: usize = 0;
    while i < paths.len()
        invariant
            i <= paths@.len(),
            path_views(r@) == without_paths(path_views(paths@.subrange(0, i as int)), seq![p@]),
        decreases paths@.len() - i,
    {
        let ghost before = r@;
        let ghost pv = path_views(paths@.subrange(0, i + 1));
        assert(pv.drop_last() == path_views(paths@.subrange(0, i as int)));
        assert(pv.last() == paths@[i as int]@);
        assert(seq![p@].contains(paths@[i as int]@) <==> paths@[i as int]@ == p@) by {
            if paths@[i as int]@ == p@ {
                assert(seq![p@][0] == p@);
            }
        }
        if paths[i] != *p {
            r.push(paths[i].clone());
            assert(path_views(r@) == path_views(before).push(paths@[i as int]@));
        }
        i = i + 1;
    }
    assert(paths@.subrange(0, paths@.len() as int) == paths@);
    r
}

/// The files of `s` ranked like `f` (neither must come before the other), in
/// order.
pub open spec fn ranked_like(s: Seq<ContextFile>, f: ContextFile, by_tokens: bool) -> Seq<ContextFile>
    decreases s.len(),
{
    if s.len() == 0 {
        Seq::empty()
    } else if !goes_before(s.last(), f, by_tokens) && !goes_before(f, s.last(), by_tokens) {
        ranked_like(s.drop_last(), f, by_tokens).push(s.last())
    } else {
        ranked_like(s.drop_last(), f, by_tokens)
    }
}

/// The tokens of the files of `s`, all together.
pub open spec fn total_tokens(s: Seq<ContextFile>) -> nat
    decreases s.len(),
{
    if s.len() == 0 {
        0
    } else {
        total_tokens(s.drop_last()) + file_tokens(s.last())
    }
}

proof fn lemma_ranked_concat(a: Seq<ContextFile>, c: Seq<ContextFile>, f: ContextFile, b: bool)
    ensures
        ranked_like(a + c, f, b) == ranked_like(a, f, b) + ranked_like(c, f, b),
    decreases c.len(),
{
    if c.len() == 0 {
        assert(a + c == a);
        assert(ranked_like(a, f, b) + Seq::<ContextFile>::empty() == ranked_like(a, f, b));
    } else {
        lemma_ranked_concat(a, c.drop_last(), f, b);
        assert((a + c).drop_last() == a + c.drop_last());
        assert((a + c).last() == c.last());
        let (ra, rc) = (ranked_like(a, f, b), ranked_like(c.drop_last(), f, b));
        assert((ra + rc).push(c.last()) == ra + rc.push(c.last()));
    }
}

proof fn lemma_ranked_none(c: Seq<ContextFile>, f: ContextFile, b: bool)
    requires
        forall|i: int| 0 <= i < c.len() ==> goes_before(#[trigger] c[i], f, b) || goes_before(f, c[i], b),
    ensures
        ranked_like(c, f, b) == Seq::<ContextFile>::empty(),
    decreases c.len(),
{
    if c.len() > 0 {
        assert(goes_before(c[c.len() - 1], f, b) || goes_before(f, c[c.len() - 1], b));
        assert forall|i: int| 0 <= i < c.drop_last().len() implies goes_before(#[trigger] c.drop_last()[i], f, b)
            || goes_before(f, c.drop_last()[i], b) by {
            assert(c.drop_last()[i] == c[i]);
        }
        lemma_ranked_none(c.drop_last(), f, b);
    }
}

/// Sorting keeps the files: the result is a reordering of the input, in order.
pub proof fn law_stable_sort_permutes(s: Seq<ContextFile>, by_tokens: bool)
    ensures
        stable_sort(s, by_tokens).to_multiset() == s.to_multiset(),
        is_sorted(stable_sort(s, by_tokens), by_tokens),
    decreases s.len(),
{
    broadcast use vstd::seq_lib::group_to_multiset_ensures;

    lemma_sort_sorted(s, by_tokens);
    if s.len() > 0 {
        law_stable_sort_permutes(s.drop_last(), by_tokens);
        let t = stable_sort(s.drop_last(), by_tokens);
        let x = s.last();
        lemma_rank_prefix(t, x, by_tokens);
        let p = rank(t, x, by_tokens) as int;
        assert(insert_sorted(t, x, by_tokens) =~= t.insert(p, x));
        vstd::seq_lib::to_multiset_insert(t, p, x);
        assert(s.drop_last().push(x) == s);
    }
}

/// Sorting is stable: the files ranked like any given file come out in the
/// order they came in.
pub proof fn law_stable_sort_keeps_order(s: Seq<ContextFile>, f: ContextFile, by_tokens: bool)
    ensures
        ranked_like(stable_sort(s, by_tokens), f, by_tokens) == ranked_like(s, f, by_tokens),
    decreases s.len(),
{
    if s.len() > 0 {
        let b = by_tokens;
        law_stable_sort_keeps_order(s.drop_last(), f, b);
        let t = stable_sort(s.drop_last(), b);
        let x = s.last();
        lemma_sort_sorted(s.drop_last(), b);
        lemma_rank_prefix(t, x, b);
        let p = rank(t, x, b) as int;
        let (pre, post) = (t.take(p), t.skip(p));
        assert(t == pre + post);
        lemma_ranked_concat(pre.push(x), post, f, b);
        lemma_ranked_concat(pre, post, f, b);
        assert(pre.push(x).drop_last() == pre);
        if !goes_before(x, f, b) && !goes_before(f, x, b) {
            assert forall|i: int| 0 <= i < post.len() implies goes_before(#[trigger] post[i], f, b)
                || goes_before(f, post[i], b) by {
                let e = post[i];
                assert(e == t[p + i]);
                assert(goes_before(x, e, b));
                lemma_goes_before_order(x, f, e, b);
                lemma_goes_before_order(e, f, x, b);
                lemma_goes_before_order(x, e, x, b);
            }
            lemma_ranked_none(post, f, b);
            assert(ranked_like(pre, f, b).push(x) + Seq::<ContextFile>::empty() == ranked_like(pre, f, b).push(x));
            assert(ranked_like(pre, f, b) + Seq::<ContextFile>::empty() == ranked_like(pre, f, b));
        }
    }
}

/// The files of `s[i..]` that are taken, when `total` tokens are taken already
/// and the files are taken in order as long as the total stays within `limit`
/// (the others are the [`overflow`]).
pub open spec fn taken(s: Seq<ContextFile>, limit: nat, total: nat, i: nat) -> Seq<ContextFile>
    decreases s.len() - i,
{
    if i >= s.len() {
        Seq::empty()
    } else if total + file_tokens(s[i as int]) > limit {
        taken(s, limit, total, i + 1)
    } else {
        seq![s[i as int]] + taken(s, limit, total + file_tokens(s[i as int]), i + 1)
    }
}

proof fn lemma_total_tokens_prepend(a: ContextFile, c: Seq<ContextFile>)
    ensures
        total_tokens(seq![a] + c) == file_tokens(a) + total_tokens(c),
    decreases c.len(),
{
    if c.len() > 0 {
        lemma_total_tokens_prepend(a, c.drop_last());
        assert((seq![a] + c).drop_last() == seq![a] + c.drop_last());
        assert((seq![a] + c).last() == c.last());
    } else {
        assert(seq![a] + c == seq![a]);
        assert(seq![a].drop_last() == Seq::<ContextFile>::empty());
        assert(seq![a].last() == a);
        assert(total_tokens(Seq::<ContextFile>::empty()) == 0);
    }
}

proof fn lemma_taken_within(s: Seq<ContextFile>, limit: nat, total: nat, i: nat)
    requires
        total <= limit,
    ensures
        total + total_tokens(taken(s, limit, total, i)) <= limit,
    decreases s.len() - i,
{
    if i < s.len() {
        let t = file_tokens(s[i as int]);
        if total + t > limit {
            lemma_taken_within(s, limit, total, i + 1);
        } else {
            lemma_taken_within(s, limit, total + t, i + 1);
            lemma_total_tokens_prepend(s[i as int], taken(s, limit, total + t, i + 1));
        }
    }
}

proof fn lemma_taken_overflow_split(s: Seq<ContextFile>, limit: nat, total: nat, i: nat)
    requires
        i <= s.len(),
    ensures
        (taken(s, limit, total, i) + overflow(s, limit, total, i)).to_multiset() == s.skip(i as int).to_multiset(),
    decreases s.len() - i,
{
    broadcast use vstd::seq_lib::group_to_multiset_ensures;
    broadcast use vstd::seq_lib::lemma_seq_union_to_multiset_commutative;

    if i == s.len() {
        assert(s.skip(i as int) =~= Seq::<ContextFile>::empty());
        assert(taken(s, limit, total, i) + overflow(s, limit, total, i) =~= Seq::<ContextFile>::empty());
    } else {
        let a = s[i as int];
        let t = file_tokens(a);
        assert(s.skip(i as int) == seq![a] + s.skip(i + 1int));
        vstd::seq_lib::lemma_multiset_commutative(seq![a], s.skip(i + 1int));
        if total + t > limit {
            lemma_taken_overflow_split(s, limit, total, i + 1);
            let (tk, ov) = (taken(s, limit, total, i + 1), overflow(s, limit, total, i + 1));
            vstd::seq_lib::lemma_multiset_commutative(tk, seq![a] + ov);
            vstd::seq_lib::lemma_multiset_commutative(seq![a], ov);
            vstd::seq_lib::lemma_multiset_commutative(tk, ov);
            vstd::seq_lib::lemma_multiset_commutative(seq![a], tk + ov);
            broadcast use vstd::multiset::group_multiset_axioms;

            assert((tk + (seq![a] + ov)).to_multiset() =~= (seq![a] + (tk + ov)).to_multiset());
        } else {
            lemma_taken_overflow_split(s, limit, total + t, i + 1);
            let (tk, ov) = (taken(s, limit, total + t, i + 1), overflow(s, limit, total + t, i + 1));
            assert(seq![a] + tk + ov == seq![a] + (tk + ov));
            vstd::seq_lib::lemma_multiset_commutative(seq![a], tk + ov);
        }
    }
}

/// The files taken within the budget and those that overflow it make up the
/// files, and the ones taken stay within the budget.
pub proof fn law_taken_and_overflow(s: Seq<ContextFile>, limit: nat)
    ensures
        (taken(s, limit, 0, 0) + overflow(s, limit, 0, 0)).to_multiset() == s.to_multiset(),
        total_tokens(taken(s, limit, 0, 0)) <= limit,
{
    lemma_taken_overflow_split(s, limit, 0, 0);
    assert(s.skip(0) == s);
    lemma_taken_within(s, limit, 0, 0);
}

proof fn lemma_not_named_concat(x: Seq<ContextFile>, c: Seq<ContextFile>, names: Seq<Seq<char>>)
    ensures
        files_not_named(x + c, names) == files_not_named(x, names) + files_not_named(c, names),
    decreases c.len(),
{
    if c.len() == 0 {
        assert(x + c == x);
        assert(files_not_named(x, names) + Seq::<ContextFile>::empty() == files_not_named(x, names));
    } else {
        lemma_not_named_concat(x, c.drop_last(), names);
        assert((x + c).drop_last() == x + c.drop_last());
        assert((x + c).last() == c.last());
        let (fx, fc) = (files_not_named(x, names), files_not_named(c.drop_last(), names));
        assert((fx + fc).push(c.last()) == fx + fc.push(c.last()));
    }
}

proof fn lemma_kept_within_taken(s: Seq<ContextFile>, limit: nat, total: nat, i: nat, names: Seq<Seq<char>>)
    requires
        i <= s.len(),
        forall|k: int|
            0 <= k < overflow(s, limit, total, i).len() ==> names.contains(
                (#[trigger] overflow(s, limit, total, i)[k]).filename@,
            ),
    ensures
        total_tokens(files_not_named(s.skip(i as int), names)) <= total_tokens(taken(s, limit, total, i)),
    decreases s.len() - i,
{
    if i == s.len() {
        assert(s.skip(i as int) =~= Seq::<ContextFile>::empty());
        assert(files_not_named(s.skip(i as int), names) == Seq::<ContextFile>::empty());
    } else {
        let a = s[i as int];
        let t = file_tokens(a);
        let rest = s.skip(i + 1int);
        assert(s.skip(i as int) == seq![a] + rest);
        lemma_not_named_concat(seq![a], rest, names);
        assert(seq![a].drop_last() == Seq::<ContextFile>::empty());
        assert(seq![a].last() == a);
        if total + t > limit {
            let ov = overflow(s, limit, total, i);
            assert(ov[0] == a);
            assert(names.contains(a.filename@));
            assert forall|k: int| 0 <= k < overflow(s, limit, total, i + 1).len() implies names.contains(
                (#[trigger] overflow(s, limit, total, i + 1)[k]).filename@,
            ) by {
                assert(ov[k + 1] == overflow(s, limit, total, i + 1)[k]);
            }
            lemma_kept_within_taken(s, limit, total, i + 1, names);
            assert(files_not_named(seq![a].drop_last(), names) == Seq::<ContextFile>::empty());
            assert(files_not_named(seq![a], names) == Seq::<ContextFile>::empty());
            assert(Seq::<ContextFile>::empty() + files_not_named(rest, names) == files_not_named(rest, names));
            assert(taken(s, limit, total, i) == taken(s, limit, total, i + 1));
            assert(total_tokens(files_not_named(s.skip(i as int), names)) <= total_tokens(taken(s, limit, total, i)));
        } else {
            assert(taken(s, limit, total, i) == seq![a] + taken(s, limit, total + t, i + 1));
            assert(overflow(s, limit, total, i) == overflow(s, limit, total + t, i + 1));
            lemma_kept_within_taken(s, limit, total + t, i + 1, names);
            lemma_total_tokens_prepend(a, taken(s, limit, total + t, i + 1));
            if names.contains(a.filename@) {
                assert(files_not_named(seq![a].drop_last(), names) == Seq::<ContextFile>::empty());
                assert(files_not_named(seq![a], names) == Seq::<ContextFile>::empty());
                assert(Seq::<ContextFile>::empty() + files_not_named(rest, names) == files_not_named(rest, names));
                assert(total_tokens(files_not_named(s.skip(i as int), names)) <= total_tokens(taken(s, limit, total, i)));
            } else {
                assert(files_not_named(seq![a].drop_last(), names) == Seq::<ContextFile>::empty());
                assert(files_not_named(seq![a], names) == seq![a]);
                lemma_total_tokens_prepend(a, files_not_named(rest, names));
                assert(total_tokens(files_not_named(s.skip(i as int), names)) <= total_tokens(taken(s, limit, total, i)));
            }
        }
    }
}

/// The context files sent with a conversation stay within the token budget.
pub proof fn law_sent_files_within_budget(files: Seq<ContextFile>, limit: nat)
    ensures
        total_tokens(collected_files(files, limit).0) <= limit,
{
    let sorted = sort_by_tokens(sort_by_filename(files));
    let dropped = overflow(sorted, limit, 0, 0);
    assert forall|k: int| 0 <= k < dropped.len() implies file_names(dropped).contains(
        (#[trigger] dropped[k]).filename@,
    ) by {
        assert(file_names(dropped)[k] == dropped[k].filename@);
    }
    lemma_kept_within_taken(sorted, limit, 0, 0, file_names(dropped));
    assert(sorted.skip(0) == sorted);
    lemma_taken_within(sorted, limit, 0, 0);
}

} // verus!
