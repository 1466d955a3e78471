//! Normalization of raw configuration text.
//!
//! Address and pattern entries arrive as newline-separated blobs.  Each
//! line is trimmed of surrounding whitespace and lowercased; lines that
//! are empty after trimming are discarded and never become rules.

use vstd::prelude::*;
use vstd::seq_lib::*;

verus! {

/// Characters trimmed from the ends of a line: the Unicode
/// White_Space set, as `str::trim` removes it.
pub open spec fn is_space(c: char) -> bool {
    c == ' ' || c == '\t' || c == '\n' || c == '\u{b}' || c == '\u{c}' || c == '\r' || c
        == '\u{85}' || c == '\u{a0}' || c == '\u{1680}' || c == '\u{2000}' || c == '\u{2001}' || c
        == '\u{2002}' || c == '\u{2003}' || c == '\u{2004}' || c == '\u{2005}' || c == '\u{2006}'
        || c == '\u{2007}' || c == '\u{2008}' || c == '\u{2009}' || c == '\u{200a}' || c
        == '\u{2028}' || c == '\u{2029}' || c == '\u{202f}' || c == '\u{205f}' || c == '\u{3000}'
}

fn is_space_char(c: char) -> (b: bool)
    ensures
        b == is_space(c),
{
    c == ' ' || c == '\t' || c == '\n' || c == '\u{b}' || c == '\u{c}' || c == '\r' || c
        == '\u{85}' || c == '\u{a0}' || c == '\u{1680}' || c == '\u{2000}' || c == '\u{2001}' || c
        == '\u{2002}' || c == '\u{2003}' || c == '\u{2004}' || c == '\u{2005}' || c == '\u{2006}'
        || c == '\u{2007}' || c == '\u{2008}' || c == '\u{2009}' || c == '\u{200a}' || c
        == '\u{2028}' || c == '\u{2029}' || c == '\u{202f}' || c == '\u{205f}' || c == '\u{3000}'
}

/// The characters that `str::to_lowercase` returns for a given input;
/// a function of the input characters alone.  Nothing here states
/// that the result is itself lowercase, or how case is folded: those
/// are the outside function's behavior, exercised by tests.
pub uninterp spec fn lower_of(s: Seq<char>) -> Seq<char>;

/// Relies on `str::to_lowercase`: returns the lowercase equivalent of
/// the input string, determined by the input characters alone.
#[verifier::external_body]
fn to_lower(s: &str) -> (r: String)
    ensures
        r@ == lower_of(s@),
{
    s.to_lowercase()
}

/// `s` with leading whitespace removed.
pub open spec fn ltrim(s: Seq<char>) -> Seq<char>
    decreases s.len(),
{
    if s.len() > 0 && is_space(s[0]) {
        ltrim(s.drop_first())
    } else {
        s
    }
}

/// `s` with trailing whitespace removed.
pub open spec fn rtrim(s: Seq<char>) -> Seq<char>
    decreases s.len(),
{
    if s.len() > 0 && is_space(s.last()) {
        rtrim(s.drop_last())
    } else {
        s
    }
}

/// `s` with surrounding whitespace removed.
pub open spec fn trim_of(s: Seq<char>) -> Seq<char> {
    rtrim(ltrim(s))
}

/// One configuration line, normalized: trimmed, then lowercased.
pub open spec fn norm_line_of(l: Seq<char>) -> Seq<char> {
    lower_of(trim_of(l))
}

proof fn lemma_ltrim_at(s: Seq<char>, a: int)
    requires
        0 <= a <= s.len(),
        forall|k: int| 0 <= k < a ==> is_space(s[k]),
        a < s.len() ==> !is_space(s[a]),
    ensures
        ltrim(s) == s.skip(a),
    decreases a,
{
    if a == 0 {
        assert(s.skip(0) =~= s);
    } else {
        let t = s.drop_first();
        assert(forall|k: int| 0 <= k < a - 1 ==> is_space(#[trigger] t[k])) by {
            assert(forall|k: int| 0 <= k < a - 1 ==> #[trigger] t[k] == s[k + 1]);
        }
        lemma_ltrim_at(t, a - 1);
        assert(t.skip(a - 1) =~= s.skip(a));
    }
}

proof fn lemma_rtrim_at(s: Seq<char>, b: int)
    requires
        0 <= b <= s.len(),
        forall|k: int| b <= k < s.len() ==> is_space(s[k]),
        b > 0 ==> !is_space(s[b - 1]),
    ensures
        rtrim(s) == s.take(b),
    decreases s.len() - b,
{
    if b == s.len() {
        assert(s.take(b) =~= s);
    } else {
        let t = s.drop_last();
        assert(forall|k: int| b <= k < t.len() ==> is_space(#[trigger] t[k])) by {
            assert(forall|k: int| 0 <= k < t.len() ==> #[trigger] t[k] == s[k]);
        }
        lemma_rtrim_at(t, b);
        assert(t.take(b) =~= s.take(b));
    }
}

/// Trim and lowercase one line of a configuration blob.
pub fn normalize_line(line: &str) -> (r: String)
    ensures
        r@ == norm_line_of(line@),
{
    let n: usize = line.unicode_len();
    let mut a: usize = 0;
    while a < n && is_space_char(line.get_char(a))
        invariant
            0 <= a <= n,
            n == line@.len(),
            forall|k: int| 0 <= k < a ==> is_space(line@[k]),
        decreases n - a,
    {
        a = a + 1;
    }
    let mut b: usize = n;
    while b > a && is_space_char(line.get_char(b - 1))
        invariant
            a <= b <= n,
            n == line@.len(),
            forall|k: int| b <= k < n ==> is_space(line@[k]),
        decreases b,
    {
        b = b - 1;
    }
    let trimmed = line.substring_char(a, b);
    proof {
        lemma_ltrim_at(line@, a as int);
        let u = line@.skip(a as int);
        assert(forall|k: int| b - a <= k < u.len() ==> is_space(#[trigger] u[k])) by {
            assert(forall|k: int| 0 <= k < u.len() ==> #[trigger] u[k] == line@[k + a]);
        }
        assert(b - a > 0 ==> !is_space(u[b - a - 1]));
        lemma_rtrim_at(u, b - a);
        assert(u.take(b - a) =~= line@.subrange(a as int, b as int));
        assert(trim_of(line@) == trimmed@);
    }
    to_lower(trimmed)
}

/// Index of the first newline in `s`, or `s.len()` if there is none.
pub open spec fn first_nl(s: Seq<char>) -> int
    decreases s.len(),
{
    if s.len() == 0 {
        0
    } else if s[0] == '\n' {
        0
    } else {
        1 + first_nl(s.drop_first())
    }
}

/// The newline-separated segments of `s`, in order.  A blob with no
/// newline is a single segment; each newline ends a segment.
pub open spec fn split_lines(s: Seq<char>) -> Seq<Seq<char>>
    decreases s.len(),
{
    let j = first_nl(s);
    if 0 <= j && j < s.len() {
        seq![s.take(j)] + split_lines(s.skip(j + 1))
    } else {
        seq![s]
    }
}

/// A whole blob, normalized: each line trimmed and lowercased, empty
/// results discarded.
pub open spec fn norm_blob_of(blob: Seq<char>) -> Seq<Seq<char>> {
    split_lines(blob).map_values(|l: Seq<char>| norm_line_of(l)).filter(
        |l: Seq<char>| l.len() > 0,
    )
}

proof fn lemma_first_nl_at(s: Seq<char>, j: int)
    requires
        0 <= j <= s.len(),
        forall|k: int| 0 <= k < j ==> s[k] != '\n',
        j < s.len() ==> s[j] == '\n',
    ensures
        first_nl(s) == j,
    decreases j,
{
    if j == 0 {
    } else {
        let t = s.drop_first();
        assert(forall|k: int| 0 <= k < j - 1 ==> #[trigger] t[k] != '\n') by {
            assert(forall|k: int| 0 <= k < j - 1 ==> #[trigger] t[k] == s[k + 1]);
        }
        lemma_first_nl_at(t, j - 1);
    }
}

proof fn lemma_split_lines_at(s: Seq<char>, j: int)
    requires
        0 <= j <= s.len(),
        forall|k: int| 0 <= k < j ==> s[k] != '\n',
        j < s.len() ==> s[j] == '\n',
    ensures
        j == s.len() ==> split_lines(s) == seq![s],
        j < s.len() ==> split_lines(s) == seq![s.take(j)] + split_lines(s.skip(j + 1)),
{
    lemma_first_nl_at(s, j);
}

proof fn lemma_filter_singleton(x: Seq<char>, pred: spec_fn(Seq<char>) -> bool)
    ensures
        seq![x].filter(pred) == if pred(x) {
            seq![x]
        } else {
            Seq::<Seq<char>>::empty()
        },
{
    reveal_with_fuel(Seq::filter, 2);
    assert(seq![x].drop_last() =~= Seq::<Seq<char>>::empty());
    if pred(x) {
        assert(seq![x].filter(pred) =~= seq![x]);
    }
}

proof fn lemma_norm_blob_decompose(s: Seq<char>, j: int)
    requires
        0 <= j <= s.len(),
        forall|k: int| 0 <= k < j ==> s[k] != '\n',
        j < s.len() ==> s[j] == '\n',
    ensures
        norm_blob_of(s) == if j == s.len() {
            keep_line(norm_line_of(s))
        } else {
            keep_line(norm_line_of(s.take(j))) + norm_blob_of(s.skip(j + 1))
        },
{
    let f = |l: Seq<char>| norm_line_of(l);
    let pred = |l: Seq<char>| l.len() > 0;
    lemma_split_lines_at(s, j);
    if j == s.len() {
        assert(seq![s].map_values(f) =~= seq![f(s)]);
        lemma_filter_singleton(f(s), pred);
    } else {
        let head = s.take(j);
        let rest = split_lines(s.skip(j + 1));
        assert((seq![head] + rest).map_values(f) =~= seq![f(head)] + rest.map_values(f));
        Seq::filter_distributes_over_add(seq![f(head)], rest.map_values(f), pred);
        lemma_filter_singleton(f(head), pred);
    }
}

/// A normalized line, as far as it contributes to a blob's entries: a
/// singleton if non-empty, nothing otherwise.
pub open spec fn keep_line(l: Seq<char>) -> Seq<Seq<char>> {
    if l.len() > 0 {
        seq![l]
    } else {
        Seq::<Seq<char>>::empty()
    }
}

/// Split a blob on newlines and normalize each line, discarding lines
/// that are empty after trimming.
pub fn normalize_blob(blob: &str) -> (out: Vec<String>)
    ensures
        out.deep_view() == norm_blob_of(blob@),
{
    let n: usize = blob.unicode_len();
    let mut out: Vec<String> = Vec::new();
    let mut start: usize = 0;
    proof {
        assert(blob@.skip(0) =~= blob@);
        assert(out.deep_view() =~= Seq::<Seq<char>>::empty());
        assert(out.deep_view() + norm_blob_of(blob@) =~= norm_blob_of(blob@));
    }
    loop
        invariant_except_break
            0 <= start <= n,
            n == blob@.len(),
            norm_blob_of(blob@) == out.deep_view() + norm_blob_of(blob@.skip(start as int)),
        ensures
            out.deep_view() == norm_blob_of(blob@),
        decreases n - start,
    {
        let ghost prev = out.deep_view();
        let mut j: usize = start;
        while j < n && blob.get_char(j) != '\n'
            invariant
                start <= j <= n,
                n == blob@.len(),
                forall|k: int| start <= k < j ==> blob@[k] != '\n',
            decreases n - j,
        {
            j = j + 1;
        }
        let line = blob.substring_char(start, j);
        let norm = normalize_line(line);
        proof {
            let rem = blob@.skip(start as int);
            assert(forall|k: int| 0 <= k < j - start ==> #[trigger] rem[k] != '\n') by {
                assert(forall|k: int| 0 <= k < rem.len() ==> #[trigger] rem[k] == blob@[k + start]);
            }
            assert(j < n ==> rem[j - start] == '\n');
            lemma_norm_blob_decompose(rem, j - start);
            assert(rem.take(j - start) =~= line@);
            if j < n {
                assert(rem.skip(j - start + 1) =~= blob@.skip(j + 1));
            } else {
                assert(rem.take(j - start) =~= rem);
            }
        }
        if !norm.as_str().is_empty() {
            out.push(norm);
            proof {
                assert(out.deep_view() =~= prev.push(norm@));
                assert(prev.push(norm@) =~= prev + keep_line(norm@));
            }
        } else {
            proof {
                assert(prev + keep_line(norm@) =~= prev);
            }
        }
        if j == n {
            proof {
                assert(norm_blob_of(blob@) == out.deep_view());
            }
            break;
        }
        proof {
            assert(out.deep_view() + norm_blob_of(blob@.skip(j + 1)) =~= prev + (keep_line(
                norm@,
            ) + norm_blob_of(blob@.skip(j + 1))));
        }
        start = j + 1;
    }
    out
}

} // verus!
