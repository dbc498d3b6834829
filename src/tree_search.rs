//! The engine's text-level operations: region-bounded patching, candidate
//! sanitizing and adaptation, and reading the oracle's diagnostics.

use vstd::prelude::*;
use crate::text::{
    chars_of, string_of, occurs_at, slice_chars, push_all, matches_at, trim_spec, trim_chars,
    chars_eq, all_ws, strs_view, lemma_trim_shape, trim_start_spec, trim_end_spec, contains_spec, contains_chars, is_ws_spec,
    is_ws, find_from, first_from, lemma_first_from, lemma_first_from_is,
};

verus! {

// ---------------------------------------------------------------------------
// Region patcher
// ---------------------------------------------------------------------------

/// Number of newline characters among the first `i` characters of `s`.
pub open spec fn nl_count(s: Seq<char>, i: int) -> nat
    decreases i,
{
    if i <= 0 {
        0
    } else {
        nl_count(s, i - 1) + if s[i - 1] == '\n' {
            1nat
        } else {
            0nat
        }
    }
}

/// The 1-based line on which the character at position `p` stands.
pub open spec fn line_of(s: Seq<char>, p: int) -> int {
    nl_count(s, p) + 1int
}

/// An occurrence of `t` at `p` whose characters all stand on lines
/// `start ..= end` of `s` (a line's own terminating newline belongs to it).
pub open spec fn region_match(s: Seq<char>, t: Seq<char>, p: int, start: int, end: int) -> bool {
    t.len() > 0 && occurs_at(s, t, p) && start <= line_of(s, p) && line_of(s, p + t.len() - 1)
        <= end
}

/// `s` with the occurrence of `t` at `p` replaced by `r`.
pub open spec fn spliced(s: Seq<char>, t: Seq<char>, p: int, r: Seq<char>) -> Seq<char> {
    s.subrange(0, p) + r + s.subrange(p + t.len(), s.len() as int)
}

/// Why a region patch was not applied.
#[derive(PartialEq, Eq, Structural, Debug, Clone, Copy)]
pub enum PatchError {
    /// The target does not occur inside the line window.
    NoMatch,
    /// The target occurs more than once inside the line window.
    AmbiguousMatch,
    /// The target is the empty text, which marks no place.
    EmptyTarget,
}

proof fn lemma_nl_count_bound(s: Seq<char>, i: int)
    requires
        0 <= i,
    ensures
        nl_count(s, i) <= i,
    decreases i,
{
    if i > 0 {
        lemma_nl_count_bound(s, i - 1);
    }
}

/// Newlines counted through an occurrence of `t` are those of `t` itself.
proof fn lemma_nl_count_shift(s: Seq<char>, t: Seq<char>, p: int, j: int)
    requires
        occurs_at(s, t, p),
        0 <= j <= t.len(),
    ensures
        nl_count(s, p + j) == nl_count(s, p) + nl_count(t, j),
    decreases j,
{
    if j > 0 {
        lemma_nl_count_shift(s, t, p, j - 1);
        assert(s[p + j - 1] == s.subrange(p, p + t.len())[j - 1]);
    }
}

/// Number of newlines in the first `i` characters of `t`.
fn count_newlines(t: &Vec<char>, i: usize) -> (c: usize)
    requires
        i <= t@.len(),
    ensures
        c == nl_count(t@, i as int),
{
    let mut c: usize = 0;
    let mut k: usize = 0;
    while k < i
        invariant
            k <= i <= t@.len(),
            c == nl_count(t@, k as int),
            c <= k,
        decreases i - k,
    {
        if t[k] == '\n' {
            c = c + 1;
        }
        k = k + 1;
    }
    c
}

/// The first occurrence of `t` inside lines `start ..= end` of `s`, and
/// whether a second one exists.
fn scan_region(s: &Vec<char>, t: &Vec<char>, start: usize, end: usize) -> (r: (
    Option<usize>,
    bool,
))
    requires
        t@.len() > 0,
    ensures
        r.0 matches Some(p) ==> region_match(s@, t@, p as int, start as int, end as int),
        r.0 matches Some(p) ==> forall|q: int|
            0 <= q < p ==> !region_match(s@, t@, q, start as int, end as int),
        r.0 is None ==> forall|q: int| !region_match(s@, t@, q, start as int, end as int),
        r.1 ==> r.0 is Some && exists|q: int|
            q != r.0->Some_0 && region_match(s@, t@, q, start as int, end as int),
        !r.1 && r.0 is Some ==> forall|q: int|
            region_match(s@, t@, q, start as int, end as int) ==> q == r.0->Some_0,
{
    let n = s.len();
    let m = t.len();
    if m > n {
        return (None, false);
    }
    let kt = count_newlines(t, m - 1);
    let mut first: Option<usize> = None;
    let mut nl: usize = 0;
    let mut p: usize = 0;
    while p <= n - m
        invariant
            n == s@.len(),
            m == t@.len(),
            0 < m <= n,
            kt == nl_count(t@, m - 1),
            p <= n - m + 1,
            nl == nl_count(s@, p as int),
            nl <= p,
            first matches Some(f) ==> f < p && region_match(s@, t@, f as int, start as int, end as int),
            first matches Some(f) ==> forall|q: int|
                0 <= q < f ==> !region_match(s@, t@, q, start as int, end as int),
            first matches Some(f) ==> forall|q: int|
                f < q < p ==> !region_match(s@, t@, q, start as int, end as int),
            first is None ==> forall|q: int|
                0 <= q < p ==> !region_match(s@, t@, q, start as int, end as int),
        decreases n - m + 1 - p,
    {
        let hit = (start == 0 || start - 1 <= nl) && end >= 1 && kt <= end - 1 && nl <= end - 1
            - kt && matches_at(s, t, p);
        proof {
            if occurs_at(s@, t@, p as int) {
                lemma_nl_count_shift(s@, t@, p as int, m - 1);
            }
            assert(hit == region_match(s@, t@, p as int, start as int, end as int));
        }
        if hit {
            match first {
                Some(f) => {
                    return (first, true);
                },
                None => {
                    first = Some(p);
                },
            }
        }
        proof {
            lemma_nl_count_bound(s@, p as int);
        }
        if s[p] == '\n' {
            nl = nl + 1;
        }
        p = p + 1;
    }
    proof {
        assert forall|q: int| region_match(s@, t@, q, start as int, end as int) implies q < p by {
        }
    }
    (first, false)
}

/// `s` with the occurrence of `t` at `p` replaced by `r`.
fn splice(s: &Vec<char>, m: usize, p: usize, r: &Vec<char>) -> (out: Vec<char>)
    requires
        p + m <= s@.len(),
    ensures
        out@ == s@.subrange(0, p as int) + r@ + s@.subrange(p + m, s@.len() as int),
{
    let n = s.len();
    let mut out = slice_chars(s, 0, p);
    push_all(&mut out, r);
    let tail = slice_chars(s, p + m, n);
    push_all(&mut out, &tail);
    out
}

/// Replaces the single occurrence of `target` that stands on lines
/// `start_line ..= end_line` (1-based, inclusive) of `src`; everything else
/// is copied unchanged. Fails when the window holds no occurrence, or more
/// than one.
pub fn replace_in_region_once(
    src: &str,
    start_line: usize,
    end_line: usize,
    target: &str,
    new_text: &str,
) -> (r: Result<String, PatchError>)
    ensures
        r == Err::<String, PatchError>(PatchError::EmptyTarget) <==> target@.len() == 0,
        r matches Ok(out) ==> exists|p: int|
            region_match(src@, target@, p, start_line as int, end_line as int) && (forall|q: int|
                region_match(src@, target@, q, start_line as int, end_line as int) ==> q == p)
                && out@ == spliced(src@, target@, p, new_text@),
        r == Err::<String, PatchError>(PatchError::NoMatch) <==> target@.len() > 0 && forall|
            q: int,
        | !region_match(src@, target@, q, start_line as int, end_line as int),
        r == Err::<String, PatchError>(PatchError::AmbiguousMatch) <==> exists|p: int, q: int|
            p != q && region_match(src@, target@, p, start_line as int, end_line as int)
                && region_match(src@, target@, q, start_line as int, end_line as int),
{
    let s = chars_of(src);
    let t = chars_of(target);
    if t.len() == 0 {
        return Err(PatchError::EmptyTarget);
    }
    let (first, second) = scan_region(&s, &t, start_line, end_line);
    match first {
        None => Err(PatchError::NoMatch),
        Some(p) => {
            if second {
                Err(PatchError::AmbiguousMatch)
            } else {
                let out = splice(&s, t.len(), p, &chars_of(new_text));
                Ok(string_of(&out))
            }
        },
    }
}

/// Replaces the first occurrence, in document order, of `target` that stands
/// on lines `start_line ..= end_line` (1-based, inclusive) of `src`; later
/// occurrences and everything outside the window are copied unchanged.
pub fn replace_in_region_first(
    src: &str,
    start_line: usize,
    end_line: usize,
    target: &str,
    new_text: &str,
) -> (r: Result<String, PatchError>)
    ensures
        r == Err::<String, PatchError>(PatchError::EmptyTarget) <==> target@.len() == 0,
        r matches Ok(out) ==> exists|p: int|
            region_match(src@, target@, p, start_line as int, end_line as int) && (forall|q: int|
                0 <= q < p ==> !region_match(src@, target@, q, start_line as int, end_line as int))
                && out@ == spliced(src@, target@, p, new_text@),
        r == Err::<String, PatchError>(PatchError::NoMatch) <==> target@.len() > 0 && forall|
            q: int,
        | !region_match(src@, target@, q, start_line as int, end_line as int),
        r != Err::<String, PatchError>(PatchError::AmbiguousMatch),
{
    let s = chars_of(src);
    let t = chars_of(target);
    if t.len() == 0 {
        return Err(PatchError::EmptyTarget);
    }
    let (first, _) = scan_region(&s, &t, start_line, end_line);
    match first {
        None => Err(PatchError::NoMatch),
        Some(p) => {
            let out = splice(&s, t.len(), p, &chars_of(new_text));
            Ok(string_of(&out))
        },
    }
}

// ---------------------------------------------------------------------------
// Candidate sanitizer
// ---------------------------------------------------------------------------

/// Most candidates that the sanitizer lets through, which bounds the oracle
/// invocations of one search.
pub const MAX_CANDIDATES: usize = 32;

/// The sanitizer's output after the first `i` raw candidates: each is
/// trimmed, and kept if it is not empty, was not kept before, and the cap is
/// not reached.
pub open spec fn sanitized_prefix(xs: Seq<Seq<char>>, i: int) -> Seq<Seq<char>>
    decreases i,
{
    if i <= 0 {
        Seq::empty()
    } else {
        let prev = sanitized_prefix(xs, i - 1);
        let t = trim_spec(xs[i - 1]);
        if t.len() > 0 && !prev.contains(t) && prev.len() < MAX_CANDIDATES {
            prev.push(t)
        } else {
            prev
        }
    }
}

/// The sanitizer's output for the raw candidates `xs`.
pub open spec fn sanitized(xs: Seq<Seq<char>>) -> Seq<Seq<char>> {
    sanitized_prefix(xs, xs.len() as int)
}

/// The characters of each vector, in order.
pub open spec fn deep(v: Seq<Vec<char>>) -> Seq<Seq<char>> {
    v.map_values(|x: Vec<char>| x@)
}

/// Whether `t` is one of `v`.
fn contains_text(v: &Vec<Vec<char>>, t: &Vec<char>) -> (r: bool)
    ensures
        r == deep(v@).contains(t@),
{
    let mut k: usize = 0;
    while k < v.len()
        invariant
            k <= v@.len(),
            forall|j: int| 0 <= j < k ==> v@[j]@ != t@,
        decreases v@.len() - k,
    {
        if chars_eq(&v[k], t) {
            assert(deep(v@)[k as int] == t@);
            return true;
        }
        k = k + 1;
    }
    assert(!deep(v@).contains(t@)) by {
        if deep(v@).contains(t@) {
            let j = choose|j: int| 0 <= j < deep(v@).len() && deep(v@)[j] == t@;
            assert(v@[j]@ == t@);
        }
    }
    false
}

/// Trims every raw candidate, drops the empty ones and the repeats (the first
/// occurrence stays, in input order), and keeps at most `MAX_CANDIDATES`.
pub fn sanitize_candidates(xs: Vec<String>) -> (r: Vec<String>)
    ensures
        strs_view(r@) == sanitized(strs_view(xs@)),
{
    let ghost xv = strs_view(xs@);
    let mut out: Vec<String> = Vec::new();
    let mut seen: Vec<Vec<char>> = Vec::new();
    let mut i: usize = 0;
    while i < xs.len()
        invariant
            i <= xs@.len(),
            xv == strs_view(xs@),
            strs_view(out@) == sanitized_prefix(xv, i as int),
            deep(seen@) == sanitized_prefix(xv, i as int),
        decreases xs@.len() - i,
    {
        let t = trim_chars(&chars_of(xs[i].as_str()));
        let ghost prev = sanitized_prefix(xv, i as int);
        assert(t@ == trim_spec(xv[i as int]));
        if t.len() > 0 && !contains_text(&seen, &t) && seen.len() < MAX_CANDIDATES {
            out.push(string_of(&t));
            seen.push(t);
            assert(strs_view(out@) =~= prev.push(t@));
            assert(deep(seen@) =~= prev.push(t@));
        }
        i = i + 1;
    }
    out
}

/// What the sanitizer keeps after `i` raw candidates: non-empty trimmed
/// entries without repeats, within the cap, each the trimmed form of a raw
/// candidate at the first index where that form appears, in input order; and
/// a non-empty trimmed form seen so far is kept unless the cap was reached.
proof fn lemma_sanitized_prefix(xs: Seq<Seq<char>>, i: int) -> (idx: Seq<int>)
    requires
        0 <= i <= xs.len(),
    ensures
        ({
            let out = sanitized_prefix(xs, i);
            &&& out.len() <= MAX_CANDIDATES
            &&& forall|k: int| 0 <= k < out.len() ==> #[trigger] out[k].len() > 0 && trim_spec(out[k]) == out[k]
            &&& forall|j: int, k: int| 0 <= j < k < out.len() ==> out[j] != out[k]
            &&& idx.len() == out.len()
            &&& forall|k: int| 0 <= k < out.len() ==> 0 <= #[trigger] idx[k] < i && out[k] == trim_spec(xs[idx[k]])
            &&& forall|k: int, j: int| 0 <= k < out.len() && 0 <= j < idx[k] ==> trim_spec(#[trigger] xs[j]) != #[trigger] out[k]
            &&& forall|j: int, k: int| 0 <= j < k < out.len() ==> idx[j] < idx[k]
            &&& forall|j: int| 0 <= j < i && trim_spec(#[trigger] xs[j]).len() > 0 ==> out.contains(trim_spec(xs[j])) || out.len() == MAX_CANDIDATES
        }),
    decreases i,
{
    if i == 0 {
        Seq::empty()
    } else {
        let pidx = lemma_sanitized_prefix(xs, i - 1);
        let prev = sanitized_prefix(xs, i - 1);
        let t = trim_spec(xs[i - 1]);
        lemma_trim_shape(xs[i - 1]);
        if t.len() > 0 && !prev.contains(t) && prev.len() < MAX_CANDIDATES {
            let out = prev.push(t);
            let idx = pidx.push(i - 1);
            assert forall|j: int, k: int| 0 <= j < k < out.len() implies out[j] != out[k] by {
                if k == out.len() - 1 {
                    assert(prev[j] == out[j]);
                }
            }
            assert forall|k: int, j: int| 0 <= k < out.len() && 0 <= j < idx[k] implies trim_spec(#[trigger] xs[j]) != #[trigger] out[k] by {
                if k == out.len() - 1 && trim_spec(xs[j]) == t {
                    assert(prev.contains(trim_spec(xs[j])) || prev.len() == MAX_CANDIDATES);
                }
            }
            assert forall|j: int| 0 <= j < i && trim_spec(#[trigger] xs[j]).len() > 0 implies out.contains(trim_spec(xs[j])) || out.len() == MAX_CANDIDATES by {
                if j < i - 1 {
                    if prev.contains(trim_spec(xs[j])) {
                        let w = choose|w: int| 0 <= w < prev.len() && prev[w] == trim_spec(xs[j]);
                        assert(out[w] == prev[w]);
                    }
                } else {
                    assert(out[out.len() - 1] == t);
                }
            }
            idx
        } else {
            assert forall|j: int| 0 <= j < i && trim_spec(#[trigger] xs[j]).len() > 0 implies prev.contains(trim_spec(xs[j])) || prev.len() == MAX_CANDIDATES by {
            }
            pidx
        }
    }
}

/// `idx` gives, for each entry of `out`, the first index of `xs` whose
/// trimmed form it is, and those indices increase.
pub open spec fn picks_first_occurrences(xs: Seq<Seq<char>>, out: Seq<Seq<char>>, idx: Seq<int>) -> bool {
    &&& idx.len() == out.len()
    &&& forall|k: int|
        0 <= k < idx.len() ==> 0 <= #[trigger] idx[k] < xs.len() && out[k] == trim_spec(xs[idx[k]])
    &&& forall|k: int, j: int|
        0 <= k < idx.len() && 0 <= j < idx[k] ==> trim_spec(#[trigger] xs[j]) != #[trigger] out[k]
    &&& forall|j: int, k: int| 0 <= j < k < idx.len() ==> idx[j] < idx[k]
}

/// The sanitizer's output holds no empty or whitespace-only entry and no
/// repeat, keeps at most `MAX_CANDIDATES` entries, and lists trimmed input
/// entries in the order of their first occurrence in the input.
pub proof fn sanitize_candidates_laws(xs: Seq<Seq<char>>)
    ensures
        sanitized(xs).len() <= MAX_CANDIDATES,
        forall|k: int|
            0 <= k < sanitized(xs).len() ==> #[trigger] sanitized(xs)[k].len() > 0 && !all_ws(
                sanitized(xs)[k],
            ),
        forall|j: int, k: int|
            0 <= j < k < sanitized(xs).len() ==> sanitized(xs)[j] != sanitized(xs)[k],
        exists|idx: Seq<int>| #[trigger] picks_first_occurrences(xs, sanitized(xs), idx),
{
    let idx = lemma_sanitized_prefix(xs, xs.len() as int);
    let out = sanitized(xs);
    assert forall|k: int| 0 <= k < out.len() implies #[trigger] out[k].len() > 0 && !all_ws(out[k]) by {
        lemma_trim_shape(out[k]);
    }
    assert(picks_first_occurrences(xs, out, idx));
}

// ---------------------------------------------------------------------------
// Outcome classification
// ---------------------------------------------------------------------------

/// What one attempt of a candidate came to.
#[derive(Debug, Clone, PartialEq, Eq)]
pub enum Outcome {
    /// The oracle accepted the patched source without a diagnostic.
    Success,
    /// A tactic ran but left the goal state as it was.
    NoProgress,
    /// Any other diagnostic, kept as the oracle wrote it.
    Error(String),
    /// The oracle did not answer within its time bound.
    Timeout,
}

/// Whether the diagnostic says that a tactic ran without changing the goal.
pub open spec fn reports_no_progress(d: Seq<char>) -> bool {
    contains_spec(d, "made no progress"@)
}

/// Whether the oracle's diagnostic, if any, is a no-progress report.
pub fn is_made_no_progress(diag: Option<&str>) -> (r: bool)
    ensures
        r == (diag matches Some(d) && reports_no_progress(d@)),
{
    match diag {
        None => false,
        Some(d) => contains_chars(&chars_of(d), &chars_of("made no progress")),
    }
}

/// Classifies what the oracle reported: no diagnostic is success, a
/// no-progress report is `NoProgress`, anything else is an error that keeps
/// the text.
pub fn classify_outcome(diag: Option<&str>) -> (r: Outcome)
    ensures
        diag is None ==> r == Outcome::Success,
        diag matches Some(d) && reports_no_progress(d@) ==> r == Outcome::NoProgress,
        diag is Some && !reports_no_progress(diag->Some_0@) ==> (r matches Outcome::Error(e)
            && e@ == diag->Some_0@),
{
    match diag {
        None => Outcome::Success,
        Some(d) => {
            if is_made_no_progress(Some(d)) {
                Outcome::NoProgress
            } else {
                Outcome::Error(d.to_owned())
            }
        },
    }
}

// ---------------------------------------------------------------------------
// Candidate adapter
// ---------------------------------------------------------------------------

/// `t` begins with the block introducer `by` followed by whitespace.
pub open spec fn starts_with_intro(t: Seq<char>) -> bool {
    t.len() > 2 && t[0] == 'b' && t[1] == 'y' && is_ws_spec(t[2])
}

/// The script of candidate `c` without its leading introducer; `c` itself
/// when it has none.
pub open spec fn strip_intro(c: Seq<char>) -> Seq<char> {
    let t = trim_spec(c);
    if starts_with_intro(t) {
        trim_spec(t.subrange(2, t.len() as int))
    } else {
        c
    }
}

/// The placeholder line reads `by sorry`, up to surrounding whitespace.
pub open spec fn is_inline_by_sorry(line: Seq<char>) -> bool {
    let t = trim_spec(line);
    starts_with_intro(t) && trim_spec(t.subrange(2, t.len() as int)) == "sorry"@
}

/// `body` as a sequence that must close the goal: `(body; done)`.
pub open spec fn must_close(body: Seq<char>) -> Seq<char> {
    seq!['('] + body + "; done)"@
}

/// The candidates fitted to a placeholder line.
pub open spec fn adapted_for_line(cands: Seq<Seq<char>>, line: Seq<char>) -> Seq<Seq<char>> {
    if is_inline_by_sorry(line) {
        cands.map_values(|c: Seq<char>| strip_intro(c))
    } else {
        cands
    }
}

/// The candidates fitted to a placeholder line and to the kind of position
/// it stands in.
pub open spec fn adapted_for_context(cands: Seq<Seq<char>>, line: Seq<char>, tactic: bool) -> Seq<
    Seq<char>,
> {
    if tactic {
        cands.map_values(|c: Seq<char>| must_close(strip_intro(c)))
    } else {
        adapted_for_line(cands, line)
    }
}

fn is_intro_start(t: &Vec<char>) -> (r: bool)
    ensures
        r == starts_with_intro(t@),
{
    t.len() > 2 && t[0] == 'b' && t[1] == 'y' && is_ws(t[2])
}

fn strip_intro_chars(c: &Vec<char>) -> (r: Vec<char>)
    ensures
        r@ == strip_intro(c@),
{
    let t = trim_chars(c);
    if is_intro_start(&t) {
        trim_chars(&slice_chars(&t, 2, t.len()))
    } else {
        slice_chars(c, 0, c.len())
    }
}

/// Whether the placeholder line reads `by sorry`.
pub fn is_inline_by_sorry_line(line: &str) -> (r: bool)
    ensures
        r == is_inline_by_sorry(line@),
{
    let t = trim_chars(&chars_of(line));
    if !is_intro_start(&t) {
        return false;
    }
    let rest = trim_chars(&slice_chars(&t, 2, t.len()));
    chars_eq(&rest, &chars_of("sorry"))
}

/// Fits each candidate to the placeholder line: where the line already reads
/// `by sorry`, a candidate's own leading `by` is dropped; otherwise the
/// candidates are returned as they are.
pub fn adapt_candidates_for_sorry_line(cands: &[String], line: &str) -> (r: Vec<String>)
    ensures
        strs_view(r@) == adapted_for_line(strs_view(cands@), line@),
{
    let inline = is_inline_by_sorry_line(line);
    adapt_each(cands, inline, false)
}

/// Fits each candidate to the placeholder's context. In a tactic sequence
/// each candidate loses its leading `by` and becomes `(script; done)`, so
/// that a script leaving goals open fails; elsewhere this is
/// `adapt_candidates_for_sorry_line`.
pub fn adapt_candidates_for_sorry_context(cands: &[String], line: &str, tactic: bool) -> (r: Vec<
    String,
>)
    ensures
        strs_view(r@) == adapted_for_context(strs_view(cands@), line@, tactic),
{
    if tactic {
        adapt_each(cands, true, true)
    } else {
        adapt_candidates_for_sorry_line(cands, line)
    }
}

fn adapt_each(cands: &[String], strip: bool, wrap: bool) -> (r: Vec<String>)
    requires
        wrap ==> strip,
    ensures
        strs_view(r@) == if wrap {
            strs_view(cands@).map_values(|c: Seq<char>| must_close(strip_intro(c)))
        } else if strip {
            strs_view(cands@).map_values(|c: Seq<char>| strip_intro(c))
        } else {
            strs_view(cands@)
        },
{
    let ghost cv = strs_view(cands@);
    let ghost want = if wrap {
        cv.map_values(|c: Seq<char>| must_close(strip_intro(c)))
    } else if strip {
        cv.map_values(|c: Seq<char>| strip_intro(c))
    } else {
        cv
    };
    let mut out: Vec<String> = Vec::new();
    let mut i: usize = 0;
    while i < cands.len()
        invariant
            i <= cands@.len(),
            cv == strs_view(cands@),
            want.len() == cv.len(),
            wrap ==> strip,
            forall|k: int| 0 <= k < cv.len() ==> #[trigger] want[k] == if wrap {
                must_close(strip_intro(cv[k]))
            } else if strip {
                strip_intro(cv[k])
            } else {
                cv[k]
            },
            strs_view(out@) == want.subrange(0, i as int),
        decreases cands@.len() - i,
    {
        let c = chars_of(cands[i].as_str());
        assert(cv[i as int] == c@);
        let body = if strip {
            strip_intro_chars(&c)
        } else {
            c
        };
        let item = if wrap {
            let mut w: Vec<char> = Vec::new();
            w.push('(');
            push_all(&mut w, &body);
            push_all(&mut w, &chars_of("; done)"));
            proof {
                assert(w@ =~= must_close(body@));
            }
            w
        } else {
            body
        };
        assert(item@ == want[i as int]);
        let ghost old_out = out@;
        let text = string_of(&item);
        out.push(text);
        assert(strs_view(out@) =~= strs_view(old_out).push(item@));
        i = i + 1;
        assert(strs_view(out@) =~= want.subrange(0, i as int));
    }
    assert(want.subrange(0, i as int) =~= want);
    out
}

// ---------------------------------------------------------------------------
// Goal-block extraction
// ---------------------------------------------------------------------------

/// End of the line that holds position `p`: the position of its newline, or
/// the length of `s` on the last line.
pub open spec fn line_end(s: Seq<char>, p: int) -> int
    decreases s.len() - p,
{
    if p >= s.len() {
        s.len() as int
    } else if s[p] == '\n' {
        p
    } else {
        line_end(s, p + 1)
    }
}

/// Start of the line that holds position `p`.
pub open spec fn line_start(s: Seq<char>, p: int) -> int
    decreases p,
{
    if p <= 0 {
        0
    } else if s[p - 1] == '\n' {
        p
    } else {
        line_start(s, p - 1)
    }
}

/// The line after the one ending at `e` belongs to a goal block: it is
/// indented and not blank.
pub open spec fn goal_line_follows(s: Seq<char>, e: int) -> bool {
    e + 1 < s.len() && (s[e + 1] == ' ' || s[e + 1] == '\t') && !all_ws(
        s.subrange(e + 1, line_end(s, e + 1)),
    )
}

/// End of the goal block whose current last line ends at `e`.
pub open spec fn block_end(s: Seq<char>, e: int) -> int
    decreases s.len() - e,
{
    if 0 <= e && goal_line_follows(s, e) && e < line_end(s, e + 1) <= s.len() {
        block_end(s, line_end(s, e + 1))
    } else {
        e
    }
}

/// The goal block of a diagnostic dump: from the start of the line holding
/// the first `Initial goal:` heading through the indented, non-blank lines
/// that follow it.
pub open spec fn goal_block(s: Seq<char>) -> Option<Seq<char>> {
    match first_from(s, "Initial goal:"@, 0) {
        Some(p) => Some(s.subrange(line_start(s, p), block_end(s, line_end(s, p)))),
        None => None,
    }
}

proof fn lemma_line_end_bounds(s: Seq<char>, p: int)
    requires
        0 <= p,
    ensures
        p <= s.len() ==> p <= line_end(s, p) <= s.len(),
        line_end(s, p) < s.len() ==> s[line_end(s, p)] == '\n',
        forall|i: int| p <= i < line_end(s, p) ==> s[i] != '\n',
    decreases s.len() - p,
{
    if p < s.len() && s[p] != '\n' {
        lemma_line_end_bounds(s, p + 1);
    }
}

proof fn lemma_block_end_bounds(s: Seq<char>, e: int)
    requires
        0 <= e <= s.len(),
    ensures
        e <= block_end(s, e) <= s.len(),
    decreases s.len() - e,
{
    lemma_line_end_bounds(s, e + 1);
    if goal_line_follows(s, e) && e < line_end(s, e + 1) <= s.len() {
        lemma_block_end_bounds(s, line_end(s, e + 1));
    }
}

fn line_end_exec(s: &Vec<char>, p: usize) -> (r: usize)
    requires
        p <= s@.len(),
    ensures
        r == line_end(s@, p as int),
        p <= r <= s@.len(),
{
    let mut i: usize = p;
    while i < s.len() && s[i] != '\n'
        invariant
            p <= i <= s@.len(),
            line_end(s@, p as int) == line_end(s@, i as int),
        decreases s@.len() - i,
    {
        i = i + 1;
    }
    i
}

fn line_start_exec(s: &Vec<char>, p: usize) -> (r: usize)
    requires
        p <= s@.len(),
    ensures
        r == line_start(s@, p as int),
        r <= p,
{
    let mut i: usize = p;
    while i > 0 && s[i - 1] != '\n'
        invariant
            i <= p <= s@.len(),
            line_start(s@, p as int) == line_start(s@, i as int),
        decreases i,
    {
        i = i - 1;
    }
    i
}

/// Whether `s[lo..hi]` holds a character that is not whitespace.
fn has_non_ws(s: &Vec<char>, lo: usize, hi: usize) -> (r: bool)
    requires
        lo <= hi <= s@.len(),
    ensures
        r == !all_ws(s@.subrange(lo as int, hi as int)),
{
    let mut i: usize = lo;
    while i < hi
        invariant
            lo <= i <= hi <= s@.len(),
            forall|k: int| lo <= k < i ==> is_ws_spec(s@[k]),
        decreases hi - i,
    {
        if !is_ws(s[i]) {
            assert(s@.subrange(lo as int, hi as int)[i - lo] == s@[i as int]);
            return true;
        }
        i = i + 1;
    }
    assert forall|k: int| 0 <= k < hi - lo implies is_ws_spec(
        #[trigger] s@.subrange(lo as int, hi as int)[k],
    ) by {
        assert(s@.subrange(lo as int, hi as int)[k] == s@[lo + k]);
    }
    false
}

/// The block of lines that follows the first `Initial goal:` heading of a
/// diagnostic dump, heading line included, up to the first blank or
/// unindented line; `None` when the dump has no such heading.
pub fn extract_initial_goal_block(diag: &str) -> (r: Option<String>)
    ensures
        r is None <==> goal_block(diag@) is None,
        r matches Some(b) ==> goal_block(diag@) == Some(b@),
{
    let s = chars_of(diag);
    let h = chars_of("Initial goal:");
    let p = match find_from(&s, &h, 0) {
        None => return None,
        Some(p) => p,
    };
    assert(p <= s@.len());
    let a = line_start_exec(&s, p);
    let e0 = line_end_exec(&s, p);
    let mut e = e0;
    while e < s.len() && e + 1 < s.len() && (s[e + 1] == ' ' || s[e + 1] == '\t') && has_non_ws(
        &s,
        e + 1,
        line_end_exec(&s, e + 1),
    )
        invariant
            e0 <= e <= s@.len(),
            block_end(s@, e0 as int) == block_end(s@, e as int),
        decreases s@.len() - e,
    {
        let e2 = line_end_exec(&s, e + 1);
        assert(goal_line_follows(s@, e as int));
        proof {
            lemma_line_end_bounds(s@, e + 1);
        }
        e = e2;
    }
    proof {
        lemma_line_end_bounds(s@, p as int);
    }
    assert(block_end(s@, e as int) == e);
    Some(string_of(&slice_chars(&s, a, e)))
}

// ---------------------------------------------------------------------------
// Candidate lists written as JSON
// ---------------------------------------------------------------------------

#[verifier::external_type_specification]
#[verifier::external_body]
pub struct ExJsonError(serde_json::Error);

/// The strings of a JSON array of strings written as `s`, or `None` when `s`
/// is not one.
pub uninterp spec fn json_string_array(s: Seq<char>) -> Option<Seq<Seq<char>>>;

/// Relies on `serde_json::from_str::<Vec<String>>`: it succeeds exactly on a
/// JSON array of strings, and gives its strings in order.
#[verifier::external_body]
fn decode_string_array(s: &str) -> (r: Result<Vec<String>, serde_json::Error>)
    ensures
        r matches Ok(v) ==> json_string_array(s@) == Some(strs_view(v@)),
        r is Err ==> json_string_array(s@) is None,
{
    serde_json::from_str::<Vec<String>>(s)
}

/// Why a candidate list could not be read.
#[derive(PartialEq, Eq, Structural, Debug, Clone, Copy)]
pub enum CandidateListError {
    /// Neither the text nor its fenced block is a JSON array of strings.
    NotStringArray,
}

/// The text between the first code-fence line (the line holding the first
/// "```", such as "```json") and the next "```", without the newline that
/// ends the last body line; `None` when there is no such pair of fences.
pub open spec fn fenced_body(s: Seq<char>) -> Option<Seq<char>> {
    match first_from(s, "```"@, 0) {
        None => None,
        Some(f) => {
            let cs = line_end(s, f) + 1;
            match first_from(s, "```"@, cs) {
                None => None,
                Some(c) => {
                    let ce = if c > cs && s[c - 1] == '\n' {
                        c - 1
                    } else {
                        c
                    };
                    Some(s.subrange(cs, ce))
                },
            }
        },
    }
}

/// The candidate list that a text holds: the JSON array of strings in its
/// fenced block when it has one that reads as such an array, else the whole
/// text read as such an array.
pub open spec fn candidate_list(s: Seq<char>) -> Option<Seq<Seq<char>>> {
    match fenced_body(s) {
        Some(b) => if json_string_array(b) is Some {
            json_string_array(b)
        } else {
            json_string_array(s)
        },
        None => json_string_array(s),
    }
}

/// Reads a list of candidate scripts written as a JSON array of strings,
/// either alone or inside a fenced code block.
pub fn parse_json_string_array(text: &str) -> (r: Result<Vec<String>, CandidateListError>)
    ensures
        r is Ok <==> candidate_list(text@) is Some,
        r matches Ok(v) ==> candidate_list(text@) == Some(strs_view(v@)),
{
    let s = chars_of(text);
    let fence = chars_of("```");
    let mut body: Option<Vec<char>> = None;
    match find_from(&s, &fence, 0) {
        None => {},
        Some(f) => {
            let le = line_end_exec(&s, f);
            if le < s.len() {
                let cs = le + 1;
                match find_from(&s, &fence, cs) {
                    None => {},
                    Some(c) => {
                        let ce = if c > cs && s[c - 1] == '\n' {
                            c - 1
                        } else {
                            c
                        };
                        body = Some(slice_chars(&s, cs, ce));
                    },
                }
            } else {
                proof {
                    lemma_first_from(s@, fence@, le + 1);
                }
            }
        },
    }
    assert(body matches Some(b) ==> fenced_body(s@) == Some(b@));
    assert(body is None ==> fenced_body(s@) is None);
    let decoded = match body {
        Some(b) => match decode_string_array(string_of(&b).as_str()) {
            Ok(v) => Ok(v),
            Err(_) => decode_string_array(text),
        },
        None => decode_string_array(text),
    };
    match decoded {
        Ok(v) => Ok(v),
        Err(_) => Err(CandidateListError::NotStringArray),
    }
}

proof fn lemma_line_end_is(s: Seq<char>, p: int, e: int)
    requires
        0 <= p <= e < s.len(),
        s[e] == '\n',
        forall|i: int| p <= i < e ==> s[i] != '\n',
    ensures
        line_end(s, p) == e,
    decreases e - p,
{
    if p < e {
        lemma_line_end_is(s, p + 1, e);
    }
}

/// A JSON array of strings reads the same alone and inside a fenced code
/// block ("```json" line, the array, a closing "```" line), whatever text
/// stands around the block, so long as no backtick comes before it and the
/// array holds no "```". (Of a text that is no such array, the fenced form
/// falls back to reading the whole text, of which nothing is known here.)
pub proof fn fenced_array_reads_alike(arr: Seq<char>, before: Seq<char>, after: Seq<char>)
    requires
        json_string_array(arr) is Some,
        !contains_spec(arr, "```"@),
        forall|i: int| 0 <= i < before.len() ==> before[i] != '`',
    ensures
        candidate_list(before + "```json\n"@ + arr + "\n```"@ + after) == candidate_list(arr),
{
    reveal_strlit("```");
    reveal_strlit("```json\n");
    reveal_strlit("\n```");
    let fence = "```"@;
    let w = before + "```json\n"@ + arr + "\n```"@ + after;
    let f = before.len() as int;
    let cs = f + 8;
    let c = cs + arr.len() + 1;
    // the plain array has no fence
    lemma_first_from(arr, fence, 0);
    assert forall|q: int| 0 <= q implies !occurs_at(arr, fence, q) by {
        if occurs_at(arr, fence, q) {
            assert(contains_spec(arr, fence));
        }
    }
    assert(fenced_body(arr) is None);
    // the opening fence
    assert(w.subrange(f, f + 3) =~= fence);
    assert forall|q: int| 0 <= q < f implies !occurs_at(w, fence, q) by {
        if occurs_at(w, fence, q) {
            assert(w.subrange(q, q + 3)[0] == w[q]);
        }
    }
    lemma_first_from_is(w, fence, 0, f);
    lemma_line_end_is(w, f, f + 7);
    // the closing fence
    assert(w.subrange(c, c + 3) =~= fence);
    assert forall|q: int| cs <= q < c implies !occurs_at(w, fence, q) by {
        if occurs_at(w, fence, q) {
            if q + 3 <= cs + arr.len() {
                assert(arr.subrange(q - cs, q - cs + 3) =~= w.subrange(q, q + 3));
                assert(occurs_at(arr, fence, q - cs));
            } else {
                let k = cs + arr.len() - q;
                assert(w.subrange(q, q + 3)[k] == w[cs + arr.len()]);
            }
        }
    }
    lemma_first_from_is(w, fence, cs, c);
    assert(w[c - 1] == '\n');
    assert(w.subrange(cs, c - 1) =~= arr);
}

/// On a placeholder line that reads `by sorry`, every candidate loses its
/// leading `by`; on a line that is the bare `sorry`, the candidates stay as
/// they are.
pub proof fn adapt_line_laws(cands: Seq<Seq<char>>)
    ensures
        adapted_for_line(cands, "by sorry"@) == cands.map_values(|c: Seq<char>| strip_intro(c)),
        adapted_for_line(cands, "sorry"@) == cands,
{
    reveal_strlit("by sorry");
    reveal_strlit("sorry");
    let l = "by sorry"@;
    assert(trim_start_spec(l) == l);
    assert(trim_end_spec(l) == l);
    let rest = l.subrange(2, 8);
    assert(rest.drop_first() =~= "sorry"@);
    assert(trim_start_spec(rest) == trim_start_spec(rest.drop_first()));
    assert(trim_start_spec("sorry"@) == "sorry"@);
    assert(trim_end_spec("sorry"@) == "sorry"@);
    assert(is_inline_by_sorry(l));
    assert(!is_inline_by_sorry("sorry"@));
}

} // verus!
