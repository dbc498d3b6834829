//! The hint rule engine: trigger matching over goal text and binder
//! alignment of the candidate templates.

use vstd::prelude::*;
use crate::config::HintRule;
use crate::text::{
    chars_of, string_of, occurs_at, contains_spec, contains_chars, find_from, first_from,
    lemma_first_from, is_ws, is_ws_spec,
    matches_at, push_all, slice_chars, strs_view,
};

verus! {

/// A character that may stand inside an identifier of the proof language.
/// A dot separates name components, so it is not one: in `n.succ` the `n`
/// is a token of its own.
pub open spec fn is_ident_char_spec(c: char) -> bool {
    ('a' <= c && c <= 'z') || ('A' <= c && c <= 'Z') || ('0' <= c && c <= '9') || c == '_' || c
        == '\'' || c == '!' || c == '?'
}

pub fn is_ident_char(c: char) -> (r: bool)
    ensures
        r == is_ident_char_spec(c),
{
    ('a' <= c && c <= 'z') || ('A' <= c && c <= 'Z') || ('0' <= c && c <= '9') || c == '_' || c
        == '\'' || c == '!' || c == '?'
}

/// The name that candidate templates use for the goal's subject variable.
pub open spec fn placeholder() -> Seq<char> {
    seq!['n']
}

/// `w` stands in `t` at `i` as a whole token: no identifier character
/// touches it on either side.
pub open spec fn token_at(t: Seq<char>, w: Seq<char>, i: int) -> bool {
    occurs_at(t, w, i) && (i == 0 || !is_ident_char_spec(t[i - 1])) && (i + w.len() == t.len()
        || !is_ident_char_spec(t[i + w.len()]))
}

/// `w` stands somewhere in `t` as a whole token.
pub open spec fn has_token(t: Seq<char>, w: Seq<char>) -> bool {
    exists|i: int| token_at(t, w, i)
}

/// `t` from position `i` on, with each whole-token occurrence of `w`
/// (scanning left to right) replaced by `x`.
pub open spec fn subst_from(t: Seq<char>, w: Seq<char>, x: Seq<char>, i: int) -> Seq<char>
    decreases t.len() - i,
{
    if i < 0 || i >= t.len() {
        Seq::empty()
    } else if w.len() > 0 && token_at(t, w, i) {
        x + subst_from(t, w, x, i + w.len())
    } else {
        seq![t[i]] + subst_from(t, w, x, i + 1)
    }
}

/// `t` with each whole-token occurrence of `w` replaced by `x`.
pub open spec fn subst_token(t: Seq<char>, w: Seq<char>, x: Seq<char>) -> Seq<char> {
    subst_from(t, w, x, 0)
}

/// First position at or after `i` that is not whitespace.
pub open spec fn skip_ws(s: Seq<char>, i: int) -> int
    decreases s.len() - i,
{
    if 0 <= i < s.len() && is_ws_spec(s[i]) {
        skip_ws(s, i + 1)
    } else {
        i
    }
}

/// End of the run of non-whitespace characters that starts at `i`.
pub open spec fn word_end(s: Seq<char>, i: int) -> int
    decreases s.len() - i,
{
    if 0 <= i < s.len() && !is_ws_spec(s[i]) {
        word_end(s, i + 1)
    } else {
        i
    }
}

/// End of the run of identifier characters that starts at `i`.
pub open spec fn ident_end(s: Seq<char>, i: int) -> int
    decreases s.len() - i,
{
    if 0 <= i < s.len() && is_ident_char_spec(s[i]) {
        ident_end(s, i + 1)
    } else {
        i
    }
}

/// A character that may begin an identifier.
pub open spec fn is_ident_start(c: char) -> bool {
    ('a' <= c && c <= 'z') || ('A' <= c && c <= 'Z') || c == '_'
}

/// The goal's subject variable: in the target line `⊢ Head x ...`, the
/// identifier `x` that follows the head symbol. `None` when the goal has no
/// target marker or no identifier stands there.
pub open spec fn goal_subject(g: Seq<char>) -> Option<Seq<char>> {
    if let Some(p) = first_from(g, seq!['⊢'], 0) {
        let h0 = skip_ws(g, p + 1);
        let a0 = skip_ws(g, word_end(g, h0));
        let a1 = ident_end(g, a0);
        if a0 < a1 && is_ident_start(g[a0]) {
            Some(g.subrange(a0, a1))
        } else {
            None
        }
    } else {
        None
    }
}

/// Every required trigger stands in the goal, and one of the alternatives
/// does when there are any.
pub open spec fn rule_matches(g: Seq<char>, all: Seq<Seq<char>>, any: Seq<Seq<char>>) -> bool {
    (forall|k: int| 0 <= k < all.len() ==> contains_spec(g, #[trigger] all[k])) && (any.len() == 0
        || exists|k: int| 0 <= k < any.len() && contains_spec(g, #[trigger] any[k]))
}

/// The first `i` templates, aligned to the subject: a template that uses the
/// placeholder has it replaced by the subject, and is dropped when there is
/// no subject; the others stay as they are.
pub open spec fn aligned_prefix(cands: Seq<Seq<char>>, subj: Option<Seq<char>>, i: int) -> Seq<
    Seq<char>,
>
    decreases i,
{
    if i <= 0 {
        Seq::empty()
    } else {
        let prev = aligned_prefix(cands, subj, i - 1);
        let c = cands[i - 1];
        if has_token(c, placeholder()) {
            match subj {
                Some(x) => prev.push(subst_token(c, placeholder(), x)),
                None => prev,
            }
        } else {
            prev.push(c)
        }
    }
}

/// What one rule contributes for goal `g`.
pub open spec fn rule_output(g: Seq<char>, r: HintRule) -> Seq<Seq<char>> {
    if rule_matches(g, strs_view(r.when_contains_all@), strs_view(r.when_contains_any@)) {
        let cands = strs_view(r.candidates@);
        aligned_prefix(cands, goal_subject(g), cands.len() as int)
    } else {
        Seq::empty()
    }
}

/// What the first `j` rules contribute for goal `g`, in rule order.
pub open spec fn rules_output(g: Seq<char>, rules: Seq<HintRule>, j: int) -> Seq<Seq<char>>
    decreases j,
{
    if j <= 0 {
        Seq::empty()
    } else {
        rules_output(g, rules, j - 1) + rule_output(g, rules[j - 1])
    }
}

fn skip_ws_exec(s: &Vec<char>, i: usize) -> (r: usize)
    requires
        i <= s@.len(),
    ensures
        r == skip_ws(s@, i as int),
        i <= r <= s@.len(),
{
    let mut k: usize = i;
    while k < s.len() && is_ws(s[k])
        invariant
            i <= k <= s@.len(),
            skip_ws(s@, i as int) == skip_ws(s@, k as int),
        decreases s@.len() - k,
    {
        k = k + 1;
    }
    k
}

fn word_end_exec(s: &Vec<char>, i: usize) -> (r: usize)
    requires
        i <= s@.len(),
    ensures
        r == word_end(s@, i as int),
        i <= r <= s@.len(),
{
    let mut k: usize = i;
    while k < s.len() && !is_ws(s[k])
        invariant
            i <= k <= s@.len(),
            word_end(s@, i as int) == word_end(s@, k as int),
        decreases s@.len() - k,
    {
        k = k + 1;
    }
    k
}

fn ident_end_exec(s: &Vec<char>, i: usize) -> (r: usize)
    requires
        i <= s@.len(),
    ensures
        r == ident_end(s@, i as int),
        i <= r <= s@.len(),
{
    let mut k: usize = i;
    while k < s.len() && is_ident_char(s[k])
        invariant
            i <= k <= s@.len(),
            ident_end(s@, i as int) == ident_end(s@, k as int),
        decreases s@.len() - k,
    {
        k = k + 1;
    }
    k
}

/// The goal's subject variable (see `goal_subject`).
pub fn extract_goal_subject(goal: &str) -> (r: Option<String>)
    ensures
        r is None <==> goal_subject(goal@) is None,
        r matches Some(x) ==> goal_subject(goal@) == Some(x@),
{
    let g = chars_of(goal);
    let mut marker: Vec<char> = Vec::new();
    marker.push('⊢');
    assert(marker@ =~= seq!['⊢']);
    let p = match find_from(&g, &marker, 0) {
        None => return None,
        Some(p) => p,
    };
    let n = g.len();
    assert(p < n);
    let h0 = skip_ws_exec(&g, p + 1);
    let a0 = skip_ws_exec(&g, word_end_exec(&g, h0));
    let a1 = ident_end_exec(&g, a0);
    if a0 < a1 && (('a' <= g[a0] && g[a0] <= 'z') || ('A' <= g[a0] && g[a0] <= 'Z') || g[a0]
        == '_') {
        Some(string_of(&slice_chars(&g, a0, a1)))
    } else {
        None
    }
}

/// Whether `w` stands in `t` at `i` as a whole token.
fn token_at_exec(t: &Vec<char>, w: &Vec<char>, i: usize) -> (r: bool)
    ensures
        r == token_at(t@, w@, i as int),
{
    if !matches_at(t, w, i) {
        return false;
    }
    let n = t.len();
    assert(i + w@.len() <= n);
    let left_ok = i == 0 || !is_ident_char(t[i - 1]);
    let right_ok = i + w.len() == t.len() || !is_ident_char(t[i + w.len()]);
    left_ok && right_ok
}

/// Whether `w` stands in `t` as a whole token.
fn has_token_exec(t: &Vec<char>, w: &Vec<char>) -> (r: bool)
    ensures
        r == has_token(t@, w@),
{
    let mut i: usize = 0;
    while i < t.len()
        invariant
            i <= t@.len(),
            forall|q: int| 0 <= q < i ==> !token_at(t@, w@, q),
        decreases t@.len() - i,
    {
        if token_at_exec(t, w, i) {
            return true;
        }
        i = i + 1;
    }
    if token_at_exec(t, w, i) {
        return true;
    }
    assert forall|q: int| !token_at(t@, w@, q) by {
        if q > t@.len() as int {
        }
    }
    false
}

/// `t` with each whole-token occurrence of `w` replaced by `x`.
fn subst_token_exec(t: &Vec<char>, w: &Vec<char>, x: &Vec<char>) -> (r: Vec<char>)
    ensures
        r@ == subst_token(t@, w@, x@),
{
    let mut out: Vec<char> = Vec::new();
    let mut i: usize = 0;
    while i < t.len()
        invariant
            i <= t@.len(),
            out@ + subst_from(t@, w@, x@, i as int) == subst_token(t@, w@, x@),
        decreases t@.len() - i,
    {
        let ghost before = out@;
        if w.len() > 0 && token_at_exec(t, w, i) {
            push_all(&mut out, x);
            assert(out@ + subst_from(t@, w@, x@, i + w@.len()) =~= before + subst_from(
                t@,
                w@,
                x@,
                i as int,
            ));
            i = i + w.len();
        } else {
            out.push(t[i]);
            assert(out@ + subst_from(t@, w@, x@, i + 1) =~= before + subst_from(
                t@,
                w@,
                x@,
                i as int,
            ));
            i = i + 1;
        }
    }
    assert(subst_from(t@, w@, x@, i as int) =~= Seq::<char>::empty());
    assert(out@ =~= subst_token(t@, w@, x@));
    out
}

/// Whether the rule's triggers match the goal text.
fn rule_matches_exec(g: &Vec<char>, rule: &HintRule) -> (r: bool)
    ensures
        r == rule_matches(g@, strs_view(rule.when_contains_all@), strs_view(rule.when_contains_any@)),
{
    let ghost all = strs_view(rule.when_contains_all@);
    let ghost any = strs_view(rule.when_contains_any@);
    let mut k: usize = 0;
    while k < rule.when_contains_all.len()
        invariant
            k <= all.len(),
            all == strs_view(rule.when_contains_all@),
            forall|j: int| 0 <= j < k ==> contains_spec(g@, #[trigger] all[j]),
        decreases all.len() - k,
    {
        let w = chars_of(rule.when_contains_all[k].as_str());
        if !contains_chars(g, &w) {
            assert(!contains_spec(g@, all[k as int]));
            return false;
        }
        k = k + 1;
    }
    if rule.when_contains_any.len() == 0 {
        return true;
    }
    let mut k: usize = 0;
    while k < rule.when_contains_any.len()
        invariant
            k <= any.len(),
            any == strs_view(rule.when_contains_any@),
            all == strs_view(rule.when_contains_all@),
            any.len() > 0,
            forall|j: int| 0 <= j < all.len() ==> contains_spec(g@, #[trigger] all[j]),
            forall|j: int| 0 <= j < k ==> !contains_spec(g@, #[trigger] any[j]),
        decreases any.len() - k,
    {
        let w = chars_of(rule.when_contains_any[k].as_str());
        if contains_chars(g, &w) {
            assert(contains_spec(g@, any[k as int]));
            return true;
        }
        k = k + 1;
    }
    false
}

/// Candidates from every rule whose triggers match the goal text, in rule
/// order. Each template that uses the placeholder variable `n` as a whole
/// token gets the goal's own subject variable in its place, and is left out
/// when the goal names none.
pub fn derive_candidates_from_goal_pretty_with_hint_rules(goal: &str, rules: &[HintRule]) -> (r:
    Vec<String>)
    ensures
        strs_view(r@) == rules_output(goal@, rules@, rules@.len() as int),
{
    let g = chars_of(goal);
    let subj = extract_goal_subject(goal);
    let subj_chars: Option<Vec<char>> = match &subj {
        Some(x) => Some(chars_of(x.as_str())),
        None => None,
    };
    let ghost sv: Option<Seq<char>> = goal_subject(goal@);
    assert(subj_chars matches Some(x) ==> sv == Some(x@));
    assert(subj_chars is None ==> sv is None);
    let mut ph: Vec<char> = Vec::new();
    ph.push('n');
    assert(ph@ =~= placeholder());
    let mut out: Vec<String> = Vec::new();
    let mut j: usize = 0;
    while j < rules.len()
        invariant
            j <= rules@.len(),
            g@ == goal@,
            ph@ == placeholder(),
            subj_chars matches Some(x) ==> sv == Some(x@),
            subj_chars is None ==> sv is None,
            sv == goal_subject(goal@),
            strs_view(out@) == rules_output(goal@, rules@, j as int),
        decreases rules@.len() - j,
    {
        let rule = &rules[j];
        let ghost base = strs_view(out@);
        if rule_matches_exec(&g, rule) {
            let ghost cands = strs_view(rule.candidates@);
            let mut i: usize = 0;
            while i < rule.candidates.len()
                invariant
                    i <= cands.len(),
                    cands == strs_view(rule.candidates@),
                    ph@ == placeholder(),
                    subj_chars matches Some(x) ==> sv == Some(x@),
                    subj_chars is None ==> sv is None,
                    strs_view(out@) == base + aligned_prefix(cands, sv, i as int),
                decreases cands.len() - i,
            {
                let c = chars_of(rule.candidates[i].as_str());
                assert(c@ == cands[i as int]);
                let ghost before = out@;
                if has_token_exec(&c, &ph) {
                    match &subj_chars {
                        Some(x) => {
                            let y = subst_token_exec(&c, &ph, x);
                            out.push(string_of(&y));
                            assert(strs_view(out@) =~= strs_view(before).push(y@));
                        },
                        None => {},
                    }
                } else {
                    out.push(string_of(&c));
                    assert(strs_view(out@) =~= strs_view(before).push(c@));
                }
                i = i + 1;
                assert(strs_view(out@) =~= base + aligned_prefix(cands, sv, i as int));
            }
        }
        j = j + 1;
        assert(strs_view(out@) =~= rules_output(goal@, rules@, j as int));
    }
    out
}

/// Each `n` of the rewritten text from `i` on has an identifier character
/// beside it, or stands first with one just before position `i` of `t`; and
/// the rewritten text starts with an identifier character exactly when `t`
/// does at `i`.
proof fn lemma_subst_leaves_no_placeholder(t: Seq<char>, x: Seq<char>, i: int)
    requires
        0 <= i <= t.len(),
        x.len() > 0,
        x != placeholder(),
        forall|k: int| 0 <= k < x.len() ==> is_ident_char_spec(#[trigger] x[k]),
    ensures
        ({
            let o = subst_from(t, placeholder(), x, i);
            &&& (o.len() > 0 <==> i < t.len())
            &&& (i < t.len() ==> (is_ident_char_spec(o[0]) <==> is_ident_char_spec(t[i])))
            &&& forall|q: int|
                0 <= q < o.len() && #[trigger] o[q] == 'n' ==> (q > 0 && is_ident_char_spec(o[q - 1]))
                    || (q + 1 < o.len() && is_ident_char_spec(o[q + 1])) || (q == 0 && i > 0
                    && is_ident_char_spec(t[i - 1]))
        }),
    decreases t.len() - i,
{
    let w = placeholder();
    let o = subst_from(t, w, x, i);
    if i < t.len() {
        if token_at(t, w, i) {
            lemma_subst_leaves_no_placeholder(t, x, i + 1);
            let rest = subst_from(t, w, x, i + 1);
            assert(o == x + rest);
            assert(t.subrange(i, i + 1)[0] == t[i]);
            assert forall|q: int| 0 <= q < o.len() && #[trigger] o[q] == 'n' implies (q > 0
                && is_ident_char_spec(o[q - 1])) || (q + 1 < o.len() && is_ident_char_spec(o[q + 1]))
                || (q == 0 && i > 0 && is_ident_char_spec(t[i - 1])) by {
                if q < x.len() {
                    if x.len() == 1 {
                        assert(x =~= w);
                    } else if q > 0 {
                        assert(is_ident_char_spec(x[q - 1]));
                    } else {
                        assert(is_ident_char_spec(x[q + 1]));
                    }
                } else {
                    assert(o[q] == rest[q - x.len()]);
                    if q - x.len() > 0 {
                        assert(o[q - 1] == rest[q - x.len() - 1]);
                    }
                    if q + 1 < o.len() {
                        assert(o[q + 1] == rest[q - x.len() + 1]);
                    }
                    if q == x.len() {
                        assert(o[q - 1] == x[x.len() - 1]);
                    }
                }
            }
        } else {
            lemma_subst_leaves_no_placeholder(t, x, i + 1);
            let rest = subst_from(t, w, x, i + 1);
            assert(o == seq![t[i]] + rest);
            assert forall|q: int| 0 <= q < o.len() && #[trigger] o[q] == 'n' implies (q > 0
                && is_ident_char_spec(o[q - 1])) || (q + 1 < o.len() && is_ident_char_spec(o[q + 1]))
                || (q == 0 && i > 0 && is_ident_char_spec(t[i - 1])) by {
                if q == 0 {
                    assert(t.subrange(i, i + 1) =~= w);
                    if i + 1 < t.len() {
                        assert(o[1] == rest[0]);
                    }
                } else {
                    assert(o[q] == rest[q - 1]);
                    assert(o[q - 1] == if q == 1 { t[i] } else { rest[q - 2] });
                    if q + 1 < o.len() {
                        assert(o[q + 1] == rest[q]);
                    }
                }
            }
        }
    }
}

/// Binder alignment leaves no whole-token placeholder behind: once every
/// whole-token `n` of a template is replaced by an identifier other than
/// `n`, none remains.
pub proof fn aligned_template_has_no_placeholder(t: Seq<char>, x: Seq<char>)
    requires
        x.len() > 0,
        x != placeholder(),
        forall|k: int| 0 <= k < x.len() ==> is_ident_char_spec(#[trigger] x[k]),
    ensures
        !has_token(subst_token(t, placeholder(), x), placeholder()),
{
    lemma_subst_leaves_no_placeholder(t, x, 0);
    let o = subst_token(t, placeholder(), x);
    assert forall|q: int| !token_at(o, placeholder(), q) by {
        if token_at(o, placeholder(), q) {
            assert(o.subrange(q, q + 1)[0] == o[q]);
        }
    }
}

proof fn lemma_ident_end_chars(s: Seq<char>, i: int)
    requires
        0 <= i <= s.len(),
    ensures
        i <= ident_end(s, i) <= s.len(),
        forall|k: int| i <= k < ident_end(s, i) ==> is_ident_char_spec(#[trigger] s[k]),
    decreases s.len() - i,
{
    if i < s.len() && is_ident_char_spec(s[i]) {
        lemma_ident_end_chars(s, i + 1);
    }
}

proof fn lemma_skip_ws_bound(s: Seq<char>, i: int)
    requires
        0 <= i <= s.len(),
    ensures
        i <= skip_ws(s, i) <= s.len(),
    decreases s.len() - i,
{
    if i < s.len() && is_ws_spec(s[i]) {
        lemma_skip_ws_bound(s, i + 1);
    }
}

proof fn lemma_word_end_bound(s: Seq<char>, i: int)
    requires
        0 <= i <= s.len(),
    ensures
        i <= word_end(s, i) <= s.len(),
    decreases s.len() - i,
{
    if i < s.len() && !is_ws_spec(s[i]) {
        lemma_word_end_bound(s, i + 1);
    }
}

/// The goal's subject is a non-empty identifier.
pub proof fn lemma_goal_subject_is_identifier(g: Seq<char>)
    ensures
        goal_subject(g) matches Some(x) ==> x.len() > 0 && forall|k: int|
            0 <= k < x.len() ==> is_ident_char_spec(#[trigger] x[k]),
{
    lemma_first_from(g, seq!['⊢'], 0);
    if let Some(p) = first_from(g, seq!['⊢'], 0) {
        lemma_skip_ws_bound(g, p + 1);
        let h0 = skip_ws(g, p + 1);
        lemma_word_end_bound(g, h0);
        lemma_skip_ws_bound(g, word_end(g, h0));
        let a0 = skip_ws(g, word_end(g, h0));
        lemma_ident_end_chars(g, a0);
        let a1 = ident_end(g, a0);
        if a0 < a1 && is_ident_start(g[a0]) {
            let x = g.subrange(a0, a1);
            assert forall|k: int| 0 <= k < x.len() implies is_ident_char_spec(#[trigger] x[k]) by {
                assert(x[k] == g[a0 + k]);
            }
        }
    }
}

proof fn lemma_aligned_no_placeholder(cands: Seq<Seq<char>>, subj: Option<Seq<char>>, i: int)
    requires
        0 <= i <= cands.len(),
        subj matches Some(x) ==> x.len() > 0 && x != placeholder() && forall|k: int|
            0 <= k < x.len() ==> is_ident_char_spec(#[trigger] x[k]),
    ensures
        forall|k: int|
            0 <= k < aligned_prefix(cands, subj, i).len() ==> !has_token(
                #[trigger] aligned_prefix(cands, subj, i)[k],
                placeholder(),
            ),
    decreases i,
{
    if i > 0 {
        lemma_aligned_no_placeholder(cands, subj, i - 1);
        let prev = aligned_prefix(cands, subj, i - 1);
        let cur = aligned_prefix(cands, subj, i);
        let c = cands[i - 1];
        if has_token(c, placeholder()) {
            if let Some(x) = subj {
                aligned_template_has_no_placeholder(c, x);
            }
        }
        assert forall|k: int| 0 <= k < cur.len() implies !has_token(#[trigger] cur[k], placeholder()) by {
            if k < prev.len() {
                assert(cur[k] == prev[k]);
            }
        }
    }
}

/// No candidate that the engine derives holds the placeholder `n` as a
/// whole token, unless the goal's subject is itself named `n`.
pub proof fn derived_candidates_hold_no_placeholder(g: Seq<char>, rules: Seq<HintRule>, j: int)
    requires
        0 <= j <= rules.len(),
        goal_subject(g) != Some(placeholder()),
    ensures
        forall|k: int|
            0 <= k < rules_output(g, rules, j).len() ==> !has_token(
                #[trigger] rules_output(g, rules, j)[k],
                placeholder(),
            ),
    decreases j,
{
    if j > 0 {
        derived_candidates_hold_no_placeholder(g, rules, j - 1);
        lemma_goal_subject_is_identifier(g);
        let r = rules[j - 1];
        let cands = strs_view(r.candidates@);
        lemma_aligned_no_placeholder(cands, goal_subject(g), cands.len() as int);
        let prev = rules_output(g, rules, j - 1);
        let cur = rule_output(g, r);
        assert forall|k: int| 0 <= k < (prev + cur).len() implies !has_token(
            #[trigger] (prev + cur)[k],
            placeholder(),
        ) by {
            if k >= prev.len() {
                assert((prev + cur)[k] == cur[k - prev.len()]);
            }
        }
    }
}

} // verus!
