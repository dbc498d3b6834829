//! The search driver's decisions: which candidates to try, in which order,
//! and where the search goes after each oracle verdict. Running the oracle is
//! left to the caller, which feeds each verdict back.

use vstd::prelude::*;
use crate::config::{HintRule, HintsConfig, copy_strs, index_from};
use crate::text::{strs_view, chars_of, chars_eq};
use crate::tree_search::{
    Outcome, sanitized, adapted_for_context, sanitize_candidates,
    adapt_candidates_for_sorry_context,
};

verus! {

/// The texts of a rule.
pub open spec fn rule_view(r: HintRule) -> (Seq<Seq<char>>, Seq<Seq<char>>, Seq<Seq<char>>) {
    (strs_view(r.when_contains_all@), strs_view(r.when_contains_any@), strs_view(r.candidates@))
}

/// The rules of the named packs, pack by pack in the order of `names`; a
/// name that no pack has contributes nothing.
pub open spec fn rules_of_packs(
    packs: Seq<(String, crate::config::HintPack)>,
    names: Seq<Seq<char>>,
    j: int,
) -> Seq<HintRule>
    decreases j,
{
    if j <= 0 {
        Seq::empty()
    } else {
        let prev = rules_of_packs(packs, names, j - 1);
        match index_from(packs, names[j - 1], 0) {
            Some(k) => prev + packs[k].1.rules@,
            None => prev,
        }
    }
}

/// The texts of each rule.
pub open spec fn rules_view(rs: Seq<HintRule>) -> Seq<(Seq<Seq<char>>, Seq<Seq<char>>, Seq<Seq<char>>)> {
    rs.map_values(|r: HintRule| rule_view(r))
}

fn copy_rule(r: &HintRule) -> (out: HintRule)
    ensures
        rule_view(out) == rule_view(*r),
{
    HintRule {
        when_contains_all: copy_strs(&r.when_contains_all),
        when_contains_any: copy_strs(&r.when_contains_any),
        candidates: copy_strs(&r.candidates),
    }
}

/// The rules of the enabled packs, pack by pack in the order of `enabled`.
pub fn active_rules(hints: &HintsConfig, enabled: &[String]) -> (r: Vec<HintRule>)
    ensures
        rules_view(r@) == rules_view(
            rules_of_packs(hints.packs@, strs_view(enabled@), enabled@.len() as int),
        ),
{
    let ghost names = strs_view(enabled@);
    let mut out: Vec<HintRule> = Vec::new();
    let mut j: usize = 0;
    while j < enabled.len()
        invariant
            j <= enabled@.len(),
            names == strs_view(enabled@),
            rules_view(out@) == rules_view(rules_of_packs(hints.packs@, names, j as int)),
        decreases enabled@.len() - j,
    {
        let key = chars_of(enabled[j].as_str());
        assert(key@ == names[j as int]);
        let mut k: usize = 0;
        let mut found: Option<usize> = None;
        while k < hints.packs.len()
            invariant_except_break
                found is None,
            invariant
                k <= hints.packs@.len(),
                j < enabled@.len(),
                names == strs_view(enabled@),
                key@ == names[j as int],
                index_from(hints.packs@, key@, 0) == index_from(hints.packs@, key@, k as int),
            ensures
                found matches Some(f) ==> f < hints.packs@.len() && index_from(hints.packs@, key@, 0)
                    == Some(f as int),
                found is None ==> index_from(hints.packs@, key@, 0) is None,
            decreases hints.packs@.len() - k,
        {
            let ghost ps = hints.packs@;
            let hit = chars_eq(&chars_of(hints.packs[k].0.as_str()), &key);
            assert(index_from(ps, key@, k as int) == if ps[k as int].0@ == key@ {
                Some(k as int)
            } else {
                index_from(ps, key@, k + 1)
            });
            if hit {
                found = Some(k);
                break;
            }
            k = k + 1;
        }
        let ghost before = out@;
        match found {
            Some(k) => {
                let rules = &hints.packs[k].1.rules;
                let mut i: usize = 0;
                while i < rules.len()
                    invariant
                        i <= rules@.len(),
                        rules_view(out@) == rules_view(before) + rules_view(
                            rules@.subrange(0, i as int),
                        ),
                    decreases rules@.len() - i,
                {
                    let ghost mid = out@;
                    out.push(copy_rule(&rules[i]));
                    assert(rules_view(out@) =~= rules_view(mid).push(rule_view(rules@[i as int])));
                    i = i + 1;
                    assert(rules_view(rules@.subrange(0, i as int)) =~= rules_view(
                        rules@.subrange(0, i - 1),
                    ).push(rule_view(rules@[i - 1])));
                }
                assert(rules@.subrange(0, i as int) =~= rules@);
            },
            None => {},
        }
        proof {
            let prev = rules_of_packs(hints.packs@, names, j as int);
            match found {
                Some(k) => {
                    assert(rules_view(prev + hints.packs@[k as int].1.rules@) =~= rules_view(prev)
                        + rules_view(hints.packs@[k as int].1.rules@));
                },
                None => {},
            }
        }
        j = j + 1;
    }
    out
}

/// The candidates of one round: hint-derived first, then solver-derived,
/// then the generic fallbacks, cut to `breadth`, sanitized, and fitted to
/// the placeholder's line and context.
pub open spec fn planned(
    hint: Seq<Seq<char>>,
    solver: Seq<Seq<char>>,
    fallback: Seq<Seq<char>>,
    breadth: int,
    line: Seq<char>,
    tactic: bool,
) -> Seq<Seq<char>> {
    let merged = hint + solver + fallback;
    let cut = if merged.len() <= breadth {
        merged
    } else {
        merged.take(breadth)
    };
    adapted_for_context(sanitized(cut), line, tactic)
}

/// Appends clones of `src` to `out` while `out` is shorter than `breadth`.
fn append_upto(out: &mut Vec<String>, src: &[String], breadth: usize)
    requires
        old(out)@.len() <= breadth,
    ensures
        final(out)@.len() <= breadth,
        strs_view(final(out)@) == {
            let all = strs_view(old(out)@) + strs_view(src@);
            if all.len() <= breadth {
                all
            } else {
                all.take(breadth as int)
            }
        },
{
    let ghost start = strs_view(out@);
    let ghost all = start + strs_view(src@);
    let mut i: usize = 0;
    while i < src.len() && out.len() < breadth
        invariant
            i <= src@.len(),
            out@.len() <= breadth,
            start == strs_view(old(out)@),
            all == start + strs_view(src@),
            out@.len() == start.len() + i,
            strs_view(out@) == all.take(start.len() + i),
        decreases src@.len() - i,
    {
        let ghost before = out@;
        out.push(src[i].clone());
        assert(strs_view(out@) =~= strs_view(before).push(src@[i as int]@));
        i = i + 1;
        assert(strs_view(out@) =~= all.take(start.len() + i));
    }
    if i == src.len() {
        assert(all.take(start.len() + i) =~= all);
    }
}

/// The candidates of one round (see `planned`).
pub fn plan_candidates(
    hint: &[String],
    solver: &[String],
    fallback: &[String],
    breadth: usize,
    line: &str,
    tactic: bool,
) -> (r: Vec<String>)
    ensures
        strs_view(r@) == planned(
            strs_view(hint@),
            strs_view(solver@),
            strs_view(fallback@),
            breadth as int,
            line@,
            tactic,
        ),
{
    let ghost h = strs_view(hint@);
    let ghost so = strs_view(solver@);
    let ghost f = strs_view(fallback@);
    let mut merged: Vec<String> = Vec::new();
    assert(strs_view(merged@) =~= Seq::<Seq<char>>::empty());
    append_upto(&mut merged, hint, breadth);
    let ghost m1 = strs_view(merged@);
    append_upto(&mut merged, solver, breadth);
    let ghost m2 = strs_view(merged@);
    append_upto(&mut merged, fallback, breadth);
    proof {
        let all = h + so + f;
        let b = breadth as int;
        assert(Seq::<Seq<char>>::empty() + h =~= h);
        let cut = if all.len() <= b {
            all
        } else {
            all.take(b)
        };
        assert(strs_view(merged@) =~= cut);
    }
    let clean = sanitize_candidates(merged);
    adapt_candidates_for_sorry_context(&clean, line, tactic)
}

/// Where the search goes next.
#[derive(PartialEq, Eq, Structural, Debug, Clone, Copy)]
pub enum SearchStep {
    /// Patch in the candidate at this index and ask the oracle.
    Attempt(usize),
    /// The candidate at this index closed the goal; keep its patched buffer.
    Accepted(usize),
    /// No candidate closed the goal.
    Exhausted,
}

/// The first step of a search over `n_candidates` candidates.
pub fn start_search(n_candidates: usize) -> (r: SearchStep)
    ensures
        n_candidates == 0 ==> r == SearchStep::Exhausted,
        n_candidates > 0 ==> r == SearchStep::Attempt(0),
{
    if n_candidates == 0 {
        SearchStep::Exhausted
    } else {
        SearchStep::Attempt(0)
    }
}

/// The step after the oracle's verdict on candidate `current`: success
/// accepts it; a no-progress report, an error or a timeout moves on to the
/// next candidate, and past the last one the search is exhausted.
pub fn after_attempt(n_candidates: usize, current: usize, outcome: &Outcome) -> (r: SearchStep)
    requires
        current < n_candidates,
    ensures
        *outcome == Outcome::Success ==> r == SearchStep::Accepted(current),
        *outcome != Outcome::Success && current + 1 < n_candidates ==> r == SearchStep::Attempt(
            (current + 1) as usize,
        ),
        *outcome != Outcome::Success && current + 1 == n_candidates ==> r == SearchStep::Exhausted,
{
    match outcome {
        Outcome::Success => SearchStep::Accepted(current),
        _ => {
            if current + 1 < n_candidates {
                SearchStep::Attempt(current + 1)
            } else {
                SearchStep::Exhausted
            }
        },
    }
}

/// Whether a search goes on to another round of candidates.
#[derive(PartialEq, Eq, Structural, Debug, Clone, Copy)]
pub enum RoundStep {
    /// Generate the candidates of this round (with fresh solver-assisted
    /// candidates) and search them.
    Generate(usize),
    /// The search is over.
    Stop,
}

/// The step after round `round` (from 0) ended in `last`: an accepted
/// candidate stops the search; an exhausted round is followed by another
/// while rounds remain under `depth`, the number of solver-assisted rounds
/// that may follow the first.
pub fn after_round(round: usize, depth: usize, last: SearchStep) -> (r: RoundStep)
    requires
        !(last is Attempt),
    ensures
        last is Accepted ==> r == RoundStep::Stop,
        last is Exhausted && round < depth ==> r == RoundStep::Generate((round + 1) as usize),
        last is Exhausted && round >= depth ==> r == RoundStep::Stop,
{
    match last {
        SearchStep::Exhausted => {
            if round < depth {
                RoundStep::Generate(round + 1)
            } else {
                RoundStep::Stop
            }
        },
        _ => RoundStep::Stop,
    }
}

} // verus!
