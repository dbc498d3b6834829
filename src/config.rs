//! Configuration data: hint packs and their rules, research presets, and the
//! tree-search policy, with the merge of a preset over the defaults.

use vstd::prelude::*;
use crate::text::{strs_view, chars_of, chars_eq};

verus! {

/// The whole configuration of a repository.
#[derive(Debug, Clone)]
pub struct ProofpatchConfig {
    pub research: ResearchConfig,
    pub hints: HintsConfig,
}

/// Hint packs by name, and which of them are on by default.
#[derive(Debug, Clone)]
pub struct HintsConfig {
    pub defaults: HintsDefaults,
    /// Named packs, looked up by the first entry with a given name. A list
    /// rather than a `HashMap`: vstd specifies map lookups only for key types
    /// that obey its key model, and `String` is not one of them.
    pub packs: Vec<(String, HintPack)>,
}

#[derive(Debug, Clone)]
pub struct HintsDefaults {
    /// Hint packs enabled by default for this repository.
    pub enabled_packs: Vec<String>,
}

#[derive(Debug, Clone)]
pub struct HintPack {
    pub rules: Vec<HintRule>,
}

/// A trigger over goal text and the candidate scripts it proposes.
#[derive(Debug, Clone)]
pub struct HintRule {
    /// If non-empty, all of these substrings must appear in the goal text.
    pub when_contains_all: Vec<String>,
    /// If non-empty, at least one of these substrings must appear in the goal text.
    pub when_contains_any: Vec<String>,
    /// Candidate tactic scripts to try when this rule matches.
    pub candidates: Vec<String>,
}

/// Research presets by name, and the defaults they fall back on.
#[derive(Debug, Clone)]
pub struct ResearchConfig {
    pub defaults: ResearchDefaults,
    /// Named presets, looked up by the first entry with a given name. A list
    /// rather than a `HashMap`: vstd specifies map lookups only for key types
    /// that obey its key model, and `String` is not one of them.
    pub presets: Vec<(String, ResearchPreset)>,
}

#[derive(Debug, Clone)]
pub struct ResearchDefaults {
    pub max_results: Option<usize>,
    pub timeout_ms: Option<u64>,
    pub llm_summary: Option<bool>,
    pub llm_timeout_s: Option<u64>,
    pub llm_summary_kind: Option<String>,
    pub llm_max_top: Option<usize>,
    pub llm_max_list_items: Option<usize>,
    pub llm_max_str_chars: Option<usize>,
    /// Defaults for proof search behaviour.
    pub tree_search: Option<TreeSearchPolicy>,
}

/// Knobs of the proof search; an unset field means "use the built-in default".
#[derive(Debug, Clone)]
pub struct TreeSearchPolicy {
    pub goal_first_k: Option<usize>,
    pub smt_depth: Option<usize>,
    /// Hint packs to enable for goal-derived candidates.
    pub hint_packs: Option<Vec<String>>,
    /// Solver for linear-arithmetic checks: "auto", "z3", "cvc5", or a command line.
    pub smt_solver: Option<String>,
    pub smt_timeout_ms: Option<u64>,
    pub smt_explain: Option<bool>,
    pub smt_explain_max_hyps: Option<usize>,
}

#[derive(Debug, Clone)]
pub struct ResearchPreset {
    pub query: String,
    pub must_include_any: Vec<String>,
    /// Post-filter: all of these tokens must appear in title and abstract.
    pub must_include_all: Vec<String>,
    pub max_results: Option<usize>,
    pub timeout_ms: Option<u64>,
    pub llm_summary: Option<bool>,
    pub llm_timeout_s: Option<u64>,
    /// Which structured summary schema to request.
    pub llm_summary_kind: Option<String>,
    /// Cap: number of items in `top`.
    pub llm_max_top: Option<usize>,
    /// Cap: number of items in each string list.
    pub llm_max_list_items: Option<usize>,
    /// Cap: most characters per emitted string item.
    pub llm_max_str_chars: Option<usize>,
    /// Per-preset proof search policy.
    pub tree_search: Option<TreeSearchPolicy>,
}

/// A preset with every default filled in.
#[derive(Debug, Clone)]
pub struct ResearchPresetResolved {
    pub query: String,
    pub must_include_any: Vec<String>,
    pub must_include_all: Vec<String>,
    pub max_results: usize,
    pub timeout_ms: u64,
    pub llm_summary: bool,
    pub llm_timeout_s: u64,
    pub llm_summary_kind: Option<String>,
    pub llm_max_top: usize,
    pub llm_max_list_items: usize,
    pub llm_max_str_chars: usize,
    pub tree_search: Option<TreeSearchPolicy>,
}

/// The characters of an optional string.
pub open spec fn opt_str(o: Option<String>) -> Option<Seq<char>> {
    match o {
        Some(s) => Some(s@),
        None => None,
    }
}

/// The strings of an optional list.
pub open spec fn opt_strs(o: Option<Vec<String>>) -> Option<Seq<Seq<char>>> {
    match o {
        Some(v) => Some(strs_view(v@)),
        None => None,
    }
}

/// `a` when it is set, else `b`.
pub open spec fn or_spec<T>(a: Option<T>, b: Option<T>) -> Option<T> {
    if a is Some {
        a
    } else {
        b
    }
}

/// The value of a policy, with its texts as character sequences.
pub ghost struct PolicyView {
    pub goal_first_k: Option<usize>,
    pub smt_depth: Option<usize>,
    pub hint_packs: Option<Seq<Seq<char>>>,
    pub smt_solver: Option<Seq<char>>,
    pub smt_timeout_ms: Option<u64>,
    pub smt_explain: Option<bool>,
    pub smt_explain_max_hyps: Option<usize>,
}

impl View for TreeSearchPolicy {
    type V = PolicyView;

    open spec fn view(&self) -> PolicyView {
        PolicyView {
            goal_first_k: self.goal_first_k,
            smt_depth: self.smt_depth,
            hint_packs: opt_strs(self.hint_packs),
            smt_solver: opt_str(self.smt_solver),
            smt_timeout_ms: self.smt_timeout_ms,
            smt_explain: self.smt_explain,
            smt_explain_max_hyps: self.smt_explain_max_hyps,
        }
    }
}

/// The optional policy's value.
pub open spec fn opt_policy(o: Option<TreeSearchPolicy>) -> Option<PolicyView> {
    match o {
        Some(p) => Some(p@),
        None => None,
    }
}

/// `top` laid over `base`: each field set in `top` wins.
pub open spec fn overlay(base: PolicyView, top: PolicyView) -> PolicyView {
    PolicyView {
        goal_first_k: or_spec(top.goal_first_k, base.goal_first_k),
        smt_depth: or_spec(top.smt_depth, base.smt_depth),
        hint_packs: or_spec(top.hint_packs, base.hint_packs),
        smt_solver: or_spec(top.smt_solver, base.smt_solver),
        smt_timeout_ms: or_spec(top.smt_timeout_ms, base.smt_timeout_ms),
        smt_explain: or_spec(top.smt_explain, base.smt_explain),
        smt_explain_max_hyps: or_spec(top.smt_explain_max_hyps, base.smt_explain_max_hyps),
    }
}

/// The policy of a preset merged over the default policy: absent when both
/// are, else the preset's set fields over the defaults (or over an unset
/// policy).
pub open spec fn merged_policy(d: Option<PolicyView>, p: Option<PolicyView>) -> Option<PolicyView> {
    match (d, p) {
        (None, None) => None,
        (Some(dv), None) => Some(dv),
        (None, Some(pv)) => Some(pv),
        (Some(dv), Some(pv)) => Some(overlay(dv, pv)),
    }
}

/// The value of a resolved preset.
pub ghost struct ResolvedView {
    pub query: Seq<char>,
    pub must_include_any: Seq<Seq<char>>,
    pub must_include_all: Seq<Seq<char>>,
    pub max_results: usize,
    pub timeout_ms: u64,
    pub llm_summary: bool,
    pub llm_timeout_s: u64,
    pub llm_summary_kind: Option<Seq<char>>,
    pub llm_max_top: usize,
    pub llm_max_list_items: usize,
    pub llm_max_str_chars: usize,
    pub tree_search: Option<PolicyView>,
}

impl View for ResearchPresetResolved {
    type V = ResolvedView;

    open spec fn view(&self) -> ResolvedView {
        ResolvedView {
            query: self.query@,
            must_include_any: strs_view(self.must_include_any@),
            must_include_all: strs_view(self.must_include_all@),
            max_results: self.max_results,
            timeout_ms: self.timeout_ms,
            llm_summary: self.llm_summary,
            llm_timeout_s: self.llm_timeout_s,
            llm_summary_kind: opt_str(self.llm_summary_kind),
            llm_max_top: self.llm_max_top,
            llm_max_list_items: self.llm_max_list_items,
            llm_max_str_chars: self.llm_max_str_chars,
            tree_search: opt_policy(self.tree_search),
        }
    }
}

/// `o`'s value when set, else `dflt`.
pub open spec fn or_default<T>(o: Option<T>, dflt: T) -> T {
    match o {
        Some(v) => v,
        None => dflt,
    }
}

/// Preset `p` with each unset field taken from the defaults `d`, and from the
/// built-in defaults where neither sets it.
pub open spec fn resolved(p: ResearchPreset, d: ResearchDefaults) -> ResolvedView {
    ResolvedView {
        query: p.query@,
        must_include_any: strs_view(p.must_include_any@),
        must_include_all: strs_view(p.must_include_all@),
        max_results: or_default(or_spec(p.max_results, d.max_results), 8),
        timeout_ms: or_default(or_spec(p.timeout_ms, d.timeout_ms), 20_000),
        llm_summary: or_default(or_spec(p.llm_summary, d.llm_summary), false),
        llm_timeout_s: or_default(or_spec(p.llm_timeout_s, d.llm_timeout_s), 20),
        llm_summary_kind: or_spec(opt_str(p.llm_summary_kind), opt_str(d.llm_summary_kind)),
        llm_max_top: or_default(or_spec(p.llm_max_top, d.llm_max_top), 3),
        llm_max_list_items: or_default(or_spec(p.llm_max_list_items, d.llm_max_list_items), 12),
        llm_max_str_chars: or_default(or_spec(p.llm_max_str_chars, d.llm_max_str_chars), 160),
        tree_search: merged_policy(opt_policy(d.tree_search), opt_policy(p.tree_search)),
    }
}

/// Index of the first entry at or after `i` named `name`.
pub open spec fn index_from<T>(entries: Seq<(String, T)>, name: Seq<char>, i: int) -> Option<int>
    decreases entries.len() - i,
{
    if i < 0 || i >= entries.len() {
        None
    } else if entries[i].0@ == name {
        Some(i)
    } else {
        index_from(entries, name, i + 1)
    }
}

impl ResearchConfig {
    /// The preset named `name` with the defaults filled in; `None` when no
    /// preset has that name.
    pub fn resolve_preset(&self, name: &str) -> (r: Option<ResearchPresetResolved>)
        ensures
            r is None <==> index_from(self.presets@, name@, 0) is None,
            r matches Some(x) ==> x@ == resolved(
                self.presets@[index_from(self.presets@, name@, 0)->Some_0].1,
                self.defaults,
            ),
    {
        let key = chars_of(name);
        let mut i: usize = 0;
        while i < self.presets.len()
            invariant
                i <= self.presets@.len(),
                key@ == name@,
                index_from(self.presets@, name@, 0) == index_from(self.presets@, name@, i as int),
            decreases self.presets@.len() - i,
        {
            let ghost ps = self.presets@;
            let found = chars_eq(&chars_of(self.presets[i].0.as_str()), &key);
            assert(index_from(ps, name@, i as int) == if ps[i as int].0@ == name@ {
                Some(i as int)
            } else {
                index_from(ps, name@, i + 1)
            });
            if found {
                return Some(resolve_with(&self.presets[i].1, &self.defaults));
            }
            i = i + 1;
        }
        None
    }
}

fn default_max_results() -> (r: usize)
    ensures
        r == 8,
{
    8
}

fn default_timeout_ms() -> (r: u64)
    ensures
        r == 20_000,
{
    20_000
}

fn default_llm_timeout_s() -> (r: u64)
    ensures
        r == 20,
{
    20
}

fn default_llm_max_top() -> (r: usize)
    ensures
        r == 3,
{
    3
}

fn default_llm_max_list_items() -> (r: usize)
    ensures
        r == 12,
{
    12
}

fn default_llm_max_str_chars() -> (r: usize)
    ensures
        r == 160,
{
    160
}

pub(crate) fn copy_strs(v: &Vec<String>) -> (r: Vec<String>)
    ensures
        strs_view(r@) == strs_view(v@),
{
    let mut r: Vec<String> = Vec::new();
    let mut i: usize = 0;
    while i < v.len()
        invariant
            i <= v@.len(),
            strs_view(r@) == strs_view(v@).subrange(0, i as int),
        decreases v@.len() - i,
    {
        let ghost old_r = r@;
        r.push(v[i].clone());
        assert(strs_view(r@) =~= strs_view(old_r).push(v@[i as int]@));
        i = i + 1;
        assert(strs_view(r@) =~= strs_view(v@).subrange(0, i as int));
    }
    assert(strs_view(v@).subrange(0, i as int) =~= strs_view(v@));
    r
}

fn copy_opt_str(o: &Option<String>) -> (r: Option<String>)
    ensures
        opt_str(r) == opt_str(*o),
{
    match o {
        Some(s) => Some(s.clone()),
        None => None,
    }
}

fn copy_opt_strs(o: &Option<Vec<String>>) -> (r: Option<Vec<String>>)
    ensures
        opt_strs(r) == opt_strs(*o),
{
    match o {
        Some(v) => Some(copy_strs(v)),
        None => None,
    }
}

/// `top`'s set fields laid over `base`.
fn overlay_policy(base: &TreeSearchPolicy, top: &TreeSearchPolicy) -> (r: TreeSearchPolicy)
    ensures
        r@ == overlay(base@, top@),
{
    TreeSearchPolicy {
        goal_first_k: if top.goal_first_k.is_some() {
            top.goal_first_k
        } else {
            base.goal_first_k
        },
        smt_depth: if top.smt_depth.is_some() {
            top.smt_depth
        } else {
            base.smt_depth
        },
        hint_packs: if top.hint_packs.is_some() {
            copy_opt_strs(&top.hint_packs)
        } else {
            copy_opt_strs(&base.hint_packs)
        },
        smt_solver: if top.smt_solver.is_some() {
            copy_opt_str(&top.smt_solver)
        } else {
            copy_opt_str(&base.smt_solver)
        },
        smt_timeout_ms: if top.smt_timeout_ms.is_some() {
            top.smt_timeout_ms
        } else {
            base.smt_timeout_ms
        },
        smt_explain: if top.smt_explain.is_some() {
            top.smt_explain
        } else {
            base.smt_explain
        },
        smt_explain_max_hyps: if top.smt_explain_max_hyps.is_some() {
            top.smt_explain_max_hyps
        } else {
            base.smt_explain_max_hyps
        },
    }
}

fn unset_policy() -> (r: TreeSearchPolicy)
    ensures
        r@ == (PolicyView {
            goal_first_k: None,
            smt_depth: None,
            hint_packs: None,
            smt_solver: None,
            smt_timeout_ms: None,
            smt_explain: None,
            smt_explain_max_hyps: None,
        }),
{
    TreeSearchPolicy {
        goal_first_k: None,
        smt_depth: None,
        hint_packs: None,
        smt_solver: None,
        smt_timeout_ms: None,
        smt_explain: None,
        smt_explain_max_hyps: None,
    }
}

/// The preset's policy merged over the default policy.
fn merge_policies(d: &Option<TreeSearchPolicy>, p: &Option<TreeSearchPolicy>) -> (r: Option<
    TreeSearchPolicy,
>)
    ensures
        opt_policy(r) == merged_policy(opt_policy(*d), opt_policy(*p)),
{
    match (d, p) {
        (None, None) => None,
        (Some(dv), None) => Some(overlay_policy(&unset_policy(), dv)),
        (None, Some(pv)) => Some(overlay_policy(&unset_policy(), pv)),
        (Some(dv), Some(pv)) => Some(overlay_policy(dv, pv)),
    }
}

fn pick_usize(a: Option<usize>, b: Option<usize>, dflt: usize) -> (r: usize)
    ensures
        r == or_default(or_spec(a, b), dflt),
{
    match a {
        Some(v) => v,
        None => match b {
            Some(v) => v,
            None => dflt,
        },
    }
}

fn pick_u64(a: Option<u64>, b: Option<u64>, dflt: u64) -> (r: u64)
    ensures
        r == or_default(or_spec(a, b), dflt),
{
    match a {
        Some(v) => v,
        None => match b {
            Some(v) => v,
            None => dflt,
        },
    }
}

/// Preset `p` with its unset fields filled from `d` and the built-in defaults.
fn resolve_with(p: &ResearchPreset, d: &ResearchDefaults) -> (r: ResearchPresetResolved)
    ensures
        r@ == resolved(*p, *d),
{
    let llm_summary = match p.llm_summary {
        Some(v) => v,
        None => match d.llm_summary {
            Some(v) => v,
            None => false,
        },
    };
    let llm_summary_kind = if p.llm_summary_kind.is_some() {
        copy_opt_str(&p.llm_summary_kind)
    } else {
        copy_opt_str(&d.llm_summary_kind)
    };
    ResearchPresetResolved {
        query: p.query.clone(),
        must_include_any: copy_strs(&p.must_include_any),
        must_include_all: copy_strs(&p.must_include_all),
        max_results: pick_usize(p.max_results, d.max_results, default_max_results()),
        timeout_ms: pick_u64(p.timeout_ms, d.timeout_ms, default_timeout_ms()),
        llm_summary,
        llm_timeout_s: pick_u64(p.llm_timeout_s, d.llm_timeout_s, default_llm_timeout_s()),
        llm_summary_kind,
        llm_max_top: pick_usize(p.llm_max_top, d.llm_max_top, default_llm_max_top()),
        llm_max_list_items: pick_usize(
            p.llm_max_list_items,
            d.llm_max_list_items,
            default_llm_max_list_items(),
        ),
        llm_max_str_chars: pick_usize(
            p.llm_max_str_chars,
            d.llm_max_str_chars,
            default_llm_max_str_chars(),
        ),
        tree_search: merge_policies(&d.tree_search, &p.tree_search),
    }
}

} // verus!
