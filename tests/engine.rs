use proofpatch_core::arxiv::{
    after_response, after_transport_error, clamp_max_results, max_retries_from, parse_arxiv_atom,
    FetchAction,
};
use proofpatch_core::config::{HintPack, HintRule, HintsConfig, HintsDefaults};
use proofpatch_core::derive_candidates_from_goal_pretty_with_hint_rules;
use proofpatch_core::hints::extract_goal_subject;
use proofpatch_core::search::{
    active_rules, after_attempt, after_round, plan_candidates, start_search, RoundStep, SearchStep,
};
use proofpatch_core::tree_search::{
    adapt_candidates_for_sorry_context, adapt_candidates_for_sorry_line, classify_outcome,
    extract_initial_goal_block, parse_json_string_array, replace_in_region_first,
    replace_in_region_once, sanitize_candidates, CandidateListError, Outcome, PatchError,
    MAX_CANDIDATES,
};

fn strings(xs: &[&str]) -> Vec<String> {
    xs.iter().map(|s| s.to_string()).collect()
}

#[test]
fn sanitize_trims_drops_blank_and_keeps_first_occurrence() {
    let xs = strings(&["  b  ", "\t\n", "a", "b", " a", "", "c"]);
    assert_eq!(sanitize_candidates(xs), strings(&["b", "a", "c"]));
}

#[test]
fn sanitize_caps_the_count() {
    let xs: Vec<String> = (0..MAX_CANDIDATES + 8).map(|i| format!("tac{i}")).collect();
    let out = sanitize_candidates(xs.clone());
    assert_eq!(out.len(), MAX_CANDIDATES);
    assert_eq!(out[..], xs[..MAX_CANDIDATES]);
}

#[test]
fn json_array_reads_the_same_plain_and_fenced() {
    let arr = "[\"by simp\", \"omega\"]";
    let fenced = format!("Sure.\n```json\n{arr}\n```\nmore text");
    let plain = parse_json_string_array(arr).unwrap();
    assert_eq!(plain, strings(&["by simp", "omega"]));
    assert_eq!(parse_json_string_array(&fenced).unwrap(), plain);
}

#[test]
fn json_that_is_not_a_string_array_is_refused() {
    assert_eq!(
        parse_json_string_array("[1, 2]"),
        Err(CandidateListError::NotStringArray)
    );
    assert_eq!(
        parse_json_string_array("no list here"),
        Err(CandidateListError::NotStringArray)
    );
    assert_eq!(
        parse_json_string_array("```json\n{\"a\": 1}\n```"),
        Err(CandidateListError::NotStringArray)
    );
}

#[test]
fn outcome_classification() {
    assert_eq!(classify_outcome(None), Outcome::Success);
    assert_eq!(
        classify_outcome(Some("error: linarith made no progress")),
        Outcome::NoProgress
    );
    assert_eq!(
        classify_outcome(Some("unknown identifier 'foo'")),
        Outcome::Error("unknown identifier 'foo'".to_string())
    );
}

#[test]
fn tactic_context_wraps_every_candidate() {
    let base = strings(&["by simp", "omega", "by\n  ring_nf\n  linarith"]);
    let out = adapt_candidates_for_sorry_context(&base, "  sorry", true);
    assert_eq!(
        out,
        strings(&["(simp; done)", "(omega; done)", "(ring_nf\n  linarith; done)"])
    );
}

#[test]
fn term_context_follows_the_line() {
    let base = strings(&["by simp", "bypass", "exact h"]);
    let out = adapt_candidates_for_sorry_context(&base, "  by   sorry  ", false);
    assert_eq!(out, strings(&["simp", "bypass", "exact h"]));
    let out = adapt_candidates_for_sorry_line(&base, "  exact sorry");
    assert_eq!(out, base);
}

#[test]
fn replace_once_changes_only_the_occurrence_inside_the_window() {
    let src = "a := by\n  sorry\n\nb := by\n  sorry\n";
    let out = replace_in_region_once(src, 4, 5, "sorry", "simp").unwrap();
    assert_eq!(out, "a := by\n  sorry\n\nb := by\n  simp\n");
}

#[test]
fn replace_once_reports_each_failure() {
    let src = "x\n  sorry\n  sorry\n";
    assert_eq!(
        replace_in_region_once(src, 2, 3, "sorry", "simp"),
        Err(PatchError::AmbiguousMatch)
    );
    assert_eq!(
        replace_in_region_once(src, 1, 1, "sorry", "simp"),
        Err(PatchError::NoMatch)
    );
    assert_eq!(
        replace_in_region_once(src, 3, 2, "sorry", "simp"),
        Err(PatchError::NoMatch)
    );
    assert_eq!(
        replace_in_region_once(src, 1, 3, "", "simp"),
        Err(PatchError::EmptyTarget)
    );
    assert_eq!(
        replace_in_region_once(src, 3, 3, "sorry", "simp").unwrap(),
        "x\n  sorry\n  simp\n"
    );
}

#[test]
fn replace_first_leaves_later_occurrences_byte_identical() {
    let src = "t := by\n  exact?\n  exact?\n";
    let out = replace_in_region_first(src, 1, 3, "exact?", "exact True.intro").unwrap();
    assert_eq!(out, "t := by\n  exact True.intro\n  exact?\n");
    assert_eq!(
        replace_in_region_first(src, 1, 1, "exact?", "x"),
        Err(PatchError::NoMatch)
    );
}

#[test]
fn end_to_end_patch_keeps_the_comment() {
    let src = "theorem t : True := by\n  exact?\n\n-- another exact?\n";
    let out = replace_in_region_once(src, 1, 2, "exact?", "exact True.intro").unwrap();
    assert_eq!(
        out,
        "theorem t : True := by\n  exact True.intro\n\n-- another exact?\n"
    );
}

#[test]
fn goal_block_is_exactly_the_indented_lines() {
    let s = "error: tactic 'aesop' failed\nInitial goal:\n  x : Nat\n  h : x > 0\n  ⊢ True\nFoo.lean:1:2: error: boom\n  trailing\n";
    assert_eq!(
        extract_initial_goal_block(s).unwrap(),
        "Initial goal:\n  x : Nat\n  h : x > 0\n  ⊢ True"
    );
    assert_eq!(extract_initial_goal_block("error: nothing to see"), None);
}

#[test]
fn binder_alignment_is_whole_token_only() {
    let rule = HintRule {
        when_contains_all: strings(&["⊢ Even"]),
        when_contains_any: strings(&["nope", "% 2"]),
        candidates: strings(&["exact even_of n n1 n.succ n_2", "decide"]),
    };
    let goal = "k : Nat\nhk : k % 2 = 0\n⊢ Even k";
    let out = derive_candidates_from_goal_pretty_with_hint_rules(goal, &[rule]);
    assert_eq!(out, strings(&["exact even_of k n1 k.succ n_2", "decide"]));
}

#[test]
fn binder_alignment_fails_closed_without_a_subject() {
    let rule = HintRule {
        when_contains_all: vec![],
        when_contains_any: vec![],
        candidates: strings(&["omega_nat n", "simp"]),
    };
    let out = derive_candidates_from_goal_pretty_with_hint_rules("⊢ (a + b) = c", &[rule]);
    assert_eq!(out, strings(&["simp"]));
    assert_eq!(extract_goal_subject("h : x = 1\n⊢ Odd x"), Some("x".to_string()));
    assert_eq!(extract_goal_subject("no target here"), None);
}

#[test]
fn unmatched_rule_contributes_nothing() {
    let rule = HintRule {
        when_contains_all: strings(&["⊢ Odd"]),
        when_contains_any: strings(&["% 8"]),
        candidates: strings(&["omega"]),
    };
    let out = derive_candidates_from_goal_pretty_with_hint_rules("⊢ Odd m", &[rule]);
    assert!(out.is_empty());
}

#[test]
fn enabled_packs_give_their_rules_in_order() {
    let rule = |c: &str| HintRule {
        when_contains_all: vec![],
        when_contains_any: vec![],
        candidates: strings(&[c]),
    };
    let hints = HintsConfig {
        defaults: HintsDefaults { enabled_packs: vec![] },
        packs: vec![
            ("base".to_string(), HintPack { rules: vec![rule("simp")] }),
            ("nt".to_string(), HintPack { rules: vec![rule("omega"), rule("decide")] }),
        ],
    };
    let rules = active_rules(&hints, &strings(&["nt", "missing", "base"]));
    let cands: Vec<String> = rules.iter().map(|r| r.candidates[0].clone()).collect();
    assert_eq!(cands, strings(&["omega", "decide", "simp"]));
}

#[test]
fn planning_orders_cuts_sanitizes_and_adapts() {
    let out = plan_candidates(
        &strings(&["by simp", " by simp "]),
        &strings(&["omega"]),
        &strings(&["decide", "trivial"]),
        4,
        "  by sorry",
        false,
    );
    assert_eq!(out, strings(&["simp", "omega", "decide"]));
}

#[test]
fn search_steps() {
    assert_eq!(start_search(0), SearchStep::Exhausted);
    assert_eq!(start_search(3), SearchStep::Attempt(0));
    assert_eq!(after_attempt(3, 1, &Outcome::Success), SearchStep::Accepted(1));
    assert_eq!(after_attempt(3, 1, &Outcome::NoProgress), SearchStep::Attempt(2));
    assert_eq!(after_attempt(3, 2, &Outcome::Timeout), SearchStep::Exhausted);
    assert_eq!(
        after_attempt(3, 0, &Outcome::Error("boom".to_string())),
        SearchStep::Attempt(1)
    );
}

const FEED: &str = "<feed><title>ArXiv Query</title>
<entry>
  <id>http://arxiv.org/abs/1234.5678v1</id>
  <published>2020-01-01T00:00:00Z</published>
  <title>  A   Study of
     Lattices </title>
  <summary>Short   abstract.</summary>
  <author><name> Ada Lovelace </name></author>
  <author><name>   </name></author>
  <author><name>Alan Turing</name></author>
  <link href=\"http://arxiv.org/abs/1234.5678v1\" rel=\"alternate\" type=\"text/html\"/>
  <link title=\"PDF\" href=\"http://arxiv.org/pdf/1234.5678v1\" rel=\"related\"/>
</entry>
<entry>
  <title>No id here</title>
</entry>
<entry>
  <id>http://arxiv.org/abs/2</id>
  <title type=\"html\">Second</title>
</entry>
</feed>";

#[test]
fn atom_feed_gives_papers_in_order() {
    let papers = parse_arxiv_atom(FEED, 10);
    assert_eq!(papers.len(), 2);
    let p = &papers[0];
    assert_eq!(p.title, "A Study of Lattices");
    assert_eq!(p.link, "http://arxiv.org/abs/1234.5678v1");
    assert_eq!(p.published.as_deref(), Some("2020-01-01T00:00:00Z"));
    assert_eq!(p.updated, None);
    assert_eq!(p.abstract_text, "Short abstract.");
    assert_eq!(p.authors, strings(&["Ada Lovelace", "Alan Turing"]));
    assert_eq!(p.pdf_url.as_deref(), Some("http://arxiv.org/pdf/1234.5678v1"));
    assert_eq!(papers[1].title, "Second");
    assert_eq!(papers[1].pdf_url, None);
}

#[test]
fn atom_feed_stops_at_the_bound() {
    assert_eq!(parse_arxiv_atom(FEED, 1).len(), 1);
    assert_eq!(parse_arxiv_atom(FEED, 0).len(), 1);
    assert!(parse_arxiv_atom("<feed></feed>", 5).is_empty());
}

#[test]
fn fetch_retry_policy() {
    assert_eq!(clamp_max_results(0), 1);
    assert_eq!(clamp_max_results(80), 50);
    assert_eq!(max_retries_from(None), 2);
    assert_eq!(max_retries_from(Some(" 4 ")), 4);
    assert_eq!(max_retries_from(Some("+9")), 6);
    assert_eq!(max_retries_from(Some("x")), 2);
    assert_eq!(max_retries_from(Some("99999999999")), 2);
    assert_eq!(after_response(0, 2, 200, None), FetchAction::ReadBody);
    assert_eq!(after_response(0, 2, 429, None), FetchAction::Sleep(1));
    assert_eq!(after_response(1, 2, 503, Some("3")), FetchAction::Sleep(3));
    assert_eq!(after_response(2, 6, 503, Some("60")), FetchAction::Sleep(8));
    assert_eq!(after_response(2, 2, 503, None), FetchAction::Fail);
    assert_eq!(after_response(0, 2, 404, None), FetchAction::Fail);
    assert_eq!(after_transport_error(3, 6), FetchAction::Sleep(8));
    assert_eq!(after_response(3, 6, 429, None), FetchAction::Sleep(8));
    assert_eq!(after_transport_error(2, 2), FetchAction::Fail);
}

#[test]
fn pdf_link_is_found_by_its_upper_case_title() {
    let feed = "<entry><id>http://arxiv.org/abs/9</id><title>T</title>\
        <link title=\"PDF\" href=\"http://arxiv.org/get/9\" rel=\"related\"/></entry>";
    let papers = parse_arxiv_atom(feed, 5);
    assert_eq!(papers.len(), 1);
    assert_eq!(papers[0].pdf_url.as_deref(), Some("http://arxiv.org/get/9"));
}

#[test]
fn plain_array_holding_backticks_still_reads() {
    let s = "[\"```\",\n\"```\"]";
    assert_eq!(parse_json_string_array(s).unwrap(), strings(&["```", "```"]));
}

#[test]
fn rounds_go_deeper_until_the_bound() {
    assert_eq!(after_round(0, 2, SearchStep::Exhausted), RoundStep::Generate(1));
    assert_eq!(after_round(1, 2, SearchStep::Exhausted), RoundStep::Generate(2));
    assert_eq!(after_round(2, 2, SearchStep::Exhausted), RoundStep::Stop);
    assert_eq!(after_round(0, 2, SearchStep::Accepted(3)), RoundStep::Stop);
}
