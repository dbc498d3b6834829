use proofpatch_core::config;

fn empty_defaults() -> config::ResearchDefaults {
    config::ResearchDefaults {
        max_results: None,
        timeout_ms: None,
        llm_summary: None,
        llm_timeout_s: None,
        llm_summary_kind: None,
        llm_max_top: None,
        llm_max_list_items: None,
        llm_max_str_chars: None,
        tree_search: None,
    }
}

fn preset(query: &str) -> config::ResearchPreset {
    config::ResearchPreset {
        query: query.to_string(),
        must_include_any: vec![],
        must_include_all: vec![],
        max_results: None,
        timeout_ms: None,
        llm_summary: None,
        llm_timeout_s: None,
        llm_summary_kind: None,
        llm_max_top: None,
        llm_max_list_items: None,
        llm_max_str_chars: None,
        tree_search: None,
    }
}

fn unset_policy() -> config::TreeSearchPolicy {
    config::TreeSearchPolicy {
        goal_first_k: None,
        smt_depth: None,
        hint_packs: None,
        smt_solver: None,
        smt_timeout_ms: None,
        smt_explain: None,
        smt_explain_max_hyps: None,
    }
}

// [research.presets.demo]
// query = "LLL swap count"
// must_include_any = ["lll"]
// must_include_all = ["swap", "count"]
#[test]
fn research_preset_accepts_must_include_all() {
    let mut demo = preset("LLL swap count");
    demo.must_include_any = vec!["lll".to_string()];
    demo.must_include_all = vec!["swap".to_string(), "count".to_string()];
    let research = config::ResearchConfig {
        defaults: empty_defaults(),
        presets: vec![("demo".to_string(), demo)],
    };
    let p = research.resolve_preset("demo").expect("preset");
    assert_eq!(p.query, "LLL swap count");
    assert_eq!(p.must_include_any, vec!["lll"]);
    assert_eq!(p.must_include_all, vec!["swap", "count"]);
}

// [research.defaults.tree_search]
// goal_first_k = 5, smt_depth = 2, smt_solver = "z3", smt_timeout_ms = 2500,
// smt_explain = true, smt_explain_max_hyps = 9, hint_packs = ["base"]
// [research.presets.demo]
// query = "LLL swap count"
// [research.presets.demo.tree_search]
// goal_first_k = 7, smt_solver = "cvc5", smt_timeout_ms = 4000, hint_packs = ["demo"]
#[test]
fn research_preset_merges_tree_search_defaults() {
    let mut defaults = empty_defaults();
    defaults.tree_search = Some(config::TreeSearchPolicy {
        goal_first_k: Some(5),
        smt_depth: Some(2),
        hint_packs: Some(vec!["base".to_string()]),
        smt_solver: Some("z3".to_string()),
        smt_timeout_ms: Some(2500),
        smt_explain: Some(true),
        smt_explain_max_hyps: Some(9),
    });
    let mut demo = preset("LLL swap count");
    let mut ts_demo = unset_policy();
    ts_demo.goal_first_k = Some(7);
    ts_demo.smt_solver = Some("cvc5".to_string());
    ts_demo.smt_timeout_ms = Some(4000);
    ts_demo.hint_packs = Some(vec!["demo".to_string()]);
    demo.tree_search = Some(ts_demo);
    let research = config::ResearchConfig {
        defaults,
        presets: vec![("demo".to_string(), demo)],
    };
    let p = research.resolve_preset("demo").expect("preset");
    let ts = p.tree_search.expect("tree_search");
    assert_eq!(ts.goal_first_k, Some(7));
    assert_eq!(ts.smt_depth, Some(2));
    assert_eq!(ts.smt_solver.as_deref(), Some("cvc5"));
    assert_eq!(ts.smt_timeout_ms, Some(4000));
    assert_eq!(ts.smt_explain, Some(true));
    assert_eq!(ts.smt_explain_max_hyps, Some(9));
    let expected = vec!["demo".to_string()];
    assert_eq!(ts.hint_packs.as_deref(), Some(expected.as_slice()));
}
