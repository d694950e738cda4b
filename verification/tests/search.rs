//! The actor's query behaviour: gating, matching, ordering, capping,
//! metadata lookup and refresh outcomes.

use jetbrains_search_provider::actor::{
    RefreshOutcome, RefreshReport, SearchProviderActor, MAX_RESULTS,
};
use jetbrains_search_provider::gate::EnableGate;
use jetbrains_search_provider::index::ProjectRecord;

fn bv(s: &str) -> Vec<u8> {
    s.as_bytes().to_vec()
}

fn rec(id: &str, name: &str, path: &str, last_used: u64) -> ProjectRecord {
    ProjectRecord { id: bv(id), name: bv(name), path: bv(path), last_used }
}

fn sample_actor() -> SearchProviderActor {
    let mut actor = SearchProviderActor::new(bv("ide-icon"));
    let records = vec![
        rec("p1", "Alpha", "/projects/one", 100),
        rec("p2", "Beta", "/projects/two", 200),
    ];
    let report = actor.apply_refresh(RefreshOutcome::Loaded(records));
    assert_eq!(report, RefreshReport::Replaced);
    actor
}

#[test]
fn disabled_application_answers_empty() {
    let actor = sample_actor();
    let terms = vec![bv("a")];
    assert_eq!(actor.initial_search(true, &terms), Vec::<Vec<u8>>::new());
    let empty_terms: Vec<Vec<u8>> = Vec::new();
    assert_eq!(actor.initial_search(true, &empty_terms), Vec::<Vec<u8>>::new());
}

#[test]
fn initial_search_matches_case_insensitively() {
    let actor = sample_actor();
    // both names contain "a"; more recently used first
    let terms = vec![bv("a")];
    assert_eq!(actor.initial_search(false, &terms), vec![bv("p2"), bv("p1")]);
    let terms = vec![bv("ALPHA")];
    assert_eq!(actor.initial_search(false, &terms), vec![bv("p1")]);
}

#[test]
fn initial_search_without_match_is_empty() {
    let actor = sample_actor();
    let terms = vec![bv("zz")];
    assert_eq!(actor.initial_search(false, &terms), Vec::<Vec<u8>>::new());
}

#[test]
fn initial_search_matches_against_path_too() {
    let actor = sample_actor();
    let terms = vec![bv("/projects/TWO")];
    assert_eq!(actor.initial_search(false, &terms), vec![bv("p2")]);
}

#[test]
fn all_terms_must_match() {
    let actor = sample_actor();
    let terms = vec![bv("a"), bv("beta")];
    assert_eq!(actor.initial_search(false, &terms), vec![bv("p2")]);
    let terms = vec![bv("alpha"), bv("beta")];
    assert_eq!(actor.initial_search(false, &terms), Vec::<Vec<u8>>::new());
}

#[test]
fn empty_terms_list_every_project() {
    let actor = sample_actor();
    let empty_terms: Vec<Vec<u8>> = Vec::new();
    assert_eq!(actor.initial_search(false, &empty_terms), vec![bv("p2"), bv("p1")]);
}

#[test]
fn refresh_orders_by_last_used_then_id() {
    let mut actor = SearchProviderActor::new(bv("icon"));
    let records = vec![
        rec("b", "Two", "/t", 50),
        rec("c", "Three", "/u", 70),
        rec("a", "One", "/s", 50),
    ];
    actor.apply_refresh(RefreshOutcome::Loaded(records));
    let empty_terms: Vec<Vec<u8>> = Vec::new();
    assert_eq!(actor.initial_search(false, &empty_terms), vec![bv("c"), bv("a"), bv("b")]);
}

#[test]
fn results_are_capped() {
    let mut actor = SearchProviderActor::new(bv("icon"));
    let mut records = Vec::new();
    for i in 0..40u64 {
        records.push(rec(&format!("id{:02}", i), "Name", "/p", 1000 - i));
    }
    actor.apply_refresh(RefreshOutcome::Loaded(records));
    let empty_terms: Vec<Vec<u8>> = Vec::new();
    let r = actor.initial_search(false, &empty_terms);
    assert_eq!(r.len(), MAX_RESULTS);
    assert_eq!(r[0], bv("id00"));
    assert_eq!(r[MAX_RESULTS - 1], bv(&format!("id{:02}", MAX_RESULTS - 1)));
}

#[test]
fn subsearch_narrows_previous_results() {
    let actor = sample_actor();
    let prev = vec![bv("p2"), bv("p1")];
    let terms = vec![bv("alpha")];
    let r = actor.subsearch(false, &prev, &terms);
    assert_eq!(r, vec![bv("p1")]);
    for id in &r {
        assert!(prev.contains(id));
    }
}

#[test]
fn subsearch_ignores_ids_outside_previous() {
    let actor = sample_actor();
    // p2 would match "beta" but is not among the previous results
    let prev = vec![bv("p1")];
    let terms = vec![bv("beta")];
    assert_eq!(actor.subsearch(false, &prev, &terms), Vec::<Vec<u8>>::new());
}

#[test]
fn subsearch_is_gated_like_initial_search() {
    let actor = sample_actor();
    let prev = vec![bv("p2"), bv("p1")];
    let terms = vec![bv("a")];
    assert_eq!(actor.subsearch(true, &prev, &terms), Vec::<Vec<u8>>::new());
}

#[test]
fn result_metadata_is_idempotent() {
    let actor = sample_actor();
    let ids = vec![bv("p1"), bv("p2")];
    let first = actor.result_metadata(&ids);
    let second = actor.result_metadata(&ids);
    assert_eq!(first, second);
    assert_eq!(first.len(), 2);
    assert_eq!(first[0].id, bv("p1"));
    assert_eq!(first[0].name, bv("Alpha"));
    assert_eq!(first[0].description, bv("/projects/one"));
    assert_eq!(first[0].icon, bv("ide-icon"));
}

#[test]
fn result_metadata_omits_absent_ids() {
    let actor = sample_actor();
    let ids = vec![bv("p1"), bv("ghost"), bv("p2")];
    let metas = actor.result_metadata(&ids);
    assert_eq!(metas.len(), 2);
    assert_eq!(metas[0].id, bv("p1"));
    assert_eq!(metas[1].id, bv("p2"));
}

#[test]
fn disabling_between_searches_hides_results() {
    let actor = sample_actor();
    let mut gate = EnableGate::new(false);
    let terms = vec![bv("a")];
    let first = actor.initial_search(gate.read(true), &terms);
    assert_eq!(first, vec![bv("p2"), bv("p1")]);
    // the settings listener flips the flag between the two calls
    gate.apply_set(true, true);
    let second = actor.initial_search(gate.read(true), &terms);
    assert_eq!(second, Vec::<Vec<u8>>::new());
}

#[test]
fn failed_refresh_serves_previous_index() {
    let mut actor = sample_actor();
    let report = actor.apply_refresh(RefreshOutcome::ReadFailed);
    assert_eq!(report, RefreshReport::KeptPrevious);
    let terms = vec![bv("a")];
    assert_eq!(actor.initial_search(false, &terms), vec![bv("p2"), bv("p1")]);
}

#[test]
fn refresh_replaces_index_wholesale() {
    let mut actor = sample_actor();
    let records = vec![rec("q9", "Gamma", "/g", 10)];
    actor.apply_refresh(RefreshOutcome::Loaded(records));
    let empty_terms: Vec<Vec<u8>> = Vec::new();
    assert_eq!(actor.initial_search(false, &empty_terms), vec![bv("q9")]);
}

#[test]
fn activate_resolves_project_path() {
    let actor = sample_actor();
    assert_eq!(actor.activate(&bv("p2")), Some(bv("/projects/two")));
    assert_eq!(actor.activate(&bv("missing")), None);
}

#[test]
fn fresh_actor_has_empty_index() {
    let actor = SearchProviderActor::new(bv("icon"));
    let empty_terms: Vec<Vec<u8>> = Vec::new();
    assert_eq!(actor.initial_search(false, &empty_terms), Vec::<Vec<u8>>::new());
}
