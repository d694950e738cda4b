//! Launch tickets: scope naming, the attempt counter and outcome
//! classification.

use jetbrains_search_provider::launch::{
    classify_launch, format_scope_name, u64_to_decimal, LaunchService, LaunchStatus, ScopeSettings,
};

fn bv(s: &str) -> Vec<u8> {
    s.as_bytes().to_vec()
}

#[test]
fn decimal_rendering_is_exact() {
    assert_eq!(u64_to_decimal(0), bv("0"));
    assert_eq!(u64_to_decimal(7), bv("7"));
    assert_eq!(u64_to_decimal(10), bv("10"));
    assert_eq!(u64_to_decimal(1234567890), bv("1234567890"));
    assert_eq!(u64_to_decimal(u64::MAX), bv("18446744073709551615"));
}

#[test]
fn scope_names_are_deterministic() {
    let name = format_scope_name(&bv("app-search"), &bv("ide.desktop"), 7);
    assert_eq!(name, bv("app-search-ide.desktop-7.scope"));
}

#[test]
fn scope_names_escape_odd_bytes() {
    let name = format_scope_name(&bv("app-search"), &bv("my ide!v2"), 0);
    assert_eq!(name, bv("app-search-my_ide_v2-0.scope"));
}

#[test]
fn tickets_advance_the_counter_and_stay_distinct() {
    let settings = ScopeSettings {
        prefix: bv("app-search"),
        started_by: bv("search-provider"),
        documentation: vec![bv("https://example.invalid/docs")],
    };
    let mut service = LaunchService::new();
    let first = service.next_ticket(&settings, &bv("ide.desktop"), Some(bv("/projects/one")));
    let second = service.next_ticket(&settings, &bv("ide.desktop"), None);
    assert_eq!(first.app_id, bv("ide.desktop"));
    assert_eq!(first.project_path, Some(bv("/projects/one")));
    assert_eq!(first.started_by, bv("search-provider"));
    assert_eq!(first.scope_name, bv("app-search-ide.desktop-0.scope"));
    assert_eq!(second.project_path, None);
    assert_eq!(second.scope_name, bv("app-search-ide.desktop-1.scope"));
    assert_ne!(first.scope_name, second.scope_name);
}

#[test]
fn only_a_failed_spawn_fails_the_launch() {
    assert_eq!(classify_launch(false, false), LaunchStatus::SpawnFailed);
    assert_eq!(classify_launch(false, true), LaunchStatus::SpawnFailed);
    assert_eq!(classify_launch(true, true), LaunchStatus::Launched);
    // registration is best-effort: the process still runs
    assert_eq!(classify_launch(true, false), LaunchStatus::LaunchedUnregistered);
}
