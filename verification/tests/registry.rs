//! The provider registry, the enable gate and the text primitives.

use jetbrains_search_provider::gate::{compute_disabled, EnableGate};
use jetbrains_search_provider::registry::{format_object_path, ServiceRegistry};
use jetbrains_search_provider::text::{contains_subslice, sort_byte_strings, to_lower};

fn bv(s: &str) -> Vec<u8> {
    s.as_bytes().to_vec()
}

#[test]
fn registry_lists_one_path_per_installed_application() {
    let installed = vec![bv("idea.desktop"), bv("clion.desktop")];
    let registry = ServiceRegistry::build(&bv("org/example/search"), &installed);
    assert_eq!(registry.entries.len(), 2);
    assert_eq!(registry.entries[0].app_id, bv("idea.desktop"));
    assert_eq!(registry.entries[0].object_path, bv("/org/example/search/idea_desktop"));
    assert_eq!(registry.entries[1].object_path, bv("/org/example/search/clion_desktop"));
}

#[test]
fn registry_routes_calls_by_application_id() {
    let installed = vec![bv("idea.desktop"), bv("clion.desktop")];
    let registry = ServiceRegistry::build(&bv("org/example/search"), &installed);
    assert_eq!(registry.find(&bv("clion.desktop")), Some(1));
    assert_eq!(registry.find(&bv("idea.desktop")), Some(0));
    assert_eq!(registry.find(&bv("rider.desktop")), None);
}

#[test]
fn gate_reads_fail_open() {
    let gate = EnableGate::new(true);
    // lock acquired: the stored flag answers
    assert_eq!(gate.read(true), true);
    // lock not acquired: the application counts as enabled
    assert_eq!(gate.read(false), false);
}

#[test]
fn gate_update_without_lock_is_dropped() {
    let mut gate = EnableGate::new(false);
    gate.apply_set(false, true);
    assert_eq!(gate.read(true), false);
    gate.apply_set(true, true);
    assert_eq!(gate.read(true), true);
}

#[test]
fn disabled_list_membership_decides_the_flag() {
    let disabled = vec![bv("idea.desktop"), bv("goland.desktop")];
    assert!(compute_disabled(&disabled, &bv("idea.desktop")));
    assert!(!compute_disabled(&disabled, &bv("clion.desktop")));
    let none: Vec<Vec<u8>> = Vec::new();
    assert!(!compute_disabled(&none, &bv("idea.desktop")));
}

#[test]
fn lower_casing_is_ascii_only() {
    assert_eq!(to_lower(&bv("MiXeD-Case_09")), bv("mixed-case_09"));
}

#[test]
fn substring_search_finds_needles() {
    assert!(contains_subslice(&bv("gradle-project"), &bv("le-pro")));
    assert!(contains_subslice(&bv("anything"), &bv("")));
    assert!(!contains_subslice(&bv("short"), &bv("longer-needle")));
    assert!(!contains_subslice(&bv("abcd"), &bv("bd")));
}

#[test]
fn provider_labels_sort_lexicographically() {
    let mut labels = vec![bv("Rider"), bv("CLion"), bv("IntelliJ IDEA"), bv("Android Studio")];
    sort_byte_strings(&mut labels);
    assert_eq!(
        labels,
        vec![bv("Android Studio"), bv("CLion"), bv("IntelliJ IDEA"), bv("Rider")]
    );
}
