use visor_imagenes::InFlightSet;

fn paths(names: &[&str]) -> Vec<String> {
    names.iter().map(|n| n.to_string()).collect()
}

#[test]
fn overlapping_batches_share_no_path() {
    let mut set = InFlightSet::new();
    let first = set.claim_batch(paths(&["b", "a", "c"]));
    let second = set.claim_batch(paths(&["c", "d", "b", "e"]));
    assert_eq!(first, paths(&["b", "a", "c"]));
    assert_eq!(second, paths(&["d", "e"]));
    assert_eq!(set.len(), 5);
}

#[test]
fn batch_with_repeats_claims_each_path_once() {
    let mut set = InFlightSet::new();
    assert_eq!(set.claim_batch(paths(&["a", "a", "b", "a"])), paths(&["a", "b"]));
}

#[test]
fn finished_path_can_be_claimed_again() {
    let mut set = InFlightSet::new();
    assert!(set.try_begin("a".to_string()));
    assert!(!set.try_begin("a".to_string()));
    assert!(set.contains("a"));
    assert!(set.finish("a"));
    assert!(!set.contains("a"));
    assert!(!set.finish("a"));
    assert!(set.try_begin("a".to_string()));
}
