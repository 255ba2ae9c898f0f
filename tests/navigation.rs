use visor_imagenes::NavigationManager;

fn paths(names: &[&str]) -> Vec<String> {
    names.iter().map(|n| n.to_string()).collect()
}

#[test]
fn next_then_previous_returns_to_the_same_index() {
    let mut nav = NavigationManager::new();
    nav.set_images(paths(&["a", "b", "c"]), 1);
    assert!(nav.next());
    assert_eq!(nav.current_index(), 2);
    assert!(nav.previous());
    assert_eq!(nav.current_index(), 1);
}

#[test]
fn previous_at_first_index_is_refused() {
    let mut nav = NavigationManager::new();
    nav.set_images(paths(&["a", "b", "c"]), 0);
    assert!(!nav.can_go_previous());
    assert!(!nav.previous());
    assert_eq!(nav.current_index(), 0);
}

#[test]
fn next_at_last_index_is_refused() {
    let mut nav = NavigationManager::new();
    nav.set_images(paths(&["a", "b", "c"]), 2);
    assert!(!nav.can_go_next());
    assert!(!nav.next());
    assert_eq!(nav.current_index(), 2);
    assert_eq!(nav.current_path().map(|p| p.as_str()), Some("c"));
}

#[test]
fn set_images_clamps_the_initial_index() {
    let mut nav = NavigationManager::new();
    nav.set_images(paths(&["a", "b"]), 7);
    assert_eq!(nav.current_index(), 1);
    nav.set_images(Vec::new(), 3);
    assert_eq!(nav.current_index(), 0);
    assert!(nav.is_empty());
    assert_eq!(nav.current_path(), None);
}

#[test]
fn empty_navigation_has_no_moves() {
    let mut nav = NavigationManager::new();
    assert!(nav.is_empty());
    assert_eq!(nav.total_images(), 0);
    assert!(!nav.can_go_next());
    assert!(!nav.can_go_previous());
    assert!(!nav.next());
    assert!(!nav.previous());
    assert_eq!(nav.current_path(), None);
}

#[test]
fn clear_forgets_the_images() {
    let mut nav = NavigationManager::new();
    nav.set_images(paths(&["a", "b", "c"]), 2);
    assert_eq!(nav.total_images(), 3);
    assert_eq!(nav.image_paths().len(), 3);
    nav.clear();
    assert!(nav.is_empty());
    assert_eq!(nav.current_index(), 0);
    assert!(nav.image_paths().is_empty());
}
