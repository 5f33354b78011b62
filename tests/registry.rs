use chatroom::registry::NameRegistry;

#[test]
fn claim_free_name_succeeds() {
    let mut r = NameRegistry::new();
    assert!(r.claim("alice"));
    assert!(r.contains("alice"));
    assert_eq!(r.len(), 1);
}

#[test]
fn claim_held_name_fails_until_released() {
    let mut r = NameRegistry::new();
    assert!(r.claim("bob"));
    assert!(!r.claim("bob"));
    assert_eq!(r.len(), 1);
    r.release("bob");
    assert!(!r.contains("bob"));
    assert!(r.claim("bob"));
}

#[test]
fn release_unheld_name_is_noop() {
    let mut r = NameRegistry::new();
    assert!(r.claim("alice"));
    r.release("carol");
    r.release("carol");
    assert!(r.contains("alice"));
    assert_eq!(r.len(), 1);
    assert!(!r.claim("alice"));
    assert!(r.claim("carol"));
}

#[test]
fn release_leaves_other_names_held() {
    let mut r = NameRegistry::new();
    assert!(r.claim("a"));
    assert!(r.claim("b"));
    assert!(r.claim("c"));
    r.release("a");
    assert!(!r.contains("a"));
    assert!(r.contains("b"));
    assert!(r.contains("c"));
    assert_eq!(r.len(), 2);
}

#[test]
fn empty_name_is_an_ordinary_string_for_the_registry() {
    let mut r = NameRegistry::new();
    assert!(r.claim(""));
    assert!(!r.claim(""));
    r.release("");
    assert_eq!(r.len(), 0);
}
