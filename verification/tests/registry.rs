use envhist::registry::SessionRegistry;
use envhist::session::Timestamp;

fn at(secs: i64) -> Timestamp {
    Timestamp::new(secs, 0)
}

#[test]
fn a_new_registry_knows_no_session() {
    let registry = SessionRegistry::new();
    assert_eq!(registry.len(), 0);
    assert_eq!(registry.get(1), None);
    assert!(!registry.contains(1));
}

#[test]
fn resolve_makes_a_session_once() {
    let mut registry = SessionRegistry::new();
    let first = registry.resolve_with(100, "zsh", 7, at(10));
    assert_eq!((first.id, first.pid, first.started_at, first.last_updated), (7, 100, at(10), at(10)));
    assert_eq!(first.shell, "zsh");
    assert_eq!(registry.len(), 1);
    // however often it is asked for, with whatever is offered, the answer is the first session
    for n in 0..20u32 {
        let again = registry.resolve_with(100, "bash", 1000 + n as u128, at(50 + n as i64));
        assert_eq!(again, first);
    }
    assert_eq!(registry.len(), 1);
    assert_eq!(registry.get(100), Some(first));
}

#[test]
fn resolve_with_a_random_identifier_is_stable_too() {
    let mut registry = SessionRegistry::new();
    let first = registry.resolve(100, "zsh");
    assert_eq!(first.pid, 100);
    assert_eq!(first.shell, "zsh");
    assert_eq!(first.started_at, first.last_updated);
    for _ in 0..10 {
        assert_eq!(registry.resolve(100, "zsh").id, first.id);
    }
    assert_eq!(registry.len(), 1);
    let other = registry.resolve(101, "zsh");
    assert_ne!(other.id, first.id);
    assert_eq!(registry.len(), 2);
}

#[test]
fn get_makes_nothing() {
    let mut registry = SessionRegistry::new();
    registry.resolve_with(1, "sh", 1, at(1));
    assert_eq!(registry.get(2), None);
    assert_eq!(registry.len(), 1);
    assert!(registry.contains(1));
    assert!(!registry.contains(2));
}

#[test]
fn touch_of_an_unknown_process_makes_nothing() {
    let mut registry = SessionRegistry::new();
    registry.touch_at(5, at(9));
    registry.touch(5);
    assert_eq!(registry.len(), 0);
    assert_eq!(registry.get(5), None);
}

#[test]
fn touch_moves_the_last_update_of_that_session_only() {
    let mut registry = SessionRegistry::new();
    let a = registry.resolve_with(1, "sh", 11, at(10));
    let b = registry.resolve_with(2, "sh", 22, at(10));
    registry.touch_at(1, at(20));
    let touched = registry.get(1).unwrap();
    assert_eq!(touched.last_updated, at(20));
    assert_eq!((touched.id, touched.pid, touched.started_at), (a.id, a.pid, a.started_at));
    assert_eq!(registry.get(2), Some(b));
    // never back
    registry.touch_at(1, at(15));
    assert_eq!(registry.get(1).unwrap().last_updated, at(20));
    registry.touch(1);
    assert!(at(20).is_at_or_before(&registry.get(1).unwrap().last_updated));
    assert_eq!(registry.len(), 2);
}
