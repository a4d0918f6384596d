use xact::cancel::CancelRegistry;

#[test]
fn cancel_signals_the_children_still_running() {
    let mut registry = CancelRegistry::new();
    assert!(!registry.is_cancelled());
    registry.register(10);
    registry.register(20);
    registry.register(30);
    registry.unregister(20);
    assert_eq!(registry.cancel_all(), vec![10, 30]);
    assert!(registry.is_cancelled());
}

#[test]
fn reset_clears_the_mark_and_keeps_children() {
    let mut registry = CancelRegistry::new();
    registry.register(7);
    let _ = registry.cancel_all();
    registry.reset();
    assert!(!registry.is_cancelled());
    assert_eq!(registry.cancel_all(), vec![7]);
}

#[test]
fn unregistering_an_unknown_child_changes_nothing() {
    let mut registry = CancelRegistry::new();
    registry.register(5);
    registry.unregister(6);
    assert_eq!(registry.cancel_all(), vec![5]);
}
