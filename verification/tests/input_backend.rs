use disturbar::input_backend::{BackendSignal, KeyTracker, TrackedKey};

fn is(sig: &Option<BackendSignal>, expected: Option<BackendSignal>) -> bool {
    match (sig, expected) {
        (None, None) => true,
        (Some(BackendSignal::Show), Some(BackendSignal::Show)) => true,
        (Some(BackendSignal::Hide), Some(BackendSignal::Hide)) => true,
        (Some(BackendSignal::DetailOn), Some(BackendSignal::DetailOn)) => true,
        (Some(BackendSignal::DetailOff), Some(BackendSignal::DetailOff)) => true,
        _ => false,
    }
}

#[test]
fn super_shows_and_hides_the_bar() {
    let mut t = KeyTracker::new();
    let a = t.handle_key(TrackedKey::LeftMeta, true);
    assert!(is(&a.visibility, Some(BackendSignal::Show)));
    assert!(is(&a.detail, None));
    let a = t.handle_key(TrackedKey::RightMeta, true);
    assert!(is(&a.visibility, None));
    let a = t.handle_key(TrackedKey::LeftMeta, false);
    assert!(is(&a.visibility, None));
    let a = t.handle_key(TrackedKey::RightMeta, false);
    assert!(is(&a.visibility, Some(BackendSignal::Hide)));
}

#[test]
fn shift_shows_details_only_while_visible() {
    let mut t = KeyTracker::new();
    let a = t.handle_key(TrackedKey::LeftShift, true);
    assert!(is(&a.visibility, None));
    assert!(is(&a.detail, None));
    let a = t.handle_key(TrackedKey::RightMeta, true);
    assert!(is(&a.visibility, Some(BackendSignal::Show)));
    assert!(is(&a.detail, Some(BackendSignal::DetailOn)));
    let a = t.handle_key(TrackedKey::RightMeta, false);
    assert!(is(&a.visibility, Some(BackendSignal::Hide)));
    assert!(is(&a.detail, Some(BackendSignal::DetailOff)));
}

#[test]
fn releasing_an_idle_key_sends_nothing() {
    let mut t = KeyTracker::new();
    let a = t.handle_key(TrackedKey::RightShift, false);
    assert!(is(&a.visibility, None));
    assert!(is(&a.detail, None));
}

#[test]
fn press_then_release_returns_to_start() {
    let mut t = KeyTracker::new();
    let a = t.handle_key(TrackedKey::LeftMeta, true);
    assert!(is(&a.visibility, Some(BackendSignal::Show)));
    let a = t.handle_key(TrackedKey::LeftMeta, false);
    assert!(is(&a.visibility, Some(BackendSignal::Hide)));
    let a = t.handle_key(TrackedKey::LeftMeta, true);
    assert!(is(&a.visibility, Some(BackendSignal::Show)));
}
