//! The keyboard watcher's decisions: the bar shows while a Super key is
//! held, and shows details while a Shift key is held as well.

use vstd::prelude::*;

verus! {

/// The keys the watcher follows.
pub enum TrackedKey {
    LeftMeta,
    RightMeta,
    LeftShift,
    RightShift,
}

/// The requests the watcher sends to the bar.
pub enum BackendSignal {
    Show,
    Hide,
    DetailOn,
    DetailOff,
}

/// Which keys are down, and what the bar was last told.
pub struct KeyTracker {
    left_meta: bool,
    right_meta: bool,
    left_shift: bool,
    right_shift: bool,
    visible: bool,
    detail: bool,
}

/// What a `KeyTracker` holds.
pub struct KeysHeld {
    pub left_meta: bool,
    pub right_meta: bool,
    pub left_shift: bool,
    pub right_shift: bool,
    pub visible: bool,
    pub detail: bool,
}

/// The signals that one key event calls for.
pub struct KeyActions {
    /// `Show` or `Hide`, when the bar's visibility changes.
    pub visibility: Option<BackendSignal>,
    /// `DetailOn` or `DetailOff`, when detail mode changes.
    pub detail: Option<BackendSignal>,
}

/// The bar is meant to be visible exactly while a Super key is held, and in
/// detail mode exactly while it is visible and a Shift key is held.
pub open spec fn consistent(k: KeysHeld) -> bool {
    &&& k.visible == (k.left_meta || k.right_meta)
    &&& k.detail == (k.visible && (k.left_shift || k.right_shift))
}

/// The keys held after `key` went down (`pressed`) or up.
pub open spec fn with_key(k: KeysHeld, key: TrackedKey, pressed: bool) -> KeysHeld {
    match key {
        TrackedKey::LeftMeta => KeysHeld { left_meta: pressed, ..k },
        TrackedKey::RightMeta => KeysHeld { right_meta: pressed, ..k },
        TrackedKey::LeftShift => KeysHeld { left_shift: pressed, ..k },
        TrackedKey::RightShift => KeysHeld { right_shift: pressed, ..k },
    }
}

/// The state after an event: the keys as they now are, and what the bar
/// has been told.
pub open spec fn after_key(k: KeysHeld, key: TrackedKey, pressed: bool) -> KeysHeld {
    let held = with_key(k, key, pressed);
    let visible = held.left_meta || held.right_meta;
    KeysHeld { visible, detail: visible && (held.left_shift || held.right_shift), ..held }
}

/// The signal to send when the value a signal stands for changes.
pub open spec fn change_signal(before: bool, after: bool, on: BackendSignal, off: BackendSignal) -> Option<
    BackendSignal,
> {
    if before == after {
        None
    } else if after {
        Some(on)
    } else {
        Some(off)
    }
}

impl View for KeyTracker {
    type V = KeysHeld;

    closed spec fn view(&self) -> KeysHeld {
        KeysHeld {
            left_meta: self.left_meta,
            right_meta: self.right_meta,
            left_shift: self.left_shift,
            right_shift: self.right_shift,
            visible: self.visible,
            detail: self.detail,
        }
    }
}

impl KeyTracker {
    #[verifier::type_invariant]
    closed spec fn keeps_consistent(self) -> bool {
        consistent(self@)
    }

    /// No key down, bar hidden.
    pub fn new() -> (t: KeyTracker)
        ensures
            t@ == (KeysHeld {
                left_meta: false,
                right_meta: false,
                left_shift: false,
                right_shift: false,
                visible: false,
                detail: false,
            }),
    {
        KeyTracker {
            left_meta: false,
            right_meta: false,
            left_shift: false,
            right_shift: false,
            visible: false,
            detail: false,
        }
    }

    /// Records that `key` went down (`pressed`) or up, and says which
    /// signals to send.
    pub fn handle_key(&mut self, key: TrackedKey, pressed: bool) -> (actions: KeyActions)
        ensures
            final(self)@ == after_key(old(self)@, key, pressed),
            consistent(final(self)@),
            actions.visibility == change_signal(
                old(self)@.visible,
                final(self)@.visible,
                BackendSignal::Show,
                BackendSignal::Hide,
            ),
            actions.detail == change_signal(
                old(self)@.detail,
                final(self)@.detail,
                BackendSignal::DetailOn,
                BackendSignal::DetailOff,
            ),
    {
        proof {
            use_type_invariant(&*self);
        }
        let mut left_meta = self.left_meta;
        let mut right_meta = self.right_meta;
        let mut left_shift = self.left_shift;
        let mut right_shift = self.right_shift;
        match key {
            TrackedKey::LeftMeta => left_meta = pressed,
            TrackedKey::RightMeta => right_meta = pressed,
            TrackedKey::LeftShift => left_shift = pressed,
            TrackedKey::RightShift => right_shift = pressed,
        }
        let next_visible = left_meta || right_meta;
        let visibility = if next_visible != self.visible {
            if next_visible {
                Some(BackendSignal::Show)
            } else {
                Some(BackendSignal::Hide)
            }
        } else {
            None
        };
        let next_detail = next_visible && (left_shift || right_shift);
        let detail = if next_detail != self.detail {
            if next_detail {
                Some(BackendSignal::DetailOn)
            } else {
                Some(BackendSignal::DetailOff)
            }
        } else {
            None
        };
        *self = KeyTracker {
            left_meta,
            right_meta,
            left_shift,
            right_shift,
            visible: next_visible,
            detail: next_detail,
        };
        KeyActions { visibility, detail }
    }
}

/// Whatever keys go down and up, the bar is told to show exactly while a
/// Super key is held, and to show details exactly while a Shift key is held
/// too.
pub proof fn law_tracker_stays_consistent(k: KeysHeld, key: TrackedKey, pressed: bool)
    requires
        consistent(k),
    ensures
        consistent(after_key(k, key, pressed)),
{
}

/// Releasing a key that was not down changes nothing and sends nothing.
pub proof fn law_release_of_idle_key_is_silent(k: KeysHeld, key: TrackedKey)
    requires
        consistent(k),
        !(match key {
            TrackedKey::LeftMeta => k.left_meta,
            TrackedKey::RightMeta => k.right_meta,
            TrackedKey::LeftShift => k.left_shift,
            TrackedKey::RightShift => k.right_shift,
        }),
    ensures
        after_key(k, key, false) == k,
{
}

/// Pressing a key that was up and releasing it again leaves the tracker as
/// it was.
pub proof fn law_press_then_release_restores(k: KeysHeld, key: TrackedKey)
    requires
        consistent(k),
        !(match key {
            TrackedKey::LeftMeta => k.left_meta,
            TrackedKey::RightMeta => k.right_meta,
            TrackedKey::LeftShift => k.left_shift,
            TrackedKey::RightShift => k.right_shift,
        }),
    ensures
        after_key(after_key(k, key, true), key, false) == k,
{
}

} // verus!
