//! Key-press rate limiting: an initial press registers at once, holding the
//! key waits out a repeat delay, and every registered press is spaced by a
//! minimum delay. Time is a millisecond count supplied by the front end, so
//! the gating logic itself is deterministic.

use vstd::prelude::*;

verus! {

#[derive(Clone, Copy, PartialEq, Eq, Structural, Debug)]
pub enum KeyState {
    PRESSED,
    HOLD,
    RELEASED,
}

/// Key press with a repeat delay.
#[derive(Clone, Copy, PartialEq, Eq, Structural, Debug)]
pub struct KeyPress {
    pub min_delay_ms: u64,
    pub last_press_time: Option<u64>,
    /// True if key was just pressed and needs to wait for repeat delay.
    pub state: KeyState,
    pub repeat_delay_ms: u64,
}

impl KeyPress {
    pub fn new(min_delay_ms: u64, repeat_delay_ms: u64) -> (k: KeyPress)
        ensures
            k == (KeyPress {
                min_delay_ms,
                last_press_time: None,
                state: KeyState::RELEASED,
                repeat_delay_ms,
            }),
    {
        KeyPress { min_delay_ms, last_press_time: None, state: KeyState::RELEASED, repeat_delay_ms }
    }
}

/// Whether a press registers at `now_ms`, given the key's history.
pub open spec fn press_allowed(k: KeyPress, now_ms: u64) -> bool {
    match k.last_press_time {
        None => true,
        Some(last) => {
            let elapsed = if now_ms >= last {
                now_ms - last
            } else {
                0
            };
            &&& (k.state is PRESSED ==> elapsed >= k.repeat_delay_ms)
            &&& elapsed >= k.min_delay_ms
        },
    }
}

/// What one gating step leaves in the key record when the key is held down.
pub open spec fn pressed_key(k: KeyPress, now_ms: u64) -> KeyPress {
    if press_allowed(k, now_ms) {
        KeyPress {
            last_press_time: Some(now_ms),
            state: if k.last_press_time is Some && k.state is PRESSED {
                KeyState::HOLD
            } else if k.state is RELEASED {
                KeyState::PRESSED
            } else {
                k.state
            },
            ..k
        }
    } else {
        KeyPress {
            state: if k.state is PRESSED && (match k.last_press_time {
                Some(last) => (if now_ms >= last {
                    now_ms - last
                } else {
                    0
                }) >= k.repeat_delay_ms,
                None => true,
            }) {
                KeyState::HOLD
            } else {
                k.state
            },
            ..k
        }
    }
}

/// Gates one press of a held key: allows it exactly when both the repeat
/// delay (for a freshly pressed key) and the minimum delay have elapsed,
/// recording the press time and moving the press state along. A clock that
/// went backwards counts as no time elapsed.
pub fn can_press(key: &mut KeyPress, now_ms: u64) -> (allowed: bool)
    ensures
        allowed == press_allowed(*old(key), now_ms),
        *final(key) == pressed_key(*old(key), now_ms),
{
    match key.last_press_time {
        Some(last) => {
            let elapsed: u64 = if now_ms >= last {
                now_ms - last
            } else {
                0
            };
            if matches!(key.state, KeyState::PRESSED) {
                if elapsed < key.repeat_delay_ms {
                    return false;
                } else {
                    key.state = KeyState::HOLD;
                }
            }
            if elapsed < key.min_delay_ms {
                return false;
            }
        },
        None => {},
    }
    key.last_press_time = Some(now_ms);
    if matches!(key.state, KeyState::RELEASED) {
        key.state = KeyState::PRESSED;
    }
    true
}

/// Tries to press a key: when the physical key is down, the press is gated by
/// its `KeyPress` record; when it is up, the record falls back to released.
/// The front end polls the physical state and supplies it here.
pub fn try_press(pressed: bool, key_press: &mut KeyPress, now_ms: u64) -> (registered: bool)
    ensures
        pressed ==> registered == press_allowed(*old(key_press), now_ms) && *final(key_press)
            == pressed_key(*old(key_press), now_ms),
        !pressed ==> !registered && *final(key_press) == (KeyPress {
            state: KeyState::RELEASED,
            ..*old(key_press)
        }),
{
    if pressed {
        return can_press(key_press, now_ms);
    }
    key_press.state = KeyState::RELEASED;
    false
}

} // verus!
