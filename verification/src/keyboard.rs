//! The key-state registers: a 16-element boolean vector for the hex keypad.
//! Sampling real input happens outside the library; the machine core only
//! reads and clears these registers.

use vstd::prelude::*;

verus! {

use crate::KEY_COUNT;

/// The all-released key state.
pub open spec fn no_keys() -> Seq<bool> {
    Seq::new(KEY_COUNT as nat, |k: int| false)
}

/// Well-formedness: one register per key.
pub open spec fn keys_wf(keys: Seq<bool>) -> bool {
    keys.len() == KEY_COUNT
}

/// The lowest pressed key index at or above `k`, if any.
pub open spec fn lowest_pressed_from(keys: Seq<bool>, k: int) -> Option<u8>
    decreases KEY_COUNT - k,
{
    if k < 0 || k >= KEY_COUNT {
        None
    } else if keys[k] {
        Some(k as u8)
    } else {
        lowest_pressed_from(keys, k + 1)
    }
}

/// The lowest pressed key index, if any key is down.
pub open spec fn lowest_pressed(keys: Seq<bool>) -> Option<u8> {
    lowest_pressed_from(keys, 0)
}

/// The key-state registers.
pub struct KeyboardDevice {
    keys: Vec<bool>,
}

impl View for KeyboardDevice {
    type V = Seq<bool>;

    closed spec fn view(&self) -> Seq<bool> {
        self.keys@
    }
}

impl KeyboardDevice {
    /// Fresh key state: every key released.
    pub fn new() -> (r: KeyboardDevice)
        ensures
            r@ == no_keys(),
            keys_wf(r@),
    {
        let keys: Vec<bool> = vec![false; KEY_COUNT];
        proof {
            assert(keys@ =~= no_keys());
        }
        KeyboardDevice { keys }
    }

    /// Record the sampled state of one key.
    pub fn set_key(&mut self, index: usize, pressed: bool)
        requires
            keys_wf(old(self)@),
            index < KEY_COUNT,
        ensures
            final(self)@ == old(self)@.update(index as int, pressed),
            keys_wf(final(self)@),
    {
        self.keys[index] = pressed;
    }

    /// Release every key.
    pub fn clear_keys(&mut self)
        ensures
            final(self)@ == no_keys(),
            keys_wf(final(self)@),
    {
        let keys: Vec<bool> = vec![false; KEY_COUNT];
        proof {
            assert(keys@ =~= no_keys());
        }
        self.keys = keys;
    }

    /// Whether the key with the given index is down.
    pub fn is_key_pressed(&self, keycode: u8) -> (r: bool)
        requires
            keys_wf(self@),
            keycode < KEY_COUNT,
        ensures
            r == self@[keycode as int],
    {
        self.keys[keycode as usize]
    }

    /// The lowest pressed key, or `None` when no key is down.
    pub fn get_key_press(&self) -> (r: Option<u8>)
        requires
            keys_wf(self@),
        ensures
            r == lowest_pressed(self@),
    {
        let mut k: usize = 0;
        while k < KEY_COUNT
            invariant
                keys_wf(self@),
                0 <= k <= KEY_COUNT,
                lowest_pressed(self@) == lowest_pressed_from(self@, k as int),
            decreases KEY_COUNT - k,
        {
            if self.keys[k] {
                return Some(k as u8);
            }
            k = k + 1;
        }
        None
    }
}

} // verus!
