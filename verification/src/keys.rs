//! The 16-key input device: one boolean per key, written by the host's input
//! collaborator between steps and read by the skip-on-key opcodes.

use vstd::prelude::*;

verus! {

/// Sixteen key states, indexed 0..=15. The view is the sequence of the
/// sixteen flags; `true` means pressed.
pub struct Keys {
    keys: Vec<bool>,
}

impl View for Keys {
    type V = Seq<bool>;

    closed spec fn view(&self) -> Seq<bool> {
        self.keys@
    }
}

impl Keys {
    /// True when there are exactly sixteen key states.
    pub open spec fn wf(&self) -> bool {
        self@.len() == 16
    }

    /// All sixteen keys released.
    pub fn new() -> (k: Keys)
        ensures
            k.wf(),
            forall|i: int| 0 <= i < 16 ==> k@[i] == false,
    {
        let mut keys: Vec<bool> = Vec::new();
        let mut i: usize = 0;
        while i < 16
            invariant
                i <= 16,
                keys@.len() == i,
                forall|j: int| 0 <= j < i ==> keys@[j] == false,
            decreases 16 - i,
        {
            keys.push(false);
            i += 1;
        }
        Keys { keys }
    }

    /// Whether key `key` is currently pressed.
    pub fn is_pressed(&self, key: u8) -> (pressed: bool)
        requires
            self.wf(),
            key < 16,
        ensures
            pressed == self@[key as int],
    {
        self.keys[key as usize]
    }

    /// Record key `key` as pressed or released; the other keys keep their
    /// state.
    pub fn set_key(&mut self, key: u8, pressed: bool)
        requires
            old(self).wf(),
            key < 16,
        ensures
            final(self).wf(),
            final(self)@ == old(self)@.update(key as int, pressed),
    {
        self.keys[key as usize] = pressed;
    }
}

} // verus!
