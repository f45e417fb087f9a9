//! The general-purpose register file: sixteen 8-bit cells V0..VF, addressed
//! by a 4-bit index. VF doubles as the carry/borrow/collision flag that the
//! arithmetic, shift and draw opcodes overwrite.

use vstd::prelude::*;

verus! {

/// Sixteen 8-bit general-purpose registers. The view is the sequence of the
/// sixteen cell values, V0 first.
pub struct Registers {
    v: Vec<u8>,
}

impl View for Registers {
    type V = Seq<u8>;

    closed spec fn view(&self) -> Seq<u8> {
        self.v@
    }
}

impl Registers {
    /// True when the register file holds exactly sixteen cells.
    pub open spec fn wf(&self) -> bool {
        self@.len() == 16
    }

    /// A register file with every cell zero.
    pub fn new() -> (r: Registers)
        ensures
            r.wf(),
            forall|i: int| 0 <= i < 16 ==> r@[i] == 0u8,
    {
        let mut v: Vec<u8> = Vec::new();
        let mut i: usize = 0;
        while i < 16
            invariant
                i <= 16,
                v@.len() == i,
                forall|j: int| 0 <= j < i ==> v@[j] == 0u8,
            decreases 16 - i,
        {
            v.push(0);
            i += 1;
        }
        Registers { v }
    }

    /// The value of register `r`.
    pub fn get(&self, r: u8) -> (value: u8)
        requires
            self.wf(),
            r < 16,
        ensures
            value == self@[r as int],
    {
        self.v[r as usize]
    }

    /// Store `value` in register `r`; every other register keeps its value.
    pub fn set(&mut self, r: u8, value: u8)
        requires
            old(self).wf(),
            r < 16,
        ensures
            final(self).wf(),
            final(self)@ == old(self)@.update(r as int, value),
    {
        self.v[r as usize] = value;
    }
}

} // verus!
