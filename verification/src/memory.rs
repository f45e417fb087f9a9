//! The 4 KiB byte store, addresses 0x000..=0xFFF. Addresses below 0x200 hold
//! the built-in font; program code is loaded from 0x200 on. Words are stored
//! big-endian: high byte first.

use vstd::prelude::*;

verus! {

/// The number of addressable bytes.
pub const MEM_SIZE: usize = 4096;

/// The 16-bit word stored big-endian at `addr`: the byte at `addr` is the
/// high byte, the byte at `addr + 1` the low byte.
pub open spec fn word_at(mem: Seq<u8>, addr: int) -> u16 {
    (mem[addr] * 256 + mem[addr + 1]) as u16
}

/// Flat byte-addressable storage. The view is the sequence of all 4096 bytes.
pub struct Memory {
    bytes: Vec<u8>,
}

impl View for Memory {
    type V = Seq<u8>;

    closed spec fn view(&self) -> Seq<u8> {
        self.bytes@
    }
}

impl Memory {
    /// True when the store holds exactly 4096 bytes.
    pub open spec fn wf(&self) -> bool {
        self@.len() == MEM_SIZE
    }

    /// A zero-filled store.
    pub fn new() -> (m: Memory)
        ensures
            m.wf(),
            forall|a: int| 0 <= a < MEM_SIZE ==> m@[a] == 0u8,
    {
        let mut bytes: Vec<u8> = Vec::new();
        let mut i: usize = 0;
        while i < MEM_SIZE
            invariant
                i <= MEM_SIZE,
                bytes@.len() == i,
                forall|j: int| 0 <= j < i ==> bytes@[j] == 0u8,
            decreases MEM_SIZE - i,
        {
            bytes.push(0);
            i += 1;
        }
        Memory { bytes }
    }

    /// The byte at `location`.
    pub fn read_u8(&self, location: u16) -> (b: u8)
        requires
            self.wf(),
            location < MEM_SIZE,
        ensures
            b == self@[location as int],
    {
        self.bytes[location as usize]
    }

    /// The big-endian word whose high byte sits at `location`.
    pub fn read_u16(&self, location: u16) -> (w: u16)
        requires
            self.wf(),
            location + 1 < MEM_SIZE,
        ensures
            w == word_at(self@, location as int),
    {
        let high = self.bytes[location as usize];
        let low = self.bytes[location as usize + 1];
        (high as u16) * 256 + (low as u16)
    }

    /// Store `value` at `location`; every other byte keeps its value.
    pub fn write_u8(&mut self, location: u16, value: u8)
        requires
            old(self).wf(),
            location < MEM_SIZE,
        ensures
            final(self).wf(),
            final(self)@ == old(self)@.update(location as int, value),
    {
        self.bytes[location as usize] = value;
    }

    /// Store `value` big-endian: its high byte at `location`, its low byte at
    /// `location + 1`. Every other byte keeps its value.
    pub fn write_u16(&mut self, location: u16, value: u16)
        requires
            old(self).wf(),
            location + 1 < MEM_SIZE,
        ensures
            final(self).wf(),
            final(self)@ == old(self)@
                .update(location as int, (value / 256) as u8)
                .update(location as int + 1, (value % 256) as u8),
            word_at(final(self)@, location as int) == value,
    {
        let high: u8 = (value / 256) as u8;
        let low: u8 = (value % 256) as u8;
        self.bytes[location as usize] = high;
        self.bytes[location as usize + 1] = low;
        assert(word_at(self@, location as int) == value);
    }
}

} // verus!
