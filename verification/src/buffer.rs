//! Two cell buffers of one size that trade places after every generation.

use vstd::prelude::*;
use crate::config::Config;

verus! {

/// The grid that is read (the front) and the grid that is written (the
/// back). Which of the two allocations is the front is decided by the parity
/// of a counter, so trading places moves no data.
pub struct DoubleBuffer {
    buf_a: Vec<u8>,
    buf_b: Vec<u8>,
    count: usize,
}

impl DoubleBuffer {
    /// The cells of the current generation.
    pub closed spec fn front(&self) -> Seq<u8> {
        if self.count % 2 == 0 {
            self.buf_a@
        } else {
            self.buf_b@
        }
    }

    /// The cells of the buffer that the next generation is written to.
    pub closed spec fn back(&self) -> Seq<u8> {
        if self.count % 2 == 0 {
            self.buf_b@
        } else {
            self.buf_a@
        }
    }

    /// Both buffers hold `cells` cells.
    pub open spec fn wf(&self, cells: int) -> bool {
        self.front().len() == cells && self.back().len() == cells
    }

    /// Two buffers of `cfg.size()` empty cells.
    pub fn new(cfg: &Config) -> (buf: DoubleBuffer)
        ensures
            buf.wf(cfg.cells()),
            buf.front() == Seq::new(cfg.cells() as nat, |i: int| 0u8),
            buf.back() == Seq::new(cfg.cells() as nat, |i: int| 0u8),
    {
        DoubleBuffer { buf_a: vec![0_u8; cfg.size()], buf_b: vec![0_u8; cfg.size()], count: 0 }
    }

    pub fn get_front(&self) -> (front: &Vec<u8>)
        ensures
            front@ == self.front(),
    {
        if self.count % 2 == 0 {
            &self.buf_a
        } else {
            &self.buf_b
        }
    }

    /// The front, to be written to. The back is left as it is.
    pub fn get_front_mut(&mut self) -> (front: &mut Vec<u8>)
        ensures
            front@ == old(self).front(),
            final(self).front() == final(front)@,
            final(self).back() == old(self).back(),
    {
        if self.count % 2 == 0 {
            &mut self.buf_a
        } else {
            &mut self.buf_b
        }
    }

    /// The back, to be written to. The front is left as it is.
    pub fn get_back_mut(&mut self) -> (back: &mut Vec<u8>)
        ensures
            back@ == old(self).back(),
            final(self).back() == final(back)@,
            final(self).front() == old(self).front(),
    {
        if self.count % 2 == 0 {
            &mut self.buf_b
        } else {
            &mut self.buf_a
        }
    }

    /// The front to read and the back to write, at once.
    pub fn get_pair(&mut self) -> (pair: (&Vec<u8>, &mut Vec<u8>))
        ensures
            pair.0@ == old(self).front(),
            pair.1@ == old(self).back(),
            final(self).front() == old(self).front(),
            final(self).back() == final(pair.1)@,
    {
        if self.count % 2 == 0 {
            (&self.buf_a, &mut self.buf_b)
        } else {
            (&self.buf_b, &mut self.buf_a)
        }
    }

    /// Makes the back the front and the front the back. The counter goes
    /// round to zero after its last value, which keeps its parity turning.
    pub fn switch_buffers(&mut self)
        ensures
            final(self).front() == old(self).back(),
            final(self).back() == old(self).front(),
    {
        self.count = self.count.wrapping_add(1);
    }

    /// Empties every cell of the back.
    pub fn empty_back(&mut self)
        ensures
            final(self).front() == old(self).front(),
            final(self).back() == Seq::new(old(self).back().len(), |i: int| 0u8),
    {
        let back = self.get_back_mut();
        let n: usize = back.len();
        let mut i: usize = 0;
        while i < n
            invariant
                i <= n,
                back@.len() == n,
                forall|j: int| 0 <= j < i ==> back@[j] == 0u8,
            decreases n - i,
        {
            back[i] = 0;
            i += 1;
        }
        assert(back@ =~= Seq::new(n as nat, |i: int| 0u8));
    }
}

} // verus!
