//! A two-slot buffer for handing fixed-length bytecode from a writer to a
//! reader: one slot is written while the other is read, and a swap flips
//! the roles.

use vstd::prelude::*;

verus! {

/// Two equal-length byte buffers and a flag naming the write side.
#[derive(Debug)]
pub struct DoubleBuffer {
    slot_a: Vec<u8>,
    slot_b: Vec<u8>,
    write_index: bool,
    length: usize,
}

impl DoubleBuffer {
    /// Both slots hold exactly `length` bytes.
    pub closed spec fn wf(&self) -> bool {
        self.slot_a@.len() == self.length && self.slot_b@.len() == self.length
    }

    /// The length every slot was created with.
    pub closed spec fn spec_len(&self) -> usize {
        self.length
    }

    /// The contents of the slot the writer currently owns.
    pub closed spec fn write_side(&self) -> Seq<u8> {
        if self.write_index {
            self.slot_b@
        } else {
            self.slot_a@
        }
    }

    /// The contents of the slot the reader currently owns.
    pub closed spec fn read_side(&self) -> Seq<u8> {
        if self.write_index {
            self.slot_a@
        } else {
            self.slot_b@
        }
    }

    /// A double buffer of two zero-filled slots of `size` bytes each.
    pub fn new(size: usize) -> (r: Self)
        ensures
            r.wf(),
            r.spec_len() == size,
            r.write_side() == Seq::new(size as nat, |i: int| 0u8),
            r.read_side() == Seq::new(size as nat, |i: int| 0u8),
    {
        let r = DoubleBuffer {
            slot_a: vec![0u8; size],
            slot_b: vec![0u8; size],
            write_index: false,
            length: size,
        };
        proof {
            assert(r.slot_a@ =~= Seq::new(size as nat, |i: int| 0u8));
            assert(r.slot_b@ =~= Seq::new(size as nat, |i: int| 0u8));
        }
        r
    }

    /// Replace the write side's contents.
    pub fn write_buffer(&mut self, data: &Vec<u8>)
        requires
            old(self).wf(),
            data@.len() == old(self).spec_len(),
        ensures
            final(self).wf(),
            final(self).spec_len() == old(self).spec_len(),
            final(self).write_side() == data@,
            final(self).read_side() == old(self).read_side(),
    {
        let mut fresh: Vec<u8> = Vec::new();
        let mut i: usize = 0;
        while i < data.len()
            invariant
                i <= data@.len(),
                fresh@ == data@.take(i as int),
            decreases data@.len() - i,
        {
            let b = data[i];
            fresh.push(b);
            proof {
                assert(fresh@ =~= data@.take(i + 1));
            }
            i += 1;
        }
        proof {
            assert(fresh@ =~= data@);
        }
        if self.write_index {
            self.slot_b = fresh;
        } else {
            self.slot_a = fresh;
        }
    }

    /// The fixed slot length.
    pub fn len(&self) -> (r: usize)
        ensures
            r == self.spec_len(),
    {
        self.length
    }

    /// Borrow the read side's contents.
    pub fn read_buffer(&self) -> (r: &Vec<u8>)
        ensures
            r@ == self.read_side(),
    {
        if self.write_index {
            &self.slot_a
        } else {
            &self.slot_b
        }
    }

    /// Exchange the two roles: what was last written becomes readable.
    pub fn swap(&mut self)
        ensures
            final(self).wf() == old(self).wf(),
            final(self).spec_len() == old(self).spec_len(),
            final(self).read_side() == old(self).write_side(),
            final(self).write_side() == old(self).read_side(),
    {
        self.write_index = !self.write_index;
    }
}

} // verus!
