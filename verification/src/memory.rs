//! A unified buffer holding a program and audio samples side by side: the
//! leading bytes are bytecode, the rest is sample storage.
//!
//! Only the byte-level view lives here.  Reinterpreting the sample area as
//! floating-point frames is the audio layer's business and stays outside
//! the verified core.

use vstd::prelude::*;

verus! {

/// Which area of the unified buffer an index falls into.
#[derive(Clone, Copy, Debug, PartialEq, Eq, Structural)]
pub enum Area {
    Bytecode,
    Sample,
}

/// A unified buffer with instructions up front and audio samples behind.
#[derive(Debug)]
pub struct Memory {
    buffer: Vec<u8>,
    program_len: usize,
}

impl Memory {
    /// The buffer's contents.
    pub closed spec fn spec_buffer(&self) -> Seq<u8> {
        self.buffer@
    }

    /// How many leading bytes hold the program.
    pub closed spec fn spec_program_len(&self) -> usize {
        self.program_len
    }

    /// The program area fits inside the buffer.
    pub closed spec fn wf(&self) -> bool {
        self.program_len <= self.buffer@.len()
    }

    /// Borrow the whole buffer.
    pub fn buffer(&self) -> (r: &Vec<u8>)
        ensures
            r@ == self.spec_buffer(),
    {
        &self.buffer
    }

    /// The whole buffer's length.
    pub fn len(&self) -> (r: usize)
        ensures
            r == self.spec_buffer().len(),
    {
        self.buffer.len()
    }

    /// A zeroed buffer of `program_size` program bytes followed by
    /// `audio_size` stereo frames of four-byte samples.
    ///
    /// The combined length must be divisible by four, so that the sample
    /// area can later be viewed whole-sample-wise; otherwise, or when the
    /// combined length overflows the machine word, nothing is built.
    pub fn new(program_size: usize, audio_size: usize) -> (r: Option<Memory>)
        ensures
            match r {
                Some(m) => {
                    &&& m.wf()
                    &&& audio_size * 8 + program_size <= usize::MAX
                    &&& m.spec_buffer().len() == program_size + audio_size * 8
                    &&& m.spec_buffer().len() % 4 == 0
                    &&& m.spec_program_len() == program_size
                    &&& forall|i: int| 0 <= i < m.spec_buffer().len() ==> m.spec_buffer()[i] == 0u8
                },
                None => audio_size * 8 + program_size > usize::MAX || (audio_size * 8
                    + program_size) % 4 != 0,
            },
    {
        let bytes = match audio_size.checked_mul(8) {
            Some(b) => b,
            None => {
                return None;
            },
        };
        let len = match bytes.checked_add(program_size) {
            Some(l) => l,
            None => {
                return None;
            },
        };
        if len % 4 != 0 {
            return None;
        }
        let m = Memory { buffer: vec![0u8; len], program_len: program_size };
        proof {
            assert(forall|i: int| 0 <= i < m.spec_buffer().len() ==> m.spec_buffer()[i] == 0u8);
        }
        Some(m)
    }

    /// Whether `index` falls into the program or the sample area.
    pub fn area_type(&self, index: usize) -> (r: Area)
        ensures
            r is Bytecode <==> index < self.spec_program_len(),
    {
        if index < self.program_len {
            Area::Bytecode
        } else {
            Area::Sample
        }
    }

    /// Read one byte of the buffer, ignoring the area layout.
    pub fn get_as_byte(&self, index: usize) -> (r: Option<u8>)
        ensures
            match r {
                Some(b) => index < self.spec_buffer().len() && b == self.spec_buffer()[
                    index as int
                ],
                None => index >= self.spec_buffer().len(),
            },
    {
        if index < self.buffer.len() {
            Some(self.buffer[index])
        } else {
            None
        }
    }
}

} // verus!
