//! A trivial byte-buffer holder with the printer's calling convention:
//! it takes a buffer and hands it back unchanged.

use vstd::prelude::*;

verus! {

/// A holder for an already-formatted byte buffer.
pub struct Formatter {
    buf: Vec<u8>,
}

impl View for Formatter {
    type V = Seq<u8>;

    closed spec fn view(&self) -> Seq<u8> {
        self.buf@
    }
}

impl Formatter {
    /// A holder wrapping the given buffer.
    pub fn new(buf: Vec<u8>) -> (r: Self)
        ensures
            r@ == buf@,
    {
        Self { buf }
    }

    /// The held buffer, byte for byte.
    pub fn run(self) -> (r: Vec<u8>)
        ensures
            r@ == self@,
    {
        self.buf
    }
}

} // verus!
