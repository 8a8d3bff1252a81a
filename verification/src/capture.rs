//! A file that keeps what a guest writes to it, so that the host can read
//! it back.
use crate::journal::codec::extend_bytes;
use vstd::prelude::*;
use vstd::slice::{slice_subrange, slice_to_vec};

verus! {

/// Keeps what was written to it.
#[derive(Debug, PartialEq, Eq)]
pub struct OutputCapturer {
    buffer: Vec<u8>,
}

impl View for OutputCapturer {
    type V = Seq<u8>;

    closed spec fn view(&self) -> Seq<u8> {
        self.buffer@
    }
}

/// The bytes a read hands out: those from `start` on, as many as there are
/// and at most `room`.
pub open spec fn spec_read_at(captured: Seq<u8>, room: int, start: int) -> Seq<u8> {
    if captured.len() - start <= room {
        captured.skip(start)
    } else {
        captured.subrange(start, start + room)
    }
}

impl OutputCapturer {
    /// A capturer that holds nothing yet.
    pub fn new() -> (capturer: OutputCapturer)
        ensures
            capturer@ == Seq::<u8>::empty(),
    {
        OutputCapturer { buffer: Vec::new() }
    }

    /// Keeps more bytes, behind those kept already.
    pub fn write(&mut self, bytes: &[u8]) -> (written: usize)
        ensures
            final(self)@ == old(self)@ + bytes@,
            written == bytes@.len(),
    {
        extend_bytes(&mut self.buffer, bytes);
        bytes.len()
    }

    /// How many bytes are kept.
    pub fn len(&self) -> (n: usize)
        ensures
            n == self@.len(),
    {
        self.buffer.len()
    }

    /// The bytes kept, from `start_offset` on, as many as there are and at
    /// most `buffer_len`.
    pub fn read_at(&self, buffer_len: usize, start_offset: usize) -> (bytes: Vec<u8>)
        requires
            start_offset <= self@.len(),
        ensures
            bytes@ == spec_read_at(self@, buffer_len as int, start_offset as int),
            bytes@.len() <= buffer_len,
    {
        let left = self.buffer.len() - start_offset;
        let count = if left <= buffer_len {
            left
        } else {
            buffer_len
        };
        let bytes = slice_to_vec(
            slice_subrange(self.buffer.as_slice(), start_offset, start_offset + count),
        );
        assert(bytes@ =~= spec_read_at(self@, buffer_len as int, start_offset as int));
        bytes
    }
}

} // verus!
