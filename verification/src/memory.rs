//! Memory that is shared between the runtime and its host.

use vstd::prelude::*;

verus! {

/// # The size of the memory shared with the host: 16 MiB
pub const DATA_SIZE: usize = 16777216;

/// The byte that initialized memory holds at `index`
///
/// Memory is initialized with opaque green pixels, in RGBA format.
pub open spec fn initial_byte(index: int) -> u8 {
    if index % 4 == 1 || index % 4 == 3 {
        255
    } else {
        0
    }
}

/// # Memory that is shared with the host
pub struct SharedMemory {
    inner: Vec<u8>,
}

impl SharedMemory {
    /// The bytes of memory
    pub closed spec fn bytes(&self) -> Seq<u8> {
        self.inner@
    }

    /// # Create memory of the given size, filled with zeros
    pub fn new(size: usize) -> (result: Self)
        ensures
            result.bytes().len() == size,
            forall|i: int| 0 <= i < size ==> result.bytes()[i] == 0,
    {
        SharedMemory { inner: vec![0u8; size] }
    }

    /// # Fill memory with its initial content
    ///
    /// Every group of four bytes becomes an opaque green RGBA pixel.
    pub fn initialize(&mut self)
        requires
            old(self).bytes().len() % 4 == 0,
        ensures
            final(self).bytes().len() == old(self).bytes().len(),
            forall|i: int| 0 <= i < final(self).bytes().len() ==> final(self).bytes()[i] == initial_byte(i),
    {
        let len = self.inner.len();
        let mut chunk: usize = 0;
        while chunk < len
            invariant
                len == self.inner@.len(),
                len % 4 == 0,
                chunk % 4 == 0,
                chunk <= len,
                forall|i: int| 0 <= i < chunk ==> self.inner@[i] == initial_byte(i),
            decreases len - chunk,
        {
            self.inner.set(chunk, 0);
            self.inner.set(chunk + 1, 255);
            self.inner.set(chunk + 2, 0);
            self.inner.set(chunk + 3, 255);
            chunk = chunk + 4;
        }
    }

    /// # Gain write access to the memory
    pub fn access_write(&mut self) -> (result: &mut Vec<u8>)
        ensures
            result@ == old(self).bytes(),
            final(self).bytes() == final(result)@,
    {
        &mut self.inner
    }
}

} // verus!
