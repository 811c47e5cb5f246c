//! The flash of the device, as a dump of it shows it.

use vstd::prelude::*;
use vstd::slice::slice_to_vec;

verus! {

/// A read-only image of the flash region that holds the log.
pub struct FlashStorage {
    read_buf: Vec<u8>,
}

/// A failure to read from the image. No read of an image fails; the type
/// stands where an interface to storage asks for one.
#[derive(Debug, Clone, Copy, PartialEq, Eq, Structural)]
pub struct StorageError;

impl View for FlashStorage {
    type V = Seq<u8>;

    closed spec fn view(&self) -> Seq<u8> {
        self.read_buf@
    }
}

/// What a read of `len` bytes at `offset` finds in `image`: the bytes that
/// lie there, where they end before the end of the image; nothing otherwise.
pub open spec fn read_at(image: Seq<u8>, offset: int, len: int) -> Option<Seq<u8>> {
    if offset + len < image.len() {
        Some(image.subrange(offset, offset + len))
    } else {
        None
    }
}

impl FlashStorage {
    /// An image that holds a copy of `read_buf`.
    pub fn new(read_buf: &[u8]) -> (r: Self)
        ensures
            r@ == read_buf@,
    {
        Self { read_buf: slice_to_vec(read_buf) }
    }

    /// The number of bytes in the image.
    pub fn capacity(&self) -> (r: usize)
        ensures
            r == self@.len(),
    {
        self.read_buf.len()
    }

    /// Fills `bytes` with what the image holds from `offset` on. A read that
    /// does not end before the end of the image leaves `bytes` as it was. The
    /// read never fails, and the image stays as it is.
    pub fn try_read(&mut self, offset: u32, bytes: &mut [u8]) -> (r: Result<(), StorageError>)
        ensures
            r is Ok,
            final(self)@ == old(self)@,
            final(bytes)@ == match read_at(old(self)@, offset as int, old(bytes)@.len() as int) {
                Some(found) => found,
                None => old(bytes)@,
            },
    {
        let len: usize = bytes.len();
        let capacity: usize = self.capacity();
        let offset: usize = offset as usize;
        if offset >= capacity || len >= capacity - offset {
            return Ok(());
        }
        let mut i: usize = 0;
        while i < len
            invariant
                i <= len,
                len == bytes@.len(),
                offset + len < capacity,
                capacity == self@.len(),
                self@ == old(self)@,
                bytes@.take(i as int) == self@.subrange(offset as int, offset + i),
            decreases len - i,
        {
            bytes[i] = self.read_buf[offset + i];
            assert(bytes@.take(i + 1) =~= self@.subrange(offset as int, offset + i + 1));
            i += 1;
        }
        assert(bytes@ =~= self@.subrange(offset as int, offset + len));
        Ok(())
    }
}

} // verus!
