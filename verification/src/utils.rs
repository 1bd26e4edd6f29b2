//! A byte buffer for reading and writing, and a pool of reusable values.

use vstd::prelude::*;
use std::collections::VecDeque;
use vstd::string::StringSliceAdditionalSpecFns;
use bytes::{Bytes, BytesMut};
use crate::buffers::{
    buf_as_slice, buf_clear, buf_freeze, buf_from_slice, buf_len, buf_new, buf_put_slice,
    buf_split, buf_split_to, buf_with_capacity, bytes_as_slice, frozen, held,
};

verus! {

/// `BytesMut::capacity`: the number of bytes the buffer can hold without
/// growing, which is never less than the number it holds.
#[verifier::external_body]
pub(crate) fn buf_capacity(buf: &BytesMut) -> (n: usize)
    ensures
        n >= held(*buf).len(),
{
    buf.capacity()
}

/// A buffer that is written at the end and read from the front.
#[derive(Debug)]
pub struct Buffer {
    inner: BytesMut,
}

impl View for Buffer {
    type V = Seq<u8>;

    /// The bytes written and not yet read.
    closed spec fn view(&self) -> Seq<u8> {
        held(self.inner)
    }
}

impl Buffer {
    /// An empty buffer.
    pub fn new() -> (r: Buffer)
        ensures
            r@ == Seq::<u8>::empty(),
    {
        Buffer { inner: buf_new() }
    }

    /// An empty buffer with room for `capacity` bytes.
    pub fn with_capacity(capacity: usize) -> (r: Buffer)
        requires
            capacity <= isize::MAX,
        ensures
            r@ == Seq::<u8>::empty(),
    {
        Buffer { inner: buf_with_capacity(capacity) }
    }

    /// A buffer that holds a copy of the given bytes.
    pub fn from_bytes(bytes: Bytes) -> (r: Buffer)
        ensures
            r@ == frozen(bytes),
    {
        Buffer { inner: buf_from_slice(bytes_as_slice(&bytes)) }
    }

    /// Appends bytes.
    pub fn write(&mut self, bytes: &[u8])
        requires
            old(self)@.len() + bytes@.len() <= isize::MAX,
        ensures
            final(self)@ == old(self)@ + bytes@,
    {
        buf_put_slice(&mut self.inner, bytes);
    }

    /// Appends the UTF-8 bytes of a string.
    pub fn write_str(&mut self, s: &str)
        requires
            old(self)@.len() + s.spec_bytes().len() <= isize::MAX,
        ensures
            final(self)@ == old(self)@ + s.spec_bytes(),
    {
        self.write(s.as_bytes());
    }

    /// Takes `len` bytes from the front, if so many are there.
    pub fn read(&mut self, len: usize) -> (r: Option<Bytes>)
        ensures
            len <= old(self)@.len() ==> r is Some && frozen(r->0) == old(self)@.take(len as int)
                && final(self)@ == old(self)@.skip(len as int),
            len > old(self)@.len() ==> r is None && final(self)@ == old(self)@,
    {
        if buf_len(&self.inner) >= len {
            let front = buf_split_to(&mut self.inner, len);
            Some(buf_freeze(front))
        } else {
            None
        }
    }

    /// Takes every byte.
    pub fn read_all(&mut self) -> (r: Bytes)
        ensures
            frozen(r) == old(self)@,
            final(self)@ == Seq::<u8>::empty(),
    {
        let all = buf_split(&mut self.inner);
        buf_freeze(all)
    }

    /// The number of bytes held.
    pub fn len(&self) -> (n: usize)
        ensures
            n == self@.len(),
    {
        buf_len(&self.inner)
    }

    /// Whether no byte is held.
    pub fn is_empty(&self) -> (r: bool)
        ensures
            r == (self@.len() == 0),
    {
        buf_len(&self.inner) == 0
    }

    /// The room of the buffer, at least the number of bytes held.
    pub fn capacity(&self) -> (n: usize)
        ensures
            n >= self@.len(),
    {
        buf_capacity(&self.inner)
    }

    /// Drops every byte.
    pub fn clear(&mut self)
        ensures
            final(self)@ == Seq::<u8>::empty(),
    {
        buf_clear(&mut self.inner);
    }

    /// The bytes held, as a slice.
    pub fn as_slice(&self) -> (s: &[u8])
        ensures
            s@ == self@,
    {
        buf_as_slice(&self.inner)
    }

    /// The bytes held, frozen.
    pub fn freeze(self) -> (r: Bytes)
        ensures
            frozen(r) == self@,
    {
        buf_freeze(self.inner)
    }
}

impl Default for Buffer {
    /// An empty buffer.
    fn default() -> (r: Buffer)
        ensures
            r@ == Seq::<u8>::empty(),
    {
        Buffer::new()
    }
}

impl core::ops::Deref for Buffer {
    type Target = [u8];

    /// The bytes held, as a slice.
    fn deref(&self) -> (s: &[u8])
        ensures
            s@ == self@,
    {
        buf_as_slice(&self.inner)
    }
}

/// What a pool is: the values it holds, oldest first, and how many it
/// keeps at most.
pub struct PoolView<T> {
    pub items: Seq<T>,
    pub max_size: usize,
}

/// Keeps values for reuse, up to a limit.
#[derive(Debug)]
pub struct Pool<T> {
    items: VecDeque<T>,
    max_size: usize,
}

impl<T> View for Pool<T> {
    type V = PoolView<T>;

    closed spec fn view(&self) -> PoolView<T> {
        PoolView { items: self.items@, max_size: self.max_size }
    }
}

impl<T> Pool<T> {
    /// An empty pool that keeps at most `max_size` values.
    pub fn new(max_size: usize) -> (r: Pool<T>)
        ensures
            r@ == (PoolView { items: Seq::<T>::empty(), max_size }),
    {
        Pool { items: VecDeque::new(), max_size }
    }

    /// Hands out the oldest value of the pool; from an empty pool, the
    /// value that `create` makes.
    pub fn get<F: FnOnce() -> T>(&mut self, create: F) -> (r: T)
        requires
            create.requires(()),
        ensures
            final(self)@.max_size == old(self)@.max_size,
            old(self)@.items.len() > 0 ==> r == old(self)@.items[0] && final(self)@.items == old(
                self,
            )@.items.skip(1),
            old(self)@.items.len() == 0 ==> create.ensures((), r) && final(self)@.items == old(
                self,
            )@.items,
    {
        match self.items.pop_front() {
            Some(item) => {
                assert(self.items@ =~= old(self).items@.skip(1));
                item
            },
            None => create(),
        }
    }

    /// Takes a value back, unless the pool is full: then the value is
    /// dropped.
    pub fn put(&mut self, item: T)
        ensures
            final(self)@.max_size == old(self)@.max_size,
            final(self)@.items == (if old(self)@.items.len() < old(self)@.max_size {
                old(self)@.items.push(item)
            } else {
                old(self)@.items
            }),
    {
        if self.items.len() < self.max_size {
            self.items.push_back(item);
        }
    }

    /// The number of values in the pool.
    pub fn len(&self) -> (n: usize)
        ensures
            n == self@.items.len(),
    {
        self.items.len()
    }

    /// Whether the pool holds no value.
    pub fn is_empty(&self) -> (r: bool)
        ensures
            r == (self@.items.len() == 0),
    {
        self.items.len() == 0
    }
}

} // verus!
