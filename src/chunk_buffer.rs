use vstd::prelude::*;

verus! {

/// A growable sample buffer that is read in chunks of a set size.
pub struct ChunkBuffer<T> {
    chunk_size: usize,
    inner_buffer: Vec<T>,
}

impl<T> View for ChunkBuffer<T> {
    type V = Seq<T>;

    closed spec fn view(&self) -> Seq<T> {
        self.inner_buffer@
    }
}

impl<T> ChunkBuffer<T> {
    pub closed spec fn spec_chunk_size(&self) -> nat {
        self.chunk_size as nat
    }

    pub fn new(chunk_size: usize) -> (r: Self)
        ensures
            r@ == Seq::<T>::empty(),
            r.spec_chunk_size() == chunk_size,
    {
        ChunkBuffer { chunk_size, inner_buffer: Vec::new() }
    }

    pub fn from_vec(chunk_size: usize, slice: Vec<T>) -> (r: Self)
        ensures
            r@ == slice@,
            r.spec_chunk_size() == chunk_size,
    {
        ChunkBuffer { chunk_size, inner_buffer: slice }
    }

    /// Takes the first chunk off the front of the buffer.
    pub fn get_chunk(&mut self) -> (r: Vec<T>)
        requires
            old(self).spec_chunk_size() <= old(self)@.len(),
        ensures
            r@ == old(self)@.take(old(self).spec_chunk_size() as int),
            final(self)@ == old(self)@.skip(old(self).spec_chunk_size() as int),
            final(self).spec_chunk_size() == old(self).spec_chunk_size(),
    {
        let mut rest = self.inner_buffer.split_off(self.chunk_size);
        std::mem::swap(&mut rest, &mut self.inner_buffer);
        rest
    }

    /// Hands out the chunk size for the caller to change in place.
    pub fn chunk_size_mut(&mut self) -> (r: &mut usize)
        ensures
            *r == old(self).spec_chunk_size(),
            final(self).spec_chunk_size() == *final(r),
            final(self)@ == old(self)@,
    {
        &mut self.chunk_size
    }

    pub fn get_chunk_size(&self) -> (r: usize)
        ensures
            r == self.spec_chunk_size(),
    {
        self.chunk_size
    }

    pub fn set_chunk_size(&mut self, chunk_size: usize)
        ensures
            final(self).spec_chunk_size() == chunk_size,
            final(self)@ == old(self)@,
    {
        self.chunk_size = chunk_size;
    }

    pub fn inner_buffer(&self) -> (r: &[T])
        ensures
            r@ == self@,
    {
        self.inner_buffer.as_slice()
    }

    pub fn get_current_length(&self) -> (r: usize)
        ensures
            r == self@.len(),
    {
        self.inner_buffer.len()
    }

    /// Appends one sample at the end.
    pub fn push(&mut self, value: T)
        ensures
            final(self)@ == old(self)@.push(value),
            final(self).spec_chunk_size() == old(self).spec_chunk_size(),
    {
        self.inner_buffer.push(value);
    }

    /// Appends every sample of `values` at the end, in order.
    pub fn append(&mut self, values: &mut Vec<T>)
        ensures
            final(self)@ == old(self)@ + old(values)@,
            final(values)@ == Seq::<T>::empty(),
            final(self).spec_chunk_size() == old(self).spec_chunk_size(),
    {
        self.inner_buffer.append(values);
    }

    /// Takes every sample out, leaving the buffer empty.
    pub fn drain_all(&mut self) -> (r: Vec<T>)
        ensures
            r@ == old(self)@,
            final(self)@ == Seq::<T>::empty(),
            final(self).spec_chunk_size() == old(self).spec_chunk_size(),
    {
        let mut taken = Vec::new();
        std::mem::swap(&mut taken, &mut self.inner_buffer);
        taken
    }
}

} // verus!
