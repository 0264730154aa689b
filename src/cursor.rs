//! A cursor over a slice.

use vstd::prelude::*;

verus! {

/// A read would take the cursor out of bounds.
#[derive(Debug, Clone, Copy, PartialEq, Eq, Structural)]
pub struct OutOfBounds {
    /// How many items the read asked for.
    pub requested: usize,
}

impl OutOfBounds {
    fn new(requested: usize) -> (r: Self)
        ensures
            r.requested == requested,
    {
        OutOfBounds { requested }
    }
}

/// A simple cursor over a slice.
#[derive(Debug)]
pub struct Cursor<'a, T: Copy> {
    index: usize,
    collection: &'a [T],
}

impl<'a, T: Copy> Cursor<'a, T> {
    /// The items not read yet.
    pub closed spec fn remaining(&self) -> Seq<T> {
        self.collection@.skip(self.index as int)
    }

    /// All the items, read or not.
    pub closed spec fn items(&self) -> Seq<T> {
        self.collection@
    }

    /// The number of items read so far.
    pub closed spec fn position(&self) -> int {
        self.index as int
    }

    pub closed spec fn wf(&self) -> bool {
        self.index <= self.collection@.len()
    }

    /// A cursor at the first item of `collection`.
    pub fn new(collection: &'a [T]) -> (r: Self)
        ensures
            r.wf(),
            r.items() == collection@,
            r.position() == 0,
    {
        Cursor { index: 0, collection }
    }

    /// Pull the next `count` items from the source.
    pub fn read_count(&mut self, count: usize) -> (r: Result<&'a [T], OutOfBounds>)
        requires
            old(self).wf(),
        ensures
            final(self).wf(),
            final(self).items() == old(self).items(),
            match r {
                Ok(data) => count <= old(self).items().len() - old(self).position()
                    && data@ == old(self).items().subrange(old(self).position(), old(self).position() + count)
                    && final(self).position() == old(self).position() + count,
                Err(e) => count > old(self).items().len() - old(self).position() && e.requested == count
                    && final(self).position() == old(self).position(),
            },
    {
        if count > self.collection.len() - self.index {
            return Err(OutOfBounds::new(count));
        }
        let data = vstd::slice::slice_subrange(self.collection, self.index, self.index + count);
        self.index = self.index + count;
        Ok(data)
    }

    /// Pull some items from this source into `buffer`, returning how many
    /// were read: as many as fit, or as many as are left.
    pub fn read(&mut self, buffer: &mut Vec<T>) -> (r: usize)
        requires
            old(self).wf(),
        ensures
            final(self).wf(),
            final(self).items() == old(self).items(),
            r == if old(buffer)@.len() < old(self).items().len() - old(self).position() {
                old(buffer)@.len() as int
            } else {
                old(self).items().len() - old(self).position()
            },
            final(self).position() == old(self).position() + r,
            final(buffer)@.len() == old(buffer)@.len(),
            final(buffer)@.take(r as int) == old(self).items().subrange(old(self).position(), old(self).position() + r),
            forall|k: int| r <= k < old(buffer)@.len() ==> final(buffer)@[k] == old(buffer)@[k],
    {
        let clen = self.collection.len();
        let left = clen - self.index;
        let item_count = if buffer.len() < left {
            buffer.len()
        } else {
            left
        };
        let start = self.index;
        let mut i: usize = 0;
        while i < item_count
            invariant
                i <= item_count,
                item_count <= buffer@.len(),
                buffer@.len() == old(buffer)@.len(),
                start + item_count <= self.collection@.len(),
                start == self.index,
                buffer@.take(i as int) == self.collection@.subrange(start as int, start + i),
                forall|k: int| i <= k < buffer@.len() ==> buffer@[k] == old(buffer)@[k],
                clen == self.collection@.len(),
            decreases item_count - i,
        {
            let item = self.collection[start + i];
            buffer.set(i, item);
            assert(buffer@.take(i + 1) =~= self.collection@.subrange(start as int, start + i + 1));
            i = i + 1;
        }
        self.index = self.index + item_count;
        item_count
    }
}

impl<'a, T: Copy + Default> Cursor<'a, T> {
    /// Pull exactly `N` items from the source into an array.
    pub fn read_array<const N: usize>(&mut self) -> (r: Result<[T; N], OutOfBounds>)
        requires
            old(self).wf(),
        ensures
            final(self).wf(),
            final(self).items() == old(self).items(),
            match r {
                Ok(output) => N <= old(self).items().len() - old(self).position() && output@
                    == old(self).items().subrange(old(self).position(), old(self).position() + N)
                    && final(self).position() == old(self).position() + N,
                Err(e) => N > old(self).items().len() - old(self).position() && e.requested == N
                    && final(self).position() == old(self).position(),
            },
    {
        let data = match self.read_count(N) {
            Ok(data) => data,
            Err(e) => return Err(e),
        };
        let mut output: [T; N] = vstd::array::array_fill_for_copy_types(T::default());
        let mut i: usize = 0;
        while i < N
            invariant
                i <= N,
                data@.len() == N,
                output@.len() == N,
                forall|k: int| 0 <= k < i ==> output@[k] == data@[k],
            decreases N - i,
        {
            output[i] = data[i];
            i = i + 1;
        }
        assert(output@ =~= data@);
        Ok(output)
    }
}

} // verus!
