//! A growable run of bytes read as records of a fixed size.

use vstd::prelude::*;

verus! {

/// Bytes grouped in records of `stride` bytes each.
pub struct Buffer {
    bytes: Vec<u8>,
    stride: usize,
}

impl Buffer {
    pub closed spec fn spec_bytes(&self) -> Seq<u8> {
        self.bytes@
    }

    pub closed spec fn spec_stride(&self) -> usize {
        self.stride
    }

    /// An empty buffer of records of `stride` bytes.
    pub fn new(stride: usize) -> (r: Buffer)
        ensures
            r.spec_bytes() == Seq::<u8>::empty(),
            r.spec_stride() == stride,
    {
        Buffer { bytes: Vec::new(), stride }
    }

    /// Drops every record.
    pub fn clear(&mut self)
        ensures
            final(self).spec_bytes() == Seq::<u8>::empty(),
            final(self).spec_stride() == old(self).spec_stride(),
    {
        self.bytes = Vec::new();
    }

    /// Writes `record` as the record at `index`, growing the buffer with zero bytes as needed.
    pub fn set(&mut self, index: usize, record: &[u8])
        requires
            record@.len() == old(self).spec_stride(),
            index * old(self).spec_stride() + old(self).spec_stride() <= usize::MAX,
        ensures
            ({
                let stride = old(self).spec_stride() as int;
                let start = index * stride;
                let end = start + stride;
                let before = old(self).spec_bytes();
                let after = final(self).spec_bytes();
                &&& final(self).spec_stride() == old(self).spec_stride()
                &&& after.len() == if before.len() < end { end } else { before.len() as int }
                &&& after.subrange(start, end) == record@
                &&& forall|k: int| 0 <= k < after.len() && !(start <= k < end) ==> #[trigger] after[k] == if k < before.len() { before[k] } else { 0u8 }
            }),
    {
        let start = index * self.stride;
        let end = start + self.stride;
        let ghost before = self.bytes@;
        while self.bytes.len() < end
            invariant
                self.stride == old(self).stride,
                end == start + self.stride,
                self.bytes@.len() >= before.len(),
                self.bytes@.len() <= end || self.bytes@.len() == before.len(),
                forall|k: int| 0 <= k < self.bytes@.len() ==> #[trigger] self.bytes@[k] == if k < before.len() { before[k] } else { 0u8 },
            decreases end - self.bytes@.len(),
        {
            self.bytes.push(0u8);
        }
        let ghost grown = self.bytes@;
        let mut k: usize = 0;
        while k < self.stride
            invariant
                self.stride == old(self).stride,
                record@.len() == self.stride,
                end == start + self.stride,
                start + self.stride <= grown.len(),
                self.bytes@.len() == grown.len(),
                k <= self.stride,
                forall|j: int| 0 <= j < k ==> #[trigger] self.bytes@[start + j] == record@[j],
                forall|j: int| 0 <= j < grown.len() && !(start <= j < start + k) ==> #[trigger] self.bytes@[j] == grown[j],
            decreases self.stride - k,
        {
            self.bytes.set(start + k, record[k]);
            k = k + 1;
        }
        proof {
            assert(self.bytes@.subrange(start as int, end as int) =~= record@) by {
                assert forall|j: int| 0 <= j < self.stride implies #[trigger] self.bytes@.subrange(start as int, end as int)[j] == record@[j] by {
                    assert(self.bytes@[start + j] == record@[j]);
                }
            }
        }
    }

    /// A copy of the record at `index`.
    pub fn get(&self, index: usize) -> (r: Vec<u8>)
        requires
            index * self.spec_stride() + self.spec_stride() <= self.spec_bytes().len(),
        ensures
            r@ == self.spec_bytes().subrange(index * self.spec_stride(), index * self.spec_stride() + self.spec_stride()),
    {
        let total = self.bytes.len();
        assert(index * self.stride + self.stride <= total);
        let start = index * self.stride;
        let mut r: Vec<u8> = Vec::new();
        let mut k: usize = 0;
        while k < self.stride
            invariant
                start == index * self.stride,
                start + self.stride <= self.bytes@.len(),
                self.bytes@.len() == total,
                k <= self.stride,
                r@ == self.bytes@.subrange(start as int, start + k),
            decreases self.stride - k,
        {
            r.push(self.bytes[start + k]);
            proof {
                assert(self.bytes@.subrange(start as int, start + k + 1) =~= self.bytes@.subrange(start as int, start + k).push(self.bytes@[start + k]));
            }
            k = k + 1;
        }
        r
    }

    /// How many whole records the buffer holds.
    pub fn len(&self) -> (r: usize)
        requires
            self.spec_stride() > 0,
        ensures
            r as int == (self.spec_bytes().len() as int) / (self.spec_stride() as int),
    {
        self.bytes.len() / self.stride
    }

    /// How many bytes the buffer holds.
    pub fn bytes_len(&self) -> (r: usize)
        ensures
            r == self.spec_bytes().len(),
    {
        self.bytes.len()
    }

    /// The size of one record.
    pub fn stride(&self) -> (r: usize)
        ensures
            r == self.spec_stride(),
    {
        self.stride
    }

    /// The bytes themselves.
    pub fn as_bytes(&self) -> (r: &Vec<u8>)
        ensures
            r@ == self.spec_bytes(),
    {
        &self.bytes
    }
}

} // verus!
