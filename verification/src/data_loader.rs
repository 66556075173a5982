use vstd::prelude::*;

verus! {

/// A restartable batch iterator over a flat stream of token ids.
///
/// Each batch is a pair of flat buffers of `batch_size * seq_len` ids:
/// the inputs, and the targets, which are the same stream shifted one
/// position ahead. When too little of the stream is left for a full
/// batch, the cursor wraps to the start.
pub struct DataLoader {
    pub data: Vec<usize>,
    pub batch_size: usize,
    pub seq_len: usize,
}

impl DataLoader {
    /// Ids per batch.
    pub open spec fn batch_span(&self) -> int {
        self.batch_size * self.seq_len
    }

    /// The stream must hold at least one full batch plus the extra id
    /// that the shifted targets of the last position need.
    pub open spec fn wf(&self) -> bool {
        &&& self.batch_size >= 1
        &&& self.seq_len >= 1
        &&& self.batch_span() + 1 <= self.data@.len()
    }

    /// Takes the already-encoded id stream; reading and encoding a text
    /// file is the embedding program's part.
    pub fn new(data: Vec<usize>, batch_size: usize, seq_len: usize) -> (r: DataLoader)
        requires
            batch_size >= 1,
            seq_len >= 1,
            batch_size * seq_len + 1 <= data@.len(),
        ensures
            r.wf(),
            r.data == data,
            r.batch_size == batch_size,
            r.seq_len == seq_len,
    {
        DataLoader { data, batch_size, seq_len }
    }

    /// A fresh cursor at the start of the stream.
    pub fn iter(&self) -> (r: DataLoaderIter)
        ensures
            r.pos == 0,
    {
        DataLoaderIter { pos: 0 }
    }

    /// How many disjoint full batches the stream holds.
    pub fn len(&self) -> (r: usize)
        requires
            self.wf(),
        ensures
            r == (self.data@.len() - 1) as int / self.batch_span(),
    {
        proof {
            assert(self.batch_size * self.seq_len >= 1) by (nonlinear_arith)
                requires
                    self.batch_size >= 1,
                    self.seq_len >= 1,
            ;
        }
        (self.data.len() - 1) / (self.batch_size * self.seq_len)
    }
}

/// A cursor into a `DataLoader`'s stream.
pub struct DataLoaderIter {
    pub pos: usize,
}

impl DataLoaderIter {
    /// The next `(input, target)` batch: `batch_size * seq_len` ids from
    /// the cursor on, and the same span shifted one position ahead. The
    /// cursor wraps to the start of the stream when what is left of it
    /// cannot fill a batch; a batch is therefore always returned, and the
    /// stream is cycled through indefinitely.
    pub fn next(&mut self, loader: &DataLoader) -> (r: Option<(Vec<usize>, Vec<usize>)>)
        requires
            loader.wf(),
        ensures
            ({
                let n = loader.batch_span();
                let start = if old(self).pos + n + 1 > loader.data@.len() {
                    0int
                } else {
                    old(self).pos as int
                };
                &&& final(self).pos == start + n
                &&& (r matches Some(b) && b.0@ == loader.data@.subrange(start, start + n)
                    && b.1@ == loader.data@.subrange(start + 1, start + n + 1))
            }),
    {
        let len = loader.data.len();
        let n = loader.batch_size * loader.seq_len;
        if self.pos > len - n - 1 {
            self.pos = 0;
        }
        let start = self.pos;
        let mut input: Vec<usize> = Vec::new();
        let mut target: Vec<usize> = Vec::new();
        let mut k: usize = 0;
        while k < n
            invariant
                loader.wf(),
                n == loader.batch_span(),
                loader.data@.len() <= usize::MAX,
                start + n + 1 <= loader.data@.len(),
                0 <= k <= n,
                input@ == loader.data@.subrange(start as int, start + k),
                target@ == loader.data@.subrange(start + 1, start + k + 1),
            decreases n - k,
        {
            input.push(loader.data[start + k]);
            target.push(loader.data[start + k + 1]);
            proof {
                assert(input@ =~= loader.data@.subrange(start as int, start + k + 1));
                assert(target@ =~= loader.data@.subrange(start + 1, start + k + 2));
            }
            k = k + 1;
        }
        self.pos = start + n;
        Some((input, target))
    }
}

} // verus!
