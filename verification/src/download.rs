//! The range downloader: an object is fetched in blocks of a fixed size, by as
//! many workers at a time as the caller allows, and every block is put at its
//! own place in a buffer of the object's size. The workers and the fetching
//! are the caller's; the plan of the blocks and the assembly are here.

use vstd::prelude::*;
use crate::content::{write_at, write_bytes};

verus! {

/// The block size that the filesystem downloads with: 64 MiB.
pub const DEFAULT_BLOCK_SIZE: u64 = 0x400_0000;

/// A range of bytes of an object: from `start`, up to `end` and without it.
#[derive(Clone, Copy, Debug, PartialEq, Eq, Structural)]
pub struct ByteRange {
    pub start: u64,
    pub end: u64,
}

/// Why a download cannot go on.
#[derive(Clone, Copy, Debug, PartialEq, Eq, Structural)]
pub enum DownloadError {
    /// There is no block of that number.
    NoSuchBlock,
    /// The bytes handed in are not as many as the block has.
    WrongLength,
    /// Some block was never stored.
    Incomplete,
}

/// The number of blocks that an object of `size` bytes falls into.
pub open spec fn block_count(size: int, block_size: int) -> int {
    (size + block_size - 1) / block_size
}

/// Where block `i` starts.
pub open spec fn block_start(block_size: int, i: int) -> int {
    i * block_size
}

/// Where block `i` ends: a block size behind its start, or at the end of the
/// object for the last one.
pub open spec fn block_end(size: int, block_size: int, i: int) -> int {
    if (i + 1) * block_size < size {
        (i + 1) * block_size
    } else {
        size
    }
}

/// The blocks lie inside the object, one behind the other without a gap, none
/// of them empty and only the last one shorter than the block size.
pub proof fn lemma_block_bounds(size: int, block_size: int, i: int)
    requires
        0 <= size,
        0 < block_size,
        0 <= i < block_count(size, block_size),
    ensures
        0 <= block_start(block_size, i) < block_end(size, block_size, i) <= size,
        block_end(size, block_size, i) - block_start(block_size, i) <= block_size,
        i + 1 < block_count(size, block_size) ==> block_end(size, block_size, i) == block_start(
            block_size,
            i + 1,
        ) && block_end(size, block_size, i) - block_start(block_size, i) == block_size,
        i + 1 == block_count(size, block_size) ==> block_end(size, block_size, i) == size,
        block_start(block_size, 0) == 0,
{
    let n = block_count(size, block_size);
    assert(i * block_size < size && (i + 1) * block_size == i * block_size + block_size && (i + 1
        < n ==> (i + 1) * block_size < size) && (i + 1 == n ==> (i + 1) * block_size >= size) && 0
        * block_size == 0 && i * block_size >= 0) by (nonlinear_arith)
        requires
            0 <= size,
            0 < block_size,
            0 <= i < n,
            n == (size + block_size - 1) / block_size,
    ;
}

/// Every byte of the object lies in exactly one block: the one whose number is
/// the byte's place divided by the block size.
pub proof fn lemma_block_of_byte(size: int, block_size: int, p: int)
    requires
        0 < block_size,
        0 <= p < size,
    ensures
        0 <= p / block_size < block_count(size, block_size),
        block_start(block_size, p / block_size) <= p < block_end(size, block_size, p / block_size),
{
    let i = p / block_size;
    let n = block_count(size, block_size);
    assert(0 <= i < n && i * block_size <= p && p < (i + 1) * block_size) by (nonlinear_arith)
        requires
            0 < block_size,
            0 <= p < size,
            i == p / block_size,
            n == (size + block_size - 1) / block_size,
    ;
}

/// Two different blocks share no byte.
pub proof fn lemma_blocks_apart(size: int, block_size: int, i: int, j: int)
    requires
        0 <= size,
        0 < block_size,
        0 <= i < j,
    ensures
        block_end(size, block_size, i) <= block_start(block_size, j),
{
    assert((i + 1) * block_size <= j * block_size) by (nonlinear_arith)
        requires
            0 < block_size,
            0 <= i < j,
    ;
}

/// Plans the download of an object of `size` bytes: its blocks in order.
pub fn plan_blocks(size: u64, block_size: u64) -> (blocks: Vec<ByteRange>)
    requires
        block_size > 0,
    ensures
        blocks@.len() == block_count(size as int, block_size as int),
        forall|i: int|
            0 <= i < blocks@.len() ==> (#[trigger] blocks@[i]).start == block_start(
                block_size as int,
                i,
            ) && blocks@[i].end == block_end(size as int, block_size as int, i),
{
    let mut blocks: Vec<ByteRange> = Vec::new();
    let mut start: u64 = 0;
    let ghost n = block_count(size as int, block_size as int);
    proof {
        assert(0 * (block_size as int) == 0) by (nonlinear_arith);
        assert(n >= 0 && (size == 0 ==> n == 0) && (size > 0 ==> n > 0)) by (nonlinear_arith)
            requires
                0 < block_size,
                0 <= size,
                n == (size + block_size - 1) / (block_size as int),
        ;
    }
    while start < size
        invariant
            block_size > 0,
            n == block_count(size as int, block_size as int),
            0 <= blocks@.len() <= n,
            start == if blocks@.len() < n {
                block_start(block_size as int, blocks@.len() as int)
            } else {
                size as int
            },
            forall|i: int|
                0 <= i < blocks@.len() ==> (#[trigger] blocks@[i]).start == block_start(
                    block_size as int,
                    i,
                ) && blocks@[i].end == block_end(size as int, block_size as int, i),
        decreases size - start,
    {
        let ghost i = blocks@.len() as int;
        proof {
            lemma_block_bounds(size as int, block_size as int, i);
        }
        let end = if size - start > block_size {
            start + block_size
        } else {
            size
        };
        blocks.push(ByteRange { start, end });
        start = end;
    }
    proof {
        if blocks@.len() < n {
            lemma_block_bounds(size as int, block_size as int, blocks@.len() as int);
        }
    }
    blocks
}

/// A download in progress, as a mathematical value.
pub struct DownloadView {
    pub size: u64,
    pub block_size: u64,
    /// The buffer: as long as the object, zero where nothing was stored yet.
    pub bytes: Seq<u8>,
    /// For every block, whether it was stored.
    pub done: Seq<bool>,
}

impl DownloadView {
    /// The buffer has the object's size and every block has its flag.
    pub open spec fn wf(self) -> bool {
        &&& self.block_size > 0
        &&& self.bytes.len() == self.size
        &&& self.done.len() == block_count(self.size as int, self.block_size as int)
    }

    /// A download of an object of `size` bytes before anything was stored.
    pub open spec fn fresh(size: u64, block_size: u64) -> DownloadView {
        DownloadView {
            size,
            block_size,
            bytes: Seq::new(size as nat, |i: int| 0u8),
            done: Seq::new(block_count(size as int, block_size as int) as nat, |i: int| false),
        }
    }

    /// The range of block `i`.
    pub open spec fn range(self, i: int) -> (int, int) {
        (
            block_start(self.block_size as int, i),
            block_end(self.size as int, self.block_size as int, i),
        )
    }

    /// The download after `data` was stored as block `i`.
    pub open spec fn stored(self, i: int, data: Seq<u8>) -> DownloadView {
        DownloadView {
            bytes: write_bytes(self.bytes, self.range(i).0, data),
            done: self.done.update(i, true),
            ..self
        }
    }

    /// Every block was stored.
    pub open spec fn complete(self) -> bool {
        forall|i: int| 0 <= i < self.done.len() ==> self.done[i]
    }

    /// Every block that was stored holds the bytes of `source` in its range.
    pub open spec fn agrees_with(self, source: Seq<u8>) -> bool {
        forall|i: int|
            0 <= i < self.done.len() && #[trigger] self.done[i] ==> self.bytes.subrange(
                self.range(i).0,
                self.range(i).1,
            ) == source.subrange(self.range(i).0, self.range(i).1)
    }

    /// The download after the blocks named in `order` were fetched from
    /// `source` and stored, one after the other.
    pub open spec fn fetched(self, source: Seq<u8>, order: Seq<int>) -> DownloadView
        decreases order.len(),
    {
        if order.len() == 0 {
            self
        } else {
            self.stored(
                order[0],
                source.subrange(self.range(order[0]).0, self.range(order[0]).1),
            ).fetched(source, order.drop_first())
        }
    }
}

/// A block that holds the source's bytes keeps the download in agreement with
/// the source, whatever was stored before it.
pub proof fn lemma_store_keeps_agreement(d: DownloadView, source: Seq<u8>, i: int)
    requires
        d.wf(),
        source.len() == d.size,
        d.agrees_with(source),
        0 <= i < d.done.len(),
    ensures
        d.stored(i, source.subrange(d.range(i).0, d.range(i).1)).wf(),
        d.stored(i, source.subrange(d.range(i).0, d.range(i).1)).agrees_with(source),
{
    let (start, end) = d.range(i);
    let data = source.subrange(start, end);
    let after = d.stored(i, data);
    lemma_block_bounds(d.size as int, d.block_size as int, i);
    assert(after.bytes.len() == d.size);
    assert forall|j: int| 0 <= j < after.done.len() && #[trigger] after.done[j] implies after.bytes.subrange(
        after.range(j).0,
        after.range(j).1,
    ) == source.subrange(after.range(j).0, after.range(j).1) by {
        lemma_block_bounds(d.size as int, d.block_size as int, j);
        let (js, je) = d.range(j);
        if j == i {
            assert(after.bytes.subrange(js, je) =~= source.subrange(js, je));
        } else {
            if j < i {
                lemma_blocks_apart(d.size as int, d.block_size as int, j, i);
            } else {
                lemma_blocks_apart(d.size as int, d.block_size as int, i, j);
            }
            assert(d.done[j]);
            assert(after.bytes.subrange(js, je) =~= d.bytes.subrange(js, je));
        }
    }
}

/// A complete download that agrees with the source is the source.
pub proof fn lemma_complete_is_source(d: DownloadView, source: Seq<u8>)
    requires
        d.wf(),
        source.len() == d.size,
        d.agrees_with(source),
        d.complete(),
    ensures
        d.bytes == source,
{
    assert forall|p: int| 0 <= p < d.size implies d.bytes[p] == source[p] by {
        lemma_block_of_byte(d.size as int, d.block_size as int, p);
        let i = p / (d.block_size as int);
        assert(d.done[i]);
        let (start, end) = d.range(i);
        assert(d.bytes[p] == d.bytes.subrange(start, end)[p - start]);
        assert(source[p] == source.subrange(start, end)[p - start]);
    }
    assert(d.bytes =~= source);
}

proof fn lemma_fetched(d: DownloadView, source: Seq<u8>, order: Seq<int>)
    requires
        d.wf(),
        source.len() == d.size,
        d.agrees_with(source),
        forall|k: int| 0 <= k < order.len() ==> 0 <= #[trigger] order[k] < d.done.len(),
    ensures
        d.fetched(source, order).wf(),
        d.fetched(source, order).agrees_with(source),
        d.fetched(source, order).done.len() == d.done.len(),
        d.fetched(source, order).size == d.size,
        d.fetched(source, order).block_size == d.block_size,
        forall|i: int|
            0 <= i < d.done.len() && d.done[i] ==> #[trigger] d.fetched(source, order).done[i],
        forall|k: int|
            0 <= k < order.len() ==> d.fetched(source, order).done[#[trigger] order[k]],
    decreases order.len(),
{
    if order.len() > 0 {
        let first = order[0];
        lemma_block_bounds(d.size as int, d.block_size as int, first);
        let next = d.stored(first, source.subrange(d.range(first).0, d.range(first).1));
        let rest = order.drop_first();
        lemma_store_keeps_agreement(d, source, first);
        assert forall|k: int| 0 <= k < rest.len() implies 0 <= #[trigger] rest[k]
            < next.done.len() by {
            assert(rest[k] == order[k + 1]);
        }
        lemma_fetched(next, source, rest);
        let last = next.fetched(source, rest);
        assert(d.fetched(source, order) == last);
        assert forall|i: int| 0 <= i < d.done.len() && d.done[i] implies #[trigger] last.done[i] by {
            assert(next.done[i]);
        }
        assert forall|k: int| 0 <= k < order.len() implies last.done[#[trigger] order[k]] by {
            if k == 0 {
                assert(next.done[first]);
            } else {
                assert(rest[k - 1] == order[k]);
            }
        }
    }
}

/// The downloader is correct in any order: when every block of the object is
/// fetched from the source and stored, in whatever order the workers finish
/// and however many of them run at a time, the buffer ends up holding the
/// source, byte for byte.
pub proof fn lemma_download_any_order(
    size: u64,
    block_size: u64,
    source: Seq<u8>,
    order: Seq<int>,
)
    requires
        block_size > 0,
        source.len() == size,
        forall|k: int|
            0 <= k < order.len() ==> 0 <= #[trigger] order[k] < block_count(
                size as int,
                block_size as int,
            ),
        forall|i: int|
            0 <= i < block_count(size as int, block_size as int) ==> order.contains(i),
    ensures
        DownloadView::fresh(size, block_size).fetched(source, order).bytes == source,
        DownloadView::fresh(size, block_size).fetched(source, order).complete(),
{
    let d = DownloadView::fresh(size, block_size);
    assert(block_count(size as int, block_size as int) >= 0) by (nonlinear_arith)
        requires
            block_size > 0,
            size >= 0,
    ;
    lemma_fetched(d, source, order);
    let last = d.fetched(source, order);
    assert forall|i: int| 0 <= i < last.done.len() implies last.done[i] by {
        assert(order.contains(i));
        let k = choose|k: int| 0 <= k < order.len() && order[k] == i;
        assert(last.done[order[k]]);
    }
    lemma_complete_is_source(last, source);
}

/// A download in progress: the buffer that the blocks are assembled in, and
/// which of them have arrived.
pub struct Download {
    size: u64,
    block_size: u64,
    buffer: Vec<u8>,
    done: Vec<bool>,
}

impl View for Download {
    type V = DownloadView;

    closed spec fn view(&self) -> DownloadView {
        DownloadView {
            size: self.size,
            block_size: self.block_size,
            bytes: self.buffer@,
            done: self.done@,
        }
    }
}

impl Download {
    #[verifier::type_invariant]
    spec fn well_formed(&self) -> bool {
        self@.wf()
    }

    /// Starts the download of an object of `size` bytes in blocks of
    /// `block_size`: a buffer of `size` zero bytes and no block stored.
    /// `None` when the block size is zero or the machine cannot address a
    /// buffer of that size.
    pub fn new(size: u64, block_size: u64) -> (download: Option<Download>)
        ensures
            download is Some <==> block_size > 0 && size <= usize::MAX,
            download matches Some(d) ==> d@ == DownloadView::fresh(size, block_size) && d@.wf(),
    {
        if block_size == 0 || size > usize::MAX as u64 {
            return None;
        }
        let mut buffer: Vec<u8> = Vec::new();
        let mut i: u64 = 0;
        while i < size
            invariant
                i <= size,
                buffer@ == Seq::new(i as nat, |k: int| 0u8),
            decreases size - i,
        {
            buffer.push(0u8);
            i += 1;
            assert(buffer@ =~= Seq::new(i as nat, |k: int| 0u8));
        }
        assert(size / block_size < u64::MAX || size % block_size == 0) by (nonlinear_arith)
            requires
                block_size > 0,
        ;
        let count = size / block_size + if size % block_size == 0 {
            0
        } else {
            1
        };
        assert(count == block_count(size as int, block_size as int)) by (nonlinear_arith)
            requires
                block_size > 0,
                count == size / block_size + if size % block_size == 0 {
                    0int
                } else {
                    1int
                },
        ;
        let mut done: Vec<bool> = Vec::new();
        let mut j: u64 = 0;
        while j < count
            invariant
                j <= count,
                done@ == Seq::new(j as nat, |k: int| false),
            decreases count - j,
        {
            done.push(false);
            j += 1;
            assert(done@ =~= Seq::new(j as nat, |k: int| false));
        }
        Some(Download { size, block_size, buffer, done })
    }

    /// The number of blocks.
    pub fn block_count(&self) -> (n: usize)
        ensures
            n == self@.done.len(),
            self@.wf(),
    {
        proof {
            use_type_invariant(self);
        }
        self.done.len()
    }

    /// The range of block `index`, or `None` when there is no such block.
    pub fn block(&self, index: usize) -> (range: Option<ByteRange>)
        ensures
            range is Some <==> index < self@.done.len(),
            range matches Some(r) ==> r.start == self@.range(index as int).0 && r.end
                == self@.range(index as int).1,
    {
        proof {
            use_type_invariant(self);
        }
        if index >= self.done.len() {
            return None;
        }
        proof {
            lemma_block_bounds(self.size as int, self.block_size as int, index as int);
            assert((index as int + 1) * (self.block_size as int) == index * self.block_size
                + self.block_size) by (nonlinear_arith);
        }
        let start = index as u64 * self.block_size;
        let end = if self.size - start > self.block_size {
            start + self.block_size
        } else {
            self.size
        };
        Some(ByteRange { start, end })
    }

    /// Puts the bytes of block `index` at their place in the buffer and
    /// answers with their number. Nothing changes when there is no such block
    /// or the bytes are not as many as the block has.
    pub fn store_block(&mut self, index: usize, data: &[u8]) -> (stored: Result<u64, DownloadError>)
        ensures
            match stored {
                Ok(n) => {
                    &&& index < old(self)@.done.len()
                    &&& n == data@.len()
                    &&& n == old(self)@.range(index as int).1 - old(self)@.range(index as int).0
                    &&& final(self)@ == old(self)@.stored(index as int, data@)
                },
                Err(e) => {
                    &&& final(self)@ == old(self)@
                    &&& e == if index >= old(self)@.done.len() {
                        DownloadError::NoSuchBlock
                    } else {
                        DownloadError::WrongLength
                    }
                    &&& index >= old(self)@.done.len() || data@.len() != old(self)@.range(
                        index as int,
                    ).1 - old(self)@.range(index as int).0
                },
            },
    {
        proof {
            use_type_invariant(&*self);
        }
        let range = match self.block(index) {
            Some(range) => range,
            None => {
                return Err(DownloadError::NoSuchBlock);
            },
        };
        proof {
            lemma_block_bounds(self.size as int, self.block_size as int, index as int);
        }
        if data.len() as u64 != range.end - range.start {
            return Err(DownloadError::WrongLength);
        }
        let mut taken = Download { size: 0, block_size: 1, buffer: Vec::new(), done: Vec::new() };
        std::mem::swap(self, &mut taken);
        let Download { size, block_size, mut buffer, mut done } = taken;
        let _ = buffer.len();
        write_at(&mut buffer, range.start as usize, data);
        done.set(index, true);
        *self = Download { size, block_size, buffer, done };
        Ok(range.end - range.start)
    }

    /// Ends the download: the assembled bytes and their number, once every
    /// block was stored.
    pub fn finish(self) -> (result: Result<(Vec<u8>, u64), DownloadError>)
        ensures
            match result {
                Ok((bytes, total)) => self@.complete() && bytes@ == self@.bytes && total
                    == self@.size && total == bytes@.len(),
                Err(e) => e == DownloadError::Incomplete && !self@.complete(),
            },
    {
        proof {
            use_type_invariant(&self);
        }
        let mut i: usize = 0;
        while i < self.done.len()
            invariant
                i <= self.done.len(),
                forall|j: int| 0 <= j < i ==> self.done@[j],
            decreases self.done.len() - i,
        {
            if !self.done[i] {
                assert(!self@.done[i as int]);
                return Err(DownloadError::Incomplete);
            }
            i += 1;
        }
        let size = self.size;
        Ok((self.buffer, size))
    }
}

} // verus!
