//! The cached content of a file as a run of bytes, with the two positional
//! operations that the filesystem performs on it.

use vstd::prelude::*;

verus! {

/// What a read of `size` bytes at `offset` yields: the bytes of the content
/// from `offset` on, as many as there are and at most `size`.
pub open spec fn read_bytes(content: Seq<u8>, offset: int, size: int) -> Seq<u8> {
    let start = if offset < content.len() {
        offset
    } else {
        content.len() as int
    };
    let end = if offset + size < content.len() {
        offset + size
    } else {
        content.len() as int
    };
    content.subrange(start, end)
}

/// The content after `data` was written at `offset`: a content that ends
/// before `offset` is first filled up to it with zero bytes, then `data`
/// replaces what stood in its place, and what stood behind it stays.
pub open spec fn write_bytes(content: Seq<u8>, offset: int, data: Seq<u8>) -> Seq<u8> {
    let filled = if content.len() < offset {
        content + Seq::new((offset - content.len()) as nat, |i: int| 0u8)
    } else {
        content
    };
    let behind = if offset + data.len() < filled.len() {
        filled.subrange(offset + data.len(), filled.len() as int)
    } else {
        Seq::<u8>::empty()
    };
    filled.subrange(0, offset) + data + behind
}

/// A read never yields more than was asked for nor more than the content has
/// behind the offset, and every byte it yields is the content's byte at that
/// place. At or behind the end it yields nothing.
pub proof fn lemma_read_is_short(content: Seq<u8>, offset: int, size: int)
    requires
        0 <= offset,
        0 <= size,
    ensures
        read_bytes(content, offset, size).len() <= size,
        read_bytes(content, offset, size).len() == if offset >= content.len() {
            0
        } else if content.len() - offset < size {
            content.len() - offset
        } else {
            size
        },
        forall|i: int|
            0 <= i < read_bytes(content, offset, size).len() ==> read_bytes(content, offset, size)[i]
                == content[offset + i],
{
}

/// The length of a content after a write.
pub proof fn lemma_write_length(content: Seq<u8>, offset: int, data: Seq<u8>)
    requires
        0 <= offset,
    ensures
        write_bytes(content, offset, data).len() == if content.len() < offset + data.len() {
            offset + data.len()
        } else {
            content.len() as int
        },
{
}

/// What was written is read back: a read of the written length at the written
/// offset yields the written bytes.
pub proof fn lemma_read_after_write(content: Seq<u8>, offset: int, data: Seq<u8>)
    requires
        0 <= offset,
    ensures
        read_bytes(write_bytes(content, offset, data), offset, data.len() as int) == data,
{
    lemma_write_length(content, offset, data);
    assert(read_bytes(write_bytes(content, offset, data), offset, data.len() as int) =~= data);
}

/// A write leaves every byte outside its range as it was.
pub proof fn lemma_write_keeps_rest(content: Seq<u8>, offset: int, data: Seq<u8>, i: int)
    requires
        0 <= offset,
        0 <= i < content.len(),
        i < offset || offset + data.len() <= i,
    ensures
        write_bytes(content, offset, data)[i] == content[i],
{
}

/// Reads up to `size` bytes at `offset`.
pub fn read_at(content: &[u8], offset: u64, size: u32) -> (bytes: Vec<u8>)
    ensures
        bytes@ == read_bytes(content@, offset as int, size as int),
{
    let len = content.len();
    let mut bytes: Vec<u8> = Vec::new();
    if offset >= len as u64 {
        assert(bytes@ =~= read_bytes(content@, offset as int, size as int));
        return bytes;
    }
    let start = offset as usize;
    let available = len - start;
    let count: usize = if (size as u64) < available as u64 {
        size as usize
    } else {
        available
    };
    let mut i: usize = 0;
    while i < count
        invariant
            i <= count,
            start + count <= len,
            len == content@.len(),
            bytes@ == content@.subrange(start as int, start + i),
        decreases count - i,
    {
        bytes.push(content[start + i]);
        assert(bytes@ =~= content@.subrange(start as int, start + i + 1));
        i += 1;
    }
    assert(bytes@ =~= read_bytes(content@, offset as int, size as int));
    bytes
}

/// Writes `data` at `offset`, filling a gap before it with zero bytes.
pub fn write_at(content: &mut Vec<u8>, offset: usize, data: &[u8])
    requires
        offset + data@.len() <= usize::MAX,
    ensures
        final(content)@ == write_bytes(old(content)@, offset as int, data@),
{
    let ghost before = content@;
    while content.len() < offset
        invariant
            before.len() <= content@.len(),
            content@.len() <= offset || content@ == before,
            content@ == before + Seq::new((content@.len() - before.len()) as nat, |i: int| 0u8),
        decreases offset - content.len(),
    {
        let ghost prev = content@;
        content.push(0u8);
        assert(content@ =~= before + Seq::new(
            (content@.len() - before.len()) as nat,
            |i: int| 0u8,
        ));
    }
    let ghost filled = content@;
    assert(filled =~= if before.len() < offset {
        before + Seq::new((offset - before.len()) as nat, |i: int| 0u8)
    } else {
        before
    });
    let n = data.len();
    let mut i: usize = 0;
    while i < n
        invariant
            i <= n,
            n == data@.len(),
            offset + n <= usize::MAX,
            offset <= filled.len(),
            content@.len() == if filled.len() < offset + i {
                offset + i
            } else {
                filled.len() as int
            },
            forall|j: int| 0 <= j < offset ==> content@[j] == filled[j],
            forall|j: int| offset <= j < offset + i ==> content@[j] == data@[j - offset],
            forall|j: int| offset + i <= j < content@.len() ==> content@[j] == filled[j],
        decreases n - i,
    {
        if offset + i < content.len() {
            content.set(offset + i, data[i]);
        } else {
            content.push(data[i]);
        }
        i += 1;
    }
    assert(content@ =~= write_bytes(before, offset as int, data@));
}

} // verus!
