//! A bump allocator over a fixed buffer of 16-byte cells. Blocks are handed
//! out one behind the other; a block that is given back in the middle is
//! joined to the block behind it, and the cursor falls back once the last
//! block is given back.

use crate::intern::Interned;
use crate::map::InternedMap;
use core::marker::PhantomData;
use vstd::layout::spec_size_of_val;
use vstd::pervasive::unreached;
use vstd::prelude::*;
use vstd::slice::slice_subrange;

verus! {

/// The size of a cell in bytes.
pub const ALIGN: usize = 16;

/// The number of bits by which a byte count is shifted to count cells.
pub const ALIGN_LOG: usize = 4;

/// The most cells that one block may span.
pub const MAX_CELLS_PER_ALLOC: usize = 0x100;

/// The most bytes that one block may hold.
pub const MAX_BYTES_PER_ALLOC: usize = 0x1000;

/// The number of cells of the buffer.
pub const NUM_CELLS: usize = 0x40000;

/// The number of cells that hold `bytes` bytes.
pub open spec fn cells_for(bytes: int) -> int {
    (bytes + ALIGN - 1) / (ALIGN as int)
}

/// The number of cells that hold `bytes` bytes.
pub fn aligned_cells(bytes: usize) -> (cells: usize)
    requires
        bytes <= MAX_BYTES_PER_ALLOC,
    ensures
        cells == cells_for(bytes as int),
        cells <= MAX_CELLS_PER_ALLOC,
        bytes > 0 ==> cells >= 1,
{
    let mut cells = bytes / ALIGN;
    if bytes % ALIGN != 0 {
        cells += 1;
    }
    cells
}

/// Grows `v` with zeros until it has the index `index`.
pub fn ensure_index(v: &mut Vec<usize>, index: usize)
    requires
        index < usize::MAX,
    ensures
        final(v)@.len() == (if old(v)@.len() > index {
            old(v)@.len() as int
        } else {
            index + 1
        }),
        forall|i: int| 0 <= i < old(v)@.len() ==> final(v)@[i] == old(v)@[i],
        forall|i: int| old(v)@.len() <= i < final(v)@.len() ==> final(v)@[i] == 0,
{
    while v.len() <= index
        invariant
            v@.len() >= old(v)@.len(),
            v@.len() <= (if old(v)@.len() > index {
                old(v)@.len() as int
            } else {
                index + 1
            }),
            forall|i: int| 0 <= i < old(v)@.len() ==> v@[i] == old(v)@[i],
            forall|i: int| old(v)@.len() <= i < v@.len() ==> v@[i] == 0,
        decreases index + 1 - v@.len(),
    {
        v.push(0);
    }
}

/// The end of the block in front of block `i`: where block `i` starts.
pub open spec fn start_of(ends: Seq<usize>, i: int) -> int {
    if i == 0 {
        0
    } else {
        ends[i - 1] as int
    }
}

/// Ends of blocks in strictly ascending order, the first above zero.
pub open spec fn ascending_ends(ends: Seq<usize>) -> bool {
    &&& forall|i: int, j: int| 0 <= i < j < ends.len() ==> ends[i] < ends[j]
    &&& forall|i: int| 0 <= i < ends.len() ==> ends[i] >= 1
}

/// In strictly ascending ends no end lies between two neighbours.
pub proof fn lemma_no_end_between(ends: Seq<usize>, i: int, j: usize)
    requires
        ascending_ends(ends),
        0 <= i < ends.len() - 1,
        ends.contains(j),
        ends[i] < j <= ends[i + 1],
    ensures
        j == ends[i + 1],
{
    let k = ends.index_of(j);
    if k <= i {
        if k < i {
            assert(ends[k] < ends[i]);
        }
    } else if k > i + 1 {
        assert(ends[i + 1] < ends[k]);
    }
}

/// The bookkeeping of the blocks: `sizes` holds, at the cell where a block
/// ends, the number of cells of that block, and zero at every other cell.
pub open spec fn bookkeeping(sizes: Seq<usize>, ends: Seq<usize>) -> bool {
    &&& ascending_ends(ends)
    &&& forall|i: int| 0 <= i < ends.len() ==> (#[trigger] ends[i]) < sizes.len()
    &&& forall|i: int|
        0 <= i < ends.len() ==> sizes[ends[i] as int] == ends[i] - #[trigger] start_of(ends, i)
    &&& forall|j: usize| j < sizes.len() && !(#[trigger] ends.contains(j)) ==> sizes[j as int] == 0
}

/// What the bookkeeping holds for block `i`: its size, which is at least one
/// cell and reaches back to the end of the block in front of it.
pub proof fn lemma_block(sizes: Seq<usize>, ends: Seq<usize>, i: int)
    requires
        bookkeeping(sizes, ends),
        0 <= i < ends.len(),
    ensures
        ends[i] < sizes.len(),
        sizes[ends[i] as int] == ends[i] - start_of(ends, i),
        1 <= sizes[ends[i] as int] <= ends[i],
{
    let start = start_of(ends, i);
    if i > 0 {
        assert(ends[i - 1] < ends[i]);
    }
}

/// The bookkeeping after a block is added behind the last one.
proof fn lemma_book_push(sizes: Seq<usize>, grown: Seq<usize>, ends: Seq<usize>, end: usize)
    requires
        bookkeeping(sizes, ends),
        end >= 1,
        ends.len() > 0 ==> ends.last() < end,
        sizes.len() <= grown.len(),
        end < grown.len(),
        forall|j: int| 0 <= j < sizes.len() && j != end ==> grown[j] == sizes[j],
        forall|j: int| sizes.len() <= j < grown.len() && j != end ==> grown[j] == 0,
        grown[end as int] == end - start_of(ends, ends.len() as int),
    ensures
        bookkeeping(grown, ends.push(end)),
{
    let after = ends.push(end);
    assert forall|i: int, j: int| 0 <= i < j < after.len() implies after[i] < after[j] by {
        if j == after.len() - 1 {
            if i < ends.len() - 1 {
                assert(ends[i] < ends[ends.len() - 1]);
            }
        }
    }
    assert forall|i: int| 0 <= i < after.len() implies (#[trigger] after[i]) < grown.len() by {
        if i < ends.len() {
            assert(after[i] == ends[i]);
        }
    }
    assert forall|i: int| 0 <= i < after.len() implies grown[after[i] as int] == after[i]
        - #[trigger] start_of(after, i) by {
        if i < ends.len() {
            assert(after[i] == ends[i]);
            assert(start_of(after, i) == start_of(ends, i));
            lemma_block(sizes, ends, i);
            if i < ends.len() - 1 {
                assert(ends[i] < ends[ends.len() - 1]);
            }
        } else {
            assert(start_of(after, i) == start_of(ends, ends.len() as int));
        }
    }
    assert forall|j: usize| j < grown.len() && !(#[trigger] after.contains(j)) implies grown[j as int]
        == 0 by {
        assert(after[after.len() - 1] == end);
        if j < sizes.len() && ends.contains(j) {
            let k = ends.index_of(j);
            assert(after[k] == j);
        }
    }
}

/// The bookkeeping after the last block is taken away.
proof fn lemma_book_drop_last(sizes: Seq<usize>, ends: Seq<usize>)
    requires
        bookkeeping(sizes, ends),
        ends.len() > 0,
    ensures
        bookkeeping(sizes.update(ends.last() as int, 0), ends.drop_last()),
{
    let after = ends.drop_last();
    lemma_block(sizes, ends, ends.len() - 1);
    let cleared = sizes.update(ends.last() as int, 0);
    assert forall|i: int, j: int| 0 <= i < j < after.len() implies after[i] < after[j] by {
        assert(ends[i] < ends[j]);
    }
    assert forall|i: int| 0 <= i < after.len() implies (#[trigger] after[i]) < cleared.len() by {
        assert(after[i] == ends[i]);
    }
    assert forall|i: int| 0 <= i < after.len() implies cleared[after[i] as int] == after[i]
        - #[trigger] start_of(after, i) by {
        assert(after[i] == ends[i]);
        assert(ends[i] < ends[ends.len() - 1]);
        assert(start_of(after, i) == start_of(ends, i));
        lemma_block(sizes, ends, i);
    }
    assert forall|j: usize|
        j < cleared.len() && !(#[trigger] after.contains(j)) implies cleared[j as int] == 0 by {
        if j != ends.last() && ends.contains(j) {
            let k = ends.index_of(j);
            assert(after[k] == j);
        }
    }
}

/// The bookkeeping after block `at` is joined to the block behind it.
proof fn lemma_book_join(sizes: Seq<usize>, ends: Seq<usize>, at: int)
    requires
        bookkeeping(sizes, ends),
        0 <= at < ends.len() - 1,
    ensures
        ends[at] < sizes.len(),
        ends[at + 1] < sizes.len(),
        sizes[ends[at + 1] as int] + sizes[ends[at] as int] <= ends[at + 1],
        bookkeeping(
            sizes.update(ends[at] as int, 0).update(
                ends[at + 1] as int,
                (sizes[ends[at + 1] as int] + sizes[ends[at] as int]) as usize,
            ),
            ends.remove(at),
        ),
{
    let after = ends.remove(at);
    let end = ends[at];
    let next = ends[at + 1];
    lemma_block(sizes, ends, at);
    lemma_block(sizes, ends, at + 1);
    assert(end < next);
    assert(start_of(ends, at + 1) == end);
    if at > 0 {
        assert(ends[at - 1] < ends[at]);
    }
    let joined = sizes.update(end as int, 0).update(
        next as int,
        (sizes[next as int] + sizes[end as int]) as usize,
    );
    assert forall|i: int, j: int| 0 <= i < j < after.len() implies after[i] < after[j] by {
        let a = if i < at {
            i
        } else {
            i + 1
        };
        let b = if j < at {
            j
        } else {
            j + 1
        };
        assert(ends[a] < ends[b]);
    }
    assert(joined.len() == sizes.len());
    assert forall|i: int| 0 <= i < after.len() implies (#[trigger] after[i]) < joined.len() by {
        if i < at {
            assert(after[i] == ends[i]);
        } else {
            assert(after[i] == ends[i + 1]);
        }
    }
    assert forall|i: int| 0 <= i < after.len() implies joined[after[i] as int] == after[i]
        - #[trigger] start_of(after, i) by {
        if i < at {
            assert(after[i] == ends[i]);
            assert(ends[i] < ends[at]);
            assert(ends[i] < ends[at + 1]);
            assert(start_of(after, i) == start_of(ends, i));
            lemma_block(sizes, ends, i);
        } else {
            assert(after[i] == ends[i + 1]);
            lemma_block(sizes, ends, i + 1);
            if i > at {
                assert(ends[at] < ends[i + 1]);
                assert(ends[at + 1] < ends[i + 1]);
                assert(start_of(after, i) == start_of(ends, i + 1));
            } else {
                assert(start_of(after, i) == start_of(ends, at));
            }
        }
    }
    assert forall|j: usize|
        j < joined.len() && !(#[trigger] after.contains(j)) implies joined[j as int] == 0 by {
        if j != end && ends.contains(j) {
            let k = ends.index_of(j);
            if k < at {
                assert(after[k] == j);
            } else {
                assert(after[k - 1] == j);
            }
        }
    }
}

/// The allocator, without the types of what it holds.
pub struct RawAllocator {
    buffer: Vec<u8>,
    prev_size: Vec<usize>,
    cursor: usize,
    ends: Ghost<Seq<usize>>,
}

impl RawAllocator {
    /// The ends of the blocks in use, in ascending order. A block reaches
    /// from the end of the block in front of it, or from zero, to its own end;
    /// a block given back in the middle has become part of the block behind it.
    pub closed spec fn ends(&self) -> Seq<usize> {
        self.ends@
    }

    /// The cell at which the next block starts.
    pub closed spec fn cursor(&self) -> usize {
        self.cursor
    }

    /// The bytes of the buffer.
    pub closed spec fn bytes(&self) -> Seq<u8> {
        self.buffer@
    }

    /// The bookkeeping: for each cell at which a block ends, the number of
    /// cells of that block, and zero for every other cell.
    pub closed spec fn size_seq(&self) -> Seq<usize> {
        self.prev_size@
    }

    /// The cursor stands at the end of the last block, within the buffer,
    /// and the bookkeeping holds for each block end the size of its block.
    pub closed spec fn wf(&self) -> bool {
        &&& self.buffer@.len() == NUM_CELLS * ALIGN
        &&& self.cursor < NUM_CELLS
        &&& self.cursor < self.prev_size@.len()
        &&& bookkeeping(self.prev_size@, self.ends@)
        &&& self.cursor == (if self.ends@.len() == 0 {
            0
        } else {
            self.ends@.last()
        })
    }

    /// What well-formedness says to the outside.
    pub proof fn lemma_wf(&self)
        requires
            self.wf(),
        ensures
            ascending_ends(self.ends()),
            self.cursor() < NUM_CELLS,
            self.bytes().len() == NUM_CELLS * ALIGN,
            self.cursor() == (if self.ends().len() == 0 {
                0
            } else {
                self.ends().last()
            }),
            self.cursor() < self.size_seq().len(),
            bookkeeping(self.size_seq(), self.ends()),
    {
    }

    /// An allocator with no block in use and a buffer of zeros.
    pub fn new() -> (allocator: Self)
        ensures
            allocator.wf(),
            allocator.ends() == Seq::<usize>::empty(),
            allocator.cursor() == 0,
            allocator.bytes() == Seq::new((NUM_CELLS * ALIGN) as nat, |i: int| 0u8),
    {
        let mut prev_size: Vec<usize> = Vec::new();
        prev_size.push(0);
        RawAllocator {
            buffer: vec![0u8; 0x400000],
            prev_size,
            cursor: 0,
            ends: Ghost(Seq::empty()),
        }
    }

    /// Tells whether a block of `bytes` bytes can be handed out.
    pub fn fits(&self, bytes: usize) -> (ok: bool)
        requires
            self.wf(),
        ensures
            ok == (0 < bytes <= MAX_BYTES_PER_ALLOC && self.cursor() + cells_for(bytes as int)
                < NUM_CELLS),
    {
        bytes > 0 && bytes <= MAX_BYTES_PER_ALLOC && self.cursor + aligned_cells(bytes) < NUM_CELLS
    }

    /// Hands out a block of `bytes` bytes and returns the cell at which it
    /// starts: the cell at which the cursor stood.
    pub fn allocate(&mut self, bytes: usize) -> (start: usize)
        requires
            old(self).wf(),
            0 < bytes <= MAX_BYTES_PER_ALLOC,
            old(self).cursor() + cells_for(bytes as int) < NUM_CELLS,
        ensures
            final(self).wf(),
            start == old(self).cursor(),
            final(self).cursor() == old(self).cursor() + cells_for(bytes as int),
            final(self).ends() == old(self).ends().push(final(self).cursor()),
            final(self).bytes() == old(self).bytes(),
    {
        let cells = aligned_cells(bytes);
        let start = self.cursor;
        let ghost before = self.ends@;
        self.cursor += cells;
        ensure_index(&mut self.prev_size, self.cursor);
        self.prev_size[self.cursor] = cells;
        self.ends = Ghost(before.push(self.cursor));
        proof {
            lemma_book_push(old(self).prev_size@, self.prev_size@, before, self.cursor);
        }
        start
    }

    /// Takes back the block of `size` bytes that starts at cell `index`.
    /// The last block frees its cells: the cursor falls back to the end of
    /// the block in front of it. A block in the middle is joined to the
    /// block behind it, and its cells are freed with that block.
    pub fn deallocate(&mut self, index: usize, size: usize)
        requires
            old(self).wf(),
            size <= MAX_BYTES_PER_ALLOC,
            old(self).ends().contains((index + cells_for(size as int)) as usize),
            index + cells_for(size as int) <= usize::MAX,
        ensures
            final(self).wf(),
            final(self).ends() == old(self).ends().remove(
                old(self).ends().index_of((index + cells_for(size as int)) as usize),
            ),
            final(self).bytes() == old(self).bytes(),
    {
        let num_cells = aligned_cells(size);
        let end = index + num_cells;
        let ghost before = self.ends@;
        let ghost at = before.index_of(end);
        proof {
            assert(before[at] == end);
            lemma_block(self.prev_size@, before, at);
            lemma_block(self.prev_size@, before, before.len() - 1);
            if at < before.len() - 1 {
                assert(before[at] < before[before.len() - 1]);
                lemma_block(self.prev_size@, before, at + 1);
            }
        }
        if self.cursor == end {
            proof {
                assert(before.remove(at) =~= before.drop_last());
                lemma_book_drop_last(self.prev_size@, before);
            }
            let to_dealloc = self.prev_size[self.cursor];
            self.prev_size[self.cursor] = 0;
            self.cursor -= to_dealloc;
            self.ends = Ghost(before.drop_last());
        } else {
            proof {
                lemma_book_join(self.prev_size@, before, at);
                assert(before[at] < before[at + 1]);
                assert(before.remove(at).last() == before.last());
            }
            let ghost next = before[at + 1];
            let prev_size = self.prev_size[end];
            self.prev_size[end] = 0;
            let bump_index = self.next_end(end, Ghost(next));
            proof {
                assert(old(self).prev_size@[bump_index as int] != 0);
                assert(before.contains(bump_index));
                lemma_no_end_between(before, at, bump_index);
            }
            self.prev_size[bump_index] = self.prev_size[bump_index] + prev_size;
            self.ends = Ghost(before.remove(at));
        }
    }

    /// The first cell behind `end` at which a block ends: the first with a
    /// size that is not zero.
    fn next_end(&self, end: usize, Ghost(next): Ghost<usize>) -> (found: usize)
        requires
            end < next < self.prev_size@.len(),
            self.prev_size@[next as int] != 0,
        ensures
            end < found <= next,
            self.prev_size@[found as int] != 0,
            forall|j: int| end < j < found ==> self.prev_size@[j] == 0,
    {
        let mut bump_index: usize = end + 1;
        while self.prev_size[bump_index] == 0
            invariant
                end < bump_index <= next,
                next < self.prev_size@.len(),
                self.prev_size@[next as int] != 0,
                forall|j: int| end < j < bump_index ==> self.prev_size@[j] == 0,
            decreases next - bump_index,
        {
            bump_index += 1;
        }
        bump_index
    }

    /// The `len` bytes that start at cell `index`.
    pub fn read(&self, index: usize, len: usize) -> (bytes: &[u8])
        requires
            self.wf(),
            index < NUM_CELLS,
            index * ALIGN + len <= NUM_CELLS * ALIGN,
        ensures
            bytes@ == self.bytes().subrange(index * ALIGN, index * ALIGN + len),
    {
        slice_subrange(self.buffer.as_slice(), index * ALIGN, index * ALIGN + len)
    }

    /// Writes `data` to the buffer, from cell `index` on.
    pub fn write(&mut self, index: usize, data: &[u8])
        requires
            old(self).wf(),
            index < NUM_CELLS,
            index * ALIGN + data@.len() <= NUM_CELLS * ALIGN,
        ensures
            final(self).wf(),
            final(self).ends() == old(self).ends(),
            final(self).cursor() == old(self).cursor(),
            final(self).bytes() == old(self).bytes().subrange(0, index * ALIGN) + data@ + old(
                self,
            ).bytes().subrange(index * ALIGN + data@.len(), NUM_CELLS * ALIGN),
    {
        let base = index * ALIGN;
        let mut i: usize = 0;
        while i < data.len()
            invariant
                i <= data@.len(),
                base == index * ALIGN,
                base + data@.len() <= NUM_CELLS * ALIGN,
                self.buffer@.len() == NUM_CELLS * ALIGN,
                self.prev_size == old(self).prev_size,
                self.cursor == old(self).cursor,
                self.ends == old(self).ends,
                forall|j: int| 0 <= j < base ==> self.buffer@[j] == old(self).buffer@[j],
                forall|j: int| 0 <= j < i ==> self.buffer@[base + j] == data@[j],
                forall|j: int|
                    base + i <= j < NUM_CELLS * ALIGN ==> self.buffer@[j] == old(self).buffer@[j],
            decreases data@.len() - i,
        {
            self.buffer[base + i] = data[i];
            i += 1;
        }
        proof {
            assert(self.bytes() =~= old(self).bytes().subrange(0, index * ALIGN) + data@ + old(
                self,
            ).bytes().subrange(index * ALIGN + data@.len(), NUM_CELLS * ALIGN));
        }
    }

    /// The cell at which the next block starts.
    pub fn position(&self) -> (cursor: usize)
        ensures
            cursor == self.cursor(),
    {
        self.cursor
    }

    /// The bookkeeping up to the cursor: for each cell at which a block
    /// ends, the number of cells of that block, and zero for every other cell.
    pub fn sizes(&self) -> (sizes: &[usize])
        requires
            self.wf(),
        ensures
            sizes@ == self.size_seq().take(self.cursor() + 1),
    {
        slice_subrange(self.prev_size.as_slice(), 0, self.cursor + 1)
    }
}

/// A block that is handed out and given back at once leaves the allocator
/// with the blocks it had.
pub proof fn lemma_allocate_deallocate(ends: Seq<usize>, end: usize)
    requires
        ascending_ends(ends),
        ends.len() > 0 ==> ends.last() < end,
        end >= 1,
    ensures
        ends.push(end).remove(ends.push(end).index_of(end)) == ends,
{
    let grown = ends.push(end);
    assert(grown[ends.len() as int] == end);
    let k = grown.index_of(end);
    if k < ends.len() {
        if k < ends.len() - 1 {
            assert(ends[k] < ends[ends.len() - 1]);
        }
    }
    assert(grown.remove(k) =~= ends);
}

/// An end of a block in use is not behind the cursor, and stays the end of a
/// block in use when another block is given back.
pub proof fn lemma_ends(ends: Seq<usize>, at: int, end: usize)
    requires
        ascending_ends(ends),
        ends.contains(end),
        0 <= at < ends.len(),
    ensures
        end <= ends.last(),
        end != ends[at] ==> ends.remove(at).contains(end),
        forall|e: usize| ends.remove(at).contains(e) ==> ends.contains(e) && e != ends[at],
{
    let k = ends.index_of(end);
    if k < ends.len() - 1 {
        assert(ends[k] < ends[ends.len() - 1]);
    }
    if end != ends[at] {
        if k < at {
            assert(ends.remove(at)[k] == end);
        } else {
            assert(ends.remove(at)[k - 1] == end);
        }
    }
    assert forall|e: usize| ends.remove(at).contains(e) implies ends.contains(e) && e
        != ends[at] by {
        let j = ends.remove(at).index_of(e);
        if j < at {
            assert(ends[j] == e);
            assert(ends[j] < ends[at]);
        } else {
            assert(ends[j + 1] == e);
            assert(ends[at] < ends[j + 1]);
        }
    }
}

/// The place of a value of type `T` in an allocator: the cell at which its
/// block starts, and its size in bytes.
#[derive(Debug)]
pub struct AllocIndex<T: ?Sized> {
    index: u32,
    size: u32,
    marker: PhantomData<T>,
}

impl<T: ?Sized> AllocIndex<T> {
    /// The cell at which the block starts.
    pub closed spec fn start(&self) -> u32 {
        self.index
    }

    /// The size of the value in bytes.
    pub closed spec fn bytes(&self) -> u32 {
        self.size
    }

    /// The cell at which the block starts.
    pub fn index(&self) -> (index: u32)
        ensures
            index == self.start(),
    {
        self.index
    }

    /// The size of the value in bytes.
    pub fn size(&self) -> (size: u32)
        ensures
            size == self.bytes(),
    {
        self.size
    }
}

/// A value in an allocator and the cell at which its block ends.
pub struct Slot<T: ?Sized> {
    end: usize,
    value: Box<T>,
}

/// An allocator of values of type `T`: each value is kept with a block of
/// the buffer, as large as the value, reserved for it.
pub struct Allocator<T: ?Sized> {
    raw: RawAllocator,
    values: InternedMap<Slot<T>>,
}

impl<T: ?Sized> Allocator<T> {
    /// The allocator of the blocks.
    pub closed spec fn raw(&self) -> RawAllocator {
        self.raw
    }

    /// Whether the allocator keeps a value at `index`.
    pub closed spec fn holds(&self, index: AllocIndex<T>) -> bool {
        &&& self.values@.dom().contains(index.index as u64)
        &&& self.values@[index.index as u64].end == index.index + cells_for(index.size as int)
        &&& index.size <= MAX_BYTES_PER_ALLOC
    }

    /// The value that the allocator keeps at `index`.
    pub closed spec fn value(&self, index: AllocIndex<T>) -> Box<T> {
        self.values@[index.index as u64].value
    }

    /// The blocks are well-formed, and every value has a block in use of its
    /// own, which starts in front of its end.
    pub closed spec fn wf(&self) -> bool {
        &&& self.raw.wf()
        &&& self.values.wf()
        &&& forall|k: u64|
            self.values@.dom().contains(k) ==> k < (#[trigger] self.values@[k]).end
                && self.raw.ends().contains(self.values@[k].end)
        &&& forall|j: u64, k: u64|
            self.values@.dom().contains(j) && self.values@.dom().contains(k) && j != k ==> (
            #[trigger] self.values@[j]).end != (#[trigger] self.values@[k]).end
    }

    /// In a well-formed allocator the blocks are well-formed.
    pub proof fn lemma_wf(&self)
        requires
            self.wf(),
        ensures
            self.raw().wf(),
    {
    }

    /// An allocator that keeps no value.
    pub fn new() -> (allocator: Self)
        ensures
            allocator.wf(),
            allocator.raw().ends() == Seq::<usize>::empty(),
            forall|index: AllocIndex<T>| !allocator.holds(index),
    {
        Allocator { raw: RawAllocator::new(), values: InternedMap::new() }
    }

    /// Tells whether a value of `bytes` bytes can be kept.
    pub fn fits(&self, bytes: usize) -> (ok: bool)
        requires
            self.wf(),
        ensures
            ok == (0 < bytes <= MAX_BYTES_PER_ALLOC && self.raw().cursor() + cells_for(
                bytes as int,
            ) < NUM_CELLS),
    {
        self.raw.fits(bytes)
    }

    /// Keeps a boxed value, in a block of its size, and returns its place.
    pub fn push_boxed(&mut self, value: Box<T>) -> (index: AllocIndex<T>)
        requires
            old(self).wf(),
            0 < spec_size_of_val::<T>(&*value) <= MAX_BYTES_PER_ALLOC,
            old(self).raw().cursor() + cells_for(spec_size_of_val::<T>(&*value) as int)
                < NUM_CELLS,
        ensures
            final(self).wf(),
            index.start() == old(self).raw().cursor(),
            index.bytes() == spec_size_of_val::<T>(&*value),
            final(self).holds(index),
            final(self).value(index) == value,
            final(self).raw().cursor() == old(self).raw().cursor() + cells_for(
                spec_size_of_val::<T>(&*value) as int,
            ),
            final(self).raw().ends() == old(self).raw().ends().push(final(self).raw().cursor()),
            forall|other: AllocIndex<T>|
                old(self).holds(other) ==> final(self).holds(other) && final(self).value(other)
                    == old(self).value(other),
    {
        let size = core::mem::size_of_val::<T>(&*value);
        proof {
            old(self).raw.lemma_wf();
            assert forall|k: u64| old(self).values@.dom().contains(k) implies k < old(
                self,
            ).raw.cursor() by {
                let e = old(self).values@[k].end;
                lemma_ends(old(self).raw.ends(), 0, e);
            }
        }
        let start = self.raw.allocate(size);
        let end = self.raw.position();
        let _ = self.values.insert(Interned(start as u64), Slot { end, value });
        proof {
            assert forall|k: u64| self.values@.dom().contains(k) implies k < (
            #[trigger] self.values@[k]).end && self.raw.ends().contains(self.values@[k].end) by {
                if k != start as u64 {
                    let e = old(self).values@[k].end;
                    let j = old(self).raw.ends().index_of(e);
                    assert(self.raw.ends()[j] == e);
                } else {
                    assert(self.raw.ends()[self.raw.ends().len() - 1] == end);
                }
            }
            assert forall|j: u64, k: u64|
                self.values@.dom().contains(j) && self.values@.dom().contains(k) && j
                    != k implies (#[trigger] self.values@[j]).end != (
            #[trigger] self.values@[k]).end by {
                if j != start as u64 {
                    lemma_ends(old(self).raw.ends(), 0, old(self).values@[j].end);
                }
                if k != start as u64 {
                    lemma_ends(old(self).raw.ends(), 0, old(self).values@[k].end);
                }
            }
        }
        AllocIndex { index: start as u32, size: size as u32, marker: PhantomData }
    }

    /// The value kept at `index`.
    pub fn get<'a>(&'a self, index: &'a AllocIndex<T>) -> (value: &'a T)
        requires
            self.wf(),
            self.holds(*index),
        ensures
            value == &*self.value(*index),
    {
        match self.values.get(Interned(index.index as u64)) {
            Some(slot) => &*slot.value,
            None => unreached(),
        }
    }

    /// The value kept at `index`, for writing. What the caller leaves there
    /// is what the allocator keeps at `index` afterwards.
    pub fn get_mut<'a>(&'a mut self, index: &'a mut AllocIndex<T>) -> (value: &'a mut T)
        requires
            old(self).wf(),
            old(self).holds(*old(index)),
        ensures
            *final(index) == *old(index),
            &*value == &*old(self).value(*old(index)),
            final(self).wf(),
            final(self).raw() == old(self).raw(),
            final(self).holds(*old(index)),
            &*final(self).value(*old(index)) == &*final(value),
            forall|other: AllocIndex<T>|
                old(self).holds(other) && other.start() != old(index).start() ==> final(self).holds(
                    other,
                ) && final(self).value(other) == old(self).value(other),
    {
        match self.values.get_mut(Interned(index.index as u64)) {
            Some(slot) => &mut *slot.value,
            None => unreached(),
        }
    }

    /// Gives the value kept at `index` back, dropping it, and its block with it.
    pub fn pop_unsized(&mut self, index: AllocIndex<T>)
        requires
            old(self).wf(),
            old(self).holds(index),
        ensures
            final(self).wf(),
            !final(self).holds(index),
            final(self).raw().ends() == old(self).raw().ends().remove(
                old(self).raw().ends().index_of(
                    (index.start() + cells_for(index.bytes() as int)) as usize,
                ),
            ),
            forall|other: AllocIndex<T>|
                old(self).holds(other) && other.start() != index.start() ==> final(self).holds(
                    other,
                ) && final(self).value(other) == old(self).value(other),
    {
        let _ = self.take(index);
    }

    /// Takes the value kept at `index` out, boxed, and gives its block back.
    pub fn take(&mut self, index: AllocIndex<T>) -> (value: Box<T>)
        requires
            old(self).wf(),
            old(self).holds(index),
        ensures
            final(self).wf(),
            value == old(self).value(index),
            !final(self).holds(index),
            final(self).raw().ends() == old(self).raw().ends().remove(
                old(self).raw().ends().index_of(
                    (index.start() + cells_for(index.bytes() as int)) as usize,
                ),
            ),
            forall|other: AllocIndex<T>|
                old(self).holds(other) && other.start() != index.start() ==> final(self).holds(
                    other,
                ) && final(self).value(other) == old(self).value(other),
    {
        let key = Interned(index.index as u64);
        let ghost end = old(self).values@[key.0].end;
        let ghost at = old(self).raw.ends().index_of(end);
        proof {
            old(self).raw.lemma_wf();
            assert(old(self).raw.ends().contains(end));
            assert(old(self).raw.ends()[at] == end);
        }
        let slot = match self.values.remove(key) {
            Some(slot) => slot,
            None => unreached(),
        };
        self.raw.deallocate(index.index as usize, index.size as usize);
        proof {
            assert forall|k: u64| self.values@.dom().contains(k) implies k < (
            #[trigger] self.values@[k]).end && self.raw.ends().contains(self.values@[k].end) by {
                let e = old(self).values@[k].end;
                assert(e != old(self).values@[key.0].end);
                lemma_ends(old(self).raw.ends(), at, e);
            }
        }
        slot.value
    }
}

impl<T> Allocator<T> {
    /// Keeps a value, in a block of its size, and returns its place.
    pub fn push(&mut self, value: T) -> (index: AllocIndex<T>)
        requires
            old(self).wf(),
            0 < spec_size_of_val::<T>(&value) <= MAX_BYTES_PER_ALLOC,
            old(self).raw().cursor() + cells_for(spec_size_of_val::<T>(&value) as int) < NUM_CELLS,
        ensures
            final(self).wf(),
            index.start() == old(self).raw().cursor(),
            index.bytes() == spec_size_of_val::<T>(&value),
            final(self).holds(index),
            *final(self).value(index) == value,
            final(self).raw().cursor() == old(self).raw().cursor() + cells_for(
                spec_size_of_val::<T>(&value) as int,
            ),
            final(self).raw().ends() == old(self).raw().ends().push(final(self).raw().cursor()),
            forall|other: AllocIndex<T>|
                old(self).holds(other) ==> final(self).holds(other) && final(self).value(other)
                    == old(self).value(other),
    {
        self.push_boxed(Box::new(value))
    }

    /// Takes the value kept at `index` out and gives its block back.
    pub fn pop(&mut self, index: AllocIndex<T>) -> (value: T)
        requires
            old(self).wf(),
            old(self).holds(index),
        ensures
            final(self).wf(),
            value == *old(self).value(index),
            !final(self).holds(index),
            final(self).raw().ends() == old(self).raw().ends().remove(
                old(self).raw().ends().index_of(
                    (index.start() + cells_for(index.bytes() as int)) as usize,
                ),
            ),
            forall|other: AllocIndex<T>|
                old(self).holds(other) && other.start() != index.start() ==> final(self).holds(
                    other,
                ) && final(self).value(other) == old(self).value(other),
    {
        *self.take(index)
    }
}


} // verus!
