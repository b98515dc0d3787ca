//! A chunk of executable code: an instruction stream that only grows, the
//! pool of constants it refers to, and a table that says which part of the
//! source each instruction came from.

use super::value::Value;
use std::ops::Range;
use vstd::prelude::*;

verus! {

/// The largest number of constants in one chunk: an instruction names a
/// constant by a single byte.
pub const MAX_CONSTANTS: usize = 256;

/// What a chunk holds.
pub struct ChunkView {
    /// The instruction stream.
    pub code: Seq<u8>,
    /// The constant pool.
    pub constants: Seq<Value>,
    /// The span table: a code offset, and the source span that is in effect
    /// from that offset up to the offset of the next entry.
    pub spans: Seq<(usize, Range<usize>)>,
}

impl ChunkView {
    /// The chunk's invariant: the code can be addressed; the pool holds at
    /// most `MAX_CONSTANTS` constants; the span table starts with an entry
    /// for offset 0, its offsets never decrease, and none lies beyond the
    /// end of the code.
    pub open spec fn wf(self) -> bool {
        &&& self.code.len() <= usize::MAX
        &&& self.constants.len() <= MAX_CONSTANTS
        &&& self.spans.len() > 0
        &&& self.spans[0].0 == 0
        &&& forall|i: int, j: int|
            0 <= i <= j < self.spans.len() ==> self.spans[i].0 <= self.spans[j].0
        &&& forall|i: int| 0 <= i < self.spans.len() ==> (#[trigger] self.spans[i]).0 <= self.code.len()
    }

    /// Whether entry `j` of the span table is the one in effect at `offset`:
    /// it starts at or before `offset`, and the next entry, if there is one,
    /// starts after it.
    pub open spec fn covers(self, j: int, offset: int) -> bool {
        &&& 0 <= j < self.spans.len()
        &&& self.spans[j].0 <= offset
        &&& j + 1 < self.spans.len() ==> self.spans[j + 1].0 > offset
    }

    /// The index of the entry in effect at `offset`.
    pub open spec fn span_index(self, offset: int) -> int {
        choose|j: int| self.covers(j, offset)
    }

    /// The entry in effect at `offset`.
    pub open spec fn span_of(self, offset: int) -> (usize, Range<usize>) {
        self.spans[self.span_index(offset)]
    }

    /// At most one entry is in effect at an offset.
    pub proof fn covering_entry_is_unique(self, offset: int, j: int, k: int)
        requires
            self.wf(),
            self.covers(j, offset),
            self.covers(k, offset),
        ensures
            j == k,
    {
        if j < k {
            assert(self.spans[j + 1].0 <= self.spans[k].0);
        } else if k < j {
            assert(self.spans[k + 1].0 <= self.spans[j].0);
        }
    }

    /// Some entry is in effect at every offset.
    pub proof fn some_entry_covers(self, offset: int)
        requires
            self.wf(),
            0 <= offset,
        ensures
            self.covers(self.span_index(offset), offset),
    {
        let count = self.spans.len() as int;
        self.covered_among(offset, count);
        let j = choose|j: int|
            0 <= j < count && (#[trigger] self.spans[j]).0 <= offset && (j + 1 < count
                ==> self.spans[j + 1].0 > offset);
        assert(self.covers(j, offset));
    }

    /// Among the first `count` entries, the last one that starts at or
    /// before `offset` is followed, if at all, by one that starts after it.
    proof fn covered_among(self, offset: int, count: int)
        requires
            self.wf(),
            0 <= offset,
            1 <= count <= self.spans.len(),
        ensures
            exists|j: int|
                0 <= j < count && (#[trigger] self.spans[j]).0 <= offset && (j + 1 < count
                    ==> self.spans[j + 1].0 > offset),
        decreases count,
    {
        if count == 1 {
            assert(self.spans[0].0 <= offset);
        } else if self.spans[count - 1].0 <= offset {
            assert(self.spans[count - 1].0 <= offset);
        } else {
            self.covered_among(offset, count - 1);
            let j = choose|j: int|
                0 <= j < count - 1 && (#[trigger] self.spans[j]).0 <= offset && (j + 1 < count - 1
                    ==> self.spans[j + 1].0 > offset);
            assert(self.spans[j].0 <= offset);
        }
    }

    /// Where every span of the table lies within the source, so does the
    /// span in effect at any offset.
    pub proof fn span_of_within(self, offset: int, len: int)
        requires
            self.wf(),
            0 <= offset,
            self.spans_within(len),
        ensures
            self.span_of(offset).1.start <= self.span_of(offset).1.end <= len,
    {
        self.some_entry_covers(offset);
    }

    /// Whether every span of the table lies within a source of `len` bytes.
    pub open spec fn spans_within(self, len: int) -> bool {
        forall|i: int|
            0 <= i < self.spans.len() ==> (#[trigger] self.spans[i]).1.start <= self.spans[i].1.end
                <= len
    }
}

/// An executable chunk of code.
#[derive(Debug, Clone)]
pub struct CodeChunk {
    code: Vec<u8>,
    constants: Vec<Value>,
    span_info: Vec<(usize, Range<usize>)>,
}

impl View for CodeChunk {
    type V = ChunkView;

    closed spec fn view(&self) -> ChunkView {
        ChunkView { code: self.code@, constants: self.constants@, spans: self.span_info@ }
    }
}

impl CodeChunk {
    /// Whether the chunk's invariant holds.
    pub open spec fn wf(&self) -> bool {
        self@.wf()
    }

    /// An empty chunk. Its span table holds one entry, the empty span at
    /// offset 0, so that every offset has an entry in effect.
    pub fn new() -> (r: Self)
        ensures
            r.wf(),
            r@.code == Seq::<u8>::empty(),
            r@.constants == Seq::<Value>::empty(),
            r@.spans == seq![(0usize, (0usize..0usize))],
            forall|len: int| 0 <= len ==> #[trigger] r@.spans_within(len),
    {
        let mut span_info: Vec<(usize, Range<usize>)> = Vec::new();
        span_info.push((0, 0..0));
        Self { code: Vec::new(), constants: Vec::new(), span_info }
    }

    /// Appends a byte to the instruction stream.
    pub fn push_code(&mut self, code: u8)
        requires
            old(self).wf(),
        ensures
            final(self).wf(),
            final(self)@.code == old(self)@.code.push(code),
            final(self)@.constants == old(self)@.constants,
            final(self)@.spans == old(self)@.spans,
    {
        self.code.push(code);
        assert(self.code.len() == self.code@.len());
    }

    /// Appends a constant to the pool and returns its index.
    pub fn push_constant(&mut self, constant: Value) -> (index: u8)
        requires
            old(self).wf(),
            old(self)@.constants.len() < MAX_CONSTANTS,
        ensures
            final(self).wf(),
            index == old(self)@.constants.len(),
            final(self)@.constants == old(self)@.constants.push(constant),
            final(self)@.code == old(self)@.code,
            final(self)@.spans == old(self)@.spans,
    {
        let index: usize = self.constants.len();
        self.constants.push(constant);
        index as u8
    }

    /// Records that the code from here on comes from `span` of the source.
    pub fn push_span_info(&mut self, span: Range<usize>)
        requires
            old(self).wf(),
        ensures
            final(self).wf(),
            final(self)@.spans == old(self)@.spans.push((old(self)@.code.len() as usize, span)),
            final(self)@.code == old(self)@.code,
            final(self)@.constants == old(self)@.constants,
    {
        let offset: usize = self.code.len();
        self.span_info.push((offset, span));
    }

    /// The byte at `offset`, if the code reaches that far.
    pub fn get_byte(&self, offset: usize) -> (r: Option<u8>)
        ensures
            r == (if offset < self@.code.len() {
                Some(self@.code[offset as int])
            } else {
                None
            }),
    {
        if offset < self.code.len() {
            Some(self.code[offset])
        } else {
            None
        }
    }

    /// The constant with index `constant`, if the pool has one.
    pub fn get_constant(&self, constant: usize) -> (r: Option<&Value>)
        ensures
            r == (if constant < self@.constants.len() {
                Some(&self@.constants[constant as int])
            } else {
                None
            }),
    {
        if constant < self.constants.len() {
            Some(&self.constants[constant])
        } else {
            None
        }
    }

    /// Overwrites the byte at `offset`.
    pub fn patch(&mut self, offset: usize, code: u8)
        requires
            old(self).wf(),
            offset < old(self)@.code.len(),
        ensures
            final(self).wf(),
            final(self)@.code == old(self)@.code.update(offset as int, code),
            final(self)@.constants == old(self)@.constants,
            final(self)@.spans == old(self)@.spans,
    {
        self.code[offset] = code;
    }

    /// The number of constants in the pool.
    pub fn constant_count(&self) -> (r: usize)
        ensures
            r == self@.constants.len(),
    {
        self.constants.len()
    }

    /// The length of the instruction stream.
    pub fn size(&self) -> (r: usize)
        ensures
            r == self@.code.len(),
    {
        self.code.len()
    }

    /// The number of entries of the span table that start at or before
    /// `offset`. The table is sorted, so these are its first entries.
    fn find_span_offset_of(&self, offset: usize) -> (count: usize)
        requires
            self.wf(),
        ensures
            1 <= count <= self@.spans.len(),
            forall|i: int| 0 <= i < count ==> (#[trigger] self@.spans[i]).0 <= offset,
            forall|i: int| count <= i < self@.spans.len() ==> (#[trigger] self@.spans[i]).0 > offset,
    {
        let mut low: usize = 0;
        let mut high: usize = self.span_info.len();
        while low < high
            invariant
                self.wf(),
                0 <= low <= high <= self.span_info.len(),
                forall|i: int| 0 <= i < low ==> (#[trigger] self.span_info@[i]).0 <= offset,
                forall|i: int|
                    high <= i < self.span_info.len() ==> (#[trigger] self.span_info@[i]).0 > offset,
            decreases high - low,
        {
            let middle: usize = low + (high - low) / 2;
            if self.span_info[middle].0 <= offset {
                assert forall|i: int| 0 <= i < middle + 1 implies (#[trigger] self.span_info@[i]).0
                    <= offset by {
                    assert(self.span_info@[i].0 <= self.span_info@[middle as int].0);
                }
                low = middle + 1;
            } else {
                assert forall|i: int| middle <= i < self.span_info.len() implies (
                #[trigger] self.span_info@[i]).0 > offset by {
                    assert(self.span_info@[middle as int].0 <= self.span_info@[i].0);
                }
                high = middle;
            }
        }
        assert(low >= 1) by {
            if low == 0 {
                assert(self.span_info@[0].0 > offset);
            }
        }
        low
    }

    /// The entry of the span table in effect at `offset`: its code offset
    /// and its source span.
    pub fn find_span_of(&self, offset: usize) -> (r: &(usize, Range<usize>))
        requires
            self.wf(),
        ensures
            self@.covers(self@.span_index(offset as int), offset as int),
            *r == self@.span_of(offset as int),
    {
        let count: usize = self.find_span_offset_of(offset);
        proof {
            let j = count - 1;
            assert(self@.covers(j, offset as int));
            self@.covering_entry_is_unique(offset as int, j, self@.span_index(offset as int));
        }
        &self.span_info[count - 1]
    }
}

impl Default for CodeChunk {
    fn default() -> (r: Self)
        ensures
            r.wf(),
            r@.code == Seq::<u8>::empty(),
            r@.constants == Seq::<Value>::empty(),
            r@.spans == seq![(0usize, (0usize..0usize))],
    {
        Self::new()
    }
}

} // verus!
