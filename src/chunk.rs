//! The chunk reader: walks the tree of chunks of a model container in
//! document order. Every chunk starts with a twelve-byte header of three
//! little-endian `u32`s (kind, payload length, library version stamp); the
//! payload of a container kind is itself a sequence of chunks.
//!
//! The walk keeps an explicit stack of open containers instead of
//! recursing, so corrupt or adversarial nesting costs heap, not stack.
use vstd::prelude::*;
use crate::bytes::{le_u32_at, read_le_u32};
use crate::error::AssetError;

verus! {

pub const CHUNK_HEADER_BYTES: usize = 12;

pub const KIND_STRUCT: u32 = 0x01;
pub const KIND_STRING: u32 = 0x02;
pub const KIND_EXTENSION: u32 = 0x03;
pub const KIND_TEXTURE: u32 = 0x06;
pub const KIND_MATERIAL: u32 = 0x07;
pub const KIND_MATERIAL_LIST: u32 = 0x08;
pub const KIND_FRAME_LIST: u32 = 0x0E;
pub const KIND_GEOMETRY: u32 = 0x0F;
pub const KIND_CLUMP: u32 = 0x10;
pub const KIND_ATOMIC: u32 = 0x14;
pub const KIND_GEOMETRY_LIST: u32 = 0x1A;

/// The kinds whose payload is a sequence of child chunks. Every other kind,
/// known or not, is a leaf whose payload is passed on as opaque bytes.
pub open spec fn is_container(kind: u32) -> bool {
    kind == KIND_EXTENSION || kind == KIND_TEXTURE || kind == KIND_MATERIAL || kind
        == KIND_MATERIAL_LIST || kind == KIND_FRAME_LIST || kind == KIND_GEOMETRY || kind
        == KIND_CLUMP || kind == KIND_ATOMIC || kind == KIND_GEOMETRY_LIST
}

pub fn is_container_kind(kind: u32) -> (r: bool)
    ensures
        r == is_container(kind),
{
    kind == KIND_EXTENSION || kind == KIND_TEXTURE || kind == KIND_MATERIAL || kind
        == KIND_MATERIAL_LIST || kind == KIND_FRAME_LIST || kind == KIND_GEOMETRY || kind
        == KIND_CLUMP || kind == KIND_ATOMIC || kind == KIND_GEOMETRY_LIST
}

/// One chunk met by the walk: its header, its nesting depth (0 at top
/// level), the kind of the container it sits in, and the byte range of its
/// payload within the buffer.
#[derive(Debug, Clone, Copy, PartialEq, Eq)]
pub struct Chunk {
    pub kind: u32,
    pub version: u32,
    pub depth: usize,
    pub parent: Option<u32>,
    pub start: usize,
    pub end: usize,
}

/// A forward-only walk over the chunk tree of a buffer.
pub struct ChunkReader {
    data: Vec<u8>,
    pos: usize,
    open: Vec<(usize, u32)>,
    done: bool,
}

/// The state of a walk: the buffer, the offset of the next header, the open
/// containers (end offset and kind, innermost last), and whether it ended.
pub struct ReaderState {
    pub data: Seq<u8>,
    pub pos: int,
    pub open: Seq<(usize, u32)>,
    pub done: bool,
}

impl View for ChunkReader {
    type V = ReaderState;

    closed spec fn view(&self) -> ReaderState {
        ReaderState { data: self.data@, pos: self.pos as int, open: self.open@, done: self.done }
    }
}

/// The open containers once those that end at `pos` are closed.
pub open spec fn close_finished(open: Seq<(usize, u32)>, pos: int) -> Seq<(usize, u32)>
    decreases open.len(),
{
    if open.len() > 0 && open.last().0 == pos {
        close_finished(open.drop_last(), pos)
    } else {
        open
    }
}

/// The end of the innermost open container, or of the buffer.
pub open spec fn limit_of(open: Seq<(usize, u32)>, len: int) -> int {
    if open.len() > 0 {
        open.last().0 as int
    } else {
        len
    }
}

/// One step of the walk: the state after it, and what it yields. At the end
/// of the buffer it yields nothing; a header that does not fit in what
/// remains of its container, or whose payload does not, ends the walk with
/// `TruncatedChunk`; otherwise it yields the chunk and moves into its
/// payload (a container) or past it (a leaf).
pub open spec fn step(st: ReaderState) -> (ReaderState, Option<Result<Chunk, AssetError>>) {
    if st.done {
        (st, None)
    } else {
        let open = close_finished(st.open, st.pos);
        let limit = limit_of(open, st.data.len() as int);
        let stop = ReaderState { open, done: true, ..st };
        if open.len() == 0 && st.pos == st.data.len() {
            (stop, None)
        } else if st.pos + 12 > limit || st.pos + 12 + le_u32_at(st.data, st.pos + 4) > limit {
            (stop, Some(Err(AssetError::TruncatedChunk(st.pos as usize))))
        } else {
            let kind = le_u32_at(st.data, st.pos);
            let end = st.pos + 12 + le_u32_at(st.data, st.pos + 4);
            let c = Chunk {
                kind,
                version: le_u32_at(st.data, st.pos + 8),
                depth: open.len() as usize,
                parent: if open.len() > 0 { Some(open.last().1) } else { None },
                start: (st.pos + 12) as usize,
                end: end as usize,
            };
            if is_container(kind) {
                (ReaderState { pos: st.pos + 12, open: open.push((end as usize, kind)), ..st }, Some(Ok(c)))
            } else {
                (ReaderState { pos: end, open, ..st }, Some(Ok(c)))
            }
        }
    }
}

impl ReaderState {
    /// Every open container ends between the next header and the end of the
    /// buffer.
    pub open spec fn wf(&self) -> bool {
        &&& 0 <= self.pos <= self.data.len() <= usize::MAX
        &&& forall|k: int|
            0 <= k < self.open.len() ==> self.pos <= (#[trigger] self.open[k]).0 <= self.data.len()
        &&& forall|j: int, k: int|
            0 <= j < k < self.open.len() ==> (#[trigger] self.open[k]).0 <= (#[trigger] self.open[j]).0
    }

    /// Decreases with every chunk yielded.
    pub open spec fn remaining(&self) -> nat {
        if self.done {
            0
        } else {
            (self.data.len() - self.pos + 1) as nat
        }
    }
}

proof fn lemma_close_finished(open: Seq<(usize, u32)>, pos: int)
    ensures
        close_finished(open, pos).len() <= open.len(),
        forall|k: int|
            0 <= k < close_finished(open, pos).len() ==> close_finished(open, pos)[k] == open[k],
        close_finished(open, pos).len() > 0 ==> close_finished(open, pos).last().0 != pos,
    decreases open.len(),
{
    if open.len() > 0 && open.last().0 == pos {
        lemma_close_finished(open.drop_last(), pos);
        assert forall|k: int| 0 <= k < close_finished(open, pos).len() implies close_finished(
            open,
            pos,
        )[k] == open[k] by {
            assert(open.drop_last()[k] == open[k]);
        }
    }
}

/// A walk goes strictly forward: every step that yields a chunk leaves less
/// to read, and every other step ends the walk.
pub proof fn lemma_step_progress(st: ReaderState)
    requires
        st.wf(),
    ensures
        step(st).0.wf(),
        step(st).0.data == st.data,
        step(st).1 matches Some(Ok(_)) ==> step(st).0.remaining() < st.remaining(),
        step(st).1 matches Some(Ok(c)) ==> c.start <= c.end <= st.data.len(),
        !(step(st).1 matches Some(Ok(_))) ==> step(st).0.remaining() == 0 || step(st).0 == st,
{
    lemma_close_finished(st.open, st.pos);
    let open = close_finished(st.open, st.pos);
    if open.len() > 0 {
        assert(open.last() == st.open[open.len() - 1]);
    }
    if !st.done {
        let n = step(st).0;
        assert forall|k: int| 0 <= k < n.open.len() implies n.pos <= (#[trigger] n.open[k]).0
            <= n.data.len() by {
            if k < open.len() {
                assert(open[k] == st.open[k]);
                assert(st.open[open.len() - 1].0 <= st.open[k].0);
            }
        }
        assert forall|j: int, k: int| 0 <= j < k < n.open.len() implies (#[trigger] n.open[k]).0
            <= (#[trigger] n.open[j]).0 by {
            assert(open[j] == st.open[j]);
            if k < open.len() {
                assert(open[k] == st.open[k]);
            } else {
                assert(st.open[open.len() - 1].0 <= st.open[j].0);
            }
        }
    }
}

impl ChunkReader {
    pub fn new(data: Vec<u8>) -> (r: ChunkReader)
        ensures
            r@ == (ReaderState { data: data@, pos: 0, open: seq![], done: false }),
            r@.wf(),
    {
        let _ = data.len();
        ChunkReader { data, pos: 0, open: Vec::new(), done: false }
    }

    pub fn data(&self) -> (r: &Vec<u8>)
        ensures
            r@ == self@.data,
    {
        &self.data
    }

    /// The next chunk of the walk, in document order (see `step`).
    pub fn next(&mut self) -> (r: Option<Result<Chunk, AssetError>>)
        requires
            old(self)@.wf(),
        ensures
            (final(self)@, r) == step(old(self)@),
            final(self)@.wf(),
    {
        proof {
            lemma_step_progress(self@);
        }
        if self.done {
            return None;
        }
        let ghost st = self@;
        while self.open.len() > 0 && self.open[self.open.len() - 1].0 == self.pos
            invariant
                close_finished(self.open@, self.pos as int) == close_finished(st.open, st.pos),
                self.pos == st.pos,
                self.data@ == st.data,
                self.done == st.done,
                self@.wf(),
            decreases self.open@.len(),
        {
            let ghost before = self.open@;
            let ghost bs = self@;
            assert(bs.open == before);
            self.open.pop();
            assert(self.open@ =~= before.drop_last());
            assert forall|k: int| 0 <= k < self.open@.len() implies self.open@[k] == before[k] by {}
            assert forall|j: int, k: int| 0 <= j < k < self@.open.len() implies (
            #[trigger] self@.open[k]).0 <= (#[trigger] self@.open[j]).0 by {
                assert(self@.open[k] == before[k]);
                assert(self@.open[j] == before[j]);
                assert(bs.open[k].0 <= bs.open[j].0);
            }
            assert(0 <= self@.pos <= self@.data.len() <= usize::MAX);
        }
        let len = self.data.len();
        let limit = if self.open.len() > 0 {
            self.open[self.open.len() - 1].0
        } else {
            len
        };
        proof {
            if self.open@.len() > 0 {
                assert(self@.open[self@.open.len() - 1] == self.open@[self.open@.len() - 1]);
            }
        }
        if self.open.len() == 0 && self.pos == len {
            self.done = true;
            return None;
        }
        if limit < self.pos || limit - self.pos < CHUNK_HEADER_BYTES {
            self.done = true;
            return Some(Err(AssetError::TruncatedChunk(self.pos)));
        }
        let pos = self.pos;
        let kind = read_le_u32(self.data.as_slice(), pos);
        let size = read_le_u32(self.data.as_slice(), pos + 4);
        let version = read_le_u32(self.data.as_slice(), pos + 8);
        if size as usize > limit - pos - CHUNK_HEADER_BYTES {
            self.done = true;
            return Some(Err(AssetError::TruncatedChunk(pos)));
        }
        let end = pos + CHUNK_HEADER_BYTES + size as usize;
        let depth = self.open.len();
        let parent = if depth > 0 {
            Some(self.open[depth - 1].1)
        } else {
            None
        };
        let c = Chunk { kind, version, depth, parent, start: pos + CHUNK_HEADER_BYTES, end };
        if is_container_kind(kind) {
            self.open.push((end, kind));
            self.pos = pos + CHUNK_HEADER_BYTES;
        } else {
            self.pos = end;
        }
        Some(Ok(c))
    }
}

} // verus!
