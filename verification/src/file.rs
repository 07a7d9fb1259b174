//! A remote file and its cache of chunks.

use crate::bytes::{bytes_of, owned_from_vec};
use crate::error::FetchError;
use crate::laws::{lemma_plan_is_empty, lemma_plan_of_one};
use crate::layout::{chunk_end, chunk_exists, chunk_start, lemma_div_mod, lemma_part_bounds};
use crate::view::{lemma_merge_new, merge_new, ready_parts, wanted_chunks, FileView, PieceView};
use core::ops::Range;
use std::collections::BTreeMap;
use tantivy::directory::OwnedBytes;
use vstd::prelude::*;

verus! {

/// One entry of a resolved range: what a read takes from one chunk.
#[derive(Debug)]
pub enum MaybeToRead {
    /// The chunk is resident: the part of the range inside it, as a buffer that
    /// shares the chunk's storage.
    Done(OwnedBytes),
    /// The chunk with this index has to be fetched; the range needs the bytes
    /// `start..end` of it.
    ToRead(u64, Range<u64>),
}

impl View for MaybeToRead {
    type V = PieceView;

    open spec fn view(&self) -> PieceView {
        match *self {
            MaybeToRead::Done(b) => PieceView::Done(bytes_of(b)),
            MaybeToRead::ToRead(chunk, within) => PieceView::ToRead {
                chunk,
                start: within.start,
                end: within.end,
            },
        }
    }
}

/// What a read comes to: its result, or the chunks that have to be fetched and
/// handed to the file before the read can be served.
#[derive(Debug)]
pub enum ReadStep<T> {
    Done(T),
    Fetch(Vec<u64>),
}

/// The entries of a resolved range as the model sees them.
pub open spec fn views(list: Seq<MaybeToRead>) -> Seq<PieceView> {
    list.map_values(|p: MaybeToRead| p@)
}

/// The bytes that each of the buffers exposes.
pub open spec fn contents(obs: Seq<OwnedBytes>) -> Seq<Seq<u8>> {
    obs.map_values(|b: OwnedBytes| bytes_of(b))
}

/// Whether `x` occurs in `v`.
fn contains(v: &Vec<u64>, x: u64) -> (found: bool)
    ensures
        found == v@.contains(x),
{
    let mut k: usize = 0;
    while k < v.len()
        invariant
            k <= v@.len(),
            forall|j: int| 0 <= j < k ==> v@[j] != x,
        decreases v@.len() - k,
    {
        if v[k] == x {
            return true;
        }
        k += 1;
    }
    false
}

/// Appends to `todo` the chunks that the entries of `list` wait for, each one
/// unless `todo` holds it already.
fn collect_missing(list: &Vec<MaybeToRead>, todo: &mut Vec<u64>)
    ensures
        final(todo)@ == merge_new(old(todo)@, wanted_chunks(views(list@))),
{
    let mut k: usize = 0;
    while k < list.len()
        invariant
            k <= list@.len(),
            todo@ == merge_new(old(todo)@, wanted_chunks(views(list@).take(k as int))),
        decreases list@.len() - k,
    {
        proof {
            views(list@).lemma_filter_map_take_succ(|p: PieceView| p.wanted(), k as int);
        }
        match &list[k] {
            MaybeToRead::Done(_) => {},
            MaybeToRead::ToRead(chunk, _) => {
                assert(wanted_chunks(views(list@).take(k + 1)).drop_last() == wanted_chunks(
                    views(list@).take(k as int),
                ));
                if !contains(todo, *chunk) {
                    todo.push(*chunk);
                }
            },
        }
        k += 1;
    }
    assert(views(list@).take(k as int) == views(list@));
}

/// The buffers of the entries of `list` whose chunks are resident, in their order.
fn done_buffers(list: &Vec<MaybeToRead>) -> (obs: Vec<OwnedBytes>)
    ensures
        contents(obs@) == ready_parts(views(list@)),
{
    let mut obs: Vec<OwnedBytes> = Vec::new();
    let mut k: usize = 0;
    while k < list.len()
        invariant
            k <= list@.len(),
            contents(obs@) == ready_parts(views(list@).take(k as int)),
        decreases list@.len() - k,
    {
        proof {
            views(list@).lemma_filter_map_take_succ(|p: PieceView| p.ready(), k as int);
        }
        match &list[k] {
            MaybeToRead::Done(b) => {
                obs.push(b.clone());
            },
            MaybeToRead::ToRead(_, _) => {},
        }
        k += 1;
    }
    assert(views(list@).take(k as int) == views(list@));
    obs
}

/// Joins buffers into one that exposes their bytes one after the other. No
/// buffer gives an empty one; a single buffer is handed on as it is, sharing its
/// storage; several are copied into a new buffer.
pub fn concat_ownedbytes(obs: Vec<OwnedBytes>) -> (joined: OwnedBytes)
    ensures
        bytes_of(joined) == contents(obs@).flatten(),
{
    if obs.len() == 0 {
        return OwnedBytes::empty();
    }
    if obs.len() == 1 {
        proof {
            contents(obs@).lemma_flatten_singleton();
        }
        return obs[0].clone();
    }
    let mut v: Vec<u8> = Vec::new();
    let mut k: usize = 0;
    while k < obs.len()
        invariant
            k <= obs@.len(),
            v@ == contents(obs@.take(k as int)).flatten(),
        decreases obs@.len() - k,
    {
        v.extend_from_slice(obs[k].as_slice());
        proof {
            assert(contents(obs@.take(k + 1)) == contents(obs@.take(k as int)).push(
                bytes_of(obs@[k as int]),
            ));
            contents(obs@.take(k as int)).lemma_flatten_push(bytes_of(obs@[k as int]));
        }
        k += 1;
    }
    assert(obs@.take(k as int) == obs@);
    owned_from_vec(v)
}

/// A remote file of a fixed length, read through chunks of a fixed size that are
/// kept once they were fetched.
#[derive(Debug)]
pub struct FetchFile {
    chunk_size: u64,
    path: String,
    len: u64,
    cache: BTreeMap<u64, OwnedBytes>,
}

impl View for FetchFile {
    type V = FileView;

    closed spec fn view(&self) -> FileView {
        FileView {
            path: self.path@,
            chunk_size: self.chunk_size as nat,
            len: self.len as nat,
            chunks: self.cache@.map_values(|b: OwnedBytes| bytes_of(b)),
        }
    }
}

impl FetchFile {
    /// A file of `len` bytes under `path`, read in chunks of `chunk_size` bytes,
    /// with no chunk resident.
    pub(crate) fn new(path: String, chunk_size: u64, len: u64) -> (file: FetchFile)
        requires
            chunk_size > 0,
        ensures
            file@ == FileView::fresh(path@, chunk_size as nat, len as nat),
            file@.wf(),
    {
        let file = FetchFile { chunk_size, path, len, cache: BTreeMap::new() };
        file
    }

    /// Whether the file is the one under `path`.
    pub(crate) fn has_path(&self, path: &String) -> (same: bool)
        ensures
            same == (self@.path == path@),
    {
        self.path == *path
    }

    /// The path under which the host knows the file.
    pub fn path(&self) -> (path: &str)
        ensures
            path@ == self@.path,
    {
        self.path.as_str()
    }

    /// The file's length in bytes.
    pub fn len(&self) -> (n: u64)
        ensures
            n == self@.len,
    {
        self.len
    }

    /// The size of the file's chunks in bytes.
    pub fn chunk_size(&self) -> (n: u64)
        ensures
            n == self@.chunk_size,
    {
        self.chunk_size
    }

    /// The buffer of chunk `i`, if the chunk is resident.
    fn cached(&self, i: u64) -> (r: Option<&OwnedBytes>)
        ensures
            match r {
                Some(b) => self@.chunks.contains_key(i) && self@.chunks[i] == bytes_of(*b),
                None => !self@.chunks.contains_key(i),
            },
    {
        self.cache.get(&i)
    }

    /// The bytes of the file that chunk `idx` holds, as a range of offsets: what
    /// to fetch for the chunk. `None` if the file has no such chunk.
    pub fn chunk_range(&self, idx: u64) -> (span: Option<Range<u64>>)
        requires
            self@.wf(),
        ensures
            match span {
                Some(span) => {
                    &&& chunk_exists(self@.chunk_size as int, self@.len as int, idx as int)
                    &&& span.start == chunk_start(self@.chunk_size as int, idx as int)
                    &&& span.end == chunk_end(self@.chunk_size as int, self@.len as int, idx as int)
                },
                None => !chunk_exists(self@.chunk_size as int, self@.len as int, idx as int),
            },
    {
        match idx.checked_mul(self.chunk_size) {
            None => None,
            Some(start) => {
                if start >= self.len {
                    None
                } else if self.len - start < self.chunk_size {
                    Some(start..self.len)
                } else {
                    Some(start..start + self.chunk_size)
                }
            },
        }
    }

    /// Takes `data` as the bytes of chunk `idx`, which a fetch handed back. The
    /// whole chunk becomes resident, unless it is so already: then it stays as
    /// it is. Data that cannot be the chunk, because the file has no chunk `idx`
    /// or because `data` has not the chunk's length, is refused and leaves the
    /// cache as it was.
    pub(crate) fn insert_chunk(&mut self, idx: u64, data: Vec<u8>) -> (done: Result<
        (),
        FetchError,
    >)
        requires
            old(self)@.wf(),
        ensures
            final(self)@.wf(),
            match done {
                Ok(()) => old(self)@.accepts(idx, data@) && final(self)@ == old(self)@.insert(
                    idx,
                    data@,
                ),
                Err(e) => e == FetchError::TransferFailure && !old(self)@.accepts(idx, data@)
                    && final(self)@ == old(self)@,
            },
    {
        let span = match self.chunk_range(idx) {
            Some(span) => span,
            None => {
                return Err(FetchError::TransferFailure);
            },
        };
        if data.len() as u64 != span.end - span.start {
            return Err(FetchError::TransferFailure);
        }
        if self.cached(idx).is_some() {
            return Ok(());
        }
        self.cache.insert(idx, owned_from_vec(data));
        assert(self@ =~= old(self)@.insert(idx, data@));
        Ok(())
    }

    /// Resolves the range `[from, to)` against the cache: for each chunk that the
    /// range touches, in ascending order, either the part of the range inside
    /// the chunk, as a slice of the resident chunk, or the index of the chunk to
    /// fetch with the bounds of that part inside the chunk. An empty range
    /// resolves to nothing.
    pub fn get_toread_list(&self, from: u64, to: u64) -> (list: Vec<MaybeToRead>)
        requires
            self@.wf(),
            self@.in_bounds(from as int, to as int),
        ensures
            list@.len() == self@.span(from as int, to as int),
            forall|k: int|
                0 <= k < list@.len() ==> (#[trigger] list@[k])@ == self@.piece(
                    from as int,
                    to as int,
                    k,
                ),
    {
        let mut output: Vec<MaybeToRead> = Vec::new();
        if from == to {
            return output;
        }
        let cs = self.chunk_size;
        let starti = from / cs;
        let endi = (to - 1) / cs;
        proof {
            lemma_div_mod(from as int, cs as int);
            lemma_div_mod((to - 1) as int, cs as int);
            vstd::arithmetic::div_mod::lemma_div_is_ordered(from as int, to - 1, cs as int);
        }
        let mut i = starti;
        while i <= endi
            invariant
                self@.wf(),
                self@.in_bounds(from as int, to as int),
                from < to,
                cs == self@.chunk_size,
                starti == from as int / cs as int,
                endi == (to - 1) / cs as int,
                starti <= i <= endi + 1,
                endi < to,
                output@.len() == i - starti,
                forall|k: int|
                    0 <= k < output@.len() ==> (#[trigger] output@[k])@ == self@.piece(
                        from as int,
                        to as int,
                        k,
                    ),
            decreases endi + 1 - i,
        {
            let ghost k = i - starti;
            proof {
                lemma_part_bounds(cs as int, self@.len as int, from as int, to as int, k);
                lemma_div_mod(from as int, cs as int);
                lemma_div_mod((to - 1) as int, cs as int);
            }
            let startofs = if i == starti {
                from % cs
            } else {
                0
            };
            let endofs = if i == endi {
                (to - 1) % cs + 1
            } else {
                cs
            };
            let data = match self.cached(i) {
                Some(chunk) => {
                    // The part lies inside the chunk, whose length fits a `usize`.
                    let held = chunk.len();
                    assert(startofs < endofs <= held);
                    MaybeToRead::Done(chunk.slice(startofs as usize..endofs as usize))
                },
                None => MaybeToRead::ToRead(i, startofs..endofs),
            };
            output.push(data);
            i += 1;
        }
        output
    }

    /// Reads several ranges at once. If every chunk that a range touches is
    /// resident, the result holds for each range, in the order of `ranges`, the
    /// bytes of the range. Else nothing is read, and the result lists the chunks
    /// to fetch: each chunk that some range touches and that is not resident,
    /// once, however many of the ranges touch it.
    pub fn read_bytes_multiple(&self, ranges: &[Range<u64>]) -> (step: ReadStep<Vec<OwnedBytes>>)
        requires
            self@.wf(),
            self@.all_in_bounds(ranges@),
        ensures
            step is Done <==> self@.all_resident(ranges@),
            match step {
                ReadStep::Fetch(todo) => todo@.len() > 0 && todo@ == self@.plan(ranges@),
                ReadStep::Done(results) => {
                    &&& self@.plan(ranges@).len() == 0
                    &&& results@.len() == ranges@.len()
                    &&& forall|r: int|
                        0 <= r < ranges@.len() ==> bytes_of(#[trigger] results@[r]) == self@.read(
                            ranges@[r].start as int,
                            ranges@[r].end as int,
                        )
                },
            },
    {
        let mut toread_lists: Vec<Vec<MaybeToRead>> = Vec::new();
        let mut todo: Vec<u64> = Vec::new();
        let mut r: usize = 0;
        while r < ranges.len()
            invariant
                self@.wf(),
                self@.all_in_bounds(ranges@),
                r <= ranges@.len(),
                toread_lists@.len() == r,
                todo@ == self@.plan(ranges@.take(r as int)),
                forall|j: int|
                    0 <= j < r ==> views(#[trigger] toread_lists@[j]@) == self@.resolve(
                        ranges@[j].start as int,
                        ranges@[j].end as int,
                    ),
                todo@.len() == 0 ==> forall|j: int|
                    0 <= j < r ==> self@.missing(
                        (#[trigger] ranges@[j]).start as int,
                        ranges@[j].end as int,
                    ).len() == 0,
            decreases ranges@.len() - r,
        {
            let list = self.get_toread_list(ranges[r].start, ranges[r].end);
            let ghost before = todo@;
            collect_missing(&list, &mut todo);
            proof {
                let from = ranges@[r as int].start as int;
                let to = ranges@[r as int].end as int;
                assert(views(list@) =~= self@.resolve(from, to));
                assert(ranges@.take(r + 1).drop_last() == ranges@.take(r as int));
                lemma_merge_new(before, self@.missing(from, to));
            }
            toread_lists.push(list);
            r += 1;
        }
        assert(ranges@.take(r as int) == ranges@);
        proof {
            lemma_plan_is_empty(self@, ranges@);
        }
        if todo.len() > 0 {
            return ReadStep::Fetch(todo);
        }
        let mut results: Vec<OwnedBytes> = Vec::new();
        let mut r: usize = 0;
        while r < toread_lists.len()
            invariant
                toread_lists@.len() == ranges@.len(),
                r <= toread_lists@.len(),
                results@.len() == r,
                forall|j: int|
                    0 <= j < ranges@.len() ==> views(#[trigger] toread_lists@[j]@) == self@.resolve(
                        ranges@[j].start as int,
                        ranges@[j].end as int,
                    ),
                forall|j: int|
                    0 <= j < ranges@.len() ==> self@.missing(
                        (#[trigger] ranges@[j]).start as int,
                        ranges@[j].end as int,
                    ).len() == 0,
                forall|j: int|
                    0 <= j < r ==> bytes_of(#[trigger] results@[j]) == self@.read(
                        ranges@[j].start as int,
                        ranges@[j].end as int,
                    ),
            decreases toread_lists@.len() - r,
        {
            let joined = concat_ownedbytes(done_buffers(&toread_lists[r]));
            proof {
                self@.lemma_nothing_missing(
                    ranges@[r as int].start as int,
                    ranges@[r as int].end as int,
                );
            }
            results.push(joined);
            r += 1;
        }
        ReadStep::Done(results)
    }

    /// Reads the range `[from, to)`. If every chunk that the range touches is
    /// resident, the result is the bytes of the range: for a range inside one
    /// chunk a slice that shares the chunk's storage, else a new buffer. Else
    /// nothing is read, and the result lists the chunks to fetch, in ascending
    /// order. An empty range is read without any chunk.
    pub fn read_bytes(&self, from: u64, to: u64) -> (step: ReadStep<OwnedBytes>)
        requires
            self@.wf(),
            self@.in_bounds(from as int, to as int),
        ensures
            step is Done <==> self@.resident(from as int, to as int),
            match step {
                ReadStep::Fetch(todo) => todo@.len() > 0 && todo@ == self@.missing(
                    from as int,
                    to as int,
                ),
                ReadStep::Done(bytes) => self@.resident(from as int, to as int) && bytes_of(bytes)
                    == self@.read(from as int, to as int),
            },
            from == to ==> (step matches ReadStep::Done(bytes) && bytes_of(bytes).len() == 0),
    {
        let mut ranges: Vec<Range<u64>> = Vec::new();
        ranges.push(from..to);
        proof {
            lemma_plan_of_one(self@, ranges@[0]);
            self@.lemma_missing(from as int, to as int);
        }
        match self.read_bytes_multiple(ranges.as_slice()) {
            ReadStep::Fetch(todo) => ReadStep::Fetch(todo),
            ReadStep::Done(mut results) => ReadStep::Done(results.remove(0)),
        }
    }

    /// Reads the whole file, as [`FetchFile::read_bytes`] reads the range from
    /// its first byte to its last.
    pub fn read_all(&self) -> (step: ReadStep<OwnedBytes>)
        requires
            self@.wf(),
        ensures
            step is Done <==> self@.resident(0, self@.len as int),
            match step {
                ReadStep::Fetch(todo) => todo@.len() > 0 && todo@ == self@.missing(
                    0,
                    self@.len as int,
                ),
                ReadStep::Done(bytes) => self@.resident(0, self@.len as int) && bytes_of(bytes)
                    == self@.read(0, self@.len as int),
            },
    {
        self.read_bytes(0, self.len)
    }
}

} // verus!
