//! The mathematical model of a cached file, over which the contracts of the
//! library are stated.

use crate::layout::{
    chunk_end, chunk_exists, chunk_len, chunk_start, lemma_part_bounds, lemma_touches, part_end,
    part_start, span_len, touches,
};
use core::ops::Range;
use vstd::prelude::*;

verus! {

/// What a cached file is: its identity, its geometry and the chunks that are
/// resident, each with its bytes.
#[verifier::ext_equal]
pub struct FileView {
    pub path: Seq<char>,
    pub chunk_size: nat,
    pub len: nat,
    pub chunks: Map<u64, Seq<u8>>,
}

/// What one entry of a resolved range is: the bytes of the range's part inside a
/// resident chunk, or the chunk that has to be fetched with the part's bounds
/// inside it.
pub enum PieceView {
    Done(Seq<u8>),
    ToRead { chunk: u64, start: u64, end: u64 },
}

impl PieceView {
    /// The chunk that the piece still waits for, if any.
    pub open spec fn wanted(self) -> Option<u64> {
        match self {
            PieceView::Done(_) => None,
            PieceView::ToRead { chunk, .. } => Some(chunk),
        }
    }

    /// The bytes that the piece holds, if its chunk is resident.
    pub open spec fn ready(self) -> Option<Seq<u8>> {
        match self {
            PieceView::Done(bytes) => Some(bytes),
            PieceView::ToRead { .. } => None,
        }
    }
}

/// The chunks that the pieces still wait for, in the order of the pieces.
pub open spec fn wanted_chunks(pieces: Seq<PieceView>) -> Seq<u64> {
    pieces.filter_map(|p: PieceView| p.wanted())
}

/// The bytes of the pieces whose chunks are resident, in the order of the pieces.
pub open spec fn ready_parts(pieces: Seq<PieceView>) -> Seq<Seq<u8>> {
    pieces.filter_map(|p: PieceView| p.ready())
}

/// `acc`, followed by the items of `more` that occur neither in `acc` nor earlier
/// in `more`, in their order.
pub open spec fn merge_new(acc: Seq<u64>, more: Seq<u64>) -> Seq<u64>
    decreases more.len(),
{
    if more.len() == 0 {
        acc
    } else {
        let merged = merge_new(acc, more.drop_last());
        if merged.contains(more.last()) {
            merged
        } else {
            merged.push(more.last())
        }
    }
}

/// Merging adds to `acc` exactly the items of `more`, keeps `acc` in front, and
/// brings in no item twice.
pub proof fn lemma_merge_new(acc: Seq<u64>, more: Seq<u64>)
    ensures
        acc.is_prefix_of(merge_new(acc, more)),
        forall|x: u64| #[trigger]
            merge_new(acc, more).contains(x) <==> acc.contains(x) || more.contains(x),
        acc.no_duplicates() ==> merge_new(acc, more).no_duplicates(),
        merge_new(acc, more).len() == 0 ==> more.len() == 0,
    decreases more.len(),
{
    if more.len() > 0 {
        let rest = more.drop_last();
        let merged = merge_new(acc, rest);
        lemma_merge_new(acc, rest);
        assert forall|x: u64| #[trigger]
            merge_new(acc, more).contains(x) <==> acc.contains(x) || more.contains(x) by {
            if more.contains(x) {
                let j = choose|j: int| 0 <= j < more.len() && more[j] == x;
                if j < rest.len() {
                    assert(rest[j] == x);
                }
            }
            if !merged.contains(more.last()) {
                let grown = merged.push(more.last());
                assert(grown[merged.len() as int] == more.last());
                if merged.contains(x) {
                    let j = choose|j: int| 0 <= j < merged.len() && merged[j] == x;
                    assert(grown[j] == x);
                }
            }
        }
    }
}

/// Merging into nothing a sequence without duplicates gives that sequence.
pub(crate) proof fn lemma_merge_new_fresh(more: Seq<u64>)
    requires
        more.no_duplicates(),
    ensures
        merge_new(Seq::empty(), more) == more,
    decreases more.len(),
{
    if more.len() > 0 {
        lemma_merge_new_fresh(more.drop_last());
    }
}

/// Pieces of which none waits for a chunk all hold their bytes.
pub(crate) proof fn lemma_nothing_wanted(pieces: Seq<PieceView>)
    requires
        wanted_chunks(pieces).len() == 0,
    ensures
        ready_parts(pieces).len() == pieces.len(),
        forall|k: int|
            0 <= k < pieces.len() ==> #[trigger] pieces[k] == PieceView::Done(
                ready_parts(pieces)[k],
            ),
    decreases pieces.len(),
{
    if pieces.len() > 0 {
        let rest = pieces.drop_last();
        lemma_nothing_wanted(rest);
        assert forall|k: int| 0 <= k < pieces.len() implies #[trigger] pieces[k]
            == PieceView::Done(ready_parts(pieces)[k]) by {
            if k < rest.len() {
                assert(pieces[k] == rest[k]);
            }
        }
    }
}

impl FileView {
    /// A file that was just opened: nothing is resident.
    pub open spec fn fresh(path: Seq<char>, chunk_size: nat, len: nat) -> FileView {
        FileView { path, chunk_size, len, chunks: Map::empty() }
    }

    /// The chunk size is positive, the geometry fits the machine's offsets, and
    /// every resident chunk is a chunk of the file and has the chunk's full length.
    pub open spec fn wf(self) -> bool {
        &&& 0 < self.chunk_size <= u64::MAX
        &&& self.len <= u64::MAX
        &&& forall|i: u64| #[trigger]
            self.chunks.contains_key(i) ==> chunk_exists(
                self.chunk_size as int,
                self.len as int,
                i as int,
            ) && self.chunks[i].len() == chunk_len(self.chunk_size as int, self.len as int, i as int)
    }

    /// Whether `[from, to)` is a range of the file.
    pub open spec fn in_bounds(self, from: int, to: int) -> bool {
        0 <= from <= to <= self.len
    }

    /// Whether `data` can be chunk `idx` of the file: the chunk exists, and `data`
    /// has its length.
    pub open spec fn accepts(self, idx: u64, data: Seq<u8>) -> bool {
        &&& chunk_exists(self.chunk_size as int, self.len as int, idx as int)
        &&& data.len() == chunk_len(self.chunk_size as int, self.len as int, idx as int)
    }

    /// The file after `data` arrived for chunk `idx`. A chunk that is resident
    /// stays as it is: its bytes never change.
    pub open spec fn insert(self, idx: u64, data: Seq<u8>) -> FileView {
        if self.chunks.contains_key(idx) {
            self
        } else {
            FileView { chunks: self.chunks.insert(idx, data), ..self }
        }
    }

    /// Number of chunks that `[from, to)` touches.
    pub open spec fn span(self, from: int, to: int) -> nat {
        span_len(self.chunk_size as int, from, to)
    }

    /// The `k`-th chunk that `[from, to)` touches.
    pub open spec fn chunk_at(self, from: int, k: int) -> u64 {
        (from / (self.chunk_size as int) + k) as u64
    }

    /// Where, inside its `k`-th chunk, the part of `[from, to)` in that chunk
    /// starts.
    pub open spec fn lo(self, from: int, k: int) -> int {
        let i = from / (self.chunk_size as int) + k;
        part_start(self.chunk_size as int, from, i) - chunk_start(self.chunk_size as int, i)
    }

    /// Where, inside its `k`-th chunk, the part of `[from, to)` in that chunk
    /// ends.
    pub open spec fn hi(self, from: int, to: int, k: int) -> int {
        let i = from / (self.chunk_size as int) + k;
        part_end(self.chunk_size as int, to, i) - chunk_start(self.chunk_size as int, i)
    }

    /// The bytes of `[from, to)` that lie in its `k`-th chunk, as the cache holds
    /// them.
    pub open spec fn part(self, from: int, to: int, k: int) -> Seq<u8> {
        self.chunks[self.chunk_at(from, k)].subrange(self.lo(from, k), self.hi(from, to, k))
    }

    /// The `k`-th entry of the resolved range `[from, to)`.
    pub open spec fn piece(self, from: int, to: int, k: int) -> PieceView {
        if self.chunks.contains_key(self.chunk_at(from, k)) {
            PieceView::Done(self.part(from, to, k))
        } else {
            PieceView::ToRead {
                chunk: self.chunk_at(from, k),
                start: self.lo(from, k) as u64,
                end: self.hi(from, to, k) as u64,
            }
        }
    }

    /// The range `[from, to)` resolved against the cache: one entry for each chunk
    /// that it touches, in ascending order of the chunks.
    pub open spec fn resolve(self, from: int, to: int) -> Seq<PieceView> {
        Seq::new(self.span(from, to), |k: int| self.piece(from, to, k))
    }

    /// Whether every chunk that `[from, to)` touches is resident.
    pub open spec fn resident(self, from: int, to: int) -> bool {
        forall|k: int|
            0 <= k < self.span(from, to) ==> self.chunks.contains_key(
                #[trigger] self.chunk_at(from, k),
            )
    }

    /// The chunks that `[from, to)` touches and that are not resident, in ascending
    /// order.
    pub open spec fn missing(self, from: int, to: int) -> Seq<u64> {
        wanted_chunks(self.resolve(from, to))
    }

    /// Whether every range of a batch is a range of the file.
    pub open spec fn all_in_bounds(self, ranges: Seq<Range<u64>>) -> bool {
        forall|r: int|
            0 <= r < ranges.len() ==> self.in_bounds(
                (#[trigger] ranges[r]).start as int,
                ranges[r].end as int,
            )
    }

    /// Whether every chunk that some range of a batch touches is resident.
    pub open spec fn all_resident(self, ranges: Seq<Range<u64>>) -> bool {
        forall|r: int|
            0 <= r < ranges.len() ==> self.resident(
                (#[trigger] ranges[r]).start as int,
                ranges[r].end as int,
            )
    }

    /// Whether some range of a batch touches chunk `c`.
    pub open spec fn batch_touches(self, ranges: Seq<Range<u64>>, c: u64) -> bool {
        exists|r: int|
            0 <= r < ranges.len() && touches(
                self.chunk_size as int,
                (#[trigger] ranges[r]).start as int,
                ranges[r].end as int,
                c as int,
            )
    }

    /// The chunks to fetch for a batch of ranges: every chunk that some range of
    /// the batch touches and that is not resident, once, in the order in which the
    /// ranges first need them.
    pub open spec fn plan(self, ranges: Seq<Range<u64>>) -> Seq<u64>
        decreases ranges.len(),
    {
        if ranges.len() == 0 {
            Seq::empty()
        } else {
            merge_new(
                self.plan(ranges.drop_last()),
                self.missing(ranges.last().start as int, ranges.last().end as int),
            )
        }
    }

    /// The bytes of `[from, to)` as the cache holds them: the parts of the range
    /// in the chunks that it touches, one after the other.
    pub open spec fn read(self, from: int, to: int) -> Seq<u8> {
        Seq::new(self.span(from, to), |k: int| self.part(from, to, k)).flatten()
    }

    /// Whether the resident chunks hold what the file `content` holds at their
    /// place.
    pub open spec fn agrees_with(self, content: Seq<u8>) -> bool {
        &&& content.len() == self.len
        &&& forall|i: u64| #[trigger]
            self.chunks.contains_key(i) ==> self.chunks[i] == content.subrange(
                chunk_start(self.chunk_size as int, i as int),
                chunk_end(self.chunk_size as int, self.len as int, i as int),
            )
    }

    /// Among the first `n` chunks that a range touches, the missing ones are
    /// listed in ascending order, and they are those that are not resident.
    proof fn lemma_missing_prefix(self, from: int, to: int, n: int)
        requires
            self.wf(),
            self.in_bounds(from, to),
            0 <= n <= self.span(from, to),
        ensures
            ({
                let first = from / (self.chunk_size as int);
                let found = wanted_chunks(self.resolve(from, to).take(n));
                &&& forall|a: int, b: int| 0 <= a < b < found.len() ==> found[a] < found[b]
                &&& forall|a: int| 0 <= a < found.len() ==> first <= #[trigger] found[a] < first + n
                &&& forall|c: u64|
                    first <= c < first + n && !self.chunks.contains_key(c) ==> #[trigger] found.contains(
                        c,
                    )
                &&& forall|a: int|
                    0 <= a < found.len() ==> !self.chunks.contains_key(#[trigger] found[a])
            }),
        decreases n,
    {
        let pieces = self.resolve(from, to);
        if n > 0 {
            let first = from / (self.chunk_size as int);
            self.lemma_missing_prefix(from, to, n - 1);
            lemma_part_bounds(self.chunk_size as int, self.len as int, from, to, n - 1);
            pieces.lemma_filter_map_take_succ(|p: PieceView| p.wanted(), n - 1);
            let before = wanted_chunks(pieces.take(n - 1));
            let found = wanted_chunks(pieces.take(n));
            let c = self.chunk_at(from, n - 1);
            if !self.chunks.contains_key(c) {
                assert(found[before.len() as int] == c);
                assert forall|d: u64|
                    first <= d < first + n && !self.chunks.contains_key(d) implies #[trigger] found.contains(
                    d,
                ) by {
                    if d != c {
                        assert(before.contains(d));
                        let j = choose|j: int| 0 <= j < before.len() && before[j] == d;
                        assert(found[j] == d);
                    }
                }
            }
        }
    }

    /// The missing chunks of a range: they are listed in ascending order, so none
    /// is listed twice, and a chunk is listed if and only if the range touches it
    /// and it is not resident. None is missing if and only if all chunks of the
    /// range are resident.
    pub proof fn lemma_missing(self, from: int, to: int)
        requires
            self.wf(),
            self.in_bounds(from, to),
        ensures
            forall|a: int, b: int|
                0 <= a < b < self.missing(from, to).len() ==> self.missing(from, to)[a]
                    < self.missing(from, to)[b],
            self.missing(from, to).no_duplicates(),
            forall|c: u64| #[trigger]
                self.missing(from, to).contains(c) <==> touches(
                    self.chunk_size as int,
                    from,
                    to,
                    c as int,
                ) && !self.chunks.contains_key(c),
            self.missing(from, to).len() == 0 <==> self.resident(from, to),
    {
        let n = self.span(from, to) as int;
        let pieces = self.resolve(from, to);
        let found = self.missing(from, to);
        self.lemma_missing_prefix(from, to, n);
        assert(pieces.take(n) == pieces);
        if from < to {
            vstd::arithmetic::div_mod::lemma_div_is_ordered(from, to - 1, self.chunk_size as int);
            assert forall|c: u64|
                touches(self.chunk_size as int, from, to, c as int) <==> from / (
                self.chunk_size as int) <= c <= (to - 1) / (self.chunk_size as int) by {
                lemma_touches(self.chunk_size as int, from, to, c as int);
            }
        }
        if found.len() == 0 {
            self.lemma_nothing_missing(from, to);
        }
        if self.resident(from, to) && found.len() > 0 {
            let c = found[0];
            let k = c - from / (self.chunk_size as int);
            assert(self.chunk_at(from, k) == c);
        }
    }

    /// A range of which no chunk is missing has all its chunks resident, and the
    /// bytes of its entries, one after the other, are what a read of it gives.
    pub(crate) proof fn lemma_nothing_missing(self, from: int, to: int)
        requires
            self.missing(from, to).len() == 0,
        ensures
            self.resident(from, to),
            ready_parts(self.resolve(from, to)).flatten() == self.read(from, to),
    {
        let pieces = self.resolve(from, to);
        lemma_nothing_wanted(pieces);
        assert forall|k: int| 0 <= k < self.span(from, to) implies self.chunks.contains_key(
            #[trigger] self.chunk_at(from, k),
        ) by {
            assert(pieces[k] == PieceView::Done(ready_parts(pieces)[k]));
        }
        assert(ready_parts(pieces) =~= Seq::new(
            self.span(from, to),
            |k: int| self.part(from, to, k),
        )) by {
            assert forall|k: int| 0 <= k < pieces.len() implies ready_parts(pieces)[k]
                == self.part(from, to, k) by {
                assert(pieces[k] == PieceView::Done(ready_parts(pieces)[k]));
            }
        }
    }
}

} // verus!
