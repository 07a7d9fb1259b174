//! What holds of reads, fetch plans and handles, whatever the file, the cache
//! and the ranges are. Each law is stated over the model that the contracts of
//! the library use, and proved from the model alone.

use crate::error::FetchError;
use crate::layout::{chunk_end, chunk_start, lemma_part_bounds, part_end, touches};
use crate::registry::{
    handle_of, is_small_file, known, opened_handle, opened_table, served_chunk_size, table_wf,
    SMALL_FILE_CHUNK_SIZE,
};
use crate::view::{lemma_merge_new, lemma_merge_new_fresh, merge_new, FileView};
use core::ops::Range;
use vstd::prelude::*;

verus! {

/// Where the first `n` parts of a range end in the file.
spec fn reached(file: FileView, from: int, to: int, n: int) -> int {
    if n == 0 {
        from
    } else {
        part_end(file.chunk_size as int, to, from / (file.chunk_size as int) + n - 1)
    }
}

/// The first `n` parts of a range whose chunks are resident are, one after the
/// other, the bytes of the file from the start of the range to the end of the
/// `n`-th part.
proof fn lemma_parts_are_content(file: FileView, content: Seq<u8>, from: int, to: int, n: int)
    requires
        file.wf(),
        file.agrees_with(content),
        file.in_bounds(from, to),
        file.resident(from, to),
        0 <= n <= file.span(from, to),
    ensures
        from <= reached(file, from, to, n) <= to,
        Seq::new(file.span(from, to), |k: int| file.part(from, to, k)).take(n).flatten()
            == content.subrange(from, reached(file, from, to, n)),
    decreases n,
{
    let parts = Seq::new(file.span(from, to), |k: int| file.part(from, to, k));
    if n > 0 {
        let k = n - 1;
        lemma_parts_are_content(file, content, from, to, k);
        lemma_part_bounds(file.chunk_size as int, file.len as int, from, to, k);
        assert(parts.take(n) =~= parts.take(k).push(parts[k]));
        parts.take(k).lemma_flatten_push(parts[k]);
    }
}

/// A read returns the bytes of the file. If the resident chunks hold what the
/// file holds, and every chunk that the range touches is resident, then reading
/// `[from, to)` gives exactly the `to - from` bytes that the file holds there.
pub proof fn lemma_read_is_content(file: FileView, content: Seq<u8>, from: int, to: int)
    requires
        file.wf(),
        file.agrees_with(content),
        file.in_bounds(from, to),
        file.resident(from, to),
    ensures
        file.read(from, to) == content.subrange(from, to),
        file.read(from, to).len() == to - from,
{
    let n = file.span(from, to) as int;
    let parts = Seq::new(file.span(from, to), |k: int| file.part(from, to, k));
    lemma_parts_are_content(file, content, from, to, n);
    assert(parts.take(n) =~= parts);
    if n > 0 {
        lemma_part_bounds(file.chunk_size as int, file.len as int, from, to, n - 1);
    } else if from < to {
        vstd::arithmetic::div_mod::lemma_div_is_ordered(from, to - 1, file.chunk_size as int);
    }
}

/// An empty range needs no chunk and gives no byte, wherever it lies and
/// whatever is resident.
pub proof fn lemma_empty_range(file: FileView, at: int)
    ensures
        file.span(at, at) == 0,
        file.resident(at, at),
        file.missing(at, at) == Seq::<u64>::empty(),
        file.read(at, at) == Seq::<u8>::empty(),
{
}

/// A file that was just opened is well formed, has no chunk resident, and its
/// cache holds nothing that the file does not hold, whatever the file holds.
pub proof fn lemma_fresh(path: Seq<char>, chunk_size: u64, len: u64, content: Seq<u8>)
    requires
        chunk_size > 0,
        content.len() == len,
    ensures
        FileView::fresh(path, chunk_size as nat, len as nat).wf(),
        FileView::fresh(path, chunk_size as nat, len as nat).agrees_with(content),
        forall|c: u64| !FileView::fresh(path, chunk_size as nat, len as nat).chunks.contains_key(c),
{
}

/// Data that a file accepts for a chunk makes the chunk resident and changes
/// nothing else: the file stays well formed, keeps its path, chunk size and
/// length, and keeps every chunk that was resident, with its bytes. If the cache
/// held what the file holds, and the data is what the file holds in that chunk,
/// the cache still holds what the file holds.
pub proof fn lemma_insert(file: FileView, idx: u64, data: Seq<u8>, content: Seq<u8>)
    requires
        file.wf(),
        file.accepts(idx, data),
    ensures
        file.insert(idx, data).wf(),
        file.insert(idx, data).path == file.path,
        file.insert(idx, data).chunk_size == file.chunk_size,
        file.insert(idx, data).len == file.len,
        file.insert(idx, data).chunks.contains_key(idx),
        file.chunks.submap_of(file.insert(idx, data).chunks),
        file.agrees_with(content) && data == content.subrange(
            chunk_start(file.chunk_size as int, idx as int),
            chunk_end(file.chunk_size as int, file.len as int, idx as int),
        ) ==> file.insert(idx, data).agrees_with(content),
{
}

/// A read that was served is served again, with the same bytes, as long as the
/// cache only grows: if `later` has the chunk size of `file` and holds every
/// chunk that `file` holds, with the same bytes, then a range whose chunks are
/// resident in `file` needs no fetch in `later` and reads the same there.
pub proof fn lemma_read_stable(file: FileView, later: FileView, from: int, to: int)
    requires
        file.wf(),
        later.wf(),
        file.in_bounds(from, to),
        later.chunk_size == file.chunk_size,
        later.len == file.len,
        file.chunks.submap_of(later.chunks),
        file.resident(from, to),
    ensures
        later.resident(from, to),
        later.missing(from, to) == Seq::<u64>::empty(),
        later.read(from, to) == file.read(from, to),
{
    assert forall|k: int| 0 <= k < later.span(from, to) implies later.chunks.contains_key(
        #[trigger] later.chunk_at(from, k),
    ) by {
        assert(file.chunks.contains_key(file.chunk_at(from, k)));
    }
    assert(Seq::new(later.span(from, to), |k: int| later.part(from, to, k)) =~= Seq::new(
        file.span(from, to),
        |k: int| file.part(from, to, k),
    ));
    later.lemma_missing(from, to);
}

/// What a read returns does not depend on the chunk size: two caches of the same
/// file, with whatever chunk sizes, give the same bytes for a range whose
/// chunks are resident in both.
pub proof fn lemma_chunk_size_is_immaterial(
    one: FileView,
    other: FileView,
    content: Seq<u8>,
    from: int,
    to: int,
)
    requires
        one.wf(),
        other.wf(),
        one.agrees_with(content),
        other.agrees_with(content),
        one.in_bounds(from, to),
        one.resident(from, to),
        other.resident(from, to),
    ensures
        one.read(from, to) == other.read(from, to),
{
    lemma_read_is_content(one, content, from, to);
    lemma_read_is_content(other, content, from, to);
}

/// The fetch plan of a batch lists no chunk twice, and lists a chunk if and
/// only if the chunk is not resident and some range of the batch touches it.
/// So a batch costs one fetch for each chunk that it needs and that is not
/// resident, however many of its ranges touch the chunk.
pub proof fn lemma_plan(file: FileView, ranges: Seq<Range<u64>>)
    requires
        file.wf(),
        file.all_in_bounds(ranges),
    ensures
        file.plan(ranges).no_duplicates(),
        forall|c: u64| #[trigger]
            file.plan(ranges).contains(c) <==> !file.chunks.contains_key(c) && file.batch_touches(
                ranges,
                c,
            ),
    decreases ranges.len(),
{
    if ranges.len() > 0 {
        let rest = ranges.drop_last();
        let last = ranges.last();
        lemma_plan(file, rest);
        file.lemma_missing(last.start as int, last.end as int);
        lemma_merge_new(file.plan(rest), file.missing(last.start as int, last.end as int));
        assert forall|c: u64| #[trigger]
            file.plan(ranges).contains(c) <==> !file.chunks.contains_key(c) && file.batch_touches(
                ranges,
                c,
            ) by {
            if file.batch_touches(ranges, c) {
                let r = choose|r: int|
                    0 <= r < ranges.len() && touches(
                        file.chunk_size as int,
                        (#[trigger] ranges[r]).start as int,
                        ranges[r].end as int,
                        c as int,
                    );
                if r < rest.len() {
                    assert(rest[r] == ranges[r]);
                }
            }
        }
    }
}

/// A batch of a single range plans the missing chunks of that range.
pub proof fn lemma_plan_of_one(file: FileView, range: Range<u64>)
    requires
        file.wf(),
        file.in_bounds(range.start as int, range.end as int),
    ensures
        file.plan(seq![range]) == file.missing(range.start as int, range.end as int),
{
    let batch = seq![range];
    file.lemma_missing(range.start as int, range.end as int);
    lemma_merge_new_fresh(file.missing(range.start as int, range.end as int));
    assert(file.plan(batch) == merge_new(
        file.plan(batch.drop_last()),
        file.missing(range.start as int, range.end as int),
    ));
}

/// Nothing is planned if and only if every range of the batch has all its
/// chunks resident.
pub proof fn lemma_plan_is_empty(file: FileView, ranges: Seq<Range<u64>>)
    requires
        file.wf(),
        file.all_in_bounds(ranges),
    ensures
        file.plan(ranges).len() == 0 <==> file.all_resident(ranges),
{
    lemma_plan(file, ranges);
    let plan = file.plan(ranges);
    if plan.len() == 0 {
        assert forall|r: int| 0 <= r < ranges.len() implies file.resident(
            (#[trigger] ranges[r]).start as int,
            ranges[r].end as int,
        ) by {
            let from = ranges[r].start as int;
            let to = ranges[r].end as int;
            file.lemma_missing(from, to);
            if file.missing(from, to).len() > 0 {
                let c = file.missing(from, to)[0];
                assert(file.missing(from, to).contains(c));
                assert(plan.contains(c));
            }
        }
    } else {
        let c = plan[0];
        assert(plan.contains(c));
        let r = choose|r: int|
            0 <= r < ranges.len() && touches(
                file.chunk_size as int,
                (#[trigger] ranges[r]).start as int,
                ranges[r].end as int,
                c as int,
            );
        let from = ranges[r].start as int;
        let to = ranges[r].end as int;
        file.lemma_missing(from, to);
        assert(file.missing(from, to).contains(c));
    }
}

/// Fetching the plan is enough. If `later` has the geometry of `file`, still
/// holds every chunk that `file` holds, and holds every chunk of the plan that
/// `file` made for a batch, then `later` plans nothing for that batch: every
/// range of it is read without a further fetch.
pub proof fn lemma_plan_is_enough(file: FileView, later: FileView, ranges: Seq<Range<u64>>)
    requires
        file.wf(),
        later.wf(),
        file.all_in_bounds(ranges),
        later.chunk_size == file.chunk_size,
        later.len == file.len,
        forall|c: u64| file.chunks.contains_key(c) ==> later.chunks.contains_key(c),
        forall|c: u64| file.plan(ranges).contains(c) ==> later.chunks.contains_key(c),
    ensures
        later.plan(ranges) == Seq::<u64>::empty(),
        later.all_resident(ranges),
{
    lemma_plan(file, ranges);
    lemma_plan(later, ranges);
    let plan = later.plan(ranges);
    if plan.len() > 0 {
        assert(plan.contains(plan[0]));
    }
    lemma_plan_is_empty(later, ranges);
}

/// A small file is served with the one small chunk size, whatever size is asked
/// for: the size served does not depend on the request, is positive, and is
/// below 4096. Any other file is served with the size asked for.
pub proof fn lemma_small_file_size(path: Seq<char>, requested: u64, other: u64)
    ensures
        is_small_file(path) ==> served_chunk_size(path, requested) == SMALL_FILE_CHUNK_SIZE,
        is_small_file(path) ==> served_chunk_size(path, requested) == served_chunk_size(
            path,
            other,
        ),
        is_small_file(path) ==> 0 < served_chunk_size(path, requested) < 4096,
        !is_small_file(path) ==> served_chunk_size(path, requested) == requested,
{
}

/// Handles on one path share one cache. Opening a path gives a handle; a chunk
/// that is then taken in through that handle is resident in the file behind the
/// handle that any later opening of the path gives, because that handle is the
/// same one: whatever chunk size the later opening asks for and whatever the
/// host answers then, it neither adds a file nor asks for a length.
pub proof fn lemma_handles_share_cache(
    files: Seq<FileView>,
    path: Seq<char>,
    first_size: u64,
    first_length: Option<u64>,
    later_size: u64,
    later_length: Option<u64>,
    idx: u64,
    data: Seq<u8>,
)
    requires
        table_wf(files),
        known(files, path) || first_length is Some,
    ensures
        ({
            let opened = opened_table(files, path, first_size, first_length);
            let handle = handle_of(opened, path);
            let fetched = opened.update(handle, opened[handle].insert(idx, data));
            &&& 0 <= handle < opened.len()
            &&& opened_handle(files, path, first_length) == Ok::<int, FetchError>(handle)
            &&& opened_table(fetched, path, later_size, later_length) == fetched
            &&& opened_handle(fetched, path, later_length) == Ok::<int, FetchError>(handle)
            &&& opened[handle].accepts(idx, data) ==> fetched[handle].chunks.contains_key(idx)
        }),
{
    let opened = opened_table(files, path, first_size, first_length);
    if !known(files, path) {
        assert(opened[files.len() as int].path == path);
    }
    let handle = handle_of(opened, path);
    let fetched = opened.update(handle, opened[handle].insert(idx, data));
    assert(fetched[handle].path == path);
    // No other file of the table has the path.
    assert forall|i: int| 0 <= i < opened.len() && i != handle implies (#[trigger] opened[i]).path
        != path by {
        if i < files.len() && handle < files.len() {
            assert(files[i].path != files[handle].path);
        }
    }
    let again = handle_of(fetched, path);
    assert(again == handle) by {
        assert(fetched[again].path == opened[again].path);
    }
}

} // verus!
