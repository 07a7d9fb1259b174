//! How a file is cut into chunks, and how a byte range falls onto them.
//!
//! A file of `len` bytes with chunk size `cs > 0` consists of the chunks
//! `0, 1, ..`; chunk `i` holds the bytes `i * cs .. min(i * cs + cs, len)`. Only the
//! last chunk can be shorter than `cs`.

use vstd::prelude::*;

verus! {

/// Offset in the file of the first byte of chunk `i`.
pub open spec fn chunk_start(cs: int, i: int) -> int {
    i * cs
}

/// Offset in the file just behind the last byte of chunk `i`.
pub open spec fn chunk_end(cs: int, len: int, i: int) -> int {
    if i * cs + cs <= len {
        i * cs + cs
    } else {
        len
    }
}

/// Number of bytes in chunk `i`.
pub open spec fn chunk_len(cs: int, len: int, i: int) -> int {
    chunk_end(cs, len, i) - chunk_start(cs, i)
}

/// Whether the file has a chunk `i`, that is, at least one byte at or behind
/// `i * cs`.
pub open spec fn chunk_exists(cs: int, len: int, i: int) -> bool {
    0 <= i && i * cs < len
}

/// Whether the range `[from, to)` has a byte in chunk `i`: the range and the
/// span of the chunk overlap.
pub open spec fn touches(cs: int, from: int, to: int, i: int) -> bool {
    from < to && i * cs < to && from < i * cs + cs
}

/// Number of chunks in which the range `[from, to)` has a byte. The empty range
/// touches none, wherever it lies.
pub open spec fn span_len(cs: int, from: int, to: int) -> nat {
    if from < to {
        ((to - 1) / cs - from / cs + 1) as nat
    } else {
        0
    }
}

/// Offset in the file at which the part of `[from, to)` inside chunk `i` starts.
pub open spec fn part_start(cs: int, from: int, i: int) -> int {
    if from >= i * cs {
        from
    } else {
        i * cs
    }
}

/// Offset in the file at which the part of `[from, to)` inside chunk `i` ends.
pub open spec fn part_end(cs: int, to: int, i: int) -> int {
    if to <= i * cs + cs {
        to
    } else {
        i * cs + cs
    }
}

/// Quotient and remainder of a division by the chunk size, in linear terms.
pub(crate) proof fn lemma_div_mod(x: int, d: int)
    by (nonlinear_arith)
    requires
        0 <= x,
        0 < d,
    ensures
        0 <= x / d <= x,
        (x / d) * d <= x < (x / d) * d + d,
        x % d == x - (x / d) * d,
{
}

/// The start of a later chunk is not before the end of an earlier one.
proof fn lemma_chunks_ordered(cs: int, i: int, j: int)
    by (nonlinear_arith)
    requires
        0 < cs,
        i < j,
    ensures
        i * cs + cs <= j * cs,
{
}

/// A chunk ends where the next one starts.
proof fn lemma_chunks_adjoin(cs: int, i: int)
    by (nonlinear_arith)
    ensures
        i * cs + cs == (i + 1) * cs,
{
}

/// A chunk index is no larger than the offset at which the chunk starts.
proof fn lemma_index_le_start(cs: int, i: int)
    by (nonlinear_arith)
    requires
        0 < cs,
        0 <= i,
    ensures
        i <= i * cs,
{
}

/// The chunks that a range touches are those from the chunk of its first byte
/// to the chunk of its last byte.
pub proof fn lemma_touches(cs: int, from: int, to: int, i: int)
    requires
        0 < cs,
        0 <= from < to,
    ensures
        touches(cs, from, to, i) <==> from / cs <= i <= (to - 1) / cs,
{
    let first = from / cs;
    let last = (to - 1) / cs;
    lemma_div_mod(from, cs);
    lemma_div_mod(to - 1, cs);
    if i < first {
        lemma_chunks_ordered(cs, i, first);
    }
    if i > first {
        lemma_chunks_ordered(cs, first, i);
    }
    if i < last {
        lemma_chunks_ordered(cs, i, last);
    }
    if i > last {
        lemma_chunks_ordered(cs, last, i);
    }
}

/// The part of a range inside its `k`-th chunk: it is not empty, lies inside
/// the range and inside the chunk, starts at `from` in the first chunk and ends at
/// `to` in the last, and otherwise runs from chunk boundary to chunk boundary.
pub proof fn lemma_part_bounds(cs: int, len: int, from: int, to: int, k: int)
    requires
        0 < cs,
        0 <= from <= to <= len,
        0 <= k < span_len(cs, from, to),
    ensures
        ({
            let i = from / cs + k;
            &&& chunk_exists(cs, len, i)
            &&& touches(cs, from, to, i)
            &&& i <= len
            &&& i * cs <= part_start(cs, from, i) < part_end(cs, to, i) <= chunk_end(cs, len, i)
            &&& from <= part_start(cs, from, i)
            &&& part_end(cs, to, i) <= to
            &&& k == 0 ==> part_start(cs, from, i) == from
            &&& k > 0 ==> part_start(cs, from, i) == i * cs == part_end(cs, to, i - 1)
            &&& k == span_len(cs, from, to) - 1 ==> part_end(cs, to, i) == to
            &&& k < span_len(cs, from, to) - 1 ==> part_end(cs, to, i) == i * cs + cs
        }),
{
    let first = from / cs;
    let last = (to - 1) / cs;
    let i = first + k;
    lemma_div_mod(from, cs);
    lemma_div_mod(to - 1, cs);
    vstd::arithmetic::div_mod::lemma_div_is_ordered(from, to - 1, cs);
    lemma_index_le_start(cs, i);
    if i > first {
        lemma_chunks_ordered(cs, first, i);
        lemma_chunks_adjoin(cs, i - 1);
    }
    if i < last {
        lemma_chunks_ordered(cs, i, last);
    }
}

} // verus!
