//! Splitting and joining byte sequences around a delimiter byte.
//!
//! These spec functions give the mathematical meaning of the wire format:
//! `split_bytes` cuts a byte sequence at every occurrence of a delimiter,
//! `join_bytes` is its inverse on delimiter-free chunks, and `find_byte` and
//! `count_byte` describe the first occurrence and the number of occurrences
//! of a byte. The lemmas relate the four to each other.

use vstd::prelude::*;

verus! {

/// Index of the first occurrence of `b` in `s`, or `s.len()` if `b` does not
/// occur in `s`.
pub open spec fn find_byte(s: Seq<u8>, b: u8) -> int
    decreases s.len(),
{
    if s.len() == 0 {
        0
    } else if s[0] == b {
        0
    } else {
        1 + find_byte(s.subrange(1, s.len() as int), b)
    }
}

/// Number of occurrences of `b` in `s`.
pub open spec fn count_byte(s: Seq<u8>, b: u8) -> nat
    decreases s.len(),
{
    if s.len() == 0 {
        0
    } else {
        (if s[0] == b {
            1nat
        } else {
            0nat
        }) + count_byte(s.subrange(1, s.len() as int), b)
    }
}

/// The chunks of `s` delimited by `b`: cutting at every occurrence of `b`
/// yields `count_byte(s, b) + 1` chunks, each free of `b`, in order.
pub open spec fn split_bytes(s: Seq<u8>, b: u8) -> Seq<Seq<u8>>
    decreases s.len(),
{
    let i = find_byte(s, b);
    if 0 <= i < s.len() {
        seq![s.subrange(0, i)] + split_bytes(s.subrange(i + 1, s.len() as int), b)
    } else {
        seq![s]
    }
}

/// The chunks concatenated back together with one `b` between neighbours.
pub open spec fn join_bytes(chunks: Seq<Seq<u8>>, b: u8) -> Seq<u8>
    decreases chunks.len(),
{
    if chunks.len() == 0 {
        Seq::empty()
    } else if chunks.len() == 1 {
        chunks[0]
    } else {
        chunks[0] + seq![b] + join_bytes(chunks.subrange(1, chunks.len() as int), b)
    }
}

pub proof fn lemma_find_byte_bounds(s: Seq<u8>, b: u8)
    ensures
        0 <= find_byte(s, b) <= s.len(),
        find_byte(s, b) < s.len() ==> s[find_byte(s, b)] == b,
        forall|k: int| 0 <= k < find_byte(s, b) ==> s[k] != b,
    decreases s.len(),
{
    if s.len() == 0 {
    } else if s[0] == b {
    } else {
        let t = s.subrange(1, s.len() as int);
        lemma_find_byte_bounds(t, b);
        assert(forall|k: int| 1 <= k <= s.len() - 1 ==> s[k] == t[k - 1]);
    }
}

/// `find_byte` returns `i` exactly when `b` occurs at `i` and nowhere before.
pub proof fn lemma_find_byte_at(s: Seq<u8>, b: u8, i: int)
    requires
        0 <= i <= s.len(),
        forall|k: int| 0 <= k < i ==> s[k] != b,
        i == s.len() || s[i] == b,
    ensures
        find_byte(s, b) == i,
    decreases s.len(),
{
    if s.len() == 0 {
    } else if s[0] == b {
        assert(i == 0);
    } else {
        assert(i >= 1);
        let t = s.subrange(1, s.len() as int);
        assert(forall|k: int| 0 <= k < i - 1 ==> t[k] != b);
        lemma_find_byte_at(t, b, i - 1);
    }
}

/// `b` does not occur in `s` exactly when its count in `s` is zero.
pub proof fn lemma_count_byte_zero(s: Seq<u8>, b: u8)
    ensures
        count_byte(s, b) == 0 <==> (forall|k: int| 0 <= k < s.len() ==> s[k] != b),
    decreases s.len(),
{
    if s.len() == 0 {
    } else {
        let t = s.subrange(1, s.len() as int);
        lemma_count_byte_zero(t, b);
        if s[0] != b && count_byte(t, b) == 0 {
            assert(forall|k: int| 0 <= k < s.len() ==> s[k] != b) by {
                assert(forall|k: int| 1 <= k < s.len() ==> s[k] == t[k - 1]);
            }
        }
        if forall|k: int| 0 <= k < s.len() ==> s[k] != b {
            assert(forall|k: int| 0 <= k < t.len() ==> t[k] != b);
        }
    }
}

/// Cutting off everything up to and including the first occurrence of `b`
/// removes exactly one occurrence.
pub proof fn lemma_count_byte_first(s: Seq<u8>, b: u8)
    requires
        find_byte(s, b) < s.len(),
    ensures
        count_byte(s, b) == 1 + count_byte(s.subrange(find_byte(s, b) + 1, s.len() as int), b),
    decreases s.len(),
{
    lemma_find_byte_bounds(s, b);
    if s[0] == b {
        assert(s.subrange(1, s.len() as int) == s.subrange(find_byte(s, b) + 1, s.len() as int));
    } else {
        let t = s.subrange(1, s.len() as int);
        lemma_find_byte_bounds(t, b);
        lemma_count_byte_first(t, b);
        let i = find_byte(s, b);
        assert(t.subrange(find_byte(t, b) + 1, t.len() as int) =~= s.subrange(i + 1, s.len() as int));
    }
}

/// A split always yields one chunk more than there are delimiters.
pub proof fn lemma_split_bytes_len(s: Seq<u8>, b: u8)
    ensures
        split_bytes(s, b).len() == count_byte(s, b) + 1,
    decreases s.len(),
{
    lemma_find_byte_bounds(s, b);
    let i = find_byte(s, b);
    if 0 <= i < s.len() {
        lemma_split_bytes_len(s.subrange(i + 1, s.len() as int), b);
        lemma_count_byte_first(s, b);
    } else {
        lemma_count_byte_zero(s, b);
    }
}

/// No chunk of a split contains the delimiter.
pub proof fn lemma_split_bytes_free(s: Seq<u8>, b: u8)
    ensures
        forall|j: int|
            0 <= j < split_bytes(s, b).len() ==> !(#[trigger] split_bytes(s, b)[j]).contains(b),
    decreases s.len(),
{
    lemma_find_byte_bounds(s, b);
    let i = find_byte(s, b);
    if 0 <= i < s.len() {
        let rest = s.subrange(i + 1, s.len() as int);
        lemma_split_bytes_free(rest, b);
        assert(!s.subrange(0, i).contains(b)) by {
            assert(forall|k: int| 0 <= k < i ==> s.subrange(0, i)[k] != b);
        }
        assert(forall|j: int|
            1 <= j < split_bytes(s, b).len() ==> #[trigger] split_bytes(s, b)[j] == split_bytes(
                rest,
                b,
            )[j - 1]);
    } else {
        assert(!s.contains(b)) by {
            assert(forall|k: int| 0 <= k < s.len() ==> s[k] != b);
        }
    }
}

/// Joining the chunks of a split restores the original sequence.
pub proof fn lemma_join_split_bytes(s: Seq<u8>, b: u8)
    ensures
        join_bytes(split_bytes(s, b), b) == s,
    decreases s.len(),
{
    lemma_find_byte_bounds(s, b);
    let i = find_byte(s, b);
    if 0 <= i < s.len() {
        let rest = s.subrange(i + 1, s.len() as int);
        lemma_join_split_bytes(rest, b);
        lemma_split_bytes_len(rest, b);
        let chunks = split_bytes(s, b);
        assert(chunks.len() >= 2);
        assert(chunks.subrange(1, chunks.len() as int) =~= split_bytes(rest, b));
        assert(s.subrange(0, i) + seq![b] + rest =~= s);
    }
}

/// Splitting the join of delimiter-free chunks restores the chunks.
pub proof fn lemma_split_join_bytes(chunks: Seq<Seq<u8>>, b: u8)
    requires
        chunks.len() >= 1,
        forall|j: int| 0 <= j < chunks.len() ==> !(#[trigger] chunks[j]).contains(b),
    ensures
        split_bytes(join_bytes(chunks, b), b) == chunks,
    decreases chunks.len(),
{
    let s = join_bytes(chunks, b);
    let c0 = chunks[0];
    if chunks.len() == 1 {
        assert(forall|k: int| 0 <= k < s.len() ==> s[k] != b);
        lemma_find_byte_at(s, b, s.len() as int);
        assert(split_bytes(s, b) =~= chunks);
    } else {
        let rest = chunks.subrange(1, chunks.len() as int);
        let tail = join_bytes(rest, b);
        assert(s == c0 + seq![b] + tail);
        assert(forall|k: int| 0 <= k < c0.len() ==> s[k] == c0[k]);
        assert(forall|k: int| 0 <= k < c0.len() ==> s[k] != b);
        assert(s[c0.len() as int] == b);
        lemma_find_byte_at(s, b, c0.len() as int);
        assert(s.subrange(0, c0.len() as int) =~= c0);
        assert(s.subrange(c0.len() as int + 1, s.len() as int) =~= tail);
        lemma_split_join_bytes(rest, b);
        assert(split_bytes(s, b) =~= seq![c0] + split_bytes(tail, b));
        assert(seq![c0] + rest =~= chunks);
    }
}

/// A byte that does not occur in a sequence occurs in no chunk of its split.
pub proof fn lemma_split_bytes_preserve_free(s: Seq<u8>, d: u8, b: u8)
    requires
        !s.contains(b),
    ensures
        forall|j: int|
            0 <= j < split_bytes(s, d).len() ==> !(#[trigger] split_bytes(s, d)[j]).contains(b),
    decreases s.len(),
{
    lemma_find_byte_bounds(s, d);
    assert(forall|k: int| 0 <= k < s.len() ==> s[k] != b);
    let i = find_byte(s, d);
    if 0 <= i < s.len() {
        let rest = s.subrange(i + 1, s.len() as int);
        assert(!rest.contains(b)) by {
            assert(forall|k: int| 0 <= k < rest.len() ==> rest[k] != b);
        }
        lemma_split_bytes_preserve_free(rest, d, b);
        assert(!s.subrange(0, i).contains(b)) by {
            assert(forall|k: int| 0 <= k < i ==> s.subrange(0, i)[k] != b);
        }
        assert(forall|j: int|
            1 <= j < split_bytes(s, d).len() ==> #[trigger] split_bytes(s, d)[j] == split_bytes(
                rest,
                d,
            )[j - 1]);
    }
}

/// A byte other than the delimiter that occurs in no chunk does not occur in
/// the join of the chunks.
pub proof fn lemma_join_bytes_free(chunks: Seq<Seq<u8>>, d: u8, b: u8)
    requires
        b != d,
        forall|j: int| 0 <= j < chunks.len() ==> !(#[trigger] chunks[j]).contains(b),
    ensures
        !join_bytes(chunks, d).contains(b),
    decreases chunks.len(),
{
    let s = join_bytes(chunks, d);
    if chunks.len() == 0 {
        assert(forall|k: int| 0 <= k < s.len() ==> s[k] != b);
    } else if chunks.len() == 1 {
        assert(!chunks[0].contains(b));
        assert(forall|k: int| 0 <= k < s.len() ==> s[k] != b) by {
            assert(forall|k: int| 0 <= k < chunks[0].len() ==> chunks[0][k] != b);
        }
    } else {
        let rest = chunks.subrange(1, chunks.len() as int);
        lemma_join_bytes_free(rest, d, b);
        let c0 = chunks[0];
        let tail = join_bytes(rest, d);
        assert(forall|k: int| 0 <= k < c0.len() ==> c0[k] != b);
        assert(forall|k: int| 0 <= k < tail.len() ==> tail[k] != b);
        assert(forall|k: int| 0 <= k < s.len() ==> s[k] != b);
    }
}

/// First index at or after `from` where `b` occurs in `data`, or the length
/// of `data` if `b` does not occur there.
pub fn find_byte_from(data: &[u8], b: u8, from: usize) -> (r: usize)
    requires
        from <= data@.len(),
    ensures
        from <= r <= data@.len(),
        r - from == find_byte(data@.subrange(from as int, data@.len() as int), b),
        r < data@.len() ==> data@[r as int] == b,
        forall|k: int| from <= k < r ==> data@[k] != b,
{
    let ghost tail = data@.subrange(from as int, data@.len() as int);
    let mut i = from;
    while i < data.len()
        invariant
            from <= i <= data@.len(),
            tail == data@.subrange(from as int, data@.len() as int),
            forall|k: int| from <= k < i ==> data@[k] != b,
        decreases data@.len() - i,
    {
        if data[i] == b {
            proof {
                assert(forall|k: int| 0 <= k < i - from ==> tail[k] != b);
                lemma_find_byte_at(tail, b, i - from);
            }
            return i;
        }
        i += 1;
    }
    proof {
        assert(forall|k: int| 0 <= k < tail.len() ==> tail[k] != b);
        lemma_find_byte_at(tail, b, tail.len() as int);
    }
    i
}

} // verus!
