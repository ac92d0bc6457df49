use vstd::prelude::*;

verus! {

/// Length of the preamble that precedes the `DICM` marker of a DICOM stream.
pub const PREAMBLE_LEN: usize = 128;

/// Whether the four bytes at `i` spell `DICM`.
pub open spec fn marker_at(d: Seq<u8>, i: int) -> bool {
    &&& 0 <= i
    &&& i + 4 <= d.len()
    &&& d[i] == 0x44u8
    &&& d[i + 1] == 0x49u8
    &&& d[i + 2] == 0x43u8
    &&& d[i + 3] == 0x4du8
}

/// Whether a marker at `i` opens an embedded part: it leaves room for a
/// preamble before it and stands at an even offset.
pub open spec fn opens_part(d: Seq<u8>, i: int) -> bool {
    marker_at(d, i) && i >= 128 && i % 2 == 0
}

/// The part boundaries given by the markers that start before offset `n`,
/// in ascending order: each lies one preamble before its marker.
pub open spec fn boundaries_before(d: Seq<u8>, n: int) -> Seq<int>
    decreases n,
{
    if n <= 0 {
        Seq::empty()
    } else if opens_part(d, n - 1) {
        boundaries_before(d, n - 1).push(n - 1 - 128)
    } else {
        boundaries_before(d, n - 1)
    }
}

/// All part boundaries of `d`, ascending.
pub open spec fn part_boundaries(d: Seq<u8>) -> Seq<int> {
    boundaries_before(d, d.len() as int)
}

/// Where the part that opens at boundary `k` of `bs` ends: at the next
/// boundary, or at `len` for the last one.
pub open spec fn part_end(bs: Seq<int>, k: int, len: int) -> int {
    if k + 1 < bs.len() {
        bs[k + 1]
    } else {
        len
    }
}

/// The parts that the first `k` boundaries of `bs` open, as `(start, end)`
/// pairs, leaving out every part that does not end after it starts.
pub open spec fn ranges_upto(bs: Seq<int>, len: int, k: int) -> Seq<(int, int)>
    decreases k,
{
    if k <= 0 {
        Seq::empty()
    } else {
        let prev = ranges_upto(bs, len, k - 1);
        let start = bs[k - 1];
        let end = part_end(bs, k - 1, len);
        if end > start {
            prev.push((start, end))
        } else {
            prev
        }
    }
}

/// The embedded parts of `d`, as `(start, end)` pairs.
pub open spec fn part_ranges_of(d: Seq<u8>) -> Seq<(int, int)> {
    let bs = part_boundaries(d);
    ranges_upto(bs, d.len() as int, bs.len() as int)
}

pub open spec fn usize_seq(s: Seq<usize>) -> Seq<int> {
    s.map_values(|x: usize| x as int)
}

pub open spec fn range_seq(s: Seq<(usize, usize)>) -> Seq<(int, int)> {
    s.map_values(|p: (usize, usize)| (p.0 as int, p.1 as int))
}

/// Boundaries before `n` lie in ascending order, each with a whole
/// preamble and marker after it inside `d`.
pub proof fn lemma_boundaries_in_bounds(d: Seq<u8>, n: int)
    requires
        n <= d.len(),
    ensures
        forall|k: int|
            0 <= k < boundaries_before(d, n).len() ==> 0 <= #[trigger] boundaries_before(d, n)[k]
                && boundaries_before(d, n)[k] + 132 <= d.len()
                && boundaries_before(d, n)[k] + 128 < n,
        forall|j: int, k: int|
            0 <= j < k < boundaries_before(d, n).len() ==> #[trigger] boundaries_before(d, n)[j]
                < #[trigger] boundaries_before(d, n)[k],
    decreases n,
{
    if n > 0 {
        lemma_boundaries_in_bounds(d, n - 1);
        let p = boundaries_before(d, n - 1);
        if opens_part(d, n - 1) {
            let q = p.push(n - 1 - 128);
            assert(boundaries_before(d, n) == q);
            assert forall|k: int| 0 <= k < q.len() implies 0 <= #[trigger] q[k] && q[k] + 132
                <= d.len() && q[k] + 128 < n by {
                if k < p.len() {
                    assert(q[k] == p[k]);
                }
            }
            assert forall|j: int, k: int| 0 <= j < k < q.len() implies #[trigger] q[j]
                < #[trigger] q[k] by {
                assert(q[j] == p[j]);
                if k < p.len() {
                    assert(q[k] == p[k]);
                }
            }
        }
    }
}

proof fn lemma_boundaries_prefix(d: Seq<u8>, starts: Seq<int>, n: int) -> (c: int)
    requires
        0 <= n <= d.len(),
        forall|j: int, k: int| 0 <= j < k < starts.len() ==> starts[j] < starts[k],
        forall|j: int|
            0 <= j < starts.len() ==> #[trigger] starts[j] >= 0 && starts[j] % 2 == 0 && marker_at(
                d,
                starts[j] + 128,
            ),
        forall|i: int| opens_part(d, i) ==> exists|j: int| 0 <= j < starts.len() && i == starts[j] + 128,
    ensures
        0 <= c <= starts.len(),
        boundaries_before(d, n) == starts.take(c),
        forall|j: int| 0 <= j < c ==> #[trigger] starts[j] + 128 < n,
        forall|j: int| c <= j < starts.len() ==> #[trigger] starts[j] + 128 >= n,
    decreases n,
{
    if n <= 0 {
        assert(starts.take(0) =~= Seq::<int>::empty());
        0
    } else {
        let c = lemma_boundaries_prefix(d, starts, n - 1);
        if opens_part(d, n - 1) {
            let j = choose|j: int| 0 <= j < starts.len() && n - 1 == starts[j] + 128;
            assert(j == c) by {
                if j < c {
                    assert(starts[j] + 128 < n - 1);
                } else if j > c {
                    assert(starts[c] < starts[j]);
                    assert(starts[c] + 128 >= n - 1);
                }
            }
            assert(starts.take(c + 1) =~= starts.take(c).push(starts[c]));
            assert forall|k: int| c + 1 <= k < starts.len() implies #[trigger] starts[k] + 128 >= n by {
                assert(starts[c] < starts[k]);
            }
            c + 1
        } else {
            assert forall|k: int| c <= k < starts.len() implies #[trigger] starts[k] + 128 >= n by {
                if starts[k] + 128 == n - 1 {
                    assert(opens_part(d, n - 1));
                }
            }
            c
        }
    }
}

/// A buffer made of DICOM streams laid end to end, each starting at an even
/// offset with its `DICM` marker one preamble in, and with no other marker
/// that opens a part, has exactly the starts of those streams as its part
/// boundaries.
pub proof fn lemma_concatenated_streams(d: Seq<u8>, starts: Seq<int>)
    requires
        forall|j: int, k: int| 0 <= j < k < starts.len() ==> starts[j] < starts[k],
        forall|j: int|
            0 <= j < starts.len() ==> #[trigger] starts[j] >= 0 && starts[j] % 2 == 0 && marker_at(
                d,
                starts[j] + 128,
            ),
        forall|i: int| opens_part(d, i) ==> exists|j: int| 0 <= j < starts.len() && i == starts[j] + 128,
    ensures
        part_boundaries(d) == starts,
{
    let c = lemma_boundaries_prefix(d, starts, d.len() as int);
    if c < starts.len() {
        assert(marker_at(d, starts[c] + 128));
    }
    assert(starts.take(starts.len() as int) =~= starts);
}

/// Scans `data` for `DICM` markers that open embedded parts and returns the
/// part boundaries, one preamble before each such marker, ascending.
pub fn find_part_boundaries(data: &[u8]) -> (r: Vec<usize>)
    ensures
        usize_seq(r@) == part_boundaries(data@),
{
    let mut r: Vec<usize> = Vec::new();
    let mut i: usize = 0;
    while i < data.len()
        invariant
            i <= data@.len(),
            usize_seq(r@) =~= boundaries_before(data@, i as int),
        decreases data@.len() - i,
    {
        let ghost prev = r@;
        if i >= PREAMBLE_LEN && i % 2 == 0 && data.len() - i >= 4 && data[i] == 0x44u8
            && data[i + 1] == 0x49u8 && data[i + 2] == 0x43u8 && data[i + 3] == 0x4du8 {
            r.push(i - PREAMBLE_LEN);
            assert(usize_seq(r@) =~= usize_seq(prev).push(i - 128));
        }
        i = i + 1;
    }
    r
}

/// Splits `data` into its embedded parts: each runs from its boundary to
/// the next boundary, the last to the end of `data`.
pub fn part_ranges(data: &[u8]) -> (r: Vec<(usize, usize)>)
    ensures
        range_seq(r@) == part_ranges_of(data@),
        forall|k: int| 0 <= k < r@.len() ==> #[trigger] r@[k].0 < r@[k].1 <= data@.len(),
{
    let bs = find_part_boundaries(data);
    proof {
        lemma_boundaries_in_bounds(data@, data@.len() as int);
    }
    let ghost bsv = usize_seq(bs@);
    let mut r: Vec<(usize, usize)> = Vec::new();
    let mut k: usize = 0;
    while k < bs.len()
        invariant
            k <= bs@.len(),
            bsv == part_boundaries(data@),
            bsv == usize_seq(bs@),
            forall|j: int| 0 <= j < bsv.len() ==> #[trigger] bsv[j] + 132 <= data@.len(),
            range_seq(r@) =~= ranges_upto(bsv, data@.len() as int, k as int),
            forall|j: int| 0 <= j < r@.len() ==> #[trigger] r@[j].0 < r@[j].1 <= data@.len(),
        decreases bs@.len() - k,
    {
        let start = bs[k];
        let end = if k + 1 < bs.len() {
            bs[k + 1]
        } else {
            data.len()
        };
        assert(bsv[k as int] == start as int);
        if k + 1 < bs.len() {
            assert(bsv[k + 1] == bs@[k + 1] as int);
        }
        assert(end as int == part_end(bsv, k as int, data@.len() as int));
        let ghost prev = r@;
        if end > start {
            r.push((start, end));
            assert(range_seq(r@) =~= range_seq(prev).push((start as int, end as int)));
            assert forall|j: int| 0 <= j < r@.len() implies #[trigger] r@[j].0 < r@[j].1
                <= data@.len() by {
                if j < prev.len() {
                    assert(r@[j] == prev[j]);
                }
            }
        }
        k = k + 1;
    }
    r
}

} // verus!
