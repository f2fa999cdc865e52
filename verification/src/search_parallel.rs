//! Chunked parallel search for exact and mask patterns on large inputs:
//! the haystack is split into fixed-size chunks with lookahead overlap,
//! each chunk is searched independently, and the partial results are
//! merged, deduplicated and re-filtered to match the sequential scan.

use crate::errors::BinfiddleError;
use rayon::iter::{IndexedParallelIterator, IntoParallelRefIterator, ParallelIterator};
use crate::search::{
    spec_mask_matches_at, spec_models, spec_occurs_at, SearchCommand, SearchConfig, SearchMatch,
    SearchPattern,
};
use vstd::prelude::*;
use vstd::slice::{slice_subrange, slice_to_vec};

verus! {

/// Minimum input size (in bytes) for chunked parallel search; below it the
/// sequential scan is typically faster.
pub const PARALLEL_THRESHOLD: usize = 1024 * 1024;

/// The chunk size the parallel search splits the haystack into.
pub const PARALLEL_CHUNK_SIZE: usize = 256 * 1024;

/// How many chunks a haystack of `len` bytes yields at chunk size `cs`.
pub open spec fn spec_num_chunks(len: int, cs: int) -> int
    recommends
        cs >= 1,
{
    (len + cs - 1) / cs
}

/// The matches one chunk reports under the exact scan: every occurrence
/// whose window lies inside the chunk, found scanning from `cur`, kept
/// when it starts in the chunk's primary region or the chunk reaches the
/// haystack's end. The chunk scan always advances by one so that no
/// occurrence is missed; overlap suppression happens once, globally,
/// after the merge.
pub open spec fn spec_exact_chunk(
    h: Seq<u8>,
    n: Seq<u8>,
    cur: int,
    chunk_end: int,
    primary_end: int,
) -> Seq<(int, Seq<u8>)>
    recommends
        n.len() >= 1,
    decreases chunk_end - cur,
{
    if cur < 0 || n.len() < 1 || cur + n.len() > chunk_end || chunk_end > h.len() {
        Seq::empty()
    } else if spec_occurs_at(h, n, cur) {
        (if cur < primary_end || chunk_end == h.len() {
            seq![(cur, n)]
        } else {
            Seq::empty()
        }) + spec_exact_chunk(h, n, cur + 1, chunk_end, primary_end)
    } else {
        spec_exact_chunk(h, n, cur + 1, chunk_end, primary_end)
    }
}

/// The matches one chunk reports under the mask scan, with the same
/// keep rule and advancement as the exact chunk scan.
pub open spec fn spec_mask_chunk(
    h: Seq<u8>,
    m: Seq<Option<u8>>,
    cur: int,
    chunk_end: int,
    primary_end: int,
) -> Seq<(int, Seq<u8>)>
    recommends
        m.len() >= 1,
    decreases chunk_end - cur,
{
    if cur < 0 || m.len() < 1 || cur + m.len() > chunk_end || chunk_end > h.len() {
        Seq::empty()
    } else if spec_mask_matches_at(h, m, cur) {
        (if cur < primary_end || chunk_end == h.len() {
            seq![(cur, h.subrange(cur, cur + m.len() as int))]
        } else {
            Seq::empty()
        }) + spec_mask_chunk(h, m, cur + 1, chunk_end, primary_end)
    } else {
        spec_mask_chunk(h, m, cur + 1, chunk_end, primary_end)
    }
}

/// The chunk layout: chunk `k` starts at `k·cs`, extends `ov` bytes of
/// lookahead past its primary region, and both ends clamp at the
/// haystack's length.
pub open spec fn spec_chunk_start(k: int, cs: int) -> int {
    k * cs
}

/// The exclusive end of chunk `k`, lookahead included.
pub open spec fn spec_chunk_end(k: int, cs: int, ov: int, len: int) -> int {
    vstd::math::min(k * cs + cs + ov, len)
}

/// The exclusive end of chunk `k`'s primary region.
pub open spec fn spec_chunk_primary_end(k: int, cs: int, len: int) -> int {
    vstd::math::min(k * cs + cs, len)
}

/// Builds the chunk table: one `(start, end, primary_end)` triple per
/// chunk.
fn build_chunks(len: usize, cs: usize, ov: usize) -> (r: Vec<(usize, usize, usize)>)
    requires
        cs >= 1,
    ensures
        r@.len() == spec_num_chunks(len as int, cs as int),
        forall|k: int|
            0 <= k < r@.len() ==> (#[trigger] r@[k]).0 == spec_chunk_start(k, cs as int)
                && r@[k].1 == spec_chunk_end(k, cs as int, ov as int, len as int) && r@[k].2
                == spec_chunk_primary_end(k, cs as int, len as int),
        forall|k: int| 0 <= k < r@.len() ==> (#[trigger] r@[k]).0 <= r@[k].1 <= len && r@[k].2
            <= len,
{
    let mut r: Vec<(usize, usize, usize)> = Vec::new();
    let mut start: usize = 0;
    proof {
        assert(r@.len() * cs == 0) by (nonlinear_arith)
            requires
                r@.len() == 0,
        ;
        assert(((cs as int) - 1) / (cs as int) == 0) by (nonlinear_arith)
            requires
                cs >= 1,
        ;
        if len > 0 {
            assert(0 < spec_num_chunks(len as int, cs as int)) by (nonlinear_arith)
                requires
                    cs >= 1,
                    len > 0,
                    spec_num_chunks(len as int, cs as int) == ((len as int) + cs - 1) / (cs as int),
            ;
        }
    }
    while start < len
        invariant
            cs >= 1,
            r@.len() * cs == start,
            r@.len() == (start + cs - 1) / (cs as int),
            start <= len || r@.len() == spec_num_chunks(len as int, cs as int),
            start < len ==> r@.len() < spec_num_chunks(len as int, cs as int),
            forall|k: int|
                0 <= k < r@.len() ==> (#[trigger] r@[k]).0 == spec_chunk_start(k, cs as int)
                    && r@[k].1 == spec_chunk_end(k, cs as int, ov as int, len as int) && r@[k].2
                    == spec_chunk_primary_end(k, cs as int, len as int),
            forall|k: int| 0 <= k < r@.len() ==> (#[trigger] r@[k]).0 <= r@[k].1 <= len && r@[k].2
                <= len,
        decreases len - start,
    {
        let reach = start.saturating_add(cs);
        let primary_end = if reach < len {
            reach
        } else {
            len
        };
        let reach2 = reach.saturating_add(ov);
        let end = if reach2 < len {
            reach2
        } else {
            len
        };
        let ghost old_count = r@.len() as int;
        r.push((start, end, primary_end));
        proof {
            assert(old_count * cs + cs == (old_count + 1) * cs) by (nonlinear_arith);
            assert(r@[old_count].0 == spec_chunk_start(old_count, cs as int));
            assert(r@[old_count].1 == spec_chunk_end(old_count, cs as int, ov as int, len as int));
            assert(r@[old_count].2 == spec_chunk_primary_end(old_count, cs as int, len as int));
        }
        if len - start <= cs {
            // This was the final chunk.
            proof {
                assert(r@.len() == (len + cs - 1) / (cs as int)) by (nonlinear_arith)
                    requires
                        cs >= 1,
                        r@.len() * cs == start + cs,
                        start < len,
                        len - start <= cs,
                ;
            }
            return r;
        }
        start = start + cs;
        proof {
            assert(r@.len() == (start + cs - 1) / (cs as int)) by (nonlinear_arith)
                requires
                    cs >= 1,
                    r@.len() * cs == start,
            ;
            assert(r@.len() < spec_num_chunks(len as int, cs as int)) by (nonlinear_arith)
                requires
                    cs >= 1,
                    r@.len() * cs == start,
                    start < len,
                    spec_num_chunks(len as int, cs as int) == (len + cs - 1) / (cs as int),
            ;
        }
    }
    proof {
        if len == 0 {
            assert(spec_num_chunks(0, cs as int) == (cs - 1) / (cs as int));
            assert((cs - 1) / (cs as int) == 0) by (nonlinear_arith)
                requires
                    cs >= 1,
            ;
        }
    }
    r
}

impl SearchCommand {
    /// Searches one chunk for exact matches, keeping those that start in
    /// the primary region or belong to the final chunk.
    pub(crate) fn search_exact_chunk(
        &self,
        haystack: &[u8],
        chunk_start: usize,
        chunk_end: usize,
        primary_end: usize,
        needle: &[u8],
    ) -> (r: Vec<SearchMatch>)
        requires
            chunk_start <= chunk_end <= haystack@.len(),
            needle@.len() >= 1,
        ensures
            spec_models(r@) == spec_exact_chunk(
                haystack@,
                needle@,
                chunk_start as int,
                chunk_end as int,
                primary_end as int,
            ),
    {
        let ghost h = haystack@;
        let ghost n = needle@;
        let total_len = haystack.len();
        let mut matches: Vec<SearchMatch> = Vec::new();
        let mut cur: usize = chunk_start;
        let mut done = false;
        while !done && cur < chunk_end
            invariant
                needle@.len() >= 1,
                chunk_start <= chunk_end <= haystack@.len(),
                total_len == haystack@.len(),
                cur <= haystack@.len(),
                h == haystack@,
                n == needle@,
                !done ==> spec_models(matches@) + spec_exact_chunk(
                    h,
                    n,
                    cur as int,
                    chunk_end as int,
                    primary_end as int,
                ) == spec_exact_chunk(
                    h,
                    n,
                    chunk_start as int,
                    chunk_end as int,
                    primary_end as int,
                ),
                done ==> spec_models(matches@) == spec_exact_chunk(
                    h,
                    n,
                    chunk_start as int,
                    chunk_end as int,
                    primary_end as int,
                ),
            decreases
                    (if done {
                        0int
                    } else {
                        1int
                    }),
                    chunk_end - cur,
        {
            if needle.len() > chunk_end - cur {
                done = true;
            } else {
                match crate::search::find_from(haystack, cur, needle) {
                    Some(o) => {
                        if o + needle.len() > chunk_end {
                            proof {
                                lemma_exact_chunk_none(
                                    h,
                                    n,
                                    cur as int,
                                    chunk_end as int,
                                    primary_end as int,
                                    o as int,
                                );
                            }
                            done = true;
                        } else {
                            proof {
                                lemma_exact_chunk_skip(
                                    h,
                                    n,
                                    cur as int,
                                    o as int,
                                    chunk_end as int,
                                    primary_end as int,
                                );
                            }
                            if o < primary_end || chunk_end == total_len {
                                let data = slice_to_vec(needle);
                                matches.push(SearchMatch { offset: o, data });
                                proof {
                                    assert(spec_models(matches@) =~= spec_models(
                                        matches@.drop_last(),
                                    ) + seq![(o as int, n)]);
                                }
                            }
                            cur = o + 1;
                        }
                    },
                    None => {
                        proof {
                            lemma_exact_chunk_none(
                                h,
                                n,
                                cur as int,
                                chunk_end as int,
                                primary_end as int,
                                h.len() as int + 1,
                            );
                        }
                        done = true;
                    },
                }
            }
        }
        matches
    }

    /// Searches one chunk for mask matches, with the same keep rule as the
    /// exact chunk scan.
    pub(crate) fn search_mask_chunk(
        &self,
        haystack: &[u8],
        chunk_start: usize,
        chunk_end: usize,
        primary_end: usize,
        mask: &[Option<u8>],
    ) -> (r: Vec<SearchMatch>)
        requires
            chunk_start <= chunk_end <= haystack@.len(),
            mask@.len() >= 1,
        ensures
            spec_models(r@) == spec_mask_chunk(
                haystack@,
                mask@,
                chunk_start as int,
                chunk_end as int,
                primary_end as int,
            ),
    {
        let ghost h = haystack@;
        let ghost m = mask@;
        let total_len = haystack.len();
        let mask_len = mask.len();
        let mut matches: Vec<SearchMatch> = Vec::new();
        let mut cur: usize = chunk_start;
        while cur < chunk_end && chunk_end - cur >= mask_len
            invariant
                mask@.len() >= 1,
                mask_len == mask@.len(),
                chunk_start <= chunk_end <= haystack@.len(),
                total_len == haystack@.len(),
                cur <= haystack@.len(),
                h == haystack@,
                m == mask@,
                spec_models(matches@) + spec_mask_chunk(
                    h,
                    m,
                    cur as int,
                    chunk_end as int,
                    primary_end as int,
                ) == spec_mask_chunk(
                    h,
                    m,
                    chunk_start as int,
                    chunk_end as int,
                    primary_end as int,
                ),
            decreases chunk_end - cur,
        {
            let window = slice_subrange(haystack, cur, cur + mask_len);
            if self.matches_mask(window, mask) {
                assert(spec_mask_matches_at(h, m, cur as int)) by {
                    assert(forall|j: int|
                        0 <= j < m.len() ==> h[cur + j] == window@[j] && (#[trigger] m[j] matches
                            Some(b) ==> window@[j] == b));
                }
                if cur < primary_end || chunk_end == total_len {
                    let data = slice_to_vec(window);
                    matches.push(SearchMatch { offset: cur, data });
                    proof {
                        assert(spec_models(matches@) =~= spec_models(matches@.drop_last()) + seq![
                            (cur as int, h.subrange(cur as int, cur + m.len())),
                        ]);
                    }
                }
                cur = cur + 1;
            } else {
                assert(!spec_mask_matches_at(h, m, cur as int)) by {
                    if spec_mask_matches_at(h, m, cur as int) {
                        assert(forall|j: int|
                            0 <= j < m.len() ==> window@[j] == h[cur + j] && (#[trigger] m[j]
                                matches Some(b) ==> window@[j] == b));
                    }
                }
                cur = cur + 1;
            }
        }
        matches
    }
}

/// Skipping positions with no occurrence leaves a chunk scan's result
/// unchanged.
proof fn lemma_exact_chunk_skip(
    h: Seq<u8>,
    n: Seq<u8>,
    from: int,
    to: int,
    chunk_end: int,
    primary_end: int,
)
    requires
        n.len() >= 1,
        0 <= from <= to,
        forall|j: int| from <= j < to ==> !spec_occurs_at(h, n, j),
    ensures
        spec_exact_chunk(h, n, from, chunk_end, primary_end) == spec_exact_chunk(
            h,
            n,
            to,
            chunk_end,
            primary_end,
        ),
    decreases to - from,
{
    if from < to {
        if from + n.len() > chunk_end || chunk_end > h.len() {
            assert(spec_exact_chunk(h, n, from, chunk_end, primary_end) =~= Seq::<(
                int,
                Seq<u8>,
            )>::empty());
            assert(spec_exact_chunk(h, n, to, chunk_end, primary_end) =~= Seq::<(
                int,
                Seq<u8>,
            )>::empty());
        } else {
            lemma_exact_chunk_skip(h, n, from + 1, to, chunk_end, primary_end);
        }
    }
}

/// When every position from `from` up to the first occurrence `o` fails,
/// and `o`'s window leaves the chunk, the chunk scan from `from` yields
/// nothing.
proof fn lemma_exact_chunk_none(
    h: Seq<u8>,
    n: Seq<u8>,
    from: int,
    chunk_end: int,
    primary_end: int,
    o: int,
)
    requires
        n.len() >= 1,
        from >= 0,
        o + n.len() > chunk_end,
        forall|j: int| from <= j < o ==> !spec_occurs_at(h, n, j),
    ensures
        spec_exact_chunk(h, n, from, chunk_end, primary_end).len() == 0,
    decreases chunk_end - from,
{
    if !(from + n.len() > chunk_end || chunk_end > h.len()) {
        assert(from < o);
        lemma_exact_chunk_none(h, n, from + 1, chunk_end, primary_end, o);
    }
}

/// Whether some match in the list starts at offset `o`.
pub open spec fn spec_has_offset_m(s: Seq<SearchMatch>, o: int) -> bool {
    exists|k: int| 0 <= k < s.len() && (#[trigger] s[k]).offset == o
}

/// Whether some model pair in the list starts at offset `o`.
pub open spec fn spec_has_offset_p(s: Seq<(int, Seq<u8>)>, o: int) -> bool {
    exists|k: int| 0 <= k < s.len() && (#[trigger] s[k]).0 == o
}

/// The concatenation of the per-chunk match lists, in chunk order.
pub open spec fn spec_concat_models(vv: Seq<Vec<SearchMatch>>, upto: int) -> Seq<(int, Seq<u8>)>
    decreases upto,
{
    if upto <= 0 {
        Seq::empty()
    } else {
        spec_concat_models(vv, upto - 1) + spec_models(vv[upto - 1]@)
    }
}

/// The greedy left-to-right overlap filter: a match is kept only when it
/// starts at or after the end of the previously kept match.
pub open spec fn spec_overlap_filter(s: Seq<(int, Seq<u8>)>, idx: int, last_end: int) -> Seq<
    (int, Seq<u8>),
>
    decreases s.len() - idx,
{
    if idx < 0 || idx >= s.len() {
        Seq::empty()
    } else {
        if s[idx].0 >= last_end {
            seq![s[idx]] + spec_overlap_filter(s, idx + 1, s[idx].0 + s[idx].1.len() as int)
        } else {
            spec_overlap_filter(s, idx + 1, last_end)
        }
    }
}

/// Flattens the per-chunk match lists into one list, in chunk order.
fn flatten_matches(vv: Vec<Vec<SearchMatch>>) -> (r: Vec<SearchMatch>)
    ensures
        spec_models(r@) == spec_concat_models(vv@, vv@.len() as int),
{
    let ghost gvv = vv@;
    let mut vv = vv;
    let mut r: Vec<SearchMatch> = Vec::new();
    let mut i: usize = 0;
    let n = vv.len();
    while i < n
        invariant
            i <= n,
            n == gvv.len(),
            vv@ =~= gvv.subrange(i as int, n as int),
            spec_models(r@) == spec_concat_models(gvv, i as int),
        decreases n - i,
    {
        let mut part = vv.remove(0);
        proof {
            assert(part@ == gvv[i as int]@);
        }
        let ghost r_before = r@;
        r.append(&mut part);
        proof {
            assert(spec_models(r@) =~= spec_models(r_before) + spec_models(gvv[i as int]@));
            assert(vv@ =~= gvv.subrange(i + 1, n as int));
        }
        i = i + 1;
    }
    r
}

/// In a list sorted by non-decreasing offset, earlier offsets are no
/// larger than later ones.
proof fn lemma_sorted_chain(s: Seq<SearchMatch>, a: int, b: int)
    requires
        forall|i: int| 0 <= i < s.len() - 1 ==> (#[trigger] s[i]).offset <= s[i + 1].offset,
        0 <= a <= b < s.len(),
    ensures
        s[a].offset <= s[b].offset,
    decreases b - a,
{
    if a < b {
        lemma_sorted_chain(s, a, b - 1);
    }
}

/// Sorts matches by offset, keeping every per-match property and the set
/// of offsets.
fn sort_matches(v: Vec<SearchMatch>, Ghost(pred): Ghost<spec_fn(int, Seq<u8>) -> bool>) -> (r: Vec<
    SearchMatch,
>)
    requires
        forall|i: int| 0 <= i < v@.len() ==> pred((#[trigger] v@[i]).offset as int, v@[i].data@),
    ensures
        forall|i: int| 0 <= i < r@.len() ==> pred((#[trigger] r@[i]).offset as int, r@[i].data@),
        forall|i: int| 0 <= i < r@.len() - 1 ==> (#[trigger] r@[i]).offset <= r@[i + 1].offset,
        forall|o: int| spec_has_offset_m(r@, o) <==> spec_has_offset_m(v@, o),
{
    let ghost gv = v@;
    let mut r: Vec<SearchMatch> = Vec::new();
    let n = v.len();
    let mut i: usize = 0;
    while i < n
        invariant
            i <= n,
            n == gv.len(),
            v@ == gv,
            forall|k: int| 0 <= k < gv.len() ==> pred((#[trigger] gv[k]).offset as int, gv[k].data@),
            forall|k: int| 0 <= k < r@.len() ==> pred((#[trigger] r@[k]).offset as int, r@[k].data@),
            forall|k: int| 0 <= k < r@.len() - 1 ==> (#[trigger] r@[k]).offset <= r@[k + 1].offset,
            forall|o: int|
                spec_has_offset_m(r@, o) <==> spec_has_offset_m(gv.subrange(0, i as int), o),
        decreases n - i,
    {
        let src = &v[i];
        let m = SearchMatch { offset: src.offset, data: slice_to_vec(src.data.as_slice()) };
        proof {
            assert(m.offset == gv[i as int].offset && m.data@ == gv[i as int].data@);
            assert(pred(m.offset as int, m.data@));
        }
        // Scan backwards for the insertion position: for nearly sorted
        // input this stays near the end.
        let mut j: usize = r.len();
        while j > 0 && r[j - 1].offset > m.offset
            invariant
                j <= r@.len(),
                forall|k: int| j <= k < r@.len() ==> (#[trigger] r@[k]).offset >= m.offset,
            decreases j,
        {
            j = j - 1;
            assert(r@[j as int].offset >= m.offset);
        }
        proof {
            if j > 0 {
                assert forall|k: int| 0 <= k < j implies (#[trigger] r@[k]).offset
                    <= m.offset by {
                    lemma_sorted_chain(r@, k, j - 1);
                }
            }
        }
        let ghost r_before = r@;
        r.insert(j, m);
        proof {
            assert(r@ =~= r_before.subrange(0, j as int) + seq![m] + r_before.subrange(
                j as int,
                r_before.len() as int,
            ));
            assert forall|o: int|
                spec_has_offset_m(r@, o) <==> (spec_has_offset_m(r_before, o) || m.offset
                    == o) by {
                if spec_has_offset_m(r_before, o) {
                    let k = choose|k: int|
                        0 <= k < r_before.len() && (#[trigger] r_before[k]).offset == o;
                    if k < j {
                        assert(r@[k].offset == o);
                    } else {
                        assert(r@[k + 1].offset == o);
                    }
                }
                if m.offset == o {
                    assert(r@[j as int].offset == o);
                }
                if spec_has_offset_m(r@, o) {
                    let k = choose|k: int| 0 <= k < r@.len() && (#[trigger] r@[k]).offset == o;
                    if k < j {
                        assert(r_before[k].offset == o);
                    } else if k > j {
                        assert(r_before[k - 1].offset == o);
                    }
                }
            }
            assert(gv.subrange(0, i + 1) =~= gv.subrange(0, i as int) + seq![gv[i as int]]);
            assert forall|o: int|
                spec_has_offset_m(gv.subrange(0, i + 1), o) <==> (spec_has_offset_m(
                    gv.subrange(0, i as int),
                    o,
                ) || gv[i as int].offset == o) by {
                let pre = gv.subrange(0, i as int);
                let cur = gv.subrange(0, i + 1);
                if spec_has_offset_m(pre, o) {
                    let k = choose|k: int| 0 <= k < pre.len() && (#[trigger] pre[k]).offset == o;
                    assert(cur[k].offset == o);
                }
                if gv[i as int].offset == o {
                    assert(cur[i as int].offset == o);
                }
                if spec_has_offset_m(cur, o) {
                    let k = choose|k: int| 0 <= k < cur.len() && (#[trigger] cur[k]).offset == o;
                    if k < i {
                        assert(pre[k].offset == o);
                    }
                }
            }
            assert forall|o: int|
                spec_has_offset_m(r@, o) <==> spec_has_offset_m(gv.subrange(0, i + 1), o) by {
                assert(spec_has_offset_m(r@, o) <==> (spec_has_offset_m(r_before, o) || m.offset
                    == o));
                assert(spec_has_offset_m(r_before, o) <==> spec_has_offset_m(
                    gv.subrange(0, i as int),
                    o,
                ));
                assert(spec_has_offset_m(gv.subrange(0, i + 1), o) <==> (spec_has_offset_m(
                    gv.subrange(0, i as int),
                    o,
                ) || gv[i as int].offset == o));
            }
        }
        i = i + 1;
    }
    proof {
        assert(gv.subrange(0, n as int) =~= gv);
    }
    r
}

/// Drops every match whose offset already appeared, keeping the first of
/// each run of equal offsets in a sorted list.
fn dedup_matches(v: Vec<SearchMatch>, Ghost(pred): Ghost<spec_fn(int, Seq<u8>) -> bool>) -> (r: Vec<
    SearchMatch,
>)
    requires
        forall|i: int| 0 <= i < v@.len() ==> pred((#[trigger] v@[i]).offset as int, v@[i].data@),
        forall|i: int| 0 <= i < v@.len() - 1 ==> (#[trigger] v@[i]).offset <= v@[i + 1].offset,
    ensures
        forall|i: int| 0 <= i < r@.len() ==> pred((#[trigger] r@[i]).offset as int, r@[i].data@),
        forall|i: int| 0 <= i < r@.len() - 1 ==> (#[trigger] r@[i]).offset < r@[i + 1].offset,
        forall|o: int| spec_has_offset_m(r@, o) <==> spec_has_offset_m(v@, o),
{
    let ghost gv = v@;
    let mut r: Vec<SearchMatch> = Vec::new();
    let n = v.len();
    let mut i: usize = 0;
    while i < n
        invariant
            i <= n,
            n == gv.len(),
            v@ == gv,
            forall|k: int| 0 <= k < gv.len() ==> pred((#[trigger] gv[k]).offset as int, gv[k].data@),
            forall|k: int| 0 <= k < gv.len() - 1 ==> (#[trigger] gv[k]).offset <= gv[k + 1].offset,
            forall|k: int| 0 <= k < r@.len() ==> pred((#[trigger] r@[k]).offset as int, r@[k].data@),
            forall|k: int| 0 <= k < r@.len() - 1 ==> (#[trigger] r@[k]).offset < r@[k + 1].offset,
            forall|o: int|
                spec_has_offset_m(r@, o) <==> spec_has_offset_m(gv.subrange(0, i as int), o),
            r@.len() > 0 && i < n ==> r@.last().offset <= gv[i as int].offset,
            i > 0 && r@.len() > 0 ==> r@.last().offset <= gv[i - 1].offset,
            i > 0 ==> r@.len() > 0,
        decreases n - i,
    {
        let src = &v[i];
        let m = SearchMatch { offset: src.offset, data: slice_to_vec(src.data.as_slice()) };
        proof {
            assert(m.offset == gv[i as int].offset && m.data@ == gv[i as int].data@);
            assert(pred(m.offset as int, m.data@));
            assert(gv.subrange(0, i + 1) =~= gv.subrange(0, i as int) + seq![gv[i as int]]);
        }
        let ghost r_before = r@;
        let keep = if r.len() == 0 {
            true
        } else {
            let last = r[r.len() - 1].offset;
            last != m.offset
        };
        if keep {
            r.push(m);
        }
        proof {
            let pre = gv.subrange(0, i as int);
            let cur = gv.subrange(0, i + 1);
            assert forall|o: int|
                spec_has_offset_m(cur, o) <==> (spec_has_offset_m(pre, o) || gv[i as int].offset
                    == o) by {
                if spec_has_offset_m(pre, o) {
                    let k = choose|k: int| 0 <= k < pre.len() && (#[trigger] pre[k]).offset == o;
                    assert(cur[k].offset == o);
                }
                if gv[i as int].offset == o {
                    assert(cur[i as int].offset == o);
                }
                if spec_has_offset_m(cur, o) {
                    let k = choose|k: int| 0 <= k < cur.len() && (#[trigger] cur[k]).offset == o;
                    if k < i {
                        assert(pre[k].offset == o);
                    }
                }
            }
            assert forall|o: int|
                spec_has_offset_m(r@, o) <==> spec_has_offset_m(cur, o) by {
                if keep {
                    assert(r@ == r_before.push(m));
                    if spec_has_offset_m(r_before, o) {
                        let k = choose|k: int|
                            0 <= k < r_before.len() && (#[trigger] r_before[k]).offset == o;
                        assert(r@[k].offset == o);
                    }
                    if m.offset == o {
                        assert(r@[r@.len() - 1].offset == o);
                    }
                    if spec_has_offset_m(r@, o) {
                        let k = choose|k: int| 0 <= k < r@.len() && (#[trigger] r@[k]).offset == o;
                        if k < r@.len() - 1 {
                            assert(r_before[k].offset == o);
                        }
                    }
                } else {
                    assert(r@ == r_before);
                    assert(r@.len() > 0 && r@.last().offset == m.offset);
                    if m.offset == o {
                        assert(r@[r@.len() - 1].offset == o);
                    }
                }
                assert(spec_has_offset_m(r_before, o) <==> spec_has_offset_m(pre, o));
            }
        }
        i = i + 1;
    }
    proof {
        assert(gv.subrange(0, n as int) =~= gv);
    }
    r
}

/// Applies the greedy overlap filter to a match list.
fn overlap_filter_matches(v: Vec<SearchMatch>) -> (r: Vec<SearchMatch>)
    requires
        forall|i: int|
            0 <= i < v@.len() ==> (#[trigger] v@[i]).offset + v@[i].data@.len() <= usize::MAX,
    ensures
        spec_models(r@) == spec_overlap_filter(spec_models(v@), 0, 0),
{
    let ghost s = spec_models(v@);
    let mut r: Vec<SearchMatch> = Vec::new();
    let mut last_end: usize = 0;
    let mut idx: usize = 0;
    let n = v.len();
    while idx < n
        invariant
            idx <= n,
            n == v@.len(),
            s == spec_models(v@),
            forall|i: int|
                0 <= i < v@.len() ==> (#[trigger] v@[i]).offset + v@[i].data@.len() <= usize::MAX,
            spec_models(r@) + spec_overlap_filter(s, idx as int, last_end as int)
                == spec_overlap_filter(s, 0, 0),
        decreases n - idx,
    {
        let m = &v[idx];
        if m.offset >= last_end {
            last_end = m.offset + m.data.len();
            let data = slice_to_vec(m.data.as_slice());
            let kept = SearchMatch { offset: m.offset, data };
            r.push(kept);
            proof {
                assert(spec_models(r@) =~= spec_models(r@.drop_last()) + seq![s[idx as int]]);
            }
        }
        idx = idx + 1;
    }
    proof {
        assert(spec_models(r@) =~= spec_overlap_filter(s, 0, 0));
    }
    r
}

/// Relies on rayon's `par_iter().map(..).collect()`: an indexed parallel
/// map collects its results in the input's order, one output per input
/// chunk. Each output is what the verified per-chunk exact scan returns
/// for that chunk.
#[verifier::external_body]
fn par_exact_chunks(
    cmd: &SearchCommand,
    haystack: &[u8],
    chunks: &Vec<(usize, usize, usize)>,
    needle: &[u8],
) -> (r: Vec<Vec<SearchMatch>>)
    requires
        needle@.len() >= 1,
        forall|k: int|
            0 <= k < chunks@.len() ==> (#[trigger] chunks@[k]).0 <= chunks@[k].1
                <= haystack@.len(),
    ensures
        r@.len() == chunks@.len(),
        forall|k: int|
            0 <= k < chunks@.len() ==> spec_models((#[trigger] r@[k])@) == spec_exact_chunk(
                haystack@,
                needle@,
                chunks@[k].0 as int,
                chunks@[k].1 as int,
                chunks@[k].2 as int,
            ),
{
    chunks.par_iter().map(
        |c| cmd.search_exact_chunk(haystack, c.0, c.1, c.2, needle),
    ).collect()
}

/// Relies on rayon's `par_iter().map(..).collect()`, as the exact variant
/// does; each output is what the verified per-chunk mask scan returns.
#[verifier::external_body]
fn par_mask_chunks(
    cmd: &SearchCommand,
    haystack: &[u8],
    chunks: &Vec<(usize, usize, usize)>,
    mask: &[Option<u8>],
) -> (r: Vec<Vec<SearchMatch>>)
    requires
        mask@.len() >= 1,
        forall|k: int|
            0 <= k < chunks@.len() ==> (#[trigger] chunks@[k]).0 <= chunks@[k].1
                <= haystack@.len(),
    ensures
        r@.len() == chunks@.len(),
        forall|k: int|
            0 <= k < chunks@.len() ==> spec_models((#[trigger] r@[k])@) == spec_mask_chunk(
                haystack@,
                mask@,
                chunks@[k].0 as int,
                chunks@[k].1 as int,
                chunks@[k].2 as int,
            ),
{
    chunks.par_iter().map(
        |c| cmd.search_mask_chunk(haystack, c.0, c.1, c.2, mask),
    ).collect()
}

/// Some chunk of the exact-pattern chunk decomposition reports a match at
/// offset `o`.
pub open spec fn spec_par_reported_exact(h: Seq<u8>, n: Seq<u8>, cs: int, ov: int, o: int) -> bool {
    exists|k: int|
        0 <= k < spec_num_chunks(h.len() as int, cs) && spec_has_offset_p(
            #[trigger] spec_exact_chunk(
                h,
                n,
                spec_chunk_start(k, cs),
                spec_chunk_end(k, cs, ov, h.len() as int),
                spec_chunk_primary_end(k, cs, h.len() as int),
            ),
            o,
        )
}

/// Some chunk of the mask-pattern chunk decomposition reports a match at
/// offset `o`.
pub open spec fn spec_par_reported_mask(
    h: Seq<u8>,
    m: Seq<Option<u8>>,
    cs: int,
    ov: int,
    o: int,
) -> bool {
    exists|k: int|
        0 <= k < spec_num_chunks(h.len() as int, cs) && spec_has_offset_p(
            #[trigger] spec_mask_chunk(
                h,
                m,
                spec_chunk_start(k, cs),
                spec_chunk_end(k, cs, ov, h.len() as int),
                spec_chunk_primary_end(k, cs, h.len() as int),
            ),
            o,
        )
}

/// The ascending enumeration of the offsets below `upto` satisfying
/// `reported`, each carrying the bytes `f` assigns to it.
pub open spec fn spec_asc_by(
    reported: spec_fn(int) -> bool,
    f: spec_fn(int) -> Seq<u8>,
    upto: int,
) -> Seq<(int, Seq<u8>)>
    decreases upto,
{
    if upto <= 0 {
        Seq::empty()
    } else {
        spec_asc_by(reported, f, upto - 1) + (if reported(upto - 1) {
            seq![(upto - 1, f(upto - 1))]
        } else {
            Seq::empty()
        })
    }
}

/// What the merged, deduplicated parallel exact search yields: the
/// ascending enumeration of the offsets some chunk reports, re-filtered
/// greedily when overlaps are suppressed.
pub open spec fn spec_par_exact_results(
    h: Seq<u8>,
    n: Seq<u8>,
    no_overlap: bool,
    cs: int,
    ov: int,
) -> Seq<(int, Seq<u8>)> {
    let asc = spec_asc_by(
        |o: int| spec_par_reported_exact(h, n, cs, ov, o),
        |o: int| n,
        h.len() as int,
    );
    if no_overlap {
        spec_overlap_filter(asc, 0, 0)
    } else {
        asc
    }
}

/// What the merged, deduplicated parallel mask search yields.
pub open spec fn spec_par_mask_results(
    h: Seq<u8>,
    m: Seq<Option<u8>>,
    no_overlap: bool,
    cs: int,
    ov: int,
) -> Seq<(int, Seq<u8>)> {
    let asc = spec_asc_by(
        |o: int| spec_par_reported_mask(h, m, cs, ov, o),
        |o: int| h.subrange(o, o + m.len() as int),
        h.len() as int,
    );
    if no_overlap {
        spec_overlap_filter(asc, 0, 0)
    } else {
        asc
    }
}

/// The ascending enumeration is strictly increasing, holds exactly the
/// reported offsets below `upto`, and carries `f`'s bytes.
proof fn lemma_asc_by(reported: spec_fn(int) -> bool, f: spec_fn(int) -> Seq<u8>, upto: int)
    ensures
        forall|i: int|
            0 <= i < spec_asc_by(reported, f, upto).len() ==> {
                let e = #[trigger] spec_asc_by(reported, f, upto)[i];
                0 <= e.0 < upto && reported(e.0) && e.1 == f(e.0)
            },
        forall|i: int|
            0 <= i < spec_asc_by(reported, f, upto).len() - 1 ==> (#[trigger] spec_asc_by(
                reported,
                f,
                upto,
            )[i]).0 < spec_asc_by(reported, f, upto)[i + 1].0,
        forall|o: int|
            spec_has_offset_p(spec_asc_by(reported, f, upto), o) <==> (0 <= o < upto && reported(
                o,
            )),
    decreases upto,
{
    if upto > 0 {
        lemma_asc_by(reported, f, upto - 1);
        let prev = spec_asc_by(reported, f, upto - 1);
        let cur = spec_asc_by(reported, f, upto);
        assert(forall|i: int| 0 <= i < prev.len() ==> #[trigger] cur[i] == prev[i]);
        if reported(upto - 1) {
            assert(cur[cur.len() - 1] == (upto - 1, f(upto - 1)));
        }
        assert forall|o: int|
            spec_has_offset_p(cur, o) <==> (0 <= o < upto && reported(o)) by {
            if spec_has_offset_p(cur, o) {
                let k = choose|k: int| 0 <= k < cur.len() && (#[trigger] cur[k]).0 == o;
                if k < prev.len() {
                    assert(prev[k].0 == o);
                    assert(spec_has_offset_p(prev, o));
                    assert(0 <= o < upto - 1 && reported(o));
                } else {
                    assert(cur[k] == (upto - 1, f(upto - 1)));
                }
            }
            if 0 <= o < upto && reported(o) {
                if o < upto - 1 {
                    assert(spec_has_offset_p(prev, o));
                    let k = choose|k: int| 0 <= k < prev.len() && (#[trigger] prev[k]).0 == o;
                    assert(cur[k].0 == o);
                    assert(spec_has_offset_p(cur, o));
                } else {
                    assert(cur[cur.len() - 1].0 == o);
                    assert(spec_has_offset_p(cur, o));
                }
            }
        }
    }
}

/// When nothing is reported, the ascending enumeration is empty.
proof fn lemma_asc_by_empty(reported: spec_fn(int) -> bool, f: spec_fn(int) -> Seq<u8>, upto: int)
    requires
        forall|o: int| !(#[trigger] reported(o)),
    ensures
        spec_asc_by(reported, f, upto).len() == 0,
    decreases upto,
{
    if upto > 0 {
        lemma_asc_by_empty(reported, f, upto - 1);
    }
}

/// Two strictly increasing match lists whose bytes are a function of the
/// offset and whose offset sets agree are the same list.
proof fn lemma_unique_ascending(s1: Seq<(int, Seq<u8>)>, s2: Seq<(int, Seq<u8>)>, f: spec_fn(
    int,
) -> Seq<u8>)
    requires
        forall|i: int| 0 <= i < s1.len() ==> (#[trigger] s1[i]).1 == f(s1[i].0),
        forall|i: int| 0 <= i < s2.len() ==> (#[trigger] s2[i]).1 == f(s2[i].0),
        forall|i: int| 0 <= i < s1.len() - 1 ==> (#[trigger] s1[i]).0 < s1[i + 1].0,
        forall|i: int| 0 <= i < s2.len() - 1 ==> (#[trigger] s2[i]).0 < s2[i + 1].0,
        forall|o: int| spec_has_offset_p(s1, o) <==> spec_has_offset_p(s2, o),
    ensures
        s1 =~= s2,
    decreases s1.len(),
{
    if s1.len() == 0 {
        if s2.len() > 0 {
            assert(spec_has_offset_p(s2, s2[0].0)) by {
                assert(s2[0].0 == s2[0].0);
            }
            assert(false);
        }
    } else {
        assert(spec_has_offset_p(s1, s1.last().0)) by {
            assert(s1[s1.len() - 1].0 == s1.last().0);
        }
        if s2.len() == 0 {
            assert(false);
        }
        // In a strictly increasing list the last offset is the largest.
        assert(forall|i: int| 0 <= i < s1.len() ==> (#[trigger] s1[i]).0 <= s1.last().0) by {
            lemma_strict_increasing_le_last(s1);
        }
        assert(forall|i: int| 0 <= i < s2.len() ==> (#[trigger] s2[i]).0 <= s2.last().0) by {
            lemma_strict_increasing_le_last(s2);
        }
        assert(spec_has_offset_p(s2, s2.last().0)) by {
            assert(s2[s2.len() - 1].0 == s2.last().0);
        }
        // Both lasts are the common maximum of the shared offset set.
        let m1 = s1.last().0;
        let m2 = s2.last().0;
        assert(spec_has_offset_p(s2, m1));
        let k2 = choose|k: int| 0 <= k < s2.len() && (#[trigger] s2[k]).0 == m1;
        assert(m1 <= m2);
        assert(spec_has_offset_p(s1, m2));
        let k1 = choose|k: int| 0 <= k < s1.len() && (#[trigger] s1[k]).0 == m2;
        assert(m2 <= m1);
        assert(s1.last() == s2.last());
        // Drop the last element from both and recurse.
        let t1 = s1.drop_last();
        let t2 = s2.drop_last();
        assert forall|o: int| spec_has_offset_p(t1, o) <==> spec_has_offset_p(t2, o) by {
            lemma_drop_last_membership(s1, o);
            lemma_drop_last_membership(s2, o);
        }
        lemma_unique_ascending(t1, t2, f);
        assert(s1 =~= t1 + seq![s1.last()]);
        assert(s2 =~= t2 + seq![s2.last()]);
    }
}

/// In a strictly increasing list no offset exceeds the last.
proof fn lemma_strict_increasing_le_last(s: Seq<(int, Seq<u8>)>)
    requires
        s.len() > 0,
        forall|i: int| 0 <= i < s.len() - 1 ==> (#[trigger] s[i]).0 < s[i + 1].0,
    ensures
        forall|i: int| 0 <= i < s.len() ==> (#[trigger] s[i]).0 <= s.last().0,
    decreases s.len(),
{
    if s.len() > 1 {
        let t = s.drop_last();
        lemma_strict_increasing_le_last(t);
        assert(forall|i: int| 0 <= i < t.len() ==> (#[trigger] t[i]).0 == s[i].0);
        assert(t.last().0 == s[s.len() - 2].0);
        assert(s[s.len() - 2].0 < s.last().0);
        assert forall|i: int| 0 <= i < s.len() implies (#[trigger] s[i]).0 <= s.last().0 by {
            if i < s.len() - 1 {
                assert(t[i].0 <= t.last().0);
            }
        }
    }
}

/// Membership in a strictly increasing list without its last element.
proof fn lemma_drop_last_membership(s: Seq<(int, Seq<u8>)>, o: int)
    requires
        s.len() > 0,
        forall|i: int| 0 <= i < s.len() - 1 ==> (#[trigger] s[i]).0 < s[i + 1].0,
    ensures
        spec_has_offset_p(s.drop_last(), o) <==> (spec_has_offset_p(s, o) && o != s.last().0),
{
    let t = s.drop_last();
    lemma_strict_increasing_le_last(s);
    if spec_has_offset_p(t, o) {
        let k = choose|k: int| 0 <= k < t.len() && (#[trigger] t[k]).0 == o;
        assert(s[k].0 == o);
        assert(s[k].0 < s[k + 1].0);
        assert(s[k + 1].0 <= s.last().0);
    }
    if spec_has_offset_p(s, o) && o != s.last().0 {
        let k = choose|k: int| 0 <= k < s.len() && (#[trigger] s[k]).0 == o;
        assert(k < s.len() - 1);
        assert(t[k].0 == o);
    }
}

/// Membership in the concatenation of the per-chunk lists.
proof fn lemma_concat_membership(vv: Seq<Vec<SearchMatch>>, upto: int, o: int)
    requires
        0 <= upto <= vv.len(),
    ensures
        spec_has_offset_p(spec_concat_models(vv, upto), o) <==> exists|k: int|
            0 <= k < upto && spec_has_offset_p(#[trigger] spec_models(vv[k]@), o),
    decreases upto,
{
    if upto > 0 {
        lemma_concat_membership(vv, upto - 1, o);
        let prev = spec_concat_models(vv, upto - 1);
        let part = spec_models(vv[upto - 1]@);
        let cur = spec_concat_models(vv, upto);
        assert(cur == prev + part);
        if spec_has_offset_p(cur, o) {
            let k = choose|k: int| 0 <= k < cur.len() && (#[trigger] cur[k]).0 == o;
            if k < prev.len() {
                assert(prev[k].0 == o);
            } else {
                assert(part[k - prev.len()].0 == o);
            }
        }
        if spec_has_offset_p(prev, o) {
            let k = choose|k: int| 0 <= k < prev.len() && (#[trigger] prev[k]).0 == o;
            assert(cur[k].0 == o);
        }
        if spec_has_offset_p(part, o) {
            let k = choose|k: int| 0 <= k < part.len() && (#[trigger] part[k]).0 == o;
            assert(cur[prev.len() + k].0 == o);
        }
    }
}

/// A match list and its model list hold the same offsets.
proof fn lemma_models_membership(v: Seq<SearchMatch>, o: int)
    ensures
        spec_has_offset_m(v, o) <==> spec_has_offset_p(spec_models(v), o),
{
    if spec_has_offset_m(v, o) {
        let k = choose|k: int| 0 <= k < v.len() && (#[trigger] v[k]).offset == o;
        assert(spec_models(v)[k].0 == o);
    }
    if spec_has_offset_p(spec_models(v), o) {
        let k = choose|k: int|
            0 <= k < spec_models(v).len() && (#[trigger] spec_models(v)[k]).0 == o;
        assert(v[k].offset == o);
    }
}

/// What every entry a chunk's exact scan reports looks like: an occurrence
/// of the needle, its window inside the chunk, kept by the primary-region
/// rule, carrying the needle's bytes.
proof fn lemma_exact_chunk_entries(
    h: Seq<u8>,
    n: Seq<u8>,
    cur: int,
    chunk_end: int,
    primary_end: int,
)
    requires
        n.len() >= 1,
    ensures
        forall|i: int|
            0 <= i < spec_exact_chunk(h, n, cur, chunk_end, primary_end).len() ==> {
                let e = #[trigger] spec_exact_chunk(h, n, cur, chunk_end, primary_end)[i];
                cur <= e.0 && e.0 + n.len() <= chunk_end && chunk_end <= h.len() && spec_occurs_at(
                    h,
                    n,
                    e.0,
                ) && e.1 == n && (e.0 < primary_end || chunk_end == h.len())
            },
    decreases chunk_end - cur,
{
    if !(cur < 0 || n.len() < 1 || cur + n.len() > chunk_end || chunk_end > h.len()) {
        let cs = spec_exact_chunk(h, n, cur, chunk_end, primary_end);
        if spec_occurs_at(h, n, cur) {
            lemma_exact_chunk_entries(h, n, cur + 1, chunk_end, primary_end);
            let tail = spec_exact_chunk(h, n, cur + 1, chunk_end, primary_end);
            if cur < primary_end || chunk_end == h.len() {
                assert(cs == seq![(cur, n)] + tail);
                assert(cs[0] == (cur, n));
                assert(forall|i: int| 1 <= i < cs.len() ==> cs[i] == tail[i - 1]);
            } else {
                assert(cs =~= tail);
            }
        } else {
            lemma_exact_chunk_entries(h, n, cur + 1, chunk_end, primary_end);
            assert(cs == spec_exact_chunk(h, n, cur + 1, chunk_end, primary_end));
        }
    }
}

/// Which offsets a chunk's exact scan reports: exactly the kept
/// occurrences whose window lies inside the chunk.
proof fn lemma_exact_chunk_contains(
    h: Seq<u8>,
    n: Seq<u8>,
    cur: int,
    chunk_end: int,
    primary_end: int,
    o: int,
)
    requires
        n.len() >= 1,
        cur >= 0,
    ensures
        spec_has_offset_p(spec_exact_chunk(h, n, cur, chunk_end, primary_end), o) <==> (cur
            <= o && o + n.len() <= chunk_end && chunk_end <= h.len() && spec_occurs_at(h, n, o) && (
        o < primary_end || chunk_end == h.len())),
    decreases chunk_end - cur,
{
    let cs = spec_exact_chunk(h, n, cur, chunk_end, primary_end);
    lemma_exact_chunk_entries(h, n, cur, chunk_end, primary_end);
    if spec_has_offset_p(cs, o) {
        let k = choose|k: int| 0 <= k < cs.len() && (#[trigger] cs[k]).0 == o;
        assert(cur <= o && o + n.len() <= chunk_end && chunk_end <= h.len() && spec_occurs_at(
            h,
            n,
            o,
        ) && (o < primary_end || chunk_end == h.len()));
    }
    if cur <= o && o + n.len() <= chunk_end && chunk_end <= h.len() && spec_occurs_at(h, n, o) && (o
        < primary_end || chunk_end == h.len()) {
        if cur == o {
            if o < primary_end || chunk_end == h.len() {
                assert(cs[0].0 == o);
            }
        } else {
            lemma_exact_chunk_contains(h, n, cur + 1, chunk_end, primary_end, o);
            let tail = spec_exact_chunk(h, n, cur + 1, chunk_end, primary_end);
            let k = choose|k: int| 0 <= k < tail.len() && (#[trigger] tail[k]).0 == o;
            if spec_occurs_at(h, n, cur) {
                if cur < primary_end || chunk_end == h.len() {
                    assert(cs == seq![(cur, n)] + tail);
                    assert(cs[k + 1].0 == o);
                } else {
                    assert(cs =~= tail);
                    assert(cs[k].0 == o);
                }
            } else {
                assert(cs[k].0 == o);
            }
        }
    }
}

/// What every entry a chunk's mask scan reports looks like.
proof fn lemma_mask_chunk_entries(
    h: Seq<u8>,
    m: Seq<Option<u8>>,
    cur: int,
    chunk_end: int,
    primary_end: int,
)
    requires
        m.len() >= 1,
    ensures
        forall|i: int|
            0 <= i < spec_mask_chunk(h, m, cur, chunk_end, primary_end).len() ==> {
                let e = #[trigger] spec_mask_chunk(h, m, cur, chunk_end, primary_end)[i];
                cur <= e.0 && e.0 + m.len() <= chunk_end && chunk_end <= h.len()
                    && spec_mask_matches_at(h, m, e.0) && e.1 == h.subrange(e.0, e.0 + m.len()) && (
                e.0 < primary_end || chunk_end == h.len())
            },
    decreases chunk_end - cur,
{
    if !(cur < 0 || m.len() < 1 || cur + m.len() > chunk_end || chunk_end > h.len()) {
        let cs = spec_mask_chunk(h, m, cur, chunk_end, primary_end);
        if spec_mask_matches_at(h, m, cur) {
            lemma_mask_chunk_entries(h, m, cur + 1, chunk_end, primary_end);
            let tail = spec_mask_chunk(h, m, cur + 1, chunk_end, primary_end);
            if cur < primary_end || chunk_end == h.len() {
                assert(cs == seq![(cur, h.subrange(cur, cur + m.len() as int))] + tail);
                assert(cs[0] == (cur, h.subrange(cur, cur + m.len() as int)));
                assert(forall|i: int| 1 <= i < cs.len() ==> cs[i] == tail[i - 1]);
            } else {
                assert(cs =~= tail);
            }
        } else {
            lemma_mask_chunk_entries(h, m, cur + 1, chunk_end, primary_end);
            assert(cs == spec_mask_chunk(h, m, cur + 1, chunk_end, primary_end));
        }
    }
}

/// Which offsets a chunk's mask scan reports: exactly the kept window
/// matches lying inside the chunk.
proof fn lemma_mask_chunk_contains(
    h: Seq<u8>,
    m: Seq<Option<u8>>,
    cur: int,
    chunk_end: int,
    primary_end: int,
    o: int,
)
    requires
        m.len() >= 1,
        cur >= 0,
    ensures
        spec_has_offset_p(spec_mask_chunk(h, m, cur, chunk_end, primary_end), o) <==> (cur
            <= o && o + m.len() <= chunk_end && chunk_end <= h.len() && spec_mask_matches_at(
            h,
            m,
            o,
        ) && (o < primary_end || chunk_end == h.len())),
    decreases chunk_end - cur,
{
    let cs = spec_mask_chunk(h, m, cur, chunk_end, primary_end);
    lemma_mask_chunk_entries(h, m, cur, chunk_end, primary_end);
    if spec_has_offset_p(cs, o) {
        let k = choose|k: int| 0 <= k < cs.len() && (#[trigger] cs[k]).0 == o;
        assert(cur <= o && o + m.len() <= chunk_end && chunk_end <= h.len() && spec_mask_matches_at(
            h,
            m,
            o,
        ) && (o < primary_end || chunk_end == h.len()));
    }
    if cur <= o && o + m.len() <= chunk_end && chunk_end <= h.len() && spec_mask_matches_at(h, m, o)
        && (o < primary_end || chunk_end == h.len()) {
        if cur == o {
            if o < primary_end || chunk_end == h.len() {
                assert(cs[0].0 == o);
            }
        } else {
            lemma_mask_chunk_contains(h, m, cur + 1, chunk_end, primary_end, o);
            let tail = spec_mask_chunk(h, m, cur + 1, chunk_end, primary_end);
            let k = choose|k: int| 0 <= k < tail.len() && (#[trigger] tail[k]).0 == o;
            if spec_mask_matches_at(h, m, cur) {
                if cur < primary_end || chunk_end == h.len() {
                    assert(cs == seq![(cur, h.subrange(cur, cur + m.len() as int))] + tail);
                    assert(cs[k + 1].0 == o);
                } else {
                    assert(cs =~= tail);
                    assert(cs[k].0 == o);
                }
            } else {
                assert(cs[k].0 == o);
            }
        }
    }
}

/// Some chunk reports an offset exactly when the needle occurs there:
/// every occurrence starts in exactly one chunk's primary region, and
/// that chunk's lookahead of one needle length less a byte keeps the
/// whole window visible.
proof fn lemma_reported_exact_iff_occurs(h: Seq<u8>, n: Seq<u8>, cs: int, ov: int, o: int)
    requires
        n.len() >= 1,
        cs >= 1,
        ov == n.len() - 1,
    ensures
        spec_par_reported_exact(h, n, cs, ov, o) <==> spec_occurs_at(h, n, o),
{
    let len = h.len() as int;
    let nc = spec_num_chunks(len, cs);
    if spec_par_reported_exact(h, n, cs, ov, o) {
        let k = choose|k: int|
            0 <= k < nc && spec_has_offset_p(
                #[trigger] spec_exact_chunk(
                    h,
                    n,
                    spec_chunk_start(k, cs),
                    spec_chunk_end(k, cs, ov, len),
                    spec_chunk_primary_end(k, cs, len),
                ),
                o,
            );
        assert(k * cs >= 0) by (nonlinear_arith)
            requires
                k >= 0,
                cs >= 1,
        ;
        lemma_exact_chunk_contains(
            h,
            n,
            spec_chunk_start(k, cs),
            spec_chunk_end(k, cs, ov, len),
            spec_chunk_primary_end(k, cs, len),
            o,
        );
    }
    if spec_occurs_at(h, n, o) {
        let k = o / cs;
        vstd::arithmetic::div_mod::lemma_fundamental_div_mod(o, cs);
        vstd::arithmetic::div_mod::lemma_mod_bound(o, cs);
        assert(o == cs * k + o % cs);
        assert(k * cs <= o < k * cs + cs) by (nonlinear_arith)
            requires
                o == cs * k + o % cs,
                0 <= o % cs < cs,
        ;
        assert(k >= 0) by (nonlinear_arith)
            requires
                k * cs <= o,
                0 <= o,
                cs >= 1,
                o < k * cs + cs,
        ;
        // The chunk count covers the whole haystack.
        vstd::arithmetic::div_mod::lemma_fundamental_div_mod(len + cs - 1, cs);
        vstd::arithmetic::div_mod::lemma_mod_bound(len + cs - 1, cs);
        assert(nc * cs >= len) by (nonlinear_arith)
            requires
                len + cs - 1 == cs * nc + (len + cs - 1) % cs,
                0 <= (len + cs - 1) % cs < cs,
        ;
        assert(o < len);
        assert(k < nc) by (nonlinear_arith)
            requires
                k * cs <= o,
                o < len,
                nc * cs >= len,
                cs >= 1,
        ;
        let start = spec_chunk_start(k, cs);
        let chunk_end = spec_chunk_end(k, cs, ov, len);
        let primary_end = spec_chunk_primary_end(k, cs, len);
        assert(start <= o);
        assert(o + n.len() <= chunk_end);
        assert(o < primary_end);
        lemma_exact_chunk_contains(h, n, start, chunk_end, primary_end, o);
        assert(spec_has_offset_p(spec_exact_chunk(h, n, start, chunk_end, primary_end), o));
        assert(spec_par_reported_exact(h, n, cs, ov, o));
    }
}

/// The mask counterpart: some chunk reports an offset exactly when the
/// mask matches the window there.
proof fn lemma_reported_mask_iff_matches(h: Seq<u8>, m: Seq<Option<u8>>, cs: int, ov: int, o: int)
    requires
        m.len() >= 1,
        cs >= 1,
        ov == m.len() - 1,
    ensures
        spec_par_reported_mask(h, m, cs, ov, o) <==> spec_mask_matches_at(h, m, o),
{
    let len = h.len() as int;
    let nc = spec_num_chunks(len, cs);
    if spec_par_reported_mask(h, m, cs, ov, o) {
        let k = choose|k: int|
            0 <= k < nc && spec_has_offset_p(
                #[trigger] spec_mask_chunk(
                    h,
                    m,
                    spec_chunk_start(k, cs),
                    spec_chunk_end(k, cs, ov, len),
                    spec_chunk_primary_end(k, cs, len),
                ),
                o,
            );
        assert(k * cs >= 0) by (nonlinear_arith)
            requires
                k >= 0,
                cs >= 1,
        ;
        lemma_mask_chunk_contains(
            h,
            m,
            spec_chunk_start(k, cs),
            spec_chunk_end(k, cs, ov, len),
            spec_chunk_primary_end(k, cs, len),
            o,
        );
    }
    if spec_mask_matches_at(h, m, o) {
        let k = o / cs;
        vstd::arithmetic::div_mod::lemma_fundamental_div_mod(o, cs);
        vstd::arithmetic::div_mod::lemma_mod_bound(o, cs);
        assert(o == cs * k + o % cs);
        assert(k * cs <= o < k * cs + cs) by (nonlinear_arith)
            requires
                o == cs * k + o % cs,
                0 <= o % cs < cs,
        ;
        assert(k >= 0) by (nonlinear_arith)
            requires
                k * cs <= o,
                0 <= o,
                cs >= 1,
                o < k * cs + cs,
        ;
        vstd::arithmetic::div_mod::lemma_fundamental_div_mod(len + cs - 1, cs);
        vstd::arithmetic::div_mod::lemma_mod_bound(len + cs - 1, cs);
        assert(nc * cs >= len) by (nonlinear_arith)
            requires
                len + cs - 1 == cs * nc + (len + cs - 1) % cs,
                0 <= (len + cs - 1) % cs < cs,
        ;
        assert(o < len);
        assert(k < nc) by (nonlinear_arith)
            requires
                k * cs <= o,
                o < len,
                nc * cs >= len,
                cs >= 1,
        ;
        let start = spec_chunk_start(k, cs);
        let chunk_end = spec_chunk_end(k, cs, ov, len);
        let primary_end = spec_chunk_primary_end(k, cs, len);
        lemma_mask_chunk_contains(h, m, start, chunk_end, primary_end, o);
        assert(spec_has_offset_p(spec_mask_chunk(h, m, start, chunk_end, primary_end), o));
        assert(spec_par_reported_mask(h, m, cs, ov, o));
    }
}

impl SearchCommand {
    /// Parallel exact byte sequence search: the haystack is split into
    /// chunks with a lookahead overlap of one needle length less a byte,
    /// every chunk is searched concurrently, and the collected matches
    /// are sorted by offset, deduplicated, and re-filtered greedily when
    /// overlaps are suppressed.
    ///
    /// Returns `InvalidInput` exactly when the needle is empty.
    #[verifier::rlimit(100)]
    pub(crate) fn search_exact_parallel(&self, haystack: &[u8], needle: &[u8]) -> (r: Result<
        Vec<SearchMatch>,
        BinfiddleError,
    >)
        ensures
            needle@.len() == 0 <==> (r matches Err(e) && e matches BinfiddleError::InvalidInput(
                _,
            )),
            needle@.len() >= 1 ==> (r matches Ok(v) && spec_models(v@) == spec_par_exact_results(
                haystack@,
                needle@,
                self.spec_config().no_overlap,
                PARALLEL_CHUNK_SIZE as int,
                needle@.len() - 1,
            )),
    {
        if needle.len() == 0 {
            return Err(
                BinfiddleError::invalid_input("Search pattern cannot be empty", "", ""),
            );
        }
        let no_overlap = self.config().no_overlap;
        let ghost h = haystack@;
        let ghost n = needle@;
        let ghost cs_i = PARALLEL_CHUNK_SIZE as int;
        let ghost ov_i = n.len() - 1;
        let overlap = needle.len() - 1;
        let chunks = build_chunks(haystack.len(), PARALLEL_CHUNK_SIZE, overlap);
        let parts = par_exact_chunks(self, haystack, &chunks, needle);
        let ghost gparts = parts@;
        let flat = flatten_matches(parts);
        let ghost reported = |o: int| spec_par_reported_exact(h, n, cs_i, ov_i, o);
        let ghost f = |o: int| n;
        let ghost pred = |o: int, d: Seq<u8>|
            d == n && o + d.len() <= h.len() && spec_par_reported_exact(
                h,
                n,
                cs_i,
                ov_i,
                o,
            );
        proof {
            // Every flattened match satisfies the carried predicate, and the
            // flattened offsets are exactly the reported ones.
            assert forall|i: int|
                0 <= i < flat@.len() implies pred(
                (#[trigger] flat@[i]).offset as int,
                flat@[i].data@,
            ) by {
                assert(spec_models(flat@)[i] == (flat@[i].offset as int, flat@[i].data@));
                lemma_flat_entry_reported(h, n, cs_i, ov_i, gparts, flat@, i);
            }
            assert forall|o: int|
                spec_has_offset_m(flat@, o) <==> #[trigger] reported(o) by {
                lemma_models_membership(flat@, o);
                lemma_concat_membership(gparts, gparts.len() as int, o);
                let len_i = h.len() as int;
                if spec_has_offset_m(flat@, o) {
                    let k = choose|k: int|
                        0 <= k < gparts.len() && spec_has_offset_p(
                            #[trigger] spec_models(gparts[k]@),
                            o,
                        );
                    assert(chunks@[k].0 as int == spec_chunk_start(k, cs_i));
                    assert(chunks@[k].1 as int == spec_chunk_end(k, cs_i, ov_i, len_i));
                    assert(chunks@[k].2 as int == spec_chunk_primary_end(k, cs_i, len_i));
                    assert(spec_has_offset_p(
                        spec_exact_chunk(
                            h,
                            n,
                            spec_chunk_start(k, cs_i),
                            spec_chunk_end(k, cs_i, ov_i, len_i),
                            spec_chunk_primary_end(k, cs_i, len_i),
                        ),
                        o,
                    ));
                    assert(reported(o));
                }
                if reported(o) {
                    let k = choose|k: int|
                        0 <= k < spec_num_chunks(len_i, cs_i) && spec_has_offset_p(
                            #[trigger] spec_exact_chunk(
                                h,
                                n,
                                spec_chunk_start(k, cs_i),
                                spec_chunk_end(k, cs_i, ov_i, len_i),
                                spec_chunk_primary_end(k, cs_i, len_i),
                            ),
                            o,
                        );
                    assert(chunks@[k].0 as int == spec_chunk_start(k, cs_i));
                    assert(chunks@[k].1 as int == spec_chunk_end(k, cs_i, ov_i, len_i));
                    assert(chunks@[k].2 as int == spec_chunk_primary_end(k, cs_i, len_i));
                    assert(spec_has_offset_p(spec_models(gparts[k]@), o));
                    assert(spec_has_offset_p(
                        spec_concat_models(gparts, gparts.len() as int),
                        o,
                    ));
                }
            }
        }
        let sorted = sort_matches(flat, Ghost(pred));
        let deduped = dedup_matches(sorted, Ghost(pred));
        proof {
            lemma_asc_by(reported, f, h.len() as int);
            assert forall|o: int|
                spec_has_offset_p(spec_models(deduped@), o) <==> spec_has_offset_p(
                    spec_asc_by(reported, f, h.len() as int),
                    o,
                ) by {
                lemma_models_membership(deduped@, o);
                if reported(o) {
                    lemma_reported_in_range(h, n, cs_i, ov_i, o);
                }
            }
            assert forall|i: int|
                0 <= i < spec_models(deduped@).len() implies {
                let e = #[trigger] spec_models(deduped@)[i];
                e.1 == f(e.0)
            } by {
                assert(spec_models(deduped@)[i] == (deduped@[i].offset as int, deduped@[i].data@));
                assert(pred(deduped@[i].offset as int, deduped@[i].data@));
            }
            assert forall|i: int|
                0 <= i < spec_models(deduped@).len() - 1 implies (
            #[trigger] spec_models(deduped@)[i]).0 < spec_models(deduped@)[i + 1].0 by {
                assert(spec_models(deduped@)[i] == (deduped@[i].offset as int, deduped@[i].data@));
                assert(spec_models(deduped@)[i + 1] == (
                    deduped@[i + 1].offset as int,
                    deduped@[i + 1].data@,
                ));
                assert(deduped@[i].offset < deduped@[i + 1].offset);
            }
            lemma_unique_ascending(
                spec_models(deduped@),
                spec_asc_by(reported, f, h.len() as int),
                f,
            );
        }
        if no_overlap {
            proof {
                assert forall|i: int|
                    0 <= i < deduped@.len() implies (#[trigger] deduped@[i]).offset
                    + deduped@[i].data@.len() <= usize::MAX by {
                    assert(pred(deduped@[i].offset as int, deduped@[i].data@));
                }
            }
            let filtered = overlap_filter_matches(deduped);
            Ok(filtered)
        } else {
            Ok(deduped)
        }
    }
}

/// Every entry of the flattened per-chunk results is a reported needle
/// occurrence carrying the needle's bytes.
proof fn lemma_flat_entry_reported(
    h: Seq<u8>,
    n: Seq<u8>,
    cs: int,
    ov: int,
    parts: Seq<Vec<SearchMatch>>,
    flat: Seq<SearchMatch>,
    i: int,
)
    requires
        n.len() >= 1,
        0 <= i < flat.len(),
        spec_models(flat) == spec_concat_models(parts, parts.len() as int),
        parts.len() == spec_num_chunks(h.len() as int, cs),
        forall|k: int|
            0 <= k < parts.len() ==> spec_models((#[trigger] parts[k])@) == spec_exact_chunk(
                h,
                n,
                spec_chunk_start(k, cs),
                spec_chunk_end(k, cs, ov, h.len() as int),
                spec_chunk_primary_end(k, cs, h.len() as int),
            ),
    ensures
        flat[i].data@ == n,
        flat[i].offset + flat[i].data@.len() <= h.len(),
        spec_par_reported_exact(h, n, cs, ov, flat[i].offset as int),
{
    let e = spec_models(flat)[i];
    assert(e == (flat[i].offset as int, flat[i].data@));
    lemma_concat_entry(parts, parts.len() as int, i);
    let (k, j) = choose|k: int, j: int|
        0 <= k < parts.len() && 0 <= j < spec_models(parts[k]@).len() && #[trigger] spec_models(
            parts[k]@,
        )[j] == spec_concat_models(parts, parts.len() as int)[i];
    lemma_exact_chunk_entries(
        h,
        n,
        spec_chunk_start(k, cs),
        spec_chunk_end(k, cs, ov, h.len() as int),
        spec_chunk_primary_end(k, cs, h.len() as int),
    );
    assert(spec_has_offset_p(
        spec_exact_chunk(
            h,
            n,
            spec_chunk_start(k, cs),
            spec_chunk_end(k, cs, ov, h.len() as int),
            spec_chunk_primary_end(k, cs, h.len() as int),
        ),
        e.0,
    ));
}

/// Every entry of a concatenation comes from one of its parts.
proof fn lemma_concat_entry(parts: Seq<Vec<SearchMatch>>, upto: int, i: int)
    requires
        0 <= upto <= parts.len(),
        0 <= i < spec_concat_models(parts, upto).len(),
    ensures
        exists|k: int, j: int|
            0 <= k < upto && 0 <= j < spec_models(parts[k]@).len() && #[trigger] spec_models(
                parts[k]@,
            )[j] == spec_concat_models(parts, upto)[i],
    decreases upto,
{
    if upto > 0 {
        let prev = spec_concat_models(parts, upto - 1);
        let part = spec_models(parts[upto - 1]@);
        if i < prev.len() {
            lemma_concat_entry(parts, upto - 1, i);
            let (k, j) = choose|k: int, j: int|
                0 <= k < upto - 1 && 0 <= j < spec_models(parts[k]@).len() && #[trigger] spec_models(
                    parts[k]@,
                )[j] == prev[i];
            assert(spec_models(parts[k]@)[j] == spec_concat_models(parts, upto)[i]);
        } else {
            assert(spec_models(parts[upto - 1]@)[i - prev.len()] == spec_concat_models(
                parts,
                upto,
            )[i]);
        }
    }
}

/// A reported offset lies inside the haystack, its window included.
proof fn lemma_reported_in_range(h: Seq<u8>, n: Seq<u8>, cs: int, ov: int, o: int)
    requires
        n.len() >= 1,
        spec_par_reported_exact(h, n, cs, ov, o),
    ensures
        0 <= o,
        o + n.len() <= h.len(),
        o < h.len(),
{
    let len = h.len() as int;
    let k = choose|k: int|
        0 <= k < spec_num_chunks(len, cs) && spec_has_offset_p(
            #[trigger] spec_exact_chunk(
                h,
                n,
                spec_chunk_start(k, cs),
                spec_chunk_end(k, cs, ov, len),
                spec_chunk_primary_end(k, cs, len),
            ),
            o,
        );
    let cspec = spec_exact_chunk(
        h,
        n,
        spec_chunk_start(k, cs),
        spec_chunk_end(k, cs, ov, len),
        spec_chunk_primary_end(k, cs, len),
    );
    lemma_exact_chunk_entries(
        h,
        n,
        spec_chunk_start(k, cs),
        spec_chunk_end(k, cs, ov, len),
        spec_chunk_primary_end(k, cs, len),
    );
    let j = choose|j: int| 0 <= j < cspec.len() && (#[trigger] cspec[j]).0 == o;
    assert(cspec[j].0 + n.len() <= spec_chunk_end(k, cs, ov, len));
}

/// Every entry of the flattened per-chunk mask results is a reported
/// window match carrying the window's bytes.
proof fn lemma_flat_entry_reported_mask(
    h: Seq<u8>,
    m: Seq<Option<u8>>,
    cs: int,
    ov: int,
    parts: Seq<Vec<SearchMatch>>,
    flat: Seq<SearchMatch>,
    i: int,
)
    requires
        m.len() >= 1,
        0 <= i < flat.len(),
        spec_models(flat) == spec_concat_models(parts, parts.len() as int),
        parts.len() == spec_num_chunks(h.len() as int, cs),
        forall|k: int|
            0 <= k < parts.len() ==> spec_models((#[trigger] parts[k])@) == spec_mask_chunk(
                h,
                m,
                spec_chunk_start(k, cs),
                spec_chunk_end(k, cs, ov, h.len() as int),
                spec_chunk_primary_end(k, cs, h.len() as int),
            ),
    ensures
        flat[i].data@ == h.subrange(flat[i].offset as int, flat[i].offset + m.len()),
        flat[i].offset + m.len() <= h.len(),
        flat[i].offset + flat[i].data@.len() <= h.len(),
        spec_par_reported_mask(h, m, cs, ov, flat[i].offset as int),
{
    let e = spec_models(flat)[i];
    assert(e == (flat[i].offset as int, flat[i].data@));
    lemma_concat_entry(parts, parts.len() as int, i);
    let (k, j) = choose|k: int, j: int|
        0 <= k < parts.len() && 0 <= j < spec_models(parts[k]@).len() && #[trigger] spec_models(
            parts[k]@,
        )[j] == spec_concat_models(parts, parts.len() as int)[i];
    lemma_mask_chunk_entries(
        h,
        m,
        spec_chunk_start(k, cs),
        spec_chunk_end(k, cs, ov, h.len() as int),
        spec_chunk_primary_end(k, cs, h.len() as int),
    );
    assert(spec_has_offset_p(
        spec_mask_chunk(
            h,
            m,
            spec_chunk_start(k, cs),
            spec_chunk_end(k, cs, ov, h.len() as int),
            spec_chunk_primary_end(k, cs, h.len() as int),
        ),
        e.0,
    ));
}

/// A reported mask offset lies inside the haystack, its window included.
proof fn lemma_reported_in_range_mask(
    h: Seq<u8>,
    m: Seq<Option<u8>>,
    cs: int,
    ov: int,
    o: int,
)
    requires
        m.len() >= 1,
        spec_par_reported_mask(h, m, cs, ov, o),
    ensures
        0 <= o,
        o + m.len() <= h.len(),
        o < h.len(),
{
    let len = h.len() as int;
    let k = choose|k: int|
        0 <= k < spec_num_chunks(len, cs) && spec_has_offset_p(
            #[trigger] spec_mask_chunk(
                h,
                m,
                spec_chunk_start(k, cs),
                spec_chunk_end(k, cs, ov, len),
                spec_chunk_primary_end(k, cs, len),
            ),
            o,
        );
    let cspec = spec_mask_chunk(
        h,
        m,
        spec_chunk_start(k, cs),
        spec_chunk_end(k, cs, ov, len),
        spec_chunk_primary_end(k, cs, len),
    );
    lemma_mask_chunk_entries(
        h,
        m,
        spec_chunk_start(k, cs),
        spec_chunk_end(k, cs, ov, len),
        spec_chunk_primary_end(k, cs, len),
    );
    let j = choose|j: int| 0 <= j < cspec.len() && (#[trigger] cspec[j]).0 == o;
    assert(cspec[j].0 + m.len() <= spec_chunk_end(k, cs, ov, len));
}

impl SearchCommand {
    /// Parallel mask-based search, chunked and merged as the exact variant
    /// is.
    ///
    /// Returns `InvalidInput` exactly when the mask is empty; a haystack
    /// shorter than the mask yields an empty match list.
    #[verifier::rlimit(100)]
    pub(crate) fn search_mask_parallel(&self, haystack: &[u8], mask: &[Option<u8>]) -> (r: Result<
        Vec<SearchMatch>,
        BinfiddleError,
    >)
        ensures
            mask@.len() == 0 <==> (r matches Err(e) && e matches BinfiddleError::InvalidInput(
                _,
            )),
            mask@.len() >= 1 ==> (r matches Ok(v) && spec_models(v@) == spec_par_mask_results(
                haystack@,
                mask@,
                self.spec_config().no_overlap,
                PARALLEL_CHUNK_SIZE as int,
                mask@.len() - 1,
            )),
    {
        if mask.len() == 0 {
            return Err(BinfiddleError::invalid_input("Mask pattern cannot be empty", "", ""));
        }
        let no_overlap = self.config().no_overlap;
        let ghost h = haystack@;
        let ghost m = mask@;
        let ghost cs_i = PARALLEL_CHUNK_SIZE as int;
        let ghost ov_i = m.len() - 1;
        let ghost reported = |o: int| spec_par_reported_mask(h, m, cs_i, ov_i, o);
        let ghost f = |o: int| h.subrange(o, o + m.len() as int);
        if haystack.len() < mask.len() {
            let empty: Vec<SearchMatch> = Vec::new();
            proof {
                assert forall|o: int| !(#[trigger] reported(o)) by {
                    if reported(o) {
                        lemma_reported_in_range_mask(h, m, cs_i, ov_i, o);
                    }
                }
                lemma_asc_by_empty(reported, f, h.len() as int);
                assert(spec_models(empty@) =~= spec_asc_by(reported, f, h.len() as int));
                if no_overlap {
                    assert(spec_models(empty@) =~= spec_overlap_filter(
                        spec_asc_by(reported, f, h.len() as int),
                        0,
                        0,
                    ));
                }
            }
            return Ok(empty);
        }
        let overlap = mask.len() - 1;
        let chunks = build_chunks(haystack.len(), PARALLEL_CHUNK_SIZE, overlap);
        let parts = par_mask_chunks(self, haystack, &chunks, mask);
        let ghost gparts = parts@;
        let flat = flatten_matches(parts);
        let ghost pred = |o: int, d: Seq<u8>|
            d == h.subrange(o, o + m.len()) && o + d.len() <= h.len() && spec_par_reported_mask(
                h,
                m,
                cs_i,
                ov_i,
                o,
            );
        proof {
            assert forall|i: int|
                0 <= i < flat@.len() implies pred(
                (#[trigger] flat@[i]).offset as int,
                flat@[i].data@,
            ) by {
                assert(spec_models(flat@)[i] == (flat@[i].offset as int, flat@[i].data@));
                lemma_flat_entry_reported_mask(h, m, cs_i, ov_i, gparts, flat@, i);
            }
            assert forall|o: int|
                spec_has_offset_m(flat@, o) <==> #[trigger] reported(o) by {
                lemma_models_membership(flat@, o);
                lemma_concat_membership(gparts, gparts.len() as int, o);
                let len_i = h.len() as int;
                if spec_has_offset_m(flat@, o) {
                    let k = choose|k: int|
                        0 <= k < gparts.len() && spec_has_offset_p(
                            #[trigger] spec_models(gparts[k]@),
                            o,
                        );
                    assert(chunks@[k].0 as int == spec_chunk_start(k, cs_i));
                    assert(chunks@[k].1 as int == spec_chunk_end(k, cs_i, ov_i, len_i));
                    assert(chunks@[k].2 as int == spec_chunk_primary_end(k, cs_i, len_i));
                    assert(spec_has_offset_p(
                        spec_mask_chunk(
                            h,
                            m,
                            spec_chunk_start(k, cs_i),
                            spec_chunk_end(k, cs_i, ov_i, len_i),
                            spec_chunk_primary_end(k, cs_i, len_i),
                        ),
                        o,
                    ));
                    assert(reported(o));
                }
                if reported(o) {
                    let k = choose|k: int|
                        0 <= k < spec_num_chunks(len_i, cs_i) && spec_has_offset_p(
                            #[trigger] spec_mask_chunk(
                                h,
                                m,
                                spec_chunk_start(k, cs_i),
                                spec_chunk_end(k, cs_i, ov_i, len_i),
                                spec_chunk_primary_end(k, cs_i, len_i),
                            ),
                            o,
                        );
                    assert(chunks@[k].0 as int == spec_chunk_start(k, cs_i));
                    assert(chunks@[k].1 as int == spec_chunk_end(k, cs_i, ov_i, len_i));
                    assert(chunks@[k].2 as int == spec_chunk_primary_end(k, cs_i, len_i));
                    assert(spec_has_offset_p(spec_models(gparts[k]@), o));
                    assert(spec_has_offset_p(
                        spec_concat_models(gparts, gparts.len() as int),
                        o,
                    ));
                }
            }
        }
        let sorted = sort_matches(flat, Ghost(pred));
        let deduped = dedup_matches(sorted, Ghost(pred));
        proof {
            lemma_asc_by(reported, f, h.len() as int);
            assert forall|o: int|
                spec_has_offset_p(spec_models(deduped@), o) <==> spec_has_offset_p(
                    spec_asc_by(reported, f, h.len() as int),
                    o,
                ) by {
                lemma_models_membership(deduped@, o);
                if reported(o) {
                    lemma_reported_in_range_mask(h, m, cs_i, ov_i, o);
                }
            }
            assert forall|i: int|
                0 <= i < spec_models(deduped@).len() implies {
                let e = #[trigger] spec_models(deduped@)[i];
                e.1 == f(e.0)
            } by {
                assert(spec_models(deduped@)[i] == (deduped@[i].offset as int, deduped@[i].data@));
                assert(pred(deduped@[i].offset as int, deduped@[i].data@));
            }
            assert forall|i: int|
                0 <= i < spec_models(deduped@).len() - 1 implies (
            #[trigger] spec_models(deduped@)[i]).0 < spec_models(deduped@)[i + 1].0 by {
                assert(spec_models(deduped@)[i] == (deduped@[i].offset as int, deduped@[i].data@));
                assert(spec_models(deduped@)[i + 1] == (
                    deduped@[i + 1].offset as int,
                    deduped@[i + 1].data@,
                ));
                assert(deduped@[i].offset < deduped@[i + 1].offset);
            }
            lemma_unique_ascending(
                spec_models(deduped@),
                spec_asc_by(reported, f, h.len() as int),
                f,
            );
        }
        if no_overlap {
            proof {
                assert forall|i: int|
                    0 <= i < deduped@.len() implies (#[trigger] deduped@[i]).offset
                    + deduped@[i].data@.len() <= usize::MAX by {
                    assert(pred(deduped@[i].offset as int, deduped@[i].data@));
                }
            }
            let filtered = overlap_filter_matches(deduped);
            Ok(filtered)
        } else {
            Ok(deduped)
        }
    }

    /// Performs the search with chunked parallelism on large inputs.
    ///
    /// Inputs below the size threshold, first-match-only searches, and
    /// regex patterns fall back to the sequential scan; otherwise exact
    /// and mask patterns are searched chunk-parallel and merged.
    pub fn search_parallel(&self, data: &[u8]) -> (r: Result<Vec<SearchMatch>, BinfiddleError>)
        ensures
            r is Err <==> crate::search::spec_search_fails(self.spec_config()),
            r matches Ok(v) ==> spec_models(v@) == spec_search_parallel_results(
                self.spec_config(),
                data@,
            ),
            r matches Err(e) ==> match self.spec_config().pattern {
                SearchPattern::Exact(_) => e matches BinfiddleError::InvalidInput(_),
                SearchPattern::Mask(_) => e matches BinfiddleError::InvalidInput(_),
                SearchPattern::Regex(_) => e matches BinfiddleError::Parse(_),
            },
    {
        if data.len() < PARALLEL_THRESHOLD || !self.config().find_all {
            return self.search(data);
        }
        match &self.config().pattern {
            SearchPattern::Exact(needle) => self.search_exact_parallel(data, needle.as_slice()),
            SearchPattern::Mask(mask) => self.search_mask_parallel(data, mask.as_slice()),
            SearchPattern::Regex(pattern) => self.search_regex(data, pattern.as_str()),
        }
    }
}

/// What a successful parallel search yields: the sequential result below
/// the size threshold, for first-match-only searches and for regex
/// patterns; the merged chunk results otherwise.
pub open spec fn spec_search_parallel_results(cfg: SearchConfig, h: Seq<u8>) -> Seq<(int, Seq<u8>)> {
    if h.len() < PARALLEL_THRESHOLD || !cfg.find_all {
        crate::search::spec_search_results(cfg, h)
    } else {
        match cfg.pattern {
            SearchPattern::Exact(n) => spec_par_exact_results(
                h,
                n@,
                cfg.no_overlap,
                PARALLEL_CHUNK_SIZE as int,
                n@.len() - 1,
            ),
            SearchPattern::Mask(m) => spec_par_mask_results(
                h,
                m@,
                cfg.no_overlap,
                PARALLEL_CHUNK_SIZE as int,
                m@.len() - 1,
            ),
            SearchPattern::Regex(_) => crate::search::spec_search_results(cfg, h),
        }
    }
}

/// With all matches requested and overlaps allowed, the exact scan's
/// result holds exactly the occurrences at or after the scan start.
proof fn lemma_exact_matches_contains(h: Seq<u8>, n: Seq<u8>, pos: int, o: int)
    requires
        n.len() >= 1,
        pos >= 0,
    ensures
        spec_has_offset_p(crate::search::spec_exact_matches(h, n, true, false, pos), o) <==> (pos
            <= o && spec_occurs_at(h, n, o)),
    decreases h.len() - pos,
{
    let cur = crate::search::spec_exact_matches(h, n, true, false, pos);
    if pos + n.len() > h.len() {
        if spec_occurs_at(h, n, o) && pos <= o {
            assert(o + n.len() <= h.len());
            assert(false);
        }
    } else {
        lemma_exact_matches_contains(h, n, pos + 1, o);
        let tail = crate::search::spec_exact_matches(h, n, true, false, pos + 1);
        if spec_occurs_at(h, n, pos) {
            assert(cur == seq![(pos, n)] + tail);
            if spec_has_offset_p(cur, o) {
                let k = choose|k: int| 0 <= k < cur.len() && (#[trigger] cur[k]).0 == o;
                if k > 0 {
                    assert(tail[k - 1].0 == o);
                }
            }
            if pos <= o && spec_occurs_at(h, n, o) {
                if o == pos {
                    assert(cur[0].0 == o);
                } else {
                    let k = choose|k: int| 0 <= k < tail.len() && (#[trigger] tail[k]).0 == o;
                    assert(cur[k + 1].0 == o);
                }
            }
        } else {
            assert(cur == tail);
        }
    }
}

/// The mask counterpart of the sequential containment lemma.
proof fn lemma_mask_matches_contains(h: Seq<u8>, m: Seq<Option<u8>>, pos: int, o: int)
    requires
        m.len() >= 1,
        pos >= 0,
    ensures
        spec_has_offset_p(crate::search::spec_mask_matches(h, m, true, false, pos), o) <==> (pos
            <= o && spec_mask_matches_at(h, m, o)),
    decreases h.len() - pos,
{
    let cur = crate::search::spec_mask_matches(h, m, true, false, pos);
    if pos + m.len() > h.len() {
        if spec_mask_matches_at(h, m, o) && pos <= o {
            assert(o + m.len() <= h.len());
            assert(false);
        }
    } else {
        lemma_mask_matches_contains(h, m, pos + 1, o);
        let tail = crate::search::spec_mask_matches(h, m, true, false, pos + 1);
        if spec_mask_matches_at(h, m, pos) {
            assert(cur == seq![(pos, h.subrange(pos, pos + m.len() as int))] + tail);
            if spec_has_offset_p(cur, o) {
                let k = choose|k: int| 0 <= k < cur.len() && (#[trigger] cur[k]).0 == o;
                if k > 0 {
                    assert(tail[k - 1].0 == o);
                }
            }
            if pos <= o && spec_mask_matches_at(h, m, o) {
                if o == pos {
                    assert(cur[0].0 == o);
                } else {
                    let k = choose|k: int| 0 <= k < tail.len() && (#[trigger] tail[k]).0 == o;
                    assert(cur[k + 1].0 == o);
                }
            }
        } else {
            assert(cur == tail);
        }
    }
}

/// In a list with strictly increasing adjacent offsets, any earlier
/// offset is strictly below any later one.
proof fn lemma_pairs_strictly_increasing(s: Seq<(int, Seq<u8>)>, a: int, b: int)
    requires
        forall|i: int| 0 <= i < s.len() - 1 ==> (#[trigger] s[i]).0 < s[i + 1].0,
        0 <= a < b < s.len(),
    ensures
        s[a].0 < s[b].0,
    decreases b - a,
{
    if a + 1 < b {
        lemma_pairs_strictly_increasing(s, a + 1, b);
    }
}

/// The global greedy overlap filter over the ascending list of all
/// occurrences makes the same selection as the sequential
/// overlap-suppressing scan: both walk left to right and keep a match
/// exactly when it starts at or after the end of the last kept one.
proof fn lemma_filter_matches_sequential_exact(
    h: Seq<u8>,
    n: Seq<u8>,
    s: Seq<(int, Seq<u8>)>,
    idx: int,
    cursor: int,
)
    requires
        n.len() >= 1,
        0 <= idx <= s.len(),
        0 <= cursor,
        forall|i: int|
            0 <= i < s.len() ==> spec_occurs_at(h, n, (#[trigger] s[i]).0) && s[i].1 == n,
        forall|i: int| 0 <= i < s.len() - 1 ==> (#[trigger] s[i]).0 < s[i + 1].0,
        forall|o: int| spec_occurs_at(h, n, o) ==> spec_has_offset_p(s, o),
        forall|k: int| 0 <= k < idx ==> (#[trigger] s[k]).0 < cursor,
    ensures
        spec_overlap_filter(s, idx, cursor) == crate::search::spec_exact_matches(
            h,
            n,
            true,
            true,
            cursor,
        ),
    decreases s.len() - idx,
{
    if idx >= s.len() {
        assert forall|o: int| cursor <= o implies !spec_occurs_at(h, n, o) by {
            if spec_occurs_at(h, n, o) {
                assert(spec_has_offset_p(s, o));
                let k = choose|k: int| 0 <= k < s.len() && (#[trigger] s[k]).0 == o;
                assert(s[k].0 < cursor);
            }
        }
        crate::search::lemma_exact_none(h, n, true, true, cursor);
        assert(spec_overlap_filter(s, idx, cursor) =~= crate::search::spec_exact_matches(
            h,
            n,
            true,
            true,
            cursor,
        ));
    } else {
        let e = s[idx];
        if e.0 >= cursor {
            // No occurrence lies between the cursor and this entry.
            assert forall|j: int| cursor <= j < e.0 implies !spec_occurs_at(h, n, j) by {
                if spec_occurs_at(h, n, j) {
                    assert(spec_has_offset_p(s, j));
                    let k = choose|k: int| 0 <= k < s.len() && (#[trigger] s[k]).0 == j;
                    if k < idx {
                        assert(s[k].0 < cursor);
                    } else if k > idx {
                        lemma_pairs_strictly_increasing(s, idx, k);
                    }
                }
            }
            crate::search::lemma_exact_skip(h, n, true, true, cursor, e.0);
            let next = e.0 + n.len() as int;
            lemma_filter_matches_sequential_exact(h, n, s, idx + 1, next);
            assert(spec_overlap_filter(s, idx, cursor) == seq![e] + spec_overlap_filter(
                s,
                idx + 1,
                e.0 + e.1.len() as int,
            ));
            assert(e.1.len() == n.len());
            assert(crate::search::spec_exact_matches(h, n, true, true, e.0) == seq![(e.0, n)]
                + crate::search::spec_exact_matches(h, n, true, true, next));
            assert(spec_overlap_filter(s, idx, cursor) =~= crate::search::spec_exact_matches(
                h,
                n,
                true,
                true,
                cursor,
            ));
        } else {
            lemma_filter_matches_sequential_exact(h, n, s, idx + 1, cursor);
        }
    }
}

/// The mask counterpart of the filter/sequential agreement.
proof fn lemma_filter_matches_sequential_mask(
    h: Seq<u8>,
    m: Seq<Option<u8>>,
    s: Seq<(int, Seq<u8>)>,
    idx: int,
    cursor: int,
)
    requires
        m.len() >= 1,
        0 <= idx <= s.len(),
        0 <= cursor,
        forall|i: int|
            0 <= i < s.len() ==> spec_mask_matches_at(h, m, (#[trigger] s[i]).0) && s[i].1
                == h.subrange(s[i].0, s[i].0 + m.len() as int),
        forall|i: int| 0 <= i < s.len() - 1 ==> (#[trigger] s[i]).0 < s[i + 1].0,
        forall|o: int| spec_mask_matches_at(h, m, o) ==> spec_has_offset_p(s, o),
        forall|k: int| 0 <= k < idx ==> (#[trigger] s[k]).0 < cursor,
    ensures
        spec_overlap_filter(s, idx, cursor) == crate::search::spec_mask_matches(
            h,
            m,
            true,
            true,
            cursor,
        ),
    decreases s.len() - idx,
{
    if idx >= s.len() {
        assert forall|o: int| cursor <= o implies !spec_mask_matches_at(h, m, o) by {
            if spec_mask_matches_at(h, m, o) {
                assert(spec_has_offset_p(s, o));
                let k = choose|k: int| 0 <= k < s.len() && (#[trigger] s[k]).0 == o;
                assert(s[k].0 < cursor);
            }
        }
        crate::search::lemma_mask_none(h, m, true, true, cursor);
        assert(spec_overlap_filter(s, idx, cursor) =~= crate::search::spec_mask_matches(
            h,
            m,
            true,
            true,
            cursor,
        ));
    } else {
        let e = s[idx];
        if e.0 >= cursor {
            assert forall|j: int| cursor <= j < e.0 implies !spec_mask_matches_at(h, m, j) by {
                if spec_mask_matches_at(h, m, j) {
                    assert(spec_has_offset_p(s, j));
                    let k = choose|k: int| 0 <= k < s.len() && (#[trigger] s[k]).0 == j;
                    if k < idx {
                        assert(s[k].0 < cursor);
                    } else if k > idx {
                        lemma_pairs_strictly_increasing(s, idx, k);
                    }
                }
            }
            crate::search::lemma_mask_skip(h, m, true, true, cursor, e.0);
            let next = e.0 + m.len() as int;
            lemma_filter_matches_sequential_mask(h, m, s, idx + 1, next);
            assert(spec_overlap_filter(s, idx, cursor) == seq![e] + spec_overlap_filter(
                s,
                idx + 1,
                e.0 + e.1.len() as int,
            ));
            assert(e.1.len() == m.len());
            assert(crate::search::spec_mask_matches(h, m, true, true, e.0) == seq![
                (e.0, h.subrange(e.0, e.0 + m.len() as int)),
            ] + crate::search::spec_mask_matches(h, m, true, true, next));
            assert(spec_overlap_filter(s, idx, cursor) =~= crate::search::spec_mask_matches(
                h,
                m,
                true,
                true,
                cursor,
            ));
        } else {
            lemma_filter_matches_sequential_mask(h, m, s, idx + 1, cursor);
        }
    }
}

/// Parallel/sequential equivalence: the parallel search returns the very
/// list the sequential search does — same offsets, same bytes, same
/// order — for every haystack, every pattern kind, and every combination
/// of the all-matches and overlap-suppression flags, chunking thresholds
/// included.
pub proof fn lemma_parallel_matches_sequential(cfg: SearchConfig, h: Seq<u8>)
    ensures
        spec_search_parallel_results(cfg, h) == crate::search::spec_search_results(cfg, h),
{
    if h.len() < PARALLEL_THRESHOLD || !cfg.find_all {
    } else {
        let cs = PARALLEL_CHUNK_SIZE as int;
        match cfg.pattern {
            SearchPattern::Exact(needle) => {
                let n = needle@;
                let ov = n.len() - 1;
                let reported = |o: int| spec_par_reported_exact(h, n, cs, ov, o);
                let f = |o: int| n;
                let asc = spec_asc_by(reported, f, h.len() as int);
                let seqr = crate::search::spec_exact_matches(h, n, true, cfg.no_overlap, 0);
                if n.len() == 0 {
                    assert forall|o: int| !(#[trigger] reported(o)) by {
                        if reported(o) {
                            let k = choose|k: int|
                                0 <= k < spec_num_chunks(h.len() as int, cs) && spec_has_offset_p(
                                    #[trigger] spec_exact_chunk(
                                        h,
                                        n,
                                        spec_chunk_start(k, cs),
                                        spec_chunk_end(k, cs, ov, h.len() as int),
                                        spec_chunk_primary_end(k, cs, h.len() as int),
                                    ),
                                    o,
                                );
                            assert(false);
                        }
                    }
                    lemma_asc_by_empty(reported, f, h.len() as int);
                    assert(asc.len() == 0);
                    if cfg.no_overlap {
                        assert(spec_overlap_filter(asc, 0, 0) =~= seqr);
                    } else {
                        assert(asc =~= seqr);
                    }
                } else {
                    lemma_asc_by(reported, f, h.len() as int);
                    assert forall|i: int|
                        0 <= i < asc.len() implies spec_occurs_at(h, n, (#[trigger] asc[i]).0)
                        && asc[i].1 == n by {
                        lemma_reported_exact_iff_occurs(h, n, cs, ov, asc[i].0);
                    }
                    assert forall|o: int|
                        spec_occurs_at(h, n, o) implies spec_has_offset_p(asc, o) by {
                        lemma_reported_exact_iff_occurs(h, n, cs, ov, o);
                        assert(o < h.len());
                    }
                    if cfg.no_overlap {
                        lemma_filter_matches_sequential_exact(h, n, asc, 0, 0);
                    } else {
                        crate::search::lemma_exact_matches_ordered(h, n, true, false, 0);
                        assert forall|o: int|
                            spec_has_offset_p(asc, o) <==> spec_has_offset_p(seqr, o) by {
                            lemma_exact_matches_contains(h, n, 0, o);
                            lemma_reported_exact_iff_occurs(h, n, cs, ov, o);
                            if spec_occurs_at(h, n, o) {
                                assert(o < h.len());
                            }
                        }
                        assert forall|i: int|
                            0 <= i < seqr.len() implies (#[trigger] seqr[i]).1 == f(seqr[i].0) by {}
                        lemma_unique_ascending(asc, seqr, f);
                    }
                }
                assert(crate::search::spec_search_results(cfg, h) == seqr);
            },
            SearchPattern::Mask(mask) => {
                let m = mask@;
                let ov = m.len() - 1;
                let reported = |o: int| spec_par_reported_mask(h, m, cs, ov, o);
                let f = |o: int| h.subrange(o, o + m.len() as int);
                let asc = spec_asc_by(reported, f, h.len() as int);
                let seqr = crate::search::spec_mask_matches(h, m, true, cfg.no_overlap, 0);
                if m.len() == 0 {
                    assert forall|o: int| !(#[trigger] reported(o)) by {
                        if reported(o) {
                            let k = choose|k: int|
                                0 <= k < spec_num_chunks(h.len() as int, cs) && spec_has_offset_p(
                                    #[trigger] spec_mask_chunk(
                                        h,
                                        m,
                                        spec_chunk_start(k, cs),
                                        spec_chunk_end(k, cs, ov, h.len() as int),
                                        spec_chunk_primary_end(k, cs, h.len() as int),
                                    ),
                                    o,
                                );
                            assert(false);
                        }
                    }
                    lemma_asc_by_empty(reported, f, h.len() as int);
                    assert(asc.len() == 0);
                    if cfg.no_overlap {
                        assert(spec_overlap_filter(asc, 0, 0) =~= seqr);
                    } else {
                        assert(asc =~= seqr);
                    }
                } else {
                    lemma_asc_by(reported, f, h.len() as int);
                    assert forall|i: int|
                        0 <= i < asc.len() implies spec_mask_matches_at(
                        h,
                        m,
                        (#[trigger] asc[i]).0,
                    ) && asc[i].1 == h.subrange(asc[i].0, asc[i].0 + m.len() as int) by {
                        lemma_reported_mask_iff_matches(h, m, cs, ov, asc[i].0);
                    }
                    assert forall|o: int|
                        spec_mask_matches_at(h, m, o) implies spec_has_offset_p(asc, o) by {
                        lemma_reported_mask_iff_matches(h, m, cs, ov, o);
                        assert(o < h.len());
                    }
                    if cfg.no_overlap {
                        lemma_filter_matches_sequential_mask(h, m, asc, 0, 0);
                    } else {
                        crate::search::lemma_mask_matches_ordered(h, m, true, false, 0);
                        assert forall|o: int|
                            spec_has_offset_p(asc, o) <==> spec_has_offset_p(seqr, o) by {
                            lemma_mask_matches_contains(h, m, 0, o);
                            lemma_reported_mask_iff_matches(h, m, cs, ov, o);
                            if spec_mask_matches_at(h, m, o) {
                                assert(o < h.len());
                            }
                        }
                        assert forall|i: int|
                            0 <= i < seqr.len() implies (#[trigger] seqr[i]).1 == f(seqr[i].0) by {}
                        lemma_unique_ascending(asc, seqr, f);
                    }
                }
                assert(crate::search::spec_search_results(cfg, h) == seqr);
            },
            SearchPattern::Regex(_) => {},
        }
    }
}

} // verus!