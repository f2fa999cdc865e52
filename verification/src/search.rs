//! Pattern search over byte buffers: exact byte sequences, masked
//! sequences with wildcard slots, and byte-oriented regular expressions,
//! each with first-match or all-matches and overlap control.

use crate::color::ColorMode;
use crate::errors::BinfiddleError;
use vstd::prelude::*;
use vstd::slice::{slice_subrange, slice_to_vec};

verus! {

/// A parsed search pattern.
#[derive(Debug, Clone)]
pub enum SearchPattern {
    /// A literal byte sequence.
    Exact(Vec<u8>),
    /// A fixed-length sequence of required bytes and wildcard slots.
    Mask(Vec<Option<u8>>),
    /// A regular expression over raw bytes, compiled per search call.
    Regex(String),
}

/// Configuration for search operations.
#[derive(Debug, Clone)]
pub struct SearchConfig {
    /// The parsed search pattern
    pub pattern: SearchPattern,
    /// Output format (hex, dec, oct, bin, ascii)
    pub format: String,
    /// Chunk size for display
    pub chunk_size: usize,
    /// Find all matches (vs. first only)
    pub find_all: bool,
    /// Only output match count
    pub count_only: bool,
    /// Only output offsets (no data)
    pub offsets_only: bool,
    /// Context bytes to show before/after match
    pub context: usize,
    /// Prevent overlapping matches
    pub no_overlap: bool,
    /// Color output mode
    pub color: ColorMode,
}

impl Default for SearchConfig {
    fn default() -> (r: Self)
        ensures
            r.pattern matches SearchPattern::Exact(v) && v@ == Seq::<u8>::empty(),
            r.format@ == ("hex")@,
            r.chunk_size == 8,
            !r.find_all,
            !r.count_only,
            !r.offsets_only,
            r.context == 0,
            !r.no_overlap,
            r.color == ColorMode::Auto,
    {
        SearchConfig {
            pattern: SearchPattern::Exact(Vec::new()),
            format: "hex".to_owned(),
            chunk_size: 8,
            find_all: false,
            count_only: false,
            offsets_only: false,
            context: 0,
            no_overlap: false,
            color: ColorMode::Auto,
        }
    }
}

/// Represents a search match result.
#[derive(Debug, Clone)]
pub struct SearchMatch {
    /// Byte offset where the match was found
    pub offset: usize,
    /// The matched bytes
    pub data: Vec<u8>,
}

/// The mathematical reading of a match: its offset and its bytes.
pub open spec fn spec_models(v: Seq<SearchMatch>) -> Seq<(int, Seq<u8>)> {
    v.map_values(|m: SearchMatch| (m.offset as int, m.data@))
}

/// The needle occurs in the haystack at position `i`.
pub open spec fn spec_occurs_at(h: Seq<u8>, n: Seq<u8>, i: int) -> bool {
    0 <= i && i + n.len() <= h.len() && h.subrange(i, i + n.len()) == n
}

/// The mask matches the haystack window starting at `i`: every required
/// slot equals the haystack byte, wildcard slots match anything.
pub open spec fn spec_mask_matches_at(h: Seq<u8>, m: Seq<Option<u8>>, i: int) -> bool {
    0 <= i && i + m.len() <= h.len() && forall|j: int|
        0 <= j < m.len() ==> (#[trigger] m[j] matches Some(b) ==> h[i + j] == b)
}

/// The matches of a sequential exact search scanning from `pos`: the
/// leftmost occurrence is taken at each step; after a match the scan
/// advances by the needle's length under `no_overlap`, else by one; a
/// single match is taken unless `find_all`.
pub open spec fn spec_exact_matches(
    h: Seq<u8>,
    n: Seq<u8>,
    find_all: bool,
    no_overlap: bool,
    pos: int,
) -> Seq<(int, Seq<u8>)>
    recommends
        n.len() >= 1,
        pos >= 0,
    decreases h.len() - pos,
{
    if pos < 0 || n.len() < 1 || pos + n.len() > h.len() {
        Seq::empty()
    } else if spec_occurs_at(h, n, pos) {
        seq![(pos, n)] + (if find_all {
            spec_exact_matches(
                h,
                n,
                find_all,
                no_overlap,
                pos + (if no_overlap {
                    n.len() as int
                } else {
                    1
                }),
            )
        } else {
            Seq::empty()
        })
    } else {
        spec_exact_matches(h, n, find_all, no_overlap, pos + 1)
    }
}

/// The matches of a sequential mask search scanning from `pos`, advancing
/// as the exact scan does.
pub open spec fn spec_mask_matches(
    h: Seq<u8>,
    m: Seq<Option<u8>>,
    find_all: bool,
    no_overlap: bool,
    pos: int,
) -> Seq<(int, Seq<u8>)>
    recommends
        m.len() >= 1,
        pos >= 0,
    decreases h.len() - pos,
{
    if pos < 0 || m.len() < 1 || pos + m.len() > h.len() {
        Seq::empty()
    } else if spec_mask_matches_at(h, m, pos) {
        seq![(pos, h.subrange(pos, pos + m.len() as int))] + (if find_all {
            spec_mask_matches(
                h,
                m,
                find_all,
                no_overlap,
                pos + (if no_overlap {
                    m.len() as int
                } else {
                    1
                }),
            )
        } else {
            Seq::empty()
        })
    } else {
        spec_mask_matches(h, m, find_all, no_overlap, pos + 1)
    }
}

/// Skipping over positions with no occurrence leaves the exact scan's
/// result unchanged.
pub(crate) proof fn lemma_exact_skip(
    h: Seq<u8>,
    n: Seq<u8>,
    find_all: bool,
    no_overlap: bool,
    from: int,
    to: int,
)
    requires
        n.len() >= 1,
        0 <= from <= to,
        forall|j: int| from <= j < to ==> !spec_occurs_at(h, n, j),
    ensures
        spec_exact_matches(h, n, find_all, no_overlap, from) == spec_exact_matches(
            h,
            n,
            find_all,
            no_overlap,
            to,
        ),
    decreases to - from,
{
    if from < to {
        if from + n.len() > h.len() {
            lemma_exact_skip(h, n, find_all, no_overlap, from + 1, to);
            assert(spec_exact_matches(h, n, find_all, no_overlap, from) =~= Seq::<(
                int,
                Seq<u8>,
            )>::empty());
            assert(spec_exact_matches(h, n, find_all, no_overlap, to) =~= Seq::<(
                int,
                Seq<u8>,
            )>::empty()) by {
                lemma_exact_empty_past_end(h, n, find_all, no_overlap, to);
            }
        } else {
            lemma_exact_skip(h, n, find_all, no_overlap, from + 1, to);
        }
    }
}

/// Past the last window the exact scan yields nothing.
proof fn lemma_exact_empty_past_end(
    h: Seq<u8>,
    n: Seq<u8>,
    find_all: bool,
    no_overlap: bool,
    pos: int,
)
    requires
        n.len() >= 1,
        pos + n.len() > h.len(),
    ensures
        spec_exact_matches(h, n, find_all, no_overlap, pos).len() == 0,
{
}

/// When no occurrence lies at or beyond `from`, the exact scan from
/// `from` yields nothing.
pub(crate) proof fn lemma_exact_none(h: Seq<u8>, n: Seq<u8>, find_all: bool, no_overlap: bool, from: int)
    requires
        n.len() >= 1,
        from >= 0,
        forall|j: int| from <= j ==> !spec_occurs_at(h, n, j),
    ensures
        spec_exact_matches(h, n, find_all, no_overlap, from).len() == 0,
    decreases h.len() - from,
{
    if from + n.len() <= h.len() {
        lemma_exact_none(h, n, find_all, no_overlap, from + 1);
    }
}

/// Skipping over positions where the mask does not match leaves the mask
/// scan's result unchanged.
pub(crate) proof fn lemma_mask_skip(
    h: Seq<u8>,
    m: Seq<Option<u8>>,
    find_all: bool,
    no_overlap: bool,
    from: int,
    to: int,
)
    requires
        m.len() >= 1,
        0 <= from <= to,
        forall|j: int| from <= j < to ==> !spec_mask_matches_at(h, m, j),
    ensures
        spec_mask_matches(h, m, find_all, no_overlap, from) == spec_mask_matches(
            h,
            m,
            find_all,
            no_overlap,
            to,
        ),
    decreases to - from,
{
    if from < to {
        if from + m.len() > h.len() {
            lemma_mask_skip(h, m, find_all, no_overlap, from + 1, to);
            assert(spec_mask_matches(h, m, find_all, no_overlap, from) =~= Seq::<(
                int,
                Seq<u8>,
            )>::empty());
            assert(spec_mask_matches(h, m, find_all, no_overlap, to) =~= Seq::<(
                int,
                Seq<u8>,
            )>::empty()) by {
                lemma_mask_empty_past_end(h, m, find_all, no_overlap, to);
            }
        } else {
            lemma_mask_skip(h, m, find_all, no_overlap, from + 1, to);
        }
    }
}

/// Past the last window the mask scan yields nothing.
pub(crate) proof fn lemma_mask_empty_past_end(
    h: Seq<u8>,
    m: Seq<Option<u8>>,
    find_all: bool,
    no_overlap: bool,
    pos: int,
)
    requires
        m.len() >= 1,
        pos + m.len() > h.len(),
    ensures
        spec_mask_matches(h, m, find_all, no_overlap, pos).len() == 0,
{
}

/// When the mask matches nowhere at or beyond `from`, the mask scan from
/// `from` yields nothing.
pub(crate) proof fn lemma_mask_none(
    h: Seq<u8>,
    m: Seq<Option<u8>>,
    find_all: bool,
    no_overlap: bool,
    from: int,
)
    requires
        m.len() >= 1,
        from >= 0,
        forall|j: int| from <= j ==> !spec_mask_matches_at(h, m, j),
    ensures
        spec_mask_matches(h, m, find_all, no_overlap, from).len() == 0,
    decreases h.len() - from,
{
    if from + m.len() <= h.len() {
        lemma_mask_none(h, m, find_all, no_overlap, from + 1);
    }
}

/// Relies on memchr's `memmem::find`: it returns the index of the first
/// (leftmost) occurrence of the needle within the searched slice, or
/// `None` when the needle does not occur in it.
#[verifier::external_body]
pub(crate) fn find_from(haystack: &[u8], from: usize, needle: &[u8]) -> (r: Option<usize>)
    requires
        from <= haystack@.len(),
        needle@.len() >= 1,
    ensures
        match r {
            Some(i) => from <= i && spec_occurs_at(haystack@, needle@, i as int) && forall|j: int|
                from <= j < i ==> !spec_occurs_at(haystack@, needle@, j),
            None => forall|j: int| from <= j ==> !spec_occurs_at(haystack@, needle@, j),
        },
{
    memchr::memmem::find(&haystack[from..], needle).map(|i| from + i)
}

/// Search command structure.
pub struct SearchCommand {
    config: SearchConfig,
}

impl SearchCommand {
    /// Creates a new SearchCommand with the given configuration.
    pub fn new(config: SearchConfig) -> (r: Self)
        ensures
            r.spec_config() == config,
    {
        SearchCommand { config }
    }

    /// The configuration this command searches under.
    pub closed spec fn spec_config(&self) -> SearchConfig {
        self.config
    }

    /// Read access to the configuration for the other search modules.
    pub(crate) fn config(&self) -> (r: &SearchConfig)
        ensures
            *r == self.spec_config(),
    {
        &self.config
    }

    /// Performs exact byte sequence search, leftmost match first.
    ///
    /// Returns `InvalidInput` exactly when the needle is empty. With
    /// `find_all` every match is returned in strictly increasing offset
    /// order; under `no_overlap` each match starts at or after the end of
    /// the previous one.
    pub(crate) fn search_exact(&self, haystack: &[u8], needle: &[u8]) -> (r: Result<
        Vec<SearchMatch>,
        BinfiddleError,
    >)
        ensures
            needle@.len() == 0 <==> (r matches Err(e) && e matches BinfiddleError::InvalidInput(
                _,
            )),
            needle@.len() >= 1 ==> (r matches Ok(v) && spec_models(v@) == spec_exact_matches(
                haystack@,
                needle@,
                self.spec_config().find_all,
                self.spec_config().no_overlap,
                0,
            )),
    {
        if needle.len() == 0 {
            return Err(
                BinfiddleError::invalid_input("Search pattern cannot be empty", "", ""),
            );
        }
        let find_all = self.config.find_all;
        let no_overlap = self.config.no_overlap;
        let ghost h = haystack@;
        let ghost n = needle@;
        let mut matches: Vec<SearchMatch> = Vec::new();
        let mut search_start: usize = 0;
        let mut done = false;
        while !done && search_start < haystack.len()
            invariant
                needle@.len() >= 1,
                search_start <= haystack@.len(),
                h == haystack@,
                n == needle@,
                !done ==> spec_models(matches@) + spec_exact_matches(
                    h,
                    n,
                    find_all,
                    no_overlap,
                    search_start as int,
                ) == spec_exact_matches(h, n, find_all, no_overlap, 0),
                done ==> spec_models(matches@) == spec_exact_matches(h, n, find_all, no_overlap, 0),
            decreases
                    (if done {
                        0int
                    } else {
                        1int
                    }),
                    haystack@.len() - search_start,
        {
            match find_from(haystack, search_start, needle) {
                Some(absolute_offset) => {
                    proof {
                        lemma_exact_skip(
                            h,
                            n,
                            find_all,
                            no_overlap,
                            search_start as int,
                            absolute_offset as int,
                        );
                    }
                    let data = slice_to_vec(needle);
                    matches.push(SearchMatch { offset: absolute_offset, data });
                    proof {
                        assert(spec_models(matches@) =~= spec_models(matches@.drop_last()) + seq![
                            (absolute_offset as int, n),
                        ]);
                    }
                    if !find_all {
                        done = true;
                    } else {
                        let next = if no_overlap {
                            absolute_offset + needle.len()
                        } else {
                            absolute_offset + 1
                        };
                        search_start = next;
                    }
                },
                None => {
                    proof {
                        lemma_exact_none(h, n, find_all, no_overlap, search_start as int);
                    }
                    done = true;
                },
            }
        }
        proof {
            if !done {
                lemma_exact_empty_past_end(h, n, find_all, no_overlap, search_start as int);
                assert(spec_models(matches@) =~= spec_exact_matches(h, n, find_all, no_overlap, 0));
            }
        }
        Ok(matches)
    }

    /// Checks if a byte slice matches a mask pattern: equal lengths, and
    /// every required slot equal to the corresponding byte.
    pub(crate) fn matches_mask(&self, data: &[u8], mask: &[Option<u8>]) -> (r: bool)
        ensures
            r == (data@.len() == mask@.len() && spec_mask_matches_at(data@, mask@, 0)),
    {
        if data.len() != mask.len() {
            return false;
        }
        let n = mask.len();
        let mut j: usize = 0;
        while j < n
            invariant
                j <= n,
                n == mask@.len(),
                n == data@.len(),
                forall|k: int| 0 <= k < j ==> (#[trigger] mask@[k] matches Some(b) ==> data@[k] == b),
            decreases n - j,
        {
            match mask[j] {
                Some(expected) => {
                    if data[j] != expected {
                        assert(mask@[j as int] matches Some(b) && data@[j as int] != b);
                        return false;
                    }
                },
                None => (),
            }
            j = j + 1;
        }
        true
    }

    /// Performs mask-based search with wildcard support.
    ///
    /// Returns `InvalidInput` exactly when the mask is empty; a haystack
    /// shorter than the mask yields an empty match list.
    pub(crate) fn search_mask(&self, haystack: &[u8], mask: &[Option<u8>]) -> (r: Result<
        Vec<SearchMatch>,
        BinfiddleError,
    >)
        ensures
            mask@.len() == 0 <==> (r matches Err(e) && e matches BinfiddleError::InvalidInput(
                _,
            )),
            mask@.len() >= 1 ==> (r matches Ok(v) && spec_models(v@) == spec_mask_matches(
                haystack@,
                mask@,
                self.spec_config().find_all,
                self.spec_config().no_overlap,
                0,
            )),
    {
        if mask.len() == 0 {
            return Err(BinfiddleError::invalid_input("Mask pattern cannot be empty", "", ""));
        }
        let find_all = self.config.find_all;
        let no_overlap = self.config.no_overlap;
        let ghost h = haystack@;
        let ghost m = mask@;
        let mask_len = mask.len();
        let mut matches: Vec<SearchMatch> = Vec::new();
        if haystack.len() < mask_len {
            proof {
                assert(spec_models(matches@) =~= spec_mask_matches(h, m, find_all, no_overlap, 0));
            }
            return Ok(matches);
        }
        let mut pos: usize = 0;
        let mut done = false;
        while !done && pos <= haystack.len() - mask_len
            invariant
                mask@.len() >= 1,
                mask_len == mask@.len(),
                haystack@.len() >= mask_len,
                pos <= haystack@.len(),
                h == haystack@,
                m == mask@,
                !done ==> spec_models(matches@) + spec_mask_matches(
                    h,
                    m,
                    find_all,
                    no_overlap,
                    pos as int,
                ) == spec_mask_matches(h, m, find_all, no_overlap, 0),
                done ==> spec_models(matches@) == spec_mask_matches(h, m, find_all, no_overlap, 0),
            decreases
                    (if done {
                        0int
                    } else {
                        1int
                    }),
                    haystack@.len() - pos,
        {
            let window = slice_subrange(haystack, pos, pos + mask_len);
            if self.matches_mask(window, mask) {
                assert(spec_mask_matches_at(h, m, pos as int)) by {
                    assert(forall|j: int|
                        0 <= j < m.len() ==> h[pos + j] == window@[j] && (#[trigger] m[j] matches
                            Some(b) ==> window@[j] == b));
                }
                let data = slice_to_vec(window);
                matches.push(SearchMatch { offset: pos, data });
                proof {
                    assert(spec_models(matches@) =~= spec_models(matches@.drop_last()) + seq![
                        (pos as int, h.subrange(pos as int, pos + m.len())),
                    ]);
                }
                if !find_all {
                    done = true;
                } else {
                    pos = if no_overlap {
                        pos + mask_len
                    } else {
                        pos + 1
                    };
                }
            } else {
                assert(!spec_mask_matches_at(h, m, pos as int)) by {
                    if spec_mask_matches_at(h, m, pos as int) {
                        assert(forall|j: int|
                            0 <= j < m.len() ==> window@[j] == h[pos + j] && (#[trigger] m[j]
                                matches Some(b) ==> window@[j] == b));
                    }
                }
                pos = pos + 1;
            }
        }
        proof {
            if !done {
                assert(spec_mask_matches(h, m, find_all, no_overlap, pos as int).len() == 0);
                assert(spec_models(matches@) =~= spec_mask_matches(h, m, find_all, no_overlap, 0));
            }
        }
        Ok(matches)
    }
}

/// Whether a pattern string is a valid byte-oriented regular expression;
/// names the success of regex's `bytes::Regex::new`, which depends on the
/// pattern alone.
pub uninterp spec fn regex_valid(pattern: Seq<char>) -> bool;

/// The successive match spans a compiled byte regex yields over a
/// haystack; names the output of regex's `find_iter`, which depends on
/// the pattern and the haystack alone.
pub uninterp spec fn regex_match_spans(pattern: Seq<char>, haystack: Seq<u8>) -> Seq<(usize, usize)>;

/// Relies on regex's `bytes::Regex`: `new` accepts exactly the
/// well-formed patterns, and `find_iter` yields the successive leftmost,
/// mutually non-overlapping match spans over the raw bytes, in increasing
/// start order, each within the haystack's bounds.
#[verifier::external_body]
fn regex_find_spans(pattern: &str, haystack: &[u8]) -> (r: Option<Vec<(usize, usize)>>)
    ensures
        r is Some <==> regex_valid(pattern@),
        r matches Some(v) ==> v@ == regex_match_spans(pattern@, haystack@) && (forall|i: int|
            0 <= i < v@.len() ==> (#[trigger] v@[i]).0 <= v@[i].1 <= haystack@.len()) && (forall|
            i: int,
        |
            0 <= i < v@.len() - 1 ==> (#[trigger] v@[i]).1 <= v@[i + 1].0 && v@[i].0 < v@[i
                + 1].0),
{
    match regex::bytes::Regex::new(pattern) {
        Ok(re) => Some(re.find_iter(haystack).map(|m| (m.start(), m.end())).collect()),
        Err(_) => None,
    }
}

/// The matches kept from the regex engine's span list: spans starting
/// before the overlap cursor are skipped under `no_overlap`, one span is
/// taken unless `find_all`, and each kept span yields the haystack bytes
/// it covers.
pub open spec fn spec_regex_filter(
    h: Seq<u8>,
    spans: Seq<(usize, usize)>,
    find_all: bool,
    no_overlap: bool,
    idx: int,
    cursor: int,
) -> Seq<(int, Seq<u8>)>
    decreases spans.len() - idx,
{
    if idx < 0 || idx >= spans.len() {
        Seq::empty()
    } else {
        let s = spans[idx].0 as int;
        let e = spans[idx].1 as int;
        if no_overlap && s < cursor {
            spec_regex_filter(h, spans, find_all, no_overlap, idx + 1, cursor)
        } else {
            seq![(s, h.subrange(s, e))] + (if find_all {
                spec_regex_filter(
                    h,
                    spans,
                    find_all,
                    no_overlap,
                    idx + 1,
                    if no_overlap {
                        e
                    } else {
                        cursor
                    },
                )
            } else {
                Seq::empty()
            })
        }
    }
}

/// The result a successful search yields, by pattern kind.
pub open spec fn spec_search_results(cfg: SearchConfig, h: Seq<u8>) -> Seq<(int, Seq<u8>)> {
    match cfg.pattern {
        SearchPattern::Exact(n) => spec_exact_matches(h, n@, cfg.find_all, cfg.no_overlap, 0),
        SearchPattern::Mask(m) => spec_mask_matches(h, m@, cfg.find_all, cfg.no_overlap, 0),
        SearchPattern::Regex(p) => spec_regex_filter(
            h,
            regex_match_spans(p@, h),
            cfg.find_all,
            cfg.no_overlap,
            0,
            0,
        ),
    }
}

/// Whether a search must fail: an empty needle or mask, or an invalid
/// regular expression.
pub open spec fn spec_search_fails(cfg: SearchConfig) -> bool {
    match cfg.pattern {
        SearchPattern::Exact(n) => n@.len() == 0,
        SearchPattern::Mask(m) => m@.len() == 0,
        SearchPattern::Regex(p) => !regex_valid(p@),
    }
}

impl SearchCommand {
    /// Performs regex-based search over the raw bytes.
    ///
    /// Returns a `Parse` error exactly when the pattern does not compile.
    /// Under `no_overlap`, spans starting before the end of the last kept
    /// match are skipped.
    pub(crate) fn search_regex(&self, haystack: &[u8], pattern: &str) -> (r: Result<
        Vec<SearchMatch>,
        BinfiddleError,
    >)
        ensures
            r is Ok <==> regex_valid(pattern@),
            r matches Err(e) ==> (e matches BinfiddleError::Parse(msg) && msg@ == (
            "Invalid regex pattern: '")@ + pattern@ + ("'")@),
            r matches Ok(v) ==> spec_models(v@) == spec_regex_filter(
                haystack@,
                regex_match_spans(pattern@, haystack@),
                self.spec_config().find_all,
                self.spec_config().no_overlap,
                0,
                0,
            ),
    {
        let spans = match regex_find_spans(pattern, haystack) {
            Some(v) => v,
            None => {
                return Err(BinfiddleError::parse("Invalid regex pattern: '", pattern, "'"));
            },
        };
        let find_all = self.config.find_all;
        let no_overlap = self.config.no_overlap;
        let ghost h = haystack@;
        let ghost sp = regex_match_spans(pattern@, haystack@);
        let mut matches: Vec<SearchMatch> = Vec::new();
        let mut cursor: usize = 0;
        let mut idx: usize = 0;
        let mut done = false;
        let n = spans.len();
        while !done && idx < n
            invariant
                n == spans@.len(),
                idx <= n,
                h == haystack@,
                sp == spans@,
                forall|i: int| 0 <= i < sp.len() ==> (#[trigger] sp[i]).0 <= sp[i].1 <= h.len(),
                !done ==> spec_models(matches@) + spec_regex_filter(
                    h,
                    sp,
                    find_all,
                    no_overlap,
                    idx as int,
                    cursor as int,
                ) == spec_regex_filter(h, sp, find_all, no_overlap, 0, 0),
                done ==> spec_models(matches@) == spec_regex_filter(
                    h,
                    sp,
                    find_all,
                    no_overlap,
                    0,
                    0,
                ),
            decreases
                    (if done {
                        0int
                    } else {
                        1int
                    }),
                    n - idx,
        {
            let (s, e) = spans[idx];
            if no_overlap && s < cursor {
                idx = idx + 1;
            } else {
                let data = slice_to_vec(slice_subrange(haystack, s, e));
                matches.push(SearchMatch { offset: s, data });
                proof {
                    assert(spec_models(matches@) =~= spec_models(matches@.drop_last()) + seq![
                        (s as int, h.subrange(s as int, e as int)),
                    ]);
                }
                if !find_all {
                    done = true;
                } else {
                    if no_overlap {
                        cursor = e;
                    }
                    idx = idx + 1;
                }
            }
        }
        proof {
            if !done {
                assert(spec_models(matches@) =~= spec_regex_filter(
                    h,
                    sp,
                    find_all,
                    no_overlap,
                    0,
                    0,
                ));
            }
        }
        Ok(matches)
    }

    /// Performs the search operation on the given data, by the configured
    /// pattern kind.
    ///
    /// Fails exactly on an empty needle or mask (`InvalidInput`) or an
    /// invalid regular expression (`Parse`); otherwise the matches come in
    /// the order the per-kind scans produce them.
    pub fn search(&self, data: &[u8]) -> (r: Result<Vec<SearchMatch>, BinfiddleError>)
        ensures
            r is Err <==> spec_search_fails(self.spec_config()),
            r matches Ok(v) ==> spec_models(v@) == spec_search_results(self.spec_config(), data@),
            r matches Err(e) ==> match self.spec_config().pattern {
                SearchPattern::Exact(_) => e matches BinfiddleError::InvalidInput(_),
                SearchPattern::Mask(_) => e matches BinfiddleError::InvalidInput(_),
                SearchPattern::Regex(_) => e matches BinfiddleError::Parse(_),
            },
    {
        match &self.config.pattern {
            SearchPattern::Exact(needle) => self.search_exact(data, needle.as_slice()),
            SearchPattern::Regex(pattern) => self.search_regex(data, pattern.as_str()),
            SearchPattern::Mask(mask) => self.search_mask(data, mask.as_slice()),
        }
    }
}

/// What the exact scan's matches look like: every match is an occurrence
/// of the needle at or after the scan start carrying the needle's bytes;
/// offsets are strictly increasing; and under `no_overlap` no two matches
/// share a byte.
pub proof fn lemma_exact_matches_ordered(
    h: Seq<u8>,
    n: Seq<u8>,
    find_all: bool,
    no_overlap: bool,
    pos: int,
)
    requires
        n.len() >= 1,
        pos >= 0,
    ensures
        forall|i: int|
            0 <= i < spec_exact_matches(h, n, find_all, no_overlap, pos).len() ==> {
                let e = #[trigger] spec_exact_matches(h, n, find_all, no_overlap, pos)[i];
                pos <= e.0 && spec_occurs_at(h, n, e.0) && e.1 == n
            },
        forall|i: int|
            0 <= i < spec_exact_matches(h, n, find_all, no_overlap, pos).len() - 1 ==> (
            #[trigger] spec_exact_matches(h, n, find_all, no_overlap, pos)[i]).0 + (if no_overlap {
                n.len() as int
            } else {
                1
            }) <= spec_exact_matches(h, n, find_all, no_overlap, pos)[i + 1].0,
    decreases h.len() - pos,
{
    let cur = spec_exact_matches(h, n, find_all, no_overlap, pos);
    if pos + n.len() <= h.len() {
        if spec_occurs_at(h, n, pos) {
            let step = if no_overlap {
                n.len() as int
            } else {
                1
            };
            if find_all {
                lemma_exact_matches_ordered(h, n, find_all, no_overlap, pos + step);
                let tail = spec_exact_matches(h, n, find_all, no_overlap, pos + step);
                assert(cur == seq![(pos, n)] + tail);
                assert(cur[0] == (pos, n));
                assert(forall|i: int| 1 <= i < cur.len() ==> cur[i] == tail[i - 1]);
            } else {
                assert(cur =~= seq![(pos, n)]);
            }
        } else {
            lemma_exact_matches_ordered(h, n, find_all, no_overlap, pos + 1);
            assert(cur == spec_exact_matches(h, n, find_all, no_overlap, pos + 1));
        }
    }
}

/// What the mask scan's matches look like: every match is a window where
/// the mask matches, starting at or after the scan start and carrying the
/// window's bytes; offsets are strictly increasing; and under
/// `no_overlap` no two matches share a byte.
pub proof fn lemma_mask_matches_ordered(
    h: Seq<u8>,
    m: Seq<Option<u8>>,
    find_all: bool,
    no_overlap: bool,
    pos: int,
)
    requires
        m.len() >= 1,
        pos >= 0,
    ensures
        forall|i: int|
            0 <= i < spec_mask_matches(h, m, find_all, no_overlap, pos).len() ==> {
                let e = #[trigger] spec_mask_matches(h, m, find_all, no_overlap, pos)[i];
                pos <= e.0 && spec_mask_matches_at(h, m, e.0) && e.1 == h.subrange(
                    e.0,
                    e.0 + m.len(),
                )
            },
        forall|i: int|
            0 <= i < spec_mask_matches(h, m, find_all, no_overlap, pos).len() - 1 ==> (
            #[trigger] spec_mask_matches(h, m, find_all, no_overlap, pos)[i]).0 + (if no_overlap {
                m.len() as int
            } else {
                1
            }) <= spec_mask_matches(h, m, find_all, no_overlap, pos)[i + 1].0,
    decreases h.len() - pos,
{
    let cur = spec_mask_matches(h, m, find_all, no_overlap, pos);
    if pos + m.len() <= h.len() {
        if spec_mask_matches_at(h, m, pos) {
            let step = if no_overlap {
                m.len() as int
            } else {
                1
            };
            let head = (pos, h.subrange(pos, pos + m.len() as int));
            if find_all {
                lemma_mask_matches_ordered(h, m, find_all, no_overlap, pos + step);
                let tail = spec_mask_matches(h, m, find_all, no_overlap, pos + step);
                assert(cur == seq![head] + tail);
                assert(cur[0] == head);
                assert(forall|i: int| 1 <= i < cur.len() ==> cur[i] == tail[i - 1]);
            } else {
                assert(cur =~= seq![head]);
            }
        } else {
            lemma_mask_matches_ordered(h, m, find_all, no_overlap, pos + 1);
            assert(cur == spec_mask_matches(h, m, find_all, no_overlap, pos + 1));
        }
    }
}

} // verus!
