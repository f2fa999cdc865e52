//! Byte-level comparison of two buffers, grouping of the differences into
//! hunks, and rendering of the result in several textual formats.

use crate::color::ColorMode;
use crate::errors::BinfiddleError;
use crate::text::{eq_ignore_ascii_case, spec_ci_eq, str_to_chars};
use vstd::prelude::*;

verus! {

/// Output format for diff results.
#[derive(Debug, Clone, Copy, PartialEq, Eq, Structural)]
pub enum DiffFormat {
    /// Simple format: one line per difference showing offset and differing bytes
    Simple,
    /// Unified format: similar to text unified diff, with context lines
    Unified,
    /// Side-by-side format: two column view comparing both files
    SideBySide,
    /// Patch format: machine-readable format for applying patches
    Patch,
    /// Summary format: statistical overview without byte-level details
    Summary,
}

impl Default for DiffFormat {
    fn default() -> (r: Self)
        ensures
            r == DiffFormat::Simple,
    {
        DiffFormat::Simple
    }
}

/// The format a given keyword names, `None` for an unknown keyword.
/// `auto` maps to `Simple`; the caller replaces it after counting differences.
pub open spec fn spec_diff_format_of(s: Seq<char>) -> Option<DiffFormat> {
    if spec_ci_eq(s, ("simple")@) {
        Some(DiffFormat::Simple)
    } else if spec_ci_eq(s, ("unified")@) {
        Some(DiffFormat::Unified)
    } else if spec_ci_eq(s, ("side-by-side")@) || spec_ci_eq(s, ("sidebyside")@) || spec_ci_eq(
        s,
        ("side")@,
    ) {
        Some(DiffFormat::SideBySide)
    } else if spec_ci_eq(s, ("patch")@) {
        Some(DiffFormat::Patch)
    } else if spec_ci_eq(s, ("summary")@) {
        Some(DiffFormat::Summary)
    } else if spec_ci_eq(s, ("auto")@) {
        Some(DiffFormat::Simple)
    } else {
        None
    }
}

/// The format auto-selection rule: `Simple` below one difference per hundred
/// bytes, `Unified` below one per two, `Summary` beyond, `Simple` at the edges.
pub open spec fn spec_auto_select(total_diffs: nat, file_size: nat) -> DiffFormat {
    if file_size == 0 || total_diffs == 0 {
        DiffFormat::Simple
    } else if 100 * total_diffs < file_size {
        DiffFormat::Simple
    } else if 2 * total_diffs < file_size {
        DiffFormat::Unified
    } else {
        DiffFormat::Summary
    }
}

impl DiffFormat {
    /// Parse a format string into a `DiffFormat`, case-insensitively.
    ///
    /// Returns `InvalidInput` exactly on keywords that name no format.
    pub fn from_str(s: &str) -> (r: Result<Self, BinfiddleError>)
        ensures
            match r {
                Ok(f) => spec_diff_format_of(s@) == Some(f),
                Err(e) => spec_diff_format_of(s@) is None && e matches
                    BinfiddleError::InvalidInput(_),
            },
    {
        let v = str_to_chars(s);
        if eq_ignore_ascii_case(&v, "simple") {
            Ok(DiffFormat::Simple)
        } else if eq_ignore_ascii_case(&v, "unified") {
            Ok(DiffFormat::Unified)
        } else if eq_ignore_ascii_case(&v, "side-by-side") || eq_ignore_ascii_case(&v, "sidebyside")
            || eq_ignore_ascii_case(&v, "side") {
            Ok(DiffFormat::SideBySide)
        } else if eq_ignore_ascii_case(&v, "patch") {
            Ok(DiffFormat::Patch)
        } else if eq_ignore_ascii_case(&v, "summary") {
            Ok(DiffFormat::Summary)
        } else if eq_ignore_ascii_case(&v, "auto") {
            Ok(DiffFormat::Simple)
        } else {
            Err(BinfiddleError::invalid_input(
                "Unknown diff format: '",
                s,
                "'. Supported: simple, unified, side-by-side, patch, summary, auto",
            ))
        }
    }

    /// Automatically selects the best format based on difference density.
    pub fn auto_select(total_diffs: usize, file_size: usize) -> (r: Self)
        ensures
            r == spec_auto_select(total_diffs as nat, file_size as nat),
    {
        if file_size == 0 || total_diffs == 0 {
            return DiffFormat::Simple;
        }
        if (total_diffs as u128) * 100 < file_size as u128 {
            DiffFormat::Simple
        } else if (total_diffs as u128) * 2 < file_size as u128 {
            DiffFormat::Unified
        } else {
            DiffFormat::Summary
        }
    }
}

/// Represents a single difference between two files.
#[derive(Debug, Clone, PartialEq, Eq)]
pub struct DiffEntry {
    /// Byte offset where the difference occurs
    pub offset: usize,
    /// Byte value in the first file (None if offset is past EOF)
    pub byte1: Option<u8>,
    /// Byte value in the second file (None if offset is past EOF)
    pub byte2: Option<u8>,
}

impl DiffEntry {
    /// A byte that only the first file holds at this offset.
    pub open spec fn spec_is_deletion(&self) -> bool {
        self.byte1 is Some && self.byte2 is None
    }

    /// A byte that only the second file holds at this offset.
    pub open spec fn spec_is_addition(&self) -> bool {
        self.byte1 is None && self.byte2 is Some
    }

    /// A byte both files hold at this offset.
    pub open spec fn spec_is_change(&self) -> bool {
        self.byte1 is Some && self.byte2 is Some
    }

    /// Creates a new diff entry.
    pub fn new(offset: usize, byte1: Option<u8>, byte2: Option<u8>) -> (r: Self)
        ensures
            r == (DiffEntry { offset, byte1, byte2 }),
    {
        DiffEntry { offset, byte1, byte2 }
    }

    /// Returns true if this represents a byte that only exists in file1.
    pub fn is_deletion(&self) -> (r: bool)
        ensures
            r == self.spec_is_deletion(),
    {
        self.byte1.is_some() && self.byte2.is_none()
    }

    /// Returns true if this represents a byte that only exists in file2.
    pub fn is_addition(&self) -> (r: bool)
        ensures
            r == self.spec_is_addition(),
    {
        self.byte1.is_none() && self.byte2.is_some()
    }

    /// Returns true if this represents a byte that differs between files.
    pub fn is_change(&self) -> (r: bool)
        ensures
            r == self.spec_is_change(),
    {
        self.byte1.is_some() && self.byte2.is_some()
    }
}

/// Configuration for the diff command.
#[derive(Debug, Clone)]
pub struct DiffConfig {
    /// Output format for differences
    pub format: DiffFormat,
    /// Number of context bytes/lines to show (for unified format)
    pub context: usize,
    /// Color output mode
    pub color: ColorMode,
    /// Offset ranges to ignore during comparison
    pub ignore_ranges: Vec<(usize, usize)>,
    /// Bytes per line in output (for unified and side-by-side)
    pub width: usize,
}

impl Default for DiffConfig {
    fn default() -> (r: Self)
        ensures
            r.format == DiffFormat::Simple,
            r.context == 3,
            r.color == ColorMode::Auto,
            r.ignore_ranges@ == Seq::<(usize, usize)>::empty(),
            r.width == 16,
    {
        DiffConfig {
            format: DiffFormat::Simple,
            context: 3,
            color: ColorMode::Auto,
            ignore_ranges: Vec::new(),
            width: 16,
        }
    }
}

/// The byte a buffer holds at an offset, `None` past its end.
pub open spec fn spec_byte_at(d: Seq<u8>, o: int) -> Option<u8> {
    if 0 <= o < d.len() {
        Some(d[o])
    } else {
        None
    }
}

/// Whether an offset falls inside one of the half-open ignore ranges.
pub open spec fn spec_ignored(rs: Seq<(usize, usize)>, o: int) -> bool {
    exists|j: int| 0 <= j < rs.len() && (#[trigger] rs[j]).0 <= o < rs[j].1
}

/// The ordered difference list over offsets `0 .. upto`.
pub open spec fn spec_compare(d1: Seq<u8>, d2: Seq<u8>, rs: Seq<(usize, usize)>, upto: int) -> Seq<
    DiffEntry,
>
    decreases upto,
{
    if upto <= 0 {
        Seq::empty()
    } else {
        let o = upto - 1;
        let prefix = spec_compare(d1, d2, rs, o);
        if !spec_ignored(rs, o) && spec_byte_at(d1, o) != spec_byte_at(d2, o) {
            prefix + seq![
                DiffEntry {
                    offset: o as usize,
                    byte1: spec_byte_at(d1, o),
                    byte2: spec_byte_at(d2, o),
                },
            ]
        } else {
            prefix
        }
    }
}

/// The diff command implementation.
#[derive(Debug)]
pub struct DiffCommand {
    config: DiffConfig,
}

impl DiffCommand {
    /// Creates a new DiffCommand with the given configuration.
    pub fn new(config: DiffConfig) -> (r: Self)
        ensures
            r.spec_config() == config,
    {
        DiffCommand { config }
    }

    /// The configuration this command renders and compares under.
    pub closed spec fn spec_config(&self) -> DiffConfig {
        self.config
    }

    /// Read access to the configuration for the rendering half of the command.
    pub(crate) fn config(&self) -> (r: &DiffConfig)
        ensures
            *r == self.spec_config(),
    {
        &self.config
    }

    /// Checks if an offset falls within any ignored range.
    fn is_ignored(&self, offset: usize) -> (r: bool)
        ensures
            r == spec_ignored(self.config.ignore_ranges@, offset as int),
    {
        let rs = &self.config.ignore_ranges;
        let n = rs.len();
        let mut j: usize = 0;
        while j < n
            invariant
                j <= n,
                n == rs@.len(),
                rs@ == self.config.ignore_ranges@,
                forall|k: int| 0 <= k < j ==> !((#[trigger] rs@[k]).0 <= offset < rs@[k].1),
            decreases n - j,
        {
            let (s, e) = rs[j];
            if s <= offset && offset < e {
                assert(rs@[j as int].0 <= offset < rs@[j as int].1);
                return true;
            }
            j = j + 1;
        }
        false
    }

    /// Compares two byte slices and returns the ordered list of differences.
    ///
    /// One entry per offset below the longer length that is not ignored and
    /// where the two buffers disagree; comparing a buffer with itself yields
    /// no entries.
    pub fn compare(&self, data1: &[u8], data2: &[u8]) -> (r: Vec<DiffEntry>)
        ensures
            r@ == spec_compare(
                data1@,
                data2@,
                self.spec_config().ignore_ranges@,
                vstd::math::max(data1@.len() as int, data2@.len() as int),
            ),
            data1@ == data2@ ==> r@.len() == 0,
    {
        let len1 = data1.len();
        let len2 = data2.len();
        let max_len = if len1 >= len2 {
            len1
        } else {
            len2
        };
        let mut differences: Vec<DiffEntry> = Vec::new();
        let mut offset: usize = 0;
        while offset < max_len
            invariant
                offset <= max_len,
                len1 == data1@.len(),
                len2 == data2@.len(),
                max_len == vstd::math::max(len1 as int, len2 as int),
                differences@ == spec_compare(
                    data1@,
                    data2@,
                    self.config.ignore_ranges@,
                    offset as int,
                ),
            decreases max_len - offset,
        {
            if !self.is_ignored(offset) {
                let byte1: Option<u8> = if offset < len1 {
                    Some(data1[offset])
                } else {
                    None
                };
                let byte2: Option<u8> = if offset < len2 {
                    Some(data2[offset])
                } else {
                    None
                };
                let differ = match (byte1, byte2) {
                    (Some(a), Some(b)) => a != b,
                    (None, None) => false,
                    _ => true,
                };
                if differ {
                    differences.push(DiffEntry::new(offset, byte1, byte2));
                }
            }
            offset = offset + 1;
            assert(differences@ =~= spec_compare(
                data1@,
                data2@,
                self.config.ignore_ranges@,
                offset as int,
            ));
        }
        proof {
            if data1@ == data2@ {
                lemma_compare_self(data1@, self.config.ignore_ranges@, max_len as int);
            }
        }
        differences
    }
}

/// Comparing a buffer with itself yields no differences.
proof fn lemma_compare_self(d: Seq<u8>, rs: Seq<(usize, usize)>, upto: int)
    ensures
        spec_compare(d, d, rs, upto).len() == 0,
    decreases upto,
{
    if upto > 0 {
        lemma_compare_self(d, rs, upto - 1);
    }
}

/// What each entry of a difference list holds: the bytes the two buffers
/// carry at its offset, which disagree there, at an offset that is not
/// ignored; and the entries come in strictly increasing offset order.
pub proof fn lemma_compare_entries(d1: Seq<u8>, d2: Seq<u8>, rs: Seq<(usize, usize)>, upto: int)
    requires
        upto <= usize::MAX,
    ensures
        forall|i: int|
            0 <= i < spec_compare(d1, d2, rs, upto).len() ==> {
                let e = #[trigger] spec_compare(d1, d2, rs, upto)[i];
                &&& e.offset < upto
                &&& e.byte1 == spec_byte_at(d1, e.offset as int)
                &&& e.byte2 == spec_byte_at(d2, e.offset as int)
                &&& e.byte1 != e.byte2
                &&& !spec_ignored(rs, e.offset as int)
            },
        forall|i: int, j: int|
            0 <= i < j < spec_compare(d1, d2, rs, upto).len() ==> #[trigger] spec_compare(
                d1,
                d2,
                rs,
                upto,
            )[i].offset < #[trigger] spec_compare(d1, d2, rs, upto)[j].offset,
    decreases upto,
{
    if upto > 0 {
        lemma_compare_entries(d1, d2, rs, upto - 1);
        let prev = spec_compare(d1, d2, rs, upto - 1);
        let cur = spec_compare(d1, d2, rs, upto);
        assert(forall|i: int| 0 <= i < prev.len() ==> #[trigger] cur[i] == prev[i]);
        let o = upto - 1;
        if !spec_ignored(rs, o) && spec_byte_at(d1, o) != spec_byte_at(d2, o) {
            let e = DiffEntry {
                offset: o as usize,
                byte1: spec_byte_at(d1, o),
                byte2: spec_byte_at(d2, o),
            };
            assert(cur == prev + seq![e]);
            assert(cur[prev.len() as int] == e);
        } else {
            assert(cur == prev);
        }
    }
}

/// Every entry of a difference list is exactly one of a change, a
/// deletion and an addition.
pub proof fn lemma_compare_classification(
    d1: Seq<u8>,
    d2: Seq<u8>,
    rs: Seq<(usize, usize)>,
    upto: int,
)
    requires
        upto <= usize::MAX,
    ensures
        forall|i: int|
            0 <= i < spec_compare(d1, d2, rs, upto).len() ==> {
                let e = #[trigger] spec_compare(d1, d2, rs, upto)[i];
                &&& e.spec_is_change() || e.spec_is_deletion() || e.spec_is_addition()
                &&& !(e.spec_is_change() && e.spec_is_deletion())
                &&& !(e.spec_is_change() && e.spec_is_addition())
                &&& !(e.spec_is_deletion() && e.spec_is_addition())
            },
{
    lemma_compare_entries(d1, d2, rs, upto);
}

/// How many offsets below `upto` are not ignored and hold disagreeing bytes.
pub open spec fn spec_count_differing(
    d1: Seq<u8>,
    d2: Seq<u8>,
    rs: Seq<(usize, usize)>,
    upto: int,
) -> nat
    decreases upto,
{
    if upto <= 0 {
        0
    } else {
        spec_count_differing(d1, d2, rs, upto - 1) + if !spec_ignored(rs, upto - 1) && spec_byte_at(
            d1,
            upto - 1,
        ) != spec_byte_at(d2, upto - 1) {
            1nat
        } else {
            0nat
        }
    }
}

/// The difference list holds one entry per non-ignored offset at which the
/// two buffers disagree.
pub proof fn lemma_compare_length(d1: Seq<u8>, d2: Seq<u8>, rs: Seq<(usize, usize)>, upto: int)
    ensures
        spec_compare(d1, d2, rs, upto).len() == spec_count_differing(d1, d2, rs, upto),
    decreases upto,
{
    if upto > 0 {
        lemma_compare_length(d1, d2, rs, upto - 1);
    }
}

/// The gap between a candidate offset and the last offset of the current
/// hunk, clamped at zero.
pub open spec fn spec_gap(o: int, last: int) -> int {
    if o >= last {
        o - last
    } else {
        0
    }
}

/// The adaptive merge rule: a candidate entry joins the current hunk of
/// `n` entries when the gap to the hunk's last offset is small enough,
/// with larger hunks tolerating larger gaps, and the configured context
/// window always honoured.
pub open spec fn spec_should_merge(n: nat, gap: int, context: nat) -> bool {
    ||| gap <= 16
    ||| n > 100 && gap <= 256
    ||| n > 20 && gap <= 128
    ||| gap <= 64
    ||| gap <= 2 * context + 1
}

/// The grouping state after consuming the first `i` entries: the closed
/// hunks, and the still-open hunk (empty only before the first entry).
pub open spec fn spec_hunks_rec(entries: Seq<DiffEntry>, context: nat, i: int) -> (Seq<Seq<usize>>,
    Seq<usize>)
    decreases i,
{
    if i <= 0 {
        (Seq::empty(), Seq::empty())
    } else {
        let (hs, cur) = spec_hunks_rec(entries, context, i - 1);
        let idx = (i - 1) as usize;
        if cur.len() == 0 {
            (hs, seq![idx])
        } else {
            let last_idx = cur.last();
            let gap = spec_gap(entries[i - 1].offset as int, entries[last_idx as int].offset as int);
            if spec_should_merge(cur.len(), gap, context) {
                (hs, cur.push(idx))
            } else {
                (hs.push(cur), seq![idx])
            }
        }
    }
}

/// The full grouping of a difference list into hunks of entry indices.
pub open spec fn spec_group_into_hunks(entries: Seq<DiffEntry>, context: nat) -> Seq<Seq<usize>> {
    let (hs, cur) = spec_hunks_rec(entries, context, entries.len() as int);
    if cur.len() == 0 {
        hs
    } else {
        hs.push(cur)
    }
}

/// The index sequence `0, 1, .., n-1`.
pub open spec fn spec_index_seq(n: int) -> Seq<usize> {
    Seq::new(n as nat, |i: int| i as usize)
}

proof fn lemma_hunks_rec_partition(entries: Seq<DiffEntry>, context: nat, i: int)
    requires
        0 <= i <= usize::MAX,
    ensures
        spec_hunks_rec(entries, context, i).0.flatten() + spec_hunks_rec(entries, context, i).1
            =~= spec_index_seq(i),
        forall|h: int|
            0 <= h < spec_hunks_rec(entries, context, i).0.len() ==> (#[trigger] spec_hunks_rec(
                entries,
                context,
                i,
            ).0[h]).len() > 0,
        i > 0 ==> spec_hunks_rec(entries, context, i).1.len() > 0,
        i == 0 ==> spec_hunks_rec(entries, context, i).0.len() == 0 && spec_hunks_rec(
            entries,
            context,
            i,
        ).1.len() == 0,
        forall|h: int, k: int|
            0 <= h < spec_hunks_rec(entries, context, i).0.len() && 0 <= k < spec_hunks_rec(
                entries,
                context,
                i,
            ).0[h].len() ==> #[trigger] spec_hunks_rec(entries, context, i).0[h][k] < i,
        forall|k: int|
            0 <= k < spec_hunks_rec(entries, context, i).1.len() ==> #[trigger] spec_hunks_rec(
                entries,
                context,
                i,
            ).1[k] < i,
    decreases i,
{
    broadcast use Seq::lemma_flatten_push;

    if i > 0 {
        lemma_hunks_rec_partition(entries, context, i - 1);
        assert(spec_index_seq(i) =~= spec_index_seq(i - 1).push((i - 1) as usize));
    } else {
        assert(Seq::<Seq<usize>>::empty().flatten() =~= Seq::<usize>::empty());
    }
}

/// Grouping into hunks partitions the difference list: the same entries and
/// context always give the same hunks (the grouping is a function of them
/// alone), every hunk is non-empty, and reading the hunks in order spells
/// out the entry indices `0, 1, ..` each exactly once.
pub proof fn lemma_hunks_partition(entries: Seq<DiffEntry>, context: nat)
    requires
        entries.len() <= usize::MAX,
    ensures
        forall|h: int|
            0 <= h < spec_group_into_hunks(entries, context).len() ==> (
            #[trigger] spec_group_into_hunks(entries, context)[h]).len() > 0,
        spec_group_into_hunks(entries, context).flatten() =~= spec_index_seq(entries.len() as int),
        forall|h: int, k: int|
            0 <= h < spec_group_into_hunks(entries, context).len() && 0 <= k < spec_group_into_hunks(
                entries,
                context,
            )[h].len() ==> #[trigger] spec_group_into_hunks(entries, context)[h][k] < entries.len(),
{
    broadcast use Seq::lemma_flatten_push;

    lemma_hunks_rec_partition(entries, context, entries.len() as int);
}

impl DiffCommand {
    /// Groups differences into hunks with adaptive gap merging; each hunk is
    /// the list of indices (into `differences`) it absorbed, in order.
    ///
    /// Entries are consumed in order; the open hunk absorbs the next entry
    /// when the gap from its last entry satisfies the adaptive rule, else it
    /// is closed and a new hunk starts.
    pub fn group_into_hunks(&self, differences: &[DiffEntry]) -> (r: Vec<Vec<usize>>)
        ensures
            r.deep_view() == spec_group_into_hunks(differences@, self.spec_config().context as nat),
    {
        let ghost ctx = self.config.context as nat;
        let n = differences.len();
        let mut hunks: Vec<Vec<usize>> = Vec::new();
        let mut current: Vec<usize> = Vec::new();
        let mut idx: usize = 0;
        while idx < n
            invariant
                idx <= n,
                n == differences@.len(),
                ctx == self.config.context as nat,
                (hunks.deep_view(), current.deep_view()) == spec_hunks_rec(
                    differences@,
                    ctx,
                    idx as int,
                ),
                forall|k: int| 0 <= k < current@.len() ==> current@[k] < idx,
            decreases n - idx,
        {
            proof {
                lemma_hunks_rec_partition(differences@, ctx, idx as int);
            }
            if current.len() == 0 {
                current.push(idx);
            } else {
                let last_idx = current[current.len() - 1];
                let last_offset = differences[last_idx].offset;
                let this_offset = differences[idx].offset;
                let gap: usize = if this_offset >= last_offset {
                    this_offset - last_offset
                } else {
                    0
                };
                let cur_len = current.len();
                let merge = gap <= 16 || (cur_len > 100 && gap <= 256) || (cur_len > 20 && gap
                    <= 128) || gap <= 64 || {
                    let c2 = self.config.context as u128;
                    (gap as u128) <= 2 * c2 + 1
                };
                proof {
                    assert(current.deep_view().last() == current@[current@.len() - 1]);
                }
                if merge {
                    current.push(idx);
                } else {
                    hunks.push(current);
                    let mut fresh: Vec<usize> = Vec::new();
                    fresh.push(idx);
                    current = fresh;
                }
            }
            proof {
                assert(hunks.deep_view() =~= spec_hunks_rec(differences@, ctx, idx + 1).0);
                assert(current.deep_view() =~= spec_hunks_rec(differences@, ctx, idx + 1).1);
            }
            idx = idx + 1;
        }
        if current.len() > 0 {
            hunks.push(current);
        }
        proof {
            assert(hunks.deep_view() =~= spec_group_into_hunks(differences@, ctx));
        }
        hunks
    }
}

} // verus!
