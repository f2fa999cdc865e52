//! Statistical analysis of byte buffers: the byte-frequency table every
//! metric is computed from, the Index of Coincidence as an exact fraction,
//! the descending-count histogram, and fixed-size block decomposition.

use crate::errors::BinfiddleError;
use crate::text::{eq_ignore_ascii_case, spec_ci_eq, str_to_chars};
use vstd::prelude::*;

verus! {

/// Analysis type to perform.
#[derive(Debug, Clone, Copy, PartialEq, Eq, Structural)]
pub enum AnalysisType {
    /// Shannon entropy calculation
    Entropy,
    /// Byte frequency histogram
    Histogram,
    /// Index of Coincidence (useful for cryptanalysis)
    IndexOfCoincidence,
}

/// The analysis a given keyword names, `None` for an unknown keyword.
pub open spec fn spec_analysis_type_of(s: Seq<char>) -> Option<AnalysisType> {
    if spec_ci_eq(s, ("entropy")@) {
        Some(AnalysisType::Entropy)
    } else if spec_ci_eq(s, ("histogram")@) || spec_ci_eq(s, ("hist")@) {
        Some(AnalysisType::Histogram)
    } else if spec_ci_eq(s, ("ic")@) || spec_ci_eq(s, ("ioc")@) || spec_ci_eq(
        s,
        ("index-of-coincidence")@,
    ) {
        Some(AnalysisType::IndexOfCoincidence)
    } else {
        None
    }
}

impl AnalysisType {
    /// Parses an analysis type from a string, case-insensitively.
    pub fn from_str(s: &str) -> (r: Result<Self, BinfiddleError>)
        ensures
            match r {
                Ok(t) => spec_analysis_type_of(s@) == Some(t),
                Err(e) => spec_analysis_type_of(s@) is None && e matches
                    BinfiddleError::InvalidInput(_),
            },
    {
        let v = str_to_chars(s);
        if eq_ignore_ascii_case(&v, "entropy") {
            Ok(AnalysisType::Entropy)
        } else if eq_ignore_ascii_case(&v, "histogram") || eq_ignore_ascii_case(&v, "hist") {
            Ok(AnalysisType::Histogram)
        } else if eq_ignore_ascii_case(&v, "ic") || eq_ignore_ascii_case(&v, "ioc")
            || eq_ignore_ascii_case(&v, "index-of-coincidence") {
            Ok(AnalysisType::IndexOfCoincidence)
        } else {
            Err(
                BinfiddleError::invalid_input(
                    "Unknown analysis type: '",
                    s,
                    "'. Valid types: entropy, histogram, ic",
                ),
            )
        }
    }
}

/// Output format for analysis results.
#[derive(Debug, Clone, Copy, PartialEq, Eq, Structural)]
pub enum OutputFormat {
    /// Human-readable text format
    Human,
    /// Comma-separated values
    Csv,
    /// JSON format
    Json,
}

/// The output format a given keyword names, `None` for an unknown keyword.
pub open spec fn spec_output_format_of(s: Seq<char>) -> Option<OutputFormat> {
    if spec_ci_eq(s, ("human")@) || spec_ci_eq(s, ("text")@) {
        Some(OutputFormat::Human)
    } else if spec_ci_eq(s, ("csv")@) {
        Some(OutputFormat::Csv)
    } else if spec_ci_eq(s, ("json")@) {
        Some(OutputFormat::Json)
    } else {
        None
    }
}

impl OutputFormat {
    /// Parses an output format from a string, case-insensitively.
    pub fn from_str(s: &str) -> (r: Result<Self, BinfiddleError>)
        ensures
            match r {
                Ok(t) => spec_output_format_of(s@) == Some(t),
                Err(e) => spec_output_format_of(s@) is None && e matches
                    BinfiddleError::InvalidInput(_),
            },
    {
        let v = str_to_chars(s);
        if eq_ignore_ascii_case(&v, "human") || eq_ignore_ascii_case(&v, "text") {
            Ok(OutputFormat::Human)
        } else if eq_ignore_ascii_case(&v, "csv") {
            Ok(OutputFormat::Csv)
        } else if eq_ignore_ascii_case(&v, "json") {
            Ok(OutputFormat::Json)
        } else {
            Err(
                BinfiddleError::invalid_input(
                    "Unknown output format: '",
                    s,
                    "'. Valid formats: human, csv, json",
                ),
            )
        }
    }
}

/// Configuration for analysis operations.
#[derive(Debug, Clone)]
pub struct AnalyzeConfig {
    /// Type of analysis to perform
    pub analysis_type: AnalysisType,
    /// Block size for block-based analysis (0 = entire file)
    pub block_size: usize,
    /// Output format
    pub format: OutputFormat,
    /// Optional range restriction (start, end)
    pub range: Option<(usize, usize)>,
}

impl Default for AnalyzeConfig {
    fn default() -> (r: Self)
        ensures
            r.analysis_type == AnalysisType::Entropy,
            r.block_size == 256,
            r.format == OutputFormat::Human,
            r.range is None,
    {
        AnalyzeConfig {
            analysis_type: AnalysisType::Entropy,
            block_size: 256,
            format: OutputFormat::Human,
            range: None,
        }
    }
}

/// How many bytes of value `b` a buffer prefix holds.
pub open spec fn spec_count_byte(s: Seq<u8>, upto: int, b: int) -> nat
    decreases upto,
{
    if upto <= 0 {
        0
    } else {
        spec_count_byte(s, upto - 1, b) + if s[upto - 1] == b {
            1nat
        } else {
            0nat
        }
    }
}

/// The sum `Σ n_b (n_b − 1)` over byte values `0 ≤ b < upto_val`, the
/// Index of Coincidence's numerator.
pub open spec fn spec_ic_num(s: Seq<u8>, upto_val: int) -> int
    decreases upto_val,
{
    if upto_val <= 0 {
        0
    } else {
        let n = spec_count_byte(s, s.len() as int, upto_val - 1) as int;
        spec_ic_num(s, upto_val - 1) + n * (n - 1)
    }
}

/// How many bytes of a buffer prefix have a value below `k`.
pub open spec fn spec_count_lt(s: Seq<u8>, upto: int, k: int) -> nat
    decreases upto,
{
    if upto <= 0 {
        0
    } else {
        spec_count_lt(s, upto - 1, k) + if (s[upto - 1] as int) < k {
            1nat
        } else {
            0nat
        }
    }
}

/// The sum of the per-value counts below `k`.
pub open spec fn spec_count_sum(s: Seq<u8>, k: int) -> int
    decreases k,
{
    if k <= 0 {
        0
    } else {
        spec_count_sum(s, k - 1) + spec_count_byte(s, s.len() as int, k - 1)
    }
}

/// Counting bytes below `k + 1` adds the count of value `k` to the count
/// below `k`.
proof fn lemma_count_lt_split(s: Seq<u8>, upto: int, k: int)
    ensures
        spec_count_lt(s, upto, k + 1) == spec_count_lt(s, upto, k) + spec_count_byte(s, upto, k),
    decreases upto,
{
    if upto > 0 {
        lemma_count_lt_split(s, upto - 1, k);
    }
}

/// Nothing lies below a non-positive bound.
proof fn lemma_count_lt_nonpos(s: Seq<u8>, upto: int, k: int)
    requires
        k <= 0,
    ensures
        spec_count_lt(s, upto, k) == 0,
    decreases upto,
{
    if upto > 0 {
        lemma_count_lt_nonpos(s, upto - 1, k);
    }
}

/// The per-value counts below `k` sum to the count of bytes below `k`.
proof fn lemma_count_sum_is_count_lt(s: Seq<u8>, k: int)
    ensures
        spec_count_sum(s, k) == spec_count_lt(s, s.len() as int, k),
    decreases k,
{
    if k > 0 {
        lemma_count_sum_is_count_lt(s, k - 1);
        lemma_count_lt_split(s, s.len() as int, k - 1);
    } else {
        lemma_count_lt_nonpos(s, s.len() as int, k);
    }
}

/// No prefix holds more bytes below `k` than the prefix is long.
proof fn lemma_count_lt_le_len(s: Seq<u8>, upto: int, k: int)
    ensures
        spec_count_lt(s, upto, k) <= (if upto >= 0 {
            upto
        } else {
            0
        }),
    decreases upto,
{
    if upto > 0 {
        lemma_count_lt_le_len(s, upto - 1, k);
    }
}

/// No byte value occurs more often in a prefix than the prefix is long.
proof fn lemma_count_byte_le_len(s: Seq<u8>, upto: int, b: int)
    ensures
        spec_count_byte(s, upto, b) <= (if upto >= 0 {
            upto
        } else {
            0
        }),
    decreases upto,
{
    if upto > 0 {
        lemma_count_byte_le_len(s, upto - 1, b);
    }
}

/// Analyze command structure.
pub struct AnalyzeCommand {
    config: AnalyzeConfig,
}

impl AnalyzeCommand {
    /// Creates a new AnalyzeCommand with the given configuration.
    pub fn new(config: AnalyzeConfig) -> (r: Self)
        ensures
            r.spec_config() == config,
    {
        AnalyzeCommand { config }
    }

    /// The configuration this command analyzes under.
    pub closed spec fn spec_config(&self) -> AnalyzeConfig {
        self.config
    }

    /// Read access to the configuration.
    pub fn config(&self) -> (r: &AnalyzeConfig)
        ensures
            *r == self.spec_config(),
    {
        &self.config
    }

    /// The 256-entry byte-frequency table of a buffer, built in one pass;
    /// every metric of this module derives from it.
    pub fn frequency_table(data: &[u8]) -> (r: Vec<usize>)
        ensures
            r@.len() == 256,
            forall|b: int|
                0 <= b < 256 ==> #[trigger] r@[b] == spec_count_byte(data@, data@.len() as int, b),
    {
        let mut counts: Vec<usize> = Vec::new();
        let mut b: usize = 0;
        while b < 256
            invariant
                b <= 256,
                counts@.len() == b,
                forall|k: int| 0 <= k < b ==> #[trigger] counts@[k] == 0,
            decreases 256 - b,
        {
            counts.push(0);
            b = b + 1;
        }
        let n = data.len();
        let mut i: usize = 0;
        while i < n
            invariant
                i <= n,
                n == data@.len(),
                counts@.len() == 256,
                forall|k: int|
                    0 <= k < 256 ==> #[trigger] counts@[k] == spec_count_byte(data@, i as int, k),
            decreases n - i,
        {
            let v = data[i] as usize;
            proof {
                lemma_count_byte_le_len(data@, i as int, v as int);
            }
            let old_count = counts[v];
            counts.set(v, old_count + 1);
            proof {
                assert(forall|k: int|
                    0 <= k < 256 ==> #[trigger] counts@[k] == spec_count_byte(
                        data@,
                        i + 1,
                        k,
                    ));
            }
            i = i + 1;
        }
        counts
    }

    /// The Index of Coincidence of a buffer as an exact fraction
    /// `Σ n_b (n_b − 1)  /  N (N − 1)`; a buffer shorter than two bytes
    /// yields the zero fraction `(0, 0)`.
    ///
    /// Feeding the two integers to a floating-point division yields the
    /// metric's conventional value.
    pub fn coincidence_fraction(data: &[u8]) -> (r: (u128, u128))
        ensures
            data@.len() < 2 ==> r == (0u128, 0u128),
            data@.len() >= 2 ==> r.0 == spec_ic_num(data@, 256) && r.1 == (data@.len() as int) * (
            data@.len() - 1),
    {
        if data.len() < 2 {
            return (0, 0);
        }
        let counts = Self::frequency_table(data);
        let n = data.len();
        let mut num: u128 = 0;
        let ghost s = data@;
        let mut b: usize = 0;
        let ghost mut pc: int = 0;
        while b < 256
            invariant
                b <= 256,
                counts@.len() == 256,
                n == s.len(),
                s == data@,
                forall|k: int|
                    0 <= k < 256 ==> #[trigger] counts@[k] == spec_count_byte(s, s.len() as int, k),
                num == spec_ic_num(s, b as int),
                pc == spec_count_sum(s, b as int),
                0 <= pc <= s.len(),
                num <= pc * pc,
            decreases 256 - b,
        {
            let c = counts[b];
            let c128 = c as u128;
            proof {
                assert(counts@[b as int] == spec_count_byte(s, s.len() as int, b as int));
                lemma_count_sum_is_count_lt(s, b + 1);
                lemma_count_lt_le_len(s, s.len() as int, b + 1);
                lemma_count_lt_split(s, s.len() as int, b as int);
                lemma_count_sum_is_count_lt(s, b as int);
                assert(pc + c <= s.len());
                assert(num + c128 * (c128 - 1) <= (pc + c) * (pc + c)) by (nonlinear_arith)
                    requires
                        num <= pc * pc,
                        c128 == c,
                        c >= 0,
                        pc >= 0,
                ;
                assert((pc + c) * (pc + c) < u128::MAX) by (nonlinear_arith)
                    requires
                        0 <= pc + c <= s.len(),
                        s.len() <= usize::MAX,
                        usize::MAX < 0xffff_ffff_ffff_ffff_ffff_ffff_ffff_ffffu128,
                ;
            }
            if c > 0 {
                num = num + c128 * (c128 - 1);
            }
            proof {
                let n_i = spec_count_byte(s, s.len() as int, b as int) as int;
                assert(n_i == c as int);
                assert(spec_ic_num(s, b + 1) == spec_ic_num(s, b as int) + n_i * (n_i - 1));
                if c == 0 {
                    assert(n_i * (n_i - 1) == 0) by (nonlinear_arith)
                        requires
                            n_i == 0,
                    ;
                }
                pc = pc + c;
                assert(num == spec_ic_num(s, b + 1));
            }
            b = b + 1;
        }
        proof {
            assert((n as int) * ((n as int) - 1) < u128::MAX) by (nonlinear_arith)
                requires
                    2 <= n <= usize::MAX,
                    usize::MAX < 0xffff_ffff_ffff_ffff_ffff_ffff_ffff_ffffu128,
            ;
        }
        let den = (n as u128) * ((n as u128) - 1);
        (num, den)
    }

    /// The block layout for block-based analysis: one `(offset, size)`
    /// pair per fixed-size block, the last block possibly shorter; block
    /// size zero means one block covering the whole input, and an empty
    /// input yields one zero-sized block.
    pub fn block_bounds(len: usize, block_size: usize) -> (r: Vec<(usize, usize)>)
        ensures
            len == 0 ==> r@ =~= seq![(0usize, 0usize)],
            len > 0 && block_size == 0 ==> r@ =~= seq![(0usize, len)],
            len > 0 && block_size > 0 ==> {
                &&& r@.len() == crate::search_parallel::spec_num_chunks(
                    len as int,
                    block_size as int,
                )
                &&& forall|k: int|
                    0 <= k < r@.len() ==> (#[trigger] r@[k]).0 == k * block_size && r@[k].1
                        == vstd::math::min(block_size as int, len - k * block_size)
            },
    {
        let mut r: Vec<(usize, usize)> = Vec::new();
        if len == 0 {
            r.push((0, 0));
            return r;
        }
        if block_size == 0 {
            r.push((0, len));
            return r;
        }
        let mut start: usize = 0;
        proof {
            assert(r@.len() * block_size == 0) by (nonlinear_arith)
                requires
                    r@.len() == 0,
            ;
            assert(((block_size as int) - 1) / (block_size as int) == 0) by (nonlinear_arith)
                requires
                    block_size >= 1,
            ;
            if len > 0 {
                assert(0 < crate::search_parallel::spec_num_chunks(
                    len as int,
                    block_size as int,
                )) by (nonlinear_arith)
                    requires
                        block_size >= 1,
                        len > 0,
                        crate::search_parallel::spec_num_chunks(len as int, block_size as int) == ((
                        len as int) + block_size - 1) / (block_size as int),
                ;
            }
        }
        while start < len
            invariant
                block_size >= 1,
                r@.len() * block_size == start,
                r@.len() == (start + block_size - 1) / (block_size as int),
                start < len ==> r@.len() < crate::search_parallel::spec_num_chunks(
                    len as int,
                    block_size as int,
                ),
                start >= len ==> r@.len() == crate::search_parallel::spec_num_chunks(
                    len as int,
                    block_size as int,
                ),
                forall|k: int|
                    0 <= k < r@.len() ==> (#[trigger] r@[k]).0 == k * block_size && r@[k].1
                        == vstd::math::min(block_size as int, len - k * block_size),
            decreases len - start,
        {
            let size = if len - start < block_size {
                len - start
            } else {
                block_size
            };
            let ghost old_count = r@.len() as int;
            r.push((start, size));
            proof {
                assert(old_count * block_size + block_size == (old_count + 1) * block_size)
                    by (nonlinear_arith);
                assert(r@[old_count].0 == old_count * block_size);
            }
            if len - start <= block_size {
                proof {
                    assert(r@.len() == (len + block_size - 1) / (block_size as int))
                        by (nonlinear_arith)
                        requires
                            block_size >= 1,
                            r@.len() * block_size == start + block_size,
                            start < len,
                            len - start <= block_size,
                    ;
                }
                return r;
            }
            start = start + block_size;
            proof {
                assert(r@.len() == (start + block_size - 1) / (block_size as int))
                    by (nonlinear_arith)
                    requires
                        block_size >= 1,
                        r@.len() * block_size == start,
                ;
                assert(r@.len() < crate::search_parallel::spec_num_chunks(
                    len as int,
                    block_size as int,
                )) by (nonlinear_arith)
                    requires
                        block_size >= 1,
                        r@.len() * block_size == start,
                        start < len,
                        crate::search_parallel::spec_num_chunks(len as int, block_size as int) == ((
                        len as int) + block_size - 1) / (block_size as int),
                ;
            }
        }
        r
    }
}

/// Whether a histogram list holds an entry for byte value `b`.
pub open spec fn spec_hist_has_value(s: Seq<(u8, usize)>, b: int) -> bool {
    exists|k: int| 0 <= k < s.len() && (#[trigger] s[k]).0 == b
}

impl AnalyzeCommand {
    /// The byte-frequency histogram: one `(value, count)` entry per byte
    /// value that occurs, sorted by descending count, equal counts in
    /// ascending value order.
    ///
    /// The count of each entry is the value's frequency in the buffer,
    /// and every occurring value appears exactly once.
    pub fn histogram_entries(data: &[u8]) -> (r: Vec<(u8, usize)>)
        ensures
            forall|i: int|
                0 <= i < r@.len() ==> (#[trigger] r@[i]).1 == spec_count_byte(
                    data@,
                    data@.len() as int,
                    r@[i].0 as int,
                ) && r@[i].1 > 0,
            forall|b: int|
                0 <= b < 256 ==> (spec_hist_has_value(r@, b) <==> spec_count_byte(
                    data@,
                    data@.len() as int,
                    b,
                ) > 0),
            forall|i: int, j: int|
                0 <= i < j < r@.len() ==> ((#[trigger] r@[i]).1 > (#[trigger] r@[j]).1 || (r@[i].1
                    == r@[j].1 && r@[i].0 < r@[j].0)),
    {
        let counts = Self::frequency_table(data);
        let ghost s = data@;
        let mut r: Vec<(u8, usize)> = Vec::new();
        let mut b: usize = 0;
        while b < 256
            invariant
                b <= 256,
                counts@.len() == 256,
                s == data@,
                forall|k: int|
                    0 <= k < 256 ==> #[trigger] counts@[k] == spec_count_byte(s, s.len() as int, k),
                forall|i: int|
                    0 <= i < r@.len() ==> (#[trigger] r@[i]).1 == spec_count_byte(
                        s,
                        s.len() as int,
                        r@[i].0 as int,
                    ) && r@[i].1 > 0 && r@[i].0 < b,
                forall|bb: int|
                    0 <= bb < b ==> (spec_hist_has_value(r@, bb) <==> spec_count_byte(
                        s,
                        s.len() as int,
                        bb,
                    ) > 0),
                forall|i: int, j: int|
                    0 <= i < j < r@.len() ==> ((#[trigger] r@[i]).1 > (#[trigger] r@[j]).1 || (
                    r@[i].1 == r@[j].1 && r@[i].0 < r@[j].0)),
            decreases 256 - b,
        {
            let c = counts[b];
            if c > 0 {
                // Insert after every entry with a strictly larger count and
                // after equal counts, which carry smaller byte values.
                let mut j: usize = 0;
                while j < r.len() && (r[j].1 > c || r[j].1 == c)
                    invariant
                        j <= r@.len(),
                        forall|k: int| 0 <= k < j ==> (#[trigger] r@[k]).1 >= c,
                    decreases r@.len() - j,
                {
                    j = j + 1;
                }
                let ghost r_before = r@;
                r.insert(j, (b as u8, c));
                proof {
                    assert(r@ =~= r_before.subrange(0, j as int) + seq![(b as u8, c)]
                        + r_before.subrange(j as int, r_before.len() as int));
                    assert forall|bb: int|
                        spec_hist_has_value(r@, bb) <==> (spec_hist_has_value(r_before, bb) || bb
                            == b) by {
                        if spec_hist_has_value(r_before, bb) {
                            let k = choose|k: int|
                                0 <= k < r_before.len() && (#[trigger] r_before[k]).0 == bb;
                            if k < j {
                                assert(r@[k].0 == bb);
                            } else {
                                assert(r@[k + 1].0 == bb);
                            }
                        }
                        if bb == b {
                            assert(r@[j as int].0 == bb);
                        }
                        if spec_hist_has_value(r@, bb) {
                            let k = choose|k: int| 0 <= k < r@.len() && (#[trigger] r@[k]).0 == bb;
                            if k < j {
                                assert(r_before[k].0 == bb);
                            } else if k > j {
                                assert(r_before[k - 1].0 == bb);
                            }
                        }
                    }
                    assert forall|bb: int|
                        0 <= bb < b + 1 implies (spec_hist_has_value(r@, bb)
                        <==> spec_count_byte(s, s.len() as int, bb) > 0) by {
                        assert(spec_hist_has_value(r@, bb) <==> (spec_hist_has_value(
                            r_before,
                            bb,
                        ) || bb == b));
                    }
                }
            } else {
                proof {
                    assert forall|bb: int|
                        0 <= bb < b + 1 implies (spec_hist_has_value(r@, bb)
                        <==> spec_count_byte(s, s.len() as int, bb) > 0) by {
                        if bb == b && spec_hist_has_value(r@, bb) {
                            let k = choose|k: int| 0 <= k < r@.len() && (#[trigger] r@[k]).0 == bb;
                            assert(r@[k].1 > 0);
                        }
                    }
                }
            }
            b = b + 1;
        }
        r
    }
}

/// The Index of Coincidence of a single repeated byte is one: the
/// fraction's numerator equals its denominator for any non-empty buffer
/// holding one byte value only.
pub proof fn lemma_ic_single_value(s: Seq<u8>, b0: u8)
    requires
        s.len() >= 2,
        forall|i: int| 0 <= i < s.len() ==> s[i] == b0,
    ensures
        spec_ic_num(s, 256) == (s.len() as int) * (s.len() - 1),
{
    assert forall|b: int| 0 <= b < 256 && b != b0 implies spec_count_byte(
        s,
        s.len() as int,
        b,
    ) == 0 by {
        lemma_count_byte_other(s, s.len() as int, b, b0);
    }
    lemma_count_byte_all_same(s, s.len() as int, b0);
    lemma_ic_num_single(s, 256, b0 as int);
}

/// A value different from the only byte present never occurs.
proof fn lemma_count_byte_other(s: Seq<u8>, upto: int, b: int, b0: u8)
    requires
        upto <= s.len(),
        b != b0,
        forall|i: int| 0 <= i < s.len() ==> s[i] == b0,
    ensures
        spec_count_byte(s, upto, b) == 0,
    decreases upto,
{
    if upto > 0 {
        lemma_count_byte_other(s, upto - 1, b, b0);
    }
}

/// The only byte present occurs as often as the buffer is long.
proof fn lemma_count_byte_all_same(s: Seq<u8>, upto: int, b0: u8)
    requires
        upto <= s.len(),
        forall|i: int| 0 <= i < s.len() ==> s[i] == b0,
    ensures
        upto >= 0 ==> spec_count_byte(s, upto, b0 as int) == upto,
    decreases upto,
{
    if upto > 0 {
        lemma_count_byte_all_same(s, upto - 1, b0);
    }
}

/// With one value carrying the whole count and the rest zero, the
/// numerator reduces to that value's term.
proof fn lemma_ic_num_single(s: Seq<u8>, upto_val: int, b0: int)
    requires
        upto_val <= 256,
        forall|b: int| 0 <= b < 256 && b != b0 ==> spec_count_byte(s, s.len() as int, b) == 0,
    ensures
        spec_ic_num(s, upto_val) == if 0 <= b0 < upto_val {
            let n = spec_count_byte(s, s.len() as int, b0) as int;
            n * (n - 1)
        } else {
            0
        },
    decreases upto_val,
{
    if upto_val > 0 {
        lemma_ic_num_single(s, upto_val - 1, b0);
        if upto_val - 1 != b0 {
            let n = spec_count_byte(s, s.len() as int, upto_val - 1) as int;
            assert(n == 0);
            assert(n * (n - 1) == 0) by (nonlinear_arith)
                requires
                    n == 0,
            ;
        }
    }
}

/// The Index of Coincidence's numerator for a uniform distribution: when
/// every byte value occurs exactly `c` times, the numerator is
/// `256 · c · (c − 1)`, so the metric approaches one part in the alphabet
/// size as `c` grows.
pub proof fn lemma_ic_uniform(s: Seq<u8>, c: int)
    requires
        forall|b: int| 0 <= b < 256 ==> spec_count_byte(s, s.len() as int, b) == c,
    ensures
        spec_ic_num(s, 256) == 256 * (c * (c - 1)),
{
    lemma_ic_num_uniform_upto(s, 256, c);
}

/// The uniform numerator grows linearly in the number of values counted.
proof fn lemma_ic_num_uniform_upto(s: Seq<u8>, upto_val: int, c: int)
    requires
        upto_val <= 256,
        forall|b: int| 0 <= b < 256 ==> spec_count_byte(s, s.len() as int, b) == c,
    ensures
        upto_val >= 0 ==> spec_ic_num(s, upto_val) == upto_val * (c * (c - 1)),
    decreases upto_val,
{
    if upto_val > 0 {
        lemma_ic_num_uniform_upto(s, upto_val - 1, c);
        assert(spec_count_byte(s, s.len() as int, upto_val - 1) == c);
        assert((upto_val - 1) * (c * (c - 1)) + c * (c - 1) == upto_val * (c * (c - 1)))
            by (nonlinear_arith);
    } else if upto_val == 0 {
        assert(0 * (c * (c - 1)) == 0) by (nonlinear_arith);
    }
}

} // verus!
