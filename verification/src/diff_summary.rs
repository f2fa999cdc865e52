//! The summary rendering of diff results: file sizes, per-kind counts with
//! percentages, and a coarse assessment of how different the files are.

use crate::diff::{DiffCommand, DiffEntry};
use crate::diff_render::spec_cat_counts;
use crate::errors::BinfiddleError;
use crate::text::{
    chars_to_string, push_dec_u128, push_pad_left, push_str_chars, spec_dec_uint, spec_pad_left,
};
use vstd::prelude::*;

verus! {

/// `num / den` rounded to the nearest integer, ties to even.
pub open spec fn spec_rhe(num: int, den: int) -> int
    recommends
        den > 0,
        num >= 0,
{
    let q = num / den;
    let r = num % den;
    if 2 * r > den {
        q + 1
    } else if 2 * r < den {
        q
    } else if q % 2 == 0 {
        q
    } else {
        q + 1
    }
}

/// A quantity in tenths rendered with one decimal digit: `d.d`.
pub open spec fn spec_tenths_str(t: int) -> Seq<char>
    recommends
        t >= 0,
{
    spec_dec_uint((t / 10) as nat) + (".")@ + spec_dec_uint((t % 10) as nat)
}

/// The ratio `num / den` as a percentage with one decimal digit, `inf`
/// when `den` is zero.
pub open spec fn spec_pct1(num: nat, den: nat) -> Seq<char> {
    if den == 0 {
        ("inf")@
    } else {
        spec_tenths_str(spec_rhe(num as int * 1000, den as int))
    }
}

/// A byte count with units: plain bytes, or KB with one decimal digit, or
/// MB with two.
pub open spec fn spec_size_str(bytes: nat) -> Seq<char> {
    if bytes < 1024 {
        spec_dec_uint(bytes) + (" bytes")@
    } else if bytes < 1048576 {
        spec_tenths_str(spec_rhe(bytes as int * 10, 1024)) + (" KB")@
    } else {
        let h = spec_rhe(bytes as int * 100, 1048576);
        spec_dec_uint((h / 100) as nat) + (".")@ + spec_pad_left(
            spec_dec_uint((h % 100) as nat),
            2,
            '0',
        ) + (" MB")@
    }
}

/// The heading of the summary: the title and both files with their sizes.
pub open spec fn spec_summary_head(f1: Seq<char>, f2: Seq<char>, l1: nat, l2: nat) -> Seq<char> {
    ("Binary Diff Summary\n===================\n\nFile 1: ")@ + f1 + (" (")@ + spec_size_str(l1) + (
    ")\nFile 2: ")@ + f2 + (" (")@ + spec_size_str(l2) + (")\n\n")@
}

/// The first two overview lines: total and changed counts.
pub open spec fn spec_overview_base(n: nat, c: nat, m: nat) -> Seq<char> {
    ("Overview:\n  Total differences: ")@ + spec_pad_left(spec_dec_uint(n), 10, ' ') + (" bytes (")@
        + spec_pad_left(spec_pct1(n, m), 5, ' ') + ("% of file)\n  Changed bytes:     ")@
        + spec_pad_left(spec_dec_uint(c), 10, ' ') + ("       (")@ + spec_pad_left(
        spec_pct1(c, m),
        5,
        ' ',
    ) + ("%)\n")@
}

/// The deleted-bytes line, present only when bytes were deleted.
pub open spec fn spec_overview_deleted(d: nat, l1: nat) -> Seq<char> {
    if d > 0 {
        ("  Deleted bytes:     ")@ + spec_pad_left(spec_dec_uint(d), 10, ' ') + ("       (")@
            + spec_pad_left(spec_pct1(d, l1), 5, ' ') + ("%) - file1 larger\n")@
    } else {
        Seq::empty()
    }
}

/// The added-bytes line, present only when bytes were added.
pub open spec fn spec_overview_added(a: nat, l2: nat) -> Seq<char> {
    if a > 0 {
        ("  Added bytes:       ")@ + spec_pad_left(spec_dec_uint(a), 10, ' ') + ("       (")@
            + spec_pad_left(spec_pct1(a, l2), 5, ' ') + ("%) - file2 larger\n")@
    } else {
        Seq::empty()
    }
}

/// The size-change line, present only when the files differ in length.
pub open spec fn spec_overview_size_change(l1: nat, l2: nat) -> Seq<char> {
    if l1 != l2 {
        let sd = if l2 >= l1 {
            (l2 - l1) as nat
        } else {
            (l1 - l2) as nat
        };
        let sign = if l2 >= l1 {
            ("+")@
        } else {
            ("-")@
        };
        ("  File size change:  ")@ + spec_pad_left(spec_dec_uint(sd), 10, ' ') + (" bytes (")@
            + sign + spec_pad_left(spec_pct1(sd, l1), 4, ' ') + ("%)\n")@
    } else {
        Seq::empty()
    }
}

/// The overview section: totals and per-kind counts with percentages, and
/// the size change when the files differ in length.
pub open spec fn spec_summary_overview(n: nat, c: nat, d: nat, a: nat, l1: nat, l2: nat) -> Seq<
    char,
> {
    let m = if l1 >= l2 {
        l1
    } else {
        l2
    };
    spec_overview_base(n, c, m) + spec_overview_deleted(d, l1) + spec_overview_added(a, l2)
        + spec_overview_size_change(l1, l2) + ("\n")@
}

/// The assessment section: a coarse verdict from the fraction of bytes
/// that differ.
pub open spec fn spec_summary_assessment(n: nat, m: nat) -> Seq<char> {
    ("Assessment:\n")@ + (if 5 * n > 4 * m {
        ("  Files are substantially different (>80% changed)\n  Likely: Major version update, recompilation, or different builds\n")@
    } else if 2 * n > m {
        ("  Files have major differences (50-80% changed)\n  Likely: Significant refactoring or feature additions\n")@
    } else if 10 * n > m {
        ("  Files have moderate differences (10-50% changed)\n  Likely: Bug fixes, minor updates, or targeted changes\n")@
    } else if n > 0 {
        ("  Files have minor differences (<10% changed)\n  Likely: Patch, hotfix, or configuration change\n")@
    } else {
        ("  Files are identical\n")@
    }) + ("\n")@
}

/// The suggestions section, present only when differences exist.
pub open spec fn spec_summary_suggestions(n: nat) -> Seq<char> {
    if n > 0 {
        (
        "Suggestions:\n  --format unified      : View grouped changes with context\n  --format patch        : Generate machine-readable patch\n  --format side-by-side : Two-column hex comparison\n")@
    } else {
        Seq::empty()
    }
}

/// The whole summary format.
pub open spec fn spec_format_summary(
    entries: Seq<DiffEntry>,
    l1: nat,
    l2: nat,
    f1: Seq<char>,
    f2: Seq<char>,
) -> Seq<char> {
    let head = spec_summary_head(f1, f2, l1, l2);
    let m = if l1 >= l2 {
        l1
    } else {
        l2
    };
    if m == 0 {
        head + ("Both files are empty\n")@
    } else {
        let n = entries.len();
        let (c, d, a) = spec_cat_counts(entries, entries.len() as int);
        head + spec_summary_overview(n, c, d, a, l1, l2) + spec_summary_assessment(n, m)
            + spec_summary_suggestions(n)
    }
}

/// `num / den` rounded to the nearest integer, ties to even.
fn round_half_even(num: u128, den: u128) -> (r: u128)
    requires
        den >= 1,
        num < u128::MAX,
    ensures
        r as int == spec_rhe(num as int, den as int),
{
    let q = num / den;
    let r = num % den;
    assert(q <= num) by (nonlinear_arith)
        requires
            den >= 1,
            q == num / den,
    ;
    if r > den / 2 || (r * 2 == den && q % 2 == 1) {
        assert(2 * (num % den) > den || (2 * (num % den) == den && q % 2 == 1)) by (nonlinear_arith)
            requires
                den >= 1,
                r == num % den,
                q == num / den,
                r > den / 2 || (r * 2 == den && q % 2 == 1),
        ;
        q + 1
    } else {
        assert(2 * (num % den) < den || (2 * (num % den) == den && q % 2 == 0)) by (nonlinear_arith)
            requires
                den >= 1,
                r == num % den,
                q == num / den,
                !(r > den / 2 || (r * 2 == den && q % 2 == 1)),
        ;
        q
    }
}

/// Appends `d.d` tenths, left-padded to `width` with spaces, for the
/// ratio `num / den` in the given scale, or `inf` when `den` is zero.
fn push_pct(out: &mut Vec<char>, num: usize, den: usize, width: usize)
    ensures
        final(out)@ == old(out)@ + spec_pad_left(
            spec_pct1(num as nat, den as nat),
            width as int,
            ' ',
        ),
{
    let mut tmp: Vec<char> = Vec::new();
    if den == 0 {
        push_str_chars(&mut tmp, "inf");
        assert(tmp@ =~= spec_pct1(num as nat, den as nat));
    } else {
        let t = round_half_even((num as u128) * 1000, den as u128);
        assert(t as int == spec_rhe(num as int * 1000, den as int));
        push_dec_u128(&mut tmp, t / 10);
        push_str_chars(&mut tmp, ".");
        push_dec_u128(&mut tmp, t % 10);
        assert(tmp@ =~= spec_pct1(num as nat, den as nat));
    }
    push_pad_left(out, &tmp, width, ' ');
}

/// Appends a byte count with units.
fn push_size(out: &mut Vec<char>, bytes: usize)
    ensures
        final(out)@ == old(out)@ + spec_size_str(bytes as nat),
{
    if bytes < 1024 {
        push_dec_u128(out, bytes as u128);
        push_str_chars(out, " bytes");
        assert(final(out)@ =~= old(out)@ + spec_size_str(bytes as nat));
    } else if bytes < 1048576 {
        let t = round_half_even((bytes as u128) * 10, 1024);
        assert(t as int == spec_rhe(bytes as int * 10, 1024));
        push_dec_u128(out, t / 10);
        push_str_chars(out, ".");
        push_dec_u128(out, t % 10);
        push_str_chars(out, " KB");
        assert(final(out)@ =~= old(out)@ + spec_size_str(bytes as nat));
    } else {
        let h = round_half_even((bytes as u128) * 100, 1048576);
        assert(h as int == spec_rhe(bytes as int * 100, 1048576));
        push_dec_u128(out, h / 100);
        push_str_chars(out, ".");
        let mut tmp: Vec<char> = Vec::new();
        push_dec_u128(&mut tmp, h % 100);
        push_pad_left(out, &tmp, 2, '0');
        push_str_chars(out, " MB");
        assert(final(out)@ =~= old(out)@ + spec_size_str(bytes as nat));
    }
}

/// Appends a decimal count left-padded to `width` with spaces.
fn push_pad_dec(out: &mut Vec<char>, n: usize, width: usize)
    ensures
        final(out)@ == old(out)@ + spec_pad_left(spec_dec_uint(n as nat), width as int, ' '),
{
    let mut tmp: Vec<char> = Vec::new();
    push_dec_u128(&mut tmp, n as u128);
    push_pad_left(out, &tmp, width, ' ');
}

/// Appends the summary heading.
fn push_summary_head(out: &mut Vec<char>, file1_name: &str, file2_name: &str, l1: usize, l2: usize)
    ensures
        final(out)@ == old(out)@ + spec_summary_head(file1_name@, file2_name@, l1 as nat, l2 as nat),
{
    push_str_chars(out, "Binary Diff Summary\n===================\n\nFile 1: ");
    push_str_chars(out, file1_name);
    push_str_chars(out, " (");
    push_size(out, l1);
    push_str_chars(out, ")\nFile 2: ");
    push_str_chars(out, file2_name);
    push_str_chars(out, " (");
    push_size(out, l2);
    push_str_chars(out, ")\n\n");
    assert(final(out)@ =~= old(out)@ + spec_summary_head(
        file1_name@,
        file2_name@,
        l1 as nat,
        l2 as nat,
    ));
}

/// Appends the first two overview lines.
fn push_overview_base(out: &mut Vec<char>, n: usize, changed: usize, max_size: usize)
    ensures
        final(out)@ == old(out)@ + spec_overview_base(n as nat, changed as nat, max_size as nat),
{
    push_str_chars(out, "Overview:\n  Total differences: ");
    push_pad_dec(out, n, 10);
    push_str_chars(out, " bytes (");
    push_pct(out, n, max_size, 5);
    push_str_chars(out, "% of file)\n  Changed bytes:     ");
    push_pad_dec(out, changed, 10);
    push_str_chars(out, "       (");
    push_pct(out, changed, max_size, 5);
    push_str_chars(out, "%)\n");
    assert(final(out)@ =~= old(out)@ + spec_overview_base(
        n as nat,
        changed as nat,
        max_size as nat,
    ));
}

/// Appends the deleted-bytes line when bytes were deleted.
fn push_overview_deleted(out: &mut Vec<char>, deleted: usize, l1: usize)
    ensures
        final(out)@ == old(out)@ + spec_overview_deleted(deleted as nat, l1 as nat),
{
    if deleted > 0 {
        push_str_chars(out, "  Deleted bytes:     ");
        push_pad_dec(out, deleted, 10);
        push_str_chars(out, "       (");
        push_pct(out, deleted, l1, 5);
        push_str_chars(out, "%) - file1 larger\n");
        assert(final(out)@ =~= old(out)@ + spec_overview_deleted(deleted as nat, l1 as nat));
    }
}

/// Appends the added-bytes line when bytes were added.
fn push_overview_added(out: &mut Vec<char>, added: usize, l2: usize)
    ensures
        final(out)@ == old(out)@ + spec_overview_added(added as nat, l2 as nat),
{
    if added > 0 {
        push_str_chars(out, "  Added bytes:       ");
        push_pad_dec(out, added, 10);
        push_str_chars(out, "       (");
        push_pct(out, added, l2, 5);
        push_str_chars(out, "%) - file2 larger\n");
        assert(final(out)@ =~= old(out)@ + spec_overview_added(added as nat, l2 as nat));
    }
}

/// Appends the size-change line when the files differ in length.
fn push_overview_size_change(out: &mut Vec<char>, l1: usize, l2: usize)
    ensures
        final(out)@ == old(out)@ + spec_overview_size_change(l1 as nat, l2 as nat),
{
    if l1 != l2 {
        let sd = if l2 >= l1 {
            l2 - l1
        } else {
            l1 - l2
        };
        push_str_chars(out, "  File size change:  ");
        push_pad_dec(out, sd, 10);
        push_str_chars(out, " bytes (");
        if l2 >= l1 {
            push_str_chars(out, "+");
        } else {
            push_str_chars(out, "-");
        }
        push_pct(out, sd, l1, 4);
        push_str_chars(out, "%)\n");
        assert(final(out)@ =~= old(out)@ + spec_overview_size_change(l1 as nat, l2 as nat));
    }
}

/// Appends the overview section.
fn push_summary_overview(
    out: &mut Vec<char>,
    n: usize,
    changed: usize,
    deleted: usize,
    added: usize,
    l1: usize,
    l2: usize,
)
    ensures
        final(out)@ == old(out)@ + spec_summary_overview(
            n as nat,
            changed as nat,
            deleted as nat,
            added as nat,
            l1 as nat,
            l2 as nat,
        ),
{
    let max_size = if l1 >= l2 {
        l1
    } else {
        l2
    };
    push_overview_base(out, n, changed, max_size);
    push_overview_deleted(out, deleted, l1);
    push_overview_added(out, added, l2);
    push_overview_size_change(out, l1, l2);
    push_str_chars(out, "\n");
    assert(final(out)@ =~= old(out)@ + spec_summary_overview(
        n as nat,
        changed as nat,
        deleted as nat,
        added as nat,
        l1 as nat,
        l2 as nat,
    ));
}

/// Appends the assessment section.
fn push_summary_assessment(out: &mut Vec<char>, n: usize, max_size: usize)
    ensures
        final(out)@ == old(out)@ + spec_summary_assessment(n as nat, max_size as nat),
{
    push_str_chars(out, "Assessment:\n");
    let big = (n as u128) * 5 > (max_size as u128) * 4;
    let major = (n as u128) * 2 > max_size as u128;
    let moderate = (n as u128) * 10 > max_size as u128;
    if big {
        push_str_chars(
            out,
            "  Files are substantially different (>80% changed)\n  Likely: Major version update, recompilation, or different builds\n",
        );
    } else if major {
        push_str_chars(
            out,
            "  Files have major differences (50-80% changed)\n  Likely: Significant refactoring or feature additions\n",
        );
    } else if moderate {
        push_str_chars(
            out,
            "  Files have moderate differences (10-50% changed)\n  Likely: Bug fixes, minor updates, or targeted changes\n",
        );
    } else if n > 0 {
        push_str_chars(
            out,
            "  Files have minor differences (<10% changed)\n  Likely: Patch, hotfix, or configuration change\n",
        );
    } else {
        push_str_chars(out, "  Files are identical\n");
    }
    push_str_chars(out, "\n");
    assert(final(out)@ =~= old(out)@ + spec_summary_assessment(n as nat, max_size as nat));
}

impl DiffCommand {
    /// Formats differences as a summary with statistics: both sizes, the
    /// counts by kind with percentages, an assessment and suggestions.
    pub fn format_summary(
        &self,
        data1: &[u8],
        data2: &[u8],
        differences: &[DiffEntry],
        file1_name: &str,
        file2_name: &str,
    ) -> (r: Result<String, BinfiddleError>)
        ensures
            r matches Ok(s) && s@ == spec_format_summary(
                differences@,
                data1@.len(),
                data2@.len(),
                file1_name@,
                file2_name@,
            ),
    {
        let l1 = data1.len();
        let l2 = data2.len();
        let mut out: Vec<char> = Vec::new();
        push_summary_head(&mut out, file1_name, file2_name, l1, l2);
        let max_size = if l1 >= l2 {
            l1
        } else {
            l2
        };
        if max_size == 0 {
            push_str_chars(&mut out, "Both files are empty\n");
            assert(out@ =~= spec_format_summary(
                differences@,
                l1 as nat,
                l2 as nat,
                file1_name@,
                file2_name@,
            ));
            return Ok(chars_to_string(&out));
        }
        let n = differences.len();
        let (changed, deleted, added) = self.categorize_differences(differences);
        push_summary_overview(&mut out, n, changed, deleted, added, l1, l2);
        push_summary_assessment(&mut out, n, max_size);
        if n > 0 {
            push_str_chars(
                &mut out,
                "Suggestions:\n  --format unified      : View grouped changes with context\n  --format patch        : Generate machine-readable patch\n  --format side-by-side : Two-column hex comparison\n",
            );
        }
        assert(out@ =~= spec_format_summary(
            differences@,
            l1 as nat,
            l2 as nat,
            file1_name@,
            file2_name@,
        ));
        Ok(chars_to_string(&out))
    }
}

} // verus!
