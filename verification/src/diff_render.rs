//! Textual rendering of diff results: the simple, patch and summary formats,
//! and the shared pieces the unified and side-by-side formats build on.

use crate::diff::{DiffCommand, DiffEntry};
use crate::errors::BinfiddleError;
use crate::text::{
    chars_to_string, push_dec_uint, push_hex2, push_hex8, push_str_chars, spec_dec_uint, spec_hex2,
    spec_hex8, spec_hex_uint,
};
use vstd::prelude::*;

verus! {

/// The rendering of one optional byte: `0x` and two digits, or `EOF`.
pub open spec fn spec_opt_byte(b: Option<u8>) -> Seq<char> {
    match b {
        Some(x) => ("0x")@ + spec_hex2(x),
        None => ("EOF")@,
    }
}

/// The rendering of one optional byte with colour: differing bytes bold
/// (red on the left, green on the right), `EOF` dimmed.
pub open spec fn spec_opt_byte_colored(b: Option<u8>, color_code: Seq<char>) -> Seq<char> {
    match b {
        Some(x) => color_code + ("0x")@ + spec_hex2(x) + ("\u{1b}[0m")@,
        None => ("\u{1b}[2m")@ + ("EOF")@ + ("\u{1b}[0m")@,
    }
}

/// One line of the simple format: `0xOFFSET: OLD != NEW`.
pub open spec fn spec_simple_entry(e: DiffEntry) -> Seq<char> {
    ("0x")@ + spec_hex8(e.offset as nat) + (": ")@ + spec_opt_byte(e.byte1) + (" != ")@
        + spec_opt_byte(e.byte2)
}

/// One line of the simple format with colour codes around its fields.
pub open spec fn spec_simple_entry_colored(e: DiffEntry) -> Seq<char> {
    ("\u{1b}[36m")@ + ("0x")@ + spec_hex8(e.offset as nat) + ("\u{1b}[0m")@ + (": ")@
        + spec_opt_byte_colored(e.byte1, ("\u{1b}[1;31m")@) + (" != ")@ + spec_opt_byte_colored(
        e.byte2,
        ("\u{1b}[1;32m")@,
    )
}

/// Every simple-format line, each followed by a newline, over a prefix of
/// the difference list.
pub open spec fn spec_simple_lines(entries: Seq<DiffEntry>, use_color: bool, upto: int) -> Seq<
    char,
>
    decreases upto,
{
    if upto <= 0 {
        Seq::empty()
    } else {
        spec_simple_lines(entries, use_color, upto - 1) + (if use_color {
            spec_simple_entry_colored(entries[upto - 1])
        } else {
            spec_simple_entry(entries[upto - 1])
        }) + ("\n")@
    }
}

/// A string with one trailing newline removed, if it has one.
pub open spec fn spec_chop_newline(s: Seq<char>) -> Seq<char> {
    if s.len() > 0 && s.last() == '\n' {
        s.drop_last()
    } else {
        s
    }
}

/// One line of the patch format: `0xOFFSET:OLD:NEW`, a side's hex pair
/// empty when that side has no byte.
pub open spec fn spec_patch_entry(e: DiffEntry) -> Seq<char> {
    ("0x")@ + spec_hex8(e.offset as nat) + (":")@ + (match e.byte1 {
        Some(x) => spec_hex2(x),
        None => Seq::empty(),
    }) + (":")@ + (match e.byte2 {
        Some(x) => spec_hex2(x),
        None => Seq::empty(),
    })
}

/// Every patch-format line, each followed by a newline.
pub open spec fn spec_patch_lines(entries: Seq<DiffEntry>, upto: int) -> Seq<char>
    decreases upto,
{
    if upto <= 0 {
        Seq::empty()
    } else {
        spec_patch_lines(entries, upto - 1) + spec_patch_entry(entries[upto - 1]) + ("\n")@
    }
}

/// The patch-format header naming the two files and the difference count.
pub open spec fn spec_patch_header(f1: Seq<char>, f2: Seq<char>, n: nat) -> Seq<char> {
    ("# binfiddle patch file\n# source: ")@ + f1 + ("\n# target: ")@ + f2 + (
    "\n# format: OFFSET:OLD_HEX:NEW_HEX\n# differences: ")@ + spec_dec_uint(n) + ("\n#\n")@
}

/// The whole patch format: header, then one line per difference, without a
/// trailing newline.
pub open spec fn spec_format_patch(entries: Seq<DiffEntry>, f1: Seq<char>, f2: Seq<char>) -> Seq<
    char,
> {
    spec_chop_newline(
        spec_patch_header(f1, f2, entries.len()) + spec_patch_lines(entries, entries.len() as int),
    )
}

/// The whole simple format: one line per difference, without a trailing
/// newline.
pub open spec fn spec_format_simple(entries: Seq<DiffEntry>, use_color: bool) -> Seq<char> {
    spec_chop_newline(spec_simple_lines(entries, use_color, entries.len() as int))
}

/// The counts of changed, deleted and added bytes over a prefix of the
/// difference list, classified in that priority order.
pub open spec fn spec_cat_counts(entries: Seq<DiffEntry>, upto: int) -> (nat, nat, nat)
    decreases upto,
{
    if upto <= 0 {
        (0, 0, 0)
    } else {
        let (c, d, a) = spec_cat_counts(entries, upto - 1);
        let e = entries[upto - 1];
        if e.spec_is_change() {
            ((c + 1) as nat, d, a)
        } else if e.spec_is_deletion() {
            (c, (d + 1) as nat, a)
        } else if e.spec_is_addition() {
            (c, d, (a + 1) as nat)
        } else {
            (c, d, a)
        }
    }
}

/// The one-line summary: counts of differences by kind and the two sizes.
pub open spec fn spec_summary_line(n: nat, c: nat, d: nat, a: nat, l1: nat, l2: nat) -> Seq<char> {
    spec_dec_uint(n) + (" difference(s): ")@ + spec_dec_uint(c) + (" changed, ")@ + spec_dec_uint(d)
        + (" deleted, ")@ + spec_dec_uint(a) + (" added (file1: ")@ + spec_dec_uint(l1) + (
    " bytes, file2: ")@ + spec_dec_uint(l2) + (" bytes)")@
}

/// Removes one trailing newline from the accumulator when it ends in one.
pub(crate) fn chop_newline(out: &mut Vec<char>)
    ensures
        final(out)@ == spec_chop_newline(old(out)@),
{
    if out.len() > 0 {
        let last = out[out.len() - 1];
        if last == '\n' {
            out.pop();
            assert(final(out)@ =~= spec_chop_newline(old(out)@));
        }
    }
}

impl DiffCommand {
    /// Formats a single diff entry in simple format (no color).
    fn format_simple_entry(&self, diff: &DiffEntry) -> (r: Vec<char>)
        ensures
            r@ == spec_simple_entry(*diff),
    {
        let mut out: Vec<char> = Vec::new();
        push_str_chars(&mut out, "0x");
        push_hex8(&mut out, diff.offset);
        push_str_chars(&mut out, ": ");
        match diff.byte1 {
            Some(x) => {
                push_str_chars(&mut out, "0x");
                push_hex2(&mut out, x);
            },
            None => {
                push_str_chars(&mut out, "EOF");
            },
        }
        push_str_chars(&mut out, " != ");
        match diff.byte2 {
            Some(x) => {
                push_str_chars(&mut out, "0x");
                push_hex2(&mut out, x);
            },
            None => {
                push_str_chars(&mut out, "EOF");
            },
        }
        assert(out@ =~= spec_simple_entry(*diff));
        out
    }

    /// Formats a single diff entry in simple format with color.
    fn format_simple_entry_colored(&self, diff: &DiffEntry) -> (r: Vec<char>)
        ensures
            r@ == spec_simple_entry_colored(*diff),
    {
        let mut out: Vec<char> = Vec::new();
        push_str_chars(&mut out, "\u{1b}[36m");
        push_str_chars(&mut out, "0x");
        push_hex8(&mut out, diff.offset);
        push_str_chars(&mut out, "\u{1b}[0m");
        push_str_chars(&mut out, ": ");
        match diff.byte1 {
            Some(x) => {
                push_str_chars(&mut out, "\u{1b}[1;31m");
                push_str_chars(&mut out, "0x");
                push_hex2(&mut out, x);
                push_str_chars(&mut out, "\u{1b}[0m");
            },
            None => {
                push_str_chars(&mut out, "\u{1b}[2m");
                push_str_chars(&mut out, "EOF");
                push_str_chars(&mut out, "\u{1b}[0m");
            },
        }
        push_str_chars(&mut out, " != ");
        match diff.byte2 {
            Some(x) => {
                push_str_chars(&mut out, "\u{1b}[1;32m");
                push_str_chars(&mut out, "0x");
                push_hex2(&mut out, x);
                push_str_chars(&mut out, "\u{1b}[0m");
            },
            None => {
                push_str_chars(&mut out, "\u{1b}[2m");
                push_str_chars(&mut out, "EOF");
                push_str_chars(&mut out, "\u{1b}[0m");
            },
        }
        assert(out@ =~= spec_simple_entry_colored(*diff));
        out
    }

    /// Formats differences in simple format: one `0xOFFSET: OLD != NEW`
    /// line per difference.
    #[verifier::rlimit(100)]
    pub(crate) fn format_simple(&self, differences: &[DiffEntry], use_color: bool) -> (r: Vec<
        char,
    >)
        ensures
            r@ == spec_format_simple(differences@, use_color),
    {
        let mut out: Vec<char> = Vec::new();
        let n = differences.len();
        let mut i: usize = 0;
        while i < n
            invariant
                i <= n,
                n == differences@.len(),
                out@ == spec_simple_lines(differences@, use_color, i as int),
            decreases n - i,
        {
            let line = if use_color {
                self.format_simple_entry_colored(&differences[i])
            } else {
                self.format_simple_entry(&differences[i])
            };
            let mut j: usize = 0;
            let m = line.len();
            while j < m
                invariant
                    j <= m,
                    m == line@.len(),
                    out@ == spec_simple_lines(differences@, use_color, i as int) + line@.take(
                        j as int,
                    ),
                decreases m - j,
            {
                out.push(line[j]);
                assert(out@ =~= spec_simple_lines(differences@, use_color, i as int) + line@.take(
                    j + 1,
                ));
                j = j + 1;
            }
            push_str_chars(&mut out, "\n");
            proof {
                assert(line@.take(m as int) =~= line@);
                assert(out@ =~= spec_simple_lines(differences@, use_color, i + 1));
            }
            i = i + 1;
        }
        chop_newline(&mut out);
        out
    }

    /// Formats differences in patch format, `OFFSET:OLD_HEX:NEW_HEX` per
    /// line under a header naming both files.
    #[verifier::rlimit(100)]
    #[verifier::spinoff_prover]
    pub(crate) fn format_patch(
        &self,
        differences: &[DiffEntry],
        file1_name: &str,
        file2_name: &str,
    ) -> (r: Vec<char>)
        ensures
            r@ == spec_format_patch(differences@, file1_name@, file2_name@),
    {
        let mut out: Vec<char> = Vec::new();
        push_str_chars(&mut out, "# binfiddle patch file\n# source: ");
        push_str_chars(&mut out, file1_name);
        push_str_chars(&mut out, "\n# target: ");
        push_str_chars(&mut out, file2_name);
        push_str_chars(&mut out, "\n# format: OFFSET:OLD_HEX:NEW_HEX\n# differences: ");
        push_dec_uint(&mut out, differences.len());
        push_str_chars(&mut out, "\n#\n");
        assert(out@ =~= spec_patch_header(file1_name@, file2_name@, differences@.len()));
        let n = differences.len();
        let mut i: usize = 0;
        while i < n
            invariant
                i <= n,
                n == differences@.len(),
                out@ == spec_patch_header(file1_name@, file2_name@, differences@.len())
                    + spec_patch_lines(differences@, i as int),
            decreases n - i,
        {
            let e = &differences[i];
            push_str_chars(&mut out, "0x");
            push_hex8(&mut out, e.offset);
            push_str_chars(&mut out, ":");
            match e.byte1 {
                Some(x) => push_hex2(&mut out, x),
                None => (),
            }
            push_str_chars(&mut out, ":");
            match e.byte2 {
                Some(x) => push_hex2(&mut out, x),
                None => (),
            }
            push_str_chars(&mut out, "\n");
            proof {
                assert(out@ =~= spec_patch_header(file1_name@, file2_name@, differences@.len())
                    + spec_patch_lines(differences@, i + 1));
            }
            i = i + 1;
        }
        chop_newline(&mut out);
        out
    }

    /// Categorizes differences into changed, deleted, and added counts.
    pub(crate) fn categorize_differences(&self, differences: &[DiffEntry]) -> (r: (
        usize,
        usize,
        usize,
    ))
        ensures
            (r.0 as nat, r.1 as nat, r.2 as nat) == spec_cat_counts(
                differences@,
                differences@.len() as int,
            ),
    {
        let n = differences.len();
        let mut changed: usize = 0;
        let mut deleted: usize = 0;
        let mut added: usize = 0;
        let mut i: usize = 0;
        while i < n
            invariant
                i <= n,
                n == differences@.len(),
                changed + deleted + added <= i,
                (changed as nat, deleted as nat, added as nat) == spec_cat_counts(
                    differences@,
                    i as int,
                ),
            decreases n - i,
        {
            let e = &differences[i];
            if e.is_change() {
                changed = changed + 1;
            } else if e.is_deletion() {
                deleted = deleted + 1;
            } else if e.is_addition() {
                added = added + 1;
            }
            i = i + 1;
        }
        (changed, deleted, added)
    }

    /// Returns a one-line summary of the differences: the total and the
    /// per-kind counts, with both file sizes.
    pub fn summary(&self, differences: &[DiffEntry], data1_len: usize, data2_len: usize) -> (r:
        String)
        ensures
            ({
                let (c, d, a) = spec_cat_counts(differences@, differences@.len() as int);
                r@ == spec_summary_line(
                    differences@.len(),
                    c,
                    d,
                    a,
                    data1_len as nat,
                    data2_len as nat,
                )
            }),
    {
        let (changed, deleted, added) = self.categorize_differences(differences);
        let mut out: Vec<char> = Vec::new();
        push_dec_uint(&mut out, differences.len());
        push_str_chars(&mut out, " difference(s): ");
        push_dec_uint(&mut out, changed);
        push_str_chars(&mut out, " changed, ");
        push_dec_uint(&mut out, deleted);
        push_str_chars(&mut out, " deleted, ");
        push_dec_uint(&mut out, added);
        push_str_chars(&mut out, " added (file1: ");
        push_dec_uint(&mut out, data1_len);
        push_str_chars(&mut out, " bytes, file2: ");
        push_dec_uint(&mut out, data2_len);
        push_str_chars(&mut out, " bytes)");
        proof {
            let (c, d, a) = spec_cat_counts(differences@, differences@.len() as int);
            assert(out@ =~= spec_summary_line(
                differences@.len(),
                c,
                d,
                a,
                data1_len as nat,
                data2_len as nat,
            ));
        }
        chars_to_string(&out)
    }
}

/// Whether one of the marked offsets equals `o`.
pub open spec fn spec_has_offset(offs: Seq<usize>, o: int) -> bool {
    exists|k: int| 0 <= k < offs.len() && offs[k] == o
}

/// Whether one of the marked offsets falls in `[lo, hi)`.
pub open spec fn spec_range_has_offset(offs: Seq<usize>, lo: int, hi: int) -> bool {
    exists|k: int| 0 <= k < offs.len() && lo <= #[trigger] offs[k] < hi
}

/// The bold colour code of a line marker: red for `-`, green for `+`,
/// yellow otherwise.
pub open spec fn spec_marker_color(marker: char) -> Seq<char> {
    if marker == '-' {
        ("\u{1b}[1;31m")@
    } else if marker == '+' {
        ("\u{1b}[1;32m")@
    } else {
        ("\u{1b}[1;33m")@
    }
}

/// The marker column of a unified line, coloured for `-` and `+` only.
pub open spec fn spec_marker_part(marker: char, color: bool) -> Seq<char> {
    if color && (marker == '-' || marker == '+') {
        spec_marker_color(marker) + seq![marker] + ("\u{1b}[0m")@
    } else {
        seq![marker]
    }
}

/// One hex cell of a unified line: two digits and a space, `--` past the
/// buffer's end, coloured when the offset is marked as differing.
pub open spec fn spec_hex_cell(
    data: Seq<u8>,
    o: int,
    marker: char,
    color: bool,
    offs: Seq<usize>,
) -> Seq<char> {
    if o >= data.len() {
        if color {
            ("\u{1b}[2m")@ + ("--")@ + ("\u{1b}[0m")@ + (" ")@
        } else {
            ("-- ")@
        }
    } else {
        if color && spec_has_offset(offs, o) {
            spec_marker_color(marker) + spec_hex2(data[o]) + ("\u{1b}[0m")@ + (" ")@
        } else {
            spec_hex2(data[o]) + (" ")@
        }
    }
}

/// The hex cells of a unified line over `[lo, hi)`.
pub open spec fn spec_hex_cells(
    data: Seq<u8>,
    lo: int,
    hi: int,
    marker: char,
    color: bool,
    offs: Seq<usize>,
) -> Seq<char>
    decreases hi - lo,
{
    if lo >= hi {
        Seq::empty()
    } else {
        spec_hex_cells(data, lo, hi - 1, marker, color, offs) + spec_hex_cell(
            data,
            hi - 1,
            marker,
            color,
            offs,
        )
    }
}

/// One ASCII cell of a unified line: the printable character, a space past
/// the buffer's end, coloured when the offset is marked as differing.
pub open spec fn spec_ascii_cell(
    data: Seq<u8>,
    o: int,
    marker: char,
    color: bool,
    offs: Seq<usize>,
) -> Seq<char> {
    if o >= data.len() {
        (" ")@
    } else {
        let c = crate::text::spec_printable_char(data[o]);
        if color && spec_has_offset(offs, o) {
            spec_marker_color(marker) + seq![c] + ("\u{1b}[0m")@
        } else {
            seq![c]
        }
    }
}

/// The ASCII cells of a unified line over `[lo, hi)`.
pub open spec fn spec_ascii_cells(
    data: Seq<u8>,
    lo: int,
    hi: int,
    marker: char,
    color: bool,
    offs: Seq<usize>,
) -> Seq<char>
    decreases hi - lo,
{
    if lo >= hi {
        Seq::empty()
    } else {
        spec_ascii_cells(data, lo, hi - 1, marker, color, offs) + spec_ascii_cell(
            data,
            hi - 1,
            marker,
            color,
            offs,
        )
    }
}

/// One whole line of the unified format: marker, offset, hex cells, and the
/// ASCII column, ending in a newline. Only the marked byte positions are
/// coloured, never the whole line.
pub open spec fn spec_unified_line(
    data: Seq<u8>,
    lo: int,
    hi: int,
    marker: char,
    color: bool,
    offs: Seq<usize>,
) -> Seq<char> {
    spec_marker_part(marker, color) + ("0x")@ + spec_hex8(lo as nat) + (": ")@ + spec_hex_cells(
        data,
        lo,
        hi,
        marker,
        color,
        offs,
    ) + (" |")@ + spec_ascii_cells(data, lo, hi, marker, color, offs) + ("|\n")@
}

/// The body lines of one unified hunk: fixed-width rows from `pos` to
/// `end`; a row holding a marked offset shows both files' views, any other
/// row is context from the first file.
pub open spec fn spec_unified_body(
    d1: Seq<u8>,
    d2: Seq<u8>,
    offs: Seq<usize>,
    pos: int,
    end: int,
    width: int,
    color: bool,
) -> Seq<char>
    decreases end - pos,
{
    if pos >= end || width <= 0 {
        Seq::empty()
    } else {
        let le = vstd::math::min(pos + width, end);
        (if spec_range_has_offset(offs, pos, le) {
            spec_unified_line(d1, pos, le, '-', color, offs) + spec_unified_line(
                d2,
                pos,
                le,
                '+',
                color,
                offs,
            )
        } else {
            spec_unified_line(d1, pos, le, ' ', color, offs)
        }) + spec_unified_body(d1, d2, offs, le, end, width, color)
    }
}

/// The header of one unified hunk: the start offset and both lengths in
/// hex, magenta when coloured, ending in a newline.
pub open spec fn spec_hunk_header(start: nat, l1: nat, l2: nat, color: bool) -> Seq<char> {
    let core = ("@@ -0x")@ + spec_hex_uint(start) + (",0x")@ + spec_hex_uint(l1) + (" +0x")@
        + spec_hex_uint(start) + (",0x")@ + spec_hex_uint(l2) + (" @@")@;
    if color {
        ("\u{1b}[35m")@ + core + ("\u{1b}[0m")@ + ("\n")@
    } else {
        core + ("\n")@
    }
}

/// The offsets of the entries a hunk holds.
pub open spec fn spec_hunk_offsets(entries: Seq<DiffEntry>, hunk: Seq<usize>) -> Seq<usize> {
    Seq::new(hunk.len(), |j: int| entries[hunk[j] as int].offset)
}

/// The hunk's display window: context bytes before its first offset,
/// clamped at zero.
pub open spec fn spec_hunk_start(entries: Seq<DiffEntry>, hunk: Seq<usize>, context: int) -> int {
    let first = entries[hunk.first() as int].offset as int;
    if first >= context {
        first - context
    } else {
        0
    }
}

/// The end of a hunk's display window in one buffer: context bytes past
/// its last offset, clamped at the buffer's length.
pub open spec fn spec_hunk_end(
    entries: Seq<DiffEntry>,
    hunk: Seq<usize>,
    context: int,
    len: int,
) -> int {
    vstd::math::min(entries[hunk.last() as int].offset + context + 1, len)
}

/// One whole unified hunk: its header and its body lines.
pub open spec fn spec_unified_hunk(
    d1: Seq<u8>,
    d2: Seq<u8>,
    entries: Seq<DiffEntry>,
    hunk: Seq<usize>,
    context: int,
    width: int,
    color: bool,
) -> Seq<char> {
    if hunk.len() == 0 {
        Seq::empty()
    } else {
        let start = spec_hunk_start(entries, hunk, context);
        let end1 = spec_hunk_end(entries, hunk, context, d1.len() as int);
        let end2 = spec_hunk_end(entries, hunk, context, d2.len() as int);
        let end = vstd::math::max(end1, end2);
        let offs = spec_hunk_offsets(entries, hunk);
        spec_hunk_header(
            start as nat,
            (if end1 >= start {
                end1 - start
            } else {
                0
            }) as nat,
            (if end2 >= start {
                end2 - start
            } else {
                0
            }) as nat,
            color,
        ) + spec_unified_body(d1, d2, offs, start, end, width, color)
    }
}

/// The hunks of the unified format rendered in order, over a prefix of the
/// hunk list.
pub open spec fn spec_unified_hunks(
    d1: Seq<u8>,
    d2: Seq<u8>,
    entries: Seq<DiffEntry>,
    hunks: Seq<Seq<usize>>,
    context: int,
    width: int,
    color: bool,
    upto: int,
) -> Seq<char>
    decreases upto,
{
    if upto <= 0 {
        Seq::empty()
    } else {
        spec_unified_hunks(d1, d2, entries, hunks, context, width, color, upto - 1)
            + spec_unified_hunk(d1, d2, entries, hunks[upto - 1], context, width, color)
    }
}

/// The two-line header of the unified format naming both files.
pub open spec fn spec_unified_header(f1: Seq<char>, f2: Seq<char>, color: bool) -> Seq<char> {
    if color {
        ("\u{1b}[1;31m")@ + ("--- ")@ + f1 + ("\u{1b}[0m")@ + ("\n")@ + ("\u{1b}[1;32m")@ + (
        "+++ ")@ + f2 + ("\u{1b}[0m")@ + ("\n")@
    } else {
        ("--- ")@ + f1 + ("\n")@ + ("+++ ")@ + f2 + ("\n")@
    }
}

/// The whole unified format: the file header, then every hunk, without a
/// trailing newline; empty when there are no differences.
pub open spec fn spec_format_unified(
    d1: Seq<u8>,
    d2: Seq<u8>,
    entries: Seq<DiffEntry>,
    f1: Seq<char>,
    f2: Seq<char>,
    context: int,
    width: int,
    color: bool,
) -> Seq<char> {
    if entries.len() == 0 {
        Seq::empty()
    } else {
        let hunks = crate::diff::spec_group_into_hunks(entries, context as nat);
        spec_chop_newline(
            spec_unified_header(f1, f2, color) + spec_unified_hunks(
                d1,
                d2,
                entries,
                hunks,
                context,
                width,
                color,
                hunks.len() as int,
            ),
        )
    }
}

/// Whether any of the marked offsets falls in `[lo, hi)`.
pub(crate) fn range_has_offset(offs: &Vec<usize>, lo: usize, hi: usize) -> (r: bool)
    ensures
        r == spec_range_has_offset(offs@, lo as int, hi as int),
{
    let n = offs.len();
    let mut k: usize = 0;
    while k < n
        invariant
            k <= n,
            n == offs@.len(),
            forall|j: int| 0 <= j < k ==> !(lo <= #[trigger] offs@[j] < hi),
        decreases n - k,
    {
        let o = offs[k];
        if lo <= o && o < hi {
            assert(lo <= offs@[k as int] < hi);
            return true;
        }
        k = k + 1;
    }
    false
}

/// Whether one of the marked offsets equals `o`.
pub(crate) fn has_offset(offs: &Vec<usize>, o: usize) -> (r: bool)
    ensures
        r == spec_has_offset(offs@, o as int),
{
    let n = offs.len();
    let mut k: usize = 0;
    while k < n
        invariant
            k <= n,
            n == offs@.len(),
            forall|j: int| 0 <= j < k ==> #[trigger] offs@[j] != o,
        decreases n - k,
    {
        if offs[k] == o {
            assert(offs@[k as int] == o);
            return true;
        }
        k = k + 1;
    }
    false
}

impl DiffCommand {
    /// Appends one line of the unified format for `[start, end)` of `data`.
    fn format_unified_line(
        &self,
        out: &mut Vec<char>,
        data: &[u8],
        start: usize,
        end: usize,
        marker: char,
        use_color: bool,
        offs: &Vec<usize>,
    )
        requires
            start <= end,
        ensures
            final(out)@ == old(out)@ + spec_unified_line(
                data@,
                start as int,
                end as int,
                marker,
                use_color,
                offs@,
            ),
    {
        if use_color && (marker == '-' || marker == '+') {
            if marker == '-' {
                push_str_chars(out, "\u{1b}[1;31m");
            } else {
                push_str_chars(out, "\u{1b}[1;32m");
            }
            out.push(marker);
            push_str_chars(out, "\u{1b}[0m");
        } else {
            out.push(marker);
        }
        assert(out@ =~= old(out)@ + spec_marker_part(marker, use_color));
        push_str_chars(out, "0x");
        push_hex8(out, start);
        push_str_chars(out, ": ");
        let ghost head = old(out)@ + spec_marker_part(marker, use_color) + ("0x")@ + spec_hex8(
            start as nat,
        ) + (": ")@;
        assert(out@ =~= head);
        let mut o: usize = start;
        while o < end
            invariant
                start <= o <= end,
                out@ == head + spec_hex_cells(
                    data@,
                    start as int,
                    o as int,
                    marker,
                    use_color,
                    offs@,
                ),
            decreases end - o,
        {
            if o >= data.len() {
                if use_color {
                    push_str_chars(out, "\u{1b}[2m");
                    push_str_chars(out, "--");
                    push_str_chars(out, "\u{1b}[0m");
                    push_str_chars(out, " ");
                } else {
                    push_str_chars(out, "-- ");
                }
            } else {
                let is_diff = has_offset(offs, o);
                if use_color && is_diff {
                    if marker == '-' {
                        push_str_chars(out, "\u{1b}[1;31m");
                    } else if marker == '+' {
                        push_str_chars(out, "\u{1b}[1;32m");
                    } else {
                        push_str_chars(out, "\u{1b}[1;33m");
                    }
                    push_hex2(out, data[o]);
                    push_str_chars(out, "\u{1b}[0m");
                    push_str_chars(out, " ");
                } else {
                    push_hex2(out, data[o]);
                    push_str_chars(out, " ");
                }
            }
            proof {
                assert(out@ =~= head + spec_hex_cells(
                    data@,
                    start as int,
                    o + 1,
                    marker,
                    use_color,
                    offs@,
                ));
            }
            o = o + 1;
        }
        push_str_chars(out, " |");
        let ghost mid = head + spec_hex_cells(
            data@,
            start as int,
            end as int,
            marker,
            use_color,
            offs@,
        ) + (" |")@;
        assert(out@ =~= mid);
        let mut o: usize = start;
        while o < end
            invariant
                start <= o <= end,
                out@ == mid + spec_ascii_cells(
                    data@,
                    start as int,
                    o as int,
                    marker,
                    use_color,
                    offs@,
                ),
            decreases end - o,
        {
            if o >= data.len() {
                push_str_chars(out, " ");
            } else {
                let c = crate::text::printable_char(data[o]);
                let is_diff = has_offset(offs, o);
                if use_color && is_diff {
                    if marker == '-' {
                        push_str_chars(out, "\u{1b}[1;31m");
                    } else if marker == '+' {
                        push_str_chars(out, "\u{1b}[1;32m");
                    } else {
                        push_str_chars(out, "\u{1b}[1;33m");
                    }
                    out.push(c);
                    push_str_chars(out, "\u{1b}[0m");
                } else {
                    out.push(c);
                }
            }
            proof {
                assert(out@ =~= mid + spec_ascii_cells(
                    data@,
                    start as int,
                    o + 1,
                    marker,
                    use_color,
                    offs@,
                ));
            }
            o = o + 1;
        }
        push_str_chars(out, "|\n");
        assert(out@ =~= old(out)@ + spec_unified_line(
            data@,
            start as int,
            end as int,
            marker,
            use_color,
            offs@,
        ));
    }

    /// The offsets of the entries a hunk holds, in hunk order.
    fn hunk_offsets(&self, differences: &[DiffEntry], hunk: &Vec<usize>) -> (offs: Vec<usize>)
        requires
            forall|k: int| 0 <= k < hunk@.len() ==> #[trigger] hunk@[k] < differences@.len(),
        ensures
            offs@ == spec_hunk_offsets(differences@, hunk@),
    {
        let mut offs: Vec<usize> = Vec::new();
        let m = hunk.len();
        let mut j: usize = 0;
        while j < m
            invariant
                j <= m,
                m == hunk@.len(),
                forall|k: int| 0 <= k < hunk@.len() ==> #[trigger] hunk@[k] < differences@.len(),
                offs@ =~= spec_hunk_offsets(differences@, hunk@).take(j as int),
            decreases m - j,
        {
            offs.push(differences[hunk[j]].offset);
            assert(offs@ =~= spec_hunk_offsets(differences@, hunk@).take(j + 1));
            j = j + 1;
        }
        assert(offs@ =~= spec_hunk_offsets(differences@, hunk@));
        offs
    }

    /// Appends the header line of one unified hunk.
    fn push_hunk_header(&self, out: &mut Vec<char>, start: usize, l1: usize, l2: usize, use_color: bool)
        ensures
            final(out)@ == old(out)@ + spec_hunk_header(start as nat, l1 as nat, l2 as nat, use_color),
    {
        if use_color {
            push_str_chars(out, "\u{1b}[35m");
        }
        push_str_chars(out, "@@ -0x");
        crate::text::push_hex_uint(out, start);
        push_str_chars(out, ",0x");
        crate::text::push_hex_uint(out, l1);
        push_str_chars(out, " +0x");
        crate::text::push_hex_uint(out, start);
        push_str_chars(out, ",0x");
        crate::text::push_hex_uint(out, l2);
        push_str_chars(out, " @@");
        if use_color {
            push_str_chars(out, "\u{1b}[0m");
        }
        push_str_chars(out, "\n");
        assert(final(out)@ =~= old(out)@ + spec_hunk_header(start as nat, l1 as nat, l2 as nat, use_color));
    }

    /// Appends the fixed-width body rows of one hunk's display window.
    #[verifier::rlimit(100)]
    fn format_unified_body(
        &self,
        out: &mut Vec<char>,
        data1: &[u8],
        data2: &[u8],
        offs: &Vec<usize>,
        start: usize,
        end: usize,
        width: usize,
        use_color: bool,
    )
        requires
            width >= 1,
        ensures
            final(out)@ == old(out)@ + spec_unified_body(
                data1@,
                data2@,
                offs@,
                start as int,
                end as int,
                width as int,
                use_color,
            ),
    {
        let ghost w_i = width as int;
        let mut offset: usize = start;
        while offset < end
            invariant
                width >= 1,
                w_i == width as int,
                out@ + spec_unified_body(
                    data1@,
                    data2@,
                    offs@,
                    offset as int,
                    end as int,
                    w_i,
                    use_color,
                ) == old(out)@ + spec_unified_body(
                    data1@,
                    data2@,
                    offs@,
                    start as int,
                    end as int,
                    w_i,
                    use_color,
                ),
            decreases end - offset,
        {
            let reach2 = offset.saturating_add(width);
            let line_end = if reach2 < end {
                reach2
            } else {
                end
            };
            assert(line_end as int == vstd::math::min(offset as int + w_i, end as int));
            let has_diff = range_has_offset(offs, offset, line_end);
            if has_diff {
                self.format_unified_line(out, data1, offset, line_end, '-', use_color, offs);
                self.format_unified_line(out, data2, offset, line_end, '+', use_color, offs);
            } else {
                self.format_unified_line(out, data1, offset, line_end, ' ', use_color, offs);
            }
            offset = line_end;
        }
        proof {
            assert(spec_unified_body(
                data1@,
                data2@,
                offs@,
                offset as int,
                end as int,
                w_i,
                use_color,
            ) =~= Seq::<char>::empty());
        }
    }

    /// Appends one unified hunk: its header and its fixed-width body rows.
    #[verifier::rlimit(100)]
    fn format_unified_hunk(
        &self,
        out: &mut Vec<char>,
        data1: &[u8],
        data2: &[u8],
        differences: &[DiffEntry],
        hunk: &Vec<usize>,
        use_color: bool,
    )
        requires
            self.spec_config().width >= 1,
            hunk@.len() > 0,
            forall|k: int| 0 <= k < hunk@.len() ==> #[trigger] hunk@[k] < differences@.len(),
        ensures
            final(out)@ == old(out)@ + spec_unified_hunk(
                data1@,
                data2@,
                differences@,
                hunk@,
                self.spec_config().context as int,
                self.spec_config().width as int,
                use_color,
            ),
    {
        let context = self.config().context;
        let width = self.config().width;
        let first_offset = differences[hunk[0]].offset;
        let last_offset = differences[hunk[hunk.len() - 1]].offset;
        assert(hunk@[0] == hunk@.first() && hunk@[hunk@.len() - 1] == hunk@.last());
        let start = if first_offset >= context {
            first_offset - context
        } else {
            0
        };
        let reach = last_offset.saturating_add(context).saturating_add(1);
        let end1 = if reach < data1.len() {
            reach
        } else {
            data1.len()
        };
        let end2 = if reach < data2.len() {
            reach
        } else {
            data2.len()
        };
        let end = if end1 >= end2 {
            end1
        } else {
            end2
        };
        proof {
            assert(start as int == spec_hunk_start(differences@, hunk@, context as int));
            assert(end1 == spec_hunk_end(
                differences@,
                hunk@,
                context as int,
                data1@.len() as int,
            ));
            assert(end2 == spec_hunk_end(
                differences@,
                hunk@,
                context as int,
                data2@.len() as int,
            ));
        }
        let offs = self.hunk_offsets(differences, hunk);
        let l1 = if end1 >= start {
            end1 - start
        } else {
            0
        };
        let l2 = if end2 >= start {
            end2 - start
        } else {
            0
        };
        self.push_hunk_header(out, start, l1, l2, use_color);
        self.format_unified_body(out, data1, data2, &offs, start, end, width, use_color);
        assert(final(out)@ =~= old(out)@ + spec_unified_hunk(
            data1@,
            data2@,
            differences@,
            hunk@,
            self.spec_config().context as int,
            self.spec_config().width as int,
            use_color,
        ));
    }

    /// Formats differences in unified diff format: a file header and one
    /// hunk per group of nearby differences, each rendered as fixed-width
    /// rows with context.
    #[verifier::rlimit(100)]
    pub(crate) fn format_unified(
        &self,
        data1: &[u8],
        data2: &[u8],
        differences: &[DiffEntry],
        file1_name: &str,
        file2_name: &str,
        use_color: bool,
    ) -> (r: Vec<char>)
        requires
            self.spec_config().width >= 1,
        ensures
            r@ == spec_format_unified(
                data1@,
                data2@,
                differences@,
                file1_name@,
                file2_name@,
                self.spec_config().context as int,
                self.spec_config().width as int,
                use_color,
            ),
    {
        let mut out: Vec<char> = Vec::new();
        if differences.len() == 0 {
            return out;
        }
        if use_color {
            push_str_chars(&mut out, "\u{1b}[1;31m");
            push_str_chars(&mut out, "--- ");
            push_str_chars(&mut out, file1_name);
            push_str_chars(&mut out, "\u{1b}[0m");
            push_str_chars(&mut out, "\n");
            push_str_chars(&mut out, "\u{1b}[1;32m");
            push_str_chars(&mut out, "+++ ");
            push_str_chars(&mut out, file2_name);
            push_str_chars(&mut out, "\u{1b}[0m");
            push_str_chars(&mut out, "\n");
        } else {
            push_str_chars(&mut out, "--- ");
            push_str_chars(&mut out, file1_name);
            push_str_chars(&mut out, "\n");
            push_str_chars(&mut out, "+++ ");
            push_str_chars(&mut out, file2_name);
            push_str_chars(&mut out, "\n");
        }
        assert(out@ =~= spec_unified_header(file1_name@, file2_name@, use_color));
        let ghost hdr = out@;
        let hunks = self.group_into_hunks(differences);
        let ghost ctx = self.spec_config().context as nat;
        let ghost ghunks = crate::diff::spec_group_into_hunks(differences@, ctx);
        proof {
            crate::diff::lemma_hunks_partition(differences@, ctx);
            assert(hunks.deep_view() == ghunks);
        }
        let hn = hunks.len();
        let mut h: usize = 0;
        while h < hn
            invariant
                h <= hn,
                self.spec_config().width >= 1,
                ctx == self.spec_config().context as nat,
                hdr == spec_unified_header(file1_name@, file2_name@, use_color),
                hn == ghunks.len(),
                hunks.deep_view() == ghunks,
                forall|a: int, k: int|
                    0 <= a < ghunks.len() && 0 <= k < ghunks[a].len() ==> #[trigger] ghunks[a][k]
                        < differences@.len(),
                forall|a: int| 0 <= a < ghunks.len() ==> (#[trigger] ghunks[a]).len() > 0,
                out@ == hdr + spec_unified_hunks(
                    data1@,
                    data2@,
                    differences@,
                    ghunks,
                    ctx as int,
                    self.spec_config().width as int,
                    use_color,
                    h as int,
                ),
            decreases hn - h,
        {
            let hunk = &hunks[h];
            proof {
                assert(hunk@ == ghunks[h as int]);
            }
            let ghost out_before = out@;
            self.format_unified_hunk(&mut out, data1, data2, differences, hunk, use_color);
            proof {
                let w = self.spec_config().width as int;
                let piece = spec_unified_hunk(
                    data1@,
                    data2@,
                    differences@,
                    ghunks[h as int],
                    ctx as int,
                    w,
                    use_color,
                );
                assert(hunk@ == ghunks[h as int]);
                assert(out@ == out_before + piece);
                assert(spec_unified_hunks(
                    data1@,
                    data2@,
                    differences@,
                    ghunks,
                    ctx as int,
                    w,
                    use_color,
                    h + 1,
                ) == spec_unified_hunks(
                    data1@,
                    data2@,
                    differences@,
                    ghunks,
                    ctx as int,
                    w,
                    use_color,
                    h as int,
                ) + piece);
                assert(out@ =~= hdr + spec_unified_hunks(
                    data1@,
                    data2@,
                    differences@,
                    ghunks,
                    ctx as int,
                    w,
                    use_color,
                    h + 1,
                ));
            }
            h = h + 1;
        }
        chop_newline(&mut out);
        out
    }
}

/// The rendered diff in the configured format.
pub open spec fn spec_format_diff(
    d1: Seq<u8>,
    d2: Seq<u8>,
    entries: Seq<DiffEntry>,
    f1: Seq<char>,
    f2: Seq<char>,
    cfg: crate::diff::DiffConfig,
    color: bool,
) -> Seq<char> {
    match cfg.format {
        crate::diff::DiffFormat::Simple => spec_format_simple(entries, color),
        crate::diff::DiffFormat::Unified => spec_format_unified(
            d1,
            d2,
            entries,
            f1,
            f2,
            cfg.context as int,
            cfg.width as int,
            color,
        ),
        crate::diff::DiffFormat::SideBySide => crate::diff_side::spec_format_side_by_side(
            d1,
            d2,
            entries,
            f1,
            f2,
            cfg.context as int,
            cfg.width as int,
            color,
        ),
        crate::diff::DiffFormat::Patch => spec_format_patch(entries, f1, f2),
        crate::diff::DiffFormat::Summary => crate::diff_summary::spec_format_summary(
            entries,
            d1.len(),
            d2.len(),
            f1,
            f2,
        ),
    }
}

impl DiffCommand {
    /// Formats the diff results according to the configured format.
    ///
    /// The configured colour mode decides whether colour codes appear:
    /// always under `Always`, never under `Never`, and by the terminal
    /// under `Auto`.
    pub fn format_diff(
        &self,
        data1: &[u8],
        data2: &[u8],
        differences: &[DiffEntry],
        file1_name: &str,
        file2_name: &str,
    ) -> (r: Result<String, BinfiddleError>)
        requires
            self.spec_config().width >= 1,
        ensures
            r matches Ok(s) && (s@ == spec_format_diff(
                data1@,
                data2@,
                differences@,
                file1_name@,
                file2_name@,
                self.spec_config(),
                true,
            ) || s@ == spec_format_diff(
                data1@,
                data2@,
                differences@,
                file1_name@,
                file2_name@,
                self.spec_config(),
                false,
            )),
            self.spec_config().color == crate::color::ColorMode::Always ==> (r matches Ok(s) && s@
                == spec_format_diff(
                data1@,
                data2@,
                differences@,
                file1_name@,
                file2_name@,
                self.spec_config(),
                true,
            )),
            self.spec_config().color == crate::color::ColorMode::Never ==> (r matches Ok(s) && s@
                == spec_format_diff(
                data1@,
                data2@,
                differences@,
                file1_name@,
                file2_name@,
                self.spec_config(),
                false,
            )),
    {
        let use_color = self.config().color.should_use_color();
        match self.config().format {
            crate::diff::DiffFormat::Simple => {
                let out = self.format_simple(differences, use_color);
                Ok(chars_to_string(&out))
            },
            crate::diff::DiffFormat::Unified => {
                let out = self.format_unified(
                    data1,
                    data2,
                    differences,
                    file1_name,
                    file2_name,
                    use_color,
                );
                Ok(chars_to_string(&out))
            },
            crate::diff::DiffFormat::SideBySide => {
                let out = self.format_side_by_side(
                    data1,
                    data2,
                    differences,
                    file1_name,
                    file2_name,
                    use_color,
                );
                Ok(chars_to_string(&out))
            },
            crate::diff::DiffFormat::Patch => {
                let out = self.format_patch(differences, file1_name, file2_name);
                Ok(chars_to_string(&out))
            },
            crate::diff::DiffFormat::Summary => self.format_summary(
                data1,
                data2,
                differences,
                file1_name,
                file2_name,
            ),
        }
    }
}

} // verus!
