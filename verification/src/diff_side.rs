//! The side-by-side rendering of diff results: two hex columns, one per
//! file, with a marker between the columns on rows that differ.

use crate::diff::{DiffCommand, DiffEntry};
use crate::diff_render::{
    range_has_offset, spec_has_offset, spec_hunk_end, spec_hunk_offsets, spec_hunk_start,
    spec_range_has_offset,
};
use crate::text::{
    push_hex2, push_hex8, push_pad_right_str, push_repeat, push_str_chars, spec_hex2, spec_hex8,
    spec_pad_right, spec_repeat_char,
};
use vstd::prelude::*;

verus! {

/// One hex cell of a side-by-side line: two digits and a space, three
/// spaces past the buffer's end, coloured when the offset differs (red on
/// the left side, green on the right).
pub open spec fn spec_side_cell(
    data: Seq<u8>,
    o: int,
    color: bool,
    offs: Seq<usize>,
    is_left: bool,
) -> Seq<char> {
    if o >= data.len() {
        ("   ")@
    } else {
        if color && spec_has_offset(offs, o) {
            (if is_left {
                ("\u{1b}[1;31m")@
            } else {
                ("\u{1b}[1;32m")@
            }) + spec_hex2(data[o]) + ("\u{1b}[0m")@ + (" ")@
        } else {
            spec_hex2(data[o]) + (" ")@
        }
    }
}

/// The hex cells of a side-by-side line over `[lo, hi)`.
pub open spec fn spec_side_cells(
    data: Seq<u8>,
    lo: int,
    hi: int,
    color: bool,
    offs: Seq<usize>,
    is_left: bool,
) -> Seq<char>
    decreases hi - lo,
{
    if lo >= hi {
        Seq::empty()
    } else {
        spec_side_cells(data, lo, hi - 1, color, offs, is_left) + spec_side_cell(
            data,
            hi - 1,
            color,
            offs,
            is_left,
        )
    }
}

/// One side of a side-by-side row: the offset and the hex cells.
pub open spec fn spec_side_line(
    data: Seq<u8>,
    lo: int,
    hi: int,
    color: bool,
    offs: Seq<usize>,
    is_left: bool,
) -> Seq<char> {
    ("0x")@ + spec_hex8(lo as nat) + (": ")@ + spec_side_cells(data, lo, hi, color, offs, is_left)
}

/// The separator between the two sides: `!` on rows that differ, `|` on
/// context rows.
pub open spec fn spec_side_sep(has_diff: bool, color: bool) -> Seq<char> {
    if has_diff {
        if color {
            (" ")@ + ("\u{1b}[1;33m")@ + ("!")@ + ("\u{1b}[0m")@ + (" ")@
        } else {
            (" ! ")@
        }
    } else {
        (" | ")@
    }
}

/// One whole row of the side-by-side format: both sides, the separator,
/// and a newline.
pub open spec fn spec_side_row(
    d1: Seq<u8>,
    d2: Seq<u8>,
    offs: Seq<usize>,
    lo: int,
    hi: int,
    color: bool,
) -> Seq<char> {
    let has = spec_range_has_offset(offs, lo, hi);
    spec_side_line(d1, lo, hi, color, offs, true) + spec_side_sep(has, color) + spec_side_line(
        d2,
        lo,
        hi,
        color,
        offs,
        false,
    ) + ("\n")@
}

/// The rows of one side-by-side hunk from `pos` to `end`, each ending in a
/// newline.
pub open spec fn spec_side_rows(
    d1: Seq<u8>,
    d2: Seq<u8>,
    offs: Seq<usize>,
    pos: int,
    end: int,
    width: int,
    color: bool,
) -> Seq<char>
    decreases end - pos,
{
    if pos >= end || width <= 0 {
        Seq::empty()
    } else {
        let le = vstd::math::min(pos + width, end);
        spec_side_row(d1, d2, offs, pos, le, color) + spec_side_rows(
            d1,
            d2,
            offs,
            le,
            end,
            width,
            color,
        )
    }
}

/// One whole side-by-side hunk: its rows, with the start aligned down to a
/// row boundary, followed by a blank line.
pub open spec fn spec_side_hunk(
    d1: Seq<u8>,
    d2: Seq<u8>,
    entries: Seq<DiffEntry>,
    hunk: Seq<usize>,
    offs: Seq<usize>,
    context: int,
    width: int,
    color: bool,
) -> Seq<char> {
    if hunk.len() == 0 || width <= 0 {
        Seq::empty()
    } else {
        let raw_start = spec_hunk_start(entries, hunk, context);
        let start = (raw_start / width) * width;
        let end1 = spec_hunk_end(entries, hunk, context, d1.len() as int);
        let end2 = spec_hunk_end(entries, hunk, context, d2.len() as int);
        let end = vstd::math::max(end1, end2);
        spec_side_rows(d1, d2, offs, start, end, width, color) + ("\n")@
    }
}

/// The side-by-side hunks rendered in order, over a prefix of the hunk
/// list. All marked offsets come from the whole difference list.
pub open spec fn spec_side_hunks(
    d1: Seq<u8>,
    d2: Seq<u8>,
    entries: Seq<DiffEntry>,
    hunks: Seq<Seq<usize>>,
    offs: Seq<usize>,
    context: int,
    width: int,
    color: bool,
    upto: int,
) -> Seq<char>
    decreases upto,
{
    if upto <= 0 {
        Seq::empty()
    } else {
        spec_side_hunks(d1, d2, entries, hunks, offs, context, width, color, upto - 1)
            + spec_side_hunk(d1, d2, entries, hunks[upto - 1], offs, context, width, color)
    }
}

/// The column width of one side: three characters per byte and room for
/// the offset, clamped at the machine limit.
pub open spec fn spec_half_width(width: int) -> int {
    vstd::math::min(width * 3 + 12, usize::MAX as int)
}

/// The two header rows of the side-by-side format: the file names over
/// their columns, and a dashed rule.
pub open spec fn spec_side_header(f1: Seq<char>, f2: Seq<char>, hw: int, color: bool) -> Seq<char> {
    (if color {
        ("\u{1b}[1;31m")@ + spec_pad_right(f1, hw, ' ') + ("\u{1b}[0m")@ + (" | ")@ + (
        "\u{1b}[1;32m")@ + spec_pad_right(f2, hw, ' ') + ("\u{1b}[0m")@ + ("\n")@
    } else {
        spec_pad_right(f1, hw, ' ') + (" | ")@ + spec_pad_right(f2, hw, ' ') + ("\n")@
    }) + spec_repeat_char('-', hw as nat) + ("-+-")@ + spec_repeat_char('-', hw as nat) + ("\n")@
}

/// A string with every trailing newline removed.
pub open spec fn spec_trim_newlines(s: Seq<char>) -> Seq<char>
    decreases s.len(),
{
    if s.len() > 0 && s.last() == '\n' {
        spec_trim_newlines(s.drop_last())
    } else {
        s
    }
}

/// The whole side-by-side format: the header rows, then every hunk,
/// without trailing newlines; empty when there are no differences.
pub open spec fn spec_format_side_by_side(
    d1: Seq<u8>,
    d2: Seq<u8>,
    entries: Seq<DiffEntry>,
    f1: Seq<char>,
    f2: Seq<char>,
    context: int,
    width: int,
    color: bool,
) -> Seq<char> {
    if entries.len() == 0 {
        Seq::empty()
    } else {
        let hunks = crate::diff::spec_group_into_hunks(entries, context as nat);
        let offs = spec_hunk_offsets(entries, crate::diff::spec_index_seq(entries.len() as int));
        spec_trim_newlines(
            spec_side_header(f1, f2, spec_half_width(width), color) + spec_side_hunks(
                d1,
                d2,
                entries,
                hunks,
                offs,
                context,
                width,
                color,
                hunks.len() as int,
            ),
        )
    }
}

/// Removes every trailing newline from the accumulator.
fn trim_newlines(out: &mut Vec<char>)
    ensures
        final(out)@ == spec_trim_newlines(old(out)@),
{
    while out.len() > 0 && out[out.len() - 1] == '\n'
        invariant
            spec_trim_newlines(out@) == spec_trim_newlines(old(out)@),
        decreases out@.len(),
    {
        out.pop();
    }
}

impl DiffCommand {
    /// Appends one side of a side-by-side row.
    fn format_side_line(
        &self,
        out: &mut Vec<char>,
        data: &[u8],
        start: usize,
        end: usize,
        use_color: bool,
        offs: &Vec<usize>,
        is_left: bool,
    )
        requires
            start <= end,
        ensures
            final(out)@ == old(out)@ + spec_side_line(
                data@,
                start as int,
                end as int,
                use_color,
                offs@,
                is_left,
            ),
    {
        push_str_chars(out, "0x");
        push_hex8(out, start);
        push_str_chars(out, ": ");
        let ghost head = old(out)@ + ("0x")@ + spec_hex8(start as nat) + (": ")@;
        assert(out@ =~= head);
        let mut o: usize = start;
        while o < end
            invariant
                start <= o <= end,
                out@ == head + spec_side_cells(
                    data@,
                    start as int,
                    o as int,
                    use_color,
                    offs@,
                    is_left,
                ),
            decreases end - o,
        {
            if o >= data.len() {
                push_str_chars(out, "   ");
            } else {
                let is_diff = crate::diff_render::has_offset(offs, o);
                if use_color && is_diff {
                    if is_left {
                        push_str_chars(out, "\u{1b}[1;31m");
                    } else {
                        push_str_chars(out, "\u{1b}[1;32m");
                    }
                    push_hex2(out, data[o]);
                    push_str_chars(out, "\u{1b}[0m");
                    push_str_chars(out, " ");
                } else {
                    push_hex2(out, data[o]);
                    push_str_chars(out, " ");
                }
            }
            proof {
                assert(out@ =~= head + spec_side_cells(
                    data@,
                    start as int,
                    o + 1,
                    use_color,
                    offs@,
                    is_left,
                ));
            }
            o = o + 1;
        }
    }

    /// Appends one row: both sides, the separator, and a newline.
    fn format_side_row(
        &self,
        out: &mut Vec<char>,
        data1: &[u8],
        data2: &[u8],
        offs: &Vec<usize>,
        lo: usize,
        hi: usize,
        use_color: bool,
    )
        requires
            lo <= hi,
        ensures
            final(out)@ == old(out)@ + spec_side_row(
                data1@,
                data2@,
                offs@,
                lo as int,
                hi as int,
                use_color,
            ),
    {
        let has_diff = range_has_offset(offs, lo, hi);
        self.format_side_line(out, data1, lo, hi, use_color, offs, true);
        if has_diff {
            if use_color {
                push_str_chars(out, " ");
                push_str_chars(out, "\u{1b}[1;33m");
                push_str_chars(out, "!");
                push_str_chars(out, "\u{1b}[0m");
                push_str_chars(out, " ");
            } else {
                push_str_chars(out, " ! ");
            }
        } else {
            push_str_chars(out, " | ");
        }
        self.format_side_line(out, data2, lo, hi, use_color, offs, false);
        push_str_chars(out, "\n");
        assert(final(out)@ =~= old(out)@ + spec_side_row(
            data1@,
            data2@,
            offs@,
            lo as int,
            hi as int,
            use_color,
        ));
    }

    /// Appends the rows of one side-by-side hunk window.
    fn format_side_rows(
        &self,
        out: &mut Vec<char>,
        data1: &[u8],
        data2: &[u8],
        offs: &Vec<usize>,
        start: usize,
        end: usize,
        width: usize,
        use_color: bool,
    )
        requires
            width >= 1,
        ensures
            final(out)@ == old(out)@ + spec_side_rows(
                data1@,
                data2@,
                offs@,
                start as int,
                end as int,
                width as int,
                use_color,
            ),
    {
        let ghost w_i = width as int;
        let mut offset: usize = start;
        while offset < end
            invariant
                width >= 1,
                w_i == width as int,
                out@ + spec_side_rows(
                    data1@,
                    data2@,
                    offs@,
                    offset as int,
                    end as int,
                    w_i,
                    use_color,
                ) == old(out)@ + spec_side_rows(
                    data1@,
                    data2@,
                    offs@,
                    start as int,
                    end as int,
                    w_i,
                    use_color,
                ),
            decreases end - offset,
        {
            let reach = offset.saturating_add(width);
            let line_end = if reach < end {
                reach
            } else {
                end
            };
            assert(line_end as int == vstd::math::min(offset as int + w_i, end as int));
            self.format_side_row(out, data1, data2, offs, offset, line_end, use_color);
            offset = line_end;
        }
        proof {
            assert(spec_side_rows(
                data1@,
                data2@,
                offs@,
                offset as int,
                end as int,
                w_i,
                use_color,
            ) =~= Seq::<char>::empty());
        }
    }

    /// Formats differences in side-by-side format: the two files' hex rows
    /// in two columns, differing rows marked between the columns.
    #[verifier::rlimit(100)]
    pub(crate) fn format_side_by_side(
        &self,
        data1: &[u8],
        data2: &[u8],
        differences: &[DiffEntry],
        file1_name: &str,
        file2_name: &str,
        use_color: bool,
    ) -> (r: Vec<char>)
        requires
            self.spec_config().width >= 1,
        ensures
            r@ == spec_format_side_by_side(
                data1@,
                data2@,
                differences@,
                file1_name@,
                file2_name@,
                self.spec_config().context as int,
                self.spec_config().width as int,
                use_color,
            ),
    {
        let mut out: Vec<char> = Vec::new();
        if differences.len() == 0 {
            return out;
        }
        let width = self.config().width;
        let context = self.config().context;
        let half_width: usize = if width > (usize::MAX - 12) / 3 {
            usize::MAX
        } else {
            assert(width * 3 + 12 <= usize::MAX) by (nonlinear_arith)
                requires
                    width <= (usize::MAX - 12) / 3,
            ;
            width * 3 + 12
        };
        proof {
            assert(half_width as int == spec_half_width(width as int)) by (nonlinear_arith)
                requires
                    half_width == if width > (usize::MAX - 12) / 3 {
                        usize::MAX as int
                    } else {
                        width * 3 + 12
                    },
                    spec_half_width(width as int) == vstd::math::min(
                        width as int * 3 + 12,
                        usize::MAX as int,
                    ),
            ;
        }
        // Header rows.
        if use_color {
            push_str_chars(&mut out, "\u{1b}[1;31m");
            push_pad_right_str(&mut out, file1_name, half_width, ' ');
            push_str_chars(&mut out, "\u{1b}[0m");
            push_str_chars(&mut out, " | ");
            push_str_chars(&mut out, "\u{1b}[1;32m");
            push_pad_right_str(&mut out, file2_name, half_width, ' ');
            push_str_chars(&mut out, "\u{1b}[0m");
            push_str_chars(&mut out, "\n");
        } else {
            push_pad_right_str(&mut out, file1_name, half_width, ' ');
            push_str_chars(&mut out, " | ");
            push_pad_right_str(&mut out, file2_name, half_width, ' ');
            push_str_chars(&mut out, "\n");
        }
        push_repeat(&mut out, '-', half_width);
        push_str_chars(&mut out, "-+-");
        push_repeat(&mut out, '-', half_width);
        push_str_chars(&mut out, "\n");
        assert(out@ =~= spec_side_header(
            file1_name@,
            file2_name@,
            spec_half_width(width as int),
            use_color,
        ));
        let ghost hdr = out@;
        // Every difference offset is marked, whichever hunk a row is in.
        let ghost ctx = self.spec_config().context as nat;
        let ghost n_entries = differences@.len() as int;
        let mut offs: Vec<usize> = Vec::new();
        let n = differences.len();
        let mut j: usize = 0;
        while j < n
            invariant
                j <= n,
                n == differences@.len(),
                offs@ =~= spec_hunk_offsets(differences@, crate::diff::spec_index_seq(n as int)).take(
                    j as int,
                ),
            decreases n - j,
        {
            offs.push(differences[j].offset);
            assert(offs@ =~= spec_hunk_offsets(
                differences@,
                crate::diff::spec_index_seq(n as int),
            ).take(j + 1));
            j = j + 1;
        }
        assert(offs@ =~= spec_hunk_offsets(differences@, crate::diff::spec_index_seq(n as int)));
        let hunks = self.group_into_hunks(differences);
        let ghost ghunks = crate::diff::spec_group_into_hunks(differences@, ctx);
        proof {
            crate::diff::lemma_hunks_partition(differences@, ctx);
            assert(hunks.deep_view() == ghunks);
        }
        let hn = hunks.len();
        let mut h: usize = 0;
        while h < hn
            invariant
                h <= hn,
                width >= 1,
                width == self.spec_config().width,
                context == self.spec_config().context,
                ctx == self.spec_config().context as nat,
                hn == ghunks.len(),
                hunks.deep_view() == ghunks,
                offs@ == spec_hunk_offsets(
                    differences@,
                    crate::diff::spec_index_seq(differences@.len() as int),
                ),
                hdr == spec_side_header(
                    file1_name@,
                    file2_name@,
                    spec_half_width(width as int),
                    use_color,
                ),
                forall|a: int, k: int|
                    0 <= a < ghunks.len() && 0 <= k < ghunks[a].len() ==> #[trigger] ghunks[a][k]
                        < differences@.len(),
                forall|a: int| 0 <= a < ghunks.len() ==> (#[trigger] ghunks[a]).len() > 0,
                out@ == hdr + spec_side_hunks(
                    data1@,
                    data2@,
                    differences@,
                    ghunks,
                    offs@,
                    ctx as int,
                    width as int,
                    use_color,
                    h as int,
                ),
            decreases hn - h,
        {
            let hunk = &hunks[h];
            proof {
                assert(hunk@ == ghunks[h as int]);
            }
            let ghost out_before = out@;
            let first_offset = differences[hunk[0]].offset;
            let last_offset = differences[hunk[hunk.len() - 1]].offset;
            assert(hunk@[0] == hunk@.first() && hunk@[hunk@.len() - 1] == hunk@.last());
            let raw_start = if first_offset >= context {
                first_offset - context
            } else {
                0
            };
            let q = raw_start / width;
            assert(q * width <= raw_start) by (nonlinear_arith)
                requires
                    width >= 1,
                    q == raw_start / width,
            ;
            let start = q * width;
            let reach = last_offset.saturating_add(context).saturating_add(1);
            let end1 = if reach < data1.len() {
                reach
            } else {
                data1.len()
            };
            let end2 = if reach < data2.len() {
                reach
            } else {
                data2.len()
            };
            let end = if end1 >= end2 {
                end1
            } else {
                end2
            };
            proof {
                assert(raw_start as int == spec_hunk_start(differences@, hunk@, context as int));
                assert(end1 == spec_hunk_end(
                    differences@,
                    hunk@,
                    context as int,
                    data1@.len() as int,
                ));
                assert(end2 == spec_hunk_end(
                    differences@,
                    hunk@,
                    context as int,
                    data2@.len() as int,
                ));
            }
            self.format_side_rows(&mut out, data1, data2, &offs, start, end, width, use_color);
            push_str_chars(&mut out, "\n");
            proof {
                assert(out@ =~= out_before + spec_side_hunk(
                    data1@,
                    data2@,
                    differences@,
                    ghunks[h as int],
                    offs@,
                    ctx as int,
                    width as int,
                    use_color,
                ));
                assert(out@ =~= hdr + spec_side_hunks(
                    data1@,
                    data2@,
                    differences@,
                    ghunks,
                    offs@,
                    ctx as int,
                    width as int,
                    use_color,
                    h + 1,
                ));
            }
            h = h + 1;
        }
        trim_newlines(&mut out);
        out
    }
}

} // verus!
