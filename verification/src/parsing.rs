//! Parsing of offsets and ranges from their textual forms: a range is
//! `start..end` or a single index, and an index starting with `0x` (or a
//! bare leading zero) is read as hexadecimal.

use crate::errors::BinfiddleError;
use crate::text::str_to_chars;
use vstd::prelude::*;

verus! {

/// The value of one decimal digit character.
pub open spec fn spec_dec_digit_val(c: char) -> Option<int> {
    if c == '0' {
        Some(0int)
    } else if c == '1' {
        Some(1int)
    } else if c == '2' {
        Some(2int)
    } else if c == '3' {
        Some(3int)
    } else if c == '4' {
        Some(4int)
    } else if c == '5' {
        Some(5int)
    } else if c == '6' {
        Some(6int)
    } else if c == '7' {
        Some(7int)
    } else if c == '8' {
        Some(8int)
    } else if c == '9' {
        Some(9int)
    } else {
        None
    }
}

/// The value of one hexadecimal digit character, either case.
pub open spec fn spec_hex_digit_val(c: char) -> Option<int> {
    if c == 'a' || c == 'A' {
        Some(10int)
    } else if c == 'b' || c == 'B' {
        Some(11int)
    } else if c == 'c' || c == 'C' {
        Some(12int)
    } else if c == 'd' || c == 'D' {
        Some(13int)
    } else if c == 'e' || c == 'E' {
        Some(14int)
    } else if c == 'f' || c == 'F' {
        Some(15int)
    } else {
        spec_dec_digit_val(c)
    }
}

/// The value a digit string denotes in the given base, `None` when it is
/// empty or holds a character that is no digit of that base.
pub open spec fn spec_digits_val(s: Seq<char>, hex: bool) -> Option<int>
    decreases s.len(),
{
    if s.len() == 0 {
        None
    } else {
        let d = if hex {
            spec_hex_digit_val(s.last())
        } else {
            spec_dec_digit_val(s.last())
        };
        if s.len() == 1 {
            d
        } else {
            match (spec_digits_val(s.drop_last(), hex), d) {
                (Some(p), Some(dv)) => Some(p * (if hex {
                    16int
                } else {
                    10int
                }) + dv),
                _ => None,
            }
        }
    }
}

/// The value an index string denotes: hexadecimal after a `0x`/`0X`
/// prefix or a bare leading zero, decimal otherwise.
pub open spec fn spec_index_value(s: Seq<char>) -> Option<int> {
    if s.len() > 2 && s[0] == '0' && (s[1] == 'x' || s[1] == 'X') {
        spec_digits_val(s.subrange(2, s.len() as int), true)
    } else if s.len() > 1 && s[0] == '0' {
        spec_digits_val(s.subrange(1, s.len() as int), true)
    } else {
        spec_digits_val(s, false)
    }
}

/// The exec reading of a digit vector in the given base, with overflow
/// reported as failure.
fn digits_val(v: &Vec<char>, lo: usize, hi: usize, hex: bool) -> (r: Option<usize>)
    requires
        lo <= hi <= v@.len(),
    ensures
        match spec_digits_val(v@.subrange(lo as int, hi as int), hex) {
            None => r is None,
            Some(val) => if val <= usize::MAX {
                r == Some(val as usize)
            } else {
                r is None
            },
        },
{
    let ghost s = v@.subrange(lo as int, hi as int);
    if lo == hi {
        return None;
    }
    let radix: usize = if hex {
        16
    } else {
        10
    };
    let mut acc: usize = 0;
    let mut i: usize = lo;
    let mut ok = true;
    while i < hi
        invariant
            lo <= i <= hi <= v@.len(),
            hi > lo,
            s == v@.subrange(lo as int, hi as int),
            radix == if hex {
                16int
            } else {
                10int
            },
            ok && i > lo ==> Some(acc as int) == spec_digits_val(
                v@.subrange(lo as int, i as int),
                hex,
            ),
            i == lo ==> ok && acc == 0,
            !ok ==> {
                ||| spec_digits_val(s, hex) is None
                ||| (spec_digits_val(s, hex) matches Some(val) && val > usize::MAX)
            },
        decreases hi - i,
    {
        let c = v[i];
        let dv: Option<usize> = digit_of(c, hex);
        proof {
            assert(v@.subrange(lo as int, i + 1).drop_last() =~= v@.subrange(lo as int, i as int));
            assert(v@.subrange(lo as int, i + 1).last() == v@[i as int]);
        }
        if ok {
            match dv {
                Some(d) => {
                    let ghost mx = (usize::MAX - d) as int;
                    let ghost rdx = radix as int;
                    let ghost q = mx / rdx;
                    let ghost rem = mx % rdx;
                    proof {
                        assert(q * rdx + rem == mx && 0 <= rem < rdx) by {
                            vstd::arithmetic::div_mod::lemma_fundamental_div_mod(mx, rdx);
                            vstd::arithmetic::div_mod::lemma_mod_bound(mx, rdx);
                        }
                    }
                    if acc > (usize::MAX - d) / radix {
                        ok = false;
                        proof {
                            lemma_digits_val_monotone(v@, lo as int, i + 1, hi as int, hex);
                            assert((acc as int) * rdx + d > usize::MAX) by (nonlinear_arith)
                                requires
                                    acc as int > q,
                                    rdx >= 10,
                                    0 <= d,
                                    (usize::MAX as int) == q * rdx + rem + d,
                                    0 <= rem < rdx,
                            ;
                        }
                    } else {
                        proof {
                            assert((acc as int) * rdx + d <= usize::MAX) by (nonlinear_arith)
                                requires
                                    acc as int <= q,
                                    rdx >= 10,
                                    0 <= d,
                                    (usize::MAX as int) == q * rdx + rem + d,
                                    0 <= rem < rdx,
                            ;
                        }
                        acc = acc * radix + d;
                    }
                },
                None => {
                    ok = false;
                    proof {
                        lemma_digits_val_none(v@, lo as int, i + 1, hi as int, hex);
                    }
                },
            }
        }
        i = i + 1;
    }
    if ok {
        proof {
            assert(v@.subrange(lo as int, hi as int) =~= s);
        }
        Some(acc)
    } else {
        None
    }
}

/// The exec reading of one digit character.
fn digit_of(c: char, hex: bool) -> (r: Option<usize>)
    ensures
        match (if hex {
            spec_hex_digit_val(c)
        } else {
            spec_dec_digit_val(c)
        }) {
            Some(v) => r == Some(v as usize),
            None => r is None,
        },
{
    match c {
        '0' => Some(0),
        '1' => Some(1),
        '2' => Some(2),
        '3' => Some(3),
        '4' => Some(4),
        '5' => Some(5),
        '6' => Some(6),
        '7' => Some(7),
        '8' => Some(8),
        '9' => Some(9),
        'a' | 'A' => if hex {
            Some(10)
        } else {
            None
        },
        'b' | 'B' => if hex {
            Some(11)
        } else {
            None
        },
        'c' | 'C' => if hex {
            Some(12)
        } else {
            None
        },
        'd' | 'D' => if hex {
            Some(13)
        } else {
            None
        },
        'e' | 'E' => if hex {
            Some(14)
        } else {
            None
        },
        'f' | 'F' => if hex {
            Some(15)
        } else {
            None
        },
        _ => None,
    }
}

/// A longer digit string on the same prefix denotes a value at least as
/// large, or fails.
proof fn lemma_digits_val_monotone(v: Seq<char>, lo: int, mid: int, hi: int, hex: bool)
    requires
        0 <= lo < mid <= hi <= v.len(),
    ensures
        match spec_digits_val(v.subrange(lo, hi), hex) {
            None => true,
            Some(val) => match spec_digits_val(v.subrange(lo, mid), hex) {
                None => false,
                Some(p) => p <= val,
            },
        },
    decreases hi - mid,
{
    if mid < hi {
        lemma_digits_val_monotone(v, lo, mid + 1, hi, hex);
        assert(v.subrange(lo, mid + 1).drop_last() =~= v.subrange(lo, mid));
        let radix: int = if hex {
            16
        } else {
            10
        };
        match spec_digits_val(v.subrange(lo, mid + 1), hex) {
            None => {},
            Some(q) => {
                match spec_digits_val(v.subrange(lo, mid), hex) {
                    None => {},
                    Some(p) => {
                        let d = if hex {
                            spec_hex_digit_val(v.subrange(lo, mid + 1).last())
                        } else {
                            spec_dec_digit_val(v.subrange(lo, mid + 1).last())
                        };
                        assert(q == p * radix + d->0);
                        assert(p >= 0) by {
                            lemma_digits_val_nonneg(v.subrange(lo, mid), hex);
                        }
                        assert(p <= p * radix) by (nonlinear_arith)
                            requires
                                radix >= 10,
                                p >= 0,
                        ;
                    },
                }
            },
        }
    }
}

/// A digit string's value is never negative.
proof fn lemma_digits_val_nonneg(s: Seq<char>, hex: bool)
    ensures
        match spec_digits_val(s, hex) {
            None => true,
            Some(v) => v >= 0,
        },
    decreases s.len(),
{
    if s.len() > 1 {
        lemma_digits_val_nonneg(s.drop_last(), hex);
        let radix: int = if hex {
            16
        } else {
            10
        };
        match spec_digits_val(s.drop_last(), hex) {
            Some(p) => {
                assert(p * radix >= 0) by (nonlinear_arith)
                    requires
                        p >= 0,
                        radix >= 10,
                ;
            },
            None => {},
        }
    }
}

/// A failing prefix makes the whole digit string fail.
proof fn lemma_digits_val_none(v: Seq<char>, lo: int, mid: int, hi: int, hex: bool)
    requires
        0 <= lo < mid <= hi <= v.len(),
        spec_digits_val(v.subrange(lo, mid), hex) is None,
    ensures
        spec_digits_val(v.subrange(lo, hi), hex) is None,
    decreases hi - mid,
{
    if mid < hi {
        assert(v.subrange(lo, mid + 1).drop_last() =~= v.subrange(lo, mid));
        lemma_digits_val_none(v, lo, mid + 1, hi, hex);
    }
}

/// Parses one index: hexadecimal after `0x` or a bare leading zero,
/// decimal otherwise; a value beyond the machine range fails the parse,
/// and one beyond `max_len` is out of bounds.
pub fn parse_index(index_str: &str, max_len: usize) -> (r: Result<usize, BinfiddleError>)
    ensures
        match spec_index_value(index_str@) {
            None => r matches Err(e) && e matches BinfiddleError::Parse(_),
            Some(val) => if val > usize::MAX {
                r matches Err(e) && e matches BinfiddleError::Parse(_)
            } else if val > max_len {
                r matches Err(e) && e matches BinfiddleError::InvalidRange(_)
            } else {
                r == Ok::<usize, BinfiddleError>(val as usize)
            },
        },
        r matches Ok(i) ==> spec_index_value(index_str@) == Some(i as int) && i <= max_len,
        r matches Err(e) ==> (e matches BinfiddleError::Parse(_) || e matches
            BinfiddleError::InvalidRange(_)),
{
    let v = str_to_chars(index_str);
    let n = v.len();
    let parsed: Option<usize> = if n > 2 && v[0] == '0' && (v[1] == 'x' || v[1] == 'X') {
        let r = digits_val(&v, 2, n, true);
        proof {
            assert(v@.subrange(2, n as int) == index_str@.subrange(2, index_str@.len() as int));
            lemma_digits_val_nonneg(v@.subrange(2, n as int), true);
        }
        r
    } else if n > 1 && v[0] == '0' {
        let r = digits_val(&v, 1, n, true);
        proof {
            assert(v@.subrange(1, n as int) == index_str@.subrange(1, index_str@.len() as int));
            lemma_digits_val_nonneg(v@.subrange(1, n as int), true);
        }
        r
    } else {
        let r = digits_val(&v, 0, n, false);
        proof {
            assert(v@.subrange(0, n as int) =~= index_str@);
            lemma_digits_val_nonneg(v@.subrange(0, n as int), false);
        }
        r
    };
    match parsed {
        None => Err(
            BinfiddleError::parse("Failed to parse index '", index_str, "'"),
        ),
        Some(index) => {
            if index > max_len {
                Err(
                    BinfiddleError::InvalidRange(
                        crate::errors::join_msg("Index '", index_str, "' out of bounds"),
                    ),
                )
            } else {
                Ok(index)
            }
        },
    }
}

/// The position of the leftmost `..` at or after `from`, if any.
pub open spec fn spec_find_dd(s: Seq<char>, from: int) -> Option<int>
    decreases s.len() - from,
{
    if from < 0 || from + 2 > s.len() {
        None
    } else if s[from] == '.' && s[from + 1] == '.' {
        Some(from)
    } else {
        spec_find_dd(s, from + 1)
    }
}

/// Finds the leftmost `..` at or after `from`.
fn find_dd(v: &Vec<char>, from: usize) -> (r: Option<usize>)
    requires
        from <= v@.len(),
    ensures
        match (r, spec_find_dd(v@, from as int)) {
            (Some(a), Some(b)) => a == b,
            (None, None) => true,
            _ => false,
        },
        r matches Some(i) ==> from <= i && i + 2 <= v@.len(),
{
    let n = v.len();
    let mut i: usize = from;
    while n >= 2 && i <= n - 2
        invariant
            from <= i <= n,
            n == v@.len(),
            spec_find_dd(v@, from as int) == spec_find_dd(v@, i as int),
        decreases n - i,
    {
        if v[i] == '.' && v[i + 1] == '.' {
            return Some(i);
        }
        i = i + 1;
    }
    None
}

/// What a well-formed range string denotes: a start, and an end unless
/// open-ended. The empty string denotes the whole buffer; a single index
/// denotes the one-byte range there (clamped at the machine limit).
pub open spec fn spec_parse_range(s: Seq<char>, max_len: int) -> Option<(int, Option<int>)> {
    if s.len() == 0 {
        Some((0, None::<int>))
    } else {
        match spec_find_dd(s, 0) {
            None => match spec_index_value(s) {
                Some(v) => if 0 <= v <= max_len && v <= usize::MAX {
                    Some(
                        (
                            v,
                            Some(
                                if v + 1 <= usize::MAX {
                                    v + 1
                                } else {
                                    usize::MAX as int
                                },
                            ),
                        ),
                    )
                } else {
                    None
                },
                None => None,
            },
            Some(dd) => {
                let part1 = s.subrange(0, dd);
                let part2 = s.subrange(dd + 2, s.len() as int);
                if spec_find_dd(part2, 0) is Some {
                    None
                } else {
                    let start = if part1.len() == 0 {
                        Some(0int)
                    } else {
                        spec_index_value(part1)
                    };
                    match start {
                        None => None,
                        Some(sv) => if !(0 <= sv <= max_len && sv <= usize::MAX) {
                            None
                        } else {
                            if part2.len() == 0 {
                                Some((sv, None::<int>))
                            } else {
                                match spec_index_value(part2) {
                                    None => None,
                                    Some(ev) => if 0 <= ev <= max_len && ev <= usize::MAX {
                                        Some((sv, Some(ev)))
                                    } else {
                                        None
                                    },
                                }
                            }
                        },
                    }
                }
            },
        }
    }
}

/// Parses a range of the form `start..end`, an open-ended `start..` or
/// `..end`, or a single index.
///
/// Succeeds exactly on the strings `spec_parse_range` accepts, with the
/// values it gives; a malformed string yields `Parse` and an in-range
/// failure yields the error `parse_index` reports.
pub fn parse_range(range_str: &str, max_len: usize) -> (r: Result<
    (usize, Option<usize>),
    BinfiddleError,
>)
    ensures
        match spec_parse_range(range_str@, max_len as int) {
            Some(val) => r matches Ok(p) && p.0 == val.0 && (match (p.1, val.1) {
                (Some(a), Some(b)) => a == b,
                (None, None) => true,
                _ => false,
            }),
            None => r is Err && (r matches Err(e) ==> (e matches BinfiddleError::Parse(_) || e
                matches BinfiddleError::InvalidRange(_))),
        },
{
    let v = str_to_chars(range_str);
    if v.len() == 0 {
        return Ok((0, None));
    }
    match find_dd(&v, 0) {
        None => {
            let start = parse_index(range_str, max_len)?;
            let end = start.saturating_add(1);
            Ok((start, Some(end)))
        },
        Some(dd) => {
            match find_dd(&v, dd + 2) {
                Some(_) => {
                    proof {
                        lemma_find_dd_shift(v@, dd + 2, 0);
                    }
                    Err(
                        BinfiddleError::parse(
                            "Invalid range format. Use 'start..end' or 'index'",
                            "",
                            "",
                        ),
                    )
                },
                None => {
                    proof {
                        lemma_find_dd_shift(v@, dd + 2, 0);
                    }
                    let part1 = crate::text::chars_to_string(
                        &subrange_chars(&v, 0, dd),
                    );
                    let part2 = crate::text::chars_to_string(
                        &subrange_chars(&v, dd + 2, v.len()),
                    );
                    let start: usize = if part1.as_str().unicode_len() == 0 {
                        0
                    } else {
                        parse_index(part1.as_str(), max_len)?
                    };
                    if part2.as_str().unicode_len() == 0 {
                        Ok((start, None))
                    } else {
                        let end = parse_index(part2.as_str(), max_len)?;
                        Ok((start, Some(end)))
                    }
                },
            }
        },
    }
}

/// Finding `..` in a suffix corresponds to finding it in the whole.
proof fn lemma_find_dd_shift(s: Seq<char>, base: int, from: int)
    requires
        0 <= base <= s.len(),
        0 <= from,
    ensures
        (spec_find_dd(s.subrange(base, s.len() as int), from) is Some) <==> (spec_find_dd(
            s,
            base + from,
        ) is Some),
    decreases s.len() - base - from,
{
    let suf = s.subrange(base, s.len() as int);
    if from + 2 > suf.len() {
    } else {
        assert(suf[from] == s[base + from]);
        assert(suf[from + 1] == s[base + from + 1]);
        if !(suf[from] == '.' && suf[from + 1] == '.') {
            lemma_find_dd_shift(s, base, from + 1);
        }
    }
}

/// Whether a character counts as trimmable whitespace.
pub open spec fn spec_is_ws(c: char) -> bool {
    c == ' ' || c == '\t' || c == '\n' || c == '\r'
}

/// A string with leading whitespace removed.
pub open spec fn spec_trim_start(s: Seq<char>) -> Seq<char>
    decreases s.len(),
{
    if s.len() > 0 && spec_is_ws(s.first()) {
        spec_trim_start(s.drop_first())
    } else {
        s
    }
}

/// A string with trailing whitespace removed.
pub open spec fn spec_trim_end(s: Seq<char>) -> Seq<char>
    decreases s.len(),
{
    if s.len() > 0 && spec_is_ws(s.last()) {
        spec_trim_end(s.drop_last())
    } else {
        s
    }
}

/// A string with surrounding whitespace removed.
pub open spec fn spec_trim(s: Seq<char>) -> Seq<char> {
    spec_trim_end(spec_trim_start(s))
}

/// The position of the leftmost comma at or after `from`, if any.
pub open spec fn spec_find_comma(s: Seq<char>, from: int) -> Option<int>
    decreases s.len() - from,
{
    if from < 0 || from >= s.len() {
        None
    } else if s[from] == ',' {
        Some(from)
    } else {
        spec_find_comma(s, from + 1)
    }
}

/// What a comma-separated ignore list denotes: one `(start, end)` pair
/// per non-empty segment, a segment without an explicit end covering one
/// byte; `None` when any segment fails to parse.
pub open spec fn spec_ignore_ranges(s: Seq<char>) -> Option<Seq<(usize, usize)>>
    decreases s.len(),
{
    let (seg, rest) = match spec_find_comma(s, 0) {
        None => (s, None::<Seq<char>>),
        Some(c) => if 0 <= c < s.len() {
            (s.subrange(0, c), Some(s.subrange(c + 1, s.len() as int)))
        } else {
            (s, None::<Seq<char>>)
        },
    };
    let t = spec_trim(seg);
    let head: Option<Seq<(usize, usize)>> = if t.len() == 0 {
        Some(Seq::empty())
    } else {
        match spec_parse_range(t, usize::MAX as int) {
            None => None,
            Some((st, eo)) => {
                let end = match eo {
                    Some(e) => e,
                    None => if st + 1 <= usize::MAX {
                        st + 1
                    } else {
                        usize::MAX as int
                    },
                };
                Some(seq![(st as usize, end as usize)])
            },
        }
    };
    match (head, rest) {
        (None, _) => None,
        (Some(h), None) => Some(h),
        (Some(h), Some(r)) => match spec_ignore_ranges(r) {
            None => None,
            Some(rr) => Some(h + rr),
        },
    }
}

/// Trims surrounding whitespace from a character vector.
fn trim_chars(v: &Vec<char>) -> (r: Vec<char>)
    ensures
        r@ == spec_trim(v@),
{
    let n = v.len();
    let mut lo: usize = 0;
    proof {
        assert(v@.subrange(0, n as int) =~= v@);
    }
    while lo < n && (v[lo] == ' ' || v[lo] == '\t' || v[lo] == '\n' || v[lo] == '\r')
        invariant
            lo <= n,
            n == v@.len(),
            spec_trim_start(v@.subrange(lo as int, n as int)) == spec_trim_start(v@),
        decreases n - lo,
    {
        proof {
            assert(v@.subrange(lo as int, n as int).first() == v@[lo as int]);
            assert(v@.subrange(lo as int, n as int).drop_first() =~= v@.subrange(
                lo + 1,
                n as int,
            ));
        }
        lo = lo + 1;
    }
    proof {
        if lo < n {
            assert(v@.subrange(lo as int, n as int).first() == v@[lo as int]);
        }
        assert(spec_trim_start(v@) =~= v@.subrange(lo as int, n as int));
    }
    let mut hi: usize = n;
    while hi > lo && (v[hi - 1] == ' ' || v[hi - 1] == '\t' || v[hi - 1] == '\n' || v[hi - 1]
        == '\r')
        invariant
            lo <= hi <= n,
            n == v@.len(),
            spec_trim_start(v@) == v@.subrange(lo as int, n as int),
            spec_trim_end(v@.subrange(lo as int, hi as int)) == spec_trim_end(
                v@.subrange(lo as int, n as int),
            ),
        decreases hi,
    {
        proof {
            assert(v@.subrange(lo as int, hi as int).last() == v@[hi - 1]);
            assert(v@.subrange(lo as int, hi as int).drop_last() =~= v@.subrange(
                lo as int,
                hi - 1,
            ));
        }
        hi = hi - 1;
    }
    proof {
        if hi > lo {
            assert(v@.subrange(lo as int, hi as int).last() == v@[hi - 1]);
        }
        assert(spec_trim_end(v@.subrange(lo as int, hi as int)) =~= v@.subrange(
            lo as int,
            hi as int,
        ));
    }
    subrange_chars(v, lo, hi)
}

/// Finds the leftmost comma at or after `from`.
fn find_comma(v: &Vec<char>, from: usize) -> (r: Option<usize>)
    requires
        from <= v@.len(),
    ensures
        match (r, spec_find_comma(v@, from as int)) {
            (Some(a), Some(b)) => a == b,
            (None, None) => true,
            _ => false,
        },
        r matches Some(i) ==> from <= i && i < v@.len(),
{
    let n = v.len();
    let mut i: usize = from;
    while i < n
        invariant
            from <= i <= n,
            n == v@.len(),
            spec_find_comma(v@, from as int) == spec_find_comma(v@, i as int),
        decreases n - i,
    {
        if v[i] == ',' {
            return Some(i);
        }
        i = i + 1;
    }
    None
}

/// Parses a comma-separated list of ranges to ignore, each `start..end`
/// or a single index; empty segments are skipped.
///
/// Succeeds exactly on the lists `spec_ignore_ranges` accepts, with the
/// pairs it gives.
#[verifier::rlimit(100)]
pub fn parse_ignore_ranges(ignore_str: &str) -> (r: Result<Vec<(usize, usize)>, BinfiddleError>)
    ensures
        match spec_ignore_ranges(ignore_str@) {
            Some(val) => r matches Ok(v) && v@ == val,
            None => r is Err && (r matches Err(e) ==> (e matches BinfiddleError::Parse(_) || e
                matches BinfiddleError::InvalidRange(_))),
        },
{
    let v = str_to_chars(ignore_str);
    let n = v.len();
    let mut ranges: Vec<(usize, usize)> = Vec::new();
    let mut pos: usize = 0;
    let mut finished = false;
    proof {
        assert(v@.subrange(0, n as int) =~= v@);
        assert(Seq::<(usize, usize)>::empty() + spec_ignore_ranges(v@).get_Some_0()
            =~= spec_ignore_ranges(v@).get_Some_0());
    }
    while !finished
        invariant
            pos <= n,
            n == v@.len(),
            v@ == ignore_str@,
            !finished ==> match spec_ignore_ranges(v@.subrange(pos as int, n as int)) {
                Some(rest) => spec_ignore_ranges(v@) == Some(ranges@ + rest),
                None => spec_ignore_ranges(v@) is None,
            },
            finished ==> spec_ignore_ranges(v@) == Some(ranges@),
        decreases
                (if finished {
                    0int
                } else {
                    1int
                }),
                n - pos,
    {
        let ghost whole = v@.subrange(pos as int, n as int);
        let seg_end = match find_comma(&v, pos) {
            Some(c) => c,
            None => n,
        };
        proof {
            lemma_find_comma_shift(v@, pos as int, 0);
            match spec_find_comma(whole, 0) {
                Some(c) => {
                    assert(whole.subrange(0, c) =~= v@.subrange(pos as int, pos + c));
                    assert(whole.subrange(c + 1, whole.len() as int) =~= v@.subrange(
                        pos + c + 1,
                        n as int,
                    ));
                },
                None => {
                    assert(whole.subrange(0, whole.len() as int) =~= whole);
                },
            }
        }
        let seg = subrange_chars(&v, pos, seg_end);
        let trimmed = trim_chars(&seg);
        proof {
            assert(seg@ =~= whole.subrange(0, seg_end - pos));
            match spec_find_comma(whole, 0) {
                Some(c) => {
                    assert(seg@ =~= whole.subrange(0, c));
                },
                None => {
                    assert(seg@ =~= whole);
                },
            }
        }
        let ghost ranges_before = ranges@;
        let ghost spec_head: Option<Seq<(usize, usize)>> = if spec_trim(seg@).len() == 0 {
            Some(Seq::empty())
        } else {
            match spec_parse_range(spec_trim(seg@), usize::MAX as int) {
                None => None,
                Some((st, eo)) => {
                    let e2 = match eo {
                        Some(e) => e,
                        None => if st + 1 <= usize::MAX {
                            st + 1
                        } else {
                            usize::MAX as int
                        },
                    };
                    Some(seq![(st as usize, e2 as usize)])
                },
            }
        };
        if trimmed.len() > 0 {
            let part = crate::text::chars_to_string(&trimmed);
            let parsed = parse_range(part.as_str(), usize::MAX);
            match parsed {
                Err(e) => {
                    proof {
                        assert(spec_head is None);
                        assert(spec_ignore_ranges(whole) is None);
                    }
                    return Err(e);
                },
                Ok((start, end_opt)) => {
                    let end = match end_opt {
                        Some(e) => e,
                        None => start.saturating_add(1),
                    };
                    ranges.push((start, end));
                    proof {
                        assert(spec_head == Some(seq![(start, end)]));
                        assert(ranges@ =~= ranges_before + spec_head.get_Some_0());
                    }
                },
            }
        } else {
            proof {
                assert(spec_head == Some(Seq::<(usize, usize)>::empty()));
                assert(ranges@ =~= ranges_before + spec_head.get_Some_0());
            }
        }
        if seg_end == n {
            finished = true;
            proof {
                assert(spec_ignore_ranges(whole) == spec_head);
                assert(spec_ignore_ranges(v@) == Some(ranges@));
            }
        } else {
            pos = seg_end + 1;
            proof {
                let rest = v@.subrange(pos as int, n as int);
                match spec_ignore_ranges(rest) {
                    Some(rr) => {
                        assert(spec_ignore_ranges(whole) == Some(spec_head.get_Some_0() + rr));
                        assert(ranges_before + (spec_head.get_Some_0() + rr) =~= ranges@ + rr);
                    },
                    None => {
                        assert(spec_ignore_ranges(whole) is None);
                    },
                }
            }
        }
    }
    Ok(ranges)
}

/// Finding a comma in a suffix corresponds to finding it in the whole.
proof fn lemma_find_comma_shift(s: Seq<char>, base: int, from: int)
    requires
        0 <= base <= s.len(),
        0 <= from,
    ensures
        match (spec_find_comma(s.subrange(base, s.len() as int), from), spec_find_comma(
            s,
            base + from,
        )) {
            (Some(a), Some(b)) => base + a == b,
            (None, None) => true,
            _ => false,
        },
    decreases s.len() - base - from,
{
    let suf = s.subrange(base, s.len() as int);
    if from >= suf.len() {
    } else {
        assert(suf[from] == s[base + from]);
        if suf[from] != ',' {
            lemma_find_comma_shift(s, base, from + 1);
        }
    }
}

/// The characters of `v` from `lo` to `hi`.
fn subrange_chars(v: &Vec<char>, lo: usize, hi: usize) -> (r: Vec<char>)
    requires
        lo <= hi <= v@.len(),
    ensures
        r@ == v@.subrange(lo as int, hi as int),
{
    let mut r: Vec<char> = Vec::new();
    let mut i: usize = lo;
    while i < hi
        invariant
            lo <= i <= hi <= v@.len(),
            r@ =~= v@.subrange(lo as int, i as int),
        decreases hi - i,
    {
        r.push(v[i]);
        assert(r@ =~= v@.subrange(lo as int, i + 1));
        i = i + 1;
    }
    r
}

} // verus!
