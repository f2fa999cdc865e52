//! Character-sequence helpers shared by every textual rendering in the
//! library: hexadecimal and decimal digit strings, padding, and movement
//! between `&str`, `Vec<char>` and `String`.
//!
//! Rendering code builds its output as a `Vec<char>`, whose view is the
//! `Seq<char>` the contracts speak of, and converts to `String` at the end.

use vstd::prelude::*;

verus! {

/// The lower-case hexadecimal digit for a value below sixteen.
pub open spec fn spec_hex_digit(d: int) -> char
    recommends
        0 <= d < 16,
{
    if d == 0 {
        '0'
    } else if d == 1 {
        '1'
    } else if d == 2 {
        '2'
    } else if d == 3 {
        '3'
    } else if d == 4 {
        '4'
    } else if d == 5 {
        '5'
    } else if d == 6 {
        '6'
    } else if d == 7 {
        '7'
    } else if d == 8 {
        '8'
    } else if d == 9 {
        '9'
    } else if d == 10 {
        'a'
    } else if d == 11 {
        'b'
    } else if d == 12 {
        'c'
    } else if d == 13 {
        'd'
    } else if d == 14 {
        'e'
    } else {
        'f'
    }
}

/// The shortest lower-case hexadecimal rendering of a number.
pub open spec fn spec_hex_uint(n: nat) -> Seq<char>
    decreases n,
{
    if n < 16 {
        seq![spec_hex_digit(n as int)]
    } else {
        spec_hex_uint(n / 16) + seq![spec_hex_digit((n % 16) as int)]
    }
}

/// The shortest decimal rendering of a number.
pub open spec fn spec_dec_uint(n: nat) -> Seq<char>
    decreases n,
{
    if n < 10 {
        seq![spec_hex_digit(n as int)]
    } else {
        spec_dec_uint(n / 10) + seq![spec_hex_digit((n % 10) as int)]
    }
}

/// A run of one repeated character.
pub open spec fn spec_repeat_char(c: char, k: nat) -> Seq<char>
    decreases k,
{
    if k == 0 {
        Seq::empty()
    } else {
        spec_repeat_char(c, (k - 1) as nat) + seq![c]
    }
}

/// `s` left-padded with `fill` up to width `w` (unchanged when already wide enough).
pub open spec fn spec_pad_left(s: Seq<char>, w: int, fill: char) -> Seq<char> {
    if s.len() >= w {
        s
    } else {
        spec_repeat_char(fill, (w - s.len()) as nat) + s
    }
}

/// `s` right-padded with `fill` up to width `w` (unchanged when already wide enough).
pub open spec fn spec_pad_right(s: Seq<char>, w: int, fill: char) -> Seq<char> {
    if s.len() >= w {
        s
    } else {
        s + spec_repeat_char(fill, (w - s.len()) as nat)
    }
}

/// Two lower-case hexadecimal digits of one byte.
pub open spec fn spec_hex2(b: u8) -> Seq<char> {
    seq![spec_hex_digit(b as int / 16), spec_hex_digit(b as int % 16)]
}

/// The hexadecimal rendering of a number, zero-padded to eight digits.
pub open spec fn spec_hex8(n: nat) -> Seq<char> {
    spec_pad_left(spec_hex_uint(n), 8, '0')
}

/// The lower-case hexadecimal digit character for `d < 16`.
pub fn hex_digit(d: u8) -> (c: char)
    requires
        d < 16,
    ensures
        c == spec_hex_digit(d as int),
{
    match d {
        0 => '0',
        1 => '1',
        2 => '2',
        3 => '3',
        4 => '4',
        5 => '5',
        6 => '6',
        7 => '7',
        8 => '8',
        9 => '9',
        10 => 'a',
        11 => 'b',
        12 => 'c',
        13 => 'd',
        14 => 'e',
        _ => 'f',
    }
}

/// Appends the shortest hexadecimal rendering of `n` to `out`.
pub fn push_hex_uint(out: &mut Vec<char>, n: usize)
    ensures
        final(out)@ == old(out)@ + spec_hex_uint(n as nat),
    decreases n,
{
    if n < 16 {
        out.push(hex_digit(n as u8));
    } else {
        push_hex_uint(out, n / 16);
        out.push(hex_digit((n % 16) as u8));
        assert(final(out)@ =~= old(out)@ + spec_hex_uint(n as nat));
    }
}

/// Appends the shortest decimal rendering of `n` to `out`.
pub fn push_dec_uint(out: &mut Vec<char>, n: usize)
    ensures
        final(out)@ == old(out)@ + spec_dec_uint(n as nat),
    decreases n,
{
    if n < 10 {
        out.push(hex_digit(n as u8));
    } else {
        push_dec_uint(out, n / 10);
        out.push(hex_digit((n % 10) as u8));
        assert(final(out)@ =~= old(out)@ + spec_dec_uint(n as nat));
    }
}

/// Appends `k` copies of `c` to `out`.
pub fn push_repeat(out: &mut Vec<char>, c: char, k: usize)
    ensures
        final(out)@ == old(out)@ + spec_repeat_char(c, k as nat),
{
    let mut i: usize = 0;
    while i < k
        invariant
            i <= k,
            out@ == old(out)@ + spec_repeat_char(c, i as nat),
        decreases k - i,
    {
        out.push(c);
        assert(spec_repeat_char(c, (i + 1) as nat) == spec_repeat_char(c, i as nat) + seq![c]);
        assert(out@ =~= old(out)@ + spec_repeat_char(c, (i + 1) as nat));
        i = i + 1;
    }
}

/// Appends the two hexadecimal digits of one byte to `out`.
pub fn push_hex2(out: &mut Vec<char>, b: u8)
    ensures
        final(out)@ == old(out)@ + spec_hex2(b),
{
    out.push(hex_digit(b / 16));
    out.push(hex_digit(b % 16));
    assert(final(out)@ =~= old(out)@ + spec_hex2(b));
}

/// Appends the hexadecimal rendering of `n`, zero-padded to eight digits.
pub fn push_hex8(out: &mut Vec<char>, n: usize)
    ensures
        final(out)@ == old(out)@ + spec_hex8(n as nat),
{
    let mut digits: Vec<char> = Vec::new();
    push_hex_uint(&mut digits, n);
    if digits.len() < 8 {
        push_repeat(out, '0', 8 - digits.len());
    }
    let mut i: usize = 0;
    while i < digits.len()
        invariant
            i <= digits@.len(),
            digits@ == spec_hex_uint(n as nat),
            out@ == old(out)@ + spec_pad_left(digits@, 8, '0').take(
                spec_pad_left(digits@, 8, '0').len() - digits@.len() + i,
            ),
        decreases digits@.len() - i,
    {
        out.push(digits[i]);
        assert(out@ =~= old(out)@ + spec_pad_left(digits@, 8, '0').take(
            spec_pad_left(digits@, 8, '0').len() - digits@.len() + i + 1,
        ));
        i = i + 1;
    }
    assert(spec_pad_left(digits@, 8, '0').take(spec_pad_left(digits@, 8, '0').len() as int)
        =~= spec_pad_left(digits@, 8, '0'));
}

/// Appends every character of `v` to `out`.
pub fn push_chars(out: &mut Vec<char>, v: &Vec<char>)
    ensures
        final(out)@ == old(out)@ + v@,
{
    let m = v.len();
    let mut j: usize = 0;
    while j < m
        invariant
            j <= m,
            m == v@.len(),
            out@ == old(out)@ + v@.take(j as int),
        decreases m - j,
    {
        out.push(v[j]);
        assert(out@ =~= old(out)@ + v@.take(j + 1));
        j = j + 1;
    }
    assert(old(out)@ + v@.take(m as int) =~= old(out)@ + v@);
}

/// Appends `piece` left-padded with `fill` up to width `w`.
pub fn push_pad_left(out: &mut Vec<char>, piece: &Vec<char>, w: usize, fill: char)
    ensures
        final(out)@ == old(out)@ + spec_pad_left(piece@, w as int, fill),
{
    if piece.len() < w {
        push_repeat(out, fill, w - piece.len());
    }
    push_chars(out, piece);
    assert(final(out)@ =~= old(out)@ + spec_pad_left(piece@, w as int, fill));
}

/// Appends the shortest decimal rendering of a 128-bit number to `out`.
pub fn push_dec_u128(out: &mut Vec<char>, n: u128)
    ensures
        final(out)@ == old(out)@ + spec_dec_uint(n as nat),
    decreases n,
{
    if n < 10 {
        out.push(hex_digit(n as u8));
    } else {
        push_dec_u128(out, n / 10);
        out.push(hex_digit((n % 10) as u8));
        assert(final(out)@ =~= old(out)@ + spec_dec_uint(n as nat));
    }
}

/// The characters of a string slice, in order.
pub fn str_to_chars(s: &str) -> (v: Vec<char>)
    ensures
        v@ == s@,
{
    let n = s.unicode_len();
    let mut v: Vec<char> = Vec::new();
    let mut i: usize = 0;
    while i < n
        invariant
            i <= n,
            n == s@.len(),
            v@ == s@.take(i as int),
        decreases n - i,
    {
        v.push(s.get_char(i));
        assert(v@ =~= s@.take(i + 1));
        i = i + 1;
    }
    assert(s@.take(n as int) =~= s@);
    v
}

/// Appends every character of `s` to `out`.
pub fn push_str_chars(out: &mut Vec<char>, s: &str)
    ensures
        final(out)@ == old(out)@ + s@,
{
    let n = s.unicode_len();
    let mut i: usize = 0;
    while i < n
        invariant
            i <= n,
            n == s@.len(),
            out@ == old(out)@ + s@.take(i as int),
        decreases n - i,
    {
        out.push(s.get_char(i));
        assert(out@ =~= old(out)@ + s@.take(i + 1));
        i = i + 1;
    }
    assert(old(out)@ + s@.take(n as int) =~= old(out)@ + s@);
}

/// The character shown for a byte in an ASCII column: the byte itself when
/// printable, a dot otherwise.
pub open spec fn spec_printable_char(b: u8) -> char {
    if 32 <= b && b <= 126 {
        b as char
    } else {
        '.'
    }
}

/// The ASCII-column character for one byte.
pub fn printable_char(b: u8) -> (c: char)
    ensures
        c == spec_printable_char(b),
{
    if 32 <= b && b <= 126 {
        b as char
    } else {
        '.'
    }
}

/// One character of input matches one keyword character when they are equal,
/// or when the input holds the ASCII upper-case form of a lower-case keyword letter.
pub open spec fn spec_ci_char_eq(c: char, k: char) -> bool {
    c == k || (k == 'a' && c == 'A') || (k == 'b' && c == 'B') || (k == 'c' && c == 'C') || (k
        == 'd' && c == 'D') || (k == 'e' && c == 'E') || (k == 'f' && c == 'F') || (k == 'g' && c
        == 'G') || (k == 'h' && c == 'H') || (k == 'i' && c == 'I') || (k == 'j' && c == 'J') || (k
        == 'k' && c == 'K') || (k == 'l' && c == 'L') || (k == 'm' && c == 'M') || (k == 'n' && c
        == 'N') || (k == 'o' && c == 'O') || (k == 'p' && c == 'P') || (k == 'q' && c == 'Q') || (k
        == 'r' && c == 'R') || (k == 's' && c == 'S') || (k == 't' && c == 'T') || (k == 'u' && c
        == 'U') || (k == 'v' && c == 'V') || (k == 'w' && c == 'W') || (k == 'x' && c == 'X') || (k
        == 'y' && c == 'Y') || (k == 'z' && c == 'Z')
}

/// Whether `c` matches keyword character `k`, ignoring ASCII case in `c`.
pub fn ci_char_eq(c: char, k: char) -> (r: bool)
    ensures
        r == spec_ci_char_eq(c, k),
{
    if c == k {
        return true;
    }
    let u: char = match k {
        'a' => 'A',
        'b' => 'B',
        'c' => 'C',
        'd' => 'D',
        'e' => 'E',
        'f' => 'F',
        'g' => 'G',
        'h' => 'H',
        'i' => 'I',
        'j' => 'J',
        'k' => 'K',
        'l' => 'L',
        'm' => 'M',
        'n' => 'N',
        'o' => 'O',
        'p' => 'P',
        'q' => 'Q',
        'r' => 'R',
        's' => 'S',
        't' => 'T',
        'u' => 'U',
        'v' => 'V',
        'w' => 'W',
        'x' => 'X',
        'y' => 'Y',
        'z' => 'Z',
        _ => {
            return false;
        },
    };
    c == u
}

/// ASCII case-insensitive match of an input against a lower-case keyword.
pub open spec fn spec_ci_eq(s: Seq<char>, kw: Seq<char>) -> bool {
    s.len() == kw.len() && forall|i: int| 0 <= i < s.len() ==> spec_ci_char_eq(s[i], kw[i])
}

/// Whether the characters of `v` spell `kw`, ignoring ASCII case in `v`.
pub fn eq_ignore_ascii_case(v: &Vec<char>, kw: &str) -> (r: bool)
    ensures
        r == spec_ci_eq(v@, kw@),
{
    let n = kw.unicode_len();
    if v.len() != n {
        return false;
    }
    let mut i: usize = 0;
    while i < n
        invariant
            i <= n,
            n == kw@.len(),
            n == v@.len(),
            forall|j: int| 0 <= j < i ==> spec_ci_char_eq(v@[j], kw@[j]),
        decreases n - i,
    {
        let c = v[i];
        let k = kw.get_char(i);
        if !ci_char_eq(c, k) {
            return false;
        }
        i = i + 1;
    }
    true
}

/// Appends `s` right-padded with `fill` up to width `w`.
pub fn push_pad_right_str(out: &mut Vec<char>, s: &str, w: usize, fill: char)
    ensures
        final(out)@ == old(out)@ + spec_pad_right(s@, w as int, fill),
{
    let n = s.unicode_len();
    push_str_chars(out, s);
    if n < w {
        push_repeat(out, fill, w - n);
    }
    assert(final(out)@ =~= old(out)@ + spec_pad_right(s@, w as int, fill));
}

/// Collects a character vector into a `String`.
///
/// Relies on `String: FromIterator<char>`: collecting an iterator of
/// characters yields the string of exactly those characters in order.
#[verifier::external_body]
pub(crate) fn chars_to_string(v: &Vec<char>) -> (s: String)
    ensures
        s@ == v@,
{
    v.iter().collect()
}

} // verus!
