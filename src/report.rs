//! What the command-line front end computes around formatting: input
//! normalisation, the file-extension rule, and the line-length report.
use crate::text::{ascii_lower, eq_str, lower_char, lower_seq};
use vstd::prelude::*;

verus! {

/// `\r\n` and a lone `\r` both become `\n`; everything else is kept.
pub open spec fn normalized(s: Seq<char>) -> Seq<char>
    decreases s.len(),
{
    if s.len() == 0 {
        s
    } else if s[0] == '\r' {
        if s.len() >= 2 && s[1] == '\n' {
            seq!['\n'] + normalized(s.subrange(2, s.len() as int))
        } else {
            seq!['\n'] + normalized(s.subrange(1, s.len() as int))
        }
    } else {
        seq![s[0]] + normalized(s.subrange(1, s.len() as int))
    }
}

/// Line breaks in the Unix convention.
pub fn normalize_newlines(input: &Vec<char>) -> (r: Vec<char>)
    ensures
        r@ == normalized(input@),
{
    let n = input.len();
    let mut out: Vec<char> = Vec::new();
    let mut i: usize = 0;
    assert(input@.subrange(0, n as int) =~= input@);
    assert(out@ + normalized(input@) =~= normalized(input@));
    while i < n
        invariant
            i <= n == input@.len(),
            out@ + normalized(input@.subrange(i as int, n as int)) == normalized(input@),
        decreases n - i,
    {
        let ghost rest = input@.subrange(i as int, n as int);
        let ghost before = out@;
        let c = input[i];
        if c == '\r' {
            out.push('\n');
            if i + 1 < n && input[i + 1] == '\n' {
                assert(rest.subrange(2, rest.len() as int) =~= input@.subrange(i + 2, n as int));
                i = i + 2;
            } else {
                assert(rest.subrange(1, rest.len() as int) =~= input@.subrange(i + 1, n as int));
                i = i + 1;
            }
        } else {
            out.push(c);
            assert(rest.subrange(1, rest.len() as int) =~= input@.subrange(i + 1, n as int));
            i = i + 1;
        }
        assert(out@ =~= before + seq![out@.last()]);
    }
    assert(input@.subrange(n as int, n as int) =~= Seq::<char>::empty());
    out
}

/// A leading byte-order mark is dropped.
pub fn strip_bom(input: &Vec<char>) -> (r: Vec<char>)
    ensures
        input@.len() > 0 && input@[0] == '\u{feff}' ==> r@ == input@.subrange(1, input@.len() as int),
        !(input@.len() > 0 && input@[0] == '\u{feff}') ==> r@ == input@,
{
    let start: usize = if input.len() > 0 && input[0] == '\u{feff}' {
        1
    } else {
        0
    };
    let mut out: Vec<char> = Vec::new();
    let mut i: usize = start;
    while i < input.len()
        invariant
            start <= i <= input@.len(),
            out@ == input@.subrange(start as int, i as int),
        decreases input@.len() - i,
    {
        out.push(input[i]);
        i = i + 1;
        assert(out@ =~= input@.subrange(start as int, i as int));
    }
    assert(input@.subrange(0, input@.len() as int) =~= input@);
    out
}

/// The text with a line break at its end, added only when missing.
pub fn ensure_trailing_newline(text: &Vec<char>) -> (r: Vec<char>)
    ensures
        text@.len() > 0 && text@.last() == '\n' ==> r@ == text@,
        !(text@.len() > 0 && text@.last() == '\n') ==> r@ == text@.push('\n'),
{
    let mut out: Vec<char> = Vec::new();
    let mut i: usize = 0;
    while i < text.len()
        invariant
            i <= text@.len(),
            out@ == text@.subrange(0, i as int),
        decreases text@.len() - i,
    {
        out.push(text[i]);
        i = i + 1;
        assert(out@ =~= text@.subrange(0, i as int));
    }
    assert(text@.subrange(0, i as int) =~= text@);
    if !(out.len() > 0 && out[out.len() - 1] == '\n') {
        out.push('\n');
    }
    out
}

/// The extensions of SystemVerilog and Verilog sources, in any case.
pub open spec fn is_sv_ext(ext: Seq<char>) -> bool {
    let l = lower_seq(ext);
    l == "sv"@ || l == "svh"@ || l == "vh"@ || l == "v"@
}

/// Whether a file with extension `ext` is formatted.
pub fn is_sv_file(ext: &[char]) -> (r: bool)
    ensures
        r == is_sv_ext(ext@),
{
    let mut l: Vec<char> = Vec::new();
    let mut i: usize = 0;
    while i < ext.len()
        invariant
            i <= ext@.len(),
            l@ == lower_seq(ext@.subrange(0, i as int)),
        decreases ext@.len() - i,
    {
        l.push(lower_char(ext[i]));
        i = i + 1;
        assert(lower_seq(ext@.subrange(0, i as int)) =~= lower_seq(ext@.subrange(0, i - 1)).push(
            ascii_lower(ext@[i - 1]),
        ));
    }
    assert(ext@.subrange(0, i as int) =~= ext@);
    let l = l.as_slice();
    eq_str(l, "sv") || eq_str(l, "svh") || eq_str(l, "vh") || eq_str(l, "v")
}

/// How many characters of a long line the report shows.
pub open spec fn preview_limit(max_len: usize) -> nat {
    let a: nat = if max_len + 20 > usize::MAX {
        usize::MAX as nat
    } else {
        (max_len + 20) as nat
    };
    if a > 40 {
        a
    } else {
        40
    }
}

/// The shown part of a line: its first characters up to the limit, then
/// `...` when there is more.
pub open spec fn preview_of(line: Seq<char>, max_len: usize) -> Seq<char> {
    let limit = preview_limit(max_len);
    if line.len() > limit {
        line.subrange(0, limit as int) + seq!['.', '.', '.']
    } else {
        line
    }
}

pub fn line_preview(line: &[char], max_len: usize) -> (r: Vec<char>)
    ensures
        r@ == preview_of(line@, max_len),
{
    let a = max_len.saturating_add(20);
    let limit: usize = if a > 40 {
        a
    } else {
        40
    };
    let mut out: Vec<char> = Vec::new();
    let mut i: usize = 0;
    while i < line.len() && i < limit
        invariant
            i <= line@.len(),
            i <= limit,
            limit == preview_limit(max_len),
            out@ == line@.subrange(0, i as int),
        decreases line@.len() - i,
    {
        out.push(line[i]);
        i = i + 1;
        assert(out@ =~= line@.subrange(0, i as int));
    }
    if i < line.len() {
        out.push('.');
        out.push('.');
        out.push('.');
        assert(out@ =~= line@.subrange(0, limit as int) + seq!['.', '.', '.']);
    } else {
        assert(line@.subrange(0, i as int) =~= line@);
    }
    out
}

/// Decimal digits of `n`, most significant first.
pub open spec fn decimal(n: nat) -> Seq<char>
    decreases n,
{
    let d = ((n % 10) as u8 + 48u8) as char;
    if n < 10 {
        seq![d]
    } else {
        decimal(n / 10).push(d)
    }
}

pub fn decimal_digits(n: usize) -> (r: Vec<char>)
    ensures
        r@ == decimal(n as nat),
    decreases n,
{
    let d = ((n % 10) as u8 + 48u8) as char;
    if n < 10 {
        vec![d]
    } else {
        let mut head = decimal_digits(n / 10);
        head.push(d);
        head
    }
}

/// The marker line under a preview: the gutter, one blank (a tab where the
/// preview has a tab) per character before the limit, a caret, and the
/// column the line first exceeds.
pub open spec fn caret_of(preview: Seq<char>, limit: usize) -> Seq<char> {
    let target = if limit < preview.len() {
        limit as int
    } else {
        preview.len() as int
    };
    seq![' ', ' ', ' ', ' ', '|', ' '] + preview.subrange(0, target).map_values(
        |c: char|
            if c == '\t' {
                '\t'
            } else {
                ' '
            },
    ) + seq!['^', ' ', 'c', 'o', 'l', 'u', 'm', 'n', ' '] + decimal(limit as nat + 1)
}

pub fn caret_marker(preview: &[char], limit: usize) -> (r: Vec<char>)
    requires
        limit < usize::MAX,
    ensures
        r@ == caret_of(preview@, limit),
{
    let target = if limit < preview.len() {
        limit
    } else {
        preview.len()
    };
    let mut out: Vec<char> = vec![' ', ' ', ' ', ' ', '|', ' '];
    let ghost gutter = out@;
    let mut i: usize = 0;
    while i < target
        invariant
            i <= target <= preview@.len(),
            out@ == gutter + preview@.subrange(0, i as int).map_values(
                |c: char|
                    if c == '\t' {
                        '\t'
                    } else {
                        ' '
                    },
            ),
        decreases target - i,
    {
        out.push(if preview[i] == '\t' {
            '\t'
        } else {
            ' '
        });
        i = i + 1;
        assert(out@ =~= gutter + preview@.subrange(0, i as int).map_values(
            |c: char|
                if c == '\t' {
                    '\t'
                } else {
                    ' '
                },
        ));
    }
    let tail: Vec<char> = vec!['^', ' ', 'c', 'o', 'l', 'u', 'm', 'n', ' '];
    let digits = decimal_digits(limit + 1);
    let mut k: usize = 0;
    let ghost mid = out@;
    while k < tail.len()
        invariant
            k <= tail@.len(),
            out@ == mid + tail@.subrange(0, k as int),
        decreases tail@.len() - k,
    {
        out.push(tail[k]);
        k = k + 1;
        assert(out@ =~= mid + tail@.subrange(0, k as int));
    }
    let ghost mid2 = out@;
    let mut j: usize = 0;
    while j < digits.len()
        invariant
            j <= digits@.len(),
            out@ == mid2 + digits@.subrange(0, j as int),
        decreases digits@.len() - j,
    {
        out.push(digits[j]);
        j = j + 1;
        assert(out@ =~= mid2 + digits@.subrange(0, j as int));
    }
    assert(tail@.subrange(0, tail@.len() as int) =~= seq!['^', ' ', 'c', 'o', 'l', 'u', 'm', 'n', ' ']);
    assert(digits@.subrange(0, digits@.len() as int) =~= digits@);
    out
}

/// One line longer than the maximum: its number (from 1), its width in
/// characters, and its preview.
#[derive(Clone, Debug)]
pub struct LineLengthViolation {
    pub line: usize,
    pub columns: usize,
    pub preview: Vec<char>,
}

/// A reported line as plain values: number, width and preview.
pub open spec fn violation_view(v: LineLengthViolation) -> (usize, usize, Seq<char>) {
    (v.line, v.columns, v.preview@)
}

/// The position of the first `\n` at or after `pos` (the end of the text
/// when there is none).
pub open spec fn next_break(text: Seq<char>, pos: int) -> int
    decreases text.len() - pos,
{
    if pos < 0 || pos >= text.len() || text[pos] == '\n' {
        pos
    } else {
        next_break(text, pos + 1)
    }
}

pub proof fn lemma_next_break(text: Seq<char>, pos: int)
    requires
        0 <= pos <= text.len(),
    ensures
        pos <= next_break(text, pos) <= text.len(),
    decreases text.len() - pos,
{
    if pos < text.len() && text[pos] != '\n' {
        lemma_next_break(text, pos + 1);
    }
}

/// The reports for the lines from position `pos` on, the line there being
/// number `number + 1`: a line is its text up to `\n`, without a `\r` just
/// before it, and is reported when it is wider than `max_len`.
pub open spec fn reports_from(text: Seq<char>, max_len: usize, pos: int, number: nat) -> Seq<
    (usize, usize, Seq<char>),
>
    decreases text.len() - pos,
{
    if pos < 0 || pos >= text.len() {
        seq![]
    } else {
        let e0 = next_break(text, pos);
        let e = if e0 < pos {
            pos
        } else {
            e0
        };
        let stop = if e > pos && text[e - 1] == '\r' {
            e - 1
        } else {
            e
        };
        let line = text.subrange(pos, stop);
        let here = if line.len() > max_len {
            seq![((number + 1) as usize, line.len() as usize, preview_of(line, max_len))]
        } else {
            seq![]
        };
        here + reports_from(
            text,
            max_len,
            if e < text.len() {
                e + 1
            } else {
                text.len() as int
            },
            number + 1,
        )
    }
}

/// The lines of `text` longer than `max_len` characters, in order, each
/// with its number, width and preview; none when `max_len` is 0. Lines end
/// at `\n`, a `\r` before it is not counted, and a final empty line is not
/// a line.
pub fn line_length_violations(text: &Vec<char>, max_len: usize) -> (r: Vec<LineLengthViolation>)
    ensures
        max_len == 0 ==> r@.len() == 0,
        max_len > 0 ==> r@.map_values(|v: LineLengthViolation| violation_view(v)) == reports_from(
            text@,
            max_len,
            0,
            0,
        ),
{
    let mut out: Vec<LineLengthViolation> = Vec::new();
    if max_len == 0 {
        return out;
    }
    let n = text.len();
    let mut pos: usize = 0;
    let mut number: usize = 0;
    assert(out@.map_values(|v: LineLengthViolation| violation_view(v)) =~= seq![]);
    while pos < n
        invariant
            pos <= n == text@.len(),
            number <= pos,
            out@.map_values(|v: LineLengthViolation| violation_view(v)) + reports_from(
                text@,
                max_len,
                pos as int,
                number as nat,
            ) == reports_from(text@, max_len, 0, 0),
        decreases n - pos,
    {
        let ghost before = out@.map_values(|v: LineLengthViolation| violation_view(v));
        let mut e: usize = pos;
        while e < n && text[e] != '\n'
            invariant
                pos <= e <= n == text@.len(),
                next_break(text@, pos as int) == next_break(text@, e as int),
            decreases n - e,
        {
            e = e + 1;
        }
        proof {
            lemma_next_break(text@, pos as int);
        }
        let mut stop = e;
        if stop > pos && text[stop - 1] == '\r' {
            stop = stop - 1;
        }
        number = number + 1;
        let columns = stop - pos;
        if columns > max_len {
            let mut line: Vec<char> = Vec::new();
            let mut k: usize = pos;
            while k < stop
                invariant
                    pos <= k <= stop <= n == text@.len(),
                    line@ == text@.subrange(pos as int, k as int),
                decreases stop - k,
            {
                line.push(text[k]);
                k = k + 1;
                assert(line@ =~= text@.subrange(pos as int, k as int));
            }
            let preview = line_preview(line.as_slice(), max_len);
            out.push(LineLengthViolation { line: number, columns, preview });
            assert(out@.map_values(|v: LineLengthViolation| violation_view(v)) =~= before.push(
                (number, columns, preview@),
            ));
        }
        pos = if e < n {
            e + 1
        } else {
            e
        };
    }
    out
}

} // verus!
