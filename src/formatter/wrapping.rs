//! The line wrapper: a post-process over finished output that splits lines
//! longer than the configured maximum at safe break points.
use super::engine::{first_non_white, is_white};
use crate::config::FormatConfig;
use crate::text::{ends_with, starts_with};
use vstd::prelude::*;

verus! {

/// ASCII whitespace, as `char::is_ascii_whitespace` defines it.
pub open spec fn is_ascii_white(c: char) -> bool {
    c == ' ' || c == '\t' || c == '\n' || c == '\u{c}' || c == '\r'
}

/// A break may follow whitespace and these operators and separators.
pub open spec fn is_break_char(c: char) -> bool {
    is_white(c) || c == ',' || c == ';' || c == '+' || c == '-' || c == '*' || c == '/' || c
        == '&' || c == '|' || c == '='
}

/// The leading whitespace of `line`.
pub open spec fn indent_of(line: Seq<char>) -> Seq<char> {
    line.subrange(0, first_non_white(line, 0))
}

/// The indentation of a continuation: the line's own and one unit more.
pub open spec fn continuation_indent(line: Seq<char>, cfg: FormatConfig) -> Seq<char> {
    if cfg.use_tabs {
        indent_of(line).push('\t')
    } else {
        indent_of(line) + Seq::new(cfg.indent_width as nat, |_i: int| ' ')
    }
}

/// A line that is never split: after its indentation it is empty, a
/// comment, a block-comment continuation or a directive.
pub open spec fn is_protected(line: Seq<char>) -> bool {
    let rest = line.subrange(first_non_white(line, 0), line.len() as int);
    rest.len() == 0 || starts_with(rest, seq!['/', '/']) || starts_with(rest, seq!['/', '*'])
        || starts_with(rest, seq!['*']) || starts_with(rest, seq!['`'])
}

/// A line that is left as it is.
pub open spec fn kept_whole(line: Seq<char>, cfg: FormatConfig) -> bool {
    cfg.max_line_length == 0 || line.len() <= cfg.max_line_length || is_protected(line)
}

pub proof fn lemma_first_non_white(s: Seq<char>, i: int)
    requires
        0 <= i <= s.len(),
    ensures
        i <= first_non_white(s, i) <= s.len(),
        forall|j: int| i <= j < first_non_white(s, i) ==> is_white(#[trigger] s[j]),
        first_non_white(s, i) < s.len() ==> !is_white(s[first_non_white(s, i)]),
    decreases s.len() - i,
{
    if i < s.len() && is_white(s[i]) {
        lemma_first_non_white(s, i + 1);
    }
}

fn is_break_point(c: char) -> (r: bool)
    ensures
        r == is_break_char(c),
{
    is_white_char_local(c) || c == ',' || c == ';' || c == '+' || c == '-' || c == '*' || c == '/'
        || c == '&' || c == '|' || c == '='
}

fn is_white_char_local(c: char) -> (r: bool)
    ensures
        r == is_white(c),
{
    ('\u{9}' <= c && c <= '\u{d}') || c == ' ' || c == '\u{85}' || c == '\u{a0}' || c
        == '\u{1680}' || ('\u{2000}' <= c && c <= '\u{200a}') || c == '\u{2028}' || c == '\u{2029}'
        || c == '\u{202f}' || c == '\u{205f}' || c == '\u{3000}'
}

fn copy_range(s: &Vec<char>, from: usize, to: usize) -> (r: Vec<char>)
    requires
        from <= to <= s@.len(),
    ensures
        r@ == s@.subrange(from as int, to as int),
{
    let mut out: Vec<char> = Vec::new();
    let mut i: usize = from;
    while i < to
        invariant
            from <= i <= to <= s@.len(),
            out@ == s@.subrange(from as int, i as int),
        decreases to - i,
    {
        out.push(s[i]);
        i = i + 1;
        assert(out@ =~= s@.subrange(from as int, i as int));
    }
    out
}

/// Whether the line is protected from wrapping.
fn protected_line(line: &Vec<char>) -> (r: bool)
    ensures
        r == is_protected(line@),
{
    let mut k: usize = 0;
    while k < line.len() && is_white_char_local(line[k])
        invariant
            k <= line@.len(),
            first_non_white(line@, 0) == first_non_white(line@, k as int),
        decreases line@.len() - k,
    {
        k = k + 1;
    }
    let ghost rest = line@.subrange(k as int, line@.len() as int);
    let n = line.len();
    if k == n {
        return true;
    }
    let c0 = line[k];
    assert(rest[0] == c0);
    if c0 == '*' || c0 == '`' {
        assert(rest.subrange(0, 1) =~= seq![c0]);
        return true;
    }
    if c0 == '/' && k + 1 < n {
        let c1 = line[k + 1];
        assert(rest[1] == c1);
        if c1 == '/' || c1 == '*' {
            assert(rest.subrange(0, 2) =~= seq![c0, c1]);
            return true;
        }
        assert(rest.subrange(0, 2) !~= seq!['/', '/']);
        assert(rest.subrange(0, 2) !~= seq!['/', '*']);
    }
    assert(rest.subrange(0, 1)[0] == c0);
    assert(rest.subrange(0, 1) !~= seq!['*']);
    assert(rest.subrange(0, 1) !~= seq!['`']);
    proof {
        if rest.len() >= 2 {
            assert(rest.subrange(0, 2)[0] == c0);
        }
    }
    false
}

/// `s` without its trailing whitespace.
pub open spec fn trim_end_white(s: Seq<char>) -> Seq<char>
    decreases s.len(),
{
    if s.len() > 0 && is_white(s.last()) {
        trim_end_white(s.drop_last())
    } else {
        s
    }
}

/// Every character of `s` is whitespace.
pub open spec fn all_white(s: Seq<char>) -> bool {
    forall|i: int| 0 <= i < s.len() ==> is_white(#[trigger] s[i])
}

/// What a cut keeps of the text before the break: trailing whitespace goes,
/// unless there is nothing else.
pub open spec fn cut_head(s: Seq<char>) -> Seq<char> {
    if all_white(s) {
        s
    } else {
        trim_end_white(s)
    }
}

pub proof fn lemma_trim_keeps_prefix(s: Seq<char>, p: Seq<char>)
    requires
        starts_with(s, p),
        all_white(p),
        !all_white(s),
    ensures
        starts_with(trim_end_white(s), p),
    decreases s.len(),
{
    if s.len() > 0 && is_white(s.last()) {
        let j = choose|j: int| 0 <= j < s.len() && !is_white(#[trigger] s[j]);
        assert(j >= p.len()) by {
            if j < p.len() {
                assert(s.subrange(0, p.len() as int)[j] == s[j]);
            }
        }
        let d = s.drop_last();
        assert(d[j] == s[j]);
        assert(d.subrange(0, p.len() as int) =~= s.subrange(0, p.len() as int));
        lemma_trim_keeps_prefix(d, p);
    }
}

fn trim_head(s: &Vec<char>) -> (r: Vec<char>)
    ensures
        r@ == cut_head(s@),
{
    let mut all: bool = true;
    let mut i: usize = 0;
    while i < s.len()
        invariant
            i <= s@.len(),
            all == (forall|j: int| 0 <= j < i ==> is_white(#[trigger] s@[j])),
        decreases s@.len() - i,
    {
        if !is_white_char_local(s[i]) {
            all = false;
        }
        i = i + 1;
    }
    if all {
        return copy_range(s, 0, s.len());
    }
    let mut n = s.len();
    assert(s@.subrange(0, n as int) =~= s@);
    while n > 0 && is_white_char_local(s[n - 1])
        invariant
            n <= s@.len(),
            trim_end_white(s@) == trim_end_white(s@.subrange(0, n as int)),
        decreases n,
    {
        assert(s@.subrange(0, n as int).drop_last() =~= s@.subrange(0, n - 1));
        n = n - 1;
    }
    assert(trim_end_white(s@.subrange(0, n as int)) == s@.subrange(0, n as int));
    copy_range(s, 0, n)
}

fn is_ascii_white_char(c: char) -> (r: bool)
    ensures
        r == is_ascii_white(c),
{
    c == ' ' || c == '\t' || c == '\n' || c == '\u{c}' || c == '\r'
}

/// The first position at or after `x` that is not ASCII whitespace.
pub open spec fn skip_ascii_white(s: Seq<char>, x: int) -> int
    decreases s.len() - x,
{
    if x < 0 || x >= s.len() || !is_ascii_white(s[x]) {
        x
    } else {
        skip_ascii_white(s, x + 1)
    }
}

/// The text of each piece.
pub open spec fn seg_views(s: Seq<Vec<char>>) -> Seq<Seq<char>> {
    s.map_values(|v: Vec<char>| v@)
}

/// The greedy scan from position `i` of `line`, with the pieces `segs`
/// already cut, the piece `cur` being filled and its latest break point
/// `lw`: past the maximum, the piece is cut at the break point (the head
/// losing trailing whitespace, the rest moving after the continuation
/// indent `ci` without its leading whitespace); with no break point the rest
/// of the line is kept as it is.
pub open spec fn wrap_scan(
    line: Seq<char>,
    max: usize,
    ci: Seq<char>,
    i: int,
    segs: Seq<Seq<char>>,
    cur: Seq<char>,
    lw: Option<usize>,
) -> Seq<Seq<char>>
    decreases line.len() - i,
{
    if i < 0 || i >= line.len() {
        segs.push(cur)
    } else {
        let ch = line[i];
        let cur1 = cur.push(ch);
        let lw1 = if is_break_char(ch) {
            Some(cur1.len() as usize)
        } else {
            lw
        };
        if cur1.len() > max {
            match lw1 {
                Some(x) => {
                    let head = cut_head(cur1.subrange(0, x as int));
                    let segs1 = if head.len() > 0 {
                        segs.push(head)
                    } else {
                        segs
                    };
                    let tail = cur1.subrange(skip_ascii_white(cur1, x as int), cur1.len() as int);
                    wrap_scan(line, max, ci, i + 1, segs1, ci + tail, None)
                },
                None => segs.push(cur1 + line.subrange(i + 1, line.len() as int)),
            }
        } else {
            wrap_scan(line, max, ci, i + 1, segs, cur1, lw1)
        }
    }
}

/// The pieces of one line.
pub open spec fn wrapped_line(line: Seq<char>, cfg: FormatConfig) -> Seq<Seq<char>> {
    if kept_whole(line, cfg) {
        seq![line]
    } else {
        let k = first_non_white(line, 0);
        wrap_scan(
            line,
            cfg.max_line_length,
            continuation_indent(line, cfg),
            k,
            seq![],
            line.subrange(0, k),
            None,
        )
    }
}

/// Splits one line (without its line break) at safe break points so that
/// its pieces fit the maximum where possible. A line that fits, or is a
/// comment or directive, stays whole; every continuation starts with the
/// line's indentation plus one unit; a stretch with no break point is never
/// split, and the rest of the line then stays as it is.
pub fn wrap_line(line: &Vec<char>, config: &FormatConfig) -> (r: Vec<Vec<char>>)
    ensures
        r@.len() >= 1,
        seg_views(r@) == wrapped_line(line@, *config),
        kept_whole(line@, *config) ==> r@.len() == 1 && r@[0]@ == line@,
        forall|i: int|
            1 <= i < r@.len() ==> starts_with(
                #[trigger] r@[i]@,
                continuation_indent(line@, *config),
            ),
{
    let max = config.max_line_length;
    if max == 0 || line.len() <= max || protected_line(line) {
        let mut one: Vec<Vec<char>> = Vec::new();
        one.push(copy_range(line, 0, line.len()));
        assert(line@.subrange(0, line@.len() as int) =~= line@);
        assert(seg_views(one@) =~= seq![line@]);
        return one;
    }
    let n = line.len();
    let mut k: usize = 0;
    while k < n && is_white_char_local(line[k])
        invariant
            k <= n == line@.len(),
            first_non_white(line@, 0) == first_non_white(line@, k as int),
            forall|j: int| 0 <= j < k ==> is_white(#[trigger] line@[j]),
        decreases n - k,
    {
        k = k + 1;
    }
    let indent = copy_range(line, 0, k);
    let mut cont = copy_range(line, 0, k);
    if config.use_tabs {
        cont.push('\t');
    } else {
        let mut j: usize = 0;
        while j < config.indent_width
            invariant
                j <= config.indent_width,
                cont@ == indent@ + Seq::new(j as nat, |_i: int| ' '),
            decreases config.indent_width - j,
        {
            cont.push(' ');
            j = j + 1;
            assert(cont@ =~= indent@ + Seq::new(j as nat, |_i: int| ' '));
        }
    }
    let ghost ci = continuation_indent(line@, *config);
    assert(cont@ =~= ci);
    assert(all_white(ci)) by {
        assert forall|j: int| 0 <= j < ci.len() implies is_white(#[trigger] ci[j]) by {
            if j < k {
                assert(ci[j] == line@[j]);
            }
        }
    }
    let mut segments: Vec<Vec<char>> = Vec::new();
    let mut current = copy_range(line, 0, k);
    let mut last_wrap: Option<usize> = None;
    let mut first = true;
    let mut i: usize = k;
    proof {
        lemma_first_non_white(line@, 0);
    }
    assert(seg_views(segments@) =~= seq![]);
    assert(wrapped_line(line@, *config) == wrap_scan(line@, max, ci, i as int, seg_views(segments@), current@, last_wrap));
    while i < n
        invariant
            k <= i <= n == line@.len(),
            max == config.max_line_length,
            wrapped_line(line@, *config) == wrap_scan(
                line@,
                max,
                ci,
                i as int,
                seg_views(segments@),
                current@,
                last_wrap,
            ),
            cont@ == ci,
            all_white(ci),
            last_wrap matches Some(x) ==> x <= current@.len() && (!first ==> x > ci.len()),
            first ==> segments@.len() == 0,
            !first ==> starts_with(current@, ci),
            forall|s: int| 1 <= s < segments@.len() ==> starts_with(#[trigger] segments@[s]@, ci),
        decreases n - i,
    {
        let ch = line[i];
        let ghost before = current@;
        current.push(ch);
        assert(!first ==> current@.subrange(0, ci.len() as int) =~= before.subrange(0, ci.len() as int));
        if is_break_point(ch) {
            last_wrap = Some(current.len());
        }
        if current.len() > max {
            match last_wrap {
                Some(x) => {
                    let raw = copy_range(&current, 0, x);
                    let head = trim_head(&raw);
                    proof {
                        if !first {
                            assert(raw@.subrange(0, ci.len() as int) =~= current@.subrange(
                                0,
                                ci.len() as int,
                            ));
                            if !all_white(raw@) {
                                lemma_trim_keeps_prefix(raw@, ci);
                            }
                        }
                    }
                    let ghost segs0 = seg_views(segments@);
                    if head.len() > 0 {
                        segments.push(head);
                        assert(seg_views(segments@) =~= segs0.push(head@));
                    }
                    let mut next = copy_range(&cont, 0, cont.len());
                    assert(cont@.subrange(0, cont@.len() as int) =~= ci);
                    assert(next@ =~= ci + current@.subrange(x as int, x as int));
                    let mut t: usize = x;
                    while t < current.len() && is_ascii_white_char(current[t])
                        invariant
                            x <= t <= current@.len(),
                            skip_ascii_white(current@, x as int) == skip_ascii_white(current@, t as int),
                        decreases current@.len() - t,
                    {
                        t = t + 1;
                    }
                    let mut u: usize = t;
                    while u < current.len()
                        invariant
                            t <= u <= current@.len(),
                            next@.len() >= ci.len(),
                            next@.subrange(0, ci.len() as int) == ci,
                            next@ == ci + current@.subrange(t as int, u as int),
                        decreases current@.len() - u,
                    {
                        let ghost b = next@;
                        next.push(current[u]);
                        assert(next@ =~= ci + current@.subrange(t as int, (u + 1) as int));
                        assert(next@.subrange(0, ci.len() as int) =~= b.subrange(0, ci.len() as int));
                        u = u + 1;
                    }
                    current = next;
                    last_wrap = None;
                    first = false;
                },
                None => {
                    let ghost cur1 = current@;
                    let mut u: usize = i + 1;
                    while u < n
                        invariant
                            i < u <= n == line@.len(),
                            !first ==> starts_with(current@, ci),
                            current@ == cur1 + line@.subrange(i + 1, u as int),
                        decreases n - u,
                    {
                        let ghost b = current@;
                        current.push(line[u]);
                        assert(current@ =~= cur1 + line@.subrange(i + 1, (u + 1) as int));
                        assert(!first ==> current@.subrange(0, ci.len() as int) =~= b.subrange(
                            0,
                            ci.len() as int,
                        ));
                        u = u + 1;
                    }
                    i = n;
                    continue;
                },
            }
        }
        i = i + 1;
    }
    let ghost segs0 = seg_views(segments@);
    segments.push(current);
    assert(seg_views(segments@) =~= segs0.push(current@));
    segments
}

/// The position of the first line break at or after `pos` (the end of the
/// text when there is none).
pub open spec fn line_end(text: Seq<char>, pos: int) -> int
    decreases text.len() - pos,
{
    if pos < 0 || pos >= text.len() || text[pos] == '\n' {
        pos
    } else {
        line_end(text, pos + 1)
    }
}

/// The pieces of a line, each ended by a line break.
pub open spec fn joined(segs: Seq<Seq<char>>) -> Seq<char>
    decreases segs.len(),
{
    if segs.len() == 0 {
        seq![]
    } else {
        joined(segs.drop_last()) + segs.last().push('\n')
    }
}

/// The wrapped text from position `pos` on: each line's pieces, the last
/// line keeping its lack of a final line break; empty lines stay empty.
pub open spec fn wrap_from(text: Seq<char>, cfg: FormatConfig, pos: int) -> Seq<char>
    decreases text.len() - pos,
{
    if pos < 0 || pos >= text.len() {
        seq![]
    } else {
        let e0 = line_end(text, pos);
        let e = if e0 < pos {
            pos
        } else {
            e0
        };
        let has_newline = e < text.len();
        let body = text.subrange(pos, e);
        let piece = if body.len() == 0 && has_newline {
            seq!['\n']
        } else {
            let j = joined(wrapped_line(body, cfg));
            if has_newline {
                j
            } else {
                j.drop_last()
            }
        };
        piece + wrap_from(
            text,
            cfg,
            if has_newline {
                e + 1
            } else {
                text.len() as int
            },
        )
    }
}

/// The whole text wrapped; a maximum of zero leaves it as it is.
pub open spec fn wrapped_text(text: Seq<char>, cfg: FormatConfig) -> Seq<char> {
    if cfg.max_line_length == 0 {
        text
    } else {
        let w = wrap_from(text, cfg, 0);
        if !ends_with(w, '\n') && ends_with(text, '\n') {
            w.push('\n')
        } else {
            w
        }
    }
}

pub proof fn lemma_line_end(text: Seq<char>, pos: int)
    requires
        0 <= pos <= text.len(),
    ensures
        pos <= line_end(text, pos) <= text.len(),
        line_end(text, pos) < text.len() ==> text[line_end(text, pos)] == '\n',
    decreases text.len() - pos,
{
    if pos < text.len() && text[pos] != '\n' {
        lemma_line_end(text, pos + 1);
    }
}

/// Wraps every line of `text` that is too long, keeping each line's own
/// line break; with a maximum of zero the text is returned unchanged.
pub fn wrap_formatted_output(text: Vec<char>, config: &FormatConfig) -> (r: Vec<char>)
    ensures
        r@ == wrapped_text(text@, *config),
        config.max_line_length == 0 ==> r@ == text@,
        ends_with(text@, '\n') ==> ends_with(r@, '\n'),
{
    if config.max_line_length == 0 {
        return text;
    }
    let n = text.len();
    let mut result: Vec<char> = Vec::new();
    let mut pos: usize = 0;
    while pos < n
        invariant
            pos <= n == text@.len(),
            result@ + wrap_from(text@, *config, pos as int) == wrap_from(text@, *config, 0),
        decreases n - pos,
    {
        let ghost start = result@;
        let mut e: usize = pos;
        while e < n && text[e] != '\n'
            invariant
                pos <= e <= n == text@.len(),
                line_end(text@, pos as int) == line_end(text@, e as int),
            decreases n - e,
        {
            e = e + 1;
        }
        let has_newline = e < n;
        let body = copy_range(&text, pos, e);
        if body.len() == 0 && has_newline {
            result.push('\n');
        } else {
            let segments = wrap_line(&body, config);
            let ghost segs = seg_views(segments@);
            let mut s: usize = 0;
            while s < segments.len()
                invariant
                    s <= segments@.len(),
                    segs == seg_views(segments@),
                    result@ == start + joined(segs.subrange(0, s as int)),
                decreases segments@.len() - s,
            {
                let seg = &segments[s];
                let ghost mid = result@;
                let mut c: usize = 0;
                while c < seg.len()
                    invariant
                        c <= seg@.len(),
                        result@ == mid + seg@.subrange(0, c as int),
                    decreases seg@.len() - c,
                {
                    result.push(seg[c]);
                    c = c + 1;
                    assert(result@ =~= mid + seg@.subrange(0, c as int));
                }
                result.push('\n');
                assert(segs.subrange(0, s + 1).drop_last() =~= segs.subrange(0, s as int));
                assert(seg@.subrange(0, c as int) =~= seg@);
                assert(segs[s as int] == seg@);
                assert(result@ =~= start + joined(segs.subrange(0, s + 1)));
                s = s + 1;
            }
            assert(segs.subrange(0, s as int) =~= segs);
            if !has_newline {
                result.pop();
            }
        }
        proof {
            lemma_line_end(text@, pos as int);
        }
        let ghost piece = result@.subrange(start.len() as int, result@.len() as int);
        assert(result@ =~= start + piece);
        pos = if has_newline {
            e + 1
        } else {
            e
        };
    }
    if !(result.len() > 0 && result[result.len() - 1] == '\n') && (n > 0 && text[n - 1] == '\n') {
        result.push('\n');
    }
    result
}

} // verus!
