//! The emission buffer: accumulated output, indent level and the flags that
//! describe where the next token lands.
use crate::config::{FormatConfig, valid_config};
use crate::text::{ends_with, ends_with_blank, is_hspace, trim_end_hspace, lemma_trim_end_hspace};
use vstd::prelude::*;

verus! {

/// `n` copies of `c`.
pub open spec fn repeat_char(c: char, n: nat) -> Seq<char> {
    Seq::new(n, |_i: int| c)
}

/// The indentation of a line at `level`: `level` tabs, or `level × width` spaces.
pub open spec fn indent_text(level: nat, cfg: FormatConfig) -> Seq<char> {
    if cfg.use_tabs {
        repeat_char('\t', level)
    } else {
        repeat_char(' ', level * (cfg.indent_width as nat))
    }
}

/// Closes the current line: trailing spaces and tabs go, and the text ends
/// in exactly one line break of its own.
pub open spec fn close_line(s: Seq<char>) -> Seq<char> {
    let t = trim_end_hspace(s);
    if ends_with(t, '\n') {
        t
    } else {
        t.push('\n')
    }
}

/// Ends `s` with a blank line, adding no more than needed.
pub open spec fn blank_after(s: Seq<char>) -> Seq<char> {
    let u = if ends_with(s, '\n') {
        s
    } else {
        s.push('\n')
    };
    if ends_with_blank(u) {
        u
    } else {
        u.push('\n')
    }
}

/// Trims trailing spaces and tabs and then ends with a blank line; empty
/// output stays empty.
pub open spec fn blank_before(s: Seq<char>) -> Seq<char> {
    let t = trim_end_hspace(s);
    if t.len() == 0 {
        t
    } else {
        blank_after(t)
    }
}

pub struct Emitter {
    pub config: FormatConfig,
    pub output: Vec<char>,
    pub indent_level: usize,
    pub at_line_start: bool,
    pub pending_space: bool,
    pub last_line_was_comment: bool,
}

impl Emitter {
    /// The output so far.
    pub open spec fn out(&self) -> Seq<char> {
        self.output@
    }

    /// `self` and `other` differ at most in their output.
    pub open spec fn same_state(&self, other: &Emitter) -> bool {
        &&& self.config == other.config
        &&& self.indent_level == other.indent_level
        &&& self.at_line_start == other.at_line_start
        &&& self.pending_space == other.pending_space
        &&& self.last_line_was_comment == other.last_line_was_comment
    }

    pub fn new(config: FormatConfig) -> (r: Emitter)
        ensures
            r.config == config,
            r.out() == Seq::<char>::empty(),
            r.indent_level == 0,
            r.at_line_start,
            !r.pending_space,
            !r.last_line_was_comment,
    {
        Emitter {
            config,
            output: Vec::new(),
            indent_level: 0,
            at_line_start: true,
            pending_space: false,
            last_line_was_comment: false,
        }
    }

    pub fn buffer(&self) -> (r: &Vec<char>)
        ensures
            r@ == self.out(),
    {
        &self.output
    }

    pub fn indent_level(&self) -> (r: usize)
        ensures
            r == self.indent_level,
    {
        self.indent_level
    }

    /// One level deeper; the level saturates rather than overflow.
    pub fn increase_indent(&mut self)
        ensures
            final(self).indent_level == if old(self).indent_level == usize::MAX {
                usize::MAX
            } else {
                (old(self).indent_level + 1) as usize
            },
            final(self).out() == old(self).out(),
            final(self).config == old(self).config,
            final(self).at_line_start == old(self).at_line_start,
            final(self).pending_space == old(self).pending_space,
            final(self).last_line_was_comment == old(self).last_line_was_comment,
    {
        self.indent_level = self.indent_level.saturating_add(1);
    }

    /// One level shallower; never below zero.
    pub fn decrease_indent(&mut self)
        ensures
            final(self).indent_level == if old(self).indent_level == 0 {
                0
            } else {
                (old(self).indent_level - 1) as usize
            },
            final(self).out() == old(self).out(),
            final(self).config == old(self).config,
            final(self).at_line_start == old(self).at_line_start,
            final(self).pending_space == old(self).pending_space,
            final(self).last_line_was_comment == old(self).last_line_was_comment,
    {
        self.indent_level = self.indent_level.saturating_sub(1);
    }

    pub fn at_line_start(&self) -> (r: bool)
        ensures
            r == self.at_line_start,
    {
        self.at_line_start
    }

    pub fn set_at_line_start(&mut self, value: bool)
        ensures
            final(self).at_line_start == value,
            final(self).out() == old(self).out(),
            final(self).config == old(self).config,
            final(self).indent_level == old(self).indent_level,
            final(self).pending_space == old(self).pending_space,
            final(self).last_line_was_comment == old(self).last_line_was_comment,
    {
        self.at_line_start = value;
    }

    pub fn pending_space(&self) -> (r: bool)
        ensures
            r == self.pending_space,
    {
        self.pending_space
    }

    pub fn set_pending_space(&mut self, value: bool)
        ensures
            final(self).pending_space == value,
            final(self).out() == old(self).out(),
            final(self).config == old(self).config,
            final(self).indent_level == old(self).indent_level,
            final(self).at_line_start == old(self).at_line_start,
            final(self).last_line_was_comment == old(self).last_line_was_comment,
    {
        self.pending_space = value;
    }

    pub fn last_line_was_comment(&self) -> (r: bool)
        ensures
            r == self.last_line_was_comment,
    {
        self.last_line_was_comment
    }

    pub fn set_last_line_was_comment(&mut self, value: bool)
        ensures
            final(self).last_line_was_comment == value,
            final(self).out() == old(self).out(),
            final(self).config == old(self).config,
            final(self).indent_level == old(self).indent_level,
            final(self).at_line_start == old(self).at_line_start,
            final(self).pending_space == old(self).pending_space,
    {
        self.last_line_was_comment = value;
    }

    /// Writes the indentation of the current level; the line has begun and
    /// no space is pending.
    pub fn write_indent(&mut self)
        ensures
            final(self).out() == old(self).out() + indent_text(
                old(self).indent_level as nat,
                old(self).config,
            ),
            final(self).config == old(self).config,
            final(self).indent_level == old(self).indent_level,
            !final(self).at_line_start,
            !final(self).pending_space,
            final(self).last_line_was_comment == old(self).last_line_was_comment,
    {
        let ghost start = self.output@;
        if self.config.use_tabs {
            let mut k: usize = 0;
            while k < self.indent_level
                invariant
                    k <= self.indent_level,
                    self.config == old(self).config,
                    self.indent_level == old(self).indent_level,
                    self.at_line_start == old(self).at_line_start,
                    self.pending_space == old(self).pending_space,
                    self.last_line_was_comment == old(self).last_line_was_comment,
                    self.output@ == start + repeat_char('\t', k as nat),
                decreases self.indent_level - k,
            {
                self.output.push('\t');
                k = k + 1;
                assert(self.output@ =~= start + repeat_char('\t', k as nat));
            }
        } else {
            let width = self.config.indent_width;
            let mut k: usize = 0;
            while k < self.indent_level
                invariant
                    k <= self.indent_level,
                    width == self.config.indent_width,
                    self.config == old(self).config,
                    self.indent_level == old(self).indent_level,
                    self.at_line_start == old(self).at_line_start,
                    self.pending_space == old(self).pending_space,
                    self.last_line_was_comment == old(self).last_line_was_comment,
                    self.output@ == start + repeat_char(' ', (k * width) as nat),
                decreases self.indent_level - k,
            {
                let mut j: usize = 0;
                while j < width
                    invariant
                        j <= width,
                        k < self.indent_level,
                        width == self.config.indent_width,
                        self.config == old(self).config,
                        self.indent_level == old(self).indent_level,
                        self.at_line_start == old(self).at_line_start,
                        self.pending_space == old(self).pending_space,
                        self.last_line_was_comment == old(self).last_line_was_comment,
                        self.output@ == start + repeat_char(' ', (k * width + j) as nat),
                    decreases width - j,
                {
                    self.output.push(' ');
                    j = j + 1;
                    assert(self.output@ =~= start + repeat_char(' ', (k * width + j) as nat));
                }
                assert((k + 1) * width == k * width + width) by (nonlinear_arith);
                k = k + 1;
            }
        }
        self.at_line_start = false;
        self.pending_space = false;
    }

    pub fn push_str(&mut self, text: &Vec<char>)
        ensures
            final(self).out() == old(self).out() + text@,
            final(self).same_state(old(self)),
    {
        let ghost start = self.output@;
        let mut i: usize = 0;
        while i < text.len()
            invariant
                i <= text@.len(),
                self.same_state(old(self)),
                self.output@ == start + text@.subrange(0, i as int),
            decreases text@.len() - i,
        {
            self.output.push(text[i]);
            i = i + 1;
            assert(self.output@ =~= start + text@.subrange(0, i as int));
        }
        assert(text@.subrange(0, i as int) =~= text@);
    }

    pub fn push_char(&mut self, ch: char)
        ensures
            final(self).out() == old(self).out().push(ch),
            final(self).same_state(old(self)),
    {
        self.output.push(ch);
    }

    pub fn ends_with_char(&self, ch: char) -> (r: bool)
        ensures
            r == ends_with(self.out(), ch),
    {
        self.output.len() > 0 && self.output[self.output.len() - 1] == ch
    }

    /// The output ends with a line break.
    pub fn ensure_trailing_newline(&mut self)
        ensures
            final(self).out() == if ends_with(old(self).out(), '\n') {
                old(self).out()
            } else {
                old(self).out().push('\n')
            },
            final(self).same_state(old(self)),
    {
        if !self.ends_with_char('\n') {
            self.output.push('\n');
        }
    }

    /// Hands the output over and leaves the buffer empty.
    pub fn take_output(&mut self) -> (r: Vec<char>)
        ensures
            r@ == old(self).out(),
            final(self).out() == Seq::<char>::empty(),
            final(self).same_state(old(self)),
    {
        let mut out: Vec<char> = Vec::new();
        std::mem::swap(&mut out, &mut self.output);
        out
    }

    /// Removes trailing spaces and tabs.
    pub fn trim_trailing_whitespace(&mut self)
        ensures
            final(self).out() == trim_end_hspace(old(self).out()),
            final(self).same_state(old(self)),
    {
        while self.output.len() > 0 && (self.output[self.output.len() - 1] == ' '
            || self.output[self.output.len() - 1] == '\t')
            invariant
                self.same_state(old(self)),
                trim_end_hspace(self.output@) == trim_end_hspace(old(self).out()),
            decreases self.output@.len(),
        {
            self.output.pop();
        }
    }

    /// Commits a line break: trims trailing whitespace and ends the line once.
    pub fn newline(&mut self)
        ensures
            final(self).out() == close_line(old(self).out()),
            final(self).at_line_start,
            !final(self).pending_space,
            final(self).config == old(self).config,
            final(self).indent_level == old(self).indent_level,
            final(self).last_line_was_comment == old(self).last_line_was_comment,
    {
        self.trim_trailing_whitespace();
        if !self.ends_with_char('\n') {
            self.output.push('\n');
        }
        self.at_line_start = true;
        self.pending_space = false;
    }

    fn ends_with_blank_line(&self) -> (r: bool)
        ensures
            r == ends_with_blank(self.out()),
    {
        let n = self.output.len();
        n >= 2 && self.output[n - 1] == '\n' && self.output[n - 2] == '\n'
    }

    /// Exactly one blank line precedes the current point (none at the start
    /// of the output); repeated calls add nothing.
    pub fn ensure_blank_line(&mut self)
        ensures
            final(self).out() == blank_before(old(self).out()),
            final(self).at_line_start,
            final(self).out().len() == 0 ==> final(self).pending_space == old(self).pending_space,
            final(self).out().len() > 0 ==> !final(self).pending_space,
            final(self).config == old(self).config,
            final(self).indent_level == old(self).indent_level,
            final(self).last_line_was_comment == old(self).last_line_was_comment,
    {
        self.trim_trailing_whitespace();
        if self.output.len() == 0 {
            self.at_line_start = true;
            return ;
        }
        if !self.ends_with_char('\n') {
            self.output.push('\n');
        }
        if !self.ends_with_blank_line() {
            self.output.push('\n');
        }
        self.at_line_start = true;
        self.pending_space = false;
    }

    /// Exactly one blank line follows what was written; repeated calls add
    /// nothing.
    pub fn ensure_blank_line_after_comment(&mut self)
        ensures
            final(self).out() == blank_after(old(self).out()),
            final(self).at_line_start,
            !final(self).pending_space,
            final(self).config == old(self).config,
            final(self).indent_level == old(self).indent_level,
            final(self).last_line_was_comment == old(self).last_line_was_comment,
    {
        if !self.ends_with_char('\n') {
            self.output.push('\n');
        }
        if !self.ends_with_blank_line() {
            self.output.push('\n');
        }
        self.at_line_start = true;
        self.pending_space = false;
    }
}

/// Each line of indentation is `level × width` spaces, or `level` tabs, and
/// holds nothing else.
pub proof fn lemma_indent_shape(level: nat, cfg: FormatConfig)
    ensures
        cfg.use_tabs ==> indent_text(level, cfg).len() == level,
        !cfg.use_tabs ==> indent_text(level, cfg).len() == level * cfg.indent_width,
        forall|i: int|
            0 <= i < indent_text(level, cfg).len() ==> #[trigger] indent_text(level, cfg)[i]
                == if cfg.use_tabs {
                '\t'
            } else {
                ' '
            },
{
}

/// Closing a line twice is closing it once, and the result ends with a line
/// break; the blank-line guarantees are idempotent too: asking again adds
/// nothing.
pub proof fn lemma_close_line(s: Seq<char>)
    ensures
        ends_with(close_line(s), '\n'),
        close_line(close_line(s)) == close_line(s),
        blank_after(blank_after(s)) == blank_after(s),
        blank_before(blank_before(s)) == blank_before(s),
{
    lemma_trim_end_hspace(s);
    let c = close_line(s);
    assert(!is_hspace(c.last()));
    assert(trim_end_hspace(c) == c);
    let b = blank_before(s);
    if b.len() > 0 {
        assert(ends_with_blank(b));
        assert(!is_hspace(b.last()));
        assert(trim_end_hspace(b) == b);
    } else {
        assert(trim_end_hspace(b) == b);
    }
}

} // verus!
