//! The streaming formatter: one pass over the token stream that drives the
//! emission buffer, with a small state machine that inserts `begin`/`end`
//! around unbracketed multi-statement bodies.
use super::analysis::{
    ByteSpan, case_alignment, collect_case_alignment, collect_statement_spans, statement_spans,
};
use super::tree::{EventView, TreeEvent, event_views, tree_events};
use super::wrapping::{wrap_formatted_output, wrapped_text};
use crate::parser::{SvParserCfg, parse, syntax_events};
use super::emitter::{Emitter, blank_after, blank_before, close_line, indent_text};
use super::lexer::{Token, TokenKind, TokenView, token_views, tokenize, tokens_after};


use crate::config::FormatConfig;

use crate::text::{
    ends_with, ends_with_blank, eq_str, is_hspace, lemma_trim_end_hspace, lower_seq, string_of,
    trim_end_hspace,
};
use std::collections::HashMap;
use vstd::prelude::*;

verus! {

/// Why formatting a text failed.
#[derive(Debug)]
pub enum FormatError {
    /// The parser rejected the text; its own diagnostic is kept.
    Parse(sv_parser::Error),
}

/// A keyword token spelled `w` in any case.
pub open spec fn is_word(t: TokenView, w: Seq<char>) -> bool {
    t.kind == TokenKind::Keyword && lower_seq(t.text) == w
}

/// Keywords that close one indentation scope.
pub open spec fn is_dedent_word(w: Seq<char>) -> bool {
    ||| w == "end"@
    ||| w == "endmodule"@
    ||| w == "endclass"@
    ||| w == "endfunction"@
    ||| w == "endtask"@
    ||| w == "endcase"@
    ||| w == "endsequence"@
    ||| w == "endpackage"@
    ||| w == "endgroup"@
    ||| w == "endgenerate"@
    ||| w == "join"@
    ||| w == "join_any"@
    ||| w == "join_none"@
}

/// Keywords that open one indentation scope.
pub open spec fn is_indent_word(w: Seq<char>) -> bool {
    ||| w == "module"@
    ||| w == "class"@
    ||| w == "function"@
    ||| w == "task"@
    ||| w == "package"@
    ||| w == "begin"@
    ||| w == "case"@
    ||| w == "casex"@
    ||| w == "casez"@
    ||| w == "randcase"@
    ||| w == "randsequence"@
    ||| w == "covergroup"@
    ||| w == "fork"@
    ||| w == "generate"@
    ||| w == "interface"@
}

/// Keywords that start a section and get a blank line before them.
pub open spec fn is_section_word(w: Seq<char>) -> bool {
    w == "package"@ || w == "class"@ || w == "interface"@
}

pub open spec fn is_dedent(t: TokenView) -> bool {
    t.kind == TokenKind::Keyword && is_dedent_word(lower_seq(t.text))
}

pub open spec fn is_indent(t: TokenView) -> bool {
    t.kind == TokenKind::Keyword && is_indent_word(lower_seq(t.text))
}

pub open spec fn is_section(t: TokenView) -> bool {
    t.kind == TokenKind::Keyword && is_section_word(lower_seq(t.text))
}

pub fn is_dedent_keyword(t: &Token) -> (r: bool)
    ensures
        r == is_dedent(t@),
{
    if t.kind != TokenKind::Keyword {
        return false;
    }
    let w = t.lowered();
    let w = w.as_slice();
    eq_str(w, "end") || eq_str(w, "endmodule") || eq_str(w, "endclass") || eq_str(w, "endfunction")
        || eq_str(w, "endtask") || eq_str(w, "endcase") || eq_str(w, "endsequence") || eq_str(
        w,
        "endpackage",
    ) || eq_str(w, "endgroup") || eq_str(w, "endgenerate") || eq_str(w, "join") || eq_str(
        w,
        "join_any",
    ) || eq_str(w, "join_none")
}

pub fn is_indent_keyword(t: &Token) -> (r: bool)
    ensures
        r == is_indent(t@),
{
    if t.kind != TokenKind::Keyword {
        return false;
    }
    let w = t.lowered();
    let w = w.as_slice();
    eq_str(w, "module") || eq_str(w, "class") || eq_str(w, "function") || eq_str(w, "task")
        || eq_str(w, "package") || eq_str(w, "begin") || eq_str(w, "case") || eq_str(w, "casex")
        || eq_str(w, "casez") || eq_str(w, "randcase") || eq_str(w, "randsequence") || eq_str(
        w,
        "covergroup",
    ) || eq_str(w, "fork") || eq_str(w, "generate") || eq_str(w, "interface")
}

pub fn is_section_decl_keyword(t: &Token) -> (r: bool)
    ensures
        r == is_section(t@),
{
    if t.kind != TokenKind::Keyword {
        return false;
    }
    let w = t.lowered();
    let w = w.as_slice();
    eq_str(w, "package") || eq_str(w, "class") || eq_str(w, "interface")
}

/// Whether a space follows `text`, given the next non-newline token.
pub open spec fn space_after(text: Seq<char>, next: Option<TokenView>) -> bool {
    if text == "("@ || text == "["@ || text == "{"@ || text == "."@ || text == "@"@ {
        false
    } else if text == ")"@ || text == "]"@ || text == "}"@ || text == ";"@ || text == ","@ {
        true
    } else if text == ":"@ {
        match next {
            Some(n) => !(n.kind == TokenKind::Symbol && n.text == ":"@),
            None => false,
        }
    } else {
        true
    }
}

/// Tokens that never take a space before them.
pub open spec fn no_space_before(text: Seq<char>) -> bool {
    text == ")"@ || text == "]"@ || text == "}"@ || text == ","@ || text == ";"@ || text == "."@
}

pub fn needs_space_after(text: &[char], next: Option<&Token>) -> (r: bool)
    ensures
        r == space_after(
            text@,
            match next {
                Some(n) => Some(n@),
                None => None,
            },
        ),
{
    if eq_str(text, "(") || eq_str(text, "[") || eq_str(text, "{") || eq_str(text, ".") || eq_str(
        text,
        "@",
    ) {
        false
    } else if eq_str(text, ")") || eq_str(text, "]") || eq_str(text, "}") || eq_str(text, ";")
        || eq_str(text, ",") {
        true
    } else if eq_str(text, ":") {
        match next {
            Some(n) => !n.is_symbol(":"),
            None => false,
        }
    } else {
        true
    }
}

pub fn needs_no_space_before(text: &[char]) -> (r: bool)
    ensures
        r == no_space_before(text@),
{
    eq_str(text, ")") || eq_str(text, "]") || eq_str(text, "}") || eq_str(text, ",") || eq_str(
        text,
        ";",
    ) || eq_str(text, ".")
}

#[derive(Clone, Copy, Debug, PartialEq, Eq, Structural)]
pub enum WrapMode {
    Idle,
    /// Inside the parenthesised condition of `if`, `for`, `foreach`, `while`.
    WaitingCondition,
    /// The construct's body comes next.
    Ready,
}

#[derive(Clone, Copy, Debug, PartialEq, Eq, Structural)]
pub enum WrapKeyword {
    If,
    Else,
    For,
    Foreach,
    While,
    Do,
    Forever,
}

/// The control keyword that `t` is, if any.
pub open spec fn wrap_keyword_of(t: TokenView) -> Option<WrapKeyword> {
    if is_word(t, "if"@) {
        Some(WrapKeyword::If)
    } else if is_word(t, "else"@) {
        Some(WrapKeyword::Else)
    } else if is_word(t, "for"@) {
        Some(WrapKeyword::For)
    } else if is_word(t, "foreach"@) {
        Some(WrapKeyword::Foreach)
    } else if is_word(t, "while"@) {
        Some(WrapKeyword::While)
    } else if is_word(t, "do"@) {
        Some(WrapKeyword::Do)
    } else if is_word(t, "forever"@) {
        Some(WrapKeyword::Forever)
    } else {
        None
    }
}

impl WrapKeyword {
    pub fn from_token(t: &Token) -> (r: Option<WrapKeyword>)
        ensures
            r == wrap_keyword_of(t@),
    {
        if t.is_keyword("if") {
            Some(WrapKeyword::If)
        } else if t.is_keyword("else") {
            Some(WrapKeyword::Else)
        } else if t.is_keyword("for") {
            Some(WrapKeyword::For)
        } else if t.is_keyword("foreach") {
            Some(WrapKeyword::Foreach)
        } else if t.is_keyword("while") {
            Some(WrapKeyword::While)
        } else if t.is_keyword("do") {
            Some(WrapKeyword::Do)
        } else if t.is_keyword("forever") {
            Some(WrapKeyword::Forever)
        } else {
            None
        }
    }
}

/// Inspection stops after this many tokens.
pub const SCAN_LIMIT: usize = 128;

/// The state of automatic block insertion.
#[derive(Clone, Copy, Debug, PartialEq, Eq, Structural)]
pub struct WrapTracker {
    pub mode: WrapMode,
    pub paren_depth: usize,
    pub keyword: Option<WrapKeyword>,
    pub body_span: Option<ByteSpan>,
}

pub open spec fn idle_tracker() -> WrapTracker {
    WrapTracker { mode: WrapMode::Idle, paren_depth: 0, keyword: None, body_span: None }
}

/// The tracker after the token `t` (with the body span recorded for it)
/// has been emitted: a control keyword arms it.
pub open spec fn started(w: WrapTracker, t: TokenView, span: Option<ByteSpan>) -> WrapTracker {
    match wrap_keyword_of(t) {
        Some(kw) => WrapTracker {
            mode: match kw {
                WrapKeyword::If | WrapKeyword::For | WrapKeyword::Foreach | WrapKeyword::While =>
                    WrapMode::WaitingCondition,
                _ => WrapMode::Ready,
            },
            paren_depth: 0,
            keyword: Some(kw),
            body_span: span,
        },
        None => w,
    }
}

/// The tracker after it has seen the token `t` before its emission: the
/// condition's parentheses are counted, and a body that resolves itself
/// (`begin`, `;`, a closing keyword) disarms it.
pub open spec fn observed(w: WrapTracker, t: TokenView) -> WrapTracker {
    match w.mode {
        WrapMode::Idle => w,
        WrapMode::WaitingCondition => if t.text == "("@ {
            WrapTracker {
                paren_depth: if w.paren_depth == usize::MAX {
                    usize::MAX
                } else {
                    (w.paren_depth + 1) as usize
                },
                ..w
            }
        } else if t.text == ")"@ {
            let d: usize = if w.paren_depth > 0 {
                (w.paren_depth - 1) as usize
            } else {
                0
            };
            WrapTracker {
                paren_depth: d,
                mode: if d == 0 {
                    WrapMode::Ready
                } else {
                    WrapMode::WaitingCondition
                },
                ..w
            }
        } else {
            w
        },
        WrapMode::Ready => if is_word(t, "begin"@) || t.text == ";"@ || is_dedent(t) {
            idle_tracker()
        } else {
            w
        },
    }
}

/// Whether the body that follows position `i` needs a synthetic block:
/// counts `;` past the recorded body span until `needed` are seen, gives up
/// at `begin` (or at `if` after `else`), stops at `else` or a closing
/// keyword, and inspects at most `SCAN_LIMIT` tokens.
pub open spec fn scan_needs_wrap(
    toks: Seq<TokenView>,
    i: int,
    kw: WrapKeyword,
    span: Option<ByteSpan>,
    needed: nat,
    semis: nat,
    inspected: nat,
) -> bool
    decreases toks.len() - i,
{
    if i < 0 || i >= toks.len() {
        semis >= needed
    } else {
        let t = toks[i];
        if t.kind == TokenKind::Newline {
            scan_needs_wrap(toks, i + 1, kw, span, needed, semis, inspected)
        } else if span matches Some(s) && s.has(t.offset) {
            scan_needs_wrap(toks, i + 1, kw, span, needed, semis, inspected)
        } else if is_word(t, "begin"@) {
            false
        } else if kw == WrapKeyword::Else && is_word(t, "if"@) {
            false
        } else if is_word(t, "else"@) || is_dedent(t) {
            semis >= needed
        } else {
            let s2 = if t.text == ";"@ {
                semis + 1
            } else {
                semis
            };
            if s2 >= needed && t.text == ";"@ {
                true
            } else if inspected + 1 >= SCAN_LIMIT {
                s2 >= needed
            } else {
                scan_needs_wrap(toks, i + 1, kw, span, needed, s2, inspected + 1)
            }
        }
    }
}

/// The threshold of statement terminators: one when the body's span is
/// known, two otherwise.
pub open spec fn needed_semis(w: WrapTracker) -> nat {
    if w.body_span is Some {
        1
    } else {
        2
    }
}

pub open spec fn needs_wrap(w: WrapTracker, toks: Seq<TokenView>, index: int) -> bool {
    match w.keyword {
        Some(kw) => scan_needs_wrap(toks, index, kw, w.body_span, needed_semis(w), 0, 0),
        None => false,
    }
}

impl WrapTracker {
    pub fn new() -> (r: WrapTracker)
        ensures
            r == idle_tracker(),
    {
        WrapTracker { mode: WrapMode::Idle, paren_depth: 0, keyword: None, body_span: None }
    }

    pub fn reset(&mut self)
        ensures
            *final(self) == idle_tracker(),
    {
        self.mode = WrapMode::Idle;
        self.paren_depth = 0;
        self.keyword = None;
        self.body_span = None;
    }

    pub fn maybe_start(&mut self, t: &Token, span: Option<ByteSpan>)
        ensures
            *final(self) == started(*old(self), t@, span),
    {
        let kw = WrapKeyword::from_token(t);
        if let Some(kw) = kw {
            self.body_span = span;
            self.mode = match kw {
                WrapKeyword::If | WrapKeyword::For | WrapKeyword::Foreach | WrapKeyword::While =>
                    WrapMode::WaitingCondition,
                _ => WrapMode::Ready,
            };
            self.paren_depth = 0;
            self.keyword = Some(kw);
        }
    }

    pub fn observe_token(&mut self, t: &Token)
        ensures
            *final(self) == observed(*old(self), t@),
    {
        match self.mode {
            WrapMode::Idle => {},
            WrapMode::WaitingCondition => {
                if eq_str(t.text.as_slice(), "(") {
                    self.paren_depth = self.paren_depth.saturating_add(1);
                } else if eq_str(t.text.as_slice(), ")") {
                    if self.paren_depth > 0 {
                        self.paren_depth = self.paren_depth - 1;
                    }
                    if self.paren_depth == 0 {
                        self.mode = WrapMode::Ready;
                    }
                }
            },
            WrapMode::Ready => {
                if t.is_keyword("begin") || eq_str(t.text.as_slice(), ";") || is_dedent_keyword(t) {
                    self.reset();
                }
            },
        }
    }

    pub fn ready_to_wrap(&self) -> (r: bool)
        ensures
            r == (self.mode == WrapMode::Ready),
    {
        self.mode == WrapMode::Ready
    }

    /// Whether the body that starts at `index` needs a synthetic block.
    pub fn body_needs_wrap(&self, tokens: &Vec<Token>, index: usize) -> (r: bool)
        ensures
            r == needs_wrap(*self, token_views(tokens@), index as int),
    {
        let ghost toks = token_views(tokens@);
        let kw = match self.keyword {
            Some(k) => k,
            None => {
                return false;
            },
        };
        let needed: usize = if self.body_span.is_some() {
            1
        } else {
            2
        };
        let mut semis: usize = 0;
        let mut inspected: usize = 0;
        let mut i: usize = index;
        while i < tokens.len()
            invariant
                toks == token_views(tokens@),
                index <= i,
                needed as nat == needed_semis(*self),
                semis <= needed,
                inspected < SCAN_LIMIT,
                self.keyword == Some(kw),
                needs_wrap(*self, toks, index as int) == scan_needs_wrap(
                    toks,
                    i as int,
                    kw,
                    self.body_span,
                    needed as nat,
                    semis as nat,
                    inspected as nat,
                ),
            decreases tokens@.len() - i,
        {
            let t = &tokens[i];
            assert(toks[i as int] == t@);
            if t.kind == TokenKind::Newline {
                i = i + 1;
                continue;
            }
            if let Some(span) = self.body_span {
                if span.contains(t.offset) {
                    i = i + 1;
                    continue;
                }
            }
            if t.is_keyword("begin") {
                return false;
            }
            if kw == WrapKeyword::Else && t.is_keyword("if") {
                return false;
            }
            if t.is_keyword("else") || is_dedent_keyword(t) {
                return semis >= needed;
            }
            let is_semi = eq_str(t.text.as_slice(), ";");
            if is_semi {
                semis = semis + 1;
                if semis >= needed {
                    return true;
                }
            }
            if inspected + 1 >= SCAN_LIMIT {
                return semis >= needed;
            }
            inspected = inspected + 1;
            i = i + 1;
        }
        semis >= needed
    }
}

/// The index of the last token before `idx` that is not a line break.
pub open spec fn prev_non_newline_spec(toks: Seq<TokenView>, idx: int) -> Option<int>
    decreases idx,
{
    if idx <= 0 {
        None
    } else if toks[idx - 1].kind != TokenKind::Newline {
        Some(idx - 1)
    } else {
        prev_non_newline_spec(toks, idx - 1)
    }
}

/// The index of the first token after `idx` that is not a line break.
pub open spec fn next_non_newline_from(toks: Seq<TokenView>, i: int) -> Option<int>
    decreases toks.len() - i,
{
    if i < 0 || i >= toks.len() {
        None
    } else if toks[i].kind != TokenKind::Newline {
        Some(i)
    } else {
        next_non_newline_from(toks, i + 1)
    }
}

pub open spec fn next_token(toks: Seq<TokenView>, idx: int) -> Option<TokenView> {
    match next_non_newline_from(toks, idx + 1) {
        Some(j) => Some(toks[j]),
        None => None,
    }
}

pub open spec fn prev_token(toks: Seq<TokenView>, idx: int) -> Option<TokenView> {
    match prev_non_newline_spec(toks, idx) {
        Some(j) => Some(toks[j]),
        None => None,
    }
}

pub proof fn lemma_next_in_range(toks: Seq<TokenView>, i: int)
    requires
        0 <= i,
    ensures
        next_non_newline_from(toks, i) matches Some(j) ==> i <= j < toks.len() && toks[j].kind
            != TokenKind::Newline,
    decreases toks.len() - i,
{
    if i < toks.len() && toks[i].kind == TokenKind::Newline {
        lemma_next_in_range(toks, i + 1);
    }
}

pub proof fn lemma_prev_in_range(toks: Seq<TokenView>, idx: int)
    requires
        idx <= toks.len(),
    ensures
        prev_non_newline_spec(toks, idx) matches Some(j) ==> 0 <= j < idx && toks[j].kind
            != TokenKind::Newline,
    decreases idx,
{
    if idx > 0 && toks[idx - 1].kind == TokenKind::Newline {
        lemma_prev_in_range(toks, idx - 1);
    }
}

/// The streaming formatter's state.
pub struct Formatter {
    pub config: FormatConfig,
    pub tokens: Vec<Token>,
    pub body_spans: HashMap<usize, ByteSpan>,
    pub case_alignment: HashMap<usize, usize>,
    pub idx: usize,
    pub emitter: Emitter,
    pub previous_call_ident: bool,
    /// Indent levels of the synthetic blocks still open, innermost last.
    pub inserted_blocks: Vec<usize>,
    pub wrap_tracker: WrapTracker,
}

impl Formatter {
    /// The consistency that every step keeps: the buffer's configuration is
    /// the run's, and at the start of a line nothing has been written on it.
    pub open spec fn wf(&self) -> bool {
        &&& self.emitter.config == self.config
        &&& self.idx <= self.tokens@.len()
        &&& self.emitter.at_line_start ==> (self.emitter.out().len() == 0 || ends_with(
            self.emitter.out(),
            '\n',
        ))
    }

    pub open spec fn toks(&self) -> Seq<TokenView> {
        token_views(self.tokens@)
    }

    /// The engine state that this formatter holds.
    pub open spec fn state(&self) -> EngineState {
        EngineState {
            out: self.emitter.out(),
            level: self.emitter.indent_level,
            at_line_start: self.emitter.at_line_start,
            pending_space: self.emitter.pending_space,
            last_comment: self.emitter.last_line_was_comment,
            prev_ident: self.previous_call_ident,
            blocks: self.inserted_blocks@,
            tracker: self.wrap_tracker,
        }
    }

    /// What this formatter's run reads.
    pub open spec fn input(&self) -> EngineInput {
        EngineInput {
            cfg: self.config,
            toks: self.toks(),
            spans: self.body_spans@,
            align: self.case_alignment@,
        }
    }

    /// Everything but the output, the flags and the open blocks is unchanged.
    pub open spec fn same_input(&self, other: &Formatter) -> bool {
        &&& self.config == other.config
        &&& self.tokens@ == other.tokens@
        &&& self.body_spans@ == other.body_spans@
        &&& self.case_alignment@ == other.case_alignment@
        &&& self.idx == other.idx
    }

    pub fn new(
        config: FormatConfig,
        tokens: Vec<Token>,
        body_spans: HashMap<usize, ByteSpan>,
        case_alignment: HashMap<usize, usize>,
    ) -> (r: Formatter)
        ensures
            r.wf(),
            r.config == config,
            r.tokens@ == tokens@,
            r.body_spans@ == body_spans@,
            r.case_alignment@ == case_alignment@,
            r.idx == 0,
            r.emitter.out() == Seq::<char>::empty(),
            r.emitter.indent_level == 0,
            r.emitter.at_line_start,
            !r.emitter.pending_space,
            !r.emitter.last_line_was_comment,
            !r.previous_call_ident,
            r.inserted_blocks@ == Seq::<usize>::empty(),
            r.wrap_tracker == idle_tracker(),
    {
        Formatter {
            config,
            tokens,
            body_spans,
            case_alignment,
            idx: 0,
            emitter: Emitter::new(config),
            previous_call_ident: false,
            inserted_blocks: Vec::new(),
            wrap_tracker: WrapTracker::new(),
        }
    }

    /// Index of the nearest token before the cursor that is not a line break.
    pub fn prev_non_newline(&self) -> (r: Option<usize>)
        requires
            self.idx <= self.tokens@.len(),
        ensures
            r matches Some(j) ==> prev_non_newline_spec(self.toks(), self.idx as int) == Some(
                j as int,
            ),
            r is None ==> prev_non_newline_spec(self.toks(), self.idx as int) is None,
    {
        let mut i: usize = self.idx;
        while i > 0
            invariant
                i <= self.idx <= self.tokens@.len(),
                prev_non_newline_spec(self.toks(), self.idx as int) == prev_non_newline_spec(
                    self.toks(),
                    i as int,
                ),
            decreases i,
        {
            assert(self.toks()[i - 1] == self.tokens@[i - 1]@);
            if self.tokens[i - 1].kind != TokenKind::Newline {
                return Some(i - 1);
            }
            i = i - 1;
        }
        None
    }

    /// Index of the nearest token after the cursor that is not a line break.
    pub fn peek_non_newline(&self) -> (r: Option<usize>)
        ensures
            r matches Some(j) ==> next_non_newline_from(self.toks(), self.idx + 1) == Some(
                j as int,
            ),
            r is None ==> next_non_newline_from(self.toks(), self.idx + 1) is None,
    {
        if self.idx >= self.tokens.len() {
            return None;
        }
        let mut i: usize = self.idx + 1;
        while i < self.tokens.len()
            invariant
                self.idx + 1 <= i,
                next_non_newline_from(self.toks(), self.idx + 1) == next_non_newline_from(
                    self.toks(),
                    i as int,
                ),
            decreases self.tokens@.len() - i,
        {
            assert(self.toks()[i as int] == self.tokens@[i as int]@);
            if self.tokens[i].kind != TokenKind::Newline {
                return Some(i);
            }
            i = i + 1;
        }
        None
    }

    pub fn write_indent(&mut self)
        ensures
            final(self).emitter.out() == old(self).emitter.out() + indent_text(
                old(self).emitter.indent_level as nat,
                old(self).emitter.config,
            ),
            !final(self).emitter.at_line_start,
            !final(self).emitter.pending_space,
            final(self).emitter.config == old(self).emitter.config,
            final(self).emitter.indent_level == old(self).emitter.indent_level,
            final(self).emitter.last_line_was_comment == old(self).emitter.last_line_was_comment,
            final(self).same_input(old(self)),
            final(self).previous_call_ident == old(self).previous_call_ident,
            final(self).inserted_blocks@ == old(self).inserted_blocks@,
            final(self).wrap_tracker == old(self).wrap_tracker,
    {
        self.emitter.write_indent();
    }

    pub fn trim_trailing_whitespace(&mut self)
        ensures
            final(self).emitter.out() == trim_end_hspace(old(self).emitter.out()),
            final(self).emitter.same_state(&old(self).emitter),
            final(self).same_input(old(self)),
            final(self).previous_call_ident == old(self).previous_call_ident,
            final(self).inserted_blocks@ == old(self).inserted_blocks@,
            final(self).wrap_tracker == old(self).wrap_tracker,
    {
        self.emitter.trim_trailing_whitespace();
    }

    /// Removes the space before a token that sits tight against what precedes.
    pub fn strip_trailing_space(&mut self)
        ensures
            final(self).emitter.out() == trim_end_hspace(old(self).emitter.out()),
            final(self).emitter.same_state(&old(self).emitter),
            final(self).same_input(old(self)),
            final(self).previous_call_ident == old(self).previous_call_ident,
            final(self).inserted_blocks@ == old(self).inserted_blocks@,
            final(self).wrap_tracker == old(self).wrap_tracker,
    {
        self.trim_trailing_whitespace();
    }
}


/// The text of a synthetic block end: a line of its own.
pub open spec fn end_line() -> Seq<char> {
    seq!['e', 'n', 'd', '\n']
}

/// The text of a synthetic block start: a line of its own.
pub open spec fn begin_line() -> Seq<char> {
    seq!['b', 'e', 'g', 'i', 'n', '\n']
}

/// One level shallower, never below zero.
pub open spec fn dec_level(l: usize) -> usize {
    if l == 0 {
        0
    } else {
        (l - 1) as usize
    }
}

/// One level deeper, saturating.
pub open spec fn inc_level(l: usize) -> usize {
    if l == usize::MAX {
        usize::MAX
    } else {
        (l + 1) as usize
    }
}

/// Unicode whitespace, as `char::is_whitespace` defines it.
pub open spec fn is_white(c: char) -> bool {
    ('\u{9}' <= c && c <= '\u{d}') || c == ' ' || c == '\u{85}' || c == '\u{a0}' || c
        == '\u{1680}' || ('\u{2000}' <= c && c <= '\u{200a}') || c == '\u{2028}' || c == '\u{2029}'
        || c == '\u{202f}' || c == '\u{205f}' || c == '\u{3000}'
}

fn is_white_char(c: char) -> (r: bool)
    ensures
        r == is_white(c),
{
    ('\u{9}' <= c && c <= '\u{d}') || c == ' ' || c == '\u{85}' || c == '\u{a0}' || c
        == '\u{1680}' || ('\u{2000}' <= c && c <= '\u{200a}') || c == '\u{2028}' || c == '\u{2029}'
        || c == '\u{202f}' || c == '\u{205f}' || c == '\u{3000}'
}

/// `s` without its trailing line breaks.
pub open spec fn trim_end_newlines(s: Seq<char>) -> Seq<char>
    decreases s.len(),
{
    if s.len() > 0 && s.last() == '\n' {
        trim_end_newlines(s.drop_last())
    } else {
        s
    }
}

/// The index of the first character of `s` at or after `i` that is not whitespace.
pub open spec fn first_non_white(s: Seq<char>, i: int) -> int
    decreases s.len() - i,
{
    if i < 0 || i >= s.len() || !is_white(s[i]) {
        i
    } else {
        first_non_white(s, i + 1)
    }
}

/// After leading whitespace, `s` opens a block comment.
pub open spec fn opens_block_comment(s: Seq<char>) -> bool {
    let k = first_non_white(s, 0);
    0 <= k && k + 1 < s.len() && s[k] == '/' && s[k + 1] == '*'
}

/// Whether the comment text `s` opens a block comment after leading whitespace.
pub fn is_block_comment(s: &Vec<char>) -> (r: bool)
    ensures
        r == opens_block_comment(s@),
{
    let mut i: usize = 0;
    while i < s.len() && is_white_char(s[i])
        invariant
            i <= s@.len(),
            first_non_white(s@, 0) == first_non_white(s@, i as int),
        decreases s@.len() - i,
    {
        i = i + 1;
    }
    s.len() >= 2 && i < s.len() - 1 && s[i] == '/' && s[i + 1] == '*'
}

/// The comment's text without its trailing line breaks.
pub fn without_trailing_newlines(s: &Vec<char>) -> (r: Vec<char>)
    ensures
        r@ == trim_end_newlines(s@),
{
    let mut n = s.len();
    assert(s@.subrange(0, n as int) =~= s@);
    while n > 0 && s[n - 1] == '\n'
        invariant
            n <= s@.len(),
            trim_end_newlines(s@) == trim_end_newlines(s@.subrange(0, n as int)),
        decreases n,
    {
        assert(s@.subrange(0, n as int).drop_last() =~= s@.subrange(0, n - 1));
        n = n - 1;
    }
    let mut out: Vec<char> = Vec::new();
    let mut i: usize = 0;
    while i < n
        invariant
            i <= n <= s@.len(),
            out@ == s@.subrange(0, i as int),
        decreases n - i,
    {
        out.push(s[i]);
        i = i + 1;
        assert(out@ =~= s@.subrange(0, i as int));
    }
    proof {
        let t = s@.subrange(0, n as int);
        if n == 0 {
            assert(trim_end_newlines(t) == t);
        } else {
            assert(t.last() != '\n');
        }
    }
    out
}

pub fn has_newline(s: &Vec<char>) -> (r: bool)
    ensures
        r == s@.contains('\n'),
{
    let mut i: usize = 0;
    while i < s.len()
        invariant
            i <= s@.len(),
            forall|j: int| 0 <= j < i ==> s@[j] != '\n',
        decreases s@.len() - i,
    {
        if s[i] == '\n' {
            assert(s@[i as int] == '\n');
            return true;
        }
        i = i + 1;
    }
    false
}

impl Token {
    /// A copy of this token.
    pub fn duplicate(&self) -> (r: Token)
        ensures
            r@ == self@,
    {
        Token { text: self.text.clone(), kind: self.kind, offset: self.offset, len: self.len }
    }
}

impl Formatter {
    /// Closes the innermost synthetic block: the line ends, the level drops
    /// by one and `end` stands on a line of its own.
    pub fn insert_auto_end(&mut self)
        requires
            old(self).wf(),
        ensures
            final(self).state() == auto_end_state(old(self).state(), old(self).config),
            final(self).wf(),
            final(self).emitter.out() == close_line(old(self).emitter.out()) + indent_text(
                dec_level(old(self).emitter.indent_level) as nat,
                old(self).config,
            ) + end_line(),
            final(self).emitter.indent_level == dec_level(old(self).emitter.indent_level),
            final(self).emitter.at_line_start,
            !final(self).emitter.pending_space,
            !final(self).previous_call_ident,
            final(self).emitter.last_line_was_comment == old(self).emitter.last_line_was_comment,
            final(self).same_input(old(self)),
            final(self).inserted_blocks@ == old(self).inserted_blocks@,
            final(self).wrap_tracker == old(self).wrap_tracker,
    {
        self.emitter.newline();
        self.emitter.decrease_indent();
        self.emitter.write_indent();
        self.emitter.push_char('e');
        self.emitter.push_char('n');
        self.emitter.push_char('d');
        self.emitter.push_char('\n');
        self.emitter.at_line_start = true;
        self.emitter.pending_space = false;
        self.previous_call_ident = false;
        assert(self.emitter.out() =~= close_line(old(self).emitter.out()) + indent_text(
            dec_level(old(self).emitter.indent_level) as nat,
            old(self).config,
        ) + end_line());
    }

    /// Before `else` or a closing keyword, the innermost synthetic block
    /// (if any) is closed.
    pub fn flush_auto_ends_before(&mut self, next: &Token)
        requires
            old(self).wf(),
        ensures
            final(self).state() == flush_state(old(self).state(), old(self).config, next@),
            final(self).wf(),
            final(self).same_input(old(self)),
            final(self).wrap_tracker == old(self).wrap_tracker,
            final(self).emitter.last_line_was_comment == old(self).emitter.last_line_was_comment,
            ({
                let closes = old(self).config.wrap_multiline_blocks && old(self).inserted_blocks@.len() > 0 && (is_word(next@, "else"@) || is_dedent(next@));
                &&& closes ==> final(self).inserted_blocks@ == old(self).inserted_blocks@.drop_last()
                    && final(self).emitter.out() == close_line(old(self).emitter.out())
                    + indent_text(dec_level(old(self).emitter.indent_level) as nat, old(self).config)
                    + end_line()
                &&& !closes ==> final(self).inserted_blocks@ == old(self).inserted_blocks@
                    && final(self).emitter == old(self).emitter && final(self).previous_call_ident
                    == old(self).previous_call_ident
            }),
    {
        if !self.config.wrap_multiline_blocks {
            return ;
        }
        if self.inserted_blocks.len() == 0 {
            return ;
        }
        if next.is_keyword("else") || is_dedent_keyword(next) {
            self.insert_auto_end();
            self.inserted_blocks.pop();
        }
    }

    /// After a committed line break with an armed construct: opens a
    /// synthetic block when its body needs one, and disarms the tracker.
    pub fn maybe_insert_auto_begin(&mut self)
        requires
            old(self).wf(),
            old(self).idx < old(self).tokens@.len(),
            old(self).emitter.at_line_start,
        ensures
            final(self).state() == begin_state(
                old(self).state(),
                old(self).config,
                old(self).toks(),
                old(self).idx as int,
            ),
            final(self).wf(),
            final(self).same_input(old(self)),
            final(self).emitter.at_line_start,
            final(self).emitter.last_line_was_comment == old(self).emitter.last_line_was_comment,
            final(self).previous_call_ident == old(self).previous_call_ident,
            ({
                let armed = old(self).config.wrap_multiline_blocks && old(self).wrap_tracker.mode
                    == WrapMode::Ready;
                let opens = armed && needs_wrap(
                    old(self).wrap_tracker,
                    old(self).toks(),
                    old(self).idx + 1,
                );
                &&& armed ==> final(self).wrap_tracker == idle_tracker()
                &&& !armed ==> final(self).wrap_tracker == old(self).wrap_tracker
                &&& opens ==> final(self).emitter.out() == old(self).emitter.out() + indent_text(
                    old(self).emitter.indent_level as nat,
                    old(self).config,
                ) + begin_line() && final(self).emitter.indent_level == inc_level(
                    old(self).emitter.indent_level,
                ) && final(self).inserted_blocks@ == old(self).inserted_blocks@.push(
                    final(self).emitter.indent_level,
                ) && !final(self).emitter.pending_space
                &&& !opens ==> final(self).emitter == old(self).emitter
                    && final(self).inserted_blocks@ == old(self).inserted_blocks@
            }),
    {
        if !self.config.wrap_multiline_blocks {
            return ;
        }
        if self.wrap_tracker.ready_to_wrap() {
            let n = self.tokens.len();
            assert(self.idx < n);
            if self.wrap_tracker.body_needs_wrap(&self.tokens, self.idx + 1) {
                self.emitter.write_indent();
                self.emitter.push_char('b');
                self.emitter.push_char('e');
                self.emitter.push_char('g');
                self.emitter.push_char('i');
                self.emitter.push_char('n');
                self.emitter.push_char('\n');
                self.emitter.increase_indent();
                self.emitter.at_line_start = true;
                self.emitter.pending_space = false;
                let level = self.emitter.indent_level;
                self.inserted_blocks.push(level);
                assert(self.emitter.out() =~= old(self).emitter.out() + indent_text(
                    old(self).emitter.indent_level as nat,
                    old(self).config,
                ) + begin_line());
            }
            self.wrap_tracker.reset();
        }
    }

    /// A line break of the source. With inline end-else on, a break between
    /// `end` and `else` becomes a single space; otherwise the line is
    /// committed and a synthetic `begin` may follow.
    pub fn handle_newline(&mut self)
        requires
            old(self).wf(),
            old(self).idx < old(self).tokens@.len(),
        ensures
            final(self).state() == newline_state(old(self).state(), old(self).input(), old(self).idx as int),
            final(self).wf(),
            final(self).same_input(old(self)),
            ({
                let joins = old(self).config.inline_end_else && (prev_token(
                    old(self).toks(),
                    old(self).idx as int,
                ) matches Some(p) && is_word(p, "end"@)) && (next_token(
                    old(self).toks(),
                    old(self).idx as int,
                ) matches Some(n) && is_word(n, "else"@));
                &&& joins ==> final(self).emitter.out() == old(self).emitter.out()
                    && final(self).emitter.pending_space
                &&& !joins ==> final(self).emitter.at_line_start && !final(self).previous_call_ident
                    && (final(self).emitter.out() == close_line(old(self).emitter.out()) || (old(self).config.wrap_multiline_blocks && final(self).emitter.out() == close_line(
                    old(self).emitter.out(),
                ) + indent_text(old(self).emitter.indent_level as nat, old(self).config)
                    + begin_line()))
                &&& !joins && !old(self).config.wrap_multiline_blocks ==> final(self).emitter.out() == close_line(old(self).emitter.out())
            }),
    {
        if self.config.inline_end_else {
            let prev = self.prev_non_newline();
            proof {
                lemma_prev_in_range(self.toks(), self.idx as int);
            }
            let prev_is_end = match prev {
                Some(j) => self.tokens[j].is_keyword("end"),
                None => false,
            };
            if prev_is_end {
                let next = self.peek_non_newline();
                proof {
                    lemma_next_in_range(self.toks(), self.idx + 1);
                }
                let next_is_else = match next {
                    Some(j) => self.tokens[j].is_keyword("else"),
                    None => false,
                };
                if next_is_else {
                    self.emitter.pending_space = true;
                    return ;
                }
            }
        }
        self.emitter.newline();
        self.previous_call_ident = false;
        if self.config.wrap_multiline_blocks {
            self.maybe_insert_auto_begin();
        }
    }

    /// A line comment: at the start of a line after the indentation, or one
    /// space after the code before it.
    pub fn emit_line_comment(&mut self, text: &Vec<char>, had_newline: bool)
        requires
            old(self).wf(),
        ensures
            final(self).state() == line_comment_state(
                old(self).state(),
                old(self).config,
                text@,
                had_newline,
            ),
            final(self).wf(),
            final(self).same_input(old(self)),
            final(self).inserted_blocks@ == old(self).inserted_blocks@,
            final(self).wrap_tracker == old(self).wrap_tracker,
            final(self).emitter.indent_level == old(self).emitter.indent_level,
            final(self).emitter.last_line_was_comment,
            !final(self).emitter.pending_space,
            !final(self).previous_call_ident,
            final(self).emitter.at_line_start == had_newline,
            ({
                let old_out = old(self).emitter.out();
                let ind = indent_text(old(self).emitter.indent_level as nat, old(self).config);
                let tail = if had_newline {
                    text@.push('\n')
                } else {
                    text@
                };
                &&& old(self).emitter.at_line_start ==> final(self).emitter.out() == old_out + ind
                    + tail
                &&& !old(self).emitter.at_line_start && ends_with(trim_end_hspace(old_out), '\n')
                    ==> final(self).emitter.out() == trim_end_hspace(old_out) + ind + tail
                &&& !old(self).emitter.at_line_start && !ends_with(trim_end_hspace(old_out), '\n')
                    ==> final(self).emitter.out() == trim_end_hspace(old_out).push(' ') + tail
            }),
    {
        if self.emitter.at_line_start {
            self.emitter.write_indent();
        } else {
            self.emitter.trim_trailing_whitespace();
            if self.emitter.ends_with_char('\n') {
                self.emitter.write_indent();
            } else {
                self.emitter.push_char(' ');
            }
        }
        let ghost before = self.emitter.out();
        self.emitter.push_str(text);
        if had_newline {
            self.emitter.push_char('\n');
            self.emitter.at_line_start = true;
        } else {
            self.emitter.at_line_start = false;
        }
        assert(self.emitter.out() =~= before + if had_newline {
            text@.push('\n')
        } else {
            text@
        });
        self.emitter.pending_space = false;
        self.previous_call_ident = false;
        self.emitter.last_line_was_comment = true;
    }

    /// A block comment on its own line, at the current indentation, with
    /// exactly one blank line before and after it.
    pub fn emit_block_comment(&mut self, text: &Vec<char>)
        requires
            old(self).wf(),
        ensures
            final(self).state() == block_comment_state(old(self).state(), old(self).config, text@),
            final(self).wf(),
            final(self).same_input(old(self)),
            final(self).inserted_blocks@ == old(self).inserted_blocks@,
            final(self).wrap_tracker == old(self).wrap_tracker,
            final(self).emitter.indent_level == old(self).emitter.indent_level,
            final(self).emitter.out() == blank_after(
                blank_before(old(self).emitter.out()) + indent_text(
                    old(self).emitter.indent_level as nat,
                    old(self).config,
                ) + text@.push('\n'),
            ),
            final(self).emitter.at_line_start,
            final(self).emitter.last_line_was_comment,
            !final(self).emitter.pending_space,
            !final(self).previous_call_ident,
    {
        self.emitter.ensure_blank_line();
        self.emitter.write_indent();
        let ghost before = self.emitter.out();
        self.emitter.push_str(text);
        self.emitter.push_char('\n');
        assert(self.emitter.out() =~= before + text@.push('\n'));
        self.emitter.at_line_start = true;
        self.emitter.pending_space = false;
        self.previous_call_ident = false;
        self.emitter.ensure_blank_line_after_comment();
        self.emitter.last_line_was_comment = true;
    }

    /// A comment token: a block comment when its text opens one after
    /// leading whitespace, a line comment otherwise.
    pub fn handle_comment(&mut self, t: &Token)
        requires
            old(self).wf(),
        ensures
            final(self).state() == comment_state(old(self).state(), old(self).config, t@),
            final(self).wf(),
            final(self).same_input(old(self)),
            final(self).inserted_blocks@ == old(self).inserted_blocks@,
            final(self).wrap_tracker == old(self).wrap_tracker,
            final(self).emitter.last_line_was_comment,
    {
        let text = without_trailing_newlines(&t.text);
        if is_block_comment(&text) {
            self.emit_block_comment(&text);
            return ;
        }
        let had_newline = has_newline(&t.text);
        self.emit_line_comment(&text, had_newline);
    }

    /// Before `package`, `class` or `interface` at the start of a line: one
    /// blank line, unless nothing was written yet or a comment came just before.
    pub fn maybe_insert_section_spacing(&mut self, t: &Token)
        requires
            old(self).wf(),
        ensures
            final(self).state() == section_state(old(self).state(), t@),
            final(self).wf(),
            final(self).same_input(old(self)),
            final(self).inserted_blocks@ == old(self).inserted_blocks@,
            final(self).wrap_tracker == old(self).wrap_tracker,
            final(self).previous_call_ident == old(self).previous_call_ident,
            final(self).emitter.indent_level == old(self).emitter.indent_level,
            ({
                let spaced = is_section(t@) && old(self).emitter.out().len() > 0 && !old(self).emitter.last_line_was_comment;
                &&& spaced ==> final(self).emitter.out() == blank_after(
                    trim_end_hspace(old(self).emitter.out()),
                ) && final(self).emitter.at_line_start && !final(self).emitter.pending_space
                    && !final(self).emitter.last_line_was_comment
                &&& !spaced ==> final(self).emitter == old(self).emitter
            }),
    {
        if !is_section_decl_keyword(t) {
            return ;
        }
        if self.emitter.output.len() == 0 {
            return ;
        }
        if self.emitter.last_line_was_comment {
            return ;
        }
        self.emitter.trim_trailing_whitespace();
        self.emitter.ensure_blank_line_after_comment();
        self.emitter.last_line_was_comment = false;
    }

    /// A directive starts its own line, flush left.
    pub fn handle_directive(&mut self, t: &Token)
        requires
            old(self).wf(),
        ensures
            final(self).state() == directive_state(old(self).state(), t@),
            final(self).wf(),
            final(self).same_input(old(self)),
            final(self).inserted_blocks@ == old(self).inserted_blocks@,
            final(self).wrap_tracker == old(self).wrap_tracker,
            final(self).emitter.indent_level == old(self).emitter.indent_level,
            final(self).previous_call_ident == old(self).previous_call_ident,
            !final(self).emitter.at_line_start,
            !final(self).emitter.pending_space,
            !final(self).emitter.last_line_was_comment,
            old(self).emitter.at_line_start ==> final(self).emitter.out() == old(self).emitter.out() + t@.text,
            !old(self).emitter.at_line_start ==> final(self).emitter.out() == trim_end_hspace(
                old(self).emitter.out(),
            ).push('\n') + t@.text,
            exists|p: Seq<char>|
                (p.len() == 0 || ends_with(p, '\n')) && #[trigger] (p + t@.text) == final(self).emitter.out(),
    {
        let ghost old_out = self.emitter.out();
        if !self.emitter.at_line_start {
            self.emitter.trim_trailing_whitespace();
            self.emitter.push_char('\n');
            self.emitter.at_line_start = true;
        }
        let ghost p = self.emitter.out();
        assert(p.len() == 0 || ends_with(p, '\n'));
        self.emitter.push_str(&t.text);
        assert(p + t@.text == self.emitter.out());
        self.emitter.at_line_start = false;
        self.emitter.pending_space = false;
        self.emitter.last_line_was_comment = false;
    }

    /// A colon with a recorded padding is written right after the label,
    /// padded to the block's common column.
    pub fn apply_case_alignment(&mut self, t: &Token) -> (r: bool)
        requires
            old(self).wf(),
        ensures
            r ==> final(self).state() == (EngineState {
                out: trim_end_hspace(old(self).emitter.out()) + repeat_spaces(
                    old(self).case_alignment@[t.offset] as nat,
                ).push(':'),
                pending_space: true,
                at_line_start: false,
                prev_ident: false,
                ..old(self).state()
            }),
            !r ==> final(self).state() == old(self).state(),
            final(self).wf(),
            final(self).same_input(old(self)),
            final(self).inserted_blocks@ == old(self).inserted_blocks@,
            final(self).wrap_tracker == old(self).wrap_tracker,
            final(self).emitter.indent_level == old(self).emitter.indent_level,
            r == old(self).case_alignment@.contains_key(t.offset),
            r ==> final(self).emitter.out() == trim_end_hspace(old(self).emitter.out()) + repeat_spaces(
                old(self).case_alignment@[t.offset] as nat,
            ).push(':') && final(self).emitter.pending_space && !final(self).emitter.at_line_start
                && !final(self).previous_call_ident,
            !r ==> final(self).emitter == old(self).emitter && final(self).previous_call_ident
                == old(self).previous_call_ident,
    {
        match self.case_alignment.get(&t.offset) {
            Some(p) => {
                let padding = *p;
                self.trim_trailing_whitespace();
                let ghost start = self.emitter.out();
                let mut k: usize = 0;
                while k < padding
                    invariant
                        k <= padding,
                        self.emitter.out() == start + repeat_spaces(k as nat),
                        self.emitter.config == old(self).emitter.config,
                        self.emitter.indent_level == old(self).emitter.indent_level,
                        self.same_input(old(self)),
                        self.inserted_blocks@ == old(self).inserted_blocks@,
                        self.wrap_tracker == old(self).wrap_tracker,
                        self.emitter.last_line_was_comment == old(self).emitter.last_line_was_comment,
                    decreases padding - k,
                {
                    self.emitter.push_char(' ');
                    k = k + 1;
                    assert(self.emitter.out() =~= start + repeat_spaces(k as nat));
                }
                self.emitter.push_char(':');
                assert(self.emitter.out() =~= start + repeat_spaces(padding as nat).push(':'));
                self.emitter.pending_space = true;
                self.emitter.at_line_start = false;
                self.previous_call_ident = false;
                true
            },
            None => false,
        }
    }
}

impl Formatter {
    /// Emits one ordinary token: closes synthetic blocks it ends, dedents
    /// closing keywords, aligns case colons, places indentation or a single
    /// separating space, applies the punctuation rules, indents after opening
    /// keywords, and arms the wrap tracker.
    pub fn handle_token(&mut self, t: &Token)
        requires
            old(self).idx < old(self).tokens@.len(),
            t@ == old(self).toks()[old(self).idx as int],
            old(self).wf(),
        ensures
            final(self).state() == token_state(old(self).state(), old(self).input(), old(self).idx as int),
            final(self).wf(),
            final(self).same_input(old(self)),
            !final(self).emitter.at_line_start,
            ({
                let aligned = old(self).config.align_case_colon && t@.text == ":"@ && old(
                    self,
                ).case_alignment@.contains_key(t.offset);
                &&& !aligned ==> !final(self).emitter.last_line_was_comment
                    && final(self).previous_call_ident == (t.kind == TokenKind::Identifier)
                &&& !aligned && old(self).config.wrap_multiline_blocks ==> final(self).wrap_tracker
                    == started(
                    observed(old(self).wrap_tracker, t@),
                    t@,
                    if old(self).body_spans@.contains_key(t.offset) {
                        Some(old(self).body_spans@[t.offset])
                    } else {
                        None
                    },
                )
                &&& aligned ==> final(self).emitter.pending_space
            }),
    {
        self.prepare_token(t);
        if self.config.align_case_colon && eq_str(t.text.as_slice(), ":") {
            if self.apply_case_alignment(t) {
                return ;
            }
        }
        self.place_token(t);
        self.emit_token_text(t);
        self.finish_token(t);
    }

    /// After the text: opening keywords indent, the flags record the token,
    /// and a control keyword arms the tracker with its body span.
    fn finish_token(&mut self, t: &Token)
        requires
            old(self).wf(),
            !old(self).emitter.at_line_start,
        ensures
            final(self).wf(),
            final(self).same_input(old(self)),
            final(self).state() == ({
                let s4 = EngineState {
                    level: if is_indent(t@) {
                        inc_level(old(self).emitter.indent_level)
                    } else {
                        old(self).emitter.indent_level
                    },
                    at_line_start: false,
                    prev_ident: t.kind == TokenKind::Identifier,
                    last_comment: false,
                    ..old(self).state()
                };
                if old(self).config.wrap_multiline_blocks {
                    EngineState {
                        tracker: started(s4.tracker, t@, span_at(old(self).body_spans@, t.offset)),
                        ..s4
                    }
                } else {
                    s4
                }
            }),
    {
        if is_indent_keyword(t) {
            self.emitter.increase_indent();
        }
        self.emitter.at_line_start = false;
        self.previous_call_ident = t.is_identifier_like();
        self.emitter.last_line_was_comment = false;
        if self.config.wrap_multiline_blocks {
            let span = match self.body_spans.get(&t.offset) {
                Some(s) => Some(*s),
                None => None,
            };
            self.wrap_tracker.maybe_start(t, span);
        }
    }

    /// Before a token is placed: the synthetic block it ends is closed, the
    /// tracker sees it, and a closing keyword drops one level.
    fn prepare_token(&mut self, t: &Token)
        requires
            old(self).wf(),
        ensures
            final(self).state() == prepare_state(old(self).state(), old(self).config, t@),
            final(self).wf(),
            final(self).same_input(old(self)),
            old(self).config.wrap_multiline_blocks ==> final(self).wrap_tracker == observed(
                old(self).wrap_tracker,
                t@,
            ),
            !old(self).config.wrap_multiline_blocks ==> final(self).wrap_tracker == old(
                self,
            ).wrap_tracker,
    {
        if self.config.wrap_multiline_blocks {
            self.flush_auto_ends_before(t);
            self.wrap_tracker.observe_token(t);
        }
        if is_dedent_keyword(t) {
            self.emitter.decrease_indent();
        }
    }

    /// Indentation at the start of a line (after any section spacing), or a
    /// single space when one is pending and the token takes one.
    fn place_token(&mut self, t: &Token)
        requires
            old(self).wf(),
        ensures
            final(self).state() == place_state(old(self).state(), old(self).config, t@),
            final(self).wf(),
            final(self).same_input(old(self)),
            final(self).wrap_tracker == old(self).wrap_tracker,
            final(self).previous_call_ident == old(self).previous_call_ident,
            final(self).inserted_blocks@ == old(self).inserted_blocks@,
            final(self).emitter.indent_level == old(self).emitter.indent_level,
            !final(self).emitter.at_line_start,
    {
        if self.emitter.at_line_start {
            self.maybe_insert_section_spacing(t);
            self.write_indent();
        } else if self.emitter.pending_space && !needs_no_space_before(t.text.as_slice()) {
            self.emitter.push_char(' ');
        }
    }

    /// The token's text: a comma sits tight and is followed by a space, a
    /// call's `(` sits tight against its name, anything else is written as
    /// it is with the spacing that the table gives.
    fn emit_token_text(&mut self, t: &Token)
        requires
            old(self).wf(),
            !old(self).emitter.at_line_start,
        ensures
            final(self).state() == text_state(
                old(self).state(),
                old(self).config,
                t@,
                next_token(old(self).toks(), old(self).idx as int),
            ),
            final(self).wf(),
            final(self).same_input(old(self)),
            final(self).wrap_tracker == old(self).wrap_tracker,
            final(self).previous_call_ident == old(self).previous_call_ident,
            final(self).inserted_blocks@ == old(self).inserted_blocks@,
            final(self).emitter.indent_level == old(self).emitter.indent_level,
            !final(self).emitter.at_line_start,
            t@.text == ","@ && old(self).config.space_after_comma ==> final(self).emitter.out()
                == trim_end_hspace(old(self).emitter.out()).push(',')
                && final(self).emitter.pending_space,
            !(t@.text == ","@ && old(self).config.space_after_comma) && t@.text == "("@
                && old(self).config.remove_call_space && old(self).previous_call_ident
                ==> final(self).emitter.out() == trim_end_hspace(old(self).emitter.out()).push('(')
                && !final(self).emitter.pending_space,
            !(t@.text == ","@ && old(self).config.space_after_comma) && !(t@.text == "("@
                && old(self).config.remove_call_space && old(self).previous_call_ident)
                ==> final(self).emitter.out() == old(self).emitter.out() + t@.text
                && final(self).emitter.pending_space == space_after(
                t@.text,
                next_token(old(self).toks(), old(self).idx as int),
            ),
    {
        if eq_str(t.text.as_slice(), ",") && self.config.space_after_comma {
            self.strip_trailing_space();
            self.emitter.push_char(',');
            self.emitter.pending_space = true;
        } else if eq_str(t.text.as_slice(), "(") && self.config.remove_call_space
            && self.previous_call_ident {
            self.strip_trailing_space();
            self.emitter.push_char('(');
            self.emitter.pending_space = false;
        } else {
            self.emitter.push_str(&t.text);
            let next = self.peek_non_newline();
            proof {
                lemma_next_in_range(self.toks(), self.idx + 1);
            }
            let space = match next {
                Some(j) => {
                    assert(self.toks()[j as int] == self.tokens@[j as int]@);
                    needs_space_after(t.text.as_slice(), Some(&self.tokens[j]))
                },
                None => needs_space_after(t.text.as_slice(), None),
            };
            self.emitter.pending_space = space;
        }
    }

    /// Runs over every token, closes the synthetic blocks still open, and
    /// hands back the output, which ends with a line break.
    pub fn format(&mut self) -> (r: Vec<char>)
        requires
            old(self).wf(),
            old(self).idx == 0,
            old(self).state() == initial_state(),
        ensures
            ends_with(r@, '\n'),
            r@ == engine_output(old(self).input()),
    {
        let ghost inp = self.input();
        while self.idx < self.tokens.len()
            invariant
                self.wf(),
                self.config == old(self).config,
                self.input() == inp,
                self.state() == run_state(inp, self.idx as int),
            decreases self.tokens@.len() - self.idx,
        {
            let t = self.tokens[self.idx].duplicate();
            assert(t@ == self.toks()[self.idx as int]);
            match t.kind {
                TokenKind::Newline => self.handle_newline(),
                TokenKind::Comment => self.handle_comment(&t),
                TokenKind::Directive => self.handle_directive(&t),
                _ => self.handle_token(&t),
            }
            self.idx = self.idx + 1;
        }
        if self.config.wrap_multiline_blocks {
            while self.inserted_blocks.len() > 0
                invariant
                    self.wf(),
                    self.config == old(self).config,
                    inp.cfg == self.config,
                    close_all(self.state(), inp.cfg) == close_all(
                        run_state(inp, inp.toks.len() as int),
                        inp.cfg,
                    ),
                decreases self.inserted_blocks@.len(),
            {
                let ghost before = self.state();
                assert(inp.cfg == self.config);
                self.inserted_blocks.pop();
                let ghost popped = EngineState { blocks: before.blocks.drop_last(), ..before };
                assert(self.state() == popped);
                self.insert_auto_end();
                assert(self.state() == auto_end_state(popped, inp.cfg));
                assert(before.blocks.len() > 0);
                assert(close_all(before, inp.cfg) == close_all(auto_end_state(popped, inp.cfg), inp.cfg));
            }
        }
        self.emitter.ensure_trailing_newline();
        self.emitter.take_output()
    }
}

/// Formats a parsed text given as its tree walk: tokens and both side
/// tables come from the walk, the engine runs once over the tokens, and long
/// lines are wrapped when that is enabled. The result ends with a line break.
pub fn format_events(events: &Vec<TreeEvent>, config: &FormatConfig) -> (r: Vec<char>)
    ensures
        ends_with(r@, '\n'),
        r@ == formatted_output(event_views(events@), *config),
{
    let body_spans = collect_statement_spans(events);
    let case_alignment = collect_case_alignment(events);
    let tokens = tokenize(events);
    let mut formatter = Formatter::new(*config, tokens, body_spans, case_alignment);
    assert(formatter.state() == initial_state());
    assert(formatter.input() == walk_input(event_views(events@), *config));
    let out = formatter.format();
    if config.auto_wrap_long_lines && config.max_line_length > 0 {
        wrap_formatted_output(out, config)
    } else {
        out
    }
}

/// Formats SystemVerilog source text. The parser's rejection is the only
/// error; a formatted text always ends with a line break.
pub fn format_text(input: &str, config: &FormatConfig) -> (r: Result<String, FormatError>)
    ensures
        r matches Ok(s) ==> ends_with(s@, '\n'),
        r matches Ok(s) ==> exists|ev: Seq<EventView>| s@ == #[trigger] formatted_output(ev, *config),
{
    let cfg = SvParserCfg::default();
    let tree = match parse(input, &cfg) {
        Ok(t) => t,
        Err(e) => {
            return Err(FormatError::Parse(e));
        },
    };
    let raw = syntax_events(&tree);
    let events = tree_events(&raw);
    let out = format_events(&events, config);
    Ok(string_of(&out))
}

/// Everything the engine carries from one token to the next.
pub ghost struct EngineState {
    pub out: Seq<char>,
    pub level: usize,
    pub at_line_start: bool,
    pub pending_space: bool,
    pub last_comment: bool,
    pub prev_ident: bool,
    pub blocks: Seq<usize>,
    pub tracker: WrapTracker,
}

/// What one run reads: the configuration, the tokens and both side tables.
pub ghost struct EngineInput {
    pub cfg: FormatConfig,
    pub toks: Seq<TokenView>,
    pub spans: Map<usize, ByteSpan>,
    pub align: Map<usize, usize>,
}

/// What a run reads of a tree walk: its tokens and both side tables.
pub open spec fn walk_input(ev: Seq<EventView>, cfg: FormatConfig) -> EngineInput {
    EngineInput {
        cfg,
        toks: tokens_after(ev, ev.len() as int),
        spans: statement_spans(ev),
        align: case_alignment(ev),
    }
}

/// The engine's output for a tree walk, before any line wrapping.
pub open spec fn formatted_walk(ev: Seq<EventView>, cfg: FormatConfig) -> Seq<char> {
    engine_output(walk_input(ev, cfg))
}

/// The formatted text of a tree walk: the engine's output, with long lines
/// wrapped when that is enabled and a maximum is set.
pub open spec fn formatted_output(ev: Seq<EventView>, cfg: FormatConfig) -> Seq<char> {
    if cfg.auto_wrap_long_lines && cfg.max_line_length > 0 {
        wrapped_text(formatted_walk(ev, cfg), cfg)
    } else {
        formatted_walk(ev, cfg)
    }
}

/// The state before the first token.
pub open spec fn initial_state() -> EngineState {
    EngineState {
        out: Seq::empty(),
        level: 0,
        at_line_start: true,
        pending_space: false,
        last_comment: false,
        prev_ident: false,
        blocks: Seq::empty(),
        tracker: idle_tracker(),
    }
}

/// A synthetic `end` on its own line, one level shallower.
pub open spec fn auto_end_state(s: EngineState, cfg: FormatConfig) -> EngineState {
    EngineState {
        out: close_line(s.out) + indent_text(dec_level(s.level) as nat, cfg) + end_line(),
        level: dec_level(s.level),
        at_line_start: true,
        pending_space: false,
        prev_ident: false,
        ..s
    }
}

/// Before `else` or a closing keyword the innermost synthetic block closes.
pub open spec fn flush_state(s: EngineState, cfg: FormatConfig, t: TokenView) -> EngineState {
    if cfg.wrap_multiline_blocks && s.blocks.len() > 0 && (is_word(t, "else"@) || is_dedent(t)) {
        EngineState { blocks: s.blocks.drop_last(), ..auto_end_state(s, cfg) }
    } else {
        s
    }
}

pub open spec fn prepare_state(s: EngineState, cfg: FormatConfig, t: TokenView) -> EngineState {
    let s1 = if cfg.wrap_multiline_blocks {
        let f = flush_state(s, cfg, t);
        EngineState { tracker: observed(f.tracker, t), ..f }
    } else {
        s
    };
    if is_dedent(t) {
        EngineState { level: dec_level(s1.level), ..s1 }
    } else {
        s1
    }
}

pub open spec fn section_state(s: EngineState, t: TokenView) -> EngineState {
    if is_section(t) && s.out.len() > 0 && !s.last_comment {
        EngineState {
            out: blank_after(trim_end_hspace(s.out)),
            at_line_start: true,
            pending_space: false,
            last_comment: false,
            ..s
        }
    } else {
        s
    }
}

pub open spec fn place_state(s: EngineState, cfg: FormatConfig, t: TokenView) -> EngineState {
    if s.at_line_start {
        let s1 = section_state(s, t);
        EngineState {
            out: s1.out + indent_text(s1.level as nat, cfg),
            at_line_start: false,
            pending_space: false,
            ..s1
        }
    } else if s.pending_space && !no_space_before(t.text) {
        EngineState { out: s.out.push(' '), ..s }
    } else {
        s
    }
}

pub open spec fn text_state(
    s: EngineState,
    cfg: FormatConfig,
    t: TokenView,
    next: Option<TokenView>,
) -> EngineState {
    if t.text == ","@ && cfg.space_after_comma {
        EngineState { out: trim_end_hspace(s.out).push(','), pending_space: true, ..s }
    } else if t.text == "("@ && cfg.remove_call_space && s.prev_ident {
        EngineState { out: trim_end_hspace(s.out).push('('), pending_space: false, ..s }
    } else {
        EngineState { out: s.out + t.text, pending_space: space_after(t.text, next), ..s }
    }
}

/// The body span recorded for the keyword at `offset`, if any.
pub open spec fn span_at(spans: Map<usize, ByteSpan>, offset: usize) -> Option<ByteSpan> {
    if spans.contains_key(offset) {
        Some(spans[offset])
    } else {
        None
    }
}

/// An ordinary token at position `idx`.
pub open spec fn token_state(s: EngineState, inp: EngineInput, idx: int) -> EngineState {
    let t = inp.toks[idx];
    let cfg = inp.cfg;
    let s1 = prepare_state(s, cfg, t);
    if cfg.align_case_colon && t.text == ":"@ && inp.align.contains_key(t.offset) {
        EngineState {
            out: trim_end_hspace(s1.out) + repeat_spaces(inp.align[t.offset] as nat).push(':'),
            pending_space: true,
            at_line_start: false,
            prev_ident: false,
            ..s1
        }
    } else {
        let s3 = text_state(place_state(s1, cfg, t), cfg, t, next_token(inp.toks, idx));
        let s4 = EngineState {
            level: if is_indent(t) {
                inc_level(s3.level)
            } else {
                s3.level
            },
            at_line_start: false,
            prev_ident: t.kind == TokenKind::Identifier,
            last_comment: false,
            ..s3
        };
        if cfg.wrap_multiline_blocks {
            EngineState { tracker: started(s4.tracker, t, span_at(inp.spans, t.offset)), ..s4 }
        } else {
            s4
        }
    }
}

/// After a committed line break: a synthetic `begin` when the armed
/// construct's body needs one; the tracker is disarmed either way.
pub open spec fn begin_state(s: EngineState, cfg: FormatConfig, toks: Seq<TokenView>, idx: int) -> EngineState {
    if cfg.wrap_multiline_blocks && s.tracker.mode == WrapMode::Ready {
        let s2 = if needs_wrap(s.tracker, toks, idx + 1) {
            EngineState {
                out: s.out + indent_text(s.level as nat, cfg) + begin_line(),
                level: inc_level(s.level),
                blocks: s.blocks.push(inc_level(s.level)),
                at_line_start: true,
                pending_space: false,
                ..s
            }
        } else {
            s
        };
        EngineState { tracker: idle_tracker(), ..s2 }
    } else {
        s
    }
}

/// A line break of the source at position `idx`.
pub open spec fn newline_state(s: EngineState, inp: EngineInput, idx: int) -> EngineState {
    let cfg = inp.cfg;
    if cfg.inline_end_else && (prev_token(inp.toks, idx) matches Some(p) && is_word(p, "end"@))
        && (next_token(inp.toks, idx) matches Some(n) && is_word(n, "else"@)) {
        EngineState { pending_space: true, ..s }
    } else {
        let s1 = EngineState {
            out: close_line(s.out),
            at_line_start: true,
            pending_space: false,
            prev_ident: false,
            ..s
        };
        if cfg.wrap_multiline_blocks {
            begin_state(s1, cfg, inp.toks, idx)
        } else {
            s1
        }
    }
}

pub open spec fn line_comment_state(s: EngineState, cfg: FormatConfig, text: Seq<char>, nl: bool) -> EngineState {
    let ind = indent_text(s.level as nat, cfg);
    let tail = if nl {
        text.push('\n')
    } else {
        text
    };
    let out = if s.at_line_start {
        s.out + ind + tail
    } else if ends_with(trim_end_hspace(s.out), '\n') {
        trim_end_hspace(s.out) + ind + tail
    } else {
        trim_end_hspace(s.out).push(' ') + tail
    };
    EngineState {
        out,
        at_line_start: nl,
        pending_space: false,
        prev_ident: false,
        last_comment: true,
        ..s
    }
}

pub open spec fn block_comment_state(s: EngineState, cfg: FormatConfig, text: Seq<char>) -> EngineState {
    EngineState {
        out: blank_after(blank_before(s.out) + indent_text(s.level as nat, cfg) + text.push('\n')),
        at_line_start: true,
        pending_space: false,
        prev_ident: false,
        last_comment: true,
        ..s
    }
}

pub open spec fn comment_state(s: EngineState, cfg: FormatConfig, t: TokenView) -> EngineState {
    let text = trim_end_newlines(t.text);
    if opens_block_comment(text) {
        block_comment_state(s, cfg, text)
    } else {
        line_comment_state(s, cfg, text, t.text.contains('\n'))
    }
}

pub open spec fn directive_state(s: EngineState, t: TokenView) -> EngineState {
    EngineState {
        out: if s.at_line_start {
            s.out + t.text
        } else {
            trim_end_hspace(s.out).push('\n') + t.text
        },
        at_line_start: false,
        pending_space: false,
        last_comment: false,
        ..s
    }
}

/// The effect of the token at position `idx`.
pub open spec fn step_state(s: EngineState, inp: EngineInput, idx: int) -> EngineState {
    match inp.toks[idx].kind {
        TokenKind::Newline => newline_state(s, inp, idx),
        TokenKind::Comment => comment_state(s, inp.cfg, inp.toks[idx]),
        TokenKind::Directive => directive_state(s, inp.toks[idx]),
        _ => token_state(s, inp, idx),
    }
}

/// The state after the first `n` tokens.
pub open spec fn run_state(inp: EngineInput, n: int) -> EngineState
    decreases n,
{
    if n <= 0 {
        initial_state()
    } else {
        step_state(run_state(inp, n - 1), inp, n - 1)
    }
}

/// Closes every synthetic block still open, innermost first.
pub open spec fn close_all(s: EngineState, cfg: FormatConfig) -> EngineState
    decreases s.blocks.len(),
{
    if s.blocks.len() == 0 {
        s
    } else {
        close_all(auto_end_state(EngineState { blocks: s.blocks.drop_last(), ..s }, cfg), cfg)
    }
}

/// The engine's output for one run: every token, then the open synthetic
/// blocks closed, then a final line break if the text lacks one.
pub open spec fn engine_output(inp: EngineInput) -> Seq<char> {
    let s = run_state(inp, inp.toks.len() as int);
    let s2 = if inp.cfg.wrap_multiline_blocks {
        close_all(s, inp.cfg)
    } else {
        s
    };
    if ends_with(s2.out, '\n') {
        s2.out
    } else {
        s2.out.push('\n')
    }
}

/// Determinism: two walks with the same events, formatted with the same
/// configuration, give the same text; `format_events` returns exactly this
/// text, so its output depends on nothing else.
pub proof fn lemma_deterministic(a: Seq<TreeEvent>, b: Seq<TreeEvent>, cfg: FormatConfig)
    requires
        event_views(a) == event_views(b),
    ensures
        formatted_output(event_views(a), cfg) == formatted_output(event_views(b), cfg),
{
}

/// Comment placement: a comment at the start of a line is preceded only by
/// the indentation; a comment after code is separated from it by exactly one
/// space (no space or tab precedes that space); a block comment has exactly
/// one blank line before it (unless it opens the output) and one after it.
pub proof fn lemma_comment_spacing(s: EngineState, cfg: FormatConfig, text: Seq<char>, nl: bool)
    ensures
        s.at_line_start ==> line_comment_state(s, cfg, text, nl).out == s.out + indent_text(
            s.level as nat,
            cfg,
        ) + if nl {
            text.push('\n')
        } else {
            text
        },
        !s.at_line_start && !ends_with(trim_end_hspace(s.out), '\n') ==> ({
            let p = trim_end_hspace(s.out);
            &&& p.len() == 0 || !is_hspace(p.last())
            &&& line_comment_state(s, cfg, text, nl).out == p.push(' ') + if nl {
                text.push('\n')
            } else {
                text
            }
        }),
        ({
            let before = blank_before(s.out);
            let out = block_comment_state(s, cfg, text).out;
            let body = before + indent_text(s.level as nat, cfg) + text.push('\n');
            &&& before.len() == 0 || ends_with_blank(before)
            &&& ends_with_blank(out)
            &&& out.subrange(0, body.len() as int) == body
        }),
{
    lemma_trim_end_hspace(s.out);
    let before = blank_before(s.out);
    let body = before + indent_text(s.level as nat, cfg) + text.push('\n');
    let out = blank_after(body);
    assert(out.subrange(0, body.len() as int) =~= body);
}

/// Directives are flush left: when the state is consistent (at the start of
/// a line nothing is written on it, which every formatter step keeps), a
/// directive's text starts the output or follows a line break directly.
pub proof fn lemma_directive_flush_left(s: EngineState, t: TokenView)
    requires
        s.at_line_start ==> (s.out.len() == 0 || ends_with(s.out, '\n')),
    ensures
        exists|p: Seq<char>|
            (p.len() == 0 || ends_with(p, '\n')) && #[trigger] (p + t.text) == directive_state(
                s,
                t,
            ).out,
{
    let p = if s.at_line_start {
        s.out
    } else {
        trim_end_hspace(s.out).push('\n')
    };
    assert(p + t.text == directive_state(s, t).out);
}

/// Inline end-else: with the option on, a line break between `end` and
/// `else` writes nothing and leaves one pending space, so `end else` shares
/// a line; with it off, the line break is committed.
pub proof fn lemma_inline_end_else(s: EngineState, inp: EngineInput, idx: int)
    requires
        prev_token(inp.toks, idx) matches Some(p) && is_word(p, "end"@),
        next_token(inp.toks, idx) matches Some(n) && is_word(n, "else"@),
    ensures
        inp.cfg.inline_end_else ==> newline_state(s, inp, idx).out == s.out && newline_state(
            s,
            inp,
            idx,
        ).pending_space,
        !inp.cfg.inline_end_else ==> newline_state(s, inp, idx).out.subrange(
            0,
            close_line(s.out).len() as int,
        ) == close_line(s.out) && ends_with(close_line(s.out), '\n'),
{
    super::emitter::lemma_close_line(s.out);
    let c = close_line(s.out);
    let o = newline_state(s, inp, idx).out;
    if !inp.cfg.inline_end_else {
        assert(o.subrange(0, c.len() as int) =~= c);
    }
}

/// At the start of a line nothing has been written on it yet.
pub open spec fn line_start_clean(s: EngineState) -> bool {
    s.at_line_start ==> (s.out.len() == 0 || ends_with(s.out, '\n'))
}

/// Every step keeps the start of a line clean.
pub proof fn lemma_step_keeps_line_start(s: EngineState, inp: EngineInput, idx: int)
    requires
        line_start_clean(s),
        0 <= idx < inp.toks.len(),
    ensures
        line_start_clean(step_state(s, inp, idx)),
{
    let t = inp.toks[idx];
    match t.kind {
        TokenKind::Newline => {
            super::emitter::lemma_close_line(s.out);
        },
        TokenKind::Comment => {
            let text = trim_end_newlines(t.text);
            if !opens_block_comment(text) {
                let nl = t.text.contains('\n');
                if nl {
                    let o = line_comment_state(s, inp.cfg, text, nl).out;
                    assert(o.last() == '\n');
                }
            }
        },
        _ => {},
    }
}

/// Every state the engine reaches keeps the start of a line clean.
pub proof fn lemma_run_keeps_line_start(inp: EngineInput, n: int)
    requires
        0 <= n <= inp.toks.len(),
    ensures
        line_start_clean(run_state(inp, n)),
    decreases n,
{
    if n > 0 {
        lemma_run_keeps_line_start(inp, n - 1);
        lemma_step_keeps_line_start(run_state(inp, n - 1), inp, n - 1);
    }
}

/// Directives are flush left in every run: the text of the directive at
/// position `idx` starts the output or directly follows a line break.
pub proof fn lemma_run_directive_flush_left(inp: EngineInput, idx: int)
    requires
        0 <= idx < inp.toks.len(),
        inp.toks[idx].kind == TokenKind::Directive,
    ensures
        exists|p: Seq<char>|
            (p.len() == 0 || ends_with(p, '\n')) && #[trigger] (p + inp.toks[idx].text) == run_state(
                inp,
                idx + 1,
            ).out,
{
    lemma_run_keeps_line_start(inp, idx);
    lemma_directive_flush_left(run_state(inp, idx), inp.toks[idx]);
}

/// A comment that starts a line in any run is preceded on it only by the
/// indentation of the current level.
pub proof fn lemma_run_line_comment_indented(inp: EngineInput, idx: int)
    requires
        0 <= idx < inp.toks.len(),
        inp.toks[idx].kind == TokenKind::Comment,
        !opens_block_comment(trim_end_newlines(inp.toks[idx].text)),
        run_state(inp, idx).at_line_start,
    ensures
        ({
            let s = run_state(inp, idx);
            let p = s.out;
            &&& p.len() == 0 || ends_with(p, '\n')
            &&& run_state(inp, idx + 1).out.subrange(
                0,
                (p.len() + indent_text(s.level as nat, inp.cfg).len()) as int,
            ) == p + indent_text(s.level as nat, inp.cfg)
        }),
{
    lemma_run_keeps_line_start(inp, idx);
    let s = run_state(inp, idx);
    let t = inp.toks[idx];
    let text = trim_end_newlines(t.text);
    let ind = indent_text(s.level as nat, inp.cfg);
    let o = run_state(inp, idx + 1).out;
    lemma_comment_spacing(s, inp.cfg, text, t.text.contains('\n'));
    assert(o.subrange(0, (s.out.len() + ind.len()) as int) =~= s.out + ind);
}

/// Indentation in every run: an ordinary token that starts a line (other
/// than a padded case colon, a comma with comma spacing on, or a call's `(`,
/// which all sit tight against what precedes them) is preceded on its line by exactly the
/// indentation of its level, `level × width` spaces or `level` tabs, where
/// the level is the one after a closing keyword has dropped it.
pub proof fn lemma_run_token_indented(inp: EngineInput, idx: int)
    requires
        0 <= idx < inp.toks.len(),
        inp.toks[idx].kind != TokenKind::Newline,
        inp.toks[idx].kind != TokenKind::Comment,
        inp.toks[idx].kind != TokenKind::Directive,
        prepare_state(run_state(inp, idx), inp.cfg, inp.toks[idx]).at_line_start,
        !(inp.cfg.align_case_colon && inp.toks[idx].text == ":"@ && inp.align.contains_key(
            inp.toks[idx].offset,
        )),
        !(inp.toks[idx].text == ","@ && inp.cfg.space_after_comma),
        !(inp.toks[idx].text == "("@ && inp.cfg.remove_call_space && prepare_state(
            run_state(inp, idx),
            inp.cfg,
            inp.toks[idx],
        ).prev_ident),
    ensures
        ({
            let t = inp.toks[idx];
            let s1 = prepare_state(run_state(inp, idx), inp.cfg, t);
            let q = section_state(s1, t).out;
            let ind = indent_text(s1.level as nat, inp.cfg);
            &&& q.len() == 0 || ends_with(q, '\n')
            &&& run_state(inp, idx + 1).out.subrange(0, (q.len() + ind.len()) as int) == q + ind
        }),
{
    lemma_run_keeps_line_start(inp, idx);
    let s = run_state(inp, idx);
    let t = inp.toks[idx];
    let s1 = prepare_state(s, inp.cfg, t);
    super::emitter::lemma_close_line(s.out);
    assert(line_start_clean(s1));
    let q = section_state(s1, t).out;
    let ind = indent_text(s1.level as nat, inp.cfg);
    let s2 = place_state(s1, inp.cfg, t);
    assert(s2.out == q + ind);
    let s3 = text_state(s2, inp.cfg, t, next_token(inp.toks, idx));
    lemma_trim_end_hspace(s2.out);
    assert(s3.out.subrange(0, (q.len() + ind.len()) as int) =~= q + ind);
}

/// `n` spaces.
pub open spec fn repeat_spaces(n: nat) -> Seq<char> {
    Seq::new(n, |_i: int| ' ')
}

} // verus!
