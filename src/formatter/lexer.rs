//! The lexical projection: leaves of the tree become a flat, classified
//! token stream; whitespace survives only as line breaks.
use super::tree::{EventView, NodeKind, TreeEvent, event_views};
use crate::text::{ascii_lower, eq_str, eq_str_ignore_case, lower_char, lower_seq};
use vstd::prelude::*;

verus! {

#[derive(Clone, Copy, Debug, PartialEq, Eq, Structural)]
pub enum TokenKind {
    Keyword,
    Identifier,
    Symbol,
    Number,
    StringLiteral,
    Comment,
    Directive,
    Newline,
    Other,
}

#[derive(Clone, Debug)]
pub struct Token {
    pub text: Vec<char>,
    pub kind: TokenKind,
    /// Byte offset of the token in the parsed text.
    pub offset: usize,
    /// Length of the token in bytes.
    pub len: usize,
}

pub ghost struct TokenView {
    pub text: Seq<char>,
    pub kind: TokenKind,
    pub offset: usize,
    pub len: usize,
}

impl View for Token {
    type V = TokenView;

    open spec fn view(&self) -> TokenView {
        TokenView { text: self.text@, kind: self.kind, offset: self.offset, len: self.len }
    }
}

pub open spec fn token_views(s: Seq<Token>) -> Seq<TokenView> {
    s.map_values(|t: Token| t@)
}

/// The reserved words that classify as `Keyword` (compared in lowercase).
pub open spec fn is_keyword_word(w: Seq<char>) -> bool {
    ||| w == "module"@
    ||| w == "endmodule"@
    ||| w == "class"@
    ||| w == "endclass"@
    ||| w == "function"@
    ||| w == "endfunction"@
    ||| w == "task"@
    ||| w == "endtask"@
    ||| w == "package"@
    ||| w == "endpackage"@
    ||| w == "begin"@
    ||| w == "end"@
    ||| w == "case"@
    ||| w == "endcase"@
    ||| w == "casex"@
    ||| w == "casez"@
    ||| w == "randcase"@
    ||| w == "randsequence"@
    ||| w == "endsequence"@
    ||| w == "fork"@
    ||| w == "join"@
    ||| w == "join_any"@
    ||| w == "join_none"@
    ||| w == "generate"@
    ||| w == "endgenerate"@
    ||| w == "interface"@
    ||| w == "endinterface"@
    ||| w == "covergroup"@
    ||| w == "endgroup"@
    ||| w == "if"@
    ||| w == "else"@
    ||| w == "for"@
    ||| w == "foreach"@
    ||| w == "while"@
    ||| w == "do"@
    ||| w == "forever"@
}

pub open spec fn is_ascii_alpha(c: char) -> bool {
    ('a' <= c && c <= 'z') || ('A' <= c && c <= 'Z')
}

pub open spec fn is_ascii_digit(c: char) -> bool {
    '0' <= c && c <= '9'
}

pub open spec fn ident_start(c: char) -> bool {
    c == '_' || c == '$' || is_ascii_alpha(c)
}

pub open spec fn ident_rest(c: char) -> bool {
    ident_start(c) || is_ascii_digit(c)
}

/// A leading letter, `_` or `$`, then letters, digits, `_` or `$`.
pub open spec fn is_identifier_shape(t: Seq<char>) -> bool {
    t.len() > 0 && ident_start(t[0]) && forall|i: int| 1 <= i < t.len() ==> ident_rest(#[trigger] t[i])
}

pub open spec fn number_rest(c: char) -> bool {
    is_ascii_digit(c) || c == '\'' || c == '_' || c == 'h' || c == 'H' || c == 'b' || c == 'B'
        || c == 'o' || c == 'O' || c == 'd' || c == 'D' || c == 'x' || c == 'X' || c == 'z'
        || c == 'Z'
}

/// A leading digit, then digits, radix letters, `'` or `_`.
pub open spec fn is_numeric_shape(t: Seq<char>) -> bool {
    t.len() > 0 && is_ascii_digit(t[0]) && forall|i: int|
        1 <= i < t.len() ==> number_rest(#[trigger] t[i])
}

/// Quoted: at least two characters, the first and the last `"`.
pub open spec fn is_string_shape(t: Seq<char>) -> bool {
    t.len() >= 2 && t[0] == '"' && t.last() == '"'
}

/// The punctuation characters that classify as `Symbol`.
pub open spec fn is_symbol_spec(c: char) -> bool {
    c == '(' || c == ')' || c == '[' || c == ']' || c == '{' || c == '}' || c == ',' || c == ';'
        || c == ':' || c == '.' || c == '+' || c == '-' || c == '*' || c == '/' || c == '%' || c
        == '!' || c == '~' || c == '&' || c == '|' || c == '^' || c == '=' || c == '<' || c == '>'
        || c == '?' || c == '@'
}

/// The kind of a plain leaf, tried in this order.
pub open spec fn classify(t: Seq<char>) -> TokenKind {
    if is_keyword_word(lower_seq(t)) {
        TokenKind::Keyword
    } else if is_identifier_shape(t) {
        TokenKind::Identifier
    } else if is_numeric_shape(t) {
        TokenKind::Number
    } else if is_string_shape(t) {
        TokenKind::StringLiteral
    } else if t.len() == 1 && is_symbol_spec(t[0]) {
        TokenKind::Symbol
    } else {
        TokenKind::Other
    }
}

impl Token {
    pub fn new_spanned(text: Vec<char>, kind: TokenKind, offset: usize, len: usize) -> (r: Token)
        ensures
            r@ == (TokenView { text: text@, kind, offset, len }),
    {
        Token { text, kind, offset, len }
    }

    /// A keyword spelled `needle`, in any case.
    pub fn is_keyword(&self, needle: &str) -> (r: bool)
        ensures
            r == (self.kind == TokenKind::Keyword && lower_seq(self.text@) == needle@),
    {
        self.kind == TokenKind::Keyword && eq_str_ignore_case(self.text.as_slice(), needle)
    }

    pub fn is_identifier_like(&self) -> (r: bool)
        ensures
            r == (self.kind == TokenKind::Identifier),
    {
        self.kind == TokenKind::Identifier
    }

    /// The symbol `needle` exactly.
    pub fn is_symbol(&self, needle: &str) -> (r: bool)
        ensures
            r == (self.kind == TokenKind::Symbol && self.text@ == needle@),
    {
        self.kind == TokenKind::Symbol && eq_str(self.text.as_slice(), needle)
    }

    /// The token's text in ASCII lowercase.
    pub fn lowered(&self) -> (r: Vec<char>)
        ensures
            r@ == lower_seq(self.text@),
    {
        let mut out: Vec<char> = Vec::new();
        let mut i: usize = 0;
        while i < self.text.len()
            invariant
                i <= self.text@.len(),
                out@ == lower_seq(self.text@.subrange(0, i as int)),
            decreases self.text@.len() - i,
        {
            out.push(lower_char(self.text[i]));
            i = i + 1;
            assert(lower_seq(self.text@.subrange(0, i as int)) =~= lower_seq(
                self.text@.subrange(0, i - 1),
            ).push(ascii_lower(self.text@[i - 1])));
        }
        assert(self.text@.subrange(0, i as int) =~= self.text@);
        out
    }
}

pub fn is_keyword_text(w: &[char]) -> (r: bool)
    ensures
        r == is_keyword_word(w@),
{
    eq_str(w, "module") || eq_str(w, "endmodule") || eq_str(w, "class") || eq_str(w, "endclass")
        || eq_str(w, "function") || eq_str(w, "endfunction") || eq_str(w, "task") || eq_str(
        w,
        "endtask",
    ) || eq_str(w, "package") || eq_str(w, "endpackage") || eq_str(w, "begin") || eq_str(w, "end")
        || eq_str(w, "case") || eq_str(w, "endcase") || eq_str(w, "casex") || eq_str(w, "casez")
        || eq_str(w, "randcase") || eq_str(w, "randsequence") || eq_str(w, "endsequence")
        || eq_str(w, "fork") || eq_str(w, "join") || eq_str(w, "join_any") || eq_str(
        w,
        "join_none",
    ) || eq_str(w, "generate") || eq_str(w, "endgenerate") || eq_str(w, "interface") || eq_str(
        w,
        "endinterface",
    ) || eq_str(w, "covergroup") || eq_str(w, "endgroup") || eq_str(w, "if") || eq_str(w, "else")
        || eq_str(w, "for") || eq_str(w, "foreach") || eq_str(w, "while") || eq_str(w, "do")
        || eq_str(w, "forever")
}

pub fn is_identifier(t: &[char]) -> (r: bool)
    ensures
        r == is_identifier_shape(t@),
{
    if t.len() == 0 {
        return false;
    }
    let c = t[0];
    if !(c == '_' || c == '$' || ('a' <= c && c <= 'z') || ('A' <= c && c <= 'Z')) {
        return false;
    }
    let mut i: usize = 1;
    while i < t.len()
        invariant
            1 <= i <= t@.len(),
            forall|j: int| 1 <= j < i ==> ident_rest(#[trigger] t@[j]),
        decreases t@.len() - i,
    {
        let c = t[i];
        if !(c == '_' || c == '$' || ('a' <= c && c <= 'z') || ('A' <= c && c <= 'Z') || ('0' <= c
            && c <= '9')) {
            return false;
        }
        i = i + 1;
    }
    true
}

pub fn is_numeric_literal(t: &[char]) -> (r: bool)
    ensures
        r == is_numeric_shape(t@),
{
    if t.len() == 0 {
        return false;
    }
    if !('0' <= t[0] && t[0] <= '9') {
        return false;
    }
    let mut i: usize = 1;
    while i < t.len()
        invariant
            1 <= i <= t@.len(),
            forall|j: int| 1 <= j < i ==> number_rest(#[trigger] t@[j]),
        decreases t@.len() - i,
    {
        let c = t[i];
        if !(('0' <= c && c <= '9') || c == '\'' || c == '_' || c == 'h' || c == 'H' || c == 'b'
            || c == 'B' || c == 'o' || c == 'O' || c == 'd' || c == 'D' || c == 'x' || c == 'X'
            || c == 'z' || c == 'Z') {
            return false;
        }
        i = i + 1;
    }
    true
}

pub fn is_string_literal(t: &[char]) -> (r: bool)
    ensures
        r == is_string_shape(t@),
{
    t.len() >= 2 && t[0] == '"' && t[t.len() - 1] == '"'
}

pub fn is_symbol_char(c: char) -> (r: bool)
    ensures
        r == is_symbol_spec(c),
{
    c == '(' || c == ')' || c == '[' || c == ']' || c == '{' || c == '}' || c == ',' || c == ';'
        || c == ':' || c == '.' || c == '+' || c == '-' || c == '*' || c == '/' || c == '%' || c
        == '!' || c == '~' || c == '&' || c == '|' || c == '^' || c == '=' || c == '<' || c == '>'
        || c == '?' || c == '@'
}

pub fn classify_token(t: &[char]) -> (r: TokenKind)
    ensures
        r == classify(t@),
{
    let mut lowered: Vec<char> = Vec::new();
    let mut i: usize = 0;
    while i < t.len()
        invariant
            i <= t@.len(),
            lowered@ == lower_seq(t@.subrange(0, i as int)),
        decreases t@.len() - i,
    {
        lowered.push(lower_char(t[i]));
        i = i + 1;
        assert(lower_seq(t@.subrange(0, i as int)) =~= lower_seq(t@.subrange(0, i - 1)).push(
            ascii_lower(t@[i - 1]),
        ));
    }
    assert(t@.subrange(0, i as int) =~= t@);
    if is_keyword_text(lowered.as_slice()) {
        TokenKind::Keyword
    } else if is_identifier(t) {
        TokenKind::Identifier
    } else if is_numeric_literal(t) {
        TokenKind::Number
    } else if is_string_literal(t) {
        TokenKind::StringLiteral
    } else if t.len() == 1 && is_symbol_char(t[0]) {
        TokenKind::Symbol
    } else {
        TokenKind::Other
    }
}

/// Bytes that `c` takes in UTF-8.
pub open spec fn utf8_len(c: char) -> usize {
    if (c as u32) < 0x80 {
        1
    } else if (c as u32) < 0x800 {
        2
    } else if (c as u32) < 0x10000 {
        3
    } else {
        4
    }
}

fn char_utf8_len(c: char) -> (r: usize)
    ensures
        r == utf8_len(c),
{
    let v = c as u32;
    if v < 0x80 {
        1
    } else if v < 0x800 {
        2
    } else if v < 0x10000 {
        3
    } else {
        4
    }
}

pub open spec fn sat_add(a: usize, b: usize) -> usize {
    if a + b > usize::MAX {
        usize::MAX
    } else {
        (a + b) as usize
    }
}

pub open spec fn newline_view(offset: usize) -> TokenView {
    TokenView { text: seq!['\n'], kind: TokenKind::Newline, offset, len: 1 }
}

/// One `Newline` token per line break in `s`, at its byte offset from `offset`.
pub open spec fn newline_tokens(s: Seq<char>, offset: usize) -> Seq<TokenView>
    decreases s.len(),
{
    if s.len() == 0 {
        seq![]
    } else {
        let rest = newline_tokens(s.drop_first(), sat_add(offset, utf8_len(s[0])));
        if s[0] == '\n' {
            seq![newline_view(offset)] + rest
        } else {
            rest
        }
    }
}

/// The tokens that one leaf yields, given how deep the walk is inside
/// whitespace, comments and directives.
pub open spec fn leaf_tokens(
    text: Seq<char>,
    offset: usize,
    len: usize,
    whitespace_depth: usize,
    comment_depth: usize,
    directive_depth: usize,
) -> Seq<TokenView> {
    if text.len() == 0 {
        seq![]
    } else if comment_depth > 0 {
        seq![TokenView { text, kind: TokenKind::Comment, offset, len }]
    } else if whitespace_depth > 0 {
        newline_tokens(text, offset)
    } else if directive_depth > 0 {
        seq![TokenView { text, kind: TokenKind::Directive, offset, len }]
    } else {
        seq![TokenView { text, kind: classify(text), offset, len }]
    }
}

pub fn handle_locate(
    text: &Vec<char>,
    offset: usize,
    len: usize,
    whitespace_depth: usize,
    comment_depth: usize,
    directive_depth: usize,
    tokens: &mut Vec<Token>,
)
    ensures
        token_views(final(tokens)@) == token_views(old(tokens)@) + leaf_tokens(
            text@,
            offset,
            len,
            whitespace_depth,
            comment_depth,
            directive_depth,
        ),
{
    let ghost before = token_views(tokens@);
    if text.len() == 0 {
        assert(token_views(tokens@) =~= before + seq![]);
        return ;
    }
    if comment_depth > 0 {
        tokens.push(Token::new_spanned(text.clone(), TokenKind::Comment, offset, len));
        assert(token_views(tokens@) =~= before + leaf_tokens(
            text@,
            offset,
            len,
            whitespace_depth,
            comment_depth,
            directive_depth,
        ));
        return ;
    }
    if whitespace_depth > 0 {
        let mut current = offset;
        let mut i: usize = 0;
        assert(text@.subrange(0, text@.len() as int) =~= text@);
        assert(token_views(tokens@) == before);
        while i < text.len()
            invariant
                i <= text@.len(),
                before + newline_tokens(text@, offset) == token_views(tokens@) + newline_tokens(
                    text@.subrange(i as int, text@.len() as int),
                    current,
                ),
            decreases text@.len() - i,
        {
            let ghost prev = token_views(tokens@);
            let ghost rest = text@.subrange(i as int, text@.len() as int);
            assert(rest.drop_first() =~= text@.subrange(i + 1, text@.len() as int));
            assert(rest[0] == text@[i as int]);
            let c = text[i];
            let ghost next = sat_add(current, utf8_len(c));
            let ghost tail = newline_tokens(rest.drop_first(), next);
            if c == '\n' {
                let nl = vec!['\n'];
                tokens.push(Token::new_spanned(nl, TokenKind::Newline, current, 1));
                assert(token_views(tokens@) =~= prev.push(newline_view(current))) by {
                    assert(nl@ =~= seq!['\n']);
                }
                assert(prev + newline_tokens(rest, current) =~= token_views(tokens@) + tail);
            } else {
                assert(prev + newline_tokens(rest, current) =~= token_views(tokens@) + tail);
            }
            current = current.saturating_add(char_utf8_len(c));
            i = i + 1;
        }
        assert(text@.subrange(text@.len() as int, text@.len() as int) =~= Seq::<char>::empty());
        assert(token_views(tokens@) =~= before + newline_tokens(text@, offset));
        return ;
    }
    if directive_depth > 0 {
        tokens.push(Token::new_spanned(text.clone(), TokenKind::Directive, offset, len));
        assert(token_views(tokens@) =~= before + leaf_tokens(
            text@,
            offset,
            len,
            whitespace_depth,
            comment_depth,
            directive_depth,
        ));
        return ;
    }
    let kind = classify_token(text.as_slice());
    tokens.push(Token::new_spanned(text.clone(), kind, offset, len));
    assert(token_views(tokens@) =~= before + leaf_tokens(
        text@,
        offset,
        len,
        whitespace_depth,
        comment_depth,
        directive_depth,
    ));
}

/// Nesting depths of whitespace, comment and directive regions after the
/// first `n` events (leaving never goes below zero).
pub open spec fn depths_after(ev: Seq<EventView>, n: int) -> (nat, nat, nat)
    decreases n,
{
    if n <= 0 {
        (0, 0, 0)
    } else {
        let (w, c, d) = depths_after(ev, n - 1);
        let e = ev[n - 1];
        let step = |x: nat|
            if e.enter {
                x + 1
            } else if x > 0 {
                (x - 1) as nat
            } else {
                0
            };
        match e.kind {
            NodeKind::WhiteSpace => (step(w), c, d),
            NodeKind::Comment => (w, step(c), d),
            NodeKind::Directive => (w, c, step(d)),
            _ => (w, c, d),
        }
    }
}

/// The tokens of the first `n` events of a walk.
pub open spec fn tokens_after(ev: Seq<EventView>, n: int) -> Seq<TokenView>
    decreases n,
{
    if n <= 0 {
        seq![]
    } else {
        let e = ev[n - 1];
        let (w, c, d) = depths_after(ev, n - 1);
        tokens_after(ev, n - 1) + if e.enter && e.kind == NodeKind::Locate && e.text is Some
            && w <= usize::MAX && c <= usize::MAX && d <= usize::MAX {
            leaf_tokens(e.text.unwrap(), e.offset, e.len, w as usize, c as usize, d as usize)
        } else {
            seq![]
        }
    }
}

pub proof fn lemma_depths_bounded(ev: Seq<EventView>, n: int)
    requires
        0 <= n <= ev.len(),
    ensures
        depths_after(ev, n).0 <= n,
        depths_after(ev, n).1 <= n,
        depths_after(ev, n).2 <= n,
    decreases n,
{
    if n > 0 {
        lemma_depths_bounded(ev, n - 1);
    }
}

/// The token stream of a tree walk.
pub fn tokenize(events: &Vec<TreeEvent>) -> (r: Vec<Token>)
    ensures
        token_views(r@) == tokens_after(event_views(events@), events@.len() as int),
{
    let ghost ev = event_views(events@);
    let mut tokens: Vec<Token> = Vec::new();
    let mut whitespace_depth: usize = 0;
    let mut comment_depth: usize = 0;
    let mut directive_depth: usize = 0;
    let mut i: usize = 0;
    assert(token_views(tokens@) =~= seq![]);
    while i < events.len()
        invariant
            ev == event_views(events@),
            i <= events@.len(),
            depths_after(ev, i as int) == (
                whitespace_depth as nat,
                comment_depth as nat,
                directive_depth as nat,
            ),
            token_views(tokens@) == tokens_after(ev, i as int),
        decreases events@.len() - i,
    {
        proof {
            lemma_depths_bounded(ev, i as int);
        }
        let e = &events[i];
        assert(ev[i as int] == e@);
        if e.enter {
            match e.kind {
                NodeKind::WhiteSpace => whitespace_depth = whitespace_depth + 1,
                NodeKind::Comment => comment_depth = comment_depth + 1,
                NodeKind::Directive => directive_depth = directive_depth + 1,
                NodeKind::Locate => {
                    match &e.text {
                        Some(text) => {
                            handle_locate(
                                text,
                                e.offset,
                                e.len,
                                whitespace_depth,
                                comment_depth,
                                directive_depth,
                                &mut tokens,
                            );
                        },
                        None => {
                            assert(token_views(tokens@) =~= tokens_after(ev, i + 1));
                        },
                    }
                },
                _ => {
                    assert(token_views(tokens@) =~= tokens_after(ev, i + 1));
                },
            }
        } else {
            match e.kind {
                NodeKind::WhiteSpace => whitespace_depth = whitespace_depth.saturating_sub(1),
                NodeKind::Comment => comment_depth = comment_depth.saturating_sub(1),
                NodeKind::Directive => directive_depth = directive_depth.saturating_sub(1),
                _ => {},
            }
        }
        assert(token_views(tokens@) =~= tokens_after(ev, i + 1));
        i = i + 1;
    }
    tokens
}

} // verus!
