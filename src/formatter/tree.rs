//! The tree walk as plain values: which kinds of node the formatter cares
//! about, and the events of a walk with those kinds recognised.
use crate::parser::SyntaxEvent;
use crate::text::{chars_of, eq_str};
use vstd::prelude::*;

verus! {

/// The kinds of node that the lexer and the structural analysis tell apart.
#[derive(Clone, Copy, Debug, PartialEq, Eq, Structural)]
pub enum NodeKind {
    WhiteSpace,
    Comment,
    Directive,
    Locate,
    Keyword,
    Symbol,
    /// An `if` statement with its `else if` and `else` parts.
    Conditional,
    /// One of the loop statements (`forever`, `repeat`, `while`, `for`, `do`, `foreach`).
    Loop,
    /// A statement governed by a conditional or a loop.
    Body,
    /// A plain `case` statement.
    CaseBlock,
    Randcase,
    /// The wrapper around one branch of a `case` statement.
    CaseItem,
    /// One labelled branch: `label: statement`.
    Branch,
    Other,
}

/// The kind that the parser's node name stands for.
pub open spec fn kind_of_name(n: Seq<char>) -> NodeKind {
    if n == "WhiteSpace"@ {
        NodeKind::WhiteSpace
    } else if n == "Comment"@ {
        NodeKind::Comment
    } else if n == "CompilerDirective"@ {
        NodeKind::Directive
    } else if n == "Locate"@ {
        NodeKind::Locate
    } else if n == "Keyword"@ {
        NodeKind::Keyword
    } else if n == "Symbol"@ {
        NodeKind::Symbol
    } else if n == "ConditionalStatement"@ {
        NodeKind::Conditional
    } else if n == "LoopStatementForever"@ || n == "LoopStatementRepeat"@ || n
        == "LoopStatementWhile"@ || n == "LoopStatementFor"@ || n == "LoopStatementDoWhile"@
        || n == "LoopStatementForeach"@ {
        NodeKind::Loop
    } else if n == "StatementOrNull"@ || n == "Statement"@ {
        NodeKind::Body
    } else if n == "CaseStatementNormal"@ {
        NodeKind::CaseBlock
    } else if n == "RandcaseStatement"@ {
        NodeKind::Randcase
    } else if n == "CaseItem"@ {
        NodeKind::CaseItem
    } else if n == "CaseItemNondefault"@ || n == "CaseItemDefault"@ || n == "RandcaseItem"@ {
        NodeKind::Branch
    } else {
        NodeKind::Other
    }
}

pub fn node_kind(n: &[char]) -> (r: NodeKind)
    ensures
        r == kind_of_name(n@),
{
    if eq_str(n, "WhiteSpace") {
        NodeKind::WhiteSpace
    } else if eq_str(n, "Comment") {
        NodeKind::Comment
    } else if eq_str(n, "CompilerDirective") {
        NodeKind::Directive
    } else if eq_str(n, "Locate") {
        NodeKind::Locate
    } else if eq_str(n, "Keyword") {
        NodeKind::Keyword
    } else if eq_str(n, "Symbol") {
        NodeKind::Symbol
    } else if eq_str(n, "ConditionalStatement") {
        NodeKind::Conditional
    } else if eq_str(n, "LoopStatementForever") || eq_str(n, "LoopStatementRepeat") || eq_str(
        n,
        "LoopStatementWhile",
    ) || eq_str(n, "LoopStatementFor") || eq_str(n, "LoopStatementDoWhile") || eq_str(
        n,
        "LoopStatementForeach",
    ) {
        NodeKind::Loop
    } else if eq_str(n, "StatementOrNull") || eq_str(n, "Statement") {
        NodeKind::Body
    } else if eq_str(n, "CaseStatementNormal") {
        NodeKind::CaseBlock
    } else if eq_str(n, "RandcaseStatement") {
        NodeKind::Randcase
    } else if eq_str(n, "CaseItem") {
        NodeKind::CaseItem
    } else if eq_str(n, "CaseItemNondefault") || eq_str(n, "CaseItemDefault") || eq_str(
        n,
        "RandcaseItem",
    ) {
        NodeKind::Branch
    } else {
        NodeKind::Other
    }
}

/// One step of the walk, with the node's kind recognised. `offset`, `len`
/// and `text` describe a leaf (`Locate`) and are zero and `None` otherwise.
#[derive(Clone, Debug)]
pub struct TreeEvent {
    pub enter: bool,
    pub kind: NodeKind,
    pub offset: usize,
    pub len: usize,
    pub text: Option<Vec<char>>,
}

/// What the lexer and the analysis read of one event.
pub ghost struct EventView {
    pub enter: bool,
    pub kind: NodeKind,
    pub offset: usize,
    pub len: usize,
    pub text: Option<Seq<char>>,
}

impl View for TreeEvent {
    type V = EventView;

    open spec fn view(&self) -> EventView {
        EventView {
            enter: self.enter,
            kind: self.kind,
            offset: self.offset,
            len: self.len,
            text: match self.text {
                Some(t) => Some(t@),
                None => None,
            },
        }
    }
}

/// The view of every event of a walk.
pub open spec fn event_views(s: Seq<TreeEvent>) -> Seq<EventView> {
    s.map_values(|e: TreeEvent| e@)
}

/// The plain event that the parser's event `e` stands for.
pub open spec fn event_of(e: SyntaxEvent) -> EventView {
    EventView {
        enter: e.enter,
        kind: kind_of_name(e.node@),
        offset: match e.locate {
            Some(l) => l.offset,
            None => 0,
        },
        len: match e.locate {
            Some(l) => l.len,
            None => 0,
        },
        text: match e.locate {
            Some(l) => match l.text {
                Some(t) => Some(t@),
                None => None,
            },
            None => None,
        },
    }
}

/// Recognises the node kind of every event of a walk.
pub fn tree_events(events: &Vec<SyntaxEvent>) -> (r: Vec<TreeEvent>)
    ensures
        r@.len() == events@.len(),
        forall|i: int| 0 <= i < r@.len() ==> r@[i]@ == event_of(#[trigger] events@[i]),
{
    let mut out: Vec<TreeEvent> = Vec::new();
    let mut i: usize = 0;
    while i < events.len()
        invariant
            i <= events@.len(),
            out@.len() == i,
            forall|j: int| 0 <= j < i ==> out@[j]@ == event_of(#[trigger] events@[j]),
        decreases events@.len() - i,
    {
        let e = &events[i];
        let name = chars_of(e.node.as_str());
        let kind = node_kind(name.as_slice());
        let ev = match &e.locate {
            Some(l) => {
                let text = match &l.text {
                    Some(t) => Some(chars_of(t.as_str())),
                    None => None,
                };
                TreeEvent { enter: e.enter, kind, offset: l.offset, len: l.len, text }
            },
            None => TreeEvent { enter: e.enter, kind, offset: 0, len: 0, text: None },
        };
        out.push(ev);
        i = i + 1;
    }
    out
}

} // verus!
