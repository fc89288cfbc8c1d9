//! The boundary with the SystemVerilog parser: parsing text into a tree, and
//! walking that tree as a flat sequence of enter and leave events that the
//! rest of the library reads as plain values.
use sv_parser::{NodeEvent, RefNode, SyntaxTree};
use vstd::prelude::*;

verus! {

/// The parser's tree, carried through without looking inside.
#[verifier::external_type_specification]
#[verifier::external_body]
pub struct ExSyntaxTree(sv_parser::SyntaxTree);

/// The parser's diagnostic for a rejected input.
#[verifier::external_type_specification]
#[verifier::external_body]
pub struct ExParseError(sv_parser::Error);

/// Options handed to the parser.
#[derive(Clone, Copy, Debug)]
pub struct SvParserCfg {
    pub allow_incomplete: bool,
}

impl Default for SvParserCfg {
    fn default() -> (r: Self)
        ensures
            r.allow_incomplete,
    {
        SvParserCfg { allow_incomplete: true }
    }
}

/// The position and text of one leaf of the tree.
#[derive(Clone, Debug)]
pub struct LocateInfo {
    pub offset: usize,
    pub len: usize,
    /// The leaf's text, when the tree can give it.
    pub text: Option<String>,
}

/// One step of a depth-first walk of the tree: entering or leaving a node.
#[derive(Clone, Debug)]
pub struct SyntaxEvent {
    pub enter: bool,
    /// The node's kind, as the parser names it (`ConditionalStatement`).
    pub node: String,
    /// For a leaf, where it stands and what it holds.
    pub locate: Option<LocateInfo>,
}

/// Relies on `sv_parser::parse_sv_str`: parses `text` with no predefined
/// macros and no include paths; a rejected input gives the parser's error.
/// Nothing is assumed of the tree, which may depend on included files.
#[verifier::external_body]
pub fn parse(text: &str, cfg: &SvParserCfg) -> (r: Result<SyntaxTree, sv_parser::Error>) {
    let defines: sv_parser::Defines = sv_parser::Defines::default();
    let include_paths: Vec<&std::path::Path> = Vec::new();
    sv_parser::parse_sv_str(
        text,
        std::path::Path::new("<memory>"),
        &defines,
        &include_paths,
        false,
        cfg.allow_incomplete,
    ).map(|(tree, _)| tree)
}

/// Relies on the event iterator of `sv_parser::SyntaxTree` (`into_iter().event()`),
/// on the `Display` of `RefNode`, which prints the node kind's name, and on
/// `SyntaxTree::get_str` for the text of a leaf. Each event is copied as it
/// comes; nothing is assumed of their order or content.
#[verifier::external_body]
pub(crate) fn syntax_events(tree: &SyntaxTree) -> (r: Vec<SyntaxEvent>) {
    let mut events = Vec::new();
    for event in tree.into_iter().event() {
        let (enter, node) = match event {
            NodeEvent::Enter(node) => (true, node),
            NodeEvent::Leave(node) => (false, node),
        };
        let locate = match node {
            RefNode::Locate(loc) => Some(LocateInfo { offset: loc.offset, len: loc.len, text: tree.get_str(loc).map(String::from) }),
            _ => None,
        };
        events.push(SyntaxEvent { enter, node: node.to_string(), locate });
    }
    events
}

} // verus!
