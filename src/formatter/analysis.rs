//! Structural analysis of the tree walk: the byte range of the statement each
//! control keyword governs, and the padding that lines up the colons of a
//! selection block.
use super::tree::{EventView, NodeKind, TreeEvent, event_views};
use std::collections::HashMap;
use vstd::prelude::*;

verus! {

/// A byte range `[start, end)` of the parsed text.
#[derive(Clone, Copy, Debug, PartialEq, Eq, Structural)]
pub struct ByteSpan {
    pub start: usize,
    pub end: usize,
}

impl ByteSpan {
    pub open spec fn has(&self, offset: usize) -> bool {
        self.start <= offset < self.end
    }

    pub fn contains(&self, offset: usize) -> (r: bool)
        ensures
            r == self.has(offset),
    {
        offset >= self.start && offset < self.end
    }
}

/// The widest label among `entries` (0 when there are none).
pub open spec fn max_width(entries: Seq<(usize, usize)>) -> usize
    decreases entries.len(),
{
    if entries.len() == 0 {
        0
    } else {
        let rest = max_width(entries.drop_last());
        if entries.last().1 > rest {
            entries.last().1
        } else {
            rest
        }
    }
}

pub proof fn lemma_max_width(entries: Seq<(usize, usize)>)
    ensures
        forall|i: int| 0 <= i < entries.len() ==> #[trigger] entries[i].1 <= max_width(entries),
        entries.len() > 0 ==> exists|i: int|
            0 <= i < entries.len() && #[trigger] entries[i].1 == max_width(entries),
    decreases entries.len(),
{
    if entries.len() > 0 {
        lemma_max_width(entries.drop_last());
        if entries.last().1 <= max_width(entries.drop_last()) && entries.len() > 1 {
            let j = choose|j: int|
                0 <= j < entries.drop_last().len() && #[trigger] entries.drop_last()[j].1
                    == max_width(entries.drop_last());
            assert(entries[j].1 == max_width(entries));
        } else {
            assert(entries[entries.len() - 1].1 == max_width(entries));
        }
        assert forall|i: int| 0 <= i < entries.len() implies #[trigger] entries[i].1 <= max_width(
            entries,
        ) by {
            if i < entries.len() - 1 {
                assert(entries[i] == entries.drop_last()[i]);
            }
        }
    }
}

/// Spaces before a colon whose label is `width` wide, in a block whose
/// widest label is `max`: one more than the difference (saturating).
pub open spec fn pad_for(max: usize, width: usize) -> usize {
    if max - width >= usize::MAX {
        usize::MAX
    } else if width > max {
        1
    } else {
        (max - width + 1) as usize
    }
}

/// The padding that the colon at `offset` gets: set only when the block has
/// two branches or more, where it is `max − width + 1` for that branch's
/// label width (the last entry wins where two share an offset).
pub open spec fn padding_of(entries: Seq<(usize, usize)>, offset: usize) -> Option<usize> {
    if entries.len() < 2 {
        None
    } else {
        padding_in(entries, entries.len() as int, max_width(entries), offset)
    }
}

/// The padding of the last of the first `n` entries whose colon is at `offset`.
pub open spec fn padding_in(entries: Seq<(usize, usize)>, n: int, max: usize, offset: usize) -> Option<
    usize,
>
    decreases n,
{
    if n <= 0 {
        None
    } else if entries[n - 1].0 == offset {
        Some(pad_for(max, entries[n - 1].1))
    } else {
        padding_in(entries, n - 1, max, offset)
    }
}

/// Records the colon paddings of one selection block into `alignment`.
pub fn apply_alignment(entries: &Vec<(usize, usize)>, alignment: &mut HashMap<usize, usize>)
    ensures
        entries@.len() < 2 ==> final(alignment)@ == old(alignment)@,
        entries@.len() >= 2 ==> final(alignment)@ == old(alignment)@.union_prefer_right(
            Map::new(
                |k: usize| padding_in(entries@, entries@.len() as int, max_width(entries@), k) is Some,
                |k: usize| padding_in(entries@, entries@.len() as int, max_width(entries@), k).unwrap(),
            ),
        ),
{
    if entries.len() < 2 {
        return ;
    }
    let mut max: usize = 0;
    let mut i: usize = 0;
    while i < entries.len()
        invariant
            i <= entries@.len(),
            max == max_width(entries@.subrange(0, i as int)),
        decreases entries@.len() - i,
    {
        assert(entries@.subrange(0, i + 1).drop_last() =~= entries@.subrange(0, i as int));
        if entries[i].1 > max {
            max = entries[i].1;
        }
        i = i + 1;
    }
    assert(entries@.subrange(0, i as int) =~= entries@);
    proof {
        lemma_max_width(entries@);
    }
    let ghost start = alignment@;
    let mut j: usize = 0;
    while j < entries.len()
        invariant
            j <= entries@.len(),
            max == max_width(entries@),
            forall|i: int| 0 <= i < entries@.len() ==> #[trigger] entries@[i].1 <= max,
            alignment@ == start.union_prefer_right(
                Map::new(
                    |k: usize| padding_in(entries@, j as int, max, k) is Some,
                    |k: usize| padding_in(entries@, j as int, max, k).unwrap(),
                ),
            ),
        decreases entries@.len() - j,
    {
        let (offset, width) = entries[j];
        assert(entries@[j as int] == (offset, width));
        let padding = (max - width).saturating_add(1);
        alignment.insert(offset, padding);
        j = j + 1;
        assert(alignment@ =~= start.union_prefer_right(
            Map::new(
                |k: usize| padding_in(entries@, j as int, max, k) is Some,
                |k: usize| padding_in(entries@, j as int, max, k).unwrap(),
            ),
        ));
    }
}


/// What the walk knows of a node while it is open: its kind, where its
/// first leaf starts and its last leaf ends, the latest keyword and symbol
/// among its children, and where its branches begin in the entry list.
#[derive(Clone, Copy, Debug)]
pub struct Frame {
    pub kind: NodeKind,
    pub first: Option<usize>,
    pub end: usize,
    pub keyword: Option<usize>,
    pub symbol: Option<usize>,
    pub entries_start: usize,
}

/// The frame of a node the walk enters; a leaf knows its own extent.
pub open spec fn opened(e: EventView, entries_start: usize) -> Frame {
    if e.kind == NodeKind::Locate {
        Frame {
            kind: e.kind,
            first: Some(e.offset),
            end: if e.offset + e.len > usize::MAX {
                usize::MAX
            } else {
                (e.offset + e.len) as usize
            },
            keyword: None,
            symbol: None,
            entries_start,
        }
    } else {
        Frame { kind: e.kind, first: None, end: 0, keyword: None, symbol: None, entries_start }
    }
}

fn open_frame(e: &TreeEvent, entries_start: usize) -> (r: Frame)
    ensures
        r == opened(e@, entries_start),
        r.kind == e.kind,
        r.keyword is None,
        r.symbol is None,
        r.entries_start == entries_start,
        e.kind == NodeKind::Locate ==> r.first == Some(e.offset),
        e.kind != NodeKind::Locate ==> r.first is None,
{
    if e.kind == NodeKind::Locate {
        Frame {
            kind: e.kind,
            first: Some(e.offset),
            end: e.offset.saturating_add(e.len),
            keyword: None,
            symbol: None,
            entries_start,
        }
    } else {
        Frame { kind: e.kind, first: None, end: 0, keyword: None, symbol: None, entries_start }
    }
}

/// The parent once its child `c` has closed: its leaves now reach to the
/// child's, and the child's first leaf is remembered as the latest keyword
/// or symbol when the child is one.
pub open spec fn absorb(p: Frame, c: Frame) -> Frame {
    Frame {
        first: if p.first is Some {
            p.first
        } else {
            c.first
        },
        end: if c.first is Some {
            c.end
        } else {
            p.end
        },
        keyword: if c.kind == NodeKind::Keyword && c.first is Some {
            c.first
        } else {
            p.keyword
        },
        symbol: if c.kind == NodeKind::Symbol && c.first is Some {
            c.first
        } else {
            p.symbol
        },
        ..p
    }
}

fn absorb_child(p: Frame, c: Frame) -> (r: Frame)
    ensures
        r == absorb(p, c),
{
    let mut r = p;
    if r.first.is_none() {
        r.first = c.first;
    }
    if c.first.is_some() {
        r.end = c.end;
    }
    if c.kind == NodeKind::Keyword && c.first.is_some() {
        r.keyword = c.first;
    }
    if c.kind == NodeKind::Symbol && c.first.is_some() {
        r.symbol = c.first;
    }
    r
}

/// The open frames and the body spans after the first `n` events: a
/// leaving body records its span under its parent's latest keyword when the
/// parent is a conditional or a loop, and every leaving node is absorbed
/// into its parent.
pub open spec fn spans_walk(ev: Seq<EventView>, n: int) -> (Seq<Frame>, Map<usize, ByteSpan>)
    decreases n,
{
    if n <= 0 {
        (Seq::empty(), Map::empty())
    } else {
        let (stack, spans) = spans_walk(ev, n - 1);
        let e = ev[n - 1];
        if e.enter {
            (stack.push(opened(e, 0)), spans)
        } else if stack.len() == 0 {
            (stack, spans)
        } else {
            let child = stack.last();
            let rest = stack.drop_last();
            if rest.len() == 0 {
                (rest, spans)
            } else {
                let parent = rest.last();
                let spans2 = if (parent.kind == NodeKind::Conditional || parent.kind
                    == NodeKind::Loop) && child.kind == NodeKind::Body && parent.keyword is Some
                    && child.first is Some {
                    spans.insert(
                        parent.keyword.unwrap(),
                        ByteSpan { start: child.first.unwrap(), end: child.end },
                    )
                } else {
                    spans
                };
                (rest.drop_last().push(absorb(parent, child)), spans2)
            }
        }
    }
}

/// The body-span table of a walk.
pub open spec fn statement_spans(ev: Seq<EventView>) -> Map<usize, ByteSpan> {
    spans_walk(ev, ev.len() as int).1
}

/// `align` with the paddings of one selection block added (none for a block
/// with fewer than two branches).
pub open spec fn with_block(align: Map<usize, usize>, block: Seq<(usize, usize)>) -> Map<usize, usize> {
    if block.len() < 2 {
        align
    } else {
        align.union_prefer_right(
            Map::new(
                |k: usize| padding_in(block, block.len() as int, max_width(block), k) is Some,
                |k: usize| padding_in(block, block.len() as int, max_width(block), k).unwrap(),
            ),
        )
    }
}

/// The open frames, the branches collected so far and the colon paddings
/// after the first `n` events: a leaving selection block pads its own
/// branches (those collected since it opened), and a leaving branch directly
/// under a `randcase` or a case item adds its colon and label width.
pub open spec fn case_walk(ev: Seq<EventView>, n: int) -> (
    Seq<Frame>,
    Seq<(usize, usize)>,
    Map<usize, usize>,
)
    decreases n,
{
    if n <= 0 {
        (Seq::empty(), Seq::empty(), Map::empty())
    } else {
        let (stack, entries, align) = case_walk(ev, n - 1);
        let e = ev[n - 1];
        if e.enter {
            (stack.push(opened(e, entries.len() as usize)), entries, align)
        } else if stack.len() == 0 {
            (stack, entries, align)
        } else {
            let child = stack.last();
            let rest = stack.drop_last();
            let (entries1, align1) = if child.kind == NodeKind::CaseBlock || child.kind
                == NodeKind::Randcase {
                let start = if child.entries_start <= entries.len() {
                    child.entries_start as int
                } else {
                    entries.len() as int
                };
                (
                    entries.subrange(0, start),
                    with_block(align, entries.subrange(start, entries.len() as int)),
                )
            } else {
                (entries, align)
            };
            if rest.len() == 0 {
                (rest, entries1, align1)
            } else {
                let parent = rest.last();
                let entries2 = if child.kind == NodeKind::Branch && (parent.kind
                    == NodeKind::Randcase || parent.kind == NodeKind::CaseItem) && child.first is Some
                    && child.symbol is Some {
                    let colon = child.symbol.unwrap();
                    let first = child.first.unwrap();
                    entries1.push((colon, if colon >= first { (colon - first) as usize } else { 0 }))
                } else {
                    entries1
                };
                (rest.drop_last().push(absorb(parent, child)), entries2, align1)
            }
        }
    }
}

/// The colon-padding table of a walk.
pub open spec fn case_alignment(ev: Seq<EventView>) -> Map<usize, usize> {
    case_walk(ev, ev.len() as int).2
}

/// The offsets at which the walk enters a leaf.
pub open spec fn is_leaf_offset(ev: Seq<EventView>, o: usize) -> bool {
    exists|i: int| 0 <= i < ev.len() && ev[i].enter && ev[i].kind == NodeKind::Locate && #[trigger] ev[i].offset == o
}

/// Every field of every frame of `stack` that names a leaf names one of
/// the first `n` events.
pub open spec fn frames_from_leaves(stack: Seq<Frame>, ev: Seq<EventView>) -> bool {
    forall|j: int|
        0 <= j < stack.len() ==> {
            &&& (#[trigger] stack[j]).first matches Some(o) ==> is_leaf_offset(ev, o)
            &&& stack[j].keyword matches Some(o) ==> is_leaf_offset(ev, o)
        }
}

/// For every conditional or loop statement of the walk, maps the offset of
/// the keyword that governs each of its bodies (`if`, the `if` of `else if`,
/// `else`, the loop keyword) to the byte span of that body's leaves. Keys
/// and span starts are offsets of leaves of the walk.
pub fn collect_statement_spans(events: &Vec<TreeEvent>) -> (r: HashMap<usize, ByteSpan>)
    ensures
        r@ == statement_spans(event_views(events@)),
        forall|k: usize|
            #[trigger] r@.contains_key(k) ==> is_leaf_offset(event_views(events@), k)
                && is_leaf_offset(event_views(events@), r@[k].start),
{
    let ghost ev = event_views(events@);
    let mut spans: HashMap<usize, ByteSpan> = HashMap::new();
    let mut stack: Vec<Frame> = Vec::new();
    let mut i: usize = 0;
    while i < events.len()
        invariant
            i <= events@.len(),
            ev == event_views(events@),
            frames_from_leaves(stack@, ev),
            spans_walk(ev, i as int) == (stack@, spans@),
            forall|k: usize|
                #[trigger] spans@.contains_key(k) ==> is_leaf_offset(ev, k) && is_leaf_offset(
                    ev,
                    spans@[k].start,
                ),
        decreases events@.len() - i,
    {
        let e = &events[i];
        assert(ev[i as int] == e@);
        let ghost st0 = stack@;
        if e.enter {
            let f = open_frame(e, 0);
            stack.push(f);
            assert(frames_from_leaves(stack@, ev)) by {
                assert forall|j: int| 0 <= j < stack@.len() implies {
                    &&& (#[trigger] stack@[j]).first matches Some(o) ==> is_leaf_offset(ev, o)
                    &&& stack@[j].keyword matches Some(o) ==> is_leaf_offset(ev, o)
                } by {
                    if j == stack@.len() - 1 && e.kind == NodeKind::Locate {
                        assert(ev[i as int].offset == e.offset);
                    }
                }
            }
        } else if stack.len() > 0 {
            let child = stack.pop().unwrap();
            assert(child == st0.last());
            if stack.len() > 0 {
                let parent = stack.pop().unwrap();
                assert(parent == st0.drop_last().last());
                if (parent.kind == NodeKind::Conditional || parent.kind == NodeKind::Loop) && child.kind == NodeKind::Body {
                    if let Some(k) = parent.keyword {
                        if let Some(start) = child.first {
                            spans.insert(k, ByteSpan { start, end: child.end });
                        }
                    }
                }
                let merged = absorb_child(parent, child);
                stack.push(merged);
            }
        }
        i = i + 1;
    }
    spans
}

/// For every plain `case` and `randcase` statement of the walk with two
/// branches or more, maps the offset of each branch's colon to the padding
/// that lines the colons up (see `apply_alignment`). A branch's label runs
/// from its first leaf to its last direct symbol, the colon. Keys are
/// offsets of leaves of the walk.
pub fn collect_case_alignment(events: &Vec<TreeEvent>) -> (r: HashMap<usize, usize>)
    ensures
        r@ == case_alignment(event_views(events@)),
        forall|k: usize| #[trigger] r@.contains_key(k) ==> is_leaf_offset(event_views(events@), k),
{
    let ghost ev = event_views(events@);
    let mut alignment: HashMap<usize, usize> = HashMap::new();
    let mut stack: Vec<Frame> = Vec::new();
    let mut entries: Vec<(usize, usize)> = Vec::new();
    let mut i: usize = 0;
    while i < events.len()
        invariant
            i <= events@.len(),
            ev == event_views(events@),
            forall|j: int| 0 <= j < stack@.len() ==> {
                &&& (#[trigger] stack@[j]).first matches Some(o) ==> is_leaf_offset(ev, o)
                &&& stack@[j].symbol matches Some(o) ==> is_leaf_offset(ev, o)
            },
            forall|j: int| 0 <= j < entries@.len() ==> is_leaf_offset(ev, (#[trigger] entries@[j]).0),
            forall|k: usize| #[trigger] alignment@.contains_key(k) ==> is_leaf_offset(ev, k),
            case_walk(ev, i as int) == (stack@, entries@, alignment@),
        decreases events@.len() - i,
    {
        let e = &events[i];
        assert(ev[i as int] == e@);
        let ghost st0 = stack@;
        let ghost en0 = entries@;
        if e.enter {
            let f = open_frame(e, entries.len());
            stack.push(f);
            assert forall|j: int| 0 <= j < stack@.len() implies {
                &&& (#[trigger] stack@[j]).first matches Some(o) ==> is_leaf_offset(ev, o)
                &&& stack@[j].symbol matches Some(o) ==> is_leaf_offset(ev, o)
            } by {
                if j == stack@.len() - 1 && e.kind == NodeKind::Locate {
                    assert(ev[i as int].offset == e.offset);
                }
            }
        } else if stack.len() > 0 {
            let child = stack.pop().unwrap();
            assert(child == st0.last());
            if child.kind == NodeKind::CaseBlock || child.kind == NodeKind::Randcase {
                let start = if child.entries_start <= entries.len() {
                    child.entries_start
                } else {
                    entries.len()
                };
                let mut block: Vec<(usize, usize)> = Vec::new();
                let mut j: usize = start;
                while j < entries.len()
                    invariant
                        start <= j <= entries@.len(),
                        block@ == entries@.subrange(start as int, j as int),
                        forall|m: int| 0 <= m < block@.len() ==> is_leaf_offset(ev, (#[trigger] block@[m]).0),
                        forall|m: int| 0 <= m < entries@.len() ==> is_leaf_offset(ev, (#[trigger] entries@[m]).0),
                    decreases entries@.len() - j,
                {
                    block.push(entries[j]);
                    j = j + 1;
                    assert(block@ =~= entries@.subrange(start as int, j as int));
                }
                apply_alignment(&block, &mut alignment);
                assert forall|k: usize| #[trigger] alignment@.contains_key(k) implies is_leaf_offset(ev, k) by {
                    if block@.len() >= 2 && padding_in(block@, block@.len() as int, max_width(block@), k) is Some {
                        lemma_padding_key(block@, block@.len() as int, max_width(block@), k);
                    }
                }
                entries.truncate(start);
            }
            if stack.len() > 0 {
                let parent = stack.pop().unwrap();
                assert(parent == st0.drop_last().last());
                let is_branch = child.kind == NodeKind::Branch && (parent.kind == NodeKind::Randcase
                    || parent.kind == NodeKind::CaseItem);
                if is_branch {
                    if let (Some(first), Some(colon)) = (child.first, child.symbol) {
                        entries.push((colon, colon.saturating_sub(first)));
                    }
                }
                let merged = absorb_child(parent, child);
                stack.push(merged);
            }
        }
        i = i + 1;
    }
    alignment
}

pub proof fn lemma_padding_key(entries: Seq<(usize, usize)>, n: int, max: usize, k: usize)
    requires
        padding_in(entries, n, max, k) is Some,
        n <= entries.len(),
    ensures
        exists|j: int| 0 <= j < n && #[trigger] entries[j].0 == k,
    decreases n,
{
    if entries[n - 1].0 != k {
        lemma_padding_key(entries, n - 1, max, k);
    }
}

/// With distinct colon offsets, the padding found for a branch is the one
/// computed from its own label width.
pub proof fn lemma_padding_of_entry(entries: Seq<(usize, usize)>, n: int, max: usize, i: int)
    requires
        0 <= i < n <= entries.len(),
        forall|a: int, b: int|
            0 <= a < b < entries.len() ==> #[trigger] entries[a].0 != #[trigger] entries[b].0,
    ensures
        padding_in(entries, n, max, entries[i].0) == Some(pad_for(max, entries[i].1)),
    decreases n,
{
    if n - 1 != i {
        lemma_padding_of_entry(entries, n - 1, max, i);
    }
}

/// Alignment of selection blocks: in a block with two branches or more
/// (distinct colons, label widths below the largest machine value), every
/// label plus its padding reaches the same column, one past the widest
/// label; a block with fewer than two branches gets no padding at all and
/// keeps the ordinary single space before its colon.
pub proof fn lemma_colons_aligned(entries: Seq<(usize, usize)>)
    requires
        forall|a: int, b: int|
            0 <= a < b < entries.len() ==> #[trigger] entries[a].0 != #[trigger] entries[b].0,
        forall|a: int| 0 <= a < entries.len() ==> #[trigger] entries[a].1 < usize::MAX,
    ensures
        entries.len() < 2 ==> forall|o: usize| #[trigger] padding_of(entries, o) is None,
        entries.len() >= 2 ==> forall|i: int|
            0 <= i < entries.len() ==> padding_of(entries, (#[trigger] entries[i]).0) is Some
                && entries[i].1 + padding_of(entries, entries[i].0).unwrap() == max_width(entries)
                + 1,
{
    if entries.len() >= 2 {
        lemma_max_width(entries);
        let max = max_width(entries);
        assert(max < usize::MAX) by {
            let j = choose|j: int| 0 <= j < entries.len() && #[trigger] entries[j].1 == max;
        }
        assert forall|i: int| 0 <= i < entries.len() implies padding_of(
            entries,
            (#[trigger] entries[i]).0,
        ) is Some && entries[i].1 + padding_of(entries, entries[i].0).unwrap() == max + 1 by {
            lemma_padding_of_entry(entries, entries.len() as int, max, i);
        }
    }
}

} // verus!
