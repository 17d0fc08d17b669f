//! Syntax trees of source files, as a list of nodes in document order.
//!
//! A parser reports each node with its kind, the rows and columns at which it
//! starts and ends, and its depth below the root. Listed parent first, that
//! is a tree: the descendants of a node are the nodes that follow it for as
//! long as they lie deeper than it.

use vstd::prelude::*;
use vstd::utf8::*;

verus! {

/// The kinds of node that the analysis tells apart.
#[derive(Clone, Copy, Debug, PartialEq, Eq, Structural)]
pub enum NodeKind {
    EnumItem,
    TypeIdentifier,
    Identifier,
    FunctionItem,
    ConstItem,
    Parameters,
    Parameter,
    CallExpression,
    Other,
}

/// The kind that a parser's name for it stands for.
pub open spec fn kind_of(name: Seq<char>) -> NodeKind {
    if name == "enum_item"@ {
        NodeKind::EnumItem
    } else if name == "type_identifier"@ {
        NodeKind::TypeIdentifier
    } else if name == "identifier"@ {
        NodeKind::Identifier
    } else if name == "function_item"@ {
        NodeKind::FunctionItem
    } else if name == "const_item"@ {
        NodeKind::ConstItem
    } else if name == "parameters"@ {
        NodeKind::Parameters
    } else if name == "parameter"@ {
        NodeKind::Parameter
    } else if name == "call_expression"@ {
        NodeKind::CallExpression
    } else {
        NodeKind::Other
    }
}

/// Whether `name` is the text `literal`.
fn is_name(name: &String, literal: &str) -> (r: bool)
    ensures
        r == (name@ == literal@),
{
    let other = literal.to_owned();
    *name == other
}

/// Reads a parser's name of a kind.
pub fn kind_from_name(name: &String) -> (kind: NodeKind)
    ensures
        kind == kind_of(name@),
{
    if is_name(name, "enum_item") {
        NodeKind::EnumItem
    } else if is_name(name, "type_identifier") {
        NodeKind::TypeIdentifier
    } else if is_name(name, "identifier") {
        NodeKind::Identifier
    } else if is_name(name, "function_item") {
        NodeKind::FunctionItem
    } else if is_name(name, "const_item") {
        NodeKind::ConstItem
    } else if is_name(name, "parameters") {
        NodeKind::Parameters
    } else if is_name(name, "parameter") {
        NodeKind::Parameter
    } else if is_name(name, "call_expression") {
        NodeKind::CallExpression
    } else {
        NodeKind::Other
    }
}

/// The position of the first line break of `source` at or after `from`; the
/// length of `source` where there is none.
pub open spec fn next_break(source: Seq<u8>, from: int) -> int
    decreases source.len() - from,
{
    if from < 0 || from >= source.len() {
        source.len() as int
    } else if source[from] == 10 {
        from
    } else {
        next_break(source, from + 1)
    }
}

/// The offset at which line `row` of `source` starts, the first line being
/// line 0. `None` where `source` has no such line.
pub open spec fn line_start(source: Seq<u8>, row: nat) -> Option<int>
    decreases row,
{
    if row == 0 {
        Some(0)
    } else {
        match line_start(source, (row - 1) as nat) {
            Some(start) => {
                let end = next_break(source, start);
                if end < source.len() {
                    Some(end + 1)
                } else {
                    None
                }
            },
            None => None,
        }
    }
}

/// The offset of the byte at column `col` of line `row`, both counted from 0.
/// `None` where that lies outside `source`.
pub open spec fn offset_of(source: Seq<u8>, row: nat, col: nat) -> Option<int> {
    match line_start(source, row) {
        Some(start) => if start + col <= source.len() {
            Some(start + col)
        } else {
            None
        },
        None => None,
    }
}

/// A position with no line break between `from` and it, which holds one or
/// is the end, is the next line break.
pub proof fn lemma_next_break(source: Seq<u8>, from: int, at: int)
    requires
        0 <= from <= at <= source.len(),
        forall|k: int| from <= k < at ==> source[k] != 10,
        at < source.len() ==> source[at] == 10,
    ensures
        next_break(source, from) == at,
    decreases at - from,
{
    if from < at {
        lemma_next_break(source, from + 1, at);
    }
}

/// The offsets at which the lines of `source` start.
pub fn line_starts(source: &Vec<u8>) -> (starts: Vec<usize>)
    ensures
        starts@.len() >= 1,
        forall|row: int|
            0 <= row < starts@.len() ==> line_start(source@, row as nat) == Some(
                #[trigger] starts@[row] as int,
            ),
        line_start(source@, starts@.len()) is None,
{
    let mut starts: Vec<usize> = Vec::new();
    starts.push(0);
    let mut i: usize = 0;
    while i < source.len()
        invariant
            i <= source.len(),
            starts@.len() >= 1,
            forall|row: int|
                0 <= row < starts@.len() ==> line_start(source@, row as nat) == Some(
                    #[trigger] starts@[row] as int,
                ),
            starts@[starts@.len() - 1] <= i,
            forall|k: int| starts@[starts@.len() - 1] <= k < i ==> source@[k] != 10,
        decreases source.len() - i,
    {
        if source[i] == 10 {
            proof {
                lemma_next_break(source@, starts@[starts@.len() - 1] as int, i as int);
                assert(line_start(source@, (starts@.len() - 1) as nat) == Some(
                    starts@[starts@.len() - 1] as int,
                ));
            }
            starts.push(i + 1);
        }
        i += 1;
    }
    proof {
        lemma_next_break(source@, starts@[starts@.len() - 1] as int, source@.len() as int);
        assert(line_start(source@, (starts@.len() - 1) as nat) == Some(
            starts@[starts@.len() - 1] as int,
        ));
    }
    starts
}

/// No line starts beyond the last one.
pub proof fn lemma_no_later_line(source: Seq<u8>, rows: nat, row: nat)
    requires
        line_start(source, rows) is None,
        rows <= row,
    ensures
        line_start(source, row) is None,
    decreases row,
{
    if rows < row {
        lemma_no_later_line(source, rows, (row - 1) as nat);
    }
}

/// Looks up the offset of a row and column in the line starts of a source.
pub fn offset_at(source: &Vec<u8>, starts: &Vec<usize>, row: usize, col: usize) -> (offset: Option<
    usize,
>)
    requires
        starts@.len() >= 1,
        forall|r: int|
            0 <= r < starts@.len() ==> line_start(source@, r as nat) == Some(
                #[trigger] starts@[r] as int,
            ),
        line_start(source@, starts@.len()) is None,
    ensures
        match offset {
            Some(at) => offset_of(source@, row as nat, col as nat) == Some(at as int),
            None => offset_of(source@, row as nat, col as nat) is None,
        },
{
    if row >= starts.len() {
        proof {
            lemma_no_later_line(source@, starts@.len(), row as nat);
        }
        return None;
    }
    let start = starts[row];
    if start > source.len() || col > source.len() - start {
        None
    } else {
        Some(start + col)
    }
}

/// A node as a parser reports it.
pub struct ParsedNode {
    /// The parser's name of the node's kind.
    pub kind: String,
    /// Row and column at which the node starts, each counted from 1.
    pub start: (usize, usize),
    /// Row and column at which the node ends, each counted from 1.
    pub end: (usize, usize),
    /// Number of nodes between the node and the root.
    pub depth: usize,
}

/// What a `ParsedNode` stands for.
pub struct ParsedNodeView {
    pub kind: Seq<char>,
    pub start: (usize, usize),
    pub end: (usize, usize),
    pub depth: usize,
}

impl View for ParsedNode {
    type V = ParsedNodeView;

    open spec fn view(&self) -> ParsedNodeView {
        ParsedNodeView { kind: self.kind@, start: self.start, end: self.end, depth: self.depth }
    }
}

/// A node of a syntax tree.
#[derive(Clone, Copy, Debug)]
pub struct SyntaxNode {
    /// Kind of the node.
    pub kind: NodeKind,
    /// Offset of the first byte of the node's text.
    pub start: usize,
    /// Offset of the byte after the node's text.
    pub stop: usize,
    /// Row and column at which the node starts, each counted from 0.
    pub position: (usize, usize),
    /// Number of nodes between the node and the root.
    pub depth: usize,
}

/// The node that the report `parsed` describes in `source`. `None` where a
/// row or column is 0, or the span does not lie in `source`.
pub open spec fn node_of(source: Seq<u8>, parsed: ParsedNodeView) -> Option<SyntaxNode> {
    if parsed.start.0 == 0 || parsed.start.1 == 0 || parsed.end.0 == 0 || parsed.end.1 == 0 {
        None
    } else {
        match (
            offset_of(source, (parsed.start.0 - 1) as nat, (parsed.start.1 - 1) as nat),
            offset_of(source, (parsed.end.0 - 1) as nat, (parsed.end.1 - 1) as nat),
        ) {
            (Some(start), Some(stop)) => if start <= stop {
                Some(
                    SyntaxNode {
                        kind: kind_of(parsed.kind),
                        start: start as usize,
                        stop: stop as usize,
                        position: ((parsed.start.0 - 1) as usize, (parsed.start.1 - 1) as usize),
                        depth: parsed.depth,
                    },
                )
            } else {
                None
            },
            _ => None,
        }
    }
}

/// A source file with the nodes of its syntax tree in document order.
pub struct SyntaxTree {
    source: Vec<u8>,
    nodes: Vec<SyntaxNode>,
}

/// What a `SyntaxTree` stands for.
pub struct SyntaxTreeView {
    pub source: Seq<u8>,
    pub nodes: Seq<SyntaxNode>,
}

impl View for SyntaxTree {
    type V = SyntaxTreeView;

    closed spec fn view(&self) -> SyntaxTreeView {
        SyntaxTreeView { source: self.source@, nodes: self.nodes@ }
    }
}

/// Whether the text of every node lies in the source.
pub open spec fn spans_in_source(tree: SyntaxTreeView) -> bool {
    forall|i: int|
        0 <= i < tree.nodes.len() ==> (#[trigger] tree.nodes[i]).start <= tree.nodes[i].stop
            <= tree.source.len()
}

/// The text of node `i`: the bytes of its span, read as UTF-8. `None` where
/// they are no valid UTF-8.
pub open spec fn node_text(tree: SyntaxTreeView, i: int) -> Option<Seq<char>> {
    let bytes = tree.source.subrange(tree.nodes[i].start as int, tree.nodes[i].stop as int);
    if valid_utf8(bytes) {
        Some(decode_utf8(bytes))
    } else {
        None
    }
}

/// `String::from_utf8`: the text that `bytes` encode, and `None` where they
/// are no valid UTF-8.
#[verifier::external_body]
pub(crate) fn string_from_utf8(bytes: Vec<u8>) -> (text: Option<String>)
    ensures
        match text {
            Some(text) => valid_utf8(bytes@) && text@ == decode_utf8(bytes@),
            None => !valid_utf8(bytes@),
        },
{
    String::from_utf8(bytes).ok()
}

impl SyntaxTree {
    /// Every span lies in the source.
    pub open spec fn wf(&self) -> bool {
        spans_in_source(self@)
    }

    /// Places the nodes that a parser reports, in document order, in the
    /// source they were read from. `None` where a report does not fit the
    /// source.
    pub fn new(source: Vec<u8>, parsed: &Vec<ParsedNode>) -> (tree: Option<SyntaxTree>)
        ensures
            match tree {
                Some(tree) => {
                    &&& tree.wf()
                    &&& tree@.source == source@
                    &&& tree@.nodes.len() == parsed@.len()
                    &&& forall|i: int|
                        0 <= i < parsed@.len() ==> node_of(source@, #[trigger] parsed@[i]@)
                            == Some(tree@.nodes[i])
                },
                None => exists|i: int|
                    0 <= i < parsed@.len() && node_of(source@, #[trigger] parsed@[i]@) is None,
            },
    {
        let starts = line_starts(&source);
        let mut nodes: Vec<SyntaxNode> = Vec::new();
        let mut i: usize = 0;
        while i < parsed.len()
            invariant
                i <= parsed.len(),
                nodes@.len() == i,
                starts@.len() >= 1,
                forall|r: int|
                    0 <= r < starts@.len() ==> line_start(source@, r as nat) == Some(
                        #[trigger] starts@[r] as int,
                    ),
                line_start(source@, starts@.len()) is None,
                forall|j: int|
                    0 <= j < i ==> node_of(source@, #[trigger] parsed@[j]@) == Some(nodes@[j]),
                forall|j: int|
                    0 <= j < i ==> (#[trigger] nodes@[j]).start <= nodes@[j].stop <= source@.len(),
            decreases parsed.len() - i,
        {
            let report = &parsed[i];
            if report.start.0 == 0 || report.start.1 == 0 || report.end.0 == 0 || report.end.1
                == 0 {
                assert(node_of(source@, parsed@[i as int]@) is None);
                return None;
            }
            let start = offset_at(&source, &starts, report.start.0 - 1, report.start.1 - 1);
            let stop = offset_at(&source, &starts, report.end.0 - 1, report.end.1 - 1);
            match (start, stop) {
                (Some(start), Some(stop)) => {
                    if start > stop {
                        assert(node_of(source@, parsed@[i as int]@) is None);
                        return None;
                    }
                    nodes.push(
                        SyntaxNode {
                            kind: kind_from_name(&report.kind),
                            start,
                            stop,
                            position: (report.start.0 - 1, report.start.1 - 1),
                            depth: report.depth,
                        },
                    );
                },
                _ => {
                    assert(node_of(source@, parsed@[i as int]@) is None);
                    return None;
                },
            }
            i += 1;
        }
        Some(SyntaxTree { source, nodes })
    }

    /// The number of nodes.
    pub fn len(&self) -> (n: usize)
        ensures
            n == self@.nodes.len(),
    {
        self.nodes.len()
    }

    /// Node `i`.
    pub fn node(&self, i: usize) -> (node: SyntaxNode)
        requires
            i < self@.nodes.len(),
        ensures
            node == self@.nodes[i as int],
    {
        self.nodes[i]
    }

    /// The text of node `i`.
    pub fn utf8_text(&self, i: usize) -> (text: Option<String>)
        requires
            self.wf(),
            i < self@.nodes.len(),
        ensures
            crate::pattern::view_of(text) == node_text(self@, i as int),
    {
        let node = self.nodes[i];
        let mut bytes: Vec<u8> = Vec::new();
        let mut k: usize = node.start;
        while k < node.stop
            invariant
                node.start <= k <= node.stop <= self.source@.len(),
                bytes@ == self.source@.subrange(node.start as int, k as int),
            decreases node.stop - k,
        {
            bytes.push(self.source[k]);
            assert(self.source@.subrange(node.start as int, k + 1)
                =~= self.source@.subrange(node.start as int, k as int).push(self.source@[k as int]));
            k += 1;
        }
        string_from_utf8(bytes)
    }
}

/// Whether node `j` is node `i` or one of its descendants: every node after
/// `i` up to `j` lies deeper than `i`.
pub open spec fn in_subtree(nodes: Seq<SyntaxNode>, i: int, j: int) -> bool {
    &&& 0 <= i <= j < nodes.len()
    &&& forall|k: int| i < k <= j ==> (#[trigger] nodes[k]).depth > nodes[i].depth
}

/// Whether node `j` is a child of node `i`.
pub open spec fn is_child(nodes: Seq<SyntaxNode>, i: int, j: int) -> bool {
    &&& i < j
    &&& in_subtree(nodes, i, j)
    &&& nodes[j].depth == nodes[i].depth + 1
}

/// The first position from `from` up to `to` at which `pred` holds.
pub open spec fn first_match(from: int, to: int, pred: spec_fn(int) -> bool) -> Option<int>
    decreases to - from,
{
    if from >= to {
        None
    } else if pred(from) {
        Some(from)
    } else {
        first_match(from + 1, to, pred)
    }
}

/// A position before which `pred` fails, and at which it holds, is the first
/// match; where it fails up to the end there is none.
pub proof fn lemma_first_match(from: int, to: int, pred: spec_fn(int) -> bool, at: int)
    requires
        from <= at <= to,
        forall|k: int| from <= k < at ==> !#[trigger] pred(k),
        at < to ==> pred(at),
    ensures
        first_match(from, to, pred) == if at < to {
            Some(at)
        } else {
            None
        },
    decreases at - from,
{
    if from < at {
        lemma_first_match(from + 1, to, pred, at);
    }
}

/// The view of an optional index.
pub open spec fn index_view(index: Option<usize>) -> Option<int> {
    match index {
        Some(i) => Some(i as int),
        None => None,
    }
}

/// The first child of node `i` that has kind `kind`.
pub open spec fn first_child(nodes: Seq<SyntaxNode>, i: int, kind: NodeKind) -> Option<int> {
    first_match(0, nodes.len() as int, |j: int| is_child(nodes, i, j) && nodes[j].kind == kind)
}

/// Whether node `j` lies below a node of kind `kind`.
pub open spec fn has_ancestor(nodes: Seq<SyntaxNode>, j: int, kind: NodeKind) -> bool {
    exists|i: int| 0 <= i < j && in_subtree(nodes, i, j) && (#[trigger] nodes[i]).kind == kind
}

/// A list of indices as integers.
pub open spec fn as_ints(indices: Seq<usize>) -> Seq<int> {
    Seq::new(indices.len(), |a: int| indices[a] as int)
}

/// The nodes of kind `kind` among node `i` and its descendants, in document
/// order.
pub open spec fn nodes_of_kind(nodes: Seq<SyntaxNode>, i: int, kind: NodeKind) -> Seq<int> {
    Seq::new(nodes.len(), |j: int| j).filter(
        |j: int| in_subtree(nodes, i, j) && nodes[j].kind == kind,
    )
}

impl SyntaxTree {
    /// The index after the last descendant of node `i`.
    pub fn subtree_end(&self, i: usize) -> (end: usize)
        requires
            i < self@.nodes.len(),
        ensures
            i < end <= self@.nodes.len(),
            forall|j: int| in_subtree(self@.nodes, i as int, j) <==> i <= j < end,
    {
        let depth = self.nodes[i].depth;
        let count = self.nodes.len();
        let mut end: usize = i + 1;
        while end < count && self.nodes[end].depth > depth
            invariant
                i < end <= count == self.nodes@.len(),
                depth == self.nodes@[i as int].depth,
                forall|k: int| i < k < end ==> (#[trigger] self.nodes@[k]).depth > depth,
            decreases count - end,
        {
            end += 1;
        }
        assert forall|j: int| in_subtree(self@.nodes, i as int, j) implies j < end by {
            if j >= end {
                assert(self.nodes@[end as int].depth > depth);
            }
        }
        end
    }

    /// The first child of node `i` that has kind `kind`.
    pub fn first_child_of_kind(&self, i: usize, kind: NodeKind) -> (child: Option<usize>)
        requires
            i < self@.nodes.len(),
        ensures
            index_view(child) == first_child(self@.nodes, i as int, kind),
            match child {
                Some(j) => {
                    &&& j < self@.nodes.len()
                    &&& is_child(self@.nodes, i as int, j as int)
                    &&& self@.nodes[j as int].kind == kind
                },
                None => forall|k: int|
                    is_child(self@.nodes, i as int, k) ==> (#[trigger] self@.nodes[k]).kind != kind,
            },
    {
        let ghost pred = |j: int| is_child(self@.nodes, i as int, j) && self@.nodes[j].kind == kind;
        let end = self.subtree_end(i);
        let depth = self.nodes[i].depth;
        let mut j: usize = i + 1;
        while j < end
            invariant
                i < j <= end <= self.nodes@.len(),
                depth == self.nodes@[i as int].depth,
                pred == |j: int| is_child(self@.nodes, i as int, j) && self@.nodes[j].kind == kind,
                forall|k: int| in_subtree(self@.nodes, i as int, k) <==> i <= k < end,
                forall|k: int|
                    is_child(self@.nodes, i as int, k) && k < j ==> (
                    #[trigger] self@.nodes[k]).kind != kind,
            decreases end - j,
        {
            let node = self.nodes[j];
            assert(in_subtree(self@.nodes, i as int, j as int));
            assert(self@.nodes[j as int].depth > depth);
            if node.depth - 1 == depth && node.kind == kind {
                proof {
                    assert forall|k: int| 0 <= k < j implies !#[trigger] pred(k) by {
                        if is_child(self@.nodes, i as int, k) {
                            assert(self@.nodes[k].kind != kind);
                        }
                    }
                    lemma_first_match(0, self@.nodes.len() as int, pred, j as int);
                }
                return Some(j);
            }
            j += 1;
        }
        proof {
            assert forall|k: int| 0 <= k < self@.nodes.len() implies !#[trigger] pred(k) by {
                if is_child(self@.nodes, i as int, k) {
                    assert(in_subtree(self@.nodes, i as int, k));
                    assert(self@.nodes[k].kind != kind);
                }
            }
            lemma_first_match(0, self@.nodes.len() as int, pred, self@.nodes.len() as int);
        }
        None
    }

    /// The nodes of kind `kind` among node `i` and its descendants, in
    /// document order.
    pub fn all_of_kind(&self, i: usize, kind: NodeKind) -> (found: Vec<usize>)
        requires
            i < self@.nodes.len(),
        ensures
            as_ints(found@) == nodes_of_kind(self@.nodes, i as int, kind),
            forall|a: int| 0 <= a < found@.len() ==> #[trigger] found@[a] < self@.nodes.len(),
    {
        let end = self.subtree_end(i);
        let count = self.nodes.len();
        let ghost all = Seq::new(self@.nodes.len(), |j: int| j);
        let ghost pred = |j: int| in_subtree(self@.nodes, i as int, j) && self@.nodes[j].kind == kind;
        let mut found: Vec<usize> = Vec::new();
        let mut j: usize = 0;
        proof {
            reveal(Seq::filter);
            assert(all.take(0) =~= Seq::<int>::empty());
            assert(as_ints(found@) =~= all.take(0).filter(pred));
        }
        while j < count
            invariant
                j <= count == self.nodes@.len(),
                i < end <= count,
                all == Seq::new(self@.nodes.len(), |j: int| j),
                pred == |j: int|
                    in_subtree(self@.nodes, i as int, j) && self@.nodes[j].kind == kind,
                forall|k: int| in_subtree(self@.nodes, i as int, k) <==> i <= k < end,
                as_ints(found@) == all.take(j as int).filter(pred),
                forall|a: int| 0 <= a < found@.len() ==> #[trigger] found@[a] < count,
            decreases count - j,
        {
            proof {
                reveal(Seq::filter);
                assert(all.take(j + 1).drop_last() =~= all.take(j as int));
                assert(all.take(j + 1).last() == j as int);
            }
            let ghost before = as_ints(found@);
            if i <= j && j < end && self.nodes[j].kind == kind {
                found.push(j);
                assert(as_ints(found@) =~= before.push(j as int));
            }
            j += 1;
        }
        assert(all.take(count as int) =~= all);
        found
    }

    /// Whether node `j` lies below a node of kind `kind`.
    pub fn has_ancestor_of_kind(&self, j: usize, kind: NodeKind) -> (r: bool)
        requires
            j < self@.nodes.len(),
        ensures
            r == has_ancestor(self@.nodes, j as int, kind),
    {
        let mut level: usize = self.nodes[j].depth;
        let mut k: usize = j;
        while k > 0
            invariant
                k <= j < self.nodes@.len(),
                forall|m: int| k <= m <= j ==> (#[trigger] self.nodes@[m]).depth >= level,
                exists|m: int| k <= m <= j && (#[trigger] self.nodes@[m]).depth == level,
                forall|i: int|
                    k <= i < j && in_subtree(self@.nodes, i, j as int) ==> (
                    #[trigger] self@.nodes[i]).kind != kind,
            decreases k,
        {
            k -= 1;
            let node = self.nodes[k];
            if node.depth < level {
                assert(in_subtree(self@.nodes, k as int, j as int));
                if node.kind == kind {
                    return true;
                }
                level = node.depth;
            } else {
                let ghost m = choose|m: int|
                    k < m <= j && (#[trigger] self.nodes@[m]).depth == level;
                assert(!in_subtree(self@.nodes, k as int, j as int)) by {
                    assert(self.nodes@[m].depth <= self.nodes@[k as int].depth);
                }
            }
        }
        false
    }
}

} // verus!
