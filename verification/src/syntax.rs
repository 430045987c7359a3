use crate::keywords::str_eq;
use crate::parse_structures::{point_le, point_lt, Point, TextRange};
use crate::text::{byte_range_ok, get_string_at_byte_range};
use vstd::string::StringSliceAdditionalSpecFns;
use vstd::utf8::{decode_utf8, encode_utf8, encode_utf8_decode_utf8};
use tree_sitter::{Node, Parser, Tree};
use vstd::prelude::*;

verus! {

#[verifier::external_type_specification]
#[verifier::external_body]
pub struct ExParser(Parser);

#[verifier::external_type_specification]
#[verifier::external_body]
pub struct ExTree(Tree);

#[verifier::external_type_specification]
#[verifier::external_body]
pub struct ExNode<'tree>(Node<'tree>);

/// The grammar's name for the node of the ObjectScript class grammar's parse of `text` that
/// is reached from the root by taking, at each step, the named child with the next index of
/// `path`.
pub uninterp spec fn syntax_kind(text: Seq<char>, path: Seq<int>) -> Seq<char>;

/// Where that node lies in `text`.
pub uninterp spec fn syntax_range(text: Seq<char>, path: Seq<int>) -> TextRange;

/// How many named children that node has.
pub uninterp spec fn syntax_named_child_count(text: Seq<char>, path: Seq<int>) -> nat;

/// Whether that node is or contains a syntax error.
pub uninterp spec fn syntax_has_error(text: Seq<char>, path: Seq<int>) -> bool;

/// A parser whose language is the ObjectScript class grammar: only
/// `ts_set_objectscript_language` makes one, from a parser whose language it has just set.
pub struct UdlParser {
    parser: Parser,
}

/// A node of the parse of a text, with the text and the path of named-child indices that
/// lead to it from the root. Only the tree-sitter wrappers make cursors: the root of a parsed
/// tree (empty path), and the named children of a cursor (the parent's path with the child's
/// index added).
#[derive(Clone, Copy)]
pub struct SyntaxCursor<'tree> {
    node: Node<'tree>,
    text: Ghost<Seq<char>>,
    path: Ghost<Seq<int>>,
}

impl<'tree> View for SyntaxCursor<'tree> {
    type V = (Seq<char>, Seq<int>);

    closed spec fn view(&self) -> (Seq<char>, Seq<int>) {
        (self.text@, self.path@)
    }
}

/// `tree_sitter::Parser::new`: a parser with no language set.
#[verifier::external_body]
fn ts_new_parser() -> Parser {
    Parser::new()
}

/// `tree_sitter::Parser::set_language` with `tree_sitter_objectscript::LANGUAGE_OBJECTSCRIPT_UDL`.
/// The call fails only for a language whose ABI version lies outside 13 to 15, or that has no
/// lexer; this grammar is generated with version 15 and has one, so the parser comes back
/// with its language set.
#[verifier::external_body]
fn ts_set_objectscript_language(parser: Parser) -> (r: Option<UdlParser>)
    ensures
        r is Some,
{
    let mut parser = parser;
    match parser.set_language(&tree_sitter_objectscript::LANGUAGE_OBJECTSCRIPT_UDL.into()) {
        Ok(()) => Some(UdlParser { parser }),
        Err(_) => None,
    }
}

/// A tree that the parser made, with the text it parsed.
struct ParsedTree {
    tree: Tree,
    text: Ghost<Seq<char>>,
}

impl View for ParsedTree {
    type V = Seq<char>;

    closed spec fn view(&self) -> Seq<char> {
        self.text@
    }
}

/// `tree_sitter::Parser::parse` of `text` without an earlier tree and without options: it
/// gives `None` only when no language is set. The tree keeps the text it was parsed from.
#[verifier::external_body]
fn ts_parse(parser: &mut UdlParser, text: &str) -> (r: Option<ParsedTree>)
    ensures
        r is Some,
        r is Some ==> r->0@ == text@,
{
    match parser.parser.parse(text, None) {
        Some(tree) => Some(ParsedTree { tree, text: Ghost(text@) }),
        None => None,
    }
}

/// `tree_sitter::Tree::root_node`: the cursor of the root, reached by the empty path.
#[verifier::external_body]
fn ts_root_node<'tree>(tree: &'tree ParsedTree) -> (r: SyntaxCursor<'tree>)
    ensures
        r@ == (tree@, Seq::<int>::empty()),
{
    SyntaxCursor { node: tree.tree.root_node(), text: tree.text, path: Ghost(Seq::empty()) }
}

/// `tree_sitter::Node::kind`, as an owned string: the grammar's name for the node.
#[verifier::external_body]
fn ts_kind(node: &SyntaxCursor) -> (r: String)
    ensures
        r@ == syntax_kind(node@.0, node@.1),
{
    node.node.kind().to_string()
}

/// `tree_sitter::Node::range`, field by field.
#[verifier::external_body]
fn ts_range(node: &SyntaxCursor) -> (r: TextRange)
    ensures
        r == syntax_range(node@.0, node@.1),
{
    let r = node.node.range();
    TextRange {
        start_byte: r.start_byte,
        end_byte: r.end_byte,
        start_point: Point { row: r.start_point.row, column: r.start_point.column },
        end_point: Point { row: r.end_point.row, column: r.end_point.column },
    }
}

/// `tree_sitter::Node::named_child_count`; the C library counts in 32 bits.
#[verifier::external_body]
fn ts_named_child_count(node: &SyntaxCursor) -> (r: usize)
    ensures
        r == syntax_named_child_count(node@.0, node@.1),
        r <= u32::MAX,
{
    node.node.named_child_count()
}

/// `tree_sitter::Node::named_child`: a node exactly for the indices below the number of
/// named children, reached by the parent's path with the index added.
#[verifier::external_body]
fn ts_named_child<'tree>(node: &SyntaxCursor<'tree>, i: u32) -> (r: Option<SyntaxCursor<'tree>>)
    ensures
        r is Some <==> i < syntax_named_child_count(node@.0, node@.1),
        r is Some ==> r->0@ == (node@.0, node@.1.push(i as int)),
{
    match node.node.named_child(i) {
        Some(child) => Some(SyntaxCursor { node: child, text: node.text, path: Ghost(node.path@.push(i as int)) }),
        None => None,
    }
}

/// `tree_sitter::Node::has_error`: the node is or contains a syntax error.
#[verifier::external_body]
fn ts_has_error(node: &SyntaxCursor) -> (r: bool)
    ensures
        r == syntax_has_error(node@.0, node@.1),
{
    node.node.has_error()
}

/// One named node of a syntax tree.
#[derive(Debug)]
pub struct SyntaxNode {
    /// The grammar's name for the node.
    pub kind: String,
    /// Where the node lies in the source.
    pub range: TextRange,
    /// The index of the enclosing named node; `None` for the root.
    pub parent: Option<usize>,
    /// The index of the first named child; the named children are consecutive.
    pub first_child: usize,
    /// The number of named children.
    pub child_count: usize,
}

/// A syntax tree of named nodes, stored breadth-first: node 0 is the root, and the named
/// children of a node follow one another, after the node itself.
#[derive(Debug)]
pub struct SyntaxTree {
    pub nodes: Vec<SyntaxNode>,
    /// Whether the parser met a syntax error anywhere.
    pub has_error: bool,
}

/// The tree's links are consistent: the root has no parent, a parent comes before its
/// children, and the children of a node name it as their parent.
pub open spec fn tree_wf(t: SyntaxTree) -> bool {
    let ns = t.nodes@;
    &&& ns.len() > 0
    &&& ns[0].parent is None
    &&& forall|i: int|
        0 < i < ns.len() ==> (#[trigger] ns[i].parent) is Some && ns[i].parent->0 < i
    &&& forall|i: int|
        0 <= i < ns.len() ==> i < (#[trigger] ns[i].first_child) && ns[i].first_child
            + ns[i].child_count <= ns.len()
    &&& forall|i: int, k: int|
        0 <= i < ns.len() && 0 <= k < ns[i].child_count ==> #[trigger] ns[ns[i].first_child
            + k].parent == Some(i as usize)
}

/// The `k`-th named child of node `i`.
pub open spec fn child_of(t: SyntaxTree, i: int, k: int) -> int {
    t.nodes@[i].first_child + k
}

impl SyntaxTree {
    /// The root node.
    pub fn root(&self) -> (r: usize)
        ensures
            r == 0,
    {
        0
    }

    /// The number of named children of node `i`.
    pub fn named_child_count(&self, i: usize) -> (n: usize)
        requires
            i < self.nodes@.len(),
        ensures
            n == self.nodes@[i as int].child_count,
    {
        self.nodes[i].child_count
    }

    /// The `k`-th named child of node `i`, or `None` when it has fewer children.
    pub fn named_child(&self, i: usize, k: usize) -> (r: Option<usize>)
        requires
            tree_wf(*self),
            i < self.nodes@.len(),
        ensures
            match r {
                Some(c) => k < self.nodes@[i as int].child_count && c == child_of(
                    *self,
                    i as int,
                    k as int,
                ) && c < self.nodes@.len(),
                None => k >= self.nodes@[i as int].child_count,
            },
    {
        let _len = self.nodes.len();
        let n = &self.nodes[i];
        assert(self.nodes@[i as int].first_child + self.nodes@[i as int].child_count <= self.nodes@.len());
        if k < n.child_count {
            Some(n.first_child + k)
        } else {
            None
        }
    }

    /// The kind of node `i`.
    pub fn kind(&self, i: usize) -> (r: &str)
        requires
            i < self.nodes@.len(),
        ensures
            r@ == self.nodes@[i as int].kind@,
    {
        self.nodes[i].kind.as_str()
    }

    /// The source range of node `i`.
    pub fn range(&self, i: usize) -> (r: TextRange)
        requires
            i < self.nodes@.len(),
        ensures
            r == self.nodes@[i as int].range,
    {
        self.nodes[i].range
    }

    /// The enclosing named node of node `i`, or `None` for the root.
    pub fn parent(&self, i: usize) -> (r: Option<usize>)
        requires
            tree_wf(*self),
            i < self.nodes@.len(),
        ensures
            r == self.nodes@[i as int].parent,
            r is Some ==> r->0 < i,
    {
        self.nodes[i].parent
    }
}

/// Child `c` can hold the byte range `[rs, re]`: it reaches its end, and goes past its start
/// (or, when empty, reaches its start).
pub open spec fn byte_child_reaches(r: TextRange, rs: usize, re: usize) -> bool {
    &&& r.end_byte >= re
    &&& if r.start_byte == r.end_byte {
        r.end_byte >= rs
    } else {
        r.end_byte > rs
    }
}

/// The first child of node `n`, from position `k` on, that can hold `[rs, re]`.
pub open spec fn first_byte_child(t: SyntaxTree, n: int, rs: usize, re: usize, k: int) -> Option<int>
    decreases t.nodes@[n].child_count - k,
{
    if k < 0 || k >= t.nodes@[n].child_count {
        None
    } else if byte_child_reaches(t.nodes@[child_of(t, n, k)].range, rs, re) {
        Some(child_of(t, n, k))
    } else {
        first_byte_child(t, n, rs, re, k + 1)
    }
}

/// The node that the search for `[rs, re]` ends on, descending from node `n`: into the first
/// child that can hold the range, as long as that child starts at or before `rs`.
pub open spec fn byte_descent(t: SyntaxTree, n: int, rs: usize, re: usize) -> int
    decreases t.nodes@.len() - n,
{
    match first_byte_child(t, n, rs, re, 0) {
        Some(c) => if n < c < t.nodes@.len() && t.nodes@[c].range.start_byte <= rs {
            byte_descent(t, c, rs, re)
        } else {
            n
        },
        None => n,
    }
}

/// Child `c` can hold the point range `[ps, pe]` (the point form of `byte_child_reaches`).
pub open spec fn point_child_reaches(r: TextRange, ps: Point, pe: Point) -> bool {
    &&& !point_lt(r.end_point, pe)
    &&& if r.start_point == r.end_point {
        !point_lt(r.end_point, ps)
    } else {
        !point_le(r.end_point, ps)
    }
}

/// The first child of node `n`, from position `k` on, that can hold `[ps, pe]`.
pub open spec fn first_point_child(t: SyntaxTree, n: int, ps: Point, pe: Point, k: int) -> Option<int>
    decreases t.nodes@[n].child_count - k,
{
    if k < 0 || k >= t.nodes@[n].child_count {
        None
    } else if point_child_reaches(t.nodes@[child_of(t, n, k)].range, ps, pe) {
        Some(child_of(t, n, k))
    } else {
        first_point_child(t, n, ps, pe, k + 1)
    }
}

/// The point form of `byte_descent`.
pub open spec fn point_descent(t: SyntaxTree, n: int, ps: Point, pe: Point) -> int
    decreases t.nodes@.len() - n,
{
    match first_point_child(t, n, ps, pe, 0) {
        Some(c) => if n < c < t.nodes@.len() && !point_lt(ps, t.nodes@[c].range.start_point) {
            point_descent(t, c, ps, pe)
        } else {
            n
        },
        None => n,
    }
}

impl SyntaxTree {
    /// The smallest named node that spans the byte range `[start, end]`, found by descending
    /// from the root; `None` when `start > end`.
    pub fn named_descendant_for_byte_range(&self, start: usize, end: usize) -> (r: Option<usize>)
        requires
            tree_wf(*self),
        ensures
            start > end ==> r is None,
            start <= end ==> r == Some(byte_descent(*self, 0, start, end) as usize),
    {
        if start > end {
            return None;
        }
        let ghost t = *self;
        let n_nodes = self.nodes.len();
        let mut node: usize = 0;
        loop
            invariant
                n_nodes == self.nodes@.len(),
                t == *self,
                tree_wf(t),
                node < self.nodes@.len(),
                byte_descent(t, 0, start, end) == byte_descent(t, node as int, start, end),
                start <= end,
            decreases self.nodes@.len() - node,
        {
            let count = self.nodes[node].child_count;
            let first = self.nodes[node].first_child;
            assert(node < first && first + count <= self.nodes@.len());
            let mut k: usize = 0;
            let mut found: Option<usize> = None;
            while k < count && found.is_none()
                invariant
                    n_nodes == self.nodes@.len(),
                    t == *self,
                    tree_wf(t),
                    node < self.nodes@.len(),
                    count == self.nodes@[node as int].child_count,
                    first == self.nodes@[node as int].first_child,
                    k <= count,
                    node < first,
                    first + count <= self.nodes@.len(),
                    found is Some ==> node < found->0 < self.nodes@.len(),
                    found is None ==> first_byte_child(t, node as int, start, end, 0)
                        == first_byte_child(t, node as int, start, end, k as int),
                    found is Some ==> first_byte_child(t, node as int, start, end, 0) == Some(
                        found->0 as int,
                    ),
                decreases count - k + (if found is None { 1int } else { 0int }),
            {
                let c = first + k;
                let r = self.nodes[c].range;
                let reaches = r.end_byte >= end && if r.start_byte == r.end_byte {
                    r.end_byte >= start
                } else {
                    r.end_byte > start
                };
                if reaches {
                    found = Some(c);
                } else {
                    k = k + 1;
                }
            }
            proof {
                if found is None {
                    assert(first_byte_child(t, node as int, start, end, k as int) is None);
                }
            }
            match found {
                Some(c) => {
                    if self.nodes[c].range.start_byte <= start {
                        node = c;
                    } else {
                        return Some(node);
                    }
                },
                None => {
                    return Some(node);
                },
            }
        }
    }

    /// The smallest named node that spans the point range `[start, end]`, found by descending
    /// from the root; `None` when `start` comes after `end`.
    pub fn named_descendant_for_point_range(&self, start: Point, end: Point) -> (r: Option<usize>)
        requires
            tree_wf(*self),
        ensures
            point_lt(end, start) ==> r is None,
            !point_lt(end, start) ==> r == Some(point_descent(*self, 0, start, end) as usize),
    {
        if end.row < start.row || (end.row == start.row && end.column < start.column) {
            return None;
        }
        let ghost t = *self;
        let n_nodes = self.nodes.len();
        let mut node: usize = 0;
        loop
            invariant
                n_nodes == self.nodes@.len(),
                t == *self,
                tree_wf(t),
                node < self.nodes@.len(),
                point_descent(t, 0, start, end) == point_descent(t, node as int, start, end),
                !point_lt(end, start),
            decreases self.nodes@.len() - node,
        {
            let count = self.nodes[node].child_count;
            let first = self.nodes[node].first_child;
            assert(node < first && first + count <= self.nodes@.len());
            let mut k: usize = 0;
            let mut found: Option<usize> = None;
            while k < count && found.is_none()
                invariant
                    n_nodes == self.nodes@.len(),
                    t == *self,
                    tree_wf(t),
                    node < self.nodes@.len(),
                    count == self.nodes@[node as int].child_count,
                    first == self.nodes@[node as int].first_child,
                    k <= count,
                    node < first,
                    first + count <= self.nodes@.len(),
                    found is Some ==> node < found->0 < self.nodes@.len(),
                    found is None ==> first_point_child(t, node as int, start, end, 0)
                        == first_point_child(t, node as int, start, end, k as int),
                    found is Some ==> first_point_child(t, node as int, start, end, 0) == Some(
                        found->0 as int,
                    ),
                decreases count - k + (if found is None { 1int } else { 0int }),
            {
                let c = first + k;
                let r = self.nodes[c].range;
                let e = r.end_point;
                let end_before_end = e.row < end.row || (e.row == end.row && e.column < end.column);
                let reaches = !end_before_end && if r.start_point == r.end_point {
                    !(e.row < start.row || (e.row == start.row && e.column < start.column))
                } else {
                    !(e.row < start.row || (e.row == start.row && e.column <= start.column))
                };
                if reaches {
                    found = Some(c);
                } else {
                    k = k + 1;
                }
            }
            proof {
                if found is None {
                    assert(first_point_child(t, node as int, start, end, k as int) is None);
                }
            }
            match found {
                Some(c) => {
                    let s = self.nodes[c].range.start_point;
                    if !(start.row < s.row || (start.row == s.row && start.column < s.column)) {
                        node = c;
                    } else {
                        return Some(node);
                    }
                },
                None => {
                    return Some(node);
                },
            }
        }
    }
}

/// `paths[i]` leads from the root of the ObjectScript class grammar's parse of `text` to node
/// `i` of `t`, and `t` holds what the parse says of that node: its kind, its range and (unless
/// the tree filled the address space) all its named children, which follow one another in
/// order; the nodes are laid out breadth-first from the root.
pub open spec fn tree_follows_paths(t: SyntaxTree, text: Seq<char>, paths: Seq<Seq<int>>) -> bool {
    let ns = t.nodes@;
    &&& paths.len() == ns.len()
    &&& ns.len() > 0
    &&& paths[0] == Seq::<int>::empty()
    &&& t.has_error == syntax_has_error(text, paths[0])
    &&& ns[0].first_child == 1
    &&& forall|i: int|
        0 <= i < ns.len() ==> {
            &&& (#[trigger] ns[i]).kind@ == syntax_kind(text, paths[i])
            &&& ns[i].range == syntax_range(text, paths[i])
            &&& ns.len() < usize::MAX ==> ns[i].child_count == syntax_named_child_count(text, paths[i])
            &&& i > 0 ==> ns[i].first_child == ns[i - 1].first_child + ns[i - 1].child_count
        }
    &&& forall|i: int, k: int|
        0 <= i < ns.len() && 0 <= k < ns[i].child_count ==> #[trigger] paths[ns[i].first_child + k]
            == paths[i].push(k)
}

/// `t` is the tree of named nodes of the ObjectScript class grammar's parse of `text`.
pub open spec fn source_tree(t: SyntaxTree, text: Seq<char>) -> bool {
    exists|paths: Seq<Seq<int>>| #[trigger] tree_follows_paths(t, text, paths)
}

/// `t` is a well-formed tree of the named nodes of the parse of `text`.
pub open spec fn parsed_as(t: SyntaxTree, text: Seq<char>) -> bool {
    tree_wf(t) && source_tree(t, text)
}

/// Parses `text` with the ObjectScript class grammar into its tree of named nodes.
pub fn parse_source(text: &str) -> (r: Option<SyntaxTree>)
    ensures
        r is Some,
        r is Some ==> parsed_as(r->0, text@),
{
    let parser = ts_new_parser();
    let mut parser = match ts_set_objectscript_language(parser) {
        Some(p) => p,
        None => return None,
    };
    let tree = match ts_parse(&mut parser, text) {
        Some(t) => t,
        None => return None,
    };
    let root = ts_root_node(&tree);
    let has_error = ts_has_error(&root);
    Some(collect_named_nodes(root, has_error))
}

/// Lays out the named nodes under `root` breadth-first.
fn collect_named_nodes<'tree>(root: SyntaxCursor<'tree>, has_error: bool) -> (t: SyntaxTree)
    requires
        root@.1 == Seq::<int>::empty(),
        has_error == syntax_has_error(root@.0, root@.1),
    ensures
        tree_wf(t),
        source_tree(t, root@.0),
{
    let ghost text = root@.0;
    let mut queue: Vec<(SyntaxCursor<'tree>, Option<usize>)> = Vec::new();
    queue.push((root, None));
    let mut nodes: Vec<SyntaxNode> = Vec::new();
    let mut h: usize = 0;
    while h < queue.len()
        invariant
            h == nodes@.len(),
            h <= queue@.len(),
            queue@.len() > 0,
            queue@[0].1 is None,
            queue@[0].0@.1 == Seq::<int>::empty(),
            has_error == syntax_has_error(text, Seq::<int>::empty()),
            forall|j: int| 0 <= j < queue@.len() ==> (#[trigger] queue@[j]).0@.0 == text,
            forall|j: int| 0 < j < queue@.len() ==> (#[trigger] queue@[j]).1 is Some && queue@[j].1->0 < j,
            forall|j: int| 0 <= j < h ==> (#[trigger] nodes@[j]).parent == queue@[j].1,
            forall|j: int|
                0 <= j < h ==> j < (#[trigger] nodes@[j]).first_child && nodes@[j].first_child
                    + nodes@[j].child_count <= queue@.len(),
            forall|j: int|
                0 <= j < h ==> {
                    &&& (#[trigger] nodes@[j]).kind@ == syntax_kind(text, queue@[j].0@.1)
                    &&& nodes@[j].range == syntax_range(text, queue@[j].0@.1)
                    &&& queue@.len() < usize::MAX ==> nodes@[j].child_count
                        == syntax_named_child_count(text, queue@[j].0@.1)
                    &&& j > 0 ==> nodes@[j].first_child == nodes@[j - 1].first_child
                        + nodes@[j - 1].child_count
                },
            h == 0 ==> queue@.len() == 1,
            h > 0 ==> nodes@[0].first_child == 1,
            h > 0 ==> queue@.len() == nodes@[h - 1].first_child + nodes@[h - 1].child_count,
            forall|j: int, k: int|
                0 <= j < h && 0 <= k < nodes@[j].child_count ==> #[trigger] queue@[nodes@[j].first_child
                    + k].1 == Some(j as usize),
            forall|j: int, k: int|
                0 <= j < h && 0 <= k < nodes@[j].child_count ==> #[trigger] queue@[nodes@[j].first_child
                    + k].0@.1 == queue@[j].0@.1.push(k),
            forall|j: int| h <= j < queue@.len() ==> (#[trigger] queue@[j]).1 is Some ==> queue@[j].1->0 < h,
        decreases usize::MAX - h,
    {
        let node = queue[h].0;
        let parent = queue[h].1;
        let kind = ts_kind(&node);
        let range = ts_range(&node);
        let count = ts_named_child_count(&node);
        let first = queue.len();
        let ghost q0 = queue@;
        let mut pushed: usize = 0;
        let mut k: usize = 0;
        while k < count && queue.len() < usize::MAX
            invariant
                h < q0.len(),
                first == q0.len(),
                node == q0[h as int].0,
                node@.0 == text,
                count == syntax_named_child_count(text, node@.1),
                count <= u32::MAX,
                queue@.len() == first + pushed,
                queue@.subrange(0, first as int) == q0,
                forall|m: int| first <= m < queue@.len() ==> (#[trigger] queue@[m]).1 == Some(h),
                forall|m: int| first <= m < queue@.len() ==> (#[trigger] queue@[m]).0@ == (text, node@.1.push(m - first)),
                pushed == k,
                k <= count,
            decreases count - k,
        {
            match ts_named_child(&node, k as u32) {
                Some(c) => {
                    queue.push((c, Some(h)));
                    pushed = pushed + 1;
                },
                None => {},
            }
            k = k + 1;
        }
        proof {
            assert forall|j: int| 0 <= j < q0.len() implies #[trigger] queue@[j] == q0[j] by {
                assert(queue@.subrange(0, first as int)[j] == queue@[j]);
            }
        }
        nodes.push(
            SyntaxNode { kind, range, parent, first_child: first, child_count: pushed },
        );
        h = h + 1;
    }
    let t = SyntaxTree { nodes, has_error };
    let ghost paths = Seq::new(queue@.len(), |j: int| queue@[j].0@.1);
    proof {
        assert forall|i: int, k: int|
            0 <= i < t.nodes@.len() && 0 <= k < t.nodes@[i].child_count implies #[trigger] t.nodes@[t.nodes@[i].first_child
                + k].parent == Some(i as usize) by {
            let c = t.nodes@[i].first_child + k;
            assert(queue@[c].1 == Some(i as usize));
        }
        assert forall|i: int, k: int|
            0 <= i < t.nodes@.len() && 0 <= k < t.nodes@[i].child_count implies #[trigger] paths[t.nodes@[i].first_child
                + k] == paths[i].push(k) by {
            let c = t.nodes@[i].first_child + k;
            assert(queue@[c].0@.1 == queue@[i].0@.1.push(k));
        }
        assert(tree_follows_paths(t, text, paths));
    }
    t
}

/// The text of node `i` of `t`, as `content` holds it.
pub open spec fn node_text_ok(t: SyntaxTree, content: &str, i: int, r: Option<String>) -> bool {
    let range = t.nodes@[i].range;
    match r {
        Some(s) => byte_range_ok(content.spec_bytes(), range.start_byte as int, range.end_byte as int)
            && encode_utf8(s@) == content.spec_bytes().subrange(
            range.start_byte as int,
            range.end_byte as int,
        ),
        None => !byte_range_ok(
            content.spec_bytes(),
            range.start_byte as int,
            range.end_byte as int,
        ),
    }
}

impl SyntaxTree {
    /// The named children of node `i`, in order.
    pub fn named_children(&self, i: usize) -> (r: Vec<usize>)
        requires
            tree_wf(*self),
            i < self.nodes@.len(),
        ensures
            r@.len() == self.nodes@[i as int].child_count,
            forall|k: int| 0 <= k < r@.len() ==> #[trigger] r@[k] == child_of(*self, i as int, k),
            forall|k: int| 0 <= k < r@.len() ==> i < #[trigger] r@[k] < self.nodes@.len(),
    {
        let _len = self.nodes.len();
        let count = self.nodes[i].child_count;
        let first = self.nodes[i].first_child;
        assert(i < first && first + count <= self.nodes@.len());
        let mut r: Vec<usize> = Vec::new();
        let mut k: usize = 0;
        while k < count
            invariant
                count == self.nodes@[i as int].child_count,
                first == self.nodes@[i as int].first_child,
                i < first,
                first + count <= self.nodes@.len(),
                _len == self.nodes@.len(),
                k <= count,
                r@.len() == k,
                forall|m: int| 0 <= m < k ==> #[trigger] r@[m] == first + m,
            decreases count - k,
        {
            r.push(first + k);
            k = k + 1;
        }
        r
    }

    /// Whether node `i` is of kind `kind`.
    pub fn is_kind(&self, i: usize, kind: &str) -> (r: bool)
        requires
            i < self.nodes@.len(),
        ensures
            r == (self.nodes@[i as int].kind@ == kind@),
    {
        str_eq(self.nodes[i].kind.as_str(), kind)
    }

    /// The text of node `i` in `content`, or `None` when its range does not fit `content`.
    pub fn node_text(&self, content: &str, i: usize) -> (r: Option<String>)
        requires
            i < self.nodes@.len(),
        ensures
            node_text_ok(*self, content, i as int, r),
    {
        let range = self.nodes[i].range;
        get_string_at_byte_range(content, range.start_byte..range.end_byte)
    }
}

/// The bytes of `content` that node `n` spans.
pub open spec fn node_bytes(t: SyntaxTree, content: &str, n: int) -> Seq<u8> {
    let range = t.nodes@[n].range;
    content.spec_bytes().subrange(range.start_byte as int, range.end_byte as int)
}

/// The characters of `content` that node `n` spans.
pub open spec fn node_chars(t: SyntaxTree, content: &str, n: int) -> Seq<char> {
    decode_utf8(node_bytes(t, content, n))
}

/// A text read from node `n` holds the characters the node spans.
pub proof fn lemma_node_text_chars(t: SyntaxTree, content: &str, n: int, s: String)
    requires
        node_text_ok(t, content, n, Some(s)),
    ensures
        s@ == node_chars(t, content, n),
        encode_utf8(s@) == node_bytes(t, content, n),
{
    encode_utf8_decode_utf8(s@);
}

/// The first named child of the root of `t` of kind `class_definition`.
pub open spec fn first_class_definition(t: SyntaxTree, k: int) -> Option<int>
    decreases t.nodes@[0].child_count - k,
{
    if k < 0 || k >= t.nodes@[0].child_count {
        None
    } else if t.nodes@[child_of(t, 0, k)].kind@ == "class_definition"@ {
        Some(child_of(t, 0, k))
    } else {
        first_class_definition(t, k + 1)
    }
}

/// The first named child of the root that is a class definition, if any.
pub fn find_class_definition(tree: &SyntaxTree) -> (r: Option<usize>)
    requires
        tree_wf(*tree),
    ensures
        r is Some <==> first_class_definition(*tree, 0) is Some,
        r is Some ==> first_class_definition(*tree, 0) == Some(r->0 as int) && r->0
            < tree.nodes@.len(),
{
    let count = tree.named_child_count(0);
    let mut k: usize = 0;
    while k < count
        invariant
            tree_wf(*tree),
            count == tree.nodes@[0].child_count,
            k <= count,
            first_class_definition(*tree, 0) == first_class_definition(*tree, k as int),
        decreases count - k,
    {
        let c = match tree.named_child(0, k) {
            Some(c) => c,
            None => 0,
        };
        if tree.is_kind(c, "class_definition") {
            return Some(c);
        }
        k = k + 1;
    }
    None
}

/// `content` names a class: the tree has a class definition whose second named child has a
/// readable text.
pub open spec fn has_class_name(t: SyntaxTree, content: Seq<u8>) -> bool {
    match first_class_definition(t, 0) {
        Some(d) => t.nodes@[d].child_count > 1 && {
            let range = t.nodes@[child_of(t, d, 1)].range;
            byte_range_ok(content, range.start_byte as int, range.end_byte as int)
        },
        None => false,
    }
}

/// The characters of the class name in `content`: those of the second named child of its
/// class definition.
pub open spec fn class_name_chars(t: SyntaxTree, content: Seq<u8>) -> Seq<char> {
    let range = t.nodes@[child_of(t, first_class_definition(t, 0)->0, 1)].range;
    decode_utf8(content.subrange(range.start_byte as int, range.end_byte as int))
}

/// A class name read from `content` holds the characters of the name node.
pub proof fn lemma_class_name_chars(t: SyntaxTree, content: &str, name: String)
    requires
        first_class_definition(t, 0) is Some,
        node_text_ok(t, content, child_of(t, first_class_definition(t, 0)->0, 1), Some(name)),
    ensures
        name@ == class_name_chars(t, content.spec_bytes()),
{
    lemma_node_text_chars(t, content, child_of(t, first_class_definition(t, 0)->0, 1), name);
}

/// The name of the class that `content` defines: the text of the second named child of its
/// class definition.
pub fn get_class_name_from_root(content: &str, tree: &SyntaxTree) -> (r: Option<String>)
    requires
        tree_wf(*tree),
    ensures
        r is Some <==> has_class_name(*tree, content.spec_bytes()),
        r is Some ==> ({
            let d = first_class_definition(*tree, 0);
            &&& d is Some
            &&& tree.nodes@[d->0].child_count > 1
            &&& node_text_ok(*tree, content, child_of(*tree, d->0, 1), r)
        }),
        first_class_definition(*tree, 0) is None ==> r is None,
{
    let class_def = match find_class_definition(tree) {
        Some(d) => d,
        None => return None,
    };
    let name_node = match tree.named_child(class_def, 1) {
        Some(n) => n,
        None => return None,
    };
    tree.node_text(content, name_node)
}

/// The method definition reached by walking up from node `n`, at walk step `step`: the walk
/// stops with nothing after step 10, or at a class-level node, or at the root.
pub open spec fn enclosing_method_definition(t: SyntaxTree, n: int, step: int) -> Option<int>
    decreases 11 - step,
{
    if step > 10 || !(0 <= n < t.nodes@.len()) {
        None
    } else if t.nodes@[n].kind@ == "class_statement"@ || t.nodes@[n].kind@ == "class_definition"@
        || t.nodes@[n].kind@ == "class_body"@ {
        None
    } else if t.nodes@[n].kind@ == "method_definition"@ {
        Some(n)
    } else {
        match t.nodes@[n].parent {
            Some(p) => enclosing_method_definition(t, p as int, step + 1),
            None => None,
        }
    }
}

/// `r` is the name of the method that encloses node `n` (walk started at step `step`): the text
/// of the first named child of the enclosing method definition.
pub open spec fn enclosing_method_name_ok(t: SyntaxTree, content: &str, n: int, step: int, r: Option<String>) -> bool {
    match enclosing_method_definition(t, n, step) {
        Some(m) => if t.nodes@[m].child_count > 0 {
            node_text_ok(t, content, child_of(t, m, 0), r)
        } else {
            r is None
        },
        None => r is None,
    }
}

/// The name of the method whose definition encloses node `node`, found by walking up at most
/// a bounded number of parents; `None` when a class-level node is met first.
pub fn method_name_from_identifier_node(
    tree: &SyntaxTree,
    node: usize,
    content: &str,
    iteration: usize,
) -> (r: Option<String>)
    requires
        tree_wf(*tree),
        node < tree.nodes@.len(),
    ensures
        enclosing_method_name_ok(*tree, content, node as int, iteration as int, r),
    decreases 11 - iteration,
{
    if iteration > 10 {
        return None;
    }
    if tree.is_kind(node, "class_statement") || tree.is_kind(node, "class_definition")
        || tree.is_kind(node, "class_body") {
        return None;
    }
    if tree.is_kind(node, "method_definition") {
        let name_node = match tree.named_child(node, 0) {
            Some(n) => n,
            None => return None,
        };
        return tree.node_text(content, name_node);
    }
    match tree.parent(node) {
        Some(p) => method_name_from_identifier_node(tree, p, content, iteration + 1),
        None => None,
    }
}


/// The byte search ends on a node of the tree.
pub proof fn lemma_byte_descent_in_bounds(t: SyntaxTree, n: int, rs: usize, re: usize)
    requires
        0 <= n < t.nodes@.len(),
    ensures
        0 <= byte_descent(t, n, rs, re) < t.nodes@.len(),
    decreases t.nodes@.len() - n,
{
    match first_byte_child(t, n, rs, re, 0) {
        Some(c) => if n < c < t.nodes@.len() && t.nodes@[c].range.start_byte <= rs {
            lemma_byte_descent_in_bounds(t, c, rs, re);
        },
        None => {},
    }
}

/// The point search ends on a node of the tree.
pub proof fn lemma_point_descent_in_bounds(t: SyntaxTree, n: int, ps: Point, pe: Point)
    requires
        0 <= n < t.nodes@.len(),
    ensures
        0 <= point_descent(t, n, ps, pe) < t.nodes@.len(),
    decreases t.nodes@.len() - n,
{
    match first_point_child(t, n, ps, pe, 0) {
        Some(c) => if n < c < t.nodes@.len() && !point_lt(ps, t.nodes@[c].range.start_point) {
            lemma_point_descent_in_bounds(t, c, ps, pe);
        },
        None => {},
    }
}


impl SyntaxNode {
    /// A copy of this node.
    pub fn duplicate(&self) -> (r: Self)
        ensures
            r.kind@ == self.kind@,
            r.range == self.range,
            r.parent == self.parent,
            r.first_child == self.first_child,
            r.child_count == self.child_count,
    {
        SyntaxNode {
            kind: self.kind.clone(),
            range: self.range,
            parent: self.parent,
            first_child: self.first_child,
            child_count: self.child_count,
        }
    }
}

impl SyntaxTree {
    /// A copy of this tree, node for node.
    pub fn duplicate(&self) -> (r: Self)
        ensures
            r.nodes@.len() == self.nodes@.len(),
            forall|i: int| 0 <= i < r.nodes@.len() ==> {
                let a = #[trigger] r.nodes@[i];
                let b = self.nodes@[i];
                a.kind@ == b.kind@ && a.range == b.range && a.parent == b.parent && a.first_child
                    == b.first_child && a.child_count == b.child_count
            },
            r.has_error == self.has_error,
            tree_wf(*self) ==> tree_wf(r),
    {
        let mut nodes: Vec<SyntaxNode> = Vec::new();
        let mut i: usize = 0;
        while i < self.nodes.len()
            invariant
                i <= self.nodes@.len(),
                nodes@.len() == i,
                forall|j: int| 0 <= j < i ==> {
                    let a = #[trigger] nodes@[j];
                    let b = self.nodes@[j];
                    a.kind@ == b.kind@ && a.range == b.range && a.parent == b.parent && a.first_child
                        == b.first_child && a.child_count == b.child_count
                },
            decreases self.nodes@.len() - i,
        {
            nodes.push(self.nodes[i].duplicate());
            i = i + 1;
        }
        SyntaxTree { nodes, has_error: self.has_error }
    }
}

} // verus!
