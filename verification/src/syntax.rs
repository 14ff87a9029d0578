//! Syntax trees of Rust sources: tree-sitter parses, the library reads the result as a list
//! of nodes in pre-order, each with its depth below the root.
use vstd::prelude::*;
use crate::text::{opt_str, same_str};

verus! {

/// One node of a syntax tree, with what the extraction logic reads of it.
pub struct SyntaxNode {
    /// The grammar kind, such as `use_declaration` or `identifier`.
    pub kind: String,
    /// Whether the node is named in the grammar (punctuation and keywords are not).
    pub is_named: bool,
    /// The field of its parent under which the node stands, if any.
    pub field: Option<String>,
    /// The number of ancestors of the node.
    pub depth: usize,
    /// The source text the node covers, when that text is valid UTF-8.
    pub text: Option<String>,
    /// Row and column (both from 0) where the node starts.
    pub start: (usize, usize),
    /// Row and column (both from 0) where the node ends.
    pub end: (usize, usize),
}

/// A syntax tree: its nodes in pre-order, the root first.
pub struct SyntaxTree {
    pub nodes: Vec<SyntaxNode>,
}

#[verifier::external_type_specification]
#[verifier::external_body]
pub struct ExParser(tree_sitter::Parser);

/// A tree-sitter parser set up for the Rust grammar.
pub struct RustParser {
    inner: tree_sitter::Parser,
}

/// The nodes, in pre-order, of the tree that tree-sitter's Rust grammar gives `source`, or
/// `None` where tree-sitter gives no tree.
pub uninterp spec fn rust_syntax(source: Seq<char>) -> Option<Seq<SyntaxNode>>;

/// Creates a tree-sitter parser and sets the Rust grammar (`Parser::new`,
/// `Parser::set_language` with `tree_sitter_rust::LANGUAGE`). The claim is that this always
/// gives a parser: `set_language` refuses only a grammar whose ABI version lies outside
/// `MIN_COMPATIBLE_LANGUAGE_VERSION..=LANGUAGE_VERSION` (13 to 15 in tree-sitter 0.25), and
/// the Rust grammar of tree-sitter-rust 0.23 is generated with version 14. Nothing is claimed
/// of the parser beyond that.
#[verifier::external_body]
fn get_parser() -> (parser: Option<RustParser>)
    ensures
        parser is Some,
{
    let mut inner = tree_sitter::Parser::new();
    inner.set_language(&tree_sitter_rust::LANGUAGE.into()).ok()?;
    Some(RustParser { inner })
}

/// Parses `source` with tree-sitter (`Parser::parse` without an old tree) and reads the
/// tree's nodes in pre-order through a `TreeCursor` (`goto_descendant` over
/// `descendant_count`), taking of each node its kind, whether it is named, its field name,
/// its depth, its text (`Node::utf8_text`) and its start and end positions. The claim is
/// that the result depends on `source` alone: it is `rust_syntax(source)`.
#[verifier::external_body]
fn parse_source(parser: &mut RustParser, source: &str) -> (tree: Option<SyntaxTree>)
    ensures
        match tree {
            Some(t) => rust_syntax(source@) == Some(t.nodes@),
            None => rust_syntax(source@) is None,
        },
{
    let tree = parser.inner.parse(source, None)?;
    let mut cursor = tree.walk();
    let mut nodes = Vec::new();
    for index in 0..tree.root_node().descendant_count() {
        cursor.goto_descendant(index);
        let node = cursor.node();
        let (start, end) = (node.start_position(), node.end_position());
        nodes.push(SyntaxNode {
            kind: node.kind().to_string(), is_named: node.is_named(),
            field: cursor.field_name().map(String::from), depth: cursor.depth() as usize,
            text: node.utf8_text(source.as_bytes()).ok().map(String::from),
            start: (start.row, start.column), end: (end.row, end.column),
        });
    }
    Some(SyntaxTree { nodes })
}

impl RustParser {
    /// A parser for Rust sources. It is always given: tree-sitter accepts the Rust grammar's
    /// ABI version. What `parse` gives does not depend on the parser.
    pub fn new() -> (parser: Option<RustParser>)
        ensures
            parser is Some,
    {
        get_parser()
    }

    /// The syntax tree of `source`: its nodes in pre-order, or `None` where tree-sitter
    /// gives no tree.
    pub fn parse(&mut self, source: &str) -> (tree: Option<SyntaxTree>)
        ensures
            match tree {
                Some(t) => rust_syntax(source@) == Some(t.nodes@),
                None => rust_syntax(source@) is None,
            },
    {
        parse_source(self, source)
    }
}

/// The text of node `i`, when it has one.
pub open spec fn text_of(s: Seq<SyntaxNode>, i: int) -> Option<Seq<char>> {
    match s[i].text {
        Some(t) => Some(t@),
        None => None,
    }
}

/// Node `j` lies inside the subtree of node `a`: it comes after `a`, and every node from
/// just after `a` up to `j` is deeper than `a`.
pub open spec fn in_subtree(s: Seq<SyntaxNode>, a: int, j: int) -> bool {
    &&& 0 <= a < j < s.len()
    &&& forall|k: int| a < k <= j ==> #[trigger] s[k].depth > s[a].depth
}

/// The children of node `a` from position `j` on, scanning until the subtree of `a` ends;
/// when `named` holds, the named ones only.
pub open spec fn children_from(s: Seq<SyntaxNode>, a: int, j: int, named: bool) -> Seq<int>
    decreases s.len() - j,
{
    if j < 0 || j >= s.len() || s[j].depth <= s[a].depth {
        Seq::empty()
    } else {
        let here = if s[j].depth == s[a].depth + 1 && (!named || s[j].is_named) {
            seq![j]
        } else {
            Seq::empty()
        };
        here + children_from(s, a, j + 1, named)
    }
}

/// The children of node `a`, in order.
pub open spec fn children(s: Seq<SyntaxNode>, a: int) -> Seq<int> {
    children_from(s, a, a + 1, false)
}

/// The named children of node `a`, in order.
pub open spec fn named_children(s: Seq<SyntaxNode>, a: int) -> Seq<int> {
    children_from(s, a, a + 1, true)
}

/// The first of the given nodes that stands under the field `field`.
pub open spec fn first_with_field(s: Seq<SyntaxNode>, nodes: Seq<int>, field: Seq<char>) -> Option<
    int,
>
    decreases nodes.len(),
{
    if nodes.len() == 0 {
        None
    } else if s[nodes[0]].field matches Some(f) && f@ == field {
        Some(nodes[0])
    } else {
        first_with_field(s, nodes.drop_first(), field)
    }
}

/// The first of the given nodes of kind `kind`.
pub open spec fn first_of_kind(s: Seq<SyntaxNode>, nodes: Seq<int>, kind: Seq<char>) -> Option<int>
    decreases nodes.len(),
{
    if nodes.len() == 0 {
        None
    } else if s[nodes[0]].kind@ == kind {
        Some(nodes[0])
    } else {
        first_of_kind(s, nodes.drop_first(), kind)
    }
}

/// The first child of node `a` under the field `field` (`Node::child_by_field_name`).
pub open spec fn child_by_field(s: Seq<SyntaxNode>, a: int, field: Seq<char>) -> Option<int> {
    first_with_field(s, children(s, a), field)
}

/// The `n`-th named child of node `a` (`Node::named_child`).
pub open spec fn named_child(s: Seq<SyntaxNode>, a: int, n: int) -> Option<int> {
    let named = named_children(s, a);
    if 0 <= n < named.len() {
        Some(named[n])
    } else {
        None
    }
}

/// The first named child of node `a` of kind `kind`.
pub open spec fn find_named_child(s: Seq<SyntaxNode>, a: int, kind: Seq<char>) -> Option<int> {
    first_of_kind(s, named_children(s, a), kind)
}

/// The ancestors of a node at depth `d` that lie at or before position `j`, outermost first:
/// scanning backwards, each node shallower than every node seen since is the next ancestor.
pub open spec fn ancestors_upto(s: Seq<SyntaxNode>, j: int, d: int) -> Seq<int>
    decreases j + 1,
{
    if j < 0 || j >= s.len() {
        Seq::empty()
    } else if s[j].depth < d {
        ancestors_upto(s, j - 1, s[j].depth as int).push(j)
    } else {
        ancestors_upto(s, j - 1, d)
    }
}

/// The ancestors of node `i`, outermost first.
pub open spec fn ancestors(s: Seq<SyntaxNode>, i: int) -> Seq<int> {
    ancestors_upto(s, i - 1, s[i].depth as int)
}

/// The nodes of kind `kind` among the first `n`, in order.
pub open spec fn nodes_of_kind_upto(s: Seq<SyntaxNode>, kind: Seq<char>, n: int) -> Seq<int>
    decreases n,
{
    if n <= 0 {
        Seq::empty()
    } else {
        let before = nodes_of_kind_upto(s, kind, n - 1);
        if n - 1 < s.len() && s[n - 1].kind@ == kind {
            before.push(n - 1)
        } else {
            before
        }
    }
}

/// The nodes of kind `kind`, in order: what a tree-sitter query `(kind) @capture` captures.
pub open spec fn nodes_of_kind(s: Seq<SyntaxNode>, kind: Seq<char>) -> Seq<int> {
    nodes_of_kind_upto(s, kind, s.len() as int)
}

/// Node positions as plain integers.
pub open spec fn idx(v: Seq<usize>) -> Seq<int> {
    v.map_values(|x: usize| x as int)
}

impl SyntaxTree {
    /// The nodes of the tree.
    pub open spec fn spec_nodes(&self) -> Seq<SyntaxNode> {
        self.nodes@
    }

    /// Whether node `i` is of kind `kind`.
    pub fn kind_is(&self, i: usize, kind: &str) -> (b: bool)
        requires
            i < self.nodes@.len(),
        ensures
            b == (self.nodes@[i as int].kind@ == kind@),
    {
        same_str(self.nodes[i].kind.as_str(), kind)
    }

    /// The text of node `i`.
    pub fn text(&self, i: usize) -> (t: Option<String>)
        requires
            i < self.nodes@.len(),
        ensures
            opt_str(t) == text_of(self.nodes@, i as int),
    {
        match &self.nodes[i].text {
            Some(t) => Some(t.clone()),
            None => None,
        }
    }

    /// The children of node `a` (the named ones only, when `named` holds), in order.
    pub fn children_of(&self, a: usize, named: bool) -> (r: Vec<usize>)
        requires
            a < self.nodes@.len(),
        ensures
            idx(r@) == children_from(self.nodes@, a as int, a + 1, named),
            forall|k: int| 0 <= k < r@.len() ==> a < #[trigger] r@[k] < self.nodes@.len(),
    {
        let ghost s = self.nodes@;
        let n = self.nodes.len();
        let d = self.nodes[a].depth;
        let mut r: Vec<usize> = Vec::new();
        let mut j = a + 1;
        assert(idx(r@) =~= Seq::<int>::empty());
        while j < n && self.nodes[j].depth > d
            invariant
                s == self.nodes@,
                n == s.len(),
                a < n,
                d == s[a as int].depth,
                a + 1 <= j <= n,
                idx(r@) + children_from(s, a as int, j as int, named) == children_from(
                    s,
                    a as int,
                    a + 1,
                    named,
                ),
                forall|k: int| 0 <= k < r@.len() ==> a < #[trigger] r@[k] < j,
            decreases n - j,
        {
            let ghost rest = children_from(s, a as int, j + 1, named);
            if self.nodes[j].depth - 1 == d && (!named || self.nodes[j].is_named) {
                assert(children_from(s, a as int, j as int, named) == seq![j as int] + rest);
                let ghost before = idx(r@);
                r.push(j);
                assert(idx(r@) =~= before.push(j as int));
                assert(idx(r@) + rest =~= before + (seq![j as int] + rest));
            } else {
                assert(children_from(s, a as int, j as int, named) =~= rest);
            }
            j += 1;
        }
        assert(children_from(s, a as int, j as int, named) == Seq::<int>::empty());
        assert(idx(r@) + Seq::<int>::empty() =~= idx(r@));
        r
    }

    /// The first of `nodes` that stands under the field `field`.
    pub fn first_with_field_name(&self, nodes: &Vec<usize>, field: &str) -> (r: Option<usize>)
        requires
            forall|k: int| 0 <= k < nodes@.len() ==> #[trigger] nodes@[k] < self.nodes@.len(),
        ensures
            r matches Some(i) ==> first_with_field(self.nodes@, idx(nodes@), field@) == Some(
                i as int,
            ) && i < self.nodes@.len(),
            r is None ==> first_with_field(self.nodes@, idx(nodes@), field@) is None,
    {
        let ghost all = idx(nodes@);
        let mut k: usize = 0;
        assert(all.subrange(0, all.len() as int) =~= all);
        while k < nodes.len()
            invariant
                all == idx(nodes@),
                k <= nodes.len(),
                forall|m: int| 0 <= m < nodes@.len() ==> #[trigger] nodes@[m] < self.nodes@.len(),
                first_with_field(self.nodes@, all, field@) == first_with_field(
                    self.nodes@,
                    all.subrange(k as int, all.len() as int),
                    field@,
                ),
            decreases nodes.len() - k,
        {
            let ghost tail = all.subrange(k as int, all.len() as int);
            assert(tail.drop_first() =~= all.subrange(k + 1, all.len() as int));
            assert(tail[0] == nodes@[k as int] as int);
            let i = nodes[k];
            if let Some(f) = &self.nodes[i].field {
                if same_str(f.as_str(), field) {
                    return Some(i);
                }
            }
            k += 1;
        }
        None
    }

    /// The first child of node `a` under the field `field` (`Node::child_by_field_name`).
    pub fn child_by_field_name(&self, a: usize, field: &str) -> (r: Option<usize>)
        requires
            a < self.nodes@.len(),
        ensures
            r matches Some(i) ==> child_by_field(self.nodes@, a as int, field@) == Some(i as int)
                && i < self.nodes@.len(),
            r is None ==> child_by_field(self.nodes@, a as int, field@) is None,
    {
        let kids = self.children_of(a, false);
        self.first_with_field_name(&kids, field)
    }

    /// The `n`-th named child of node `a` (`Node::named_child`).
    pub fn named_child(&self, a: usize, n: usize) -> (r: Option<usize>)
        requires
            a < self.nodes@.len(),
        ensures
            r matches Some(i) ==> named_child(self.nodes@, a as int, n as int) == Some(i as int)
                && i < self.nodes@.len(),
            r is None ==> named_child(self.nodes@, a as int, n as int) is None,
    {
        let kids = self.children_of(a, true);
        if n < kids.len() {
            Some(kids[n])
        } else {
            None
        }
    }

    /// The first named child of node `a` of kind `kind`.
    pub fn find_named_child(&self, a: usize, kind: &str) -> (r: Option<usize>)
        requires
            a < self.nodes@.len(),
        ensures
            r matches Some(i) ==> find_named_child(self.nodes@, a as int, kind@) == Some(i as int)
                && i < self.nodes@.len(),
            r is None ==> find_named_child(self.nodes@, a as int, kind@) is None,
    {
        let kids = self.children_of(a, true);
        let ghost all = idx(kids@);
        let mut k: usize = 0;
        assert(all.subrange(0, all.len() as int) =~= all);
        while k < kids.len()
            invariant
                all == idx(kids@),
                all == named_children(self.nodes@, a as int),
                k <= kids.len(),
                forall|m: int| 0 <= m < kids@.len() ==> a < #[trigger] kids@[m] < self.nodes@.len(),
                first_of_kind(self.nodes@, all, kind@) == first_of_kind(
                    self.nodes@,
                    all.subrange(k as int, all.len() as int),
                    kind@,
                ),
            decreases kids.len() - k,
        {
            let ghost tail = all.subrange(k as int, all.len() as int);
            assert(tail.drop_first() =~= all.subrange(k + 1, all.len() as int));
            assert(tail[0] == kids@[k as int] as int);
            let i = kids[k];
            if self.kind_is(i, kind) {
                return Some(i);
            }
            k += 1;
        }
        None
    }

    /// The ancestors of node `i`, outermost first.
    pub fn ancestors_of(&self, i: usize) -> (r: Vec<usize>)
        requires
            i < self.nodes@.len(),
        ensures
            idx(r@) == ancestors(self.nodes@, i as int),
            forall|k: int| 0 <= k < r@.len() ==> #[trigger] r@[k] < i,
    {
        let ghost s = self.nodes@;
        let mut found: Vec<usize> = Vec::new();
        let mut d = self.nodes[i].depth;
        let mut k = i;
        assert(idx(found@) =~= Seq::<int>::empty());
        assert(ancestors(s, i as int) =~= ancestors_upto(s, k - 1, d as int) + idx(found@));
        while k > 0
            invariant
                s == self.nodes@,
                k <= i < s.len(),
                ancestors(s, i as int) == ancestors_upto(s, k - 1, d as int) + idx(found@),
                forall|m: int| 0 <= m < found@.len() ==> k <= #[trigger] found@[m] < i,
            decreases k,
        {
            let j = k - 1;
            if self.nodes[j].depth < d {
                let ghost up = ancestors_upto(s, j - 1, s[j as int].depth as int);
                let ghost before = idx(found@);
                assert(ancestors_upto(s, j as int, d as int) == up.push(j as int));
                found.insert(0, j);
                assert(idx(found@) =~= seq![j as int] + before);
                assert(up.push(j as int) + before =~= up + idx(found@));
                d = self.nodes[j].depth;
            }
            k = j;
        }
        assert(ancestors_upto(s, -1, d as int) == Seq::<int>::empty());
        assert(Seq::<int>::empty() + idx(found@) =~= idx(found@));
        found
    }

    /// The nodes of kind `kind`, in order.
    pub fn nodes_of_kind(&self, kind: &str) -> (r: Vec<usize>)
        ensures
            idx(r@) == nodes_of_kind(self.nodes@, kind@),
            forall|k: int| 0 <= k < r@.len() ==> #[trigger] r@[k] < self.nodes@.len(),
    {
        let mut r: Vec<usize> = Vec::new();
        let mut j: usize = 0;
        assert(idx(r@) =~= Seq::<int>::empty());
        while j < self.nodes.len()
            invariant
                j <= self.nodes@.len(),
                idx(r@) == nodes_of_kind_upto(self.nodes@, kind@, j as int),
                forall|k: int| 0 <= k < r@.len() ==> #[trigger] r@[k] < j,
            decreases self.nodes@.len() - j,
        {
            if self.kind_is(j, kind) {
                let ghost before = idx(r@);
                r.push(j);
                assert(idx(r@) =~= before.push(j as int));
            }
            j += 1;
        }
        r
    }
}

} // verus!
