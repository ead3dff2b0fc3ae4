//! Syntax trees as the chunkers read them: tree-sitter parses the source,
//! and the tree is handed over as its nodes in document order, each with
//! its kind, byte range, the field it fills in its parent and its depth.
//! Navigation (children, fields, ancestors) is verified over that list.
use vstd::prelude::*;
use crate::spans::byte_slice_text;
use crate::text::utf8_lossy_spec;

verus! {

/// A syntax-tree node as the contracts see it.
pub struct NodeView {
    pub kind: Seq<char>,
    pub named: bool,
    pub start: usize,
    pub end: usize,
    pub field: Option<Seq<char>>,
    pub depth: usize,
}

/// A syntax-tree node: its kind, whether it is named, its byte range, the
/// field it fills in its parent and its depth below the root.
#[derive(Debug, Clone, PartialEq)]
pub struct SyntaxNode {
    pub kind: String,
    pub named: bool,
    pub start: usize,
    pub end: usize,
    pub field: Option<String>,
    pub depth: usize,
}

impl View for SyntaxNode {
    type V = NodeView;

    open spec fn view(&self) -> NodeView {
        NodeView {
            kind: self.kind@,
            named: self.named,
            start: self.start,
            end: self.end,
            field: crate::chunk_types::opt_view(self.field),
            depth: self.depth,
        }
    }
}

pub open spec fn nodes_view(v: Seq<SyntaxNode>) -> Seq<NodeView> {
    Seq::new(v.len(), |i: int| v[i]@)
}

/// The nodes, in document order, of the tree tree-sitter's Java grammar
/// parses the source into; `None` when parsing gives no tree.
pub uninterp spec fn java_syntax_spec(source: Seq<u8>) -> Option<Seq<NodeView>>;

/// `Parser::parse` with the Java grammar, the tree walked in document order
/// with a `TreeCursor` (`kind`, `is_named`, `start_byte`, `end_byte`,
/// `field_name`, `depth` of each node). The contract names the result: a
/// function of the source alone.
#[verifier::external_body]
pub(crate) fn parse_java(source: &[u8]) -> (r: Option<Vec<SyntaxNode>>)
    ensures
        match r {
            Some(v) => java_syntax_spec(source@) == Some(nodes_view(v@)),
            None => java_syntax_spec(source@) is None,
        },
{
    let mut parser = tree_sitter::Parser::new();
    parser.set_language(&tree_sitter_java::LANGUAGE.into()).ok()?;
    let tree = parser.parse(source, None)?;
    let (mut c, mut out) = (tree.walk(), Vec::new());
    loop {
        let n = c.node();
        out.push(SyntaxNode { kind: n.kind().into(), named: n.is_named(), start: n.start_byte(), end: n.end_byte(), field: c.field_name().map(Into::into), depth: c.depth() as usize });
        if !c.goto_first_child() {
            while !c.goto_next_sibling() {
                if !c.goto_parent() {
                    return Some(out);
                }
            }
        }
    }
}

// ---------------------------------------------------------------------------
// Navigation
// ---------------------------------------------------------------------------

/// The source text of a node (invalid UTF-8 replaced), empty when its
/// range does not lie in the source.
pub open spec fn node_text(src: Seq<u8>, n: NodeView) -> Seq<char> {
    if n.start > n.end || n.end > src.len() {
        Seq::empty()
    } else {
        utf8_lossy_spec(src.subrange(n.start as int, n.end as int))
    }
}

/// The first child of node `i` filling field `f`, looking from node `j` on
/// (the children of `i` are the nodes one level deeper up to the first node
/// that is not deeper than `i`).
pub open spec fn field_child_from(t: Seq<NodeView>, i: int, f: Seq<char>, j: int) -> Option<int>
    decreases t.len() - j,
{
    if j < 0 || j >= t.len() || t[j].depth <= t[i].depth {
        None
    } else if t[j].depth == t[i].depth + 1 && t[j].field == Some(f) {
        Some(j)
    } else {
        field_child_from(t, i, f, j + 1)
    }
}

/// The first child of node `i` filling field `f`.
pub open spec fn field_child(t: Seq<NodeView>, i: int, f: Seq<char>) -> Option<int> {
    field_child_from(t, i, f, i + 1)
}

/// The text of the first child of node `i` filling field `f`.
pub open spec fn field_text(t: Seq<NodeView>, src: Seq<u8>, i: int, f: Seq<char>) -> Option<Seq<char>> {
    match field_child(t, i, f) {
        Some(j) => Some(node_text(src, t[j])),
        None => None,
    }
}

/// The named children of node `i` from node `j` on, in order.
pub open spec fn named_children_from(t: Seq<NodeView>, i: int, j: int) -> Seq<int>
    decreases t.len() - j,
{
    if j < 0 || j >= t.len() || t[j].depth <= t[i].depth {
        Seq::empty()
    } else if t[j].depth == t[i].depth + 1 && t[j].named {
        seq![j] + named_children_from(t, i, j + 1)
    } else {
        named_children_from(t, i, j + 1)
    }
}

/// The named children of node `i`, in order.
pub open spec fn named_children(t: Seq<NodeView>, i: int) -> Seq<int> {
    named_children_from(t, i, i + 1)
}

/// The last node before node `j` at depth `k`: for a node at depth
/// greater than `k`, its ancestor at depth `k`.
pub open spec fn last_at_depth(t: Seq<NodeView>, k: int, j: int) -> Option<int>
    decreases j,
{
    if j <= 0 {
        None
    } else if t[j - 1].depth == k {
        Some(j - 1)
    } else {
        last_at_depth(t, k, j - 1)
    }
}

pub proof fn lemma_field_child_bounds(t: Seq<NodeView>, i: int, f: Seq<char>, j: int)
    requires
        0 <= i,
        i < j,
    ensures
        field_child_from(t, i, f, j) matches Some(c) ==> j <= c < t.len() && t[c].field == Some(f),
    decreases t.len() - j,
{
    if !(j < 0 || j >= t.len() || t[j].depth <= t[i].depth) && !(t[j].depth == t[i].depth + 1 && t[j].field == Some(f)) {
        lemma_field_child_bounds(t, i, f, j + 1);
    }
}

pub proof fn lemma_last_at_depth_bounds(t: Seq<NodeView>, k: int, j: int)
    requires
        j <= t.len(),
    ensures
        last_at_depth(t, k, j) matches Some(a) ==> 0 <= a < j && t[a].depth == k,
    decreases j,
{
    if j > 0 && t[j - 1].depth != k {
        lemma_last_at_depth_bounds(t, k, j - 1);
    }
}

/// The text of a node.
pub fn text_of(src: &[u8], n: &SyntaxNode) -> (r: String)
    ensures
        r@ == node_text(src@, n@),
{
    byte_slice_text(src, n.start, n.end)
}

/// The first child of node `i` filling field `f`.
pub fn field_child_of(t: &Vec<SyntaxNode>, i: usize, f: &str) -> (r: Option<usize>)
    requires
        i < t@.len(),
    ensures
        match r {
            Some(c) => field_child(nodes_view(t@), i as int, f@) == Some(c as int) && i < c < t@.len(),
            None => field_child(nodes_view(t@), i as int, f@) is None,
        },
{
    let ghost tv = nodes_view(t@);
    let d = t[i].depth;
    let n = t.len();
    let mut j = i + 1;
    while j < t.len()
        invariant
            i < j <= t@.len(),
            tv == nodes_view(t@),
            d == tv[i as int].depth,
            field_child_from(tv, i as int, f@, j as int) == field_child(tv, i as int, f@),
        decreases t.len() - j,
    {
        assert(tv[j as int] == t@[j as int]@);
        if t[j].depth <= d {
            return None;
        }
        if t[j].depth == d + 1 {
            match &t[j].field {
                Some(name) => {
                    if crate::text::str_eq(name.as_str(), f) {
                        return Some(j);
                    }
                },
                None => {},
            }
        }
        j += 1;
    }
    None
}

/// The text of the first child of node `i` filling field `f`.
pub fn field_text_of(t: &Vec<SyntaxNode>, src: &[u8], i: usize, f: &str) -> (r: Option<String>)
    requires
        i < t@.len(),
    ensures
        crate::chunk_types::opt_view(r) == field_text(nodes_view(t@), src@, i as int, f@),
{
    match field_child_of(t, i, f) {
        Some(c) => {
            assert(nodes_view(t@)[c as int] == t@[c as int]@);
            Some(text_of(src, &t[c]))
        },
        None => None,
    }
}

/// The named children of node `i`, in order.
pub fn named_children_of(t: &Vec<SyntaxNode>, i: usize) -> (r: Vec<usize>)
    requires
        i < t@.len(),
    ensures
        r@.len() == named_children(nodes_view(t@), i as int).len(),
        forall|k: int| 0 <= k < r@.len() ==> r@[k] as int == named_children(nodes_view(t@), i as int)[k] && #[trigger] r@[k] < t@.len(),
{
    let ghost tv = nodes_view(t@);
    let d = t[i].depth;
    let mut out: Vec<usize> = Vec::new();
    let n = t.len();
    let mut j = i + 1;
    while j < t.len() && t[j].depth > d
        invariant
            i < j <= t@.len(),
            tv == nodes_view(t@),
            d == tv[i as int].depth,
            out@.len() + named_children_from(tv, i as int, j as int).len() == named_children(tv, i as int).len(),
            forall|k: int| 0 <= k < out@.len() ==> out@[k] as int == named_children(tv, i as int)[k] && #[trigger] out@[k] < t@.len(),
            forall|k: int| 0 <= k < named_children_from(tv, i as int, j as int).len() ==> named_children_from(tv, i as int, j as int)[k] == named_children(tv, i as int)[out@.len() + k],
        decreases t.len() - j,
    {
        assert(tv[j as int] == t@[j as int]@);
        if t[j].depth == d + 1 && t[j].named {
            let ghost rest = named_children_from(tv, i as int, j + 1);
            assert(named_children_from(tv, i as int, j as int) == seq![j as int] + rest);
            assert(named_children_from(tv, i as int, j as int)[0] == j as int);
            out.push(j);
            assert forall|k: int| 0 <= k < rest.len() implies rest[k] == named_children(tv, i as int)[out@.len() + k] by {
                assert(named_children_from(tv, i as int, j as int)[k + 1] == rest[k]);
            }
        }
        j += 1;
    }
    proof {
        if j < t@.len() {
            assert(tv[j as int] == t@[j as int]@);
        }
        assert(named_children_from(tv, i as int, j as int).len() == 0);
    }
    out
}

/// For each depth `k`, the last node so far at depth `k`, kept while
/// walking the nodes in order.
pub open spec fn tracks_last(t: Seq<NodeView>, last: Seq<Option<usize>>, i: int) -> bool {
    &&& forall|k: int| 0 <= k < last.len() ==> match #[trigger] last[k] {
        Some(a) => last_at_depth(t, k, i) == Some(a as int),
        None => last_at_depth(t, k, i) is None,
    }
    &&& forall|k: int| k >= last.len() ==> #[trigger] last_at_depth(t, k, i) is None
}

/// Records node `i` as the last node at its depth.
pub fn track_node(t: &Vec<SyntaxNode>, last: &mut Vec<Option<usize>>, i: usize)
    requires
        i < t@.len(),
        tracks_last(nodes_view(t@), old(last)@, i as int),
    ensures
        tracks_last(nodes_view(t@), final(last)@, i + 1),
{
    let ghost tv = nodes_view(t@);
    let ghost old_last = last@;
    assert(tv[i as int] == t@[i as int]@);
    let d = t[i].depth;
    if d < last.len() {
        last.set(d, Some(i));
    } else {
        while last.len() < d
            invariant
                old_last.len() <= last@.len() <= d,
                forall|k: int| 0 <= k < old_last.len() ==> last@[k] == old_last[k],
                forall|k: int| old_last.len() <= k < last@.len() ==> last@[k] is None,
            decreases d - last.len(),
        {
            last.push(None);
        }
        last.push(Some(i));
    }
    assert forall|k: int| 0 <= k < last@.len() implies match #[trigger] last@[k] {
        Some(a) => last_at_depth(tv, k, i + 1) == Some(a as int),
        None => last_at_depth(tv, k, i + 1) is None,
    } by {
        assert(last_at_depth(tv, k, i + 1) == if tv[i as int].depth == k { Some(i as int) } else { last_at_depth(tv, k, i as int) });
        if k != d as int {
            if k < old_last.len() {
                assert(last@[k] == old_last[k]);
                assert(match old_last[k] {
                    Some(a) => last_at_depth(tv, k, i as int) == Some(a as int),
                    None => last_at_depth(tv, k, i as int) is None,
                });
            } else {
                assert(last_at_depth(tv, k, i as int) is None);
            }
        }
    }
    assert forall|k: int| k >= last@.len() implies #[trigger] last_at_depth(tv, k, i + 1) is None by {
        assert(last_at_depth(tv, k, i + 1) == if tv[i as int].depth == k { Some(i as int) } else { last_at_depth(tv, k, i as int) });
    }
}

} // verus!
