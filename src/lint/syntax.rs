use vstd::prelude::*;

verus! {

/// One node of a parsed file, with what the rules read of it.
#[derive(Debug, Clone, Copy, PartialEq, Eq)]
pub struct SyntaxNode {
    /// The grammar's tag for the node, e.g. "call" or "identifier".
    pub kind: &'static str,
    /// Offset of the node's first byte in the source text.
    pub start_byte: usize,
    /// Offset one past the node's last byte in the source text.
    pub end_byte: usize,
    /// Zero-based row of the node's first byte.
    pub row: usize,
    /// Zero-based byte column of the node's first byte within its row.
    pub column: usize,
    /// Index of the parent node; `None` at the root.
    pub parent: Option<usize>,
    /// Index of the first child that stands in the field "function" (the
    /// callee of a call expression), if any.
    pub function: Option<usize>,
}

/// A parsed file. `from_tree` records the nodes in the order in which
/// tree-sitter's cursor visits them (depth first, parents before children);
/// what `wf` guarantees is that every node comes after its parent and before
/// its callee.
pub struct SyntaxTree {
    pub nodes: Vec<SyntaxNode>,
}

/// Node `i` of `ns` points only at an earlier parent and at a later child of
/// its own.
pub open spec fn node_wf(ns: Seq<SyntaxNode>, i: int) -> bool {
    &&& (ns[i].parent matches Some(p) ==> p < i)
    &&& (ns[i].function matches Some(f) ==> i < f < ns.len() && ns[f as int].parent == Some(i as usize))
}

impl SyntaxTree {
    /// Every node is well formed.
    pub open spec fn wf(&self) -> bool {
        forall|i: int| 0 <= i < self.nodes@.len() ==> #[trigger] node_wf(self.nodes@, i)
    }

    /// Records the nodes of a tree-sitter tree, in pre-order.
    pub fn from_tree(tree: &tree_sitter::Tree) -> (r: SyntaxTree)
        ensures
            r.wf(),
            r.nodes@.len() >= 1,
            r.nodes@[0].parent is None,
    {
        let root = root_node(tree);
        let total = descendant_count(&root);
        let mut cursor = walk(&root);
        let mut nodes: Vec<SyntaxNode> = Vec::new();
        let mut path: Vec<usize> = Vec::new();
        let mut more = true;
        while more && nodes.len() < total
            invariant
                forall|i: int| 0 <= i < nodes@.len() ==> #[trigger] node_wf(nodes@, i),
                forall|k: int| 0 <= k < path@.len() ==> #[trigger] path@[k] < nodes@.len(),
                total >= 1,
                nodes@.len() == 0 ==> more && path@.len() == 0,
                nodes@.len() >= 1 ==> nodes@[0].parent is None,
            decreases total - nodes.len(),
        {
            let node = cursor_node(&cursor);
            let field = cursor_field_name(&cursor);
            let index = nodes.len();
            let parent = if path.len() > 0 {
                Some(path[path.len() - 1])
            } else {
                None
            };
            let (row, column) = node_start_position(&node);
            let ghost pushed_onto = nodes@;
            nodes.push(
                SyntaxNode {
                    kind: node_kind(&node),
                    start_byte: node_start_byte(&node),
                    end_byte: node_end_byte(&node),
                    row,
                    column,
                    parent,
                    function: None,
                },
            );
            assert forall|i: int| 0 <= i < nodes@.len() implies #[trigger] node_wf(nodes@, i) by {
                if i < index {
                    assert(node_wf(pushed_onto, i));
                }
            }
            if let (Some(p), Some(name)) = (parent, field) {
                if same_text(name, "function") && nodes[p].function.is_none() {
                    let ghost before = nodes@;
                    let mut owner = nodes[p];
                    owner.function = Some(index);
                    nodes.set(p, owner);
                    assert(nodes@[0].parent == before[0].parent);
                    assert forall|i: int| 0 <= i < nodes@.len() implies #[trigger] node_wf(nodes@, i) by {
                        assert(node_wf(before, i));
                    }
                }
            }
            if goto_first_child(&mut cursor) {
                path.push(index);
            } else {
                loop
                    invariant
                        forall|k: int| 0 <= k < path@.len() ==> #[trigger] path@[k] < nodes@.len(),
                    ensures
                        forall|k: int| 0 <= k < path@.len() ==> #[trigger] path@[k] < nodes@.len(),
                    decreases path.len(),
                {
                    if goto_next_sibling(&mut cursor) {
                        break;
                    }
                    if path.len() == 0 || !goto_parent(&mut cursor) {
                        more = false;
                        break;
                    }
                    path.pop();
                }
            }
        }
        SyntaxTree { nodes }
    }
}

/// Whether two texts are the same.
pub fn same_text(a: &str, b: &str) -> (r: bool)
    ensures
        r == (a@ == b@),
{
    a.to_owned() == b.to_owned()
}

/// Whether `m` occurs in `s` at offset `i`.
pub fn bytes_match_at(s: &[u8], i: usize, m: &[u8]) -> (r: bool)
    requires
        i + m@.len() <= s@.len(),
    ensures
        r == (s@.subrange(i as int, i + m@.len()) == m@),
{
    let len = s.len();
    let mut k: usize = 0;
    while k < m.len()
        invariant
            len == s@.len(),
            k <= m@.len(),
            i + m@.len() <= s@.len(),
            forall|t: int| 0 <= t < k ==> s@[i + t] == m@[t],
        decreases m.len() - k,
    {
        if s[i + k] != m[k] {
            assert(s@.subrange(i as int, i + m@.len())[k as int] != m@[k as int]);
            return false;
        }
        k = k + 1;
    }
    assert(s@.subrange(i as int, i + m@.len()) =~= m@);
    true
}

#[verifier::external_type_specification]
#[verifier::external_body]
pub struct ExParser(tree_sitter::Parser);

#[verifier::external_type_specification]
#[verifier::external_body]
pub struct ExTree(tree_sitter::Tree);

#[verifier::external_type_specification]
#[verifier::external_body]
pub struct ExNode<'tree>(tree_sitter::Node<'tree>);

#[verifier::external_type_specification]
#[verifier::external_body]
pub struct ExTreeCursor<'cursor>(tree_sitter::TreeCursor<'cursor>);

/// Relies on `tree_sitter::Parser::new`, `Parser::set_language` and
/// `Parser::parse`: the Python grammar of `tree_sitter_python` has an ABI
/// version that this tree-sitter accepts, and a parser with a language, no
/// timeout and no cancellation flag always returns a tree, with error nodes
/// where the text is malformed.
#[verifier::external_body]
pub(crate) fn parse_python(source: &str) -> (r: Option<tree_sitter::Tree>)
    ensures
        r is Some,
{
    let mut parser = tree_sitter::Parser::new();
    parser.set_language(&tree_sitter_python::LANGUAGE.into()).ok()?;
    parser.parse(source, None)
}

/// Relies on `tree_sitter::Tree::root_node`.
#[verifier::external_body]
fn root_node<'tree>(tree: &'tree tree_sitter::Tree) -> (r: tree_sitter::Node<'tree>) {
    tree.root_node()
}

/// Relies on `tree_sitter::Node::descendant_count`: the number of nodes in the
/// subtree, the node itself included.
#[verifier::external_body]
fn descendant_count(node: &tree_sitter::Node) -> (r: usize)
    ensures
        r >= 1,
{
    node.descendant_count()
}

/// Relies on `tree_sitter::Node::walk`: a cursor placed on the node.
#[verifier::external_body]
fn walk<'tree>(node: &tree_sitter::Node<'tree>) -> (r: tree_sitter::TreeCursor<'tree>) {
    node.walk()
}

/// Relies on `tree_sitter::TreeCursor::node`: the node under the cursor.
#[verifier::external_body]
fn cursor_node<'tree>(cursor: &tree_sitter::TreeCursor<'tree>) -> (r: tree_sitter::Node<'tree>) {
    cursor.node()
}

/// Relies on `tree_sitter::TreeCursor::field_name`: the field under which the
/// current node stands in its parent, if any.
#[verifier::external_body]
fn cursor_field_name(cursor: &tree_sitter::TreeCursor) -> (r: Option<&'static str>) {
    cursor.field_name()
}

/// Relies on `tree_sitter::TreeCursor::goto_first_child`.
#[verifier::external_body]
fn goto_first_child(cursor: &mut tree_sitter::TreeCursor) -> (r: bool) {
    cursor.goto_first_child()
}

/// Relies on `tree_sitter::TreeCursor::goto_next_sibling`.
#[verifier::external_body]
fn goto_next_sibling(cursor: &mut tree_sitter::TreeCursor) -> (r: bool) {
    cursor.goto_next_sibling()
}

/// Relies on `tree_sitter::TreeCursor::goto_parent`.
#[verifier::external_body]
fn goto_parent(cursor: &mut tree_sitter::TreeCursor) -> (r: bool) {
    cursor.goto_parent()
}

/// Relies on `tree_sitter::Node::kind`: the grammar's name for the node.
#[verifier::external_body]
fn node_kind(node: &tree_sitter::Node) -> (r: &'static str) {
    node.kind()
}

/// Relies on `tree_sitter::Node::start_byte`, which widens a `u32` offset.
#[verifier::external_body]
fn node_start_byte(node: &tree_sitter::Node) -> (r: usize)
    ensures
        r <= u32::MAX,
{
    node.start_byte()
}

/// Relies on `tree_sitter::Node::end_byte`, which widens a `u32` offset.
#[verifier::external_body]
fn node_end_byte(node: &tree_sitter::Node) -> (r: usize)
    ensures
        r <= u32::MAX,
{
    node.end_byte()
}

/// Relies on `tree_sitter::Node::start_position`: the zero-based row and
/// column, each widened from a `u32`.
#[verifier::external_body]
fn node_start_position(node: &tree_sitter::Node) -> (r: (usize, usize))
    ensures
        r.0 <= u32::MAX,
        r.1 <= u32::MAX,
{
    let p = node.start_position();
    (p.row, p.column)
}

} // verus!
