use vstd::prelude::*;

use crate::strings::str_eq;

verus! {

/// A syntax node as the resolver consumes it: the grammar kind of the
/// node, the source slice it covers, the field name under which its parent
/// holds it, its byte and row/column extent, and its children in source
/// order.
pub struct SyntaxNode {
    pub kind: String,
    pub text: String,
    pub field: Option<String>,
    pub start_byte: usize,
    pub end_byte: usize,
    pub start_row: usize,
    pub start_col: usize,
    pub end_row: usize,
    pub end_col: usize,
    pub children: Vec<SyntaxNode>,
}

#[verifier::external_type_specification]
#[verifier::external_body]
pub struct ExTree(tree_sitter::Tree);

#[verifier::external_type_specification]
#[verifier::external_body]
pub struct ExNode<'a>(tree_sitter::Node<'a>);

/// What parsing a source text with the GDScript grammar yields, converted
/// node for node into [`SyntaxNode`] records: the parser is deterministic,
/// so this is a function of the text alone. `None` stands for the parser
/// refusing to run (it accepts every text once its grammar is loaded).
pub uninterp spec fn parsed_tree(source: Seq<char>) -> Option<SyntaxNode>;

/// Copies one node of a parsed tree, and recursively its children, into
/// the plain record form. Relies on tree_sitter::Node's accessors
/// (kind, byte range, positions, field names, utf8_text); each field is
/// taken from the corresponding accessor unchanged.
#[verifier::external_body]
fn convert_node(node: tree_sitter::Node<'_>, source: &str, field: Option<String>) -> SyntaxNode {
    let mut children = Vec::new();
    for i in 0..node.child_count() {
        let child_field = node.field_name_for_child(i).map(|f| f.to_string());
        children.push(convert_node(node.child(i).unwrap(), source, child_field));
    }
    let (sp, ep) = (node.start_position(), node.end_position());
    SyntaxNode {
        kind: node.kind().to_string(),
        text: node.utf8_text(source.as_bytes()).unwrap_or_default().to_string(),
        field, children,
        start_byte: node.start_byte(), end_byte: node.end_byte(),
        start_row: sp.row, start_col: sp.column,
        end_row: ep.row, end_col: ep.column,
    }
}

/// The parser's own tree, paired with the (ghost) text the tree has
/// been brought in step with: fresh from a parse it is the parsed
/// text, and the store moves it along with each edit it reports to the
/// tree, in byte offsets and row/column points that exactly describe
/// the change. Reusing a tree as a parse hint is only sound for the
/// text its ghost names.
pub struct StoredTree {
    pub(crate) tree: tree_sitter::Tree,
    pub(crate) text: Ghost<Seq<char>>,
}

impl StoredTree {
    /// The text this tree has been kept in step with.
    pub closed spec fn spec_text(&self) -> Seq<char> {
        self.text@
    }
}

/// Relies on tree_sitter::Parser::parse with the GDScript grammar: for
/// a given text it is deterministic, and when the supplied old tree
/// has been edited to match `content` — which the `requires` demands
/// through the tree's ghost text, kept accurate by the store's edit
/// reporting — the result is the same tree as parsing the text from
/// scratch; the hint only speeds the parse up.
#[verifier::external_body]
fn parse_snapshot_raw(content: &str, old_tree: Option<&StoredTree>) -> (r: Option<
    (tree_sitter::Tree, SyntaxNode),
>)
    requires
        match old_tree {
            Some(t) => t.spec_text() == content@,
            None => true,
        },
    ensures
        match r {
            Some(p) => parsed_tree(content@) == Some(p.1),
            None => parsed_tree(content@) is None,
        },
{
    let mut parser = tree_sitter::Parser::new();
    parser.set_language(&tree_sitter_gdscript::LANGUAGE.into()).ok()?;
    let tree = parser.parse(content, old_tree.map(|t| &t.tree))?;
    let root = convert_node(tree.root_node(), content, None);
    Some((tree, root))
}

/// Parses `content`, optionally reusing a stored tree that has been
/// kept in step with it, and hands back the parser's tree (stamped
/// with the text it now matches) and its record form.
pub(crate) fn parse_snapshot(content: &str, old_tree: Option<&StoredTree>) -> (r: Option<
    (StoredTree, SyntaxNode),
>)
    requires
        match old_tree {
            Some(t) => t.spec_text() == content@,
            None => true,
        },
    ensures
        match r {
            Some(p) => parsed_tree(content@) == Some(p.1) && p.0.spec_text() == content@,
            None => parsed_tree(content@) is None,
        },
{
    match parse_snapshot_raw(content, old_tree) {
        Some((tree, root)) => Some((StoredTree { tree, text: Ghost(content@) }, root)),
        None => None,
    }
}

/// Parses a source text into the record form of its syntax tree.
pub fn parse_file(content: &str) -> (r: Option<SyntaxNode>)
    ensures
        r == parsed_tree(content@),
{
    match parse_snapshot(content, None) {
        Some((_stored, root)) => Some(root),
        None => None,
    }
}

/// `c` is one of `n`'s children.
pub open spec fn is_child_of(c: SyntaxNode, n: SyntaxNode) -> bool {
    exists|k: int| 0 <= k < n.children@.len() && c == n.children@[k]
}

/// A child is structurally below its parent, so recursion from a node
/// into a child terminates.
pub proof fn lemma_child_decreases(c: SyntaxNode, n: SyntaxNode)
    requires
        is_child_of(c, n),
    ensures
        decreases_to!(n => c),
{
    let k = choose|k: int| 0 <= k < n.children@.len() && c == n.children@[k];
    assert(decreases_to!(n => n.children@[k]));
}

/// The first child held under the given field name, if any.
pub open spec fn spec_child_by_field(n: SyntaxNode, name: Seq<char>) -> Option<SyntaxNode>
    decreases n.children@.len(),
{
    spec_child_by_field_from(n.children@, name)
}

pub open spec fn spec_child_by_field_from(cs: Seq<SyntaxNode>, name: Seq<char>) -> Option<
    SyntaxNode,
>
    decreases cs.len(),
{
    if cs.len() == 0 {
        None
    } else if cs[0].field matches Some(f) && f@ == name {
        Some(cs[0])
    } else {
        spec_child_by_field_from(cs.drop_first(), name)
    }
}

proof fn lemma_child_by_field_member(cs: Seq<SyntaxNode>, name: Seq<char>)
    ensures
        spec_child_by_field_from(cs, name) matches Some(c) ==> exists|k: int|
            0 <= k < cs.len() && c == cs[k],
    decreases cs.len(),
{
    if cs.len() > 0 {
        lemma_child_by_field_member(cs.drop_first(), name);
        let r = spec_child_by_field_from(cs, name);
        if r is Some {
            let c = r->Some_0;
            if cs[0].field matches Some(f) && f@ == name {
                assert(c == cs[0]);
            } else {
                let k = choose|k: int| 0 <= k < cs.drop_first().len() && c == cs.drop_first()[k];
                assert(c == cs[k + 1]);
            }
        }
    }
}

/// A node found by field is one of the children.
pub proof fn lemma_child_by_field_is_child(n: SyntaxNode, name: Seq<char>)
    ensures
        spec_child_by_field(n, name) matches Some(c) ==> is_child_of(c, n),
{
    lemma_child_by_field_member(n.children@, name);
}

impl SyntaxNode {
    /// Whether this node's grammar kind is `k`.
    pub fn is_kind(&self, k: &str) -> (r: bool)
        ensures
            r == (self.kind@ == k@),
    {
        str_eq(self.kind.as_str(), k)
    }

    /// The `i`-th child, if there is one.
    pub fn child(&self, i: usize) -> (r: Option<&SyntaxNode>)
        ensures
            match r {
                Some(c) => i < self.children@.len() && *c == self.children@[i as int],
                None => i >= self.children@.len(),
            },
    {
        if i < self.children.len() {
            Some(&self.children[i])
        } else {
            None
        }
    }

    /// The first child held under the given field name, if any.
    pub fn child_by_field(&self, name: &str) -> (r: Option<&SyntaxNode>)
        ensures
            match r {
                Some(c) => spec_child_by_field(*self, name@) == Some(*c) && is_child_of(*c, *self),
                None => spec_child_by_field(*self, name@) is None,
            },
    {
        let n = self.children.len();
        proof {
            assert(self.children@.skip(0) =~= self.children@);
        }
        let mut i: usize = 0;
        while i < n
            invariant
                i <= n,
                n == self.children@.len(),
                spec_child_by_field_from(self.children@, name@) == spec_child_by_field_from(
                    self.children@.skip(i as int),
                    name@,
                ),
            decreases n - i,
        {
            proof {
                assert(self.children@.skip(i as int)[0] == self.children@[i as int]);
            }
            let matched = match &self.children[i].field {
                Some(f) => str_eq(f.as_str(), name),
                None => false,
            };
            if matched {
                return Some(&self.children[i]);
            }
            proof {
                assert(self.children@.skip(i as int).drop_first() =~= self.children@.skip(
                    i as int + 1,
                ));
            }
            i += 1;
        }
        proof {
            assert(self.children@.skip(n as int) =~= Seq::<SyntaxNode>::empty());
        }
        None
    }
}

} // verus!
