//! The syntax tree of a YAML document.
//!
//! The tree is a list of its nodes in the order in which a walk from the root
//! meets them, each with its depth. The parent of a node is the last node
//! before it that lies less deep.
use crate::nesting;
use crate::text;
use vstd::prelude::*;

verus! {

/// One node of a syntax tree.
#[derive(Clone, Debug)]
pub struct SyntaxNode {
    /// What the grammar calls the node.
    pub kind: String,
    /// The first byte of the node's text.
    pub start: usize,
    /// The byte behind the node's text.
    pub end: usize,
    /// The line on which the node begins.
    pub row: usize,
    /// The number of the node's ancestors.
    pub depth: usize,
    /// Whether the grammar names the node, in contrast to punctuation.
    pub named: bool,
    /// Whether the node's parent holds it in the field that was asked for.
    pub in_field: bool,
    /// Whether the node is the smallest one around the bytes that were asked for.
    pub probed: bool,
}

/// A node as contracts speak of it.
pub struct Branch {
    pub kind: Seq<char>,
    pub start: int,
    pub end: int,
    pub row: int,
    pub depth: int,
    pub named: bool,
    pub in_field: bool,
    pub probed: bool,
}

impl View for SyntaxNode {
    type V = Branch;

    open spec fn view(&self) -> Branch {
        Branch {
            kind: self.kind@,
            start: self.start as int,
            end: self.end as int,
            row: self.row as int,
            depth: self.depth as int,
            named: self.named,
            in_field: self.in_field,
            probed: self.probed,
        }
    }
}

impl SyntaxNode {
    /// A node of a kind with the given bytes, line and depth.
    pub fn new(
        kind: &str,
        bytes: (usize, usize),
        row: usize,
        depth: u32,
        named: bool,
        in_field: bool,
        probed: bool,
    ) -> (r: SyntaxNode)
        ensures
            r@ == (Branch {
                kind: kind@,
                start: bytes.0 as int,
                end: bytes.1 as int,
                row: row as int,
                depth: depth as int,
                named,
                in_field,
                probed,
            }),
    {
        SyntaxNode {
            kind: kind.to_string(),
            start: bytes.0,
            end: bytes.1,
            row,
            depth: depth as usize,
            named,
            in_field,
            probed,
        }
    }
}

/// A list of nodes as contracts speak of it.
pub open spec fn branches(nodes: Seq<SyntaxNode>) -> Seq<Branch> {
    Seq::new(nodes.len(), |i: int| nodes[i]@)
}

// ---------------------------------------------------------------------------
// Parsing
// ---------------------------------------------------------------------------

/// The longest text, in bytes, that is handed to the YAML parser, whose own
/// offsets have 32 bits.
pub const LONGEST_TEXT: usize = 0xffff_fffd;

/// Whether a text can be handed to the YAML parser.
pub open spec fn parsable(s: Seq<char>) -> bool {
    text::byte_len(s) <= LONGEST_TEXT && nesting::shallow(s)
}

/// Whether a text can be handed to the YAML parser.
pub fn is_parsable(text: &str) -> (r: bool)
    ensures
        r == parsable(text@),
{
    text::str_len(text) <= LONGEST_TEXT && nesting::is_shallow(text)
}

/// Whether the YAML parser finds an error in a text: `Err` where the parser
/// cannot use its grammar, with what it says of that, and `None` where it gives
/// no tree.
pub uninterp spec fn yaml_error(text: Seq<char>) -> Result<Option<bool>, Seq<char>>;

/// The nodes of the tree that the YAML parser makes of a text, with the smallest
/// node around the bytes from `start` to `end`, and the children in `field`,
/// marked.
pub uninterp spec fn yaml_nodes(
    text: Seq<char>,
    start: int,
    end: int,
    field: Seq<char>,
) -> Option<Seq<Branch>>;

/// Parses the text with `tree_sitter::Parser::parse` and the grammar
/// `tree_sitter_yaml::LANGUAGE`, and returns what `Node::has_error` says of the
/// root. Claimed: the outcome depends on the text alone. Texts that are too long
/// or too deep for the parser are left out.
#[verifier::external_body]
pub(crate) fn syntax_error(text: &str) -> (r: Result<Option<bool>, String>)
    requires
        parsable(text@),
    ensures
        match r {
            Ok(found) => yaml_error(text@) == Ok::<Option<bool>, Seq<char>>(found),
            Err(message) => yaml_error(text@) == Err::<Option<bool>, Seq<char>>(message@),
        },
{
    let mut parser = tree_sitter::Parser::new();
    if let Err(error) = parser.set_language(&tree_sitter_yaml::LANGUAGE.into()) {
        return Err(error.to_string());
    }
    Ok(parser.parse(text, None).map(|tree| tree.root_node().has_error()))
}

/// Parses the text as `syntax_error` does and lists the nodes of the tree in the
/// order of `TreeCursor::goto_descendant`. A node is marked as probed where
/// `Node::descendant_for_byte_range` on the root returns it, and as standing in
/// the field where `Node::child_by_field_name` on its parent returns it.
/// Claimed: the list depends on the arguments alone. Texts that are too long or too
/// deep for the parser are left out.
#[verifier::external_body]
pub(crate) fn syntax_nodes(text: &str, start: usize, end: usize, field: &str) -> (r: Option<
    Vec<SyntaxNode>,
>)
    requires
        parsable(text@),
    ensures
        match r {
            Some(nodes) => yaml_nodes(text@, start as int, end as int, field@) == Some(
                branches(nodes@),
            ),
            None => yaml_nodes(text@, start as int, end as int, field@) is None,
        },
{
    let mut parser = tree_sitter::Parser::new();
    parser.set_language(&tree_sitter_yaml::LANGUAGE.into()).ok()?;
    let tree = parser.parse(text, None)?;
    let probed = tree.root_node().descendant_for_byte_range(start, end);
    let mut cursor = tree.walk();
    let all = 0..tree.root_node().descendant_count();
    Some(all.map(|i| {
        cursor.goto_descendant(i);
        let n = cursor.node();
        let in_field = n.parent().and_then(|p| p.child_by_field_name(field)) == Some(n);
        SyntaxNode::new(n.kind(), (n.start_byte(), n.end_byte()), n.start_position().row,
            cursor.depth(), n.is_named(), in_field, probed == Some(n))
    }).collect())
}

// ---------------------------------------------------------------------------
// Kinds of nodes
// ---------------------------------------------------------------------------

/// A node that is one scalar value.
pub open spec fn scalar_kind(kind: Seq<char>) -> bool {
    ||| kind == "plain_scalar"@
    ||| kind == "single_quote_scalar"@
    ||| kind == "double_quote_scalar"@
    ||| kind == "block_scalar"@
}

/// A node that joins a key and a value.
pub open spec fn pair_kind(kind: Seq<char>) -> bool {
    kind == "block_mapping_pair"@ || kind == "flow_pair"@
}

/// A collection in flow style.
pub open spec fn flow_kind(kind: Seq<char>) -> bool {
    kind == "flow_sequence"@ || kind == "flow_mapping"@
}

/// A collection, or a part of one.
pub open spec fn collection_kind(kind: Seq<char>) -> bool {
    ||| kind == "block_mapping"@
    ||| kind == "block_sequence"@
    ||| flow_kind(kind)
    ||| pair_kind(kind)
    ||| kind == "block_sequence_item"@
}

pub fn is_scalar(kind: &str) -> (r: bool)
    ensures
        r == scalar_kind(kind@),
{
    text::same_str(kind, "plain_scalar") || text::same_str(kind, "single_quote_scalar")
        || text::same_str(kind, "double_quote_scalar") || text::same_str(kind, "block_scalar")
}

fn is_pair(kind: &str) -> (r: bool)
    ensures
        r == pair_kind(kind@),
{
    text::same_str(kind, "block_mapping_pair") || text::same_str(kind, "flow_pair")
}

fn is_flow(kind: &str) -> (r: bool)
    ensures
        r == flow_kind(kind@),
{
    text::same_str(kind, "flow_sequence") || text::same_str(kind, "flow_mapping")
}

fn is_collection(kind: &str) -> (r: bool)
    ensures
        r == collection_kind(kind@),
{
    text::same_str(kind, "block_mapping") || text::same_str(kind, "block_sequence") || is_flow(kind)
        || is_pair(kind) || text::same_str(kind, "block_sequence_item")
}

// ---------------------------------------------------------------------------
// Parents
// ---------------------------------------------------------------------------

/// The last node up to `j` that lies less deep than `depth`.
pub open spec fn last_above(t: Seq<Branch>, j: int, depth: int) -> Option<int>
    decreases j + 1,
{
    if j < 0 {
        None
    } else if t[j].depth < depth {
        Some(j)
    } else {
        last_above(t, j - 1, depth)
    }
}

/// The parent of the node `i`.
pub open spec fn parent(t: Seq<Branch>, i: int) -> Option<int> {
    last_above(t, i - 1, t[i].depth)
}

pub proof fn lemma_last_above(t: Seq<Branch>, j: int, depth: int)
    ensures
        last_above(t, j, depth) matches Some(p) ==> 0 <= p <= j && t[p].depth < depth && forall|k: int|
            p < k <= j ==> (#[trigger] t[k]).depth >= depth,
        last_above(t, j, depth) is None ==> forall|k: int|
            0 <= k <= j ==> (#[trigger] t[k]).depth >= depth,
    decreases j + 1,
{
    if j >= 0 && t[j].depth >= depth {
        lemma_last_above(t, j - 1, depth);
    }
}

/// Nodes that lie deeper than `depth` can be skipped in the search.
proof fn lemma_skip(t: Seq<Branch>, from: int, to: int, depth: int)
    requires
        to <= from,
        -1 <= to,
        forall|k: int| to < k <= from ==> (#[trigger] t[k]).depth >= depth,
    ensures
        last_above(t, from, depth) == last_above(t, to, depth),
    decreases from - to,
{
    if to < from {
        assert(t[from].depth >= depth);
        lemma_skip(t, from - 1, to, depth);
    }
}

/// Whether `parents` lists the parent of every node.
pub open spec fn lists_parents(t: Seq<Branch>, parents: Seq<Option<usize>>) -> bool {
    parents.len() == t.len() && forall|i: int|
        0 <= i < t.len() ==> match #[trigger] parents[i] {
            Some(p) => parent(t, i) == Some(p as int) && p < i,
            None => parent(t, i) is None,
        }
}

/// The parent of every node.
pub fn parents_of(nodes: &Vec<SyntaxNode>) -> (r: Vec<Option<usize>>)
    ensures
        lists_parents(branches(nodes@), r@),
{
    let ghost t = branches(nodes@);
    let mut parents: Vec<Option<usize>> = Vec::new();
    for i in 0..nodes.len()
        invariant
            t == branches(nodes@),
            parents@.len() == i,
            forall|k: int|
                0 <= k < i ==> match #[trigger] parents@[k] {
                    Some(p) => parent(t, k) == Some(p as int) && p < k,
                    None => parent(t, k) is None,
                },
    {
        let depth = nodes[i].depth;
        let mut above: Option<usize> = if i > 0 {
            Some(i - 1)
        } else {
            None
        };
        let mut searching: bool = true;
        while searching
            invariant
                t == branches(nodes@),
                i < nodes@.len(),
                depth == t[i as int].depth,
                parents@.len() == i,
                forall|k: int|
                    0 <= k < i ==> match #[trigger] parents@[k] {
                        Some(p) => parent(t, k) == Some(p as int) && p < k,
                        None => parent(t, k) is None,
                    },
                match above {
                    Some(j) => j < i && if searching {
                        parent(t, i as int) == last_above(t, j as int, depth as int)
                    } else {
                        parent(t, i as int) == Some(j as int)
                    },
                    None => parent(t, i as int) is None,
                },
            decreases
                    (if searching {
                        1int
                    } else {
                        0
                    }),
                    (match above {
                        Some(j) => j as int,
                        None => -1,
                    }) + 1,
        {
            match above {
                None => {
                    searching = false;
                },
                Some(j) => {
                    if nodes[j].depth < depth {
                        searching = false;
                    } else {
                        proof {
                            assert(t[j as int] == nodes@[j as int]@);
                            lemma_last_above(t, j - 1, t[j as int].depth);
                            match parents@[j as int] {
                                Some(p) => {
                                    lemma_skip(t, j as int, p as int, depth as int);
                                },
                                None => {
                                    lemma_skip(t, j as int, -1, depth as int);
                                },
                            }
                        }
                        above = parents[j];
                    }
                },
            }
        }
        parents.push(above);
    }
    parents
}

// ---------------------------------------------------------------------------
// Looking for scalars
// ---------------------------------------------------------------------------

/// The first node that is marked as probed, from the node `i` on.
pub open spec fn probed_from(t: Seq<Branch>, i: int) -> Option<int>
    decreases t.len() - i,
{
    if i < 0 || i >= t.len() {
        None
    } else if t[i].probed {
        Some(i)
    } else {
        probed_from(t, i + 1)
    }
}

/// The node itself or its nearest ancestor that is a scalar.
pub open spec fn enclosing_scalar(t: Seq<Branch>, i: int) -> Option<int>
    decreases i,
{
    if i < 0 {
        None
    } else if scalar_kind(t[i].kind) {
        Some(i)
    } else {
        proof {
            lemma_last_above(t, i - 1, t[i].depth);
        }
        match parent(t, i) {
            Some(p) => enclosing_scalar(t, p),
            None => None,
        }
    }
}

/// The first named child of the node `p`, looked for from the node `j` on.
pub open spec fn named_child_from(t: Seq<Branch>, p: int, j: int) -> Option<int>
    decreases t.len() - j,
{
    if j < 0 || j >= t.len() {
        None
    } else if t[j].named && parent(t, j) == Some(p) {
        Some(j)
    } else {
        named_child_from(t, p, j + 1)
    }
}

/// Whether the node `i` stands in the key of the nearest pair around it.
pub open spec fn in_key(t: Seq<Branch>, i: int) -> bool
    decreases i,
{
    if i < 0 {
        false
    } else {
        proof {
            lemma_last_above(t, i - 1, t[i].depth);
        }
        match parent(t, i) {
            None => false,
            Some(p) => if pair_kind(t[p].kind) {
                match named_child_from(t, p, p + 1) {
                    Some(key) => t[i].start >= t[key].start && t[i].end <= t[key].end,
                    None => false,
                }
            } else {
                in_key(t, p)
            },
        }
    }
}

/// Whether a collection in flow style lies around the node `i`.
pub open spec fn in_flow(t: Seq<Branch>, i: int) -> bool
    decreases i,
{
    if i < 0 {
        false
    } else {
        proof {
            lemma_last_above(t, i - 1, t[i].depth);
        }
        match parent(t, i) {
            None => false,
            Some(p) => flow_kind(t[p].kind) || in_flow(t, p),
        }
    }
}

/// The one scalar that the node `i` stands for: itself, or the only one that
/// its named children stand for. Collections stand for none.
pub open spec fn sole_scalar(t: Seq<Branch>, i: int) -> Option<int>
    decreases t.len() - i, 0int,
{
    if i < 0 || i >= t.len() {
        None
    } else if scalar_kind(t[i].kind) {
        Some(i)
    } else if collection_kind(t[i].kind) {
        None
    } else {
        let found = child_scalars(t, i, i + 1);
        if found.len() == 1 {
            Some(found[0])
        } else {
            None
        }
    }
}

/// The scalars that the named children of the node `i` stand for, from the node
/// `j` on.
pub open spec fn child_scalars(t: Seq<Branch>, i: int, j: int) -> Seq<int>
    decreases t.len() - j, 1int,
{
    if j < 0 || j >= t.len() {
        Seq::empty()
    } else {
        let rest = child_scalars(t, i, j + 1);
        match sole_scalar(t, j) {
            Some(scalar) => if t[j].named && parent(t, j) == Some(i) {
                seq![scalar] + rest
            } else {
                rest
            },
            None => rest,
        }
    }
}

/// Whether a walk through named children alone gets from the root to the node.
pub open spec fn reached(t: Seq<Branch>, i: int) -> bool
    decreases i,
{
    if i <= 0 {
        i == 0
    } else {
        proof {
            lemma_last_above(t, i - 1, t[i].depth);
        }
        match parent(t, i) {
            Some(p) => t[i].named && reached(t, p),
            None => false,
        }
    }
}

/// The first child of the node `p` that stands in the marked field, looked for
/// from the node `j` on.
pub open spec fn field_child_from(t: Seq<Branch>, p: int, j: int) -> Option<int>
    decreases t.len() - j,
{
    if j < 0 || j >= t.len() {
        None
    } else if t[j].in_field && parent(t, j) == Some(p) {
        Some(j)
    } else {
        field_child_from(t, p, j + 1)
    }
}

/// The scalar value of the node `i`, where the node is a pair in block style
/// that begins on the cursor's line or lies around the cursor.
pub open spec fn pair_value(t: Seq<Branch>, i: int, cursor: int, line: int) -> Option<int> {
    if reached(t, i) && t[i].kind == "block_mapping_pair"@ && (t[i].row == line || t[i].start
        <= cursor <= t[i].end) {
        match field_child_from(t, i, i + 1) {
            Some(value) => sole_scalar(t, value),
            None => None,
        }
    } else {
        None
    }
}

/// The pair with the shortest text among the first `n` nodes whose value is one
/// scalar, and that scalar. Of equally short ones the first counts.
pub open spec fn narrowest_pair(t: Seq<Branch>, n: int, cursor: int, line: int) -> Option<
    (int, int),
>
    decreases n,
{
    if n <= 0 {
        None
    } else {
        let before = narrowest_pair(t, n - 1, cursor, line);
        match pair_value(t, n - 1, cursor, line) {
            None => before,
            Some(scalar) => match before {
                Some((pair, _)) => if t[n - 1].end - t[n - 1].start < t[pair].end - t[pair].start {
                    Some((n - 1, scalar))
                } else {
                    before
                },
                None => Some((n - 1, scalar)),
            },
        }
    }
}

/// The node that is found first stands where it was looked for.
pub proof fn lemma_probed_from(t: Seq<Branch>, i: int)
    requires
        0 <= i,
    ensures
        probed_from(t, i) matches Some(j) ==> i <= j < t.len(),
    decreases t.len() - i,
{
    if i < t.len() && !t[i].probed {
        lemma_probed_from(t, i + 1);
    }
}

/// What lies around a node as a scalar is a scalar.
pub proof fn lemma_enclosing_scalar(t: Seq<Branch>, i: int)
    requires
        0 <= i < t.len(),
    ensures
        enclosing_scalar(t, i) matches Some(j) ==> 0 <= j <= i && scalar_kind(t[j].kind),
    decreases i,
{
    if !scalar_kind(t[i].kind) {
        lemma_last_above(t, i - 1, t[i].depth);
        if let Some(p) = parent(t, i) {
            lemma_enclosing_scalar(t, p);
        }
    }
}

/// The narrowest pair is one of the pairs that were looked at, and none of them is
/// narrower.
pub proof fn lemma_narrowest_pair(t: Seq<Branch>, n: int, cursor: int, line: int)
    requires
        0 <= n <= t.len(),
    ensures
        match narrowest_pair(t, n, cursor, line) {
            Some((pair, scalar)) => 0 <= pair < n && pair_value(t, pair, cursor, line) == Some(
                scalar,
            ) && forall|k: int|
                0 <= k < n && (#[trigger] pair_value(t, k, cursor, line)) is Some ==> t[pair].end
                    - t[pair].start <= t[k].end - t[k].start,
            None => forall|k: int|
                0 <= k < n ==> (#[trigger] pair_value(t, k, cursor, line)) is None,
        },
    decreases n,
{
    if n > 0 {
        lemma_narrowest_pair(t, n - 1, cursor, line);
    }
}

/// What a node stands for as a scalar is a scalar.
pub proof fn lemma_sole_scalar(t: Seq<Branch>, i: int)
    ensures
        sole_scalar(t, i) matches Some(scalar) ==> 0 <= scalar < t.len() && scalar_kind(
            t[scalar].kind,
        ),
    decreases t.len() - i, 0int,
{
    if 0 <= i < t.len() && !scalar_kind(t[i].kind) && !collection_kind(t[i].kind) {
        lemma_child_scalars(t, i, i + 1);
        let found = child_scalars(t, i, i + 1);
        if found.len() == 1 {
            assert(scalar_kind(t[found[0]].kind));
        }
    }
}

proof fn lemma_child_scalars(t: Seq<Branch>, i: int, j: int)
    ensures
        forall|k: int|
            0 <= k < child_scalars(t, i, j).len() ==> 0 <= #[trigger] child_scalars(t, i, j)[k]
                < t.len() && scalar_kind(t[child_scalars(t, i, j)[k]].kind),
    decreases t.len() - j, 1int,
{
    if 0 <= j < t.len() {
        lemma_sole_scalar(t, j);
        lemma_child_scalars(t, i, j + 1);
        let rest = child_scalars(t, i, j + 1);
        let all = child_scalars(t, i, j);
        assert forall|k: int| 0 <= k < all.len() implies 0 <= #[trigger] all[k] < t.len()
            && scalar_kind(t[all[k]].kind) by {
            if all.len() > rest.len() {
                if k > 0 {
                    assert(all[k] == rest[k - 1]);
                }
            } else {
                assert(all[k] == rest[k]);
            }
        }
    }
}

/// The first node that is marked as probed.
pub fn probed_node(nodes: &Vec<SyntaxNode>) -> (r: Option<usize>)
    ensures
        match r {
            Some(i) => probed_from(branches(nodes@), 0) == Some(i as int) && i < nodes@.len(),
            None => probed_from(branches(nodes@), 0) is None,
        },
{
    let ghost t = branches(nodes@);
    for i in 0..nodes.len()
        invariant
            t == branches(nodes@),
            probed_from(t, 0) == probed_from(t, i as int),
    {
        if nodes[i].probed {
            return Some(i);
        }
    }
    None
}

/// A node itself or its nearest ancestor that is a scalar.
pub fn enclosing_scalar_of(nodes: &Vec<SyntaxNode>, parents: &Vec<Option<usize>>, node: usize) -> (r:
    Option<usize>)
    requires
        lists_parents(branches(nodes@), parents@),
        node < nodes@.len(),
    ensures
        match r {
            Some(i) => enclosing_scalar(branches(nodes@), node as int) == Some(i as int) && i
                < nodes@.len(),
            None => enclosing_scalar(branches(nodes@), node as int) is None,
        },
{
    let ghost t = branches(nodes@);
    let mut i: usize = node;
    loop
        invariant
            t == branches(nodes@),
            lists_parents(t, parents@),
            i < nodes@.len(),
            enclosing_scalar(t, node as int) == enclosing_scalar(t, i as int),
        decreases i,
    {
        if is_scalar(nodes[i].kind.as_str()) {
            return Some(i);
        }
        match parents[i] {
            Some(p) => {
                i = p;
            },
            None => {
                return None;
            },
        }
    }
}

fn first_named_child(nodes: &Vec<SyntaxNode>, parents: &Vec<Option<usize>>, node: usize) -> (r:
    Option<usize>)
    requires
        lists_parents(branches(nodes@), parents@),
        node < nodes@.len(),
    ensures
        match r {
            Some(i) => named_child_from(branches(nodes@), node as int, node + 1) == Some(i as int)
                && i < nodes@.len(),
            None => named_child_from(branches(nodes@), node as int, node + 1) is None,
        },
{
    let ghost t = branches(nodes@);
    for j in node + 1..nodes.len()
        invariant
            t == branches(nodes@),
            lists_parents(t, parents@),
            node < nodes@.len(),
            named_child_from(t, node as int, node + 1) == named_child_from(
                t,
                node as int,
                j as int,
            ),
    {
        if nodes[j].named && parents[j] == Some(node) {
            return Some(j);
        }
    }
    None
}

/// Whether a node stands in the key of the nearest pair around it.
pub fn is_mapping_key(nodes: &Vec<SyntaxNode>, parents: &Vec<Option<usize>>, node: usize) -> (r:
    bool)
    requires
        lists_parents(branches(nodes@), parents@),
        node < nodes@.len(),
    ensures
        r == in_key(branches(nodes@), node as int),
{
    let ghost t = branches(nodes@);
    let mut i: usize = node;
    loop
        invariant
            t == branches(nodes@),
            lists_parents(t, parents@),
            i < nodes@.len(),
            in_key(t, node as int) == in_key(t, i as int),
        decreases i,
    {
        match parents[i] {
            None => {
                return false;
            },
            Some(p) => {
                if is_pair(nodes[p].kind.as_str()) {
                    return match first_named_child(nodes, parents, p) {
                        Some(key) => nodes[i].start >= nodes[key].start && nodes[i].end
                            <= nodes[key].end,
                        None => false,
                    };
                }
                i = p;
            },
        }
    }
}

/// Whether a collection in flow style lies around a node.
pub fn has_flow_collection_ancestor(
    nodes: &Vec<SyntaxNode>,
    parents: &Vec<Option<usize>>,
    node: usize,
) -> (r: bool)
    requires
        lists_parents(branches(nodes@), parents@),
        node < nodes@.len(),
    ensures
        r == in_flow(branches(nodes@), node as int),
{
    let ghost t = branches(nodes@);
    let mut i: usize = node;
    loop
        invariant
            t == branches(nodes@),
            lists_parents(t, parents@),
            i < nodes@.len(),
            in_flow(t, node as int) == in_flow(t, i as int),
        decreases i,
    {
        match parents[i] {
            None => {
                return false;
            },
            Some(p) => {
                if is_flow(nodes[p].kind.as_str()) {
                    return true;
                }
                i = p;
            },
        }
    }
}

/// The one scalar that a node stands for.
pub fn single_scalar_value(
    nodes: &Vec<SyntaxNode>,
    parents: &Vec<Option<usize>>,
    node: usize,
) -> (r: Option<usize>)
    requires
        lists_parents(branches(nodes@), parents@),
        node < nodes@.len(),
    ensures
        match r {
            Some(i) => sole_scalar(branches(nodes@), node as int) == Some(i as int) && i
                < nodes@.len(),
            None => sole_scalar(branches(nodes@), node as int) is None,
        },
    decreases nodes@.len() - node,
{
    let ghost t = branches(nodes@);
    if is_scalar(nodes[node].kind.as_str()) {
        return Some(node);
    }
    if is_collection(nodes[node].kind.as_str()) {
        return None;
    }
    let mut found: Option<usize> = None;
    let ghost all = child_scalars(t, node as int, node + 1);
    proof {
        assert(all =~= Seq::<int>::empty() + all);
    }
    for j in node + 1..nodes.len()
        invariant
            t == branches(nodes@),
            lists_parents(t, parents@),
            node < nodes@.len(),
            sole_scalar(t, node as int) == if all.len() == 1 {
                Some(all[0])
            } else {
                None
            },
            match found {
                Some(scalar) => scalar < nodes@.len() && all == seq![scalar as int]
                    + child_scalars(t, node as int, j as int),
                None => all == child_scalars(t, node as int, j as int),
            },
    {
        if nodes[j].named && parents[j] == Some(node) {
            match single_scalar_value(nodes, parents, j) {
                Some(scalar) => {
                    if found.is_some() {
                        proof {
                            assert(child_scalars(t, node as int, j as int).len() >= 1);
                        }
                        return None;
                    }
                    found = Some(scalar);
                },
                None => {},
            }
        }
    }
    proof {
        assert(child_scalars(t, node as int, nodes@.len() as int) =~= Seq::<int>::empty());
    }
    found
}

fn field_child(nodes: &Vec<SyntaxNode>, parents: &Vec<Option<usize>>, node: usize) -> (r: Option<
    usize,
>)
    requires
        lists_parents(branches(nodes@), parents@),
        node < nodes@.len(),
    ensures
        match r {
            Some(i) => field_child_from(branches(nodes@), node as int, node + 1) == Some(i as int)
                && i < nodes@.len(),
            None => field_child_from(branches(nodes@), node as int, node + 1) is None,
        },
{
    let ghost t = branches(nodes@);
    for j in node + 1..nodes.len()
        invariant
            t == branches(nodes@),
            lists_parents(t, parents@),
            node < nodes@.len(),
            field_child_from(t, node as int, node + 1) == field_child_from(
                t,
                node as int,
                j as int,
            ),
    {
        if nodes[j].in_field && parents[j] == Some(node) {
            return Some(j);
        }
    }
    None
}

/// The value of the narrowest pair on the cursor's line or around the cursor,
/// where it is one scalar.
pub fn mapping_value_for_cursor(
    nodes: &Vec<SyntaxNode>,
    parents: &Vec<Option<usize>>,
    cursor: usize,
    cursor_line: usize,
) -> (r: Option<usize>)
    requires
        lists_parents(branches(nodes@), parents@),
        forall|i: int| 0 <= i < nodes@.len() ==> (#[trigger] nodes@[i]).start <= nodes@[i].end,
    ensures
        match r {
            Some(i) => narrowest_pair(
                branches(nodes@),
                nodes@.len() as int,
                cursor as int,
                cursor_line as int,
            ) matches Some((_, scalar)) && scalar == i && i < nodes@.len(),
            None => narrowest_pair(
                branches(nodes@),
                nodes@.len() as int,
                cursor as int,
                cursor_line as int,
            ) is None,
        },
{
    let ghost t = branches(nodes@);
    let mut seen: Vec<bool> = Vec::new();
    let mut best: Option<(usize, usize)> = None;
    for i in 0..nodes.len()
        invariant
            t == branches(nodes@),
            lists_parents(t, parents@),
            forall|i: int| 0 <= i < nodes@.len() ==> (#[trigger] nodes@[i]).start <= nodes@[i].end,
            seen@.len() == i,
            forall|k: int| 0 <= k < i ==> #[trigger] seen@[k] == reached(t, k),
            match best {
                Some((pair, scalar)) => narrowest_pair(
                    t,
                    i as int,
                    cursor as int,
                    cursor_line as int,
                ) == Some((pair as int, scalar as int)) && pair < i && scalar < nodes@.len(),
                None => narrowest_pair(t, i as int, cursor as int, cursor_line as int) is None,
            },
    {
        let here = if i == 0 {
            true
        } else {
            match parents[i] {
                Some(p) => nodes[i].named && seen[p],
                None => false,
            }
        };
        proof {
            assert(here == reached(t, i as int));
        }
        seen.push(here);
        let node = &nodes[i];
        let mut scalar: Option<usize> = None;
        if here && text::same_str(node.kind.as_str(), "block_mapping_pair") && (node.row
            == cursor_line || (cursor >= node.start && cursor <= node.end)) {
            if let Some(value) = field_child(nodes, parents, i) {
                scalar = single_scalar_value(nodes, parents, value);
            }
        }
        proof {
            assert(match scalar {
                Some(value) => pair_value(t, i as int, cursor as int, cursor_line as int) == Some(
                    value as int,
                ) && value < nodes@.len(),
                None => pair_value(t, i as int, cursor as int, cursor_line as int) is None,
            });
        }
        if let Some(value) = scalar {
            let narrower = match best {
                Some((pair, _)) => node.end - node.start < nodes[pair].end - nodes[pair].start,
                None => true,
            };
            if narrower {
                best = Some((i, value));
            }
        }
    }
    match best {
        Some((_, scalar)) => Some(scalar),
        None => None,
    }
}

// ---------------------------------------------------------------------------
// What the tree tells
// ---------------------------------------------------------------------------

/// A collection stands for no scalar, in whatever style, and neither does a part of one.
pub proof fn law_collections_are_no_scalars(t: Seq<Branch>, i: int)
    requires
        0 <= i < t.len(),
        t[i].kind == "block_mapping"@ || t[i].kind == "block_sequence"@ || t[i].kind
            == "flow_mapping"@ || t[i].kind == "flow_sequence"@ || t[i].kind
            == "block_mapping_pair"@ || t[i].kind == "flow_pair"@ || t[i].kind
            == "block_sequence_item"@,
    ensures
        sole_scalar(t, i) is None,
{
    reveal_strlit("plain_scalar");
    reveal_strlit("single_quote_scalar");
    reveal_strlit("double_quote_scalar");
    reveal_strlit("block_scalar");
    reveal_strlit("block_mapping");
    reveal_strlit("block_sequence");
    reveal_strlit("flow_sequence");
    reveal_strlit("flow_mapping");
    reveal_strlit("block_mapping_pair");
    reveal_strlit("flow_pair");
    reveal_strlit("block_sequence_item");
    let kind = t[i].kind;
    assert(kind.len() == 12 ==> kind[0] == 'f');
    assert(kind.len() == 19 ==> kind[0] == 'b');
    assert("plain_scalar"@[0] == 'p' && "block_scalar"@[0] == 'b');
    assert("single_quote_scalar"@[0] == 's' && "double_quote_scalar"@[0] == 'd');
    assert("plain_scalar"@.len() == 12 && "block_scalar"@.len() == 12);
    assert("single_quote_scalar"@.len() == 19 && "double_quote_scalar"@.len() == 19);
    assert(!scalar_kind(kind));
}

/// Of the pairs whose value is one scalar, the one with the shortest text counts, and of
/// equally short ones the first.
pub proof fn law_narrowest_pair_counts(t: Seq<Branch>, n: int, cursor: int, line: int)
    requires
        0 <= n <= t.len(),
    ensures
        match narrowest_pair(t, n, cursor, line) {
            Some((pair, scalar)) => {
                &&& 0 <= pair < n
                &&& pair_value(t, pair, cursor, line) == Some(scalar)
                &&& forall|q: int|
                    0 <= q < n && #[trigger] pair_value(t, q, cursor, line) is Some ==> if q < pair {
                        t[q].end - t[q].start > t[pair].end - t[pair].start
                    } else {
                        t[q].end - t[q].start >= t[pair].end - t[pair].start
                    }
            },
            None => forall|q: int|
                0 <= q < n ==> #[trigger] pair_value(t, q, cursor, line) is None,
        },
    decreases n,
{
    if n > 0 {
        law_narrowest_pair_counts(t, n - 1, cursor, line);
    }
}

} // verus!
