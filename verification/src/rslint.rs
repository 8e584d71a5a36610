//! Parser adapter: wraps the `rslint_parser` ECMAScript parser.
//!
//! The parser produces a lossless concrete syntax tree of uniform nodes.  The
//! adapter converts that tree into the crate's own [`SyntaxTree`]: a flat
//! pre-order array of [`FlatNode`]s holding, as plain values, everything the
//! scope collector reads — a classified node kind, the trimmed byte span, the
//! parent index, and the token text for the node kinds that carry one.  All
//! name inference then runs, verified, over that owned tree.

use rslint_parser::util::SyntaxNodeExt;
use vstd::prelude::*;

verus! {

use vstd::string::StringSliceAdditionalSpecFns;
use crate::ParseError;
use crate::Scopes;
use crate::collector::collect_model;
use crate::collector::collect_scopes;

/// Raw value of `rslint_syntax::SyntaxKind::FN_DECL`.
pub const RAW_KIND_FN_DECL: u16 = 160;

/// Raw value of `rslint_syntax::SyntaxKind::NAME`.
pub const RAW_KIND_NAME: u16 = 161;

/// Raw value of `rslint_syntax::SyntaxKind::NAME_REF`.
pub const RAW_KIND_NAME_REF: u16 = 162;

/// Raw value of `rslint_syntax::SyntaxKind::THIS_EXPR`.
pub const RAW_KIND_THIS_EXPR: u16 = 164;

/// Raw value of `rslint_syntax::SyntaxKind::OBJECT_EXPR`.
pub const RAW_KIND_OBJECT_EXPR: u16 = 166;

/// Raw value of `rslint_syntax::SyntaxKind::LITERAL_PROP`.
pub const RAW_KIND_LITERAL_PROP: u16 = 167;

/// Raw value of `rslint_syntax::SyntaxKind::GETTER`.
pub const RAW_KIND_GETTER: u16 = 168;

/// Raw value of `rslint_syntax::SyntaxKind::SETTER`.
pub const RAW_KIND_SETTER: u16 = 169;

/// Raw value of `rslint_syntax::SyntaxKind::FN_EXPR`.
pub const RAW_KIND_FN_EXPR: u16 = 172;

/// Raw value of `rslint_syntax::SyntaxKind::BRACKET_EXPR`.
pub const RAW_KIND_BRACKET_EXPR: u16 = 173;

/// Raw value of `rslint_syntax::SyntaxKind::DOT_EXPR`.
pub const RAW_KIND_DOT_EXPR: u16 = 174;

/// Raw value of `rslint_syntax::SyntaxKind::ASSIGN_EXPR`.
pub const RAW_KIND_ASSIGN_EXPR: u16 = 179;

/// Raw value of `rslint_syntax::SyntaxKind::LITERAL`.
pub const RAW_KIND_LITERAL: u16 = 182;

/// Raw value of `rslint_syntax::SyntaxKind::COMPUTED_PROPERTY_NAME`.
pub const RAW_KIND_COMPUTED_PROPERTY_NAME: u16 = 199;

/// Raw value of `rslint_syntax::SyntaxKind::SINGLE_PATTERN`.
pub const RAW_KIND_SINGLE_PATTERN: u16 = 201;

/// Raw value of `rslint_syntax::SyntaxKind::ARROW_EXPR`.
pub const RAW_KIND_ARROW_EXPR: u16 = 202;

/// Raw value of `rslint_syntax::SyntaxKind::CLASS_DECL`.
pub const RAW_KIND_CLASS_DECL: u16 = 204;

/// Raw value of `rslint_syntax::SyntaxKind::CLASS_EXPR`.
pub const RAW_KIND_CLASS_EXPR: u16 = 205;

/// Raw value of `rslint_syntax::SyntaxKind::CLASS_BODY`.
pub const RAW_KIND_CLASS_BODY: u16 = 206;

/// Raw value of `rslint_syntax::SyntaxKind::METHOD`.
pub const RAW_KIND_METHOD: u16 = 207;

/// Raw value of `rslint_syntax::SyntaxKind::DECLARATOR`.
pub const RAW_KIND_DECLARATOR: u16 = 139;

/// Raw value of `rslint_syntax::SyntaxKind::PRIVATE_NAME`.
pub const RAW_KIND_PRIVATE_NAME: u16 = 221;

/// Raw value of `rslint_syntax::SyntaxKind::CONSTRUCTOR`.
pub const RAW_KIND_CONSTRUCTOR: u16 = 224;

/// The node kinds the scope collector distinguishes.  Every other kind of
/// syntax node is [`NodeKind::Other`]: the ancestor walk steps over it.
#[derive(Clone, Copy, Debug, PartialEq, Eq, Structural)]
pub enum NodeKind {
    /// `function f() {}` as a statement.
    FnDecl,
    /// `function () {}` or `function f() {}` in expression position.
    FnExpr,
    /// `() => {}`.
    ArrowExpr,
    /// `class C {}` as a statement.
    ClassDecl,
    /// `class {}` or `class C {}` in expression position.
    ClassExpr,
    /// The braced body of a class.
    ClassBody,
    /// A class or object-literal method, including private `#m() {}`.
    Method,
    /// `get p() {}` in a class or object literal.
    Getter,
    /// `set p(v) {}` in a class or object literal.
    Setter,
    /// `constructor(...) {}` inside a class.
    Constructor,
    /// A `key: value` property of an object literal.
    LiteralProp,
    /// `lhs = rhs` (any assignment operator).
    AssignExpr,
    /// One declarator of a `var`/`let`/`const` declaration.
    Declarator,
    /// A plain identifier binding pattern.
    SinglePattern,
    /// An object literal.
    ObjectExpr,
    /// `obj.prop`.
    DotExpr,
    /// `obj[expr]`.
    BracketExpr,
    /// An identifier in a binding or name position; carries its text.
    Name,
    /// An identifier in expression position; carries its text.
    NameRef,
    /// `#name`; its identifier is a [`NodeKind::Name`] child.
    PrivateName,
    /// A literal token; carries its source text.
    Literal,
    /// `this`.
    ThisExpr,
    /// A computed property name `[expr]`.
    ComputedPropName,
    /// Any other syntax node.
    Other,
}

/// One node of the flattened syntax tree.
#[derive(Debug, Clone)]
pub struct FlatNode {
    /// The classified kind of the node.
    pub kind: NodeKind,
    /// Start of the node's trimmed byte range.
    pub lo: u32,
    /// End of the node's trimmed byte range.
    pub hi: u32,
    /// Index of the parent node; a root node is its own parent.
    pub parent: usize,
    /// The trimmed source text, for the node kinds that carry one
    /// (names, literals); empty otherwise.
    pub text: String,
}

/// The mathematical value of a [`FlatNode`].
pub struct NodeModel {
    /// The classified kind of the node.
    pub kind: NodeKind,
    /// Start of the node's trimmed byte range.
    pub lo: u32,
    /// End of the node's trimmed byte range.
    pub hi: u32,
    /// Index of the parent node; a root node is its own parent.
    pub parent: int,
    /// The trimmed source text, for the kinds that carry one.
    pub text: Seq<char>,
}

impl View for FlatNode {
    type V = NodeModel;

    open spec fn view(&self) -> NodeModel {
        NodeModel {
            kind: self.kind,
            lo: self.lo,
            hi: self.hi,
            parent: self.parent as int,
            text: self.text@,
        }
    }
}

/// The syntax tree of a parsed source, flattened to a pre-order array.
///
/// Parents precede their children, so an ancestor walk follows strictly
/// decreasing indices and the direct children of node `i` are the nodes `j`
/// with `j.parent == i`, in source order.
#[derive(Debug, Clone)]
pub struct SyntaxTree {
    /// The nodes, in pre-order.
    pub nodes: Vec<FlatNode>,
    /// The byte length of the parsed source.
    pub src_len: u32,
}

/// The mathematical value of a [`SyntaxTree`]: everything the collector's
/// models read.
pub struct TreeModel {
    /// The node values, in pre-order.
    pub nodes: Seq<NodeModel>,
    /// The byte length of the parsed source.
    pub src_len: u32,
}

impl View for SyntaxTree {
    type V = TreeModel;

    open spec fn view(&self) -> TreeModel {
        TreeModel {
            nodes: self.nodes@.map_values(|n: FlatNode| n@),
            src_len: self.src_len,
        }
    }
}

impl TreeModel {
    /// Well-formedness: the parent of every non-root node precedes it, the
    /// root is its own parent, and every span is contained in the source.
    pub open spec fn wf(self) -> bool {
        &&& (self.nodes.len() > 0 ==> self.nodes[0].parent == 0)
        &&& (forall|j: int| 1 <= j < self.nodes.len() ==> (#[trigger] self.nodes[j]).parent < j)
        &&& (forall|j: int|
            0 <= j < self.nodes.len() ==> (#[trigger] self.nodes[j]).parent >= 0)
        &&& (forall|j: int|
            0 <= j < self.nodes.len() ==> (#[trigger] self.nodes[j]).lo <= self.nodes[j].hi
                && self.nodes[j].hi <= self.src_len)
    }

    /// The kind of node `i`.
    pub open spec fn kind(self, i: int) -> NodeKind {
        self.nodes[i].kind
    }

    /// The parent index of node `i`.
    pub open spec fn parent_of(self, i: int) -> int {
        self.nodes[i].parent
    }
}

// ---------------------------------------------------------------------------
// Trusted surface: the parser, with its results named.
// ---------------------------------------------------------------------------

/// One node of the parse tree as the parser wrapper hands it over: the raw
/// `u16` syntax kind, the trimmed byte range, the index of the parent in the
/// same pre-order enumeration, and the trimmed source text.
pub type RawNode = (u16, u32, u32, usize, String);

/// The mathematical value of a [`RawNode`].
pub open spec fn raw_node_view(r: RawNode) -> (u16, u32, u32, int, Seq<char>) {
    (r.0, r.1, r.2, r.3 as int, r.4@)
}

/// The parse tree of a source text, flattened pre-order: what
/// `rslint_parser::parse_text` produces is a function of the text alone, so
/// its flattening carries a name that the contracts downstream build on.
pub uninterp spec fn parsed_nodes(src: Seq<char>) -> Seq<(u16, u32, u32, int, Seq<char>)>;

/// The parser's diagnostics for a source text, each as (is-an-error,
/// primary span start, primary span end, title); a function of the text
/// alone, like the tree.
pub uninterp spec fn parse_errs(src: Seq<char>) -> Seq<(bool, u32, u32, Seq<char>)>;

/// The view of one converted diagnostic.
pub open spec fn diag_view(d: (bool, u32, u32, String)) -> (bool, u32, u32, Seq<char>) {
    (d.0, d.1, d.2, d.3@)
}

/// Relies on `rslint_parser::parse_text`, `Parse::syntax`, and
/// `rslint_rowan::SyntaxNode::{descendants, parent}` with
/// `rslint_parser::util::SyntaxNodeExt::{trimmed_range, trimmed_text}`:
/// parses the source as a script and flattens the tree in pre-order, each
/// node converted to its raw kind, trimmed range, parent index and trimmed
/// text.  The parser is error-tolerant by design and produces a tree for
/// any text; it reads nothing but the text, so the result is
/// [`parsed_nodes`] of it.  The bound keeps the text inside the parser's
/// 32-bit offsets.
#[verifier::external_body]
fn parse_flat(src: &str) -> (r: Vec<RawNode>)
    requires
        src.spec_bytes().len() <= u32::MAX,
    ensures
        r@.map_values(|x: RawNode| raw_node_view(x)) == parsed_nodes(src@),
{
    let parse = rslint_parser::parse_text(src, 0);
    let mut index = std::collections::HashMap::new();
    parse.syntax().descendants().enumerate().map(|(i, n)| {
        index.insert(n.clone(), i);
        let parent = n.parent().and_then(|p| index.get(&p).copied()).unwrap_or(0);
        let range = n.trimmed_range();
        let (lo, hi) = (u32::from(range.start()), u32::from(range.end()));
        (n.kind() as u16, lo, hi, parent, n.trimmed_text().to_string())
    }).collect()
}

/// Relies on `rslint_parser::parse_text` and `Parse::errors`: the parser's
/// diagnostics for the source, converted to plain values — a function of the
/// text alone, [`parse_errs`] of it.
#[verifier::external_body]
fn parse_diags(src: &str) -> (r: Vec<(bool, u32, u32, String)>)
    requires
        src.spec_bytes().len() <= u32::MAX,
    ensures
        r@.map_values(|d: (bool, u32, u32, String)| diag_view(d)) == parse_errs(src@),
{
    rslint_parser::parse_text(src, 0)
        .errors()
        .iter()
        .map(|d| (
            matches!(d.severity, rslint_errors::Severity::Error),
            d.primary.as_ref().map(|p| p.span.range.start as u32).unwrap_or(0),
            d.primary.as_ref().map(|p| p.span.range.end as u32).unwrap_or(0),
            d.title.clone(),
        ))
        .collect()
}

} // verus!

verus! {

/// The [`NodeKind`] a raw parser kind classifies to.
pub open spec fn classify_model(raw: u16) -> NodeKind {
    if raw == RAW_KIND_FN_DECL {
        NodeKind::FnDecl
    } else if raw == RAW_KIND_FN_EXPR {
        NodeKind::FnExpr
    } else if raw == RAW_KIND_ARROW_EXPR {
        NodeKind::ArrowExpr
    } else if raw == RAW_KIND_CLASS_DECL {
        NodeKind::ClassDecl
    } else if raw == RAW_KIND_CLASS_EXPR {
        NodeKind::ClassExpr
    } else if raw == RAW_KIND_CLASS_BODY {
        NodeKind::ClassBody
    } else if raw == RAW_KIND_METHOD {
        NodeKind::Method
    } else if raw == RAW_KIND_GETTER {
        NodeKind::Getter
    } else if raw == RAW_KIND_SETTER {
        NodeKind::Setter
    } else if raw == RAW_KIND_CONSTRUCTOR {
        NodeKind::Constructor
    } else if raw == RAW_KIND_LITERAL_PROP {
        NodeKind::LiteralProp
    } else if raw == RAW_KIND_ASSIGN_EXPR {
        NodeKind::AssignExpr
    } else if raw == RAW_KIND_DECLARATOR {
        NodeKind::Declarator
    } else if raw == RAW_KIND_SINGLE_PATTERN {
        NodeKind::SinglePattern
    } else if raw == RAW_KIND_OBJECT_EXPR {
        NodeKind::ObjectExpr
    } else if raw == RAW_KIND_DOT_EXPR {
        NodeKind::DotExpr
    } else if raw == RAW_KIND_BRACKET_EXPR {
        NodeKind::BracketExpr
    } else if raw == RAW_KIND_NAME {
        NodeKind::Name
    } else if raw == RAW_KIND_NAME_REF {
        NodeKind::NameRef
    } else if raw == RAW_KIND_PRIVATE_NAME {
        NodeKind::PrivateName
    } else if raw == RAW_KIND_LITERAL {
        NodeKind::Literal
    } else if raw == RAW_KIND_THIS_EXPR {
        NodeKind::ThisExpr
    } else if raw == RAW_KIND_COMPUTED_PROPERTY_NAME {
        NodeKind::ComputedPropName
    } else {
        NodeKind::Other
    }
}

/// Maps a raw parser kind to the collector's [`NodeKind`].
fn classify_kind(raw: u16) -> (r: NodeKind)
    ensures
        r == classify_model(raw),
{
    if raw == RAW_KIND_FN_DECL {
        NodeKind::FnDecl
    } else if raw == RAW_KIND_FN_EXPR {
        NodeKind::FnExpr
    } else if raw == RAW_KIND_ARROW_EXPR {
        NodeKind::ArrowExpr
    } else if raw == RAW_KIND_CLASS_DECL {
        NodeKind::ClassDecl
    } else if raw == RAW_KIND_CLASS_EXPR {
        NodeKind::ClassExpr
    } else if raw == RAW_KIND_CLASS_BODY {
        NodeKind::ClassBody
    } else if raw == RAW_KIND_METHOD {
        NodeKind::Method
    } else if raw == RAW_KIND_GETTER {
        NodeKind::Getter
    } else if raw == RAW_KIND_SETTER {
        NodeKind::Setter
    } else if raw == RAW_KIND_CONSTRUCTOR {
        NodeKind::Constructor
    } else if raw == RAW_KIND_LITERAL_PROP {
        NodeKind::LiteralProp
    } else if raw == RAW_KIND_ASSIGN_EXPR {
        NodeKind::AssignExpr
    } else if raw == RAW_KIND_DECLARATOR {
        NodeKind::Declarator
    } else if raw == RAW_KIND_SINGLE_PATTERN {
        NodeKind::SinglePattern
    } else if raw == RAW_KIND_OBJECT_EXPR {
        NodeKind::ObjectExpr
    } else if raw == RAW_KIND_DOT_EXPR {
        NodeKind::DotExpr
    } else if raw == RAW_KIND_BRACKET_EXPR {
        NodeKind::BracketExpr
    } else if raw == RAW_KIND_NAME {
        NodeKind::Name
    } else if raw == RAW_KIND_NAME_REF {
        NodeKind::NameRef
    } else if raw == RAW_KIND_PRIVATE_NAME {
        NodeKind::PrivateName
    } else if raw == RAW_KIND_LITERAL {
        NodeKind::Literal
    } else if raw == RAW_KIND_THIS_EXPR {
        NodeKind::ThisExpr
    } else if raw == RAW_KIND_COMPUTED_PROPERTY_NAME {
        NodeKind::ComputedPropName
    } else {
        NodeKind::Other
    }
}

/// Whether the collector needs the source text of a node of this kind.
pub open spec fn text_kind(kind: NodeKind) -> bool {
    ||| kind == NodeKind::Name
    ||| kind == NodeKind::NameRef
    ||| kind == NodeKind::Literal
    ||| kind == NodeKind::PrivateName
}

/// Executable test for [`text_kind`].
fn kind_carries_text(kind: NodeKind) -> (r: bool)
    ensures
        r == text_kind(kind),
{
    match kind {
        NodeKind::Name => true,
        NodeKind::NameRef => true,
        NodeKind::Literal => true,
        NodeKind::PrivateName => true,
        _ => false,
    }
}

/// The node one raw parser row flattens to, at position `i`: the classified
/// kind, the span clamped into the source, the parent clamped to precede the
/// node, and the text for the kinds that carry one.
pub open spec fn row_node_model(
    row: (u16, u32, u32, int, Seq<char>),
    i: int,
    src_len: u32,
) -> NodeModel {
    let kind = classify_model(row.0);
    let hi = if row.2 <= src_len {
        row.2
    } else {
        src_len
    };
    let lo = if row.1 <= hi {
        row.1
    } else {
        hi
    };
    NodeModel {
        kind,
        lo,
        hi,
        parent: if 0 <= row.3 < i {
            row.3
        } else {
            0
        },
        text: if text_kind(kind) {
            row.4
        } else {
            Seq::<char>::empty()
        },
    }
}

/// The tree the raw parser rows flatten to.
pub open spec fn build_model(
    rows: Seq<(u16, u32, u32, int, Seq<char>)>,
    src_len: u32,
) -> TreeModel {
    TreeModel {
        nodes: Seq::new(rows.len(), |i: int| row_node_model(rows[i], i, src_len)),
        src_len,
    }
}

/// Builds the well-formed [`SyntaxTree`] of the raw parser rows, clamping
/// every span into `[0, src_len]` and every parent before its node.
#[verifier::loop_isolation(false)]
fn build_tree(rows: &Vec<RawNode>, src_len: u32) -> (t: SyntaxTree)
    ensures
        t@ == build_model(rows@.map_values(|x: RawNode| raw_node_view(x)), src_len),
        t@.wf(),
{
    let ghost rowsv = rows@.map_values(|x: RawNode| raw_node_view(x));
    let ghost model = build_model(rowsv, src_len);
    let mut nodes: Vec<FlatNode> = Vec::new();
    let mut i: usize = 0;
    while i < rows.len()
        invariant
            i <= rows@.len(),
            nodes@.len() == i,
            forall|j: int| 0 <= j < i ==> (#[trigger] nodes@[j])@ == model.nodes[j],
        decreases rows@.len() - i,
    {
        let row = &rows[i];
        let kind = classify_kind(row.0);
        let hi = if row.2 <= src_len {
            row.2
        } else {
            src_len
        };
        let lo = if row.1 <= hi {
            row.1
        } else {
            hi
        };
        let parent = if row.3 < i {
            row.3
        } else {
            0
        };
        let text = if kind_carries_text(kind) {
            row.4.as_str().to_owned()
        } else {
            String::new()
        };
        nodes.push(FlatNode { kind, lo, hi, parent, text });
        proof {
            assert(rowsv[i as int] == raw_node_view(rows@[i as int]));
            assert(nodes@[i as int]@ == model.nodes[i as int]);
        }
        i = i + 1;
    }
    let t = SyntaxTree { nodes, src_len };
    proof {
        assert(t@.nodes =~= model.nodes);
        assert(t@ == model);
        assert(t@.wf()) by {
            assert(forall|j: int|
                0 <= j < model.nodes.len() ==> model.nodes[j] == row_node_model(
                    rowsv[j],
                    j,
                    src_len,
                ));
        }
    }
    t
}

/// Whether the parser reported an error-severity diagnostic.
pub open spec fn has_parse_error(diags: Seq<(bool, u32, u32, Seq<char>)>) -> bool {
    exists|k: int| 0 <= k < diags.len() && (#[trigger] diags[k]).0
}

/// The index of the first error-severity diagnostic.
pub open spec fn first_error_idx(diags: Seq<(bool, u32, u32, Seq<char>)>) -> int
    decreases diags.len(),
{
    if diags.len() == 0 {
        0
    } else if diags[0].0 {
        0
    } else {
        1 + first_error_idx(diags.drop_first())
    }
}

/// The first error-severity diagnostic, when nothing before it is one, is
/// the one [`first_error_idx`] finds.
proof fn lemma_first_error_at(diags: Seq<(bool, u32, u32, Seq<char>)>, i: int)
    requires
        0 <= i < diags.len(),
        diags[i].0,
        forall|k: int| 0 <= k < i ==> !(#[trigger] diags[k]).0,
    ensures
        first_error_idx(diags) == i,
    decreases diags.len(),
{
    if diags[0].0 {
        assert(i == 0);
    } else {
        assert(forall|k: int|
            0 <= k < i - 1 ==> !(#[trigger] diags.drop_first()[k]).0) by {
            assert(forall|k: int|
                0 <= k < diags.drop_first().len() ==> (#[trigger] diags.drop_first()[k])
                    == diags[k + 1]);
        }
        assert(diags.drop_first()[i - 1] == diags[i]);
        lemma_first_error_at(diags.drop_first(), i - 1);
    }
}

/// Extracts the function scopes of a piece of JS-like source, together with
/// their inferred names, by parsing it and walking the resulting tree.
///
/// Fails exactly when the parser reports an error-severity diagnostic, the
/// first of which is carried in the error.  On success the entries are
/// exactly the collector's model of the named parse tree: one entry per
/// function-like construct, in traversal order, the name possibly without
/// components when nothing could be inferred.
pub fn parse_with_rslint(src: &str) -> (r: Result<Scopes, ParseError>)
    requires
        src.spec_bytes().len() <= u32::MAX,
    ensures
        (r is Err) == has_parse_error(parse_errs(src@)),
        r matches Err(e) ==> ({
            let d = parse_errs(src@)[first_error_idx(parse_errs(src@))];
            e.lo_spec() == d.1 && e.hi_spec() == d.2 && e.msg_spec() == d.3
        }),
        r matches Ok(entries) ==> ({
            let m = collect_model(
                build_model(parsed_nodes(src@), src.spec_bytes().len() as u32),
            );
            &&& entries@.len() == m.len()
            &&& (forall|j: int|
                0 <= j < entries@.len() ==> (#[trigger] entries@[j]).0 == m[j].0
                    && entries@[j].1 is Some && entries@[j].1->0@ == m[j].1)
        }),
        r is Ok ==> (forall|j: int|
            0 <= j < r->Ok_0@.len() ==> (#[trigger] r->Ok_0@[j]).0.start <= r->Ok_0@[j].0.end
                && r->Ok_0@[j].0.end <= src.spec_bytes().len()),
{
    let len_u32 = src_len_u32(src);
    let diags = parse_diags(src);
    let ghost diagsv = diags@.map_values(|d: (bool, u32, u32, String)| diag_view(d));
    let mut i: usize = 0;
    while i < diags.len()
        invariant
            i <= diags@.len(),
            diagsv == diags@.map_values(|d: (bool, u32, u32, String)| diag_view(d)),
            diagsv == parse_errs(src@),
            forall|k: int| 0 <= k < i ==> !(#[trigger] diagsv[k]).0,
        decreases diags@.len() - i,
    {
        let d = &diags[i];
        proof {
            assert(diagsv[i as int] == diag_view(diags@[i as int]));
        }
        if d.0 {
            proof {
                lemma_first_error_at(diagsv, i as int);
            }
            return Err(ParseError::new(d.1, d.2, d.3.as_str().to_owned()));
        }
        i = i + 1;
    }
    let rows = parse_flat(src);
    let tree = build_tree(&rows, len_u32);
    Ok(collect_scopes(&tree))
}

/// The byte length of the source as a `u32`.
fn src_len_u32(src: &str) -> (r: u32)
    requires
        src.spec_bytes().len() <= u32::MAX,
    ensures
        r == src.spec_bytes().len(),
{
    src.len() as u32
}

/// Joins a reverse list of identifiers using `.`: the last element comes
/// first.  Returns `None` for an empty list.
pub fn join_names(names: &Vec<String>) -> (r: Option<String>)
    ensures
        names@.len() == 0 <==> r is None,
        r is Some ==> r->0@ == join_names_model(names@.map_values(|s: String| s@)),
{
    if names.len() == 0 {
        return None;
    }
    let mut out = String::new();
    let mut i: usize = names.len();
    out.append(names[i - 1].as_str());
    i = i - 1;
    while i > 0
        invariant
            i < names@.len(),
            out@ == join_names_model(
                names@.map_values(|s: String| s@).subrange(i as int, names@.len() as int),
            ),
        decreases i,
    {
        proof {
            let all = names@.map_values(|s: String| s@);
            assert(all.subrange(i - 1, all.len() as int).drop_first() =~= all.subrange(
                i as int,
                all.len() as int,
            ));
        }
        out = out.concat(".");
        out = out.concat(names[i - 1].as_str());
        i = i - 1;
    }
    proof {
        let all = names@.map_values(|s: String| s@);
        assert(all.subrange(0, all.len() as int) =~= all);
    }
    Some(out)
}

/// The joined text: the elements in reverse order, separated by `"."`.
pub open spec fn join_names_model(names: Seq<Seq<char>>) -> Seq<char>
    decreases names.len(),
{
    if names.len() == 0 {
        Seq::<char>::empty()
    } else if names.len() == 1 {
        names[0]
    } else {
        join_names_model(names.drop_first()) + "."@ + names[0]
    }
}

} // verus!
