//! The scope collector: walks the flattened syntax tree and computes, for
//! every function-like construct, its [`ScopeName`].
//!
//! A visited construct either carries a name itself (a named function or
//! class), or its name is inferred from the chain of enclosing nodes: object
//! literal properties and methods, class bodies, variable declarators and
//! assignment targets each contribute components, walking from the innermost
//! ancestor outwards until an enclosing function stops the walk.  The spec
//! functions in this module state that inference as recursions over the tree;
//! the executable functions are proved to return exactly those values.
//!
//! Browsers differ on whether a named class expression `a = class B {}`
//! renders as `B` or as `a.B`; this collector renders the full form `a.B`:
//! the class contributes its own name and the walk keeps going, so the
//! assignment target is prepended.

use vstd::prelude::*;

verus! {

use vstd::string::StringExecFns;

use crate::Scopes;
use crate::rslint::NodeKind;
use crate::rslint::SyntaxTree;
use crate::rslint::TreeModel;
use crate::scope_name::NameComponent;
use crate::scope_name::NameComponentModel;
use crate::scope_name::ScopeName;
use crate::scope_name::SourceSpan;
use crate::scope_name::ident_model;
use crate::scope_name::interp_model;
use crate::scope_name::sep_model;

/// Whether a method is a plain method, a getter or a setter: getters and
/// setters have their rendered name prefixed with `"get "` or `"set "`.
#[derive(Clone, Copy, Debug, PartialEq, Eq, Structural)]
pub enum MethodKind {
    /// A plain method, or no method at all.
    Method,
    /// A getter.
    Getter,
    /// A setter.
    Setter,
}

// ---------------------------------------------------------------------------
// Child lookup over the flat tree.
// ---------------------------------------------------------------------------

/// The `n`-th (0-based) direct child of node `i` at position `j` or later.
pub open spec fn child_scan(t: TreeModel, i: int, j: int, n: int) -> Option<int>
    decreases t.nodes.len() - j,
    when j >= 0
{
    if j >= t.nodes.len() {
        None
    } else if t.parent_of(j) == i && j != i {
        if n <= 0 {
            Some(j)
        } else {
            child_scan(t, i, j + 1, n - 1)
        }
    } else {
        child_scan(t, i, j + 1, n)
    }
}

/// The `n`-th (0-based) direct child of node `i`.
pub open spec fn nth_child(t: TreeModel, i: int, n: int) -> Option<int> {
    child_scan(t, i, i + 1, n)
}

/// The first direct child of node `i` at position `j` or later whose kind
/// satisfies `want_key` (when true, any key kind; else exactly `k`).
pub open spec fn kind_scan(t: TreeModel, i: int, j: int, k: NodeKind) -> Option<int>
    decreases t.nodes.len() - j,
    when j >= 0
{
    if j >= t.nodes.len() {
        None
    } else if t.parent_of(j) == i && j != i && t.kind(j) == k {
        Some(j)
    } else {
        kind_scan(t, i, j + 1, k)
    }
}

/// The first direct child of node `i` of kind `k`.
pub open spec fn first_child_of_kind(t: TreeModel, i: int, k: NodeKind) -> Option<int> {
    kind_scan(t, i, i + 1, k)
}

/// Whether a node kind can be a property key.
pub open spec fn is_key_kind(k: NodeKind) -> bool {
    ||| k == NodeKind::Name
    ||| k == NodeKind::Literal
    ||| k == NodeKind::ComputedPropName
    ||| k == NodeKind::PrivateName
}

/// The first direct child of node `i` at position `j` or later that is a
/// property key.
pub open spec fn key_scan(t: TreeModel, i: int, j: int) -> Option<int>
    decreases t.nodes.len() - j,
    when j >= 0
{
    if j >= t.nodes.len() {
        None
    } else if t.parent_of(j) == i && j != i && is_key_kind(t.kind(j)) {
        Some(j)
    } else {
        key_scan(t, i, j + 1)
    }
}

/// The property key child of node `i`.
pub open spec fn key_child(t: TreeModel, i: int) -> Option<int> {
    key_scan(t, i, i + 1)
}

/// A found child lies between the scan start and the end of the tree, and
/// node `i` is its parent.
pub proof fn lemma_child_scan_bounds(t: TreeModel, i: int, j: int, n: int)
    requires
        j >= 0,
    ensures
        child_scan(t, i, j, n) matches Some(c) ==> j <= c < t.nodes.len() && t.parent_of(c)
            == i && c != i,
    decreases t.nodes.len() - j,
{
    if j >= t.nodes.len() {
    } else if t.parent_of(j) == i && j != i && n <= 0 {
    } else {
        lemma_child_scan_bounds(t, i, j + 1, if t.parent_of(j) == i && j != i {
            n - 1
        } else {
            n
        });
    }
}

// ---------------------------------------------------------------------------
// The name-inference model.
// ---------------------------------------------------------------------------

/// The identifier-token component for node `c`: its text with its span.
pub open spec fn ident_of(t: TreeModel, c: int) -> NameComponentModel {
    ident_model(
        t.nodes[c].text,
        SourceSpan { start: t.nodes[c].lo, end: t.nodes[c].hi },
    )
}

/// Applies the getter/setter prefix to a finished name.
pub open spec fn prefix_model(kind: MethodKind, name: Seq<NameComponentModel>) -> Seq<
    NameComponentModel,
> {
    match kind {
        MethodKind::Getter => seq![interp_model("get "@)] + name,
        MethodKind::Setter => seq![interp_model("set "@)] + name,
        MethodKind::Method => name,
    }
}

/// What a finished ancestor walk returns: an `"<object>."` marker when the
/// walk passed an object literal and collected something, then the
/// getter/setter prefix.
pub open spec fn terminal_model(
    name: Seq<NameComponentModel>,
    kind: MethodKind,
    in_object: bool,
) -> Seq<NameComponentModel> {
    let withobj = if in_object && name.len() > 0 {
        seq![interp_model("<object>."@)] + name
    } else {
        name
    };
    prefix_model(kind, withobj)
}

/// The component for a property key: an identifier token for a plain name,
/// `<computed>` for a computed key, and the bracketed source text for a
/// literal key.
pub open spec fn prop_comp_model(t: TreeModel, k: int) -> NameComponentModel {
    if t.kind(k) == NodeKind::Name {
        ident_of(t, k)
    } else if t.kind(k) == NodeKind::ComputedPropName {
        interp_model("<computed>"@)
    } else if t.kind(k) == NodeKind::Literal {
        interp_model("<"@ + t.nodes[k].text + ">"@)
    } else {
        interp_model(t.nodes[k].text)
    }
}

/// What a computed member key `[...]` prepends to a name under construction:
/// the bracketed literal text, the bracketed identifier, or `[<computed>]`.
pub open spec fn computed_model(
    t: TreeModel,
    p: int,
    name: Seq<NameComponentModel>,
) -> Seq<NameComponentModel> {
    if t.kind(p) == NodeKind::Literal {
        seq![interp_model("["@ + t.nodes[p].text + "]"@)] + name
    } else if t.kind(p) == NodeKind::NameRef {
        seq![interp_model("["@), ident_of(t, p), interp_model("]"@)] + name
    } else {
        seq![interp_model("[<computed>]"@)] + name
    }
}

/// Lowers a member-expression chain (the left-hand side of an assignment)
/// into name components, walking `obj.prop` and `obj[key]` steps inwards.
/// Anything that is not an identifier, `this`, or a member step aborts the
/// lowering.
pub open spec fn lower_model(
    t: TreeModel,
    j: int,
    acc: Seq<NameComponentModel>,
) -> Option<Seq<NameComponentModel>>
    decreases t.nodes.len() - j,
    when t.wf() && 0 <= j < t.nodes.len()
    via lower_model_dec
{
    if t.kind(j) == NodeKind::NameRef {
        Some(seq![ident_of(t, j)] + acc)
    } else if t.kind(j) == NodeKind::ThisExpr {
        Some(seq![interp_model("this"@)] + acc)
    } else if t.kind(j) == NodeKind::DotExpr {
        match nth_child(t, j, 0) {
            Some(obj) => {
                let acc2 = match first_child_of_kind(t, j, NodeKind::Name) {
                    Some(p) => seq![interp_model("."@), ident_of(t, p)] + acc,
                    None => acc,
                };
                lower_model(t, obj, acc2)
            },
            None => None,
        }
    } else if t.kind(j) == NodeKind::BracketExpr {
        match (nth_child(t, j, 0), nth_child(t, j, 1)) {
            (Some(obj), Some(p)) => lower_model(t, obj, computed_model(t, p, acc)),
            _ => None,
        }
    } else {
        None
    }
}

#[via_fn]
proof fn lower_model_dec(t: TreeModel, j: int, acc: Seq<NameComponentModel>) {
    if t.wf() && 0 <= j < t.nodes.len() {
        lemma_child_scan_bounds(t, j, j + 1, 0);
        lemma_child_scan_bounds(t, j, j + 1, 1);
    }
}

/// One step of the ancestor walk, at ancestor `i`: either the walk is done
/// with a finished name, or it continues with updated state.
/// The fields are: done, the name (finished when done), the method kind, and
/// the in-object-literal flag.
pub open spec fn arm_model(
    t: TreeModel,
    i: int,
    name: Seq<NameComponentModel>,
    kind: MethodKind,
    in_object: bool,
) -> (bool, Seq<NameComponentModel>, MethodKind, bool) {
    let k = t.kind(i);
    if k == NodeKind::FnDecl || k == NodeKind::FnExpr || k == NodeKind::ArrowExpr || k
        == NodeKind::Method || k == NodeKind::Constructor {
        // An enclosing function: the name cannot extend past it.
        (true, terminal_model(name, kind, in_object), kind, in_object)
    } else if k == NodeKind::Getter || k == NodeKind::Setter {
        // A class accessor holds its body the way a method does and stops
        // the walk; an object-literal accessor is transparent to it.
        if t.kind(t.parent_of(i)) == NodeKind::ClassBody {
            (true, terminal_model(name, kind, in_object), kind, in_object)
        } else {
            (false, name, kind, in_object)
        }
    } else if k == NodeKind::ClassExpr {
        match first_child_of_kind(t, i, NodeKind::Name) {
            Some(c) => (false, seq![ident_of(t, c)] + sep_model(name), kind, in_object),
            None => (false, name, kind, in_object),
        }
    } else if k == NodeKind::ClassDecl {
        match first_child_of_kind(t, i, NodeKind::Name) {
            Some(c) => (
                true,
                prefix_model(kind, seq![ident_of(t, c)] + sep_model(name)),
                kind,
                in_object,
            ),
            None => (false, name, kind, in_object),
        }
    } else if k == NodeKind::LiteralProp {
        match nth_child(t, i, 0) {
            Some(c) => if t.kind(c) == NodeKind::Name {
                (false, seq![ident_of(t, c)] + sep_model(name), kind, in_object)
            } else {
                (false, name, kind, in_object)
            },
            None => (false, name, kind, in_object),
        }
    } else if k == NodeKind::Declarator {
        match nth_child(t, i, 0) {
            Some(p) => if t.kind(p) == NodeKind::SinglePattern {
                match first_child_of_kind(t, p, NodeKind::Name) {
                    Some(c) => (
                        true,
                        prefix_model(kind, seq![ident_of(t, c)] + sep_model(name)),
                        kind,
                        in_object,
                    ),
                    None => (false, name, kind, in_object),
                }
            } else {
                (false, name, kind, in_object)
            },
            None => (false, name, kind, in_object),
        }
    } else if k == NodeKind::AssignExpr {
        match nth_child(t, i, 0) {
            Some(lhs) => if t.kind(lhs) == NodeKind::NameRef {
                (
                    true,
                    prefix_model(kind, seq![ident_of(t, lhs)] + sep_model(name)),
                    kind,
                    in_object,
                )
            } else if t.kind(lhs) == NodeKind::DotExpr || t.kind(lhs) == NodeKind::BracketExpr {
                assign_member_model(t, lhs, name, kind, in_object)
            } else {
                (false, name, kind, in_object)
            },
            None => (false, name, kind, in_object),
        }
    } else if k == NodeKind::ObjectExpr {
        (false, name, kind, true)
    } else {
        (false, name, kind, in_object)
    }
}

/// The assignment arm when the target is a member expression: the member
/// chain is lowered into components; when that fails the walk continues
/// unchanged.
pub open spec fn assign_member_model(
    t: TreeModel,
    lhs: int,
    name: Seq<NameComponentModel>,
    kind: MethodKind,
    in_object: bool,
) -> (bool, Seq<NameComponentModel>, MethodKind, bool) {
    match nth_child(t, lhs, 0) {
        Some(obj) => match lower_model(t, obj, Seq::<NameComponentModel>::empty()) {
            Some(objname) => {
                let name1 = if t.kind(lhs) == NodeKind::DotExpr {
                    match first_child_of_kind(t, lhs, NodeKind::Name) {
                        Some(p) => seq![interp_model("."@), ident_of(t, p)] + name,
                        None => name,
                    }
                } else {
                    match nth_child(t, lhs, 1) {
                        Some(p) => computed_model(t, p, name),
                        None => name,
                    }
                };
                (true, prefix_model(kind, objname + name1), kind, in_object)
            },
            None => (false, name, kind, in_object),
        },
        None => (false, name, kind, in_object),
    }
}

/// The ancestor walk, starting at ancestor `i` with the given state: applies
/// [`arm_model`] to each ancestor from the inside out, stopping when an arm
/// finishes the name or the root has been processed.
pub open spec fn walk_model(
    t: TreeModel,
    i: int,
    name: Seq<NameComponentModel>,
    kind: MethodKind,
    in_object: bool,
) -> Seq<NameComponentModel>
    decreases i,
    when t.wf() && 0 <= i < t.nodes.len()
{
    let step = arm_model(t, i, name, kind, in_object);
    if step.0 {
        step.1
    } else if i <= 0 {
        terminal_model(step.1, step.2, step.3)
    } else {
        walk_model(t, t.parent_of(i), step.1, step.2, step.3)
    }
}

/// The walk's starting ancestor for a visited node: its parent.
pub open spec fn start_of(t: TreeModel, i: int) -> int {
    if i == 0 {
        0
    } else {
        t.parent_of(i)
    }
}

/// The seed of a method, getter or setter walk: the components its own
/// property key contributes before the ancestors are consulted.  A private
/// `#name` key contributes a `"#"` marker and the identifier.
pub open spec fn key_seed_model(t: TreeModel, i: int) -> Seq<NameComponentModel> {
    match key_child(t, i) {
        Some(k) => if t.kind(k) == NodeKind::PrivateName {
            match first_child_of_kind(t, k, NodeKind::Name) {
                Some(nm) => seq![interp_model("#"@), ident_of(t, nm)],
                None => Seq::<NameComponentModel>::empty(),
            }
        } else {
            seq![prop_comp_model(t, k)]
        },
        None => Seq::<NameComponentModel>::empty(),
    }
}

/// Replaces the innermost collected component with the construct's own
/// declared identifier, as functions with a name do.
pub open spec fn ident_override_model(
    base: Seq<NameComponentModel>,
    c: NameComponentModel,
) -> Seq<NameComponentModel> {
    if base.len() == 0 {
        seq![c]
    } else {
        base.drop_last().push(c)
    }
}

/// Prefixes a non-empty class name with `"new "`.
pub open spec fn new_prefix_model(name: Seq<NameComponentModel>) -> Seq<NameComponentModel> {
    if name.len() > 0 {
        seq![interp_model("new "@)] + name
    } else {
        name
    }
}

/// The name of the function-like node `i`, per its kind.
pub open spec fn name_model(t: TreeModel, i: int) -> Seq<NameComponentModel> {
    let k = t.kind(i);
    let empty = Seq::<NameComponentModel>::empty();
    if k == NodeKind::FnDecl || k == NodeKind::FnExpr {
        let base = walk_model(t, start_of(t, i), empty, MethodKind::Method, false);
        match first_child_of_kind(t, i, NodeKind::Name) {
            Some(c) => ident_override_model(base, ident_of(t, c)),
            None => base,
        }
    } else if k == NodeKind::ArrowExpr {
        walk_model(t, start_of(t, i), empty, MethodKind::Method, false)
    } else if k == NodeKind::ClassDecl {
        match first_child_of_kind(t, i, NodeKind::Name) {
            Some(c) => new_prefix_model(seq![ident_of(t, c)]),
            None => new_prefix_model(
                walk_model(t, start_of(t, i), empty, MethodKind::Method, false),
            ),
        }
    } else if k == NodeKind::ClassExpr {
        let seed = match first_child_of_kind(t, i, NodeKind::Name) {
            Some(c) => seq![ident_of(t, c)],
            None => empty,
        };
        new_prefix_model(walk_model(t, start_of(t, i), seed, MethodKind::Method, false))
    } else if k == NodeKind::Method {
        walk_model(t, start_of(t, i), key_seed_model(t, i), MethodKind::Method, false)
    } else if k == NodeKind::Getter || k == NodeKind::Setter {
        let mk = if k == NodeKind::Getter {
            MethodKind::Getter
        } else {
            MethodKind::Setter
        };
        let gs = if k == NodeKind::Getter {
            interp_model("get "@)
        } else {
            interp_model("set "@)
        };
        if t.kind(start_of(t, i)) == NodeKind::ClassBody {
            // A class accessor: named like a class method, with its kind
            // recorded so the enclosing class applies the prefix.
            walk_model(t, start_of(t, i), key_seed_model(t, i), mk, false)
        } else {
            // An object-literal accessor: the context name, a separator,
            // the key, and the prefix in front.
            let base = walk_model(t, start_of(t, i), empty, MethodKind::Method, false);
            let base2 = if base.len() > 0 {
                base.push(interp_model("."@))
            } else {
                base
            };
            let base3 = match key_child(t, i) {
                Some(kc) => base2.push(prop_comp_model(t, kc)),
                None => base2,
            };
            seq![gs] + base3
        }
    } else {
        empty
    }
}

/// Whether the collector emits a scope entry for this node kind.
pub open spec fn is_emit_kind(k: NodeKind) -> bool {
    ||| k == NodeKind::FnDecl
    ||| k == NodeKind::FnExpr
    ||| k == NodeKind::ArrowExpr
    ||| k == NodeKind::ClassDecl
    ||| k == NodeKind::ClassExpr
    ||| k == NodeKind::Method
    ||| k == NodeKind::Getter
    ||| k == NodeKind::Setter
}

/// The byte span of node `i`.
pub open spec fn span_of(t: TreeModel, i: int) -> SourceSpan {
    SourceSpan { start: t.nodes[i].lo, end: t.nodes[i].hi }
}

/// The scope entries of the first `n` nodes, in tree order.
pub open spec fn collect_model_upto(t: TreeModel, n: int) -> Seq<
    (SourceSpan, Seq<NameComponentModel>),
>
    decreases n,
    when n >= 0
{
    if n <= 0 {
        Seq::<(SourceSpan, Seq<NameComponentModel>)>::empty()
    } else if is_emit_kind(t.kind(n - 1)) {
        collect_model_upto(t, n - 1).push((span_of(t, n - 1), name_model(t, n - 1)))
    } else {
        collect_model_upto(t, n - 1)
    }
}

/// The scope entries of the whole tree: one per function-like node, in tree
/// order, with the inferred name.
pub open spec fn collect_model(t: TreeModel) -> Seq<(SourceSpan, Seq<NameComponentModel>)> {
    collect_model_upto(t, t.nodes.len() as int)
}

// ---------------------------------------------------------------------------
// The executable collector.
// ---------------------------------------------------------------------------

/// The `n`-th direct child of node `i`.
fn nth_child_exec(t: &SyntaxTree, i: usize, n: usize) -> (r: Option<usize>)
    requires
        i < t@.nodes.len(),
    ensures
        r matches Some(c) ==> nth_child(t@, i as int, n as int) == Some(c as int) && i < c
            < t@.nodes.len(),
        r is None ==> nth_child(t@, i as int, n as int) is None,
{
    let total = t.nodes.len();
    let mut j: usize = i + 1;
    let mut rem: usize = n;
    while j < t.nodes.len()
        invariant
            i + 1 <= j,
            i < t@.nodes.len(),
            child_scan(t@, i as int, i + 1, n as int) == child_scan(
                t@,
                i as int,
                j as int,
                rem as int,
            ),
        decreases t@.nodes.len() - j,
    {
        if t.nodes[j].parent == i {
            if rem == 0 {
                return Some(j);
            }
            rem = rem - 1;
        }
        j = j + 1;
    }
    None
}

/// The first direct child of node `i` of kind `k`.
fn first_kind_child_exec(t: &SyntaxTree, i: usize, k: NodeKind) -> (r: Option<usize>)
    requires
        i < t@.nodes.len(),
    ensures
        r matches Some(c) ==> first_child_of_kind(t@, i as int, k) == Some(c as int) && i < c
            < t@.nodes.len(),
        r is None ==> first_child_of_kind(t@, i as int, k) is None,
{
    let total = t.nodes.len();
    let mut j: usize = i + 1;
    while j < t.nodes.len()
        invariant
            i + 1 <= j,
            i < t@.nodes.len(),
            kind_scan(t@, i as int, i + 1, k) == kind_scan(t@, i as int, j as int, k),
        decreases t@.nodes.len() - j,
    {
        if t.nodes[j].parent == i && t.nodes[j].kind == k {
            return Some(j);
        }
        j = j + 1;
    }
    None
}

/// The property-key child of node `i`.
fn key_child_exec(t: &SyntaxTree, i: usize) -> (r: Option<usize>)
    requires
        i < t@.nodes.len(),
    ensures
        r matches Some(c) ==> key_child(t@, i as int) == Some(c as int) && i < c
            < t@.nodes.len(),
        r is None ==> key_child(t@, i as int) is None,
{
    let total = t.nodes.len();
    let mut j: usize = i + 1;
    while j < t.nodes.len()
        invariant
            i + 1 <= j,
            i < t@.nodes.len(),
            key_scan(t@, i as int, i + 1) == key_scan(t@, i as int, j as int),
        decreases t@.nodes.len() - j,
    {
        let k = t.nodes[j].kind;
        if t.nodes[j].parent == i && (k == NodeKind::Name || k == NodeKind::Literal || k
            == NodeKind::ComputedPropName || k == NodeKind::PrivateName) {
            return Some(j);
        }
        j = j + 1;
    }
    None
}

/// The identifier-token component for node `c`.
fn ident_comp(t: &SyntaxTree, c: usize) -> (r: NameComponent)
    requires
        c < t@.nodes.len(),
    ensures
        r@ == ident_of(t@, c as int),
{
    let text = t.nodes[c].text.as_str().to_owned();
    NameComponent::ident(text, SourceSpan { start: t.nodes[c].lo, end: t.nodes[c].hi })
}

/// Converts a property key node into a name component: see
/// [`prop_comp_model`].
pub fn prop_name_to_component(t: &SyntaxTree, k: usize) -> (r: NameComponent)
    requires
        k < t@.nodes.len(),
    ensures
        r@ == prop_comp_model(t@, k as int),
{
    if t.nodes[k].kind == NodeKind::Name {
        ident_comp(t, k)
    } else if t.nodes[k].kind == NodeKind::ComputedPropName {
        NameComponent::interp("<computed>")
    } else if t.nodes[k].kind == NodeKind::Literal {
        let text = String::from_str("<").concat(t.nodes[k].text.as_str()).concat(">");
        proof {
            assert(text@ =~= "<"@ + t.nodes@[k as int].text@ + ">"@);
        }
        NameComponent::interp_owned(text)
    } else {
        NameComponent::interp_owned(t.nodes[k].text.as_str().to_owned())
    }
}

/// Prefixes a getter or setter name with `"get "` or `"set "`.
pub fn prefix_getters_setters(kind: MethodKind, name: &mut ScopeName)
    ensures
        final(name)@ == prefix_model(kind, old(name)@),
{
    match kind {
        MethodKind::Getter => name.push_front(NameComponent::interp("get ")),
        MethodKind::Setter => name.push_front(NameComponent::interp("set ")),
        MethodKind::Method => (),
    }
}

/// Finishes an ancestor walk: the `"<object>."` marker and the getter/setter
/// prefix.
fn finish_walk(name: ScopeName, kind: MethodKind, in_object: bool) -> (r: ScopeName)
    ensures
        r@ == terminal_model(name@, kind, in_object),
{
    let mut out = name;
    if in_object && out.len() > 0 {
        out.push_front(NameComponent::interp("<object>."));
    }
    prefix_getters_setters(kind, &mut out);
    out
}

/// Prepends the components of a computed member key `[...]` to the name
/// under construction: see [`computed_model`].
pub fn push_computed_prop_name(t: &SyntaxTree, p: usize, name: &mut ScopeName)
    requires
        p < t@.nodes.len(),
    ensures
        final(name)@ == computed_model(t@, p as int, old(name)@),
{
    if t.nodes[p].kind == NodeKind::Literal {
        let text = String::from_str("[").concat(t.nodes[p].text.as_str()).concat("]");
        proof {
            assert(text@ =~= "["@ + t.nodes@[p as int].text@ + "]"@);
        }
        name.push_front(NameComponent::interp_owned(text));
    } else if t.nodes[p].kind == NodeKind::NameRef {
        name.push_front(NameComponent::interp("]"));
        name.push_front(ident_comp(t, p));
        name.push_front(NameComponent::interp("["));
        proof {
            assert(name@ =~= seq![
                interp_model("["@),
                ident_of(t@, p as int),
                interp_model("]"@),
            ] + old(name)@);
        }
    } else {
        name.push_front(NameComponent::interp("[<computed>]"));
    }
}

/// Lowers a member-expression chain into a scope name, starting at node
/// `start` with the already-collected components `acc`: see [`lower_model`].
#[verifier::loop_isolation(false)]
pub fn infer_name_from_expr(t: &SyntaxTree, start: usize, acc: ScopeName) -> (r: Option<
    ScopeName,
>)
    requires
        t@.wf(),
        start < t@.nodes.len(),
    ensures
        r matches Some(n) ==> lower_model(t@, start as int, acc@) == Some(n@),
        r is None ==> lower_model(t@, start as int, acc@) is None,
{
    let ghost acc0 = acc@;
    let ghost start0 = start as int;
    let mut j = start;
    let mut name = acc;
    loop
        invariant
            t@.wf(),
            j < t@.nodes.len(),
            lower_model(t@, start0, acc0) == lower_model(t@, j as int, name@),
        decreases t@.nodes.len() - j,
    {
        let k = t.nodes[j].kind;
        if k == NodeKind::NameRef {
            name.push_front(ident_comp(t, j));
            return Some(name);
        } else if k == NodeKind::ThisExpr {
            name.push_front(NameComponent::interp("this"));
            return Some(name);
        } else if k == NodeKind::DotExpr {
            match nth_child_exec(t, j, 0) {
                Some(obj) => {
                    let ghost name_pre = name@;
                    match first_kind_child_exec(t, j, NodeKind::Name) {
                        Some(p) => {
                            name.push_front(ident_comp(t, p));
                            name.push_front(NameComponent::interp("."));
                            proof {
                                assert(name@ =~= seq![
                                    interp_model("."@),
                                    ident_of(t@, p as int),
                                ] + name_pre);
                            }
                        },
                        None => (),
                    }
                    j = obj;
                },
                None => {
                    return None;
                },
            }
        } else if k == NodeKind::BracketExpr {
            let c0 = nth_child_exec(t, j, 0);
            let c1 = nth_child_exec(t, j, 1);
            match (c0, c1) {
                (Some(obj), Some(p)) => {
                    push_computed_prop_name(t, p, &mut name);
                    j = obj;
                },
                _ => {
                    return None;
                },
            }
        } else {
            return None;
        }
    }
}

/// Infers a scope name by walking the ancestors of a node, starting at
/// ancestor `start`, with the components `seed` the visited node itself
/// contributed and its method kind: see [`walk_model`].
#[verifier::loop_isolation(false)]
pub fn infer_name_from_ctx(
    t: &SyntaxTree,
    start: usize,
    seed: ScopeName,
    kind0: MethodKind,
) -> (r: ScopeName)
    requires
        t@.wf(),
        start < t@.nodes.len(),
    ensures
        r@ == walk_model(t@, start as int, seed@, kind0, false),
{
    let ghost seed0 = seed@;
    let ghost start0 = start as int;
    let mut idx = start;
    let mut name = seed;
    let mut kind = kind0;
    let mut in_object = false;
    loop
        invariant
            t@.wf(),
            idx < t@.nodes.len(),
            walk_model(t@, start0, seed0, kind0, false) == walk_model(
                t@,
                idx as int,
                name@,
                kind,
                in_object,
            ),
        decreases idx,
    {
        let ghost name_pre = name@;
        let ghost kind_pre = kind;
        let ghost io_pre = in_object;
        let k = t.nodes[idx].kind;
        if k == NodeKind::FnDecl || k == NodeKind::FnExpr || k == NodeKind::ArrowExpr || k
            == NodeKind::Method || k == NodeKind::Constructor {
            return finish_walk(name, kind, in_object);
        } else if k == NodeKind::Getter || k == NodeKind::Setter {
            let parent = t.nodes[idx].parent;
            proof {
                assert(t@.nodes[idx as int] == t.nodes@[idx as int]@);
                assert(parent < t@.nodes.len());
                assert(t@.nodes[parent as int] == t.nodes@[parent as int]@);
            }
            if t.nodes[parent].kind == NodeKind::ClassBody {
                return finish_walk(name, kind, in_object);
            }
            // an object-literal accessor is transparent to the walk
        } else if k == NodeKind::ClassExpr {
            match first_kind_child_exec(t, idx, NodeKind::Name) {
                Some(c) => {
                    name.push_sep();
                    name.push_front(ident_comp(t, c));
                    proof {
                        assert(name@ =~= seq![ident_of(t@, c as int)] + sep_model(name_pre));
                    }
                },
                None => (),
            }
        } else if k == NodeKind::ClassDecl {
            match first_kind_child_exec(t, idx, NodeKind::Name) {
                Some(c) => {
                    name.push_sep();
                    name.push_front(ident_comp(t, c));
                    proof {
                        assert(name@ =~= seq![ident_of(t@, c as int)] + sep_model(name_pre));
                    }
                    prefix_getters_setters(kind, &mut name);
                    return name;
                },
                None => (),
            }
        } else if k == NodeKind::LiteralProp {
            match nth_child_exec(t, idx, 0) {
                Some(c) => {
                    if t.nodes[c].kind == NodeKind::Name {
                        name.push_sep();
                        name.push_front(ident_comp(t, c));
                        proof {
                            assert(name@ =~= seq![ident_of(t@, c as int)] + sep_model(
                                name_pre,
                            ));
                        }
                    }
                },
                None => (),
            }
        } else if k == NodeKind::Declarator {
            match nth_child_exec(t, idx, 0) {
                Some(p) => {
                    if t.nodes[p].kind == NodeKind::SinglePattern {
                        match first_kind_child_exec(t, p, NodeKind::Name) {
                            Some(c) => {
                                name.push_sep();
                                name.push_front(ident_comp(t, c));
                                proof {
                                    assert(name@ =~= seq![ident_of(t@, c as int)] + sep_model(
                                        name_pre,
                                    ));
                                }
                                prefix_getters_setters(kind, &mut name);
                                return name;
                            },
                            None => (),
                        }
                    }
                },
                None => (),
            }
        } else if k == NodeKind::AssignExpr {
            match nth_child_exec(t, idx, 0) {
                Some(lhs) => {
                    let lk = t.nodes[lhs].kind;
                    if lk == NodeKind::NameRef {
                        name.push_sep();
                        name.push_front(ident_comp(t, lhs));
                        proof {
                            assert(name@ =~= seq![ident_of(t@, lhs as int)] + sep_model(
                                name_pre,
                            ));
                        }
                        prefix_getters_setters(kind, &mut name);
                        return name;
                    } else if lk == NodeKind::DotExpr || lk == NodeKind::BracketExpr {
                        match nth_child_exec(t, lhs, 0) {
                            Some(obj) => {
                                match infer_name_from_expr(t, obj, ScopeName::new()) {
                                    Some(expr_name) => {
                                        if lk == NodeKind::DotExpr {
                                            match first_kind_child_exec(
                                                t,
                                                lhs,
                                                NodeKind::Name,
                                            ) {
                                                Some(p) => {
                                                    name.push_front(ident_comp(t, p));
                                                    name.push_front(
                                                        NameComponent::interp("."),
                                                    );
                                                    proof {
                                                        assert(name@ =~= seq![
                                                            interp_model("."@),
                                                            ident_of(t@, p as int),
                                                        ] + name_pre);
                                                    }
                                                },
                                                None => (),
                                            }
                                        } else {
                                            match nth_child_exec(t, lhs, 1) {
                                                Some(p) => {
                                                    push_computed_prop_name(t, p, &mut name);
                                                },
                                                None => (),
                                            }
                                        }
                                        let mut combined = expr_name;
                                        let mut rest = name;
                                        combined.append(&mut rest);
                                        prefix_getters_setters(kind, &mut combined);
                                        return combined;
                                    },
                                    None => (),
                                }
                            },
                            None => (),
                        }
                    }
                },
                None => (),
            }
        } else if k == NodeKind::ObjectExpr {
            in_object = true;
        }
        proof {
            let step = arm_model(t@, idx as int, name_pre, kind_pre, io_pre);
            assert(!step.0 && step.1 == name@ && step.2 == kind && step.3 == in_object);
        }
        if idx == 0 {
            return finish_walk(name, kind, in_object);
        }
        idx = t.nodes[idx].parent;
    }
}

/// The components contributed by the property key of a method, getter or
/// setter node: see [`key_seed_model`].
fn key_seed_exec(t: &SyntaxTree, i: usize) -> (r: ScopeName)
    requires
        t@.wf(),
        i < t@.nodes.len(),
    ensures
        r@ == key_seed_model(t@, i as int),
{
    let mut seed = ScopeName::new();
    match key_child_exec(t, i) {
        Some(kc) => {
            if t.nodes[kc].kind == NodeKind::PrivateName {
                match first_kind_child_exec(t, kc, NodeKind::Name) {
                    Some(nm) => {
                        seed.push_front(ident_comp(t, nm));
                        seed.push_front(NameComponent::interp("#"));
                        proof {
                            assert(seed@ =~= seq![
                                interp_model("#"@),
                                ident_of(t@, nm as int),
                            ]);
                        }
                    },
                    None => (),
                }
            } else {
                seed.push_back(prop_name_to_component(t, kc));
                proof {
                    assert(seed@ =~= seq![prop_comp_model(t@, kc as int)]);
                }
            }
        },
        None => (),
    }
    seed
}

/// Computes the scope name of the function-like node `i`: the declared
/// identifier when the construct has one, inference from the ancestors
/// otherwise, with the `"new "` prefix for classes and the `"get "`/`"set "`
/// prefix for accessors.
pub fn name_of_node(t: &SyntaxTree, i: usize) -> (r: ScopeName)
    requires
        t@.wf(),
        i < t@.nodes.len(),
    ensures
        r@ == name_model(t@, i as int),
{
    let start: usize = if i == 0 {
        0
    } else {
        t.nodes[i].parent
    };
    proof {
        assert(t@.nodes[i as int] == t.nodes@[i as int]@);
        assert(start < t@.nodes.len());
        assert(start as int == start_of(t@, i as int));
    }
    let k = t.nodes[i].kind;
    if k == NodeKind::FnDecl || k == NodeKind::FnExpr {
        let mut base = infer_name_from_ctx(t, start, ScopeName::new(), MethodKind::Method);
        let ghost base0 = base@;
        match first_kind_child_exec(t, i, NodeKind::Name) {
            Some(c) => {
                base.pop_back();
                base.push_back(ident_comp(t, c));
                proof {
                    assert(base@ =~= ident_override_model(base0, ident_of(t@, c as int)));
                }
            },
            None => (),
        }
        base
    } else if k == NodeKind::ArrowExpr {
        infer_name_from_ctx(t, start, ScopeName::new(), MethodKind::Method)
    } else if k == NodeKind::ClassDecl || k == NodeKind::ClassExpr {
        let named = first_kind_child_exec(t, i, NodeKind::Name);
        let mut name = if k == NodeKind::ClassDecl {
            match named {
                Some(c) => {
                    let mut n = ScopeName::new();
                    n.push_back(ident_comp(t, c));
                    proof {
                        assert(n@ =~= seq![ident_of(t@, c as int)]);
                    }
                    n
                },
                None => infer_name_from_ctx(t, start, ScopeName::new(), MethodKind::Method),
            }
        } else {
            let mut seed = ScopeName::new();
            match named {
                Some(c) => {
                    seed.push_back(ident_comp(t, c));
                    proof {
                        assert(seed@ =~= seq![ident_of(t@, c as int)]);
                    }
                },
                None => (),
            }
            infer_name_from_ctx(t, start, seed, MethodKind::Method)
        };
        if name.len() > 0 {
            name.push_front(NameComponent::interp("new "));
        }
        name
    } else if k == NodeKind::Method {
        let seed = key_seed_exec(t, i);
        infer_name_from_ctx(t, start, seed, MethodKind::Method)
    } else if k == NodeKind::Getter || k == NodeKind::Setter {
        let mk = if k == NodeKind::Getter {
            MethodKind::Getter
        } else {
            MethodKind::Setter
        };
        if t.nodes[start].kind == NodeKind::ClassBody {
            let seed = key_seed_exec(t, i);
            infer_name_from_ctx(t, start, seed, mk)
        } else {
            let mut base = infer_name_from_ctx(t, start, ScopeName::new(), MethodKind::Method);
            if base.len() > 0 {
                base.push_back(NameComponent::interp("."));
            }
            match key_child_exec(t, i) {
                Some(kc) => base.push_back(prop_name_to_component(t, kc)),
                None => (),
            }
            if k == NodeKind::Getter {
                base.push_front(NameComponent::interp("get "));
            } else {
                base.push_front(NameComponent::interp("set "));
            }
            base
        }
    } else {
        ScopeName::new()
    }
}

/// Collects the scope entries of the whole tree, in tree order: one entry
/// per function-like node, with its span and its inferred name.  The name is
/// always present here; an empty name means nothing could be inferred.
pub fn collect_scopes(t: &SyntaxTree) -> (r: Scopes)
    requires
        t@.wf(),
    ensures
        r@.len() == collect_model(t@).len(),
        forall|j: int|
            0 <= j < r@.len() ==> (#[trigger] r@[j]).0 == collect_model(t@)[j].0,
        forall|j: int|
            0 <= j < r@.len() ==> (#[trigger] r@[j]).1 is Some && r@[j].1->0@ == collect_model(
                t@,
            )[j].1,
        forall|j: int|
            0 <= j < r@.len() ==> (#[trigger] r@[j]).0.start <= r@[j].0.end && r@[j].0.end
                <= t@.src_len,
{
    let mut out: Scopes = Vec::new();
    let mut i: usize = 0;
    while i < t.nodes.len()
        invariant
            t@.wf(),
            i <= t@.nodes.len(),
            out@.len() == collect_model_upto(t@, i as int).len(),
            forall|j: int|
                0 <= j < out@.len() ==> (#[trigger] out@[j]).0 == collect_model_upto(
                    t@,
                    i as int,
                )[j].0,
            forall|j: int|
                0 <= j < out@.len() ==> (#[trigger] out@[j]).1 is Some && out@[j].1->0@
                    == collect_model_upto(t@, i as int)[j].1,
            forall|j: int|
                0 <= j < out@.len() ==> (#[trigger] out@[j]).0.start <= out@[j].0.end
                    && out@[j].0.end <= t@.src_len,
        decreases t@.nodes.len() - i,
    {
        let k = t.nodes[i].kind;
        let emit = k == NodeKind::FnDecl || k == NodeKind::FnExpr || k == NodeKind::ArrowExpr
            || k == NodeKind::ClassDecl || k == NodeKind::ClassExpr || k == NodeKind::Method
            || k == NodeKind::Getter || k == NodeKind::Setter;
        if emit {
            let name = name_of_node(t, i);
            let span = SourceSpan { start: t.nodes[i].lo, end: t.nodes[i].hi };
            out.push((span, Some(name)));
            proof {
                assert(collect_model_upto(t@, i + 1) =~= collect_model_upto(t@, i as int).push(
                    (span_of(t@, i as int), name_model(t@, i as int)),
                ));
            }
        } else {
            proof {
                assert(collect_model_upto(t@, i + 1) =~= collect_model_upto(t@, i as int));
            }
        }
        i = i + 1;
    }
    proof {
        assert(collect_model_upto(t@, t@.nodes.len() as int) =~= collect_model(t@));
    }
    out
}

} // verus!

