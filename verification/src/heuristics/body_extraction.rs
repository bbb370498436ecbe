//! The behaviour inside function bodies: local declarations, calls,
//! instantiations, accesses and casts, block by block.
use crate::heuristics::annotation_extraction::{annotations_spec, extract_annotations};
use crate::heuristics::structural_extraction::type_name_char;
use crate::heuristics::text_parsing::{
    extract_identifier, identifier_spec, split_qualified_name, split_qualified_name_spec,
};
use crate::heuristics::type_extraction::{extract_type_ref, is_failed, type_of, type_read_from};
use crate::model::components::{blocks_view, fields_view, opt_str_view, Block, BlockV, Field, FieldV};
use crate::model::queries::{
    clone_qn, lemma_typerefs_view_concat, typerefs_view, QualifiedName, Query, QueryV, TypeRef,
    TypeRefV,
};
use crate::syntax::SyntaxTree;
use crate::text_util::{chars_of, str_contains, str_eq, to_owned_string};
use vstd::prelude::*;

verus! {

/// The query that calls the member path `path`: `Find` of its first part, one
/// `Extract` per further part, and a `Call` around it all.
pub open spec fn member_path_query(path: Seq<Seq<char>>) -> QueryV
    decreases path.len(),
{
    if path.len() <= 1 {
        QueryV::Find(if path.len() == 1 { path[0] } else { Seq::empty() })
    } else {
        QueryV::Extract(Box::new(member_path_query(path.drop_last())), path.last())
    }
}

/// Builds `Call(Extract(..Extract(Find(p0), p1).., pn))` for a non-empty path.
pub fn call_query(path: &QualifiedName) -> (r: Query)
    requires
        path@.len() > 0,
    ensures
        r@ == QueryV::Call(Box::new(member_path_query(path.deep_view()))),
{
    let mut curr = Query::Find(to_owned_string(path[0].as_str()));
    let mut i: usize = 1;
    while i < path.len()
        invariant
            1 <= i <= path@.len(),
            curr@ == member_path_query(path.deep_view().take(i as int)),
        decreases path.len() - i,
    {
        assert(path.deep_view().take(i + 1).drop_last() == path.deep_view().take(i as int));
        curr = Query::Extract(Box::new(curr), to_owned_string(path[i].as_str()));
        i += 1;
    }
    assert(path.deep_view().take(path@.len() as int) == path.deep_view());
    Query::Call(Box::new(curr))
}

/// Kinds that open a nested block.
pub open spec fn block_kind(k: Seq<char>) -> bool {
    contains_sub_any_block(k)
}

/// Whether `k` contains `body` or `block`, or is `compound_statement`.
pub open spec fn contains_sub_any_block(k: Seq<char>) -> bool {
    crate::text_util::contains_sub(k, "body"@) || crate::text_util::contains_sub(k, "block"@) || k
        == "compound_statement"@
}

fn is_block_kind(k: &str) -> (r: bool)
    ensures
        r == block_kind(k@),
{
    str_contains(k, "body") || str_contains(k, "block") || str_eq(k, "compound_statement")
}

/// The type a call creates, given the type read from the called function: a query
/// that calls a non-empty name path, else that type itself.
pub open spec fn called_type_spec(x: TypeRefV) -> TypeRefV {
    match x {
        TypeRefV::Unresolved(p) => if p.len() > 0 {
            TypeRefV::ResolutionQuery(QueryV::Call(Box::new(member_path_query(p))))
        } else {
            x
        },
        _ => x,
    }
}

/// The type a call of `f` creates is `t`.
pub open spec fn call_read_from(tree: SyntaxTree, f: int, t: TypeRefV) -> bool {
    t == called_type_spec(type_of(tree, f))
}

/// The type that a call of `f` creates: for a name path, a query that calls it;
/// otherwise the type of `f` itself.
fn called_type(tree: &SyntaxTree, f: usize) -> (r: TypeRef)
    requires
        tree.wf(),
        f < tree.size(),
    ensures
        call_read_from(*tree, f as int, r@),
{
    let extracted = extract_type_ref(tree, f);
    if let TypeRef::Unresolved(path) = &extracted {
        if path.len() > 0 {
            return TypeRef::ResolutionQuery(call_query(path));
        }
    }
    extracted
}

/// Kinds whose `type` field names what they instantiate.
pub open spec fn creation_kind(k: Seq<char>) -> bool {
    k == "object_creation_expression"@ || k == "new_expression"@
}

/// The node an initialiser's type is read from, if `v` is an initialiser: the
/// `type` field of an instantiation, the `name` field of a struct literal, the
/// `function` field of a call.
pub open spec fn initializer_source(tree: SyntaxTree, v: int) -> Option<usize> {
    let k = tree.kind_of(v);
    if creation_kind(k) {
        tree.field_child(v, "type"@)
    } else if k == "struct_expression"@ {
        tree.field_child(v, "name"@)
    } else if k == "call"@ {
        tree.field_child(v, "function"@)
    } else {
        None
    }
}

/// What is stated of the type read from the initialiser `v`.
pub open spec fn initializer_read_from(tree: SyntaxTree, v: int, t: TypeRefV) -> bool {
    match initializer_source(tree, v) {
        Some(s) => if creation_kind(tree.kind_of(v)) || tree.kind_of(v) == "struct_expression"@ {
            type_read_from(tree, s as int, t)
        } else {
            call_read_from(tree, s as int, t)
        },
        None => true,
    }
}

/// The type of an initialiser: an instantiation's type, a struct literal's name,
/// a call's created type; `None` for other kinds.
fn initializer_type(tree: &SyntaxTree, val: usize) -> (r: Option<TypeRef>)
    requires
        tree.wf(),
        val < tree.size(),
    ensures
        r is Some <==> initializer_source(*tree, val as int) is Some,
        r matches Some(t) ==> initializer_read_from(*tree, val as int, t@),
{
    let vk = tree.kind(val);
    if str_eq(vk, "object_creation_expression") || str_eq(vk, "new_expression") {
        if let Some(t) = tree.child_by_field_name(val, "type") {
            return Some(extract_type_ref(tree, t));
        }
    } else if str_eq(vk, "struct_expression") {
        if let Some(n) = tree.child_by_field_name(val, "name") {
            return Some(extract_type_ref(tree, n));
        }
    } else if str_eq(vk, "call") {
        if let Some(f) = tree.child_by_field_name(val, "function") {
            return Some(called_type(tree, f));
        }
    }
    None
}

/// Whether every character is alphanumeric, `_` or `:`.
fn is_path_text(cs: &Vec<char>) -> (r: bool)
    ensures
        r == (forall|j: int| 0 <= j < cs@.len() ==> type_name_char(#[trigger] cs@[j])),
{
    let mut i: usize = 0;
    while i < cs.len()
        invariant
            i <= cs@.len(),
            forall|j: int| 0 <= j < i ==> type_name_char(#[trigger] cs@[j]),
        decreases cs.len() - i,
    {
        let c = cs[i];
        if !(crate::text_util::char_is_alphanumeric(c) || c == '_' || c == ':') {
            return false;
        }
        i += 1;
    }
    true
}

/// The initialiser of a declaration: its `value` field, else its `right` field.
pub open spec fn value_node(tree: SyntaxTree, node: int) -> Option<usize> {
    match tree.field_child(node, "value"@) {
        Some(v) => Some(v),
        None => tree.field_child(node, "right"@),
    }
}

/// A non-empty text made of alphanumeric characters, `_` and `:`.
pub open spec fn path_text(s: Seq<char>) -> bool {
    s.len() > 0 && forall|j: int| 0 <= j < s.len() ==> type_name_char(#[trigger] s[j])
}

/// Whether the `k`-th child of `node` is its first initialiser.
pub open spec fn first_initializer(tree: SyntaxTree, node: int, k: int) -> bool {
    &&& 0 <= k < tree.kids_of(node).len()
    &&& initializer_source(tree, tree.kids_of(node)[k] as int) is Some
    &&& forall|j: int|
        0 <= j < k ==> initializer_source(tree, #[trigger] tree.kids_of(node)[j] as int) is None
}

/// The type read from the initialiser `v`: the type of an instantiation or a struct
/// literal, the type a call creates.
pub open spec fn initializer_type_spec(tree: SyntaxTree, v: int) -> TypeRefV {
    match initializer_source(tree, v) {
        Some(s) => if creation_kind(tree.kind_of(v)) || tree.kind_of(v) == "struct_expression"@ {
            type_of(tree, s as int)
        } else {
            called_type_spec(type_of(tree, s as int))
        },
        None => TypeRefV::Failed(Seq::empty()),
    }
}

/// The type inferred for a local: that of its initialiser (its value or right
/// side) where it is one, else the initialiser's own name where its text is a
/// path, else that of the first initialiser among its children, else `Failed`.
pub open spec fn infer_spec(tree: SyntaxTree, node: int) -> TypeRefV {
    let fallback = if exists|k: int| first_initializer(tree, node, k) {
        initializer_type_spec(
            tree,
            tree.kids_of(node)[choose|k: int| first_initializer(tree, node, k)] as int,
        )
    } else {
        TypeRefV::Failed(Seq::empty())
    };
    match value_node(tree, node) {
        Some(v) => if initializer_source(tree, v as int) is Some {
            initializer_type_spec(tree, v as int)
        } else if path_text(tree.text_of(v as int)) {
            TypeRefV::Unresolved(split_qualified_name_spec(tree.text_of(v as int)))
        } else {
            fallback
        },
        None => fallback,
    }
}

/// A best-effort type for an implicitly typed local (`let x = ...`, `auto y = ...`):
/// the type instantiated, named or called by the initialiser, or the initialiser's
/// own name; else that of the first initialiser among its children; `Failed`
/// where none is found.
pub fn infer_variable_type(tree: &SyntaxTree, node: usize) -> (r: TypeRef)
    requires
        tree.wf(),
        node < tree.size(),
    ensures
        r@ == infer_spec(*tree, node as int),
{
    let mut val = tree.child_by_field_name(node, "value");
    if val.is_none() {
        val = tree.child_by_field_name(node, "right");
    }
    if let Some(v) = val {
        if let Some(t) = initializer_type(tree, v) {
            return t;
        }
        let cs = chars_of(tree.text(v));
        if cs.len() > 0 && is_path_text(&cs) {
            return TypeRef::Unresolved(split_qualified_name(tree.text(v)));
        }
    }
    let kids = tree.children(node);
    let mut i: usize = 0;
    while i < kids.len()
        invariant
            tree.wf(),
            kids@ == tree.kids_of(node as int),
            match value_node(*tree, node as int) {
                Some(v) => initializer_source(*tree, v as int) is None && !path_text(tree.text_of(v as int)),
                None => true,
            },
            i <= kids@.len(),
            forall|k: int| 0 <= k < kids@.len() ==> #[trigger] kids@[k] < tree.size(),
            forall|j: int| 0 <= j < i ==> initializer_source(*tree, #[trigger] kids@[j] as int) is None,
        decreases kids.len() - i,
    {
        if let Some(t) = initializer_type(tree, kids[i]) {
            proof {
                assert(first_initializer(*tree, node as int, i as int));
                assert forall|k: int| first_initializer(*tree, node as int, k) implies k == i by {
                    if k < i {
                        assert(initializer_source(*tree, kids@[k] as int) is None);
                    }
                    if k > i {
                        assert(initializer_source(*tree, kids@[i as int] as int) is None);
                    }
                }
            }
            return t;
        }
        i += 1;
    }
    proof {
        assert forall|k: int| !first_initializer(*tree, node as int, k) by {
            if 0 <= k < kids@.len() {
                assert(initializer_source(*tree, kids@[k] as int) is None);
            }
        }
    }
    let none: Vec<String> = Vec::new();
    proof {
        assert(none.deep_view() =~= Seq::<Seq<char>>::empty());
    }
    TypeRef::Failed(none)
}

/// The behavioural dependencies found below a node, by category.
pub struct DepsV {
    pub calls: Seq<TypeRefV>,
    pub instantiates: Seq<TypeRefV>,
    pub accesses: Seq<TypeRefV>,
    pub type_casts: Seq<TypeRefV>,
}

/// No dependency.
pub open spec fn no_deps() -> DepsV {
    DepsV {
        calls: Seq::empty(),
        instantiates: Seq::empty(),
        accesses: Seq::empty(),
        type_casts: Seq::empty(),
    }
}

/// The dependencies of `a`, then those of `b`, category by category.
pub open spec fn dcat(a: DepsV, b: DepsV) -> DepsV {
    DepsV {
        calls: a.calls + b.calls,
        instantiates: a.instantiates + b.instantiates,
        accesses: a.accesses + b.accesses,
        type_casts: a.type_casts + b.type_casts,
    }
}

/// Appending no dependency changes nothing; appending is associative.
proof fn lemma_dcat(a: DepsV, b: DepsV, c: DepsV)
    ensures
        dcat(a, no_deps()) == a,
        dcat(no_deps(), a) == a,
        dcat(dcat(a, b), c) == dcat(a, dcat(b, c)),
{
    assert(dcat(a, no_deps()).calls =~= a.calls);
    assert(dcat(a, no_deps()).instantiates =~= a.instantiates);
    assert(dcat(a, no_deps()).accesses =~= a.accesses);
    assert(dcat(a, no_deps()).type_casts =~= a.type_casts);
    assert(dcat(no_deps(), a).calls =~= a.calls);
    assert(dcat(no_deps(), a).instantiates =~= a.instantiates);
    assert(dcat(no_deps(), a).accesses =~= a.accesses);
    assert(dcat(no_deps(), a).type_casts =~= a.type_casts);
    assert(dcat(dcat(a, b), c).calls =~= dcat(a, dcat(b, c)).calls);
    assert(dcat(dcat(a, b), c).instantiates =~= dcat(a, dcat(b, c)).instantiates);
    assert(dcat(dcat(a, b), c).accesses =~= dcat(a, dcat(b, c)).accesses);
    assert(dcat(dcat(a, b), c).type_casts =~= dcat(a, dcat(b, c)).type_casts);
}

/// The four lists of dependencies, by their views.
pub open spec fn deps_view(
    calls: Seq<TypeRef>,
    instantiates: Seq<TypeRef>,
    accesses: Seq<TypeRef>,
    type_casts: Seq<TypeRef>,
) -> DepsV {
    DepsV {
        calls: typerefs_view(calls),
        instantiates: typerefs_view(instantiates),
        accesses: typerefs_view(accesses),
        type_casts: typerefs_view(type_casts),
    }
}

/// Pushing one reference adds its view at the end.
proof fn lemma_push_view(s: Seq<TypeRef>, x: TypeRef)
    ensures
        typerefs_view(s.push(x)) == typerefs_view(s) + seq![x@],
{
    assert(s.push(x) =~= s + seq![x]);
    lemma_typerefs_view_concat(s, seq![x]);
    crate::model::queries::lemma_typerefs_view(seq![x]);
    assert(typerefs_view(seq![x]) =~= seq![x@]);
}

/// An optional reference read from a child, as a list of at most one type.
pub open spec fn opt_type(tree: SyntaxTree, node: int, c: Option<usize>) -> Seq<TypeRefV> {
    match c {
        Some(t) => if node < t < tree.size() {
            seq![type_of(tree, t as int)]
        } else {
            Seq::empty()
        },
        None => Seq::empty(),
    }
}

/// Kinds of the function of a call that make it a call dependency.
pub open spec fn callee_kind(k: Seq<char>) -> bool {
    k == "qualified_identifier"@ || k == "scoped_identifier"@ || k == "field_expression"@ || k
        == "attribute"@ || k == "identifier"@ || k == "type_identifier"@
}

/// The object a callee is called on: its `object`, `value`, `left` or `argument`
/// field.
pub open spec fn callee_object(tree: SyntaxTree, f: int) -> Option<usize> {
    if tree.field_child(f, "object"@) is Some {
        tree.field_child(f, "object"@)
    } else if tree.field_child(f, "value"@) is Some {
        tree.field_child(f, "value"@)
    } else if tree.field_child(f, "left"@) is Some {
        tree.field_child(f, "left"@)
    } else {
        tree.field_child(f, "argument"@)
    }
}

/// The dependencies of a call: its function as a call, and the object the
/// function is called on as an access.
pub open spec fn call_deps(tree: SyntaxTree, node: int) -> DepsV {
    match tree.field_child(node, "function"@) {
        Some(f) => if callee_kind(tree.kind_of(f as int)) && node < f < tree.size() {
            DepsV {
                calls: seq![type_of(tree, f as int)],
                instantiates: Seq::empty(),
                accesses: opt_type(tree, f as int, callee_object(tree, f as int)),
                type_casts: Seq::empty(),
            }
        } else {
            no_deps()
        },
        None => no_deps(),
    }
}

/// The function of a call as a call dependency, and the object it is called on as
/// an access.
fn extract_call_dependency(
    tree: &SyntaxTree,
    node: usize,
    calls: &mut Vec<TypeRef>,
    accesses: &mut Vec<TypeRef>,
)
    requires
        tree.wf(),
        node < tree.size(),
    ensures
        typerefs_view(final(calls)@) == typerefs_view(old(calls)@) + call_deps(*tree, node as int).calls,
        typerefs_view(final(accesses)@) == typerefs_view(old(accesses)@) + call_deps(
            *tree,
            node as int,
        ).accesses,
{
    let ghost c0 = typerefs_view(calls@);
    let ghost a0 = typerefs_view(accesses@);
    if let Some(f) = tree.child_by_field_name(node, "function") {
        let fk = tree.kind(f);
        if str_eq(fk, "qualified_identifier") || str_eq(fk, "scoped_identifier") || str_eq(
            fk,
            "field_expression",
        ) || str_eq(fk, "attribute") || str_eq(fk, "identifier") || str_eq(fk, "type_identifier") {
            let t = extract_type_ref(tree, f);
            proof {
                lemma_push_view(calls@, t);
            }
            calls.push(t);
            let mut obj = tree.child_by_field_name(f, "object");
            if obj.is_none() {
                obj = tree.child_by_field_name(f, "value");
            }
            if obj.is_none() {
                obj = tree.child_by_field_name(f, "left");
            }
            if obj.is_none() {
                obj = tree.child_by_field_name(f, "argument");
            }
            assert(obj == callee_object(*tree, f as int));
            if let Some(o) = obj {
                let t2 = extract_type_ref(tree, o);
                proof {
                    lemma_push_view(accesses@, t2);
                }
                accesses.push(t2);
            } else {
                assert(typerefs_view(accesses@) =~= a0 + Seq::<TypeRefV>::empty());
            }
            return;
        }
    }
    assert(typerefs_view(calls@) =~= c0 + Seq::<TypeRefV>::empty());
    assert(typerefs_view(accesses@) =~= a0 + Seq::<TypeRefV>::empty());
}

/// Kinds that are read as an access.
pub open spec fn access_kind(k: Seq<char>) -> bool {
    k == "field_access"@ || k == "member_expression"@ || k == "property_identifier"@ || k
        == "member_access"@ || k == "identifier"@ || k == "scoped_identifier"@ || k
        == "qualified_identifier"@ || k == "field_expression"@ || k == "attribute"@
}

/// Kinds that are read as an access.
fn is_access_kind(k: &str) -> (r: bool)
    ensures
        r == access_kind(k@),
{
    str_eq(k, "field_access") || str_eq(k, "member_expression") || str_eq(k, "property_identifier")
        || str_eq(k, "member_access") || str_eq(k, "identifier") || str_eq(k, "scoped_identifier")
        || str_eq(k, "qualified_identifier") || str_eq(k, "field_expression") || str_eq(
        k,
        "attribute",
    )
}

/// The name parts a node gives when its type is an unresolved name.
pub open spec fn name_parts(tree: SyntaxTree, node: int, c: Option<usize>) -> Seq<Seq<char>> {
    match c {
        Some(t) => if node < t < tree.size() {
            match type_of(tree, t as int) {
                TypeRefV::Unresolved(q) => q,
                _ => Seq::empty(),
            }
        } else {
            Seq::empty()
        },
        None => Seq::empty(),
    }
}

/// The dependencies a node gives by itself: the type it instantiates, the call it
/// makes (for a Java `method_invocation`, its object and name parts joined), the
/// object called on and the node itself as accesses, and the type it casts to.
pub open spec fn own_deps(tree: SyntaxTree, node: int) -> DepsV {
    let k = tree.kind_of(node);
    let inst = if k == "object_creation_expression"@ || k == "new_expression"@ {
        opt_type(tree, node, tree.field_child(node, "type"@))
    } else if k == "struct_expression"@ {
        opt_type(tree, node, tree.field_child(node, "name"@))
    } else {
        Seq::empty()
    };
    let is_call = k == "call_expression"@ || k == "call"@;
    let parts = name_parts(tree, node, tree.field_child(node, "object"@)) + name_parts(
        tree,
        node,
        tree.field_child(node, "name"@),
    );
    let calls = if is_call {
        call_deps(tree, node).calls
    } else if k == "method_invocation"@ && parts.len() > 0 {
        seq![TypeRefV::Unresolved(parts)]
    } else {
        Seq::empty()
    };
    let acc = if is_call {
        call_deps(tree, node).accesses
    } else {
        Seq::empty()
    };
    let acc2 = if access_kind(k) {
        seq![type_of(tree, node)]
    } else {
        Seq::empty()
    };
    let casts = if k == "cast_expression"@ || k == "type_cast_expression"@ {
        opt_type(tree, node, tree.field_child(node, "type"@))
    } else {
        Seq::empty()
    };
    DepsV { calls: calls, instantiates: inst, accesses: acc + acc2, type_casts: casts }
}

/// The child a call's or invocation's walk leaves out: its `function` field, else
/// its `name` field.
pub open spec fn skipped_child(tree: SyntaxTree, node: int) -> Option<usize> {
    let k = tree.kind_of(node);
    if k == "call_expression"@ || k == "call"@ || k == "method_invocation"@ {
        if tree.field_child(node, "function"@) is Some {
            tree.field_child(node, "function"@)
        } else {
            tree.field_child(node, "name"@)
        }
    } else {
        None
    }
}

/// Kinds of paths whose parts are not searched.
pub open spec fn path_kind(k: Seq<char>) -> bool {
    k == "scoped_identifier"@ || k == "qualified_identifier"@ || k == "field_access"@ || k
        == "member_expression"@
}

/// The behavioural dependencies below `node`, nested blocks excluded.
pub open spec fn deps_of(tree: SyntaxTree, node: int) -> DepsV
    decreases tree.size() - node, 3int, 0int,
{
    let k = tree.kind_of(node);
    if block_kind(k) {
        no_deps()
    } else if k == "token_tree"@ {
        dcat(own_deps(tree, node), macro_from(tree, node, 0, Seq::empty(), true))
    } else if path_kind(k) {
        own_deps(tree, node)
    } else {
        dcat(own_deps(tree, node), kids_deps(tree, node, 0))
    }
}

/// The dependencies below the children of `node` from the `i`-th on, the skipped
/// child left out.
pub open spec fn kids_deps(tree: SyntaxTree, node: int, i: int) -> DepsV
    decreases tree.size() - node, 2int, tree.kids_of(node).len() - i,
{
    if 0 <= i < tree.kids_of(node).len() {
        let c = tree.kids_of(node)[i];
        dcat(
            if skipped_child(tree, node) != Some(c) && node < c < tree.size() {
                deps_of(tree, c as int)
            } else {
                no_deps()
            },
            kids_deps(tree, node, i + 1),
        )
    } else {
        no_deps()
    }
}

/// An access to `path`, where it is not empty.
pub open spec fn path_access(path: Seq<Seq<char>>) -> DepsV {
    if path.len() > 0 {
        DepsV {
            calls: Seq::empty(),
            instantiates: Seq::empty(),
            accesses: seq![TypeRefV::Unresolved(path)],
            type_casts: Seq::empty(),
        }
    } else {
        no_deps()
    }
}

/// Kinds of the tokens of a macro that name a path part.
pub open spec fn macro_ident_kind(k: Seq<char>) -> bool {
    k == "identifier"@ || k == "type_identifier"@ || k == "scoped_identifier"@
}

/// The dependencies read from the tokens of a macro's token tree from the `i`-th
/// on, with `path` read so far and `expect` telling whether a name part is
/// expected: names joined by `.` or `::` make a path, a path followed by a token
/// tree is a call, and any other token ends the path as an access and is searched.
pub open spec fn macro_from(
    tree: SyntaxTree,
    node: int,
    i: int,
    path: Seq<Seq<char>>,
    expect: bool,
) -> DepsV
    decreases tree.size() - node, 1int, tree.kids_of(node).len() - i,
{
    if 0 <= i < tree.kids_of(node).len() {
        let c = tree.kids_of(node)[i];
        let ck = tree.kind_of(c as int);
        if expect && macro_ident_kind(ck) {
            let more = if ck == "scoped_identifier"@ {
                split_qualified_name_spec(tree.text_of(c as int))
            } else {
                seq![tree.text_of(c as int)]
            };
            macro_from(tree, node, i + 1, path + more, false)
        } else if !expect && (ck == "."@ || ck == "::"@) {
            macro_from(tree, node, i + 1, path, true)
        } else if !expect && ck == "token_tree"@ {
            dcat(
                DepsV {
                    calls: seq![TypeRefV::Unresolved(path)],
                    instantiates: Seq::empty(),
                    accesses: Seq::empty(),
                    type_casts: Seq::empty(),
                },
                macro_from(tree, node, i + 1, path, expect),
            )
        } else {
            dcat(
                path_access(path),
                dcat(
                    if node < c < tree.size() {
                        deps_of(tree, c as int)
                    } else {
                        no_deps()
                    },
                    macro_from(tree, node, i + 1, Seq::empty(), true),
                ),
            )
        }
    } else {
        path_access(path)
    }
}

/// The four lists grew by `d`.
pub open spec fn grew(
    c0: Seq<TypeRef>,
    i0: Seq<TypeRef>,
    a0: Seq<TypeRef>,
    t0: Seq<TypeRef>,
    c1: Seq<TypeRef>,
    i1: Seq<TypeRef>,
    a1: Seq<TypeRef>,
    t1: Seq<TypeRef>,
    d: DepsV,
) -> bool {
    deps_view(c1, i1, a1, t1) == dcat(deps_view(c0, i0, a0, t0), d)
}

/// The behavioural dependencies below `node`, nested blocks excluded:
/// instantiations, calls, accesses and casts; token trees of macros are read by
/// coalescing their tokens.
fn find_behavioral_deps(
    tree: &SyntaxTree,
    node: usize,
    calls: &mut Vec<TypeRef>,
    instantiates: &mut Vec<TypeRef>,
    accesses: &mut Vec<TypeRef>,
    type_casts: &mut Vec<TypeRef>,
)
    requires
        tree.wf(),
        node < tree.size(),
    ensures
        grew(
            old(calls)@,
            old(instantiates)@,
            old(accesses)@,
            old(type_casts)@,
            final(calls)@,
            final(instantiates)@,
            final(accesses)@,
            final(type_casts)@,
            deps_of(*tree, node as int),
        ),
    decreases tree.size() - node, 1nat,
{
    let ghost start = deps_view(calls@, instantiates@, accesses@, type_casts@);
    let kind = tree.kind(node);
    if is_block_kind(kind) {
        proof {
            lemma_dcat(start, no_deps(), no_deps());
        }
        return;
    }
    let ghost ic0 = typerefs_view(instantiates@);
    if str_eq(kind, "object_creation_expression") || str_eq(kind, "new_expression") {
        if let Some(t) = tree.child_by_field_name(node, "type") {
            let x = extract_type_ref(tree, t);
            proof {
                lemma_push_view(instantiates@, x);
            }
            instantiates.push(x);
        }
    } else if str_eq(kind, "struct_expression") {
        if let Some(n) = tree.child_by_field_name(node, "name") {
            let x = extract_type_ref(tree, n);
            proof {
                lemma_push_view(instantiates@, x);
            }
            instantiates.push(x);
        }
    }
    proof {
        assert(typerefs_view(instantiates@) =~= ic0 + own_deps(*tree, node as int).instantiates);
    }
    let ghost cc0 = typerefs_view(calls@);
    let ghost ac0 = typerefs_view(accesses@);
    let is_call = str_eq(kind, "call_expression") || str_eq(kind, "call");
    if is_call {
        extract_call_dependency(tree, node, calls, accesses);
    } else if str_eq(kind, "method_invocation") {
        let mut parts: Vec<String> = Vec::new();
        let obj_f = tree.child_by_field_name(node, "object");
        if let Some(obj) = obj_f {
            if let TypeRef::Unresolved(qn) = extract_type_ref(tree, obj) {
                let mut q = qn;
                parts.append(&mut q);
            }
        }
        proof {
            assert(parts.deep_view() =~= name_parts(*tree, node as int, obj_f));
        }
        let ghost p1 = parts.deep_view();
        let name_f = tree.child_by_field_name(node, "name");
        if let Some(name) = name_f {
            if let TypeRef::Unresolved(qn) = extract_type_ref(tree, name) {
                let mut q = qn;
                let ghost qv = q.deep_view();
                parts.append(&mut q);
                proof {
                    assert(parts.deep_view() =~= p1 + qv);
                }
            }
        }
        proof {
            assert(parts.deep_view() =~= name_parts(*tree, node as int, obj_f) + name_parts(
                *tree,
                node as int,
                name_f,
            ));
        }
        if parts.len() > 0 {
            let x = TypeRef::Unresolved(parts);
            proof {
                lemma_push_view(calls@, x);
            }
            calls.push(x);
        } else {
            assert(typerefs_view(calls@) =~= cc0 + Seq::<TypeRefV>::empty());
        }
        assert(typerefs_view(accesses@) =~= ac0 + Seq::<TypeRefV>::empty());
    } else {
        assert(typerefs_view(calls@) =~= cc0 + Seq::<TypeRefV>::empty());
        assert(typerefs_view(accesses@) =~= ac0 + Seq::<TypeRefV>::empty());
    }
    let ghost ac1 = typerefs_view(accesses@);
    if is_access_kind(kind) {
        let x = extract_type_ref(tree, node);
        proof {
            lemma_push_view(accesses@, x);
        }
        accesses.push(x);
    } else {
        assert(typerefs_view(accesses@) =~= ac1 + Seq::<TypeRefV>::empty());
    }
    let ghost tc0 = typerefs_view(type_casts@);
    if str_eq(kind, "cast_expression") || str_eq(kind, "type_cast_expression") {
        if let Some(t) = tree.child_by_field_name(node, "type") {
            let x = extract_type_ref(tree, t);
            proof {
                lemma_push_view(type_casts@, x);
            }
            type_casts.push(x);
        }
    }
    proof {
        assert(typerefs_view(type_casts@) =~= tc0 + own_deps(*tree, node as int).type_casts);
        assert(typerefs_view(calls@) =~= cc0 + own_deps(*tree, node as int).calls);
        assert(typerefs_view(accesses@) =~= ac0 + own_deps(*tree, node as int).accesses);
        assert(deps_view(calls@, instantiates@, accesses@, type_casts@) == dcat(
            start,
            own_deps(*tree, node as int),
        ));
    }
    let ghost mid = deps_view(calls@, instantiates@, accesses@, type_casts@);
    if str_eq(kind, "token_tree") {
        parse_token_tree_macro(tree, node, calls, instantiates, accesses, type_casts);
        proof {
            lemma_dcat(start, own_deps(*tree, node as int), macro_from(*tree, node as int, 0, Seq::empty(), true));
        }
        return;
    }
    if str_eq(kind, "scoped_identifier") || str_eq(kind, "qualified_identifier") || str_eq(
        kind,
        "field_access",
    ) || str_eq(kind, "member_expression") {
        return;
    }
    let mut skip: Option<usize> = None;
    if is_call || str_eq(kind, "method_invocation") {
        skip = tree.child_by_field_name(node, "function");
        if skip.is_none() {
            skip = tree.child_by_field_name(node, "name");
        }
    }
    assert(skip == skipped_child(*tree, node as int));
    let kids = tree.children(node);
    let mut i: usize = 0;
    proof {
        lemma_dcat(mid, no_deps(), no_deps());
        lemma_dcat(no_deps(), kids_deps(*tree, node as int, 0), no_deps());
    }
    while i < kids.len()
        invariant
            tree.wf(),
            node < tree.size(),
            kids@ == tree.kids_of(node as int),
            skip == skipped_child(*tree, node as int),
            i <= kids@.len(),
            forall|k: int| 0 <= k < kids@.len() ==> node < #[trigger] kids@[k] < tree.size(),
            dcat(deps_view(calls@, instantiates@, accesses@, type_casts@), kids_deps(*tree, node as int, i as int))
                == dcat(mid, kids_deps(*tree, node as int, 0)),
        decreases kids.len() - i,
    {
        let c = kids[i];
        let ghost before = deps_view(calls@, instantiates@, accesses@, type_casts@);
        let ghost rest = kids_deps(*tree, node as int, i + 1);
        if skip != Some(c) {
            find_behavioral_deps(tree, c, calls, instantiates, accesses, type_casts);
            proof {
                lemma_dcat(before, deps_of(*tree, c as int), rest);
            }
        } else {
            proof {
                lemma_dcat(before, no_deps(), rest);
            }
        }
        i += 1;
    }
    proof {
        lemma_dcat(deps_view(calls@, instantiates@, accesses@, type_casts@), no_deps(), no_deps());
        lemma_dcat(start, own_deps(*tree, node as int), kids_deps(*tree, node as int, 0));
    }
}

/// Reads the flat tokens of a macro's token tree: identifiers joined by `.` or `::`
/// make a path; a path followed by a token tree is a call; any other token ends the
/// path as an access and is searched itself.
fn parse_token_tree_macro(
    tree: &SyntaxTree,
    node: usize,
    calls: &mut Vec<TypeRef>,
    instantiates: &mut Vec<TypeRef>,
    accesses: &mut Vec<TypeRef>,
    type_casts: &mut Vec<TypeRef>,
)
    requires
        tree.wf(),
        node < tree.size(),
    ensures
        grew(
            old(calls)@,
            old(instantiates)@,
            old(accesses)@,
            old(type_casts)@,
            final(calls)@,
            final(instantiates)@,
            final(accesses)@,
            final(type_casts)@,
            macro_from(*tree, node as int, 0, Seq::empty(), true),
        ),
    decreases tree.size() - node, 0nat,
{
    let ghost start = deps_view(calls@, instantiates@, accesses@, type_casts@);
    let ghost total = macro_from(*tree, node as int, 0, Seq::empty(), true);
    let mut current_path: Vec<String> = Vec::new();
    let mut expect_ident = true;
    let kids = tree.children(node);
    let mut i: usize = 0;
    proof {
        assert(current_path.deep_view() =~= Seq::<Seq<char>>::empty());
    }
    while i < kids.len()
        invariant
            tree.wf(),
            node < tree.size(),
            kids@ == tree.kids_of(node as int),
            i <= kids@.len(),
            total == macro_from(*tree, node as int, 0, Seq::empty(), true),
            forall|k: int| 0 <= k < kids@.len() ==> node < #[trigger] kids@[k] < tree.size(),
            dcat(
                deps_view(calls@, instantiates@, accesses@, type_casts@),
                macro_from(*tree, node as int, i as int, current_path.deep_view(), expect_ident),
            ) == dcat(start, total),
        decreases kids.len() - i,
    {
        let child = kids[i];
        let ck = tree.kind(child);
        let ghost before = deps_view(calls@, instantiates@, accesses@, type_casts@);
        let ghost path0 = current_path.deep_view();
        let ident_kind = str_eq(ck, "identifier") || str_eq(ck, "type_identifier") || str_eq(
            ck,
            "scoped_identifier",
        );
        if expect_ident && ident_kind {
            if str_eq(ck, "scoped_identifier") {
                let mut parts = split_qualified_name(tree.text(child));
                let ghost pv = parts.deep_view();
                current_path.append(&mut parts);
                proof {
                    assert(current_path.deep_view() =~= path0 + pv);
                }
            } else {
                let t = to_owned_string(tree.text(child));
                current_path.push(t);
                proof {
                    assert(current_path.deep_view() =~= path0 + seq![tree.text_of(child as int)]);
                }
            }
            expect_ident = false;
        } else if !expect_ident && (str_eq(ck, ".") || str_eq(ck, "::")) {
            expect_ident = true;
        } else if !expect_ident && str_eq(ck, "token_tree") {
            let q = clone_qn(&current_path);
            let x = TypeRef::Unresolved(q);
            proof {
                lemma_push_view(calls@, x);
            }
            calls.push(x);
            proof {
                let d = DepsV {
                    calls: seq![TypeRefV::Unresolved(path0)],
                    instantiates: Seq::empty(),
                    accesses: Seq::empty(),
                    type_casts: Seq::empty(),
                };
                assert(deps_view(calls@, instantiates@, accesses@, type_casts@) =~= dcat(before, d));
                lemma_dcat(before, d, macro_from(*tree, node as int, i + 1, path0, expect_ident));
            }
        } else {
            if current_path.len() > 0 {
                let q = clone_qn(&current_path);
                let x = TypeRef::Unresolved(q);
                proof {
                    lemma_push_view(accesses@, x);
                }
                accesses.push(x);
                proof {
                    assert(deps_view(calls@, instantiates@, accesses@, type_casts@) =~= dcat(
                        before,
                        path_access(path0),
                    ));
                }
            } else {
                proof {
                    assert(path_access(path0) == no_deps());
                    lemma_dcat(before, no_deps(), no_deps());
                }
            }
            let ghost after_acc = deps_view(calls@, instantiates@, accesses@, type_casts@);
            current_path = Vec::new();
            expect_ident = true;
            find_behavioral_deps(tree, child, calls, instantiates, accesses, type_casts);
            proof {
                assert(current_path.deep_view() =~= Seq::<Seq<char>>::empty());
                let rest = macro_from(*tree, node as int, i + 1, Seq::empty(), true);
                lemma_dcat(before, path_access(path0), dcat(deps_of(*tree, child as int), rest));
                lemma_dcat(after_acc, deps_of(*tree, child as int), rest);
            }
        }
        i += 1;
    }
    let ghost before = deps_view(calls@, instantiates@, accesses@, type_casts@);
    if current_path.len() > 0 {
        let x = TypeRef::Unresolved(current_path);
        proof {
            lemma_push_view(accesses@, x);
        }
        accesses.push(x);
        proof {
            assert(deps_view(calls@, instantiates@, accesses@, type_casts@) =~= dcat(
                before,
                path_access(x->Unresolved_0.deep_view()),
            ));
        }
    } else {
        proof {
            lemma_dcat(before, no_deps(), no_deps());
        }
    }
}

/// Kinds of statements that declare a local.
pub open spec fn declaration_kind(k: Seq<char>) -> bool {
    k == "field_declaration"@ || k == "property_declaration"@ || k == "field"@ || k
        == "member_declaration"@ || k == "variable_declarator"@ || k == "attribute"@ || k
        == "local_variable_declaration"@ || k == "lexical_declaration"@ || k
        == "variable_declaration"@ || k == "let_declaration"@ || k == "assignment"@ || k
        == "declaration"@ || k == "for_range_loop"@ || k == "for_in_statement"@ || k
        == "catch_clause"@
}

/// Kinds of statements that declare a local.
fn is_declaration_kind(k: &str) -> (r: bool)
    ensures
        r == declaration_kind(k@),
{
    str_eq(k, "field_declaration") || str_eq(k, "property_declaration") || str_eq(k, "field")
        || str_eq(k, "member_declaration") || str_eq(k, "variable_declarator") || str_eq(
        k,
        "attribute",
    ) || str_eq(k, "local_variable_declaration") || str_eq(k, "lexical_declaration") || str_eq(
        k,
        "variable_declaration",
    ) || str_eq(k, "let_declaration") || str_eq(k, "assignment") || str_eq(k, "declaration")
        || str_eq(k, "for_range_loop") || str_eq(k, "for_in_statement") || str_eq(k, "catch_clause")
}

/// The name declared by a declaration statement: read below its `declarator` (or
/// `left`) field, at that node's `name` field where it has one; else at its own
/// `name` field; else at the statement itself.
pub open spec fn declared_name_spec(tree: SyntaxTree, c: int) -> Option<Seq<char>> {
    let d = if tree.field_child(c, "declarator"@) is Some {
        tree.field_child(c, "declarator"@)
    } else {
        tree.field_child(c, "left"@)
    };
    match d {
        Some(dn) => match tree.field_child(dn as int, "name"@) {
            Some(nn) => identifier_spec(tree, nn as int),
            None => identifier_spec(tree, dn as int),
        },
        None => match tree.field_child(c, "name"@) {
            Some(nn) => identifier_spec(tree, nn as int),
            None => identifier_spec(tree, c),
        },
    }
}

/// The declared name of a declaration statement.
fn declared_name(tree: &SyntaxTree, child: usize) -> (r: Option<String>)
    requires
        tree.wf(),
        child < tree.size(),
    ensures
        r matches Some(t) ==> t@.len() > 0,
        opt_str_view(r) == declared_name_spec(*tree, child as int),
{
    let mut decl_node = tree.child_by_field_name(child, "declarator");
    if decl_node.is_none() {
        decl_node = tree.child_by_field_name(child, "left");
    }
    if let Some(d) = decl_node {
        if let Some(name_node) = tree.child_by_field_name(d, "name") {
            extract_identifier(tree, name_node)
        } else {
            extract_identifier(tree, d)
        }
    } else if let Some(name_node) = tree.child_by_field_name(child, "name") {
        extract_identifier(tree, name_node)
    } else {
        extract_identifier(tree, child)
    }
}

/// The type of a local declared as `name`: that under its `type` field, else the
/// inferred one; where that failed, the statement's own type unless it failed too
/// or is just the name.
pub open spec fn declared_type_spec(tree: SyntaxTree, c: int, name: Seq<char>) -> TypeRefV {
    let ty = match tree.field_child(c, "type"@) {
        Some(t) => type_of(tree, t as int),
        None => infer_spec(tree, c),
    };
    let e = type_of(tree, c);
    if ty is Failed && !(e is Failed) && !(e matches TypeRefV::Unresolved(q) && q.len() == 1 && q[0]
        == name) {
        e
    } else {
        ty
    }
}

/// The type of a declared local: its `type` field, else the inferred type, else
/// the node's own type unless that is just the variable's name.
fn declared_type(tree: &SyntaxTree, child: usize, name: &String) -> (r: TypeRef)
    requires
        tree.wf(),
        child < tree.size(),
    ensures
        r@ == declared_type_spec(*tree, child as int, name@),
{
    let mut ty = match tree.child_by_field_name(child, "type") {
        Some(t) => extract_type_ref(tree, t),
        None => infer_variable_type(tree, child),
    };
    if is_failed(&ty) {
        let extracted = extract_type_ref(tree, child);
        if !is_failed(&extracted) {
            let same = match &extracted {
                TypeRef::Unresolved(q) => {
                    let r = q.len() == 1 && crate::text_util::str_eq(q[0].as_str(), name.as_str());
                    proof {
                        if q@.len() == 1 {
                            assert(q.deep_view()[0] == q@[0]@);
                        }
                    }
                    r
                },
                _ => false,
            };
            if !same {
                ty = extracted;
            }
        }
    }
    ty
}

/// Whether every local declared in a block (at any depth) has a non-empty name.
pub open spec fn named_locals(b: Block) -> bool
    decreases b,
{
    &&& forall|k: int| 0 <= k < b.declarations@.len() ==> (#[trigger] b.declarations@[k]).name@.len() > 0
    &&& forall|k: int| 0 <= k < b.sub_blocks@.len() ==> named_locals(#[trigger] b.sub_blocks@[k])
}

/// An empty block.
pub open spec fn empty_block() -> BlockV {
    BlockV {
        declarations: Seq::empty(),
        calls: Seq::empty(),
        instantiates: Seq::empty(),
        accesses: Seq::empty(),
        type_casts: Seq::empty(),
        sub_blocks: Seq::empty(),
    }
}

/// The contents of `a`, then those of `b`, list by list.
pub open spec fn bcat(a: BlockV, b: BlockV) -> BlockV {
    BlockV {
        declarations: a.declarations + b.declarations,
        calls: a.calls + b.calls,
        instantiates: a.instantiates + b.instantiates,
        accesses: a.accesses + b.accesses,
        type_casts: a.type_casts + b.type_casts,
        sub_blocks: a.sub_blocks + b.sub_blocks,
    }
}

/// Appending nothing changes nothing; appending is associative.
proof fn lemma_bcat(a: BlockV, b: BlockV, c: BlockV)
    ensures
        bcat(a, empty_block()) == a,
        bcat(dcat_block(a, b), c) == bcat(a, bcat(b, c)),
{
    assert(bcat(a, empty_block()).declarations =~= a.declarations);
    assert(bcat(a, empty_block()).calls =~= a.calls);
    assert(bcat(a, empty_block()).instantiates =~= a.instantiates);
    assert(bcat(a, empty_block()).accesses =~= a.accesses);
    assert(bcat(a, empty_block()).type_casts =~= a.type_casts);
    assert(bcat(a, empty_block()).sub_blocks =~= a.sub_blocks);
    assert(bcat(dcat_block(a, b), c).declarations =~= bcat(a, bcat(b, c)).declarations);
    assert(bcat(dcat_block(a, b), c).calls =~= bcat(a, bcat(b, c)).calls);
    assert(bcat(dcat_block(a, b), c).instantiates =~= bcat(a, bcat(b, c)).instantiates);
    assert(bcat(dcat_block(a, b), c).accesses =~= bcat(a, bcat(b, c)).accesses);
    assert(bcat(dcat_block(a, b), c).type_casts =~= bcat(a, bcat(b, c)).type_casts);
    assert(bcat(dcat_block(a, b), c).sub_blocks =~= bcat(a, bcat(b, c)).sub_blocks);
}

/// `bcat`, named apart for the associativity law.
pub open spec fn dcat_block(a: BlockV, b: BlockV) -> BlockV {
    bcat(a, b)
}

/// Behavioural dependencies as the contents of a block.
pub open spec fn deps_block(d: DepsV) -> BlockV {
    BlockV {
        declarations: Seq::empty(),
        calls: d.calls,
        instantiates: d.instantiates,
        accesses: d.accesses,
        type_casts: d.type_casts,
        sub_blocks: Seq::empty(),
    }
}

/// The statement a child of a block stands for: the first child of an
/// `expression_statement`, the child itself otherwise.
pub open spec fn statement_of(tree: SyntaxTree, c: int) -> int {
    if tree.kind_of(c) == "expression_statement"@ && tree.kids_of(c).len() > 0 {
        tree.kids_of(c)[0] as int
    } else {
        c
    }
}

/// Kinds of the left side of an assignment to a member, which declares nothing.
pub open spec fn member_left_kind(k: Seq<char>) -> bool {
    k == "attribute"@ || k == "field_expression"@ || k == "subscript_expression"@ || k
        == "member_expression"@
}

/// Whether a statement declares a local.
pub open spec fn declares_local(tree: SyntaxTree, st: int) -> bool {
    declaration_kind(tree.kind_of(st)) && !(tree.kind_of(st) == "assignment"@ && tree.field_child(
        st,
        "left"@,
    ) is Some && member_left_kind(tree.kind_of(tree.field_child(st, "left"@)->0 as int)))
}

/// The node whose dependencies a declaration statement gives: its `value`,
/// `right` or `declarator` field, else the statement itself.
pub open spec fn decl_target(tree: SyntaxTree, st: int) -> int {
    if tree.field_child(st, "value"@) is Some {
        tree.field_child(st, "value"@)->0 as int
    } else if tree.field_child(st, "right"@) is Some {
        tree.field_child(st, "right"@)->0 as int
    } else if tree.field_child(st, "declarator"@) is Some {
        tree.field_child(st, "declarator"@)->0 as int
    } else {
        st
    }
}

/// Kinds of statements whose nested blocks are read as sub-blocks.
pub open spec fn loop_kind(k: Seq<char>) -> bool {
    k == "for_range_loop"@ || k == "for_in_statement"@ || k == "catch_clause"@
}

/// The local a declaration statement declares, if it names one.
pub open spec fn local_of(tree: SyntaxTree, st: int) -> Seq<FieldV> {
    match declared_name_spec(tree, st) {
        Some(n) => seq![
            FieldV {
                name: n,
                ty: declared_type_spec(tree, st, n),
                annotations: annotations_spec(tree, st),
            },
        ],
        None => Seq::empty(),
    }
}

/// The contents of the block read from `node`: one statement after another.
pub open spec fn block_of(tree: SyntaxTree, node: int) -> BlockV
    decreases tree.size() - node, 3int, 0int,
{
    block_from(tree, node, 0)
}

/// The contents given by the statements of `node` from its `i`-th child on: a
/// declaration gives its local, the dependencies of its target and, for a loop or
/// catch clause, one sub-block per nested block; a block gives a sub-block; any
/// other statement gives its dependencies.
pub open spec fn block_from(tree: SyntaxTree, node: int, i: int) -> BlockV
    decreases tree.size() - node, 2int, tree.kids_of(node).len() - i,
{
    if 0 <= i < tree.kids_of(node).len() {
        let st = statement_of(tree, tree.kids_of(node)[i] as int);
        let here = if !(node < st < tree.size()) {
            empty_block()
        } else if declares_local(tree, st) {
            bcat(
                BlockV { declarations: local_of(tree, st), ..empty_block() },
                bcat(
                    deps_block(deps_of(tree, decl_target(tree, st))),
                    if loop_kind(tree.kind_of(st)) {
                        BlockV { sub_blocks: nested_blocks(tree, st, 0), ..empty_block() }
                    } else {
                        empty_block()
                    },
                ),
            )
        } else if block_kind(tree.kind_of(st)) {
            BlockV { sub_blocks: seq![block_of(tree, st)], ..empty_block() }
        } else {
            deps_block(deps_of(tree, st))
        };
        bcat(here, block_from(tree, node, i + 1))
    } else {
        empty_block()
    }
}

/// The blocks among the children of `st` from the `j`-th on, each read as a block.
pub open spec fn nested_blocks(tree: SyntaxTree, st: int, j: int) -> Seq<BlockV>
    decreases tree.size() - st, 1int, tree.kids_of(st).len() - j,
{
    if 0 <= j < tree.kids_of(st).len() {
        let g = tree.kids_of(st)[j];
        (if block_kind(tree.kind_of(g as int)) && st < g < tree.size() {
            seq![block_of(tree, g as int)]
        } else {
            Seq::empty()
        }) + nested_blocks(tree, st, j + 1)
    } else {
        Seq::empty()
    }
}

/// Pushing a block adds its view at the end.
proof fn lemma_blocks_view_push(s: Seq<Block>, b: Block)
    ensures
        blocks_view(s.push(b)) == blocks_view(s) + seq![b@],
    decreases s.len(),
{
    if s.len() == 0 {
        assert(s.push(b).drop_first() =~= Seq::<Block>::empty());
        assert(blocks_view(s.push(b).drop_first()) =~= Seq::<BlockV>::empty());
        assert(s.push(b)[0] == b);
        assert(blocks_view(s.push(b)) =~= seq![b@]);
        assert(blocks_view(s) + seq![b@] =~= seq![b@]);
    } else {
        lemma_blocks_view_push(s.drop_first(), b);
        assert(s.push(b).drop_first() =~= s.drop_first().push(b));
        assert(s.push(b)[0] == s[0]);
        assert(blocks_view(s.push(b)) =~= blocks_view(s) + seq![b@]);
    }
}

/// The view of a block's lists as they are being filled.
pub open spec fn parts_view(
    decls: Seq<Field>,
    calls: Seq<TypeRef>,
    instantiates: Seq<TypeRef>,
    accesses: Seq<TypeRef>,
    type_casts: Seq<TypeRef>,
    subs: Seq<Block>,
) -> BlockV {
    BlockV {
        declarations: fields_view(decls),
        calls: typerefs_view(calls),
        instantiates: typerefs_view(instantiates),
        accesses: typerefs_view(accesses),
        type_casts: typerefs_view(type_casts),
        sub_blocks: blocks_view(subs),
    }
}

/// Recursively reads a block: the locals it declares (name, type, annotations),
/// the calls, instantiations, accesses and casts at its own level, and one
/// sub-block per nested block (loop and catch bodies included).
pub fn extract_block(tree: &SyntaxTree, node: usize) -> (r: Block)
    requires
        tree.wf(),
        node < tree.size(),
    ensures
        named_locals(r),
        r@ == block_of(*tree, node as int),
    decreases tree.size() - node,
{
    let mut declarations: Vec<Field> = Vec::new();
    let mut calls: Vec<TypeRef> = Vec::new();
    let mut instantiates: Vec<TypeRef> = Vec::new();
    let mut accesses: Vec<TypeRef> = Vec::new();
    let mut type_casts: Vec<TypeRef> = Vec::new();
    let mut sub_blocks: Vec<Block> = Vec::new();
    let kids = tree.children(node);
    let ghost total = block_from(*tree, node as int, 0);
    let mut i: usize = 0;
    proof {
        assert(parts_view(declarations@, calls@, instantiates@, accesses@, type_casts@, sub_blocks@)
            == empty_block()) by {
            assert(fields_view(declarations@) =~= Seq::<FieldV>::empty());
            assert(typerefs_view(calls@) =~= Seq::<TypeRefV>::empty());
            assert(typerefs_view(instantiates@) =~= Seq::<TypeRefV>::empty());
            assert(typerefs_view(accesses@) =~= Seq::<TypeRefV>::empty());
            assert(typerefs_view(type_casts@) =~= Seq::<TypeRefV>::empty());
        }
        assert(bcat(empty_block(), total) =~= total);
    }
    while i < kids.len()
        invariant
            tree.wf(),
            node < tree.size(),
            kids@ == tree.kids_of(node as int),
            i <= kids@.len(),
            total == block_from(*tree, node as int, 0),
            forall|k: int| 0 <= k < kids@.len() ==> node < #[trigger] kids@[k] < tree.size(),
            forall|k: int| 0 <= k < declarations@.len() ==> (#[trigger] declarations@[k]).name@.len() > 0,
            forall|k: int| 0 <= k < sub_blocks@.len() ==> named_locals(#[trigger] sub_blocks@[k]),
            bcat(
                parts_view(declarations@, calls@, instantiates@, accesses@, type_casts@, sub_blocks@),
                block_from(*tree, node as int, i as int),
            ) == total,
        decreases kids.len() - i,
    {
        let ghost before = parts_view(declarations@, calls@, instantiates@, accesses@, type_casts@, sub_blocks@);
        let ghost rest = block_from(*tree, node as int, i + 1);
        let mut child = kids[i];
        if str_eq(tree.kind(child), "expression_statement") {
            if let Some(inner) = tree.child(child, 0) {
                child = inner;
            }
        }
        assert(child as int == statement_of(*tree, kids@[i as int] as int));
        let kind = tree.kind(child);
        let mut is_declaration = is_declaration_kind(kind);
        if str_eq(kind, "assignment") {
            if let Some(left) = tree.child_by_field_name(child, "left") {
                let lk = tree.kind(left);
                if str_eq(lk, "attribute") || str_eq(lk, "field_expression") || str_eq(
                    lk,
                    "subscript_expression",
                ) || str_eq(lk, "member_expression") {
                    is_declaration = false;
                }
            }
        }
        assert(is_declaration == declares_local(*tree, child as int));
        if is_declaration {
            let ghost d0 = fields_view(declarations@);
            if let Some(name) = declared_name(tree, child) {
                let ty = declared_type(tree, child, &name);
                let annotations = extract_annotations(tree, child);
                let f = Field { name, ty, annotations };
                proof {
                    assert(declarations@.push(f).map_values(|x: Field| x@) =~= declarations@.map_values(
                        |x: Field| x@,
                    ).push(f@));
                }
                declarations.push(f);
                proof {
                    assert(fields_view(declarations@) =~= d0 + local_of(*tree, child as int));
                }
            } else {
                proof {
                    assert(fields_view(declarations@) =~= d0 + local_of(*tree, child as int));
                }
            }
            let mut val = tree.child_by_field_name(child, "value");
            if val.is_none() {
                val = tree.child_by_field_name(child, "right");
            }
            if val.is_none() {
                val = tree.child_by_field_name(child, "declarator");
            }
            let target = match val {
                Some(v) => v,
                None => child,
            };
            assert(target as int == decl_target(*tree, child as int));
            let ghost mid = parts_view(declarations@, calls@, instantiates@, accesses@, type_casts@, sub_blocks@);
            find_behavioral_deps(
                tree,
                target,
                &mut calls,
                &mut instantiates,
                &mut accesses,
                &mut type_casts,
            );
            let ghost s0 = blocks_view(sub_blocks@);
            let ghost nested: Seq<BlockV> = Seq::empty();
            if str_eq(kind, "for_range_loop") || str_eq(kind, "for_in_statement") || str_eq(
                kind,
                "catch_clause",
            ) {
                let grand = tree.children(child);
                let mut j: usize = 0;
                proof {
                    assert(blocks_view(sub_blocks@) + nested_blocks(*tree, child as int, 0) =~= s0
                        + nested_blocks(*tree, child as int, 0));
                }
                while j < grand.len()
                    invariant
                        tree.wf(),
                        node < tree.size(),
                        node < child < tree.size(),
                        grand@ == tree.kids_of(child as int),
                        j <= grand@.len(),
                        forall|k: int| 0 <= k < grand@.len() ==> child < #[trigger] grand@[k] < tree.size(),
                        forall|k: int| 0 <= k < sub_blocks@.len() ==> named_locals(#[trigger] sub_blocks@[k]),
                        blocks_view(sub_blocks@) + nested_blocks(*tree, child as int, j as int) == s0
                            + nested_blocks(*tree, child as int, 0),
                    decreases grand.len() - j,
                {
                    let ghost sv = blocks_view(sub_blocks@);
                    let ghost nrest = nested_blocks(*tree, child as int, j + 1);
                    if is_block_kind(tree.kind(grand[j])) {
                        let blk = extract_block(tree, grand[j]);
                        proof {
                            lemma_blocks_view_push(sub_blocks@, blk);
                        }
                        sub_blocks.push(blk);
                        proof {
                            assert(blocks_view(sub_blocks@) + nrest =~= sv + (seq![blk@] + nrest));
                        }
                    } else {
                        proof {
                            assert(sv + nrest =~= sv + (Seq::<BlockV>::empty() + nrest));
                        }
                    }
                    j += 1;
                }
                proof {
                    assert(blocks_view(sub_blocks@) =~= s0 + nested_blocks(*tree, child as int, 0));
                    nested = nested_blocks(*tree, child as int, 0);
                }
            } else {
                proof {
                    assert(blocks_view(sub_blocks@) =~= s0 + nested);
                }
            }
            proof {
                let here = bcat(
                    BlockV { declarations: local_of(*tree, child as int), ..empty_block() },
                    bcat(
                        deps_block(deps_of(*tree, decl_target(*tree, child as int))),
                        if loop_kind(tree.kind_of(child as int)) {
                            BlockV { sub_blocks: nested_blocks(*tree, child as int, 0), ..empty_block() }
                        } else {
                            empty_block()
                        },
                    ),
                );
                let now = parts_view(declarations@, calls@, instantiates@, accesses@, type_casts@, sub_blocks@);
                assert(now.declarations =~= before.declarations + here.declarations);
                assert(now.calls =~= before.calls + here.calls);
                assert(now.instantiates =~= before.instantiates + here.instantiates);
                assert(now.accesses =~= before.accesses + here.accesses);
                assert(now.type_casts =~= before.type_casts + here.type_casts);
                assert(now.sub_blocks =~= before.sub_blocks + here.sub_blocks);
                assert(now == bcat(before, here));
                lemma_bcat(before, here, rest);
            }
        } else if is_block_kind(kind) {
            let blk = extract_block(tree, child);
            proof {
                lemma_blocks_view_push(sub_blocks@, blk);
            }
            sub_blocks.push(blk);
            proof {
                let here = BlockV { sub_blocks: seq![block_of(*tree, child as int)], ..empty_block() };
                let now = parts_view(declarations@, calls@, instantiates@, accesses@, type_casts@, sub_blocks@);
                assert(now.declarations =~= before.declarations + here.declarations);
                assert(now.calls =~= before.calls + here.calls);
                assert(now.instantiates =~= before.instantiates + here.instantiates);
                assert(now.accesses =~= before.accesses + here.accesses);
                assert(now.type_casts =~= before.type_casts + here.type_casts);
                assert(now.sub_blocks =~= before.sub_blocks + here.sub_blocks);
                assert(now == bcat(before, here));
                lemma_bcat(before, here, rest);
            }
        } else {
            find_behavioral_deps(
                tree,
                child,
                &mut calls,
                &mut instantiates,
                &mut accesses,
                &mut type_casts,
            );
            proof {
                let here = deps_block(deps_of(*tree, child as int));
                let now = parts_view(declarations@, calls@, instantiates@, accesses@, type_casts@, sub_blocks@);
                assert(now.declarations =~= before.declarations + here.declarations);
                assert(now.calls =~= before.calls + here.calls);
                assert(now.instantiates =~= before.instantiates + here.instantiates);
                assert(now.accesses =~= before.accesses + here.accesses);
                assert(now.type_casts =~= before.type_casts + here.type_casts);
                assert(now.sub_blocks =~= before.sub_blocks + here.sub_blocks);
                assert(now == bcat(before, here));
                lemma_bcat(before, here, rest);
            }
        }
        i += 1;
    }
    proof {
        lemma_bcat(
            parts_view(declarations@, calls@, instantiates@, accesses@, type_casts@, sub_blocks@),
            empty_block(),
            empty_block(),
        );
    }
    Block { declarations, calls, instantiates, accesses, type_casts, sub_blocks }
}

} // verus!
