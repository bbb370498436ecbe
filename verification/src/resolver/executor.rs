//! Query evaluation: every type reference of the modules is evaluated against the scope tree.
use crate::assoc::MapKey;
use crate::config::AnalyzerConfig;
use crate::model::queries::{
    clone_qn, clone_typerefs, lemma_typerefs_view, query_path, query_text, typerefs_view, Query,
    TypeRef, TypeRefV,
};
use crate::model::components::{
    opt_str_view, Block, Field, Function, ImplBlock, Module, Parameter, StructuredType, TypeAlias,
    TypeParameter,
};
use crate::model::shape::{
    same_aliases, same_block, same_field, same_fields, same_function, same_functions,
    same_impl_block, same_impl_blocks, same_module, same_modules, same_structured_type,
    same_structured_types, same_type_param, same_type_params,
};
use crate::resolver::evaluated::{
    evaluated_fields, evaluated_function, evaluated_functions, evaluated_impl_block,
    evaluated_module, evaluated_modules, evaluated_refs, evaluated_structured_type,
    evaluated_structured_types, lemma_evaluated_modules, lemma_evaluated_structured_types,
};
use crate::resolver::primitives::PrimitiveRegistry;
use crate::resolver::scope::{
    ids_in_bounds, scope_path, scope_wf, Scope, ScopeId, ScopeTree, Symbol,
};
use crate::text_util::{join_spec, join_strings, str_eq};
use vstd::prelude::*;

verus! {

/// The human-readable rendering of a query: `a::b` for an extraction, `a()` for a call.
pub fn extract_base_name(query: &Query) -> (r: String)
    ensures
        r@ == query_text(*query),
    decreases query,
{
    match query {
        Query::Find(name) => name.clone(),
        Query::Extract(parent, member) => {
            let mut s = extract_base_name(parent);
            s.append("::");
            s.append(member.as_str());
            s
        },
        Query::Call(parent) => {
            let mut s = extract_base_name(parent);
            s.append("()");
            s
        },
    }
}

/// The static path of a query: its found name followed by each extracted member (calls add
/// nothing). Every query has one.
pub fn query_to_path(query: &Query) -> (r: Option<Vec<String>>)
    ensures
        r matches Some(p) && p.deep_view() == query_path(*query),
    decreases query,
{
    match query {
        Query::Find(name) => {
            let mut v: Vec<String> = Vec::new();
            v.push(name.clone());
            assert(v.deep_view() =~= seq![name@]);
            Some(v)
        },
        Query::Extract(parent, member) => {
            match query_to_path(parent) {
                Some(p) => {
                    let mut p = p;
                    let ghost before = p.deep_view();
                    p.push(member.clone());
                    assert(p.deep_view() =~= before.push(member@));
                    Some(p)
                },
                None => None,
            }
        },
        Query::Call(parent) => query_to_path(parent),
    }
}

/// The symbol bound to `k`, if any.
pub open spec fn sym_get(m: Map<Seq<char>, Symbol>, k: Seq<char>) -> Option<Symbol> {
    if m.dom().contains(k) {
        Some(m[k])
    } else {
        None
    }
}

/// The scope that `name` opens in scope `parent`: a submodule when `is_module`, a type
/// otherwise.
pub open spec fn child_scope(tree: ScopeTree, parent: int, name: Seq<char>, is_module: bool) -> Option<ScopeId> {
    match sym_get(tree.arena@[parent].symbols.map(), name) {
        Some(Symbol::Module(id)) => if is_module {
            Some(id)
        } else {
            None
        },
        Some(Symbol::Type(id)) => if !is_module {
            Some(id)
        } else {
            None
        },
        _ => None,
    }
}

/// The scope that `name` opens in scope `parent`: a submodule when `is_module`, a type
/// otherwise.
fn find_child_scope(tree: &ScopeTree, parent: ScopeId, name: &String, is_module: bool) -> (r: Option<ScopeId>)
    requires
        tree.wf(),
        parent < tree.len(),
    ensures
        r == child_scope(*tree, parent as int, name@, is_module),
        r matches Some(id) ==> id < tree.len(),
{
    assert(scope_wf(tree.arena@[parent as int], parent as int, tree.len()));
    match tree.arena[parent].symbols.get(name) {
        Some(Symbol::Module(id)) => if is_module {
            Some(*id)
        } else {
            None
        },
        Some(Symbol::Type(id)) => if !is_module {
            Some(*id)
        } else {
            None
        },
        _ => None,
    }
}

/// The language of a scope: its own, else that of the nearest enclosing scope that has one.
pub open spec fn scope_language(arena: Seq<Scope>, id: int) -> Option<Seq<char>>
    decreases id,
{
    if 0 <= id < arena.len() {
        match arena[id].language {
            Some(l) => Some(l@),
            None => match arena[id].parent {
                Some(p) => if p < id {
                    scope_language(arena, p as int)
                } else {
                    None
                },
                None => None,
            },
        }
    } else {
        None
    }
}

/// The language of a scope: its own, else that of the nearest enclosing scope that has one.
fn get_scope_language(tree: &ScopeTree, scope_id: ScopeId) -> (r: Option<String>)
    requires
        tree.wf(),
        scope_id < tree.len(),
    ensures
        opt_str_view(r) == scope_language(tree.arena@, scope_id as int),
{
    let mut curr = scope_id;
    loop
        invariant
            tree.wf(),
            curr < tree.len(),
            scope_language(tree.arena@, scope_id as int) == scope_language(tree.arena@, curr as int),
        decreases curr,
    {
        let s = &tree.arena[curr];
        assert(scope_wf(tree.arena@[curr as int], curr as int, tree.len()));
        match &s.language {
            Some(l) => {
                return Some(l.clone());
            },
            None => {},
        }
        match s.parent {
            Some(p) => {
                curr = p;
            },
            None => {
                return None;
            },
        }
    }
}

/// One step down a path: the scope a segment names in `curr` (a submodule or a type), else its
/// first child scope of that name.
pub open spec fn walk_step(tree: ScopeTree, curr: ScopeId, part: Seq<char>) -> Option<ScopeId> {
    match sym_get(tree.arena@[curr as int].symbols.map(), part) {
        Some(Symbol::Module(id)) => Some(id),
        Some(Symbol::Type(id)) => Some(id),
        _ => {
            let cb = tree.arena@[curr as int].children_by_name.map();
            if cb.dom().contains(part) && cb[part]@.len() > 0 {
                Some(cb[part]@[0])
            } else {
                None
            }
        },
    }
}

/// The scope reached from `curr` by the segments of `path` from index `i` on; a leading
/// `root` is skipped.
pub open spec fn walk_scopes(tree: ScopeTree, curr: ScopeId, path: Seq<Seq<char>>, i: int) -> Option<ScopeId>
    decreases path.len() - i,
{
    if i < 0 || i >= path.len() {
        Some(curr)
    } else if i == 0 && path[0] == "root"@ {
        walk_scopes(tree, curr, path, 1)
    } else {
        match walk_step(tree, curr, path[i]) {
            Some(n) => walk_scopes(tree, n, path, i + 1),
            None => None,
        }
    }
}

/// One step down a path, in the tree.
fn step_down(tree: &ScopeTree, curr: ScopeId, part: &String) -> (r: Option<ScopeId>)
    requires
        tree.wf(),
        curr < tree.len(),
    ensures
        r == walk_step(*tree, curr, part@),
        r matches Some(n) ==> n < tree.len(),
{
    assert(scope_wf(tree.arena@[curr as int], curr as int, tree.len()));
    match tree.arena[curr].symbols.get(part) {
        Some(Symbol::Module(id)) => {
            return Some(*id);
        },
        Some(Symbol::Type(id)) => {
            return Some(*id);
        },
        _ => {},
    }
    match tree.arena[curr].children_by_name.get(part) {
        Some(ids) => {
            if ids.len() > 0 {
                assert(ids_in_bounds(ids@, tree.len()));
                Some(ids[0])
            } else {
                None
            }
        },
        None => None,
    }
}

/// The scope a path leads to from the root.
fn walk_path(tree: &ScopeTree, path: &Vec<String>) -> (r: Option<ScopeId>)
    requires
        tree.wf(),
    ensures
        r == walk_scopes(*tree, 0, path.deep_view(), 0),
        r matches Some(n) ==> n < tree.len(),
{
    let ghost p = path.deep_view();
    let mut curr: ScopeId = tree.root;
    let mut i: usize = 0;
    while i < path.len()
        invariant
            tree.wf(),
            curr < tree.len(),
            i <= path@.len(),
            p == path.deep_view(),
            walk_scopes(*tree, 0, p, 0) == walk_scopes(*tree, curr, p, i as int),
        decreases path.len() - i,
    {
        if i == 0 && str_eq(path[0].as_str(), "root") {
            i = 1;
        } else {
            match step_down(tree, curr, &path[i]) {
                Some(n) => {
                    curr = n;
                    i += 1;
                },
                None => {
                    return None;
                },
            }
        }
    }
    Some(curr)
}

/// The scope a type reference denotes: the scope its path leads to, that of an access's
/// result or of a generic's base, or the first found among a type variable's bounds.
pub open spec fn scope_for_type(tree: ScopeTree, t: TypeRefV) -> Option<ScopeId>
    decreases t, 0nat,
{
    match t {
        TypeRefV::Resolved(qn) => walk_scopes(tree, 0, qn, 0),
        TypeRefV::External(qn) => walk_scopes(tree, 0, qn, 0),
        TypeRefV::EvaluatedAccess(_, inner) => scope_for_type(tree, *inner),
        TypeRefV::Generic { base, .. } => scope_for_type(tree, *base),
        TypeRefV::TypeVar { bounds, .. } => scope_for_bounds(tree, bounds),
        _ => None,
    }
}

/// The scope of the first bound that denotes one.
pub open spec fn scope_for_bounds(tree: ScopeTree, s: Seq<TypeRefV>) -> Option<ScopeId>
    decreases s, 1nat,
{
    if s.len() == 0 {
        None
    } else {
        match scope_for_type(tree, s[0]) {
            Some(x) => Some(x),
            None => scope_for_bounds(tree, s.drop_first()),
        }
    }
}

/// The scope of the first bound that denotes one.
fn scope_of_bounds(tree: &ScopeTree, bounds: &Vec<TypeRef>) -> (r: Option<ScopeId>)
    requires
        tree.wf(),
    ensures
        r == scope_for_bounds(*tree, typerefs_view(bounds@)),
        r matches Some(n) ==> n < tree.len(),
    decreases bounds,
{
    let ghost vs = typerefs_view(bounds@);
    proof {
        lemma_typerefs_view(bounds@);
        assert(vs.subrange(0, vs.len() as int) =~= vs);
    }
    let mut i: usize = 0;
    while i < bounds.len()
        invariant
            tree.wf(),
            i <= bounds@.len(),
            vs == typerefs_view(bounds@),
            vs.len() == bounds@.len(),
            forall|j: int| 0 <= j < bounds@.len() ==> #[trigger] vs[j] == bounds@[j]@,
            scope_for_bounds(*tree, vs) == scope_for_bounds(
                *tree,
                vs.subrange(i as int, vs.len() as int),
            ),
        decreases bounds.len() - i,
    {
        let ghost rest = vs.subrange(i as int, vs.len() as int);
        assert(rest[0] == bounds@[i as int]@);
        assert(rest.drop_first() =~= vs.subrange(i + 1, vs.len() as int));
        match find_scope_for_type(tree, &bounds[i]) {
            Some(sid) => {
                return Some(sid);
            },
            None => {},
        }
        i += 1;
    }
    assert(vs.subrange(i as int, vs.len() as int) =~= Seq::<TypeRefV>::empty());
    None
}

/// Locates the scope a type reference denotes.
pub fn find_scope_for_type(tree: &ScopeTree, ty: &TypeRef) -> (r: Option<ScopeId>)
    requires
        tree.wf(),
    ensures
        r == scope_for_type(*tree, ty@),
        r matches Some(n) ==> n < tree.len(),
    decreases ty,
{
    match ty {
        TypeRef::Resolved(qn) => walk_path(tree, qn),
        TypeRef::External(qn) => walk_path(tree, qn),
        TypeRef::EvaluatedAccess(_, inner) => find_scope_for_type(tree, inner),
        TypeRef::Generic { base, .. } => find_scope_for_type(tree, base),
        TypeRef::TypeVar { bounds, .. } => scope_of_bounds(tree, bounds),
        _ => None,
    }
}

/// The candidate scopes of a type reference: one per bound of a type variable that denotes a
/// scope, otherwise the scope it denotes, if any.
pub open spec fn candidate_scopes(tree: ScopeTree, t: TypeRefV) -> Seq<ScopeId>
    decreases t,
{
    match t {
        TypeRefV::TypeVar { bounds, .. } => bound_scopes(tree, bounds),
        TypeRefV::EvaluatedAccess(_, inner) => candidate_scopes(tree, *inner),
        _ => match scope_for_type(tree, t) {
            Some(s) => seq![s],
            None => Seq::empty(),
        },
    }
}

/// The scopes denoted by the bounds that denote one, in order.
pub open spec fn bound_scopes(tree: ScopeTree, s: Seq<TypeRefV>) -> Seq<ScopeId>
    decreases s.len(),
{
    if s.len() == 0 {
        Seq::empty()
    } else {
        let rest = bound_scopes(tree, s.drop_last());
        match scope_for_type(tree, s.last()) {
            Some(x) => rest.push(x),
            None => rest,
        }
    }
}

/// Locates all candidate scopes of a type reference (each bound of a type variable).
pub fn find_candidate_scopes_for_type(tree: &ScopeTree, ty: &TypeRef) -> (r: Vec<ScopeId>)
    requires
        tree.wf(),
    ensures
        r@ == candidate_scopes(*tree, ty@),
        ids_in_bounds(r@, tree.len()),
    decreases ty,
{
    match ty {
        TypeRef::TypeVar { bounds, .. } => {
            let ghost vs = typerefs_view(bounds@);
            proof {
                lemma_typerefs_view(bounds@);
            }
            let mut out: Vec<ScopeId> = Vec::new();
            let mut i: usize = 0;
            while i < bounds.len()
                invariant
                    tree.wf(),
                    i <= bounds@.len(),
                    vs == typerefs_view(bounds@),
                    vs.len() == bounds@.len(),
                    forall|j: int| 0 <= j < bounds@.len() ==> #[trigger] vs[j] == bounds@[j]@,
                    out@ == bound_scopes(*tree, vs.take(i as int)),
                    ids_in_bounds(out@, tree.len()),
                decreases bounds.len() - i,
            {
                assert(vs.take(i + 1).drop_last() =~= vs.take(i as int));
                assert(vs.take(i + 1).last() == bounds@[i as int]@);
                match find_scope_for_type(tree, &bounds[i]) {
                    Some(sid) => {
                        out.push(sid);
                    },
                    None => {},
                }
                i += 1;
            }
            assert(vs.take(bounds@.len() as int) =~= vs);
            out
        },
        TypeRef::EvaluatedAccess(_, inner) => find_candidate_scopes_for_type(tree, inner),
        _ => {
            let mut out: Vec<ScopeId> = Vec::new();
            match find_scope_for_type(tree, ty) {
                Some(s) => {
                    out.push(s);
                    assert(out@ =~= seq![s]);
                },
                None => {
                    assert(out@ =~= Seq::<ScopeId>::empty());
                },
            }
            out
        },
    }
}

/// The symbol a path names from the root: each segment but the last opens a scope (a leading
/// `root` or `crate` is skipped); the last is looked up in the scope reached.
pub open spec fn symbol_at_path(tree: ScopeTree, curr: ScopeId, path: Seq<Seq<char>>, i: int) -> Option<Symbol>
    decreases path.len() - i,
{
    if i < 0 || i >= path.len() {
        None
    } else if i == 0 && (path[0] == "root"@ || path[0] == "crate"@) {
        symbol_at_path(tree, curr, path, 1)
    } else if i == path.len() - 1 {
        sym_get(tree.arena@[curr as int].symbols.map(), path[i])
    } else {
        match walk_step(tree, curr, path[i]) {
            Some(n) => symbol_at_path(tree, n, path, i + 1),
            None => None,
        }
    }
}

/// The symbol a path names from the root.
fn find_symbol_by_path<'t>(tree: &'t ScopeTree, path: &Vec<String>) -> (r: Option<&'t Symbol>)
    requires
        tree.wf(),
    ensures
        match r {
            Some(s) => symbol_at_path(*tree, 0, path.deep_view(), 0) == Some(*s),
            None => symbol_at_path(*tree, 0, path.deep_view(), 0) is None,
        },
{
    let ghost p = path.deep_view();
    let mut curr: ScopeId = tree.root;
    let mut i: usize = 0;
    while i < path.len()
        invariant
            tree.wf(),
            curr < tree.len(),
            i <= path@.len(),
            p == path.deep_view(),
            symbol_at_path(*tree, 0, p, 0) == symbol_at_path(*tree, curr, p, i as int),
        decreases path.len() - i,
    {
        if i == 0 && (str_eq(path[0].as_str(), "root") || str_eq(path[0].as_str(), "crate")) {
            i = 1;
        } else if i == path.len() - 1 {
            assert(scope_wf(tree.arena@[curr as int], curr as int, tree.len()));
            return tree.arena[curr].symbols.get(&path[i]);
        } else {
            match step_down(tree, curr, &path[i]) {
                Some(n) => {
                    curr = n;
                    i += 1;
                },
                None => {
                    return None;
                },
            }
        }
    }
    None
}

/// Whether a path denotes a type: a primitive (as one name or joined with `::` or `.`), else a
/// type or alias symbol at that path, else (no symbol there) a scope there that is not a
/// module.
pub open spec fn path_is_type(tree: ScopeTree, prims: Set<Seq<char>>, p: Seq<Seq<char>>) -> bool {
    if p.len() == 1 && prims.contains(p[0]) {
        true
    } else if prims.contains(join_spec(p, "::"@)) || prims.contains(join_spec(p, "."@)) {
        true
    } else {
        match symbol_at_path(tree, 0, p, 0) {
            Some(sym) => sym is Type || sym is TypeAlias,
            None => match walk_scopes(tree, 0, p, 0) {
                Some(sid) => !tree.arena@[sid as int].is_module,
                None => false,
            },
        }
    }
}

/// Whether a reference denotes a type or a type alias (rather than a value or a module).
pub open spec fn type_or_alias(tree: ScopeTree, prims: Set<Seq<char>>, t: TypeRefV) -> bool
    decreases t,
{
    match t {
        TypeRefV::Primitive(_) => true,
        TypeRefV::Resolved(p) => path_is_type(tree, prims, p),
        TypeRefV::External(p) => path_is_type(tree, prims, p),
        TypeRefV::EvaluatedAccess(_, inner) => type_or_alias(tree, prims, *inner),
        TypeRefV::Generic { base, .. } => type_or_alias(tree, prims, *base),
        _ => false,
    }
}

fn path_denotes_type(tree: &ScopeTree, primitives: &PrimitiveRegistry, path: &Vec<String>) -> (r: bool)
    requires
        tree.wf(),
        primitives.wf(),
    ensures
        r == path_is_type(*tree, primitives.names(), path.deep_view()),
{
    if path.len() == 1 && primitives.is_primitive(path[0].as_str()) {
        return true;
    }
    let colon = join_strings(path, "::");
    let dot = join_strings(path, ".");
    if primitives.is_primitive(colon.as_str()) || primitives.is_primitive(dot.as_str()) {
        return true;
    }
    match find_symbol_by_path(tree, path) {
        Some(sym) => {
            return match sym {
                Symbol::Type(_) | Symbol::TypeAlias(_) => true,
                _ => false,
            };
        },
        None => {},
    }
    match walk_path(tree, path) {
        Some(sid) => !tree.arena[sid].is_module,
        None => false,
    }
}

/// Whether a reference denotes a type or a type alias.
fn is_type_or_alias(tree: &ScopeTree, primitives: &PrimitiveRegistry, tr: &TypeRef) -> (r: bool)
    requires
        tree.wf(),
        primitives.wf(),
    ensures
        r == type_or_alias(*tree, primitives.names(), tr@),
    decreases tr,
{
    match tr {
        TypeRef::Primitive(_) => true,
        TypeRef::Resolved(path) => path_denotes_type(tree, primitives, path),
        TypeRef::External(path) => path_denotes_type(tree, primitives, path),
        TypeRef::EvaluatedAccess(_, inner) => is_type_or_alias(tree, primitives, inner),
        TypeRef::Generic { base, .. } => is_type_or_alias(tree, primitives, base),
        _ => false,
    }
}

/// The constructor a reference to a type is redirected to, if any: for a resolved path
/// denoting a scope that binds `__init__`, `constructor` or the type's own name (in that
/// order of preference), the path extended by that name; for an access, its result redirected.
pub open spec fn ctor_redirect(tree: ScopeTree, t: TypeRefV) -> Option<TypeRefV>
    decreases t,
{
    match t {
        TypeRefV::Resolved(path) => match walk_scopes(tree, 0, path, 0) {
            Some(sid) => if path.len() > 0 {
                let syms = tree.arena@[sid as int].symbols.map();
                if syms.dom().contains("__init__"@) {
                    Some(TypeRefV::Resolved(path.push("__init__"@)))
                } else if syms.dom().contains("constructor"@) {
                    Some(TypeRefV::Resolved(path.push("constructor"@)))
                } else if syms.dom().contains(path.last()) {
                    Some(TypeRefV::Resolved(path.push(path.last())))
                } else {
                    None
                }
            } else {
                None
            },
            None => None,
        },
        TypeRefV::EvaluatedAccess(base, inner) => match ctor_redirect(tree, *inner) {
            Some(r) => Some(TypeRefV::EvaluatedAccess(base, Box::new(r))),
            None => None,
        },
        _ => None,
    }
}

/// A reference redirected to its constructor where it has one, else unchanged.
pub open spec fn redirected(tree: ScopeTree, t: TypeRefV) -> TypeRefV {
    match ctor_redirect(tree, t) {
        Some(r) => r,
        None => t,
    }
}

fn constructor_of(tree: &ScopeTree, tr: &TypeRef) -> (r: Option<TypeRef>)
    requires
        tree.wf(),
    ensures
        match r {
            Some(x) => ctor_redirect(*tree, tr@) == Some(x@),
            None => ctor_redirect(*tree, tr@) is None,
        },
    decreases tr,
{
    match tr {
        TypeRef::Resolved(path) => {
            match walk_path(tree, path) {
                Some(sid) => {
                    if path.len() > 0 {
                        assert(scope_wf(tree.arena@[sid as int], sid as int, tree.len()));
                        let last = &path[path.len() - 1];
                        let init_name = "__init__".to_string();
                        let ctor_name = "constructor".to_string();
                        let syms = &tree.arena[sid].symbols;
                        let chosen: Option<String> = if syms.contains_key(&init_name) {
                            Some(init_name)
                        } else if syms.contains_key(&ctor_name) {
                            Some(ctor_name)
                        } else if syms.contains_key(last) {
                            Some(last.clone())
                        } else {
                            None
                        };
                        match chosen {
                            Some(c) => {
                                let mut new_path = clone_qn(path);
                                let ghost before = new_path.deep_view();
                                let ghost cv = c@;
                                new_path.push(c);
                                assert(new_path.deep_view() =~= before.push(cv));
                                Some(TypeRef::Resolved(new_path))
                            },
                            None => None,
                        }
                    } else {
                        None
                    }
                },
                None => None,
            }
        },
        TypeRef::EvaluatedAccess(base, inner) => {
            match constructor_of(tree, inner) {
                Some(r) => Some(TypeRef::EvaluatedAccess(Box::new(base.duplicate()), Box::new(r))),
                None => None,
            }
        },
        _ => None,
    }
}

/// Redirects a reference to a type to the type's constructor, where it has one.
fn redirect_to_constructor(tree: &ScopeTree, tr: TypeRef) -> (r: TypeRef)
    requires
        tree.wf(),
    ensures
        r@ == redirected(*tree, tr@),
{
    match constructor_of(tree, &tr) {
        Some(x) => x,
        None => tr,
    }
}

/// The argument bound to a type parameter name: that of the last parameter so named among the
/// first `k` parameters (a map collected from the pairs keeps the last).
pub open spec fn bound_arg(names: Seq<Seq<char>>, args: Seq<TypeRefV>, n: Seq<char>, k: int) -> Option<TypeRefV>
    decreases k,
{
    if k <= 0 {
        None
    } else if names[k - 1] == n {
        Some(args[k - 1])
    } else {
        bound_arg(names, args, n, k - 1)
    }
}

/// The argument bound to a type parameter name.
pub open spec fn arg_for(names: Seq<Seq<char>>, args: Seq<TypeRefV>, n: Seq<char>) -> Option<TypeRefV> {
    bound_arg(names, args, n, if names.len() < args.len() { names.len() as int } else { args.len() as int })
}

/// A reference with each type parameter replaced by its argument: single-segment unresolved
/// names, the last segment of resolved paths, and type variables; through generics and accesses.
pub open spec fn subst_params(t: TypeRefV, names: Seq<Seq<char>>, args: Seq<TypeRefV>) -> TypeRefV
    decreases t, 0nat,
{
    match t {
        TypeRefV::Unresolved(qn) => if qn.len() == 1 {
            match arg_for(names, args, qn[0]) {
                Some(a) => a,
                None => t,
            }
        } else {
            t
        },
        TypeRefV::Resolved(qn) => if qn.len() > 0 {
            match arg_for(names, args, qn.last()) {
                Some(a) => a,
                None => t,
            }
        } else {
            t
        },
        TypeRefV::TypeVar { name, .. } => match arg_for(names, args, name) {
            Some(a) => a,
            None => t,
        },
        TypeRefV::Generic { base, args: gargs } => TypeRefV::Generic {
            base: Box::new(subst_params(*base, names, args)),
            args: subst_params_seq(gargs, names, args),
        },
        TypeRefV::EvaluatedAccess(acc, inner) => TypeRefV::EvaluatedAccess(
            acc,
            Box::new(subst_params(*inner, names, args)),
        ),
        _ => t,
    }
}

pub open spec fn subst_params_seq(s: Seq<TypeRefV>, names: Seq<Seq<char>>, args: Seq<TypeRefV>) -> Seq<TypeRefV>
    decreases s, 1nat,
{
    if s.len() == 0 {
        Seq::empty()
    } else {
        seq![subst_params(s[0], names, args)] + subst_params_seq(s.drop_first(), names, args)
    }
}

pub proof fn lemma_subst_params_seq(s: Seq<TypeRefV>, names: Seq<Seq<char>>, args: Seq<TypeRefV>)
    ensures
        subst_params_seq(s, names, args).len() == s.len(),
        forall|i: int|
            0 <= i < s.len() ==> #[trigger] subst_params_seq(s, names, args)[i] == subst_params(
                s[i],
                names,
                args,
            ),
    decreases s.len(),
{
    if s.len() > 0 {
        lemma_subst_params_seq(s.drop_first(), names, args);
        assert forall|i: int| 0 <= i < s.len() implies #[trigger] subst_params_seq(s, names, args)[i]
            == subst_params(s[i], names, args) by {
            if i > 0 {
                assert(s.drop_first()[i - 1] == s[i]);
            }
        }
    }
}

/// The argument bound to `n`, looked up among the parameter names and arguments.
fn lookup_arg(names: &Vec<String>, args: &Vec<TypeRef>, n: &String) -> (r: Option<TypeRef>)
    ensures
        match r {
            Some(a) => arg_for(names.deep_view(), typerefs_view(args@), n@) == Some(a@),
            None => arg_for(names.deep_view(), typerefs_view(args@), n@) is None,
        },
{
    proof {
        lemma_typerefs_view(args@);
    }
    let mut k: usize = if names.len() < args.len() {
        names.len()
    } else {
        args.len()
    };
    let ghost nv = names.deep_view();
    let ghost av = typerefs_view(args@);
    while k > 0
        invariant
            k <= names@.len(),
            k <= args@.len(),
            nv == names.deep_view(),
            av == typerefs_view(args@),
            av.len() == args@.len(),
            forall|j: int| 0 <= j < args@.len() ==> #[trigger] av[j] == args@[j]@,
            arg_for(nv, av, n@) == bound_arg(nv, av, n@, k as int),
        decreases k,
    {
        assert(nv[k - 1] == names@[k - 1]@);
        if str_eq(names[k - 1].as_str(), n.as_str()) {
            return Some(args[k - 1].duplicate());
        }
        k -= 1;
    }
    None
}

fn subst_type_params(tr: &TypeRef, names: &Vec<String>, args: &Vec<TypeRef>) -> (r: TypeRef)
    ensures
        r@ == subst_params(tr@, names.deep_view(), typerefs_view(args@)),
    decreases tr,
{
    match tr {
        TypeRef::Unresolved(qn) => {
            if qn.len() == 1 {
                match lookup_arg(names, args, &qn[0]) {
                    Some(a) => a,
                    None => tr.duplicate(),
                }
            } else {
                tr.duplicate()
            }
        },
        TypeRef::Resolved(qn) => {
            if qn.len() > 0 {
                match lookup_arg(names, args, &qn[qn.len() - 1]) {
                    Some(a) => a,
                    None => tr.duplicate(),
                }
            } else {
                tr.duplicate()
            }
        },
        TypeRef::TypeVar { name, .. } => {
            match lookup_arg(names, args, name) {
                Some(a) => a,
                None => tr.duplicate(),
            }
        },
        TypeRef::Generic { base, args: gargs } => {
            let new_base = subst_type_params(base, names, args);
            let new_args = subst_type_params_all(gargs, names, args);
            TypeRef::Generic { base: Box::new(new_base), args: new_args }
        },
        TypeRef::EvaluatedAccess(acc, inner) => {
            let new_inner = subst_type_params(inner, names, args);
            TypeRef::EvaluatedAccess(Box::new(acc.duplicate()), Box::new(new_inner))
        },
        _ => tr.duplicate(),
    }
}

fn subst_type_params_all(v: &Vec<TypeRef>, names: &Vec<String>, args: &Vec<TypeRef>) -> (r: Vec<TypeRef>)
    ensures
        typerefs_view(r@) == subst_params_seq(typerefs_view(v@), names.deep_view(), typerefs_view(args@)),
    decreases v,
{
    let ghost vv = typerefs_view(v@);
    proof {
        lemma_typerefs_view(v@);
        lemma_subst_params_seq(vv, names.deep_view(), typerefs_view(args@));
    }
    let mut out: Vec<TypeRef> = Vec::new();
    let mut i: usize = 0;
    while i < v.len()
        invariant
            i <= v@.len(),
            out@.len() == i,
            vv == typerefs_view(v@),
            vv.len() == v@.len(),
            forall|j: int| 0 <= j < v@.len() ==> #[trigger] vv[j] == v@[j]@,
            forall|j: int|
                0 <= j < i ==> #[trigger] out@[j]@ == subst_params(
                    v@[j]@,
                    names.deep_view(),
                    typerefs_view(args@),
                ),
        decreases v.len() - i,
    {
        out.push(subst_type_params(&v[i], names, args));
        i += 1;
    }
    proof {
        lemma_typerefs_view(out@);
        assert(typerefs_view(out@) =~= subst_params_seq(vv, names.deep_view(), typerefs_view(args@)));
    }
    out
}

/// Instantiates the type parameters of `target_scope` occurring in `res` with the concrete
/// arguments `type_args`, pairing them by position.
fn instantiate_generic_member_type(
    tree: &ScopeTree,
    target_scope: ScopeId,
    res: TypeRef,
    type_args: &Vec<TypeRef>,
) -> (r: TypeRef)
    requires
        tree.wf(),
        target_scope < tree.len(),
    ensures
        r@ == (if tree.arena@[target_scope as int].type_parameters@.len() == 0
            || type_args@.len() == 0 {
            res@
        } else {
            subst_params(
                res@,
                tree.arena@[target_scope as int].type_parameters.deep_view(),
                typerefs_view(type_args@),
            )
        }),
{
    let names = &tree.arena[target_scope].type_parameters;
    if names.len() == 0 || type_args.len() == 0 {
        return res;
    }
    subst_type_params(&res, names, type_args)
}

/// Whether scope `id` is bound as a type in scope `p`.
pub open spec fn is_type_child(tree: ScopeTree, p: int, id: ScopeId) -> bool {
    exists|k: Seq<char>|
        tree.arena@[p].symbols.map().dom().contains(k) && #[trigger] tree.arena@[p].symbols.map()[k]
            == Symbol::Type(id)
}

/// The nearest scope, from `id` outwards, that its parent binds as a type.
pub open spec fn self_scope(tree: ScopeTree, id: int) -> Option<ScopeId>
    decreases id,
{
    if 0 <= id < tree.len() {
        match tree.arena@[id].parent {
            Some(p) => if p < id {
                if is_type_child(tree, p as int, id as ScopeId) {
                    Some(id as ScopeId)
                } else {
                    self_scope(tree, p as int)
                }
            } else {
                None
            },
            None => None,
        }
    } else {
        None
    }
}

fn binds_as_type(tree: &ScopeTree, p: ScopeId, id: ScopeId) -> (r: bool)
    requires
        tree.wf(),
        p < tree.len(),
    ensures
        r == is_type_child(*tree, p as int, id),
{
    let ghost m = tree.arena@[p as int].symbols.map();
    assert(scope_wf(tree.arena@[p as int], p as int, tree.len()));
    let entries = &tree.arena[p].symbols.entries;
    proof {
        crate::assoc::lemma_entries_map(entries@);
    }
    let mut i: usize = 0;
    while i < entries.len()
        invariant
            i <= entries@.len(),
            entries@ == tree.arena@[p as int].symbols.entries@,
            m == crate::assoc::entries_map(entries@),
            crate::assoc::keys_unique(entries@),
            forall|j: int| 0 <= j < i ==> !(#[trigger] entries@[j].1 matches Symbol::Type(t) && t == id),
        decreases entries.len() - i,
    {
        match &entries[i].1 {
            Symbol::Type(t) => {
                if *t == id {
                    proof {
                        crate::assoc::lemma_entries_map(entries@);
                    }
                    assert(m[entries@[i as int].0.kview()] == entries@[i as int].1);
                    return true;
                }
            },
            _ => {},
        }
        i += 1;
    }
    assert forall|k: Seq<char>| m.dom().contains(k) implies #[trigger] m[k] != Symbol::Type(id) by {
        let j = choose|j: int| 0 <= j < entries@.len() && #[trigger] entries@[j].0.kview() == k;
        assert(m[entries@[j].0.kview()] == entries@[j].1);
    }
    false
}

/// Resolves `Self`: the nearest enclosing scope that is a structured type, as a resolved path.
fn resolve_self_keyword(tree: &ScopeTree, scope_id: ScopeId) -> (r: Option<TypeRef>)
    requires
        tree.wf(),
        scope_id < tree.len(),
    ensures
        match self_scope(*tree, scope_id as int) {
            Some(s) => r matches Some(x) && x@ == TypeRefV::Resolved(scope_path(tree.arena@, s as int)),
            None => r is None,
        },
{
    let mut curr = scope_id;
    loop
        invariant
            tree.wf(),
            curr < tree.len(),
            self_scope(*tree, scope_id as int) == self_scope(*tree, curr as int),
        decreases curr,
    {
        assert(scope_wf(tree.arena@[curr as int], curr as int, tree.len()));
        match tree.arena[curr].parent {
            Some(p) => {
                if binds_as_type(tree, p, curr) {
                    let path = tree.build_path_from_scope(curr);
                    return Some(TypeRef::Resolved(path));
                }
                curr = p;
            },
            None => {
                return None;
            },
        }
    }
}

/// How deeply queries may be evaluated within one another: as deep as the machine's word
/// allows, so that only a query on a cycle (caught by the evaluations in progress) fails.
pub const RESOLUTION_DEPTH: usize = usize::MAX;

/// The context of query evaluation: the scope tree, the primitives, the configuration, and the
/// super scopes of each scope as far as they have been resolved (`None` until then).
pub struct ExecutorContext<'a> {
    pub tree: &'a ScopeTree,
    pub primitives: &'a PrimitiveRegistry,
    pub config: &'a AnalyzerConfig,
    pub resolved_super_scopes: Vec<Option<Vec<ScopeId>>>,
}

impl<'a> ExecutorContext<'a> {
    pub open spec fn wf(&self) -> bool {
        &&& self.tree.wf()
        &&& self.primitives.wf()
        &&& self.config.wf()
        &&& self.resolved_super_scopes@.len() == self.tree.len()
        &&& forall|i: int|
            0 <= i < self.tree.len() ==> (#[trigger] self.resolved_super_scopes@[i] matches Some(v)
                ==> ids_in_bounds(v@, self.tree.len()))
    }

    /// The cached super scopes agree with the tree: a scope without super types has none.
    pub open spec fn cache_ok(&self) -> bool {
        forall|i: int|
            0 <= i < self.tree.len() ==> (#[trigger] self.resolved_super_scopes@[i] matches Some(v)
                ==> (self.tree.arena@[i].super_types@.len() == 0 ==> v@.len() == 0))
    }

    /// A context over a tree, with no super scopes resolved yet.
    pub fn new(
        tree: &'a ScopeTree,
        primitives: &'a PrimitiveRegistry,
        config: &'a AnalyzerConfig,
    ) -> (r: ExecutorContext<'a>)
        requires
            tree.wf(),
            primitives.wf(),
            config.wf(),
        ensures
            r.wf(),
            r.cache_ok(),
            r.tree == tree,
            r.primitives == primitives,
            r.config == config,
    {
        let mut cache: Vec<Option<Vec<ScopeId>>> = Vec::new();
        let n = tree.arena.len();
        let mut i: usize = 0;
        while i < n
            invariant
                i <= n,
                n == tree.len(),
                cache@.len() == i,
                forall|j: int| 0 <= j < i ==> #[trigger] cache@[j] is None,
            decreases n - i,
        {
            cache.push(None);
            i += 1;
        }
        ExecutorContext { tree, primitives, config, resolved_super_scopes: cache }
    }

    fn store_super_scopes(&mut self, id: ScopeId, v: Vec<ScopeId>)
        requires
            old(self).wf(),
            id < old(self).tree.len(),
            ids_in_bounds(v@, old(self).tree.len()),
            old(self).tree.arena@[id as int].super_types@.len() == 0 ==> v@.len() == 0,
        ensures
            kept(*old(self), *final(self)),
            final(self).resolved_super_scopes@[id as int] == Some(v),
    {
        self.resolved_super_scopes.set(id, Some(v));
        proof {
            assert forall|i: int| 0 <= i < self.tree.len() implies (#[trigger] self.resolved_super_scopes@[i] matches Some(w)
                ==> ids_in_bounds(w@, self.tree.len())) by {
                if i != id {
                    assert(old(self).resolved_super_scopes@[i] == self.resolved_super_scopes@[i]);
                }
            }
        }
    }
}

/// The context after an evaluation: still well formed, over the same tree, primitives and
/// configuration.
pub open spec fn kept(old: ExecutorContext, new: ExecutorContext) -> bool {
    &&& new.wf()
    &&& new.tree == old.tree
    &&& new.primitives == old.primitives
    &&& new.config == old.config
    &&& old.cache_ok() ==> new.cache_ok()
}

/// Whether a list of keys holds one equal to `k`.
pub open spec fn has_key(v: Seq<String>, k: Seq<char>) -> bool {
    exists|j: int| 0 <= j < v.len() && (#[trigger] v[j])@ == k
}

/// Marks `key` as under evaluation; false (and nothing changed) when it already is.
fn visit(visited: &mut Vec<String>, key: String) -> (r: bool)
    ensures
        r == !has_key(old(visited)@, key@),
        r ==> final(visited)@ == old(visited)@.push(key),
        !r ==> final(visited)@ == old(visited)@,
{
    let mut i: usize = 0;
    while i < visited.len()
        invariant
            i <= visited@.len(),
            visited@ == old(visited)@,
            forall|j: int| 0 <= j < i ==> (#[trigger] visited@[j])@ != key@,
        decreases visited.len() - i,
    {
        if str_eq(visited[i].as_str(), key.as_str()) {
            return false;
        }
        i += 1;
    }
    visited.push(key);
    true
}

/// Ends the evaluation marked by `key`: the first entry equal to it leaves the list, which is
/// otherwise unchanged.
fn unvisit(visited: &mut Vec<String>, key: &String)
    ensures
        old(visited)@.len() > 0 && old(visited)@.last()@ == key@ && !has_key(old(visited)@.drop_last(), key@)
            ==> final(visited)@ == old(visited)@.drop_last(),
        !has_key(old(visited)@, key@) ==> final(visited)@ == old(visited)@,
        has_key(old(visited)@, key@) ==> exists|i: int|
            0 <= i < old(visited)@.len() && (#[trigger] old(visited)@[i])@ == key@ && (forall|j: int|
                0 <= j < i ==> (#[trigger] old(visited)@[j])@ != key@) && final(visited)@ == old(
                visited,
            )@.remove(i),
{
    let mut i: usize = 0;
    while i < visited.len()
        invariant
            i <= visited@.len(),
            visited@ == old(visited)@,
            forall|j: int| 0 <= j < i ==> (#[trigger] visited@[j])@ != key@,
        decreases visited.len() - i,
    {
        if str_eq(visited[i].as_str(), key.as_str()) {
            proof {
                let o = old(visited)@;
                if o.len() > 0 && o.last()@ == key@ && !has_key(o.drop_last(), key@) {
                    if i < o.len() - 1 {
                        assert(o.drop_last()[i as int] == o[i as int]);
                        assert(false);
                    }
                }
            }
            visited.remove(i);
            proof {
                let o = old(visited)@;
                if o.len() > 0 && o.last()@ == key@ && !has_key(o.drop_last(), key@) {
                    assert(visited@ =~= o.drop_last());
                }
            }
            return ;
        }
        i += 1;
    }
    proof {
        let o = old(visited)@;
        if o.len() > 0 && o.last()@ == key@ {
            assert(o[o.len() - 1]@ == key@);
        }
    }
}

/// `prefix`, the decimal rendering of `id`, a colon and `rest`.
fn scoped_key(prefix: &str, id: usize, rest: &str) -> (r: String)
    ensures
        r@ == prefix@ + crate::text_util::decimal_spec(id as nat) + ":"@ + rest@,
{
    let mut k = crate::text_util::with_decimal(prefix, id);
    k.append(":");
    k.append(rest);
    k
}

/// The query a path stands for: a `Find` of its first segment, then one `Extract` per further
/// segment.
fn path_to_query(qn: &Vec<String>) -> (r: Query)
    requires
        qn@.len() > 0,
    ensures
        r == crate::model::queries::path_query(qn@),
{
    let mut q = Query::Find(qn[0].clone());
    let mut i: usize = 1;
    assert(qn@.take(1).len() == 1);
    assert(qn@.take(1)[0] == qn@[0]);
    while i < qn.len()
        invariant
            1 <= i <= qn@.len(),
            q == crate::model::queries::path_query(qn@.take(i as int)),
        decreases qn.len() - i,
    {
        assert(qn@.take(i + 1).drop_last() =~= qn@.take(i as int));
        assert(qn@.take(i + 1).last() == qn@[i as int]);
        q = Query::Extract(Box::new(q), qn[i].clone());
        i += 1;
    }
    assert(qn@.take(qn@.len() as int) =~= qn@);
    q
}

/// What evaluation keeps of a reference: the variant and name of every union, generic and type
/// variable and the number of their parts, each part evaluated in turn; a non-empty unresolved
/// path or a query may become anything; every other reference stays as it is.
pub open spec fn eval_shape(a: TypeRefV, b: TypeRefV) -> bool
    decreases a, 0nat,
{
    match a {
        TypeRefV::ResolutionQuery(_) => true,
        TypeRefV::Unresolved(qn) => qn.len() == 0 ==> b == a,
        TypeRefV::Union(vs) => b matches TypeRefV::Union(ws) && eval_shape_seq(vs, ws),
        TypeRefV::Generic { base, args } => b matches TypeRefV::Generic { base: b2, args: a2 }
            && eval_shape(*base, *b2) && eval_shape_seq(args, a2),
        TypeRefV::TypeVar { name, bounds } => b matches TypeRefV::TypeVar { name: n2, bounds: b2 }
            && n2 == name && eval_shape_seq(bounds, b2),
        _ => b == a,
    }
}

pub open spec fn eval_shape_seq(a: Seq<TypeRefV>, b: Seq<TypeRefV>) -> bool
    decreases a, 1nat,
{
    &&& a.len() == b.len()
    &&& a.len() > 0 ==> eval_shape(a[0], b[0]) && eval_shape_seq(a.drop_first(), b.drop_first())
}

pub proof fn lemma_eval_shape_refl(a: TypeRefV)
    ensures
        eval_shape(a, a),
    decreases a, 0nat,
{
    match a {
        TypeRefV::Union(vs) => lemma_eval_shape_seq_refl(vs),
        TypeRefV::Generic { base, args } => {
            lemma_eval_shape_refl(*base);
            lemma_eval_shape_seq_refl(args);
        },
        TypeRefV::TypeVar { name, bounds } => lemma_eval_shape_seq_refl(bounds),
        _ => {},
    }
}

pub proof fn lemma_eval_shape_seq_refl(a: Seq<TypeRefV>)
    ensures
        eval_shape_seq(a, a),
    decreases a, 1nat,
{
    if a.len() > 0 {
        lemma_eval_shape_refl(a[0]);
        lemma_eval_shape_seq_refl(a.drop_first());
    }
}

pub proof fn lemma_eval_shape_pointwise(a: Seq<TypeRefV>, b: Seq<TypeRefV>)
    requires
        a.len() == b.len(),
        forall|i: int| 0 <= i < a.len() ==> #[trigger] eval_shape(a[i], b[i]),
    ensures
        eval_shape_seq(a, b),
    decreases a.len(),
{
    if a.len() > 0 {
        assert(eval_shape(a[0], b[0]));
        assert forall|i: int| 0 <= i < a.drop_first().len() implies #[trigger] eval_shape(
            a.drop_first()[i],
            b.drop_first()[i],
        ) by {
            assert(eval_shape(a[i + 1], b[i + 1]));
        }
        lemma_eval_shape_pointwise(a.drop_first(), b.drop_first());
    }
}

/// A name that is looked up like any other (`super` and `Self` have rules of their own).
pub open spec fn plain_name(n: Seq<char>) -> bool {
    n != "super()"@ && n != "super"@ && n != "Self"@
}

/// The symbol that a `Find` of a plain name has in the scope itself, if any.
pub open spec fn local_binding(tree: ScopeTree, scope: ScopeId, q: Query) -> Option<Symbol> {
    match q {
        Query::Find(n) => if plain_name(n@) {
            sym_get(tree.arena@[scope as int].symbols.map(), n@)
        } else {
            None
        },
        _ => None,
    }
}

/// A query for a name bound in the scope where it is evaluated stands for that binding.
pub open spec fn resolves_locally(tree: ScopeTree, scope: ScopeId, tr: TypeRef, resolve_type: bool, r: TypeRefV) -> bool {
    match tr {
        TypeRef::ResolutionQuery(q) => match local_binding(tree, scope, q) {
            Some(sym) => symbol_ref_spec(tree, scope, sym, query_text(q), resolve_type, r),
            None => true,
        },
        _ => true,
    }
}

/// Evaluates a reference in scope `scope_id`: queries (and unresolved paths, as the query of
/// their path) are evaluated against the tree; a query that fails becomes `Failed` with its
/// text, an unresolved path that fails stays as it is; unions, generics and type variables are
/// evaluated part by part; every other reference is kept.
pub fn evaluate_typeref(
    ctx: &mut ExecutorContext,
    tr: TypeRef,
    scope_id: ScopeId,
    resolve_type: bool,
) -> (r: TypeRef)
    requires
        old(ctx).wf(),
        scope_id < old(ctx).tree.len(),
    ensures
        kept(*old(ctx), *final(ctx)),
        eval_shape(tr@, r@),
        resolves_locally(*old(ctx).tree, scope_id, tr, resolve_type, r@),
{
    let mut visited: Vec<String> = Vec::new();
    evaluate_typeref_inner(ctx, tr, scope_id, resolve_type, &mut visited, RESOLUTION_DEPTH)
}

/// Evaluates a reference, with the evaluations in progress in `visited` and `fuel` as the depth
/// left.
pub fn evaluate_typeref_inner(
    ctx: &mut ExecutorContext,
    tr: TypeRef,
    scope_id: ScopeId,
    resolve_type: bool,
    visited: &mut Vec<String>,
    fuel: usize,
) -> (r: TypeRef)
    requires
        old(ctx).wf(),
        scope_id < old(ctx).tree.len(),
    ensures
        final(visited)@ == old(visited)@,
        kept(*old(ctx), *final(ctx)),
        eval_shape(tr@, r@),
        fuel > 4 && old(visited)@.len() == 0 ==> resolves_locally(
            *old(ctx).tree,
            scope_id,
            tr,
            resolve_type,
            r@,
        ),
    decreases fuel,
{
    if fuel == 0 {
        proof {
            lemma_eval_shape_refl(tr@);
        }
        return tr;
    }
    match tr {
        TypeRef::ResolutionQuery(query) => {
            match evaluate_query(ctx, &query, scope_id, resolve_type, visited, fuel - 1) {
                Some(resolved) => resolved,
                None => {
                    let mut failed: Vec<String> = Vec::new();
                    failed.push(extract_base_name(&query));
                    TypeRef::Failed(failed)
                },
            }
        },
        TypeRef::Unresolved(qn) => {
            if qn.len() == 0 {
                return TypeRef::Unresolved(qn);
            }
            let query = path_to_query(&qn);
            match evaluate_query(ctx, &query, scope_id, resolve_type, visited, fuel - 1) {
                Some(resolved) => resolved,
                None => TypeRef::Unresolved(qn),
            }
        },
        TypeRef::Union(variants) => {
            let out = evaluate_all(ctx, &variants, scope_id, resolve_type, visited, fuel - 1);
            TypeRef::Union(out)
        },
        TypeRef::Generic { base, args } => {
            let base_eval = evaluate_typeref_inner(
                ctx,
                *base,
                scope_id,
                resolve_type,
                visited,
                fuel - 1,
            );
            let args_eval = evaluate_all(ctx, &args, scope_id, resolve_type, visited, fuel - 1);
            TypeRef::Generic { base: Box::new(base_eval), args: args_eval }
        },
        TypeRef::TypeVar { name, bounds } => {
            let bounds_eval = evaluate_all(ctx, &bounds, scope_id, resolve_type, visited, fuel - 1);
            TypeRef::TypeVar { name, bounds: bounds_eval }
        },
        other => {
            proof {
                lemma_eval_shape_refl(other@);
            }
            other
        },
    }
}

/// Evaluates each reference of a list, in order.
fn evaluate_all(
    ctx: &mut ExecutorContext,
    v: &Vec<TypeRef>,
    scope_id: ScopeId,
    resolve_type: bool,
    visited: &mut Vec<String>,
    fuel: usize,
) -> (r: Vec<TypeRef>)
    requires
        old(ctx).wf(),
        scope_id < old(ctx).tree.len(),
    ensures
        final(visited)@ == old(visited)@,
        kept(*old(ctx), *final(ctx)),
        eval_shape_seq(typerefs_view(v@), typerefs_view(r@)),
    decreases fuel,
{
    let mut out: Vec<TypeRef> = Vec::new();
    if fuel == 0 {
        out = clone_typerefs(v);
        proof {
            lemma_eval_shape_seq_refl(typerefs_view(v@));
        }
        return out;
    }
    let mut i: usize = 0;
    while i < v.len()
        invariant
            visited@ == old(visited)@,
            kept(*old(ctx), *ctx),
            scope_id < ctx.tree.len(),
            fuel > 0,
            i <= v@.len(),
            out@.len() == i,
            forall|j: int| 0 <= j < i ==> #[trigger] eval_shape(v@[j]@, out@[j]@),
        decreases v.len() - i,
    {
        let e = evaluate_typeref_inner(ctx, v[i].duplicate(), scope_id, resolve_type, visited, fuel - 1);
        out.push(e);
        i += 1;
    }
    proof {
        lemma_typerefs_view(v@);
        lemma_typerefs_view(out@);
        assert forall|j: int| 0 <= j < v@.len() implies #[trigger] eval_shape(
            typerefs_view(v@)[j],
            typerefs_view(out@)[j],
        ) by {
            assert(eval_shape(v@[j]@, out@[j]@));
        }
        lemma_eval_shape_pointwise(typerefs_view(v@), typerefs_view(out@));
    }
    out
}

/// Evaluates a query in scope `scope_id`; `None` when it cannot be answered or is already under
/// evaluation in the same scope.
fn evaluate_query(
    ctx: &mut ExecutorContext,
    query: &Query,
    scope_id: ScopeId,
    resolve_type: bool,
    visited: &mut Vec<String>,
    fuel: usize,
) -> (r: Option<TypeRef>)
    requires
        old(ctx).wf(),
        scope_id < old(ctx).tree.len(),
    ensures
        final(visited)@ == old(visited)@,
        kept(*old(ctx), *final(ctx)),
        fuel > 3 && !has_key(
            old(visited)@,
            ""@ + crate::text_util::decimal_spec(scope_id as nat) + ":"@ + query_text(*query),
        ) ==> (local_binding(*old(ctx).tree, scope_id, *query) matches Some(sym) ==> r matches Some(
            x,
        ) && symbol_ref_spec(*old(ctx).tree, scope_id, sym, query_text(*query), resolve_type, x@)),
    decreases fuel,
{
    if fuel == 0 {
        return None;
    }
    let text = extract_base_name(query);
    let key = scoped_key("", scope_id, text.as_str());
    if !visit(visited, key.clone()) {
        return None;
    }
    let result = match query {
        Query::Find(name) => evaluate_query_find(ctx, name, scope_id, resolve_type, visited, fuel - 1),
        Query::Extract(parent_q, member) => evaluate_query_extract(
            ctx,
            parent_q,
            member,
            scope_id,
            resolve_type,
            visited,
            fuel - 1,
        ),
        Query::Call(target_q) => evaluate_query(ctx, target_q, scope_id, true, visited, fuel - 1),
    };
    unvisit(visited, &key);
    result
}

/// The nearest scope from `id` outwards that has a super type.
pub open spec fn first_with_supers(tree: ScopeTree, id: int) -> Option<ScopeId>
    decreases id,
{
    if 0 <= id < tree.len() {
        if tree.arena@[id].super_types@.len() > 0 {
            Some(id as ScopeId)
        } else {
            match tree.arena@[id].parent {
                Some(p) => if p < id {
                    first_with_supers(tree, p as int)
                } else {
                    None
                },
                None => None,
            }
        }
    } else {
        None
    }
}

/// The module enclosing the nearest module from `id` outwards, as its path.
pub open spec fn enclosing_module_ref(tree: ScopeTree, id: int) -> Option<TypeRefV> {
    match nearest_module(tree, id) {
        Some(m) => match tree.arena@[m as int].parent {
            Some(p) => Some(TypeRefV::Resolved(scope_path(tree.arena@, p as int))),
            None => None,
        },
        None => None,
    }
}

/// What `super` stands for in scope `id`, as far as the tree decides it: where a scope from
/// `id` outwards has a super type, the nearest one's first, which is taken as it is unless it is
/// a query or an unresolved path (evaluated, and kept as it is where that fails); where none
/// has, the module enclosing the nearest module.
pub open spec fn super_decided(tree: ScopeTree, id: int, r: Option<TypeRefV>) -> bool {
    match first_with_supers(tree, id) {
        Some(s) => {
            let st = tree.arena@[s as int].super_types@[0];
            &&& r is Some
            &&& !(st is ResolutionQuery || st is Unresolved) ==> r == Some(st@)
        },
        None => r == enclosing_module_ref(tree, id),
    }
}

/// The first super type of the nearest scope (from `scope_id` outwards) that has one,
/// evaluated there; where no scope has one, the module enclosing the nearest module.
fn resolve_super_keyword(
    ctx: &mut ExecutorContext,
    scope_id: ScopeId,
    resolve_type: bool,
    visited: &mut Vec<String>,
    fuel: usize,
) -> (r: Option<TypeRef>)
    requires
        old(ctx).wf(),
        scope_id < old(ctx).tree.len(),
    ensures
        final(visited)@ == old(visited)@,
        kept(*old(ctx), *final(ctx)),
        fuel > 1 && !has_key(old(visited)@, "super:"@ + crate::text_util::decimal_spec(scope_id as nat))
            ==> super_decided(*old(ctx).tree, scope_id as int, crate::model::components::opt_typeref_view(r)),
    decreases fuel,
{
    if fuel == 0 {
        return None;
    }
    let key = crate::text_util::with_decimal("super:", scope_id);
    if !visit(visited, key.clone()) {
        return None;
    }
    let result = super_of_scope(ctx, scope_id, resolve_type, visited, fuel - 1);
    unvisit(visited, &key);
    result
}

fn super_of_scope(
    ctx: &mut ExecutorContext,
    scope_id: ScopeId,
    resolve_type: bool,
    visited: &mut Vec<String>,
    fuel: usize,
) -> (r: Option<TypeRef>)
    requires
        old(ctx).wf(),
        scope_id < old(ctx).tree.len(),
    ensures
        final(visited)@ == old(visited)@,
        kept(*old(ctx), *final(ctx)),
        fuel > 0 ==> super_decided(*old(ctx).tree, scope_id as int, crate::model::components::opt_typeref_view(r)),
    decreases fuel,
{
    if fuel == 0 {
        return None;
    }
    let tree = ctx.tree;
    let ghost tree0 = *old(ctx).tree;
    let mut curr: Option<ScopeId> = Some(scope_id);
    while curr.is_some()
        invariant
            visited@ == old(visited)@,
            kept(*old(ctx), *ctx),
            tree == ctx.tree,
            *tree == tree0,
            fuel > 0,
            curr matches Some(c) ==> c < tree.len(),
            curr matches Some(c) ==> first_with_supers(tree0, scope_id as int) == first_with_supers(tree0, c as int),
            curr is None ==> first_with_supers(tree0, scope_id as int) is None,
        decreases match curr {
            Some(c) => c + 1,
            None => 0,
        },
    {
        let id = curr.unwrap();
        assert(scope_wf(tree.arena@[id as int], id as int, tree.len()));
        let sc = &tree.arena[id];
        if sc.super_types.len() > 0 {
            let st = &sc.super_types[0];
            return match st {
                TypeRef::ResolutionQuery(q) => match evaluate_query(ctx, q, id, resolve_type, visited, fuel - 1) {
                    Some(x) => Some(x),
                    None => Some(st.duplicate()),
                },
                TypeRef::Unresolved(qn) => {
                    let q = Query::Find(crate::resolver::scope::last_or_empty(qn));
                    match evaluate_query(ctx, &q, id, resolve_type, visited, fuel - 1) {
                        Some(x) => Some(x),
                        None => Some(st.duplicate()),
                    }
                },
                _ => Some(st.duplicate()),
            };
        }
        curr = sc.parent;
    }
    let mut curr: ScopeId = scope_id;
    loop
        invariant
            visited@ == old(visited)@,
            kept(*old(ctx), *ctx),
            tree == ctx.tree,
            *tree == tree0,
            tree.wf(),
            curr < tree.len(),
            first_with_supers(tree0, scope_id as int) is None,
            nearest_module(tree0, scope_id as int) == nearest_module(tree0, curr as int),
        decreases curr,
    {
        assert(scope_wf(tree.arena@[curr as int], curr as int, tree.len()));
        let sc = &tree.arena[curr];
        if sc.is_module {
            return match sc.parent {
                Some(p) => Some(TypeRef::Resolved(tree.build_path_from_scope(p))),
                None => None,
            };
        }
        match sc.parent {
            Some(p) => {
                curr = p;
            },
            None => {
                return None;
            },
        }
    }
}

/// Looks `name` up in scope `scope_id` itself, then in its super scopes (depth first); no
/// lexical climbing.
pub fn find_symbol_in_scope_and_supers(
    ctx: &mut ExecutorContext,
    scope_id: ScopeId,
    name: &String,
    resolve_type: bool,
    visited: &mut Vec<String>,
    fuel: usize,
) -> (r: Option<TypeRef>)
    requires
        old(ctx).wf(),
        scope_id < old(ctx).tree.len(),
    ensures
        final(visited)@ == old(visited)@,
        kept(*old(ctx), *final(ctx)),
        fuel > 2 && old(ctx).cache_ok() && sym_get(old(ctx).tree.arena@[scope_id as int].symbols.map(), name@)
            is None && old(ctx).tree.arena@[scope_id as int].super_types@.len() == 0 ==> r is None,
        fuel > 1 ==> (sym_get(old(ctx).tree.arena@[scope_id as int].symbols.map(), name@) matches Some(
            sym,
        ) ==> r matches Some(x) && symbol_ref_spec(
            *old(ctx).tree,
            scope_id,
            sym,
            name@,
            resolve_type,
            x@,
        )),
    decreases fuel,
{
    if fuel == 0 {
        return None;
    }
    let mut visited_scopes: Vec<ScopeId> = Vec::new();
    find_symbol_in_scope_and_supers_internal(
        ctx,
        scope_id,
        name,
        resolve_type,
        visited,
        &mut visited_scopes,
        fuel - 1,
    )
}

fn contains_id(v: &Vec<ScopeId>, id: ScopeId) -> (r: bool)
    ensures
        r == v@.contains(id),
{
    let mut i: usize = 0;
    while i < v.len()
        invariant
            i <= v@.len(),
            forall|j: int| 0 <= j < i ==> v@[j] != id,
        decreases v.len() - i,
    {
        if v[i] == id {
            return true;
        }
        i += 1;
    }
    false
}

/// The super scopes of a scope, resolved once and cached: the super types are evaluated in the
/// enclosing parent scope (the scope itself only for the root, which has none), never within the
/// scope itself, and the result is the scope of each
/// super type, without repeats and without the scope itself. While a scope's super types are
/// being resolved it counts as having none, which breaks inheritance cycles.
fn get_or_resolve_super_scopes(ctx: &mut ExecutorContext, scope_id: ScopeId, fuel: usize) -> (r: Vec<ScopeId>)
    requires
        old(ctx).wf(),
        scope_id < old(ctx).tree.len(),
    ensures
        kept(*old(ctx), *final(ctx)),
        ids_in_bounds(r@, final(ctx).tree.len()),
        fuel > 0 ==> (old(ctx).resolved_super_scopes@[scope_id as int] matches Some(v) ==> r@ == v@),
        fuel > 0 ==> (final(ctx).resolved_super_scopes@[scope_id as int] matches Some(w) && w@ == r@),
        fuel > 0 && old(ctx).resolved_super_scopes@[scope_id as int] is None ==> r@.no_duplicates() && !r@.contains(
            scope_id,
        ),
        fuel > 0 && old(ctx).cache_ok() && old(ctx).tree.arena@[scope_id as int].super_types@.len() == 0 ==> r@.len()
            == 0,
    decreases fuel,
{
    let mut resolved: Vec<ScopeId> = Vec::new();
    if fuel == 0 {
        return resolved;
    }
    match &ctx.resolved_super_scopes[scope_id] {
        Some(v) => {
            assert(ids_in_bounds(v@, ctx.tree.len()));
            let mut copy: Vec<ScopeId> = Vec::new();
            let mut i: usize = 0;
            while i < v.len()
                invariant
                    i <= v@.len(),
                    copy@ == v@.take(i as int),
                decreases v.len() - i,
            {
                copy.push(v[i]);
                assert(v@.take(i + 1) =~= v@.take(i as int).push(v@[i as int]));
                i += 1;
            }
            assert(v@.take(v@.len() as int) =~= v@);
            return copy;
        },
        None => {},
    }
    ctx.store_super_scopes(scope_id, Vec::new());
    let tree = ctx.tree;
    let mut visited: Vec<String> = Vec::new();
    let supers = &tree.arena[scope_id].super_types;
    assert(scope_wf(tree.arena@[scope_id as int], scope_id as int, tree.len()));
    let eval_scope: ScopeId = match tree.arena[scope_id].parent {
        Some(p) => p,
        None => scope_id,
    };
    let mut i: usize = 0;
    while i < supers.len()
        invariant
            kept(*old(ctx), *ctx),
            tree == ctx.tree,
            scope_id < tree.len(),
            eval_scope < tree.len(),
            fuel > 0,
            ids_in_bounds(resolved@, tree.len()),
            resolved@.no_duplicates(),
            !resolved@.contains(scope_id),
            supers == tree.arena@[scope_id as int].super_types,
            resolved@.len() <= i,
            i <= supers@.len(),
        decreases supers.len() - i,
    {
        let st = &supers[i];
        let resolved_st: TypeRef = match st {
            TypeRef::ResolutionQuery(q) => match evaluate_query(ctx, q, eval_scope, true, &mut visited, fuel - 1) {
                Some(x) => x,
                None => st.duplicate(),
            },
            TypeRef::Unresolved(qn) => {
                let q = Query::Find(crate::resolver::scope::last_or_empty(qn));
                match evaluate_query(ctx, &q, eval_scope, true, &mut visited, fuel - 1) {
                    Some(x) => x,
                    None => st.duplicate(),
                }
            },
            TypeRef::Generic { base, args } => {
                let resolved_base = match &**base {
                    TypeRef::ResolutionQuery(q) => match evaluate_query(ctx, q, eval_scope, true, &mut visited, fuel - 1) {
                        Some(x) => x,
                        None => base.duplicate(),
                    },
                    TypeRef::Unresolved(qn) => {
                        let q = Query::Find(crate::resolver::scope::last_or_empty(qn));
                        match evaluate_query(ctx, &q, eval_scope, true, &mut visited, fuel - 1) {
                            Some(x) => x,
                            None => base.duplicate(),
                        }
                    },
                    _ => base.duplicate(),
                };
                TypeRef::Generic { base: Box::new(resolved_base), args: clone_typerefs(args) }
            },
            _ => st.duplicate(),
        };
        match find_scope_for_type(tree, &resolved_st) {
            Some(super_scope) => {
                if super_scope != scope_id && !contains_id(&resolved, super_scope) {
                    resolved.push(super_scope);
                }
            },
            None => {},
        }
        i += 1;
    }
    let mut stored: Vec<ScopeId> = Vec::new();
    let mut i: usize = 0;
    while i < resolved.len()
        invariant
            i <= resolved@.len(),
            stored@ == resolved@.take(i as int),
        decreases resolved.len() - i,
    {
        stored.push(resolved[i]);
        assert(resolved@.take(i + 1) =~= resolved@.take(i as int).push(resolved@[i as int]));
        i += 1;
    }
    assert(resolved@.take(resolved@.len() as int) =~= resolved@);
    ctx.store_super_scopes(scope_id, stored);
    resolved
}

fn find_symbol_in_scope_and_supers_internal(
    ctx: &mut ExecutorContext,
    scope_id: ScopeId,
    name: &String,
    resolve_type: bool,
    visited: &mut Vec<String>,
    visited_scopes: &mut Vec<ScopeId>,
    fuel: usize,
) -> (r: Option<TypeRef>)
    requires
        old(ctx).wf(),
        scope_id < old(ctx).tree.len(),
    ensures
        final(visited)@ == old(visited)@,
        kept(*old(ctx), *final(ctx)),
        fuel > 1 && old(ctx).cache_ok() && sym_get(old(ctx).tree.arena@[scope_id as int].symbols.map(), name@) is None
            && old(ctx).tree.arena@[scope_id as int].super_types@.len() == 0 ==> r is None,
        fuel > 0 && !old(visited_scopes)@.contains(scope_id) ==> (sym_get(
            old(ctx).tree.arena@[scope_id as int].symbols.map(),
            name@,
        ) matches Some(sym) ==> r matches Some(x) && symbol_ref_spec(
            *old(ctx).tree,
            scope_id,
            sym,
            name@,
            resolve_type,
            x@,
        )),
    decreases fuel,
{
    if fuel == 0 {
        return None;
    }
    if contains_id(visited_scopes, scope_id) {
        return None;
    }
    visited_scopes.push(scope_id);
    let tree = ctx.tree;
    assert(scope_wf(tree.arena@[scope_id as int], scope_id as int, tree.len()));
    match tree.arena[scope_id].symbols.get(name) {
        Some(sym) => {
            return Some(symbol_to_typeref(ctx, scope_id, sym, name, resolve_type, visited, fuel - 1));
        },
        None => {},
    }
    let supers = get_or_resolve_super_scopes(ctx, scope_id, fuel - 1);
    let mut i: usize = 0;
    while i < supers.len()
        invariant
            visited@ == old(visited)@,
            kept(*old(ctx), *ctx),
            tree == ctx.tree,
            tree == old(ctx).tree,
            fuel > 0,
            ids_in_bounds(supers@, tree.len()),
            sym_get(tree.arena@[scope_id as int].symbols.map(), name@) is None,
            fuel > 1 && old(ctx).cache_ok() && tree.arena@[scope_id as int].super_types@.len() == 0 ==> supers@.len() == 0,
        decreases supers.len() - i,
    {
        match find_symbol_in_scope_and_supers_internal(
            ctx,
            supers[i],
            name,
            resolve_type,
            visited,
            visited_scopes,
            fuel - 1,
        ) {
            Some(res) => {
                return Some(res);
            },
            None => {},
        }
        i += 1;
    }
    None
}

/// The reference a symbol found in scope `scope_id` under `name` stands for. A type parameter
/// becomes a type variable with its bounds evaluated; a module or type becomes its path (as an
/// evaluated access when `resolve_type`); a value or alias becomes its path in the scope, and,
/// when `resolve_type`, an evaluated access to its evaluated type.
fn symbol_to_typeref(
    ctx: &mut ExecutorContext,
    scope_id: ScopeId,
    sym: &Symbol,
    name: &String,
    resolve_type: bool,
    visited: &mut Vec<String>,
    fuel: usize,
) -> (r: TypeRef)
    requires
        old(ctx).wf(),
        scope_id < old(ctx).tree.len(),
        crate::resolver::scope::symbol_in_bounds(*sym, old(ctx).tree.len()),
    ensures
        final(visited)@ == old(visited)@,
        kept(*old(ctx), *final(ctx)),
        symbol_ref_spec(*old(ctx).tree, scope_id, *sym, name@, resolve_type, r@),
    decreases fuel,
{
    let tree = ctx.tree;
    match sym {
        Symbol::Module(id) | Symbol::Type(id) => {
            let id = *id;
            if tree.arena[id].is_phantom {
                let sts = &tree.arena[id].super_types;
                let bounds = if fuel == 0 {
                    clone_typerefs(sts)
                } else {
                    evaluate_all(ctx, sts, scope_id, true, visited, fuel - 1)
                };
                proof {
                    lemma_typerefs_view(sts@);
                    lemma_typerefs_view(bounds@);
                    lemma_typerefs_view(tree.arena@[id as int].super_types@);
                }
                return TypeRef::TypeVar { name: tree.arena[id].name.clone(), bounds };
            }
            let path = tree.build_path_from_scope(id);
            let ghost pv = TypeRefV::Resolved(scope_path(tree.arena@, id as int));
            let r = if resolve_type {
                let a = TypeRef::Resolved(clone_qn(&path));
                let b = TypeRef::Resolved(path);
                assert(a@ == pv && b@ == pv);
                TypeRef::EvaluatedAccess(Box::new(a), Box::new(b))
            } else {
                TypeRef::Resolved(path)
            };
            assert(scope_ref_spec(*tree, id, resolve_type, r@));
            r
        },
        Symbol::Value(ty) | Symbol::TypeAlias(ty) => {
            let mut path = tree.build_path_from_scope(scope_id);
            let ghost before = path.deep_view();
            path.push(name.clone());
            assert(path.deep_view() =~= before.push(name@));
            let base_path = TypeRef::Resolved(path);
            assert(base_path@ == TypeRefV::Resolved(scope_path(tree.arena@, scope_id as int).push(name@)));
            if resolve_type {
                if fuel == 0 {
                    return TypeRef::EvaluatedAccess(Box::new(base_path), Box::new(ty.duplicate()));
                }
                let key = scoped_key("sym:", scope_id, name.as_str());
                if !visit(visited, key.clone()) {
                    return base_path;
                }
                let resolved_ty = match ty {
                    TypeRef::ResolutionQuery(q) => match evaluate_query(ctx, q, scope_id, true, visited, fuel - 1) {
                        Some(x) => x,
                        None => ty.duplicate(),
                    },
                    TypeRef::Unresolved(_) | TypeRef::TypeVar { .. } | TypeRef::Generic { .. } => {
                        evaluate_typeref_inner(ctx, ty.duplicate(), scope_id, true, visited, fuel - 1)
                    },
                    _ => ty.duplicate(),
                };
                unvisit(visited, &key);
                TypeRef::EvaluatedAccess(Box::new(base_path), Box::new(resolved_ty))
            } else {
                base_path
            }
        },
    }
}

/// What a symbol found in scope `scope` under `name` stands for, as far as it does not depend
/// on evaluation: the name of a type parameter's variable and the number of its bounds; the
/// path of a module or type; the path of a value or alias in its scope (the base of the access
/// when `resolve_type`).
pub open spec fn symbol_ref_spec(
    tree: ScopeTree,
    scope: ScopeId,
    sym: Symbol,
    name: Seq<char>,
    resolve_type: bool,
    r: TypeRefV,
) -> bool {
    match sym {
        Symbol::Module(id) => scope_ref_spec(tree, id, resolve_type, r),
        Symbol::Type(id) => scope_ref_spec(tree, id, resolve_type, r),
        Symbol::Value(_) => value_ref_spec(tree, scope, name, resolve_type, r),
        Symbol::TypeAlias(_) => value_ref_spec(tree, scope, name, resolve_type, r),
    }
}

pub open spec fn scope_ref_spec(tree: ScopeTree, id: ScopeId, resolve_type: bool, r: TypeRefV) -> bool {
    let s = tree.arena@[id as int];
    let p = TypeRefV::Resolved(scope_path(tree.arena@, id as int));
    if s.is_phantom {
        r matches TypeRefV::TypeVar { name, bounds } && name == s.name@ && bounds.len()
            == s.super_types@.len()
    } else if resolve_type {
        r == TypeRefV::EvaluatedAccess(Box::new(p), Box::new(p))
    } else {
        r == p
    }
}

pub open spec fn value_ref_spec(tree: ScopeTree, scope: ScopeId, name: Seq<char>, resolve_type: bool, r: TypeRefV) -> bool {
    let p = TypeRefV::Resolved(scope_path(tree.arena@, scope as int).push(name));
    if resolve_type {
        r == p || (r matches TypeRefV::EvaluatedAccess(base, _) && *base == p)
    } else {
        r == p
    }
}

/// Import `j` is the first import of the list that can give `name`: its last segment is `name`,
/// and no import before it ends in `name`, in `*`, or is a wildcard.
pub open spec fn first_import_for(imports: Seq<crate::model::components::Import>, name: Seq<char>, j: int) -> bool {
    &&& 0 <= j < imports.len()
    &&& imports[j].path@.len() > 0
    &&& imports[j].path@.last()@ == name
    &&& forall|i: int|
        0 <= i < j ==> !((#[trigger] imports[i]).path@.len() > 0 && (imports[i].path@.last()@ == name
            || imports[i].path@.last()@ == "*"@ || imports[i].is_wildcard))
}

/// The case of a `Find(name)` in scope `scope_id` that its imports decide: enough fuel, a plain
/// name bound to nothing in the scope, no super types there, import `j` the first that can give
/// the name, its path read from the root, and neither that path's nor its global evaluation
/// already in progress.
pub open spec fn import_case(
    tree: ScopeTree,
    visited: Seq<String>,
    scope_id: ScopeId,
    name: Seq<char>,
    fuel: int,
    j: int,
) -> bool {
    let sc = tree.arena@[scope_id as int];
    &&& fuel > 4
    &&& plain_name(name)
    &&& sym_get(sc.symbols.map(), name) is None
    &&& sc.super_types@.len() == 0
    &&& first_import_for(sc.imports@, name, j)
    &&& import_path_global(tree, scope_id as int, sc.imports@[j].path.deep_view())
    &&& !has_key(
        visited,
        "imp_path:"@ + crate::text_util::decimal_spec(scope_id as nat) + ":"@ + join_spec(
            sc.imports@[j].path.deep_view(),
            "::"@,
        ),
    )
    &&& !has_key(visited, "global:"@ + join_spec(sc.imports@[j].path.deep_view(), "::"@))
}

proof fn lemma_first_import_unique(imports: Seq<crate::model::components::Import>, name: Seq<char>, j1: int, j2: int)
    requires
        first_import_for(imports, name, j1),
        first_import_for(imports, name, j2),
    ensures
        j1 == j2,
{
    if j1 < j2 {
        assert(!(imports[j1].path@.len() > 0 && imports[j1].path@.last()@ == name));
    }
    if j2 < j1 {
        assert(!(imports[j2].path@.len() > 0 && imports[j2].path@.last()@ == name));
    }
}

/// What a name imported by the path `p` stands for: the resolution of that path from the root
/// where it has one, else the path itself as an external reference.
pub open spec fn imported_as(
    tree: ScopeTree,
    prims: Set<Seq<char>>,
    config: AnalyzerConfig,
    p: Seq<Seq<char>>,
    x: TypeRefV,
) -> bool {
    global_decided(tree, prims, config, p, Some(x)) || (x == TypeRefV::External(p) && global_decided(
        tree,
        prims,
        config,
        p,
        None,
    ))
}

/// Evaluates `Find(name)`: `super` and `Self` are resolved by their own rules; otherwise each
/// scope from `scope_id` outwards is tried (its own symbols and super scopes, then its imports:
/// one ending in `name`, then wildcard ones), and finally the global path `[name]`.
fn evaluate_query_find(
    ctx: &mut ExecutorContext,
    name: &String,
    scope_id: ScopeId,
    resolve_type: bool,
    visited: &mut Vec<String>,
    fuel: usize,
) -> (r: Option<TypeRef>)
    requires
        old(ctx).wf(),
        scope_id < old(ctx).tree.len(),
    ensures
        final(visited)@ == old(visited)@,
        kept(*old(ctx), *final(ctx)),
        forall|j: int|
            old(ctx).cache_ok() && #[trigger] import_case(*old(ctx).tree, old(visited)@, scope_id, name@, fuel as int, j)
                ==> (r matches Some(
                x,
            ) && imported_as(
                *old(ctx).tree,
                old(ctx).primitives.names(),
                *old(ctx).config,
                old(ctx).tree.arena@[scope_id as int].imports@[j].path.deep_view(),
                x@,
            )),
        fuel > 2 && plain_name(name@) ==> (sym_get(
            old(ctx).tree.arena@[scope_id as int].symbols.map(),
            name@,
        ) matches Some(sym) ==> r matches Some(x) && symbol_ref_spec(
            *old(ctx).tree,
            scope_id,
            sym,
            name@,
            resolve_type,
            x@,
        )),
    decreases fuel,
{
    if fuel == 0 {
        return None;
    }
    if str_eq(name.as_str(), "super()") || str_eq(name.as_str(), "super") {
        return resolve_super_keyword(ctx, scope_id, resolve_type, visited, fuel - 1);
    }
    let tree = ctx.tree;
    if str_eq(name.as_str(), "Self") {
        match resolve_self_keyword(tree, scope_id) {
            Some(resolved_self) => {
                return Some(resolved_self);
            },
            None => {},
        }
    }
    let ghost bound = fuel > 2 && plain_name(name@) && sym_get(
        tree.arena@[scope_id as int].symbols.map(),
        name@,
    ) is Some;
    let ghost sc = tree.arena@[scope_id as int];
    let ghost cond = old(ctx).cache_ok() && exists|j: int| #[trigger] import_case(
        *tree,
        old(visited)@,
        scope_id,
        name@,
        fuel as int,
        j,
    );
    let ghost j0: int = if cond {
        choose|j: int| #[trigger] import_case(*tree, old(visited)@, scope_id, name@, fuel as int, j)
    } else {
        0
    };
    proof {
        if cond {
            assert(first_import_for(sc.imports@, name@, j0));
        }
    }
    proof {
        assert(*tree == *old(ctx).tree);
        assert forall|jj: int|
            old(ctx).cache_ok() && #[trigger] import_case(*old(ctx).tree, old(visited)@, scope_id, name@, fuel as int, jj)
            implies cond && jj == j0 by {
            assert(import_case(*tree, old(visited)@, scope_id, name@, fuel as int, jj));
            lemma_first_import_unique(sc.imports@, name@, jj, j0);
        }
    }
    let mut curr: ScopeId = scope_id;
    loop
        invariant
            visited@ == old(visited)@,
            kept(*old(ctx), *ctx),
            tree == ctx.tree,
            tree == old(ctx).tree,
            fuel > 0,
            curr < tree.len(),
            bound ==> curr == scope_id,
            bound == (fuel > 2 && plain_name(name@) && sym_get(
                tree.arena@[scope_id as int].symbols.map(),
                name@,
            ) is Some),
            sc == tree.arena@[scope_id as int],
            cond ==> curr == scope_id && import_case(*tree, old(visited)@, scope_id, name@, fuel as int, j0),
            cond ==> old(ctx).cache_ok(),
            forall|jj: int| old(ctx).cache_ok() && #[trigger] import_case(*old(ctx).tree, old(visited)@, scope_id, name@, fuel as int, jj) ==> cond
                && jj == j0,
        decreases curr,
    {
        match find_symbol_in_scope_and_supers(ctx, curr, name, resolve_type, visited, fuel - 1) {
            Some(res) => {
                assert(!cond);
                proof {
                    assert(*tree == *old(ctx).tree);
                    assert forall|jj: int| old(ctx).cache_ok() && #[trigger] import_case(*old(ctx).tree, old(visited)@, scope_id, name@, fuel as int, jj) implies false by {
                        assert(import_case(*tree, old(visited)@, scope_id, name@, fuel as int, jj));
                    }
                }
                return Some(res);
            },
            None => {},
        }
        assert(!bound);
        assert(scope_wf(tree.arena@[curr as int], curr as int, tree.len()));
        let imports = &tree.arena[curr].imports;
        let mut j: usize = 0;
        while j < imports.len()
            invariant
                visited@ == old(visited)@,
                kept(*old(ctx), *ctx),
                tree == ctx.tree,
                tree == old(ctx).tree,
                fuel > 0,
                curr < tree.len(),
                !bound,
                bound == (fuel > 2 && plain_name(name@) && sym_get(
                    tree.arena@[scope_id as int].symbols.map(),
                    name@,
                ) is Some),
                imports == tree.arena@[curr as int].imports,
                sc == tree.arena@[scope_id as int],
                cond ==> curr == scope_id && j <= j0 && import_case(*tree, old(visited)@, scope_id, name@, fuel as int, j0),
                forall|jj: int| old(ctx).cache_ok() && #[trigger] import_case(*old(ctx).tree, old(visited)@, scope_id, name@, fuel as int, jj) ==> cond
                    && jj == j0,
            decreases imports.len() - j,
        {
            let imp = &imports[j];
            if imp.path.len() > 0 {
                let last = &imp.path[imp.path.len() - 1];
                if str_eq(last.as_str(), name.as_str()) {
                    proof {
                        if cond && (j as int) < j0 {
                            assert(!(sc.imports@[j as int].path@.len() > 0 && sc.imports@[j as int].path@.last()@ == name@));
                        }
                    }
                    proof {
                        if cond {
                            assert(j as int == j0);
                            assert(*imp == sc.imports@[j0]);
                        }
                    }
                    let ghost pv = imp.path.deep_view();
                    let r = match resolve_import_path(ctx, curr, &imp.path, visited, fuel - 1) {
                        Some(resolved) => Some(resolved),
                        None => {
                            let e = TypeRef::External(clone_qn(&imp.path));
                            assert(e@ == TypeRefV::External(pv));
                            Some(e)
                        },
                    };
                    proof {
                        if cond {
                            assert(j as int == j0);
                            assert forall|jj: int| #[trigger] import_case(*tree, old(visited)@, scope_id, name@, fuel as int, jj) implies jj == j0 by {
                                lemma_first_import_unique(sc.imports@, name@, jj, j0);
                            }
                        }
                    }
                    return r;
                } else {
                    proof {
                        if cond && (j as int) < j0 {
                            assert(!(sc.imports@[j as int].path@.len() > 0 && (sc.imports@[j as int].path@.last()@ == name@
                                || sc.imports@[j as int].path@.last()@ == "*"@ || sc.imports@[j as int].is_wildcard)));
                        }
                    }
                    let star = str_eq(last.as_str(), "*");
                    if star || imp.is_wildcard {
                        let mut specific_path = clone_qn(&imp.path);
                        if star {
                            specific_path.pop();
                        }
                        specific_path.push(name.clone());
                        match resolve_import_path(ctx, curr, &specific_path, visited, fuel - 1) {
                            Some(resolved) => {
                                assert(!cond);
                                return Some(resolved);
                            },
                            None => {},
                        }
                        let mut base_path = clone_qn(&imp.path);
                        if star {
                            base_path.pop();
                        }
                        if resolve_import_path(ctx, curr, &base_path, visited, fuel - 1).is_none() {
                            return Some(TypeRef::External(specific_path));
                        }
                    }
                }
            }
            j += 1;
        }
        match tree.arena[curr].parent {
            Some(p) => {
                curr = p;
            },
            None => {
                assert(!cond);
                let mut single: Vec<String> = Vec::new();
                single.push(name.clone());
                return find_global(ctx, &single);
            },
        }
    }
}

/// The innermost reference of a chain of accesses.
/// The member reached by a chain of accesses.
pub open spec fn innermost_spec(t: TypeRefV) -> TypeRefV
    decreases t,
{
    match t {
        TypeRefV::EvaluatedAccess(_, inner) => innermost_spec(*inner),
        _ => t,
    }
}

/// The access to member `m` of a reference with a path of its own (a primitive's member is
/// external); `None` for any other reference.
pub open spec fn append_plain_spec(t: TypeRefV, m: Seq<char>) -> Option<TypeRefV> {
    match t {
        TypeRefV::Resolved(p) => Some(
            TypeRefV::EvaluatedAccess(Box::new(t), Box::new(TypeRefV::Resolved(p.push(m)))),
        ),
        TypeRefV::External(p) => Some(
            TypeRefV::EvaluatedAccess(Box::new(t), Box::new(TypeRefV::External(p.push(m)))),
        ),
        TypeRefV::Unresolved(p) => Some(
            TypeRefV::EvaluatedAccess(Box::new(t), Box::new(TypeRefV::Unresolved(p.push(m)))),
        ),
        TypeRefV::Primitive(n) => Some(
            TypeRefV::EvaluatedAccess(Box::new(t), Box::new(TypeRefV::External(seq![n, m]))),
        ),
        _ => None,
    }
}

/// A path reference with member `m` appended (a primitive's member is external).
pub open spec fn extended_path(t: TypeRefV, m: Seq<char>) -> Option<TypeRefV> {
    match t {
        TypeRefV::Resolved(p) => Some(TypeRefV::Resolved(p.push(m))),
        TypeRefV::External(p) => Some(TypeRefV::External(p.push(m))),
        TypeRefV::Unresolved(p) => Some(TypeRefV::Unresolved(p.push(m))),
        TypeRefV::Primitive(n) => Some(TypeRefV::External(seq![n, m])),
        _ => None,
    }
}

/// The access to member `m` of a reference that no scope answers for: of a generic, through its
/// base (a failed base counting as external); of an access, the member reached (or its generic
/// base) extended by `m`; of any other, as `append_plain_spec` says.
pub open spec fn append_member_spec(t: TypeRefV, m: Seq<char>) -> Option<TypeRefV> {
    match t {
        TypeRefV::Generic { base, .. } => match *base {
            TypeRefV::Failed(p) => Some(
                TypeRefV::EvaluatedAccess(
                    Box::new(TypeRefV::External(p)),
                    Box::new(TypeRefV::External(p.push(m))),
                ),
            ),
            other => append_plain_spec(other, m),
        },
        TypeRefV::EvaluatedAccess(base, inner) => {
            let last = innermost_spec(*inner);
            let ext = match last {
                TypeRefV::Generic { base: gb, .. } => extended_path(*gb, m),
                _ => extended_path(last, m),
            };
            match ext {
                Some(e) => Some(TypeRefV::EvaluatedAccess(base, Box::new(e))),
                None => None,
            }
        },
        _ => append_plain_spec(t, m),
    }
}

fn innermost(t: TypeRef) -> (r: TypeRef)
    ensures
        r@ == innermost_spec(t@),
    decreases t,
{
    match t {
        TypeRef::EvaluatedAccess(_, inner) => innermost(*inner),
        other => other,
    }
}

/// `path` with `member` appended.
fn path_with(path: &Vec<String>, member: &String) -> (r: Vec<String>)
    ensures
        r.deep_view() == path.deep_view().push(member@),
{
    let mut p = clone_qn(path);
    let ghost before = p.deep_view();
    p.push(member.clone());
    assert(p.deep_view() =~= before.push(member@));
    p
}

/// The access to `member` of a reference with a path of its own.
fn append_plain(t: TypeRef, member: &String) -> (r: Option<TypeRef>)
    ensures
        crate::model::components::opt_typeref_view(r) == append_plain_spec(t@, member@),
{
    proof {
        reveal_with_fuel(crate::model::queries::typeref_view, 3);
    }
    match t {
        TypeRef::Resolved(path) => {
            let p = path_with(&path, member);
            Some(TypeRef::EvaluatedAccess(Box::new(TypeRef::Resolved(path)), Box::new(TypeRef::Resolved(p))))
        },
        TypeRef::External(path) => {
            let p = path_with(&path, member);
            Some(TypeRef::EvaluatedAccess(Box::new(TypeRef::External(path)), Box::new(TypeRef::External(p))))
        },
        TypeRef::Unresolved(path) => {
            let p = path_with(&path, member);
            Some(TypeRef::EvaluatedAccess(Box::new(TypeRef::Unresolved(path)), Box::new(TypeRef::Unresolved(p))))
        },
        TypeRef::Primitive(prim) => {
            let mut p: Vec<String> = Vec::new();
            p.push(prim.clone());
            p.push(member.clone());
            assert(p.deep_view() =~= seq![prim@, member@]);
            Some(TypeRef::EvaluatedAccess(Box::new(TypeRef::Primitive(prim)), Box::new(TypeRef::External(p))))
        },
        _ => None,
    }
}

/// A path reference with `member` appended (a primitive's member is external).
fn extend_plain(t: TypeRef, member: &String) -> (r: Option<TypeRef>)
    ensures
        crate::model::components::opt_typeref_view(r) == extended_path(t@, member@),
{
    match t {
        TypeRef::Resolved(mut path) => {
            let ghost b = path.deep_view();
            path.push(member.clone());
            assert(path.deep_view() =~= b.push(member@));
            Some(TypeRef::Resolved(path))
        },
        TypeRef::External(mut path) => {
            let ghost b = path.deep_view();
            path.push(member.clone());
            assert(path.deep_view() =~= b.push(member@));
            Some(TypeRef::External(path))
        },
        TypeRef::Unresolved(mut path) => {
            let ghost b = path.deep_view();
            path.push(member.clone());
            assert(path.deep_view() =~= b.push(member@));
            Some(TypeRef::Unresolved(path))
        },
        TypeRef::Primitive(prim) => {
            let ghost pv = prim@;
            let mut p: Vec<String> = Vec::new();
            p.push(prim);
            p.push(member.clone());
            assert(p.deep_view() =~= seq![pv, member@]);
            Some(TypeRef::External(p))
        },
        _ => None,
    }
}

/// The access to `member` of a reference that no scope answers for: the member appended to its
/// path (a primitive's member counts as external); `None` for references without a path.
fn append_member(t: TypeRef, member: &String) -> (r: Option<TypeRef>)
    ensures
        crate::model::components::opt_typeref_view(r) == append_member_spec(t@, member@),
{
    proof {
        reveal_with_fuel(crate::model::queries::typeref_view, 3);
    }
    match t {
        TypeRef::Generic { base, .. } => match *base {
            TypeRef::Failed(path) => {
                let p = path_with(&path, member);
                Some(TypeRef::EvaluatedAccess(Box::new(TypeRef::External(path)), Box::new(TypeRef::External(p))))
            },
            other => append_plain(other, member),
        },
        TypeRef::EvaluatedAccess(base, inner) => {
            let last = innermost(*inner);
            let extended = match last {
                TypeRef::Generic { base: gen_base, .. } => extend_plain(*gen_base, member),
                other => extend_plain(other, member),
            };
            match extended {
                Some(e) => Some(TypeRef::EvaluatedAccess(base, Box::new(e))),
                None => None,
            }
        },
        other => append_plain(other, member),
    }
}

/// Evaluates `Extract(parent_q, member)`: the parent is evaluated (failing that, its static
/// path with the member appended is tried as a primitive and as a global path), then the member
/// is looked up in each candidate scope of the parent's type (a module's `super` being its
/// enclosing module), through transitive imports last; failing all, the member is appended to
/// the parent's path.
fn evaluate_query_extract(
    ctx: &mut ExecutorContext,
    parent_q: &Query,
    member: &String,
    scope_id: ScopeId,
    resolve_type: bool,
    visited: &mut Vec<String>,
    fuel: usize,
) -> (r: Option<TypeRef>)
    requires
        old(ctx).wf(),
        scope_id < old(ctx).tree.len(),
    ensures
        final(visited)@ == old(visited)@,
        kept(*old(ctx), *final(ctx)),
    decreases fuel,
{
    if fuel == 0 {
        return None;
    }
    let tree = ctx.tree;
    let parent_ty = match evaluate_query(ctx, parent_q, scope_id, true, visited, fuel - 1) {
        Some(ty) => ty,
        None => {
            match query_to_path(parent_q) {
                Some(path) => {
                    let full_path = path_with(&path, member);
                    let joined_colon = join_strings(&full_path, "::");
                    if ctx.primitives.is_primitive(joined_colon.as_str()) {
                        return Some(TypeRef::Primitive(joined_colon));
                    }
                    let joined_dot = join_strings(&full_path, ".");
                    if ctx.primitives.is_primitive(joined_dot.as_str()) {
                        return Some(TypeRef::Primitive(joined_dot));
                    }
                    match find_global_internal(ctx, &full_path, visited, fuel - 1) {
                        Some(res) => {
                            return Some(res);
                        },
                        None => {},
                    }
                },
                None => {},
            }
            return None;
        },
    };
    let (mut resolved_parent_ty, base_access): (TypeRef, Option<TypeRef>) = match &parent_ty {
        TypeRef::EvaluatedAccess(base, ty) => (ty.duplicate(), Some(base.duplicate())),
        _ => (parent_ty.duplicate(), None),
    };
    let needs_eval = match &resolved_parent_ty {
        TypeRef::Unresolved(_) | TypeRef::ResolutionQuery(_) | TypeRef::Generic { .. } => true,
        _ => false,
    };
    if needs_eval {
        resolved_parent_ty = evaluate_typeref_inner(
            ctx,
            resolved_parent_ty,
            scope_id,
            true,
            visited,
            fuel - 1,
        );
    }
    let candidates = find_candidate_scopes_for_type(tree, &resolved_parent_ty);
    let is_super = str_eq(member.as_str(), "super");
    let mut i: usize = 0;
    while i < candidates.len()
        invariant
            visited@ == old(visited)@,
            kept(*old(ctx), *ctx),
            tree == ctx.tree,
            fuel > 0,
            ids_in_bounds(candidates@, tree.len()),
        decreases candidates.len() - i,
    {
        let target_scope = candidates[i];
        assert(scope_wf(tree.arena@[target_scope as int], target_scope as int, tree.len()));
        if is_super && tree.arena[target_scope].is_module {
            match tree.arena[target_scope].parent {
                Some(parent_id) => {
                    return Some(TypeRef::Resolved(tree.build_path_from_scope(parent_id)));
                },
                None => {},
            }
        }
        match find_symbol_in_scope_and_supers(ctx, target_scope, member, resolve_type, visited, fuel - 1) {
            Some(found) => {
                let res = match &resolved_parent_ty {
                    TypeRef::Generic { args, .. } => instantiate_generic_member_type(tree, target_scope, found, args),
                    _ => found,
                };
                return Some(match &base_access {
                    Some(base) => TypeRef::EvaluatedAccess(Box::new(base.duplicate()), Box::new(res)),
                    None => TypeRef::EvaluatedAccess(Box::new(parent_ty.duplicate()), Box::new(res)),
                });
            },
            None => {},
        }
        match resolve_via_transitive_imports(ctx, target_scope, member, visited, fuel - 1) {
            Some(res) => {
                return Some(res);
            },
            None => {},
        }
        i += 1;
    }
    append_member(resolved_parent_ty, member)
}

/// The nearest module scope from `id` outwards.
pub open spec fn nearest_module(tree: ScopeTree, id: int) -> Option<ScopeId>
    decreases id,
{
    if 0 <= id < tree.len() {
        if tree.arena@[id].is_module {
            Some(id as ScopeId)
        } else {
            match tree.arena@[id].parent {
                Some(p) => if p < id {
                    nearest_module(tree, p as int)
                } else {
                    None
                },
                None => None,
            }
        }
    } else {
        None
    }
}

/// The nearest module scope from `id` outwards.
fn find_nearest_module(tree: &ScopeTree, id: ScopeId) -> (r: Option<ScopeId>)
    requires
        tree.wf(),
        id < tree.len(),
    ensures
        r == nearest_module(*tree, id as int),
        r matches Some(m) ==> m < tree.len(),
{
    let mut curr = id;
    loop
        invariant
            tree.wf(),
            curr < tree.len(),
            nearest_module(*tree, id as int) == nearest_module(*tree, curr as int),
        decreases curr,
    {
        assert(scope_wf(tree.arena@[curr as int], curr as int, tree.len()));
        if tree.arena[curr].is_module {
            return Some(curr);
        }
        match tree.arena[curr].parent {
            Some(p) => {
                curr = p;
            },
            None => {
                return None;
            },
        }
    }
}

/// The path of a scope followed by `path[from..]`.
fn scope_path_then(tree: &ScopeTree, id: ScopeId, path: &Vec<String>, from: usize) -> (r: Vec<String>)
    requires
        tree.wf(),
        id < tree.len(),
        from <= path@.len(),
    ensures
        r.deep_view() == scope_path(tree.arena@, id as int) + path.deep_view().skip(from as int),
{
    let mut full = tree.build_path_from_scope(id);
    let ghost start = full.deep_view();
    let mut i: usize = from;
    while i < path.len()
        invariant
            from <= i <= path@.len(),
            full.deep_view() == start + path.deep_view().subrange(from as int, i as int),
        decreases path.len() - i,
    {
        let ghost before = full.deep_view();
        full.push(path[i].clone());
        assert(full.deep_view() =~= before.push(path@[i as int]@));
        assert(path.deep_view().subrange(from as int, i + 1) =~= path.deep_view().subrange(
            from as int,
            i as int,
        ).push(path@[i as int]@));
        i += 1;
    }
    assert(path.deep_view().subrange(from as int, path@.len() as int) =~= path.deep_view().skip(
        from as int,
    ));
    full
}

/// Whether an import path is read from the root as it stands, seen from scope `id`: it starts
/// with neither `super` nor `self`, and the nearest module binds nothing under its first
/// segment.
pub open spec fn import_path_global(tree: ScopeTree, id: int, p: Seq<Seq<char>>) -> bool {
    &&& p.len() > 0
    &&& p[0] != "super"@
    &&& p[0] != "self"@
    &&& match nearest_module(tree, id) {
        Some(m) => !tree.arena@[m as int].symbols.map().dom().contains(p[0]),
        None => true,
    }
}

/// Resolves an import path seen from scope `scope_id`: leading `super`s climb modules, `self`
/// starts at the enclosing module, a first segment bound in the enclosing module is taken from
/// there; otherwise the path is global.
fn resolve_import_path(
    ctx: &mut ExecutorContext,
    scope_id: ScopeId,
    path: &Vec<String>,
    visited: &mut Vec<String>,
    fuel: usize,
) -> (r: Option<TypeRef>)
    requires
        old(ctx).wf(),
        scope_id < old(ctx).tree.len(),
    ensures
        final(visited)@ == old(visited)@,
        kept(*old(ctx), *final(ctx)),
        path@.len() == 0 ==> r is None,
        fuel > 3 && import_path_global(*old(ctx).tree, scope_id as int, path.deep_view()) && !has_key(
            old(visited)@,
            "imp_path:"@ + crate::text_util::decimal_spec(scope_id as nat) + ":"@ + join_spec(path.deep_view(), "::"@),
        ) && !has_key(old(visited)@, "global:"@ + join_spec(path.deep_view(), "::"@)) ==> global_decided(
            *old(ctx).tree,
            old(ctx).primitives.names(),
            *old(ctx).config,
            path.deep_view(),
            crate::model::components::opt_typeref_view(r),
        ),
    decreases fuel,
{
    if fuel == 0 || path.len() == 0 {
        return None;
    }
    proof {
        reveal_strlit("imp_path:");
        reveal_strlit("global:");
    }
    let joined = join_strings(path, "::");
    let key = scoped_key("imp_path:", scope_id, joined.as_str());
    let ghost v0 = visited@;
    if !visit(visited, key.clone()) {
        return None;
    }
    proof {
        let gk = "global:"@ + join_spec(path.deep_view(), "::"@);
        assert(key@[0] == 'i');
        assert(gk[0] == 'g');
        if has_key(visited@, gk) {
            let j = choose|j: int| 0 <= j < visited@.len() && (#[trigger] visited@[j])@ == gk;
            if j < v0.len() {
                assert(visited@[j] == v0[j]);
            } else {
                assert(visited@[j] == key);
            }
        }
    }
    let result = import_path_target(ctx, scope_id, path, visited, fuel - 1);
    unvisit(visited, &key);
    result
}

fn import_path_target(
    ctx: &mut ExecutorContext,
    scope_id: ScopeId,
    path: &Vec<String>,
    visited: &mut Vec<String>,
    fuel: usize,
) -> (r: Option<TypeRef>)
    requires
        old(ctx).wf(),
        scope_id < old(ctx).tree.len(),
        path@.len() > 0,
    ensures
        final(visited)@ == old(visited)@,
        kept(*old(ctx), *final(ctx)),
        fuel > 2 && import_path_global(*old(ctx).tree, scope_id as int, path.deep_view()) && !has_key(
            old(visited)@,
            "global:"@ + join_spec(path.deep_view(), "::"@),
        ) ==> global_decided(
            *old(ctx).tree,
            old(ctx).primitives.names(),
            *old(ctx).config,
            path.deep_view(),
            crate::model::components::opt_typeref_view(r),
        ),
    decreases fuel,
{
    if fuel == 0 {
        return None;
    }
    proof {
        reveal_strlit("super");
        reveal_strlit("self");
    }
    let tree = ctx.tree;
    if str_eq(path[0].as_str(), "super") {
        let mut curr_scope = scope_id;
        let mut skip: usize = 0;
        let mut stop = false;
        while skip < path.len() && !stop
            invariant
                visited@ == old(visited)@,
                tree.wf(),
                curr_scope < tree.len(),
                skip <= path@.len(),
            decreases path.len() - skip, if stop { 0int } else { 1int },
        {
            if str_eq(path[skip].as_str(), "super") {
                match find_nearest_module(tree, curr_scope) {
                    Some(m) => {
                        assert(scope_wf(tree.arena@[m as int], m as int, tree.len()));
                        match tree.arena[m].parent {
                            Some(parent) => {
                                curr_scope = parent;
                                skip += 1;
                            },
                            None => {
                                stop = true;
                            },
                        }
                    },
                    None => {
                        stop = true;
                    },
                }
            } else {
                stop = true;
            }
        }
        if skip > 0 {
            let full_path = scope_path_then(tree, curr_scope, path, skip);
            return find_global_internal(ctx, &full_path, visited, fuel - 1);
        }
    }
    if str_eq(path[0].as_str(), "self") {
        match find_nearest_module(tree, scope_id) {
            Some(m) => {
                let full_path = scope_path_then(tree, m, path, 1);
                return find_global_internal(ctx, &full_path, visited, fuel - 1);
            },
            None => {},
        }
    }
    match find_nearest_module(tree, scope_id) {
        Some(m) => {
            assert(scope_wf(tree.arena@[m as int], m as int, tree.len()));
            if tree.arena[m].symbols.contains_key(&path[0]) {
                let full_path = scope_path_then(tree, m, path, 0);
                match find_global_internal(ctx, &full_path, visited, fuel - 1) {
                    Some(res) => {
                        return Some(res);
                    },
                    None => {},
                }
            }
        },
        None => {},
    }
    find_global_internal(ctx, path, visited, fuel - 1)
}

/// The primitive a path names: its one segment, else its segments joined with `::`, else
/// joined with `.`, whichever is a primitive first.
pub open spec fn primitive_path(p: Seq<Seq<char>>, prims: Set<Seq<char>>) -> Option<Seq<char>> {
    if p.len() == 1 && prims.contains(p[0]) {
        Some(p[0])
    } else if prims.contains(join_spec(p, "::"@)) {
        Some(join_spec(p, "::"@))
    } else if prims.contains(join_spec(p, "."@)) {
        Some(join_spec(p, "."@))
    } else {
        None
    }
}

/// How the walk of a path from the root ends, as far as the tree alone decides it.
pub enum GlobalWalk {
    /// Every segment opened a scope: the last one reached.
    Reached(ScopeId),
    /// The last segment is bound to a value or an alias of this type.
    Bound(TypeRefV),
    /// A segment before the last is bound to a value or an alias.
    Stuck,
    /// A segment is bound to nothing in this scope: its imports decide, where its language
    /// re-exports them.
    Unbound(ScopeId),
}

/// The walk of `path` from scope `curr`, from segment `i` on: a leading `root` or `crate` is
/// skipped; a segment bound to a module or a type opens its scope.
pub open spec fn global_walk(tree: ScopeTree, curr: ScopeId, path: Seq<Seq<char>>, i: int) -> GlobalWalk
    decreases path.len() - i,
{
    if i < 0 || i >= path.len() {
        GlobalWalk::Reached(curr)
    } else if i == 0 && (path[0] == "root"@ || path[0] == "crate"@) {
        global_walk(tree, curr, path, 1)
    } else {
        match sym_get(tree.arena@[curr as int].symbols.map(), path[i]) {
            Some(Symbol::Module(id)) => global_walk(tree, id, path, i + 1),
            Some(Symbol::Type(id)) => global_walk(tree, id, path, i + 1),
            Some(Symbol::Value(t)) => if i == path.len() - 1 {
                GlobalWalk::Bound(t@)
            } else {
                GlobalWalk::Stuck
            },
            Some(Symbol::TypeAlias(t)) => if i == path.len() - 1 {
                GlobalWalk::Bound(t@)
            } else {
                GlobalWalk::Stuck
            },
            None => GlobalWalk::Unbound(curr),
        }
    }
}

/// What resolving `path` from the root gives where primitives and the tree alone decide it: a
/// primitive; the scope reached, as its path; the type of the value or alias the path ends at;
/// nothing where a segment before the last is a value or alias. Where a segment is bound to
/// nothing in the scope reached, that scope's imports decide if its language re-exports them;
/// otherwise there is nothing.
pub open spec fn global_decided(
    tree: ScopeTree,
    prims: Set<Seq<char>>,
    config: AnalyzerConfig,
    p: Seq<Seq<char>>,
    r: Option<TypeRefV>,
) -> bool {
    match primitive_path(p, prims) {
        Some(x) => r == Some(TypeRefV::Primitive(x)),
        None => match global_walk(tree, 0, p, 0) {
            GlobalWalk::Reached(id) => r == Some(
                TypeRefV::EvaluatedAccess(
                    Box::new(TypeRefV::Resolved(scope_path(tree.arena@, id as int))),
                    Box::new(TypeRefV::Resolved(scope_path(tree.arena@, id as int))),
                ),
            ),
            GlobalWalk::Bound(t) => r == Some(t),
            GlobalWalk::Stuck => r is None,
            GlobalWalk::Unbound(c) => !transitive_scope(tree, config, c as int) ==> r is None,
        },
    }
}

/// Resolves a path from the global root.
pub fn find_global(ctx: &mut ExecutorContext, path: &Vec<String>) -> (r: Option<TypeRef>)
    requires
        old(ctx).wf(),
    ensures
        kept(*old(ctx), *final(ctx)),
        global_decided(
            *old(ctx).tree,
            old(ctx).primitives.names(),
            *old(ctx).config,
            path.deep_view(),
            crate::model::components::opt_typeref_view(r),
        ),
{
    let mut visited: Vec<String> = Vec::new();
    find_global_internal(ctx, path, &mut visited, RESOLUTION_DEPTH)
}

/// Resolves a path from the global root: a primitive (one name, or joined with `::` or `.`),
/// else the scopes its segments name in turn (a leading `root` or `crate` skipped; a segment
/// bound to a value or alias ends the walk, with its type if it is the last); a segment not
/// bound is looked for through transitive imports. The scope reached is returned as its path.
pub fn find_global_internal(
    ctx: &mut ExecutorContext,
    path: &Vec<String>,
    visited: &mut Vec<String>,
    fuel: usize,
) -> (r: Option<TypeRef>)
    requires
        old(ctx).wf(),
    ensures
        final(visited)@ == old(visited)@,
        kept(*old(ctx), *final(ctx)),
        fuel > 1 && !has_key(old(visited)@, "global:"@ + join_spec(path.deep_view(), "::"@)) ==> global_decided(
            *old(ctx).tree,
            old(ctx).primitives.names(),
            *old(ctx).config,
            path.deep_view(),
            crate::model::components::opt_typeref_view(r),
        ),
    decreases fuel,
{
    if fuel == 0 {
        return None;
    }
    let joined_colon = join_strings(path, "::");
    proof {
        reveal_strlit("global:");
    }
    let mut key = "global:".to_string();
    key.append(joined_colon.as_str());
    if !visit(visited, key.clone()) {
        return None;
    }
    let result = global_target(ctx, path, visited, fuel - 1);
    unvisit(visited, &key);
    result
}

fn global_target(
    ctx: &mut ExecutorContext,
    path: &Vec<String>,
    visited: &mut Vec<String>,
    fuel: usize,
) -> (r: Option<TypeRef>)
    requires
        old(ctx).wf(),
    ensures
        final(visited)@ == old(visited)@,
        kept(*old(ctx), *final(ctx)),
        fuel > 0 ==> global_decided(
            *old(ctx).tree,
            old(ctx).primitives.names(),
            *old(ctx).config,
            path.deep_view(),
            crate::model::components::opt_typeref_view(r),
        ),
    decreases fuel,
{
    let ghost p = path.deep_view();
    let ghost tree0 = *old(ctx).tree;
    if fuel == 0 {
        return None;
    }
    if path.len() == 1 && ctx.primitives.is_primitive(path[0].as_str()) {
        return Some(TypeRef::Primitive(path[0].clone()));
    }
    let joined_colon = join_strings(path, "::");
    if ctx.primitives.is_primitive(joined_colon.as_str()) {
        return Some(TypeRef::Primitive(joined_colon));
    }
    let joined_dot = join_strings(path, ".");
    if ctx.primitives.is_primitive(joined_dot.as_str()) {
        return Some(TypeRef::Primitive(joined_dot));
    }
    let tree = ctx.tree;
    let mut curr: ScopeId = tree.root;
    let mut i: usize = 0;
    let ghost mut via_imports: bool = false;
    proof {
        reveal_strlit("root");
        reveal_strlit("crate");
    }
    while i < path.len()
        invariant
            visited@ == old(visited)@,
            kept(*old(ctx), *ctx),
            tree == ctx.tree,
            *tree == tree0,
            p == path.deep_view(),
            fuel > 0,
            curr < tree.len(),
            i <= path@.len(),
            primitive_path(p, ctx.primitives.names()) is None,
            ctx.primitives == old(ctx).primitives,
            !via_imports ==> global_walk(tree0, 0, p, 0) == global_walk(tree0, curr, p, i as int),
            via_imports ==> (global_walk(tree0, 0, p, 0) matches GlobalWalk::Unbound(c) && transitive_scope(
                tree0,
                *old(ctx).config,
                c as int,
            )),
        decreases path.len() - i,
    {
        let part = &path[i];
        if i == 0 && (str_eq(part.as_str(), "root") || str_eq(part.as_str(), "crate")) {
            i += 1;
        } else {
            assert(scope_wf(tree.arena@[curr as int], curr as int, tree.len()));
            match tree.arena[curr].symbols.get(part) {
                Some(Symbol::Module(id)) | Some(Symbol::Type(id)) => {
                    curr = *id;
                    i += 1;
                },
                Some(Symbol::Value(ty)) | Some(Symbol::TypeAlias(ty)) => {
                    return if i == path.len() - 1 {
                        Some(ty.duplicate())
                    } else {
                        None
                    };
                },
                None => {
                    let ghost first = !via_imports;
                    let ghost c0 = curr;
                    proof {
                        if first {
                            assert(global_walk(tree0, curr, p, i as int) == GlobalWalk::Unbound(curr));
                        }
                    }
                    match resolve_via_transitive_imports(ctx, curr, part, visited, fuel - 1) {
                        Some(resolved) => {
                            proof {
                                if first {
                                    assert(transitive_scope(tree0, *old(ctx).config, c0 as int));
                                }
                                via_imports = true;
                            }
                            if i == path.len() - 1 {
                                return Some(resolved);
                            }
                            match find_scope_for_type(tree, &resolved) {
                                Some(next_scope) => {
                                    curr = next_scope;
                                    i += 1;
                                },
                                None => {
                                    return None;
                                },
                            }
                        },
                        None => {
                            return None;
                        },
                    }
                },
            }
        }
    }
    let final_path = tree.build_path_from_scope(curr);
    let r = TypeRef::EvaluatedAccess(
        Box::new(TypeRef::Resolved(clone_qn(&final_path))),
        Box::new(TypeRef::Resolved(final_path)),
    );
    proof {
        reveal_with_fuel(crate::model::queries::typeref_view, 3);
        if !via_imports {
            assert(global_walk(tree0, curr, p, i as int) == GlobalWalk::Reached(curr));
            assert(r@ == TypeRefV::EvaluatedAccess(
                Box::new(TypeRefV::Resolved(scope_path(tree0.arena@, curr as int))),
                Box::new(TypeRefV::Resolved(scope_path(tree0.arena@, curr as int))),
            ));
        }
    }
    Some(r)
}

/// Whether scope `id` is a module whose language re-exports its imports.
pub open spec fn transitive_scope(tree: ScopeTree, config: AnalyzerConfig, id: int) -> bool {
    &&& tree.arena@[id].is_module
    &&& config.strategy_for(
        match tree.arena@[id].language {
            Some(l) => l@,
            None => "root"@,
        },
    ).transitive_imports
}

/// Whether some import of scope `s` ends in `member`.
pub open spec fn imports_member(s: Scope, member: Seq<char>) -> bool {
    exists|j: int|
        0 <= j < s.imports@.len() && (#[trigger] s.imports@[j]).path@.len() > 0 && s.imports@[j].path@.last()@
            == member
}

/// Looks `member` up through the imports of a module whose language re-exports its imports
/// (`transitive_imports`): an import ending in `member` (unresolvable ones count as external),
/// else a wildcard import holding it.
fn resolve_via_transitive_imports(
    ctx: &mut ExecutorContext,
    scope_id: ScopeId,
    member: &String,
    visited: &mut Vec<String>,
    fuel: usize,
) -> (r: Option<TypeRef>)
    requires
        old(ctx).wf(),
        scope_id < old(ctx).tree.len(),
    ensures
        final(visited)@ == old(visited)@,
        kept(*old(ctx), *final(ctx)),
        !transitive_scope(*old(ctx).tree, *old(ctx).config, scope_id as int) ==> r is None,
        fuel > 0 && !has_key(
            old(visited)@,
            "trans:"@ + crate::text_util::decimal_spec(scope_id as nat) + ":"@ + member@,
        ) && transitive_scope(*old(ctx).tree, *old(ctx).config, scope_id as int) && imports_member(
            old(ctx).tree.arena@[scope_id as int],
            member@,
        ) ==> r is Some,
    decreases fuel,
{
    if fuel == 0 {
        return None;
    }
    let key = scoped_key("trans:", scope_id, member.as_str());
    if !visit(visited, key.clone()) {
        return None;
    }
    let ghost vk = visited@;
    let tree = ctx.tree;
    let node = &tree.arena[scope_id];
    let mut result: Option<TypeRef> = None;
    if node.is_module {
        let lang: &str = match &node.language {
            Some(l) => l.as_str(),
            None => "root",
        };
        proof {
            reveal_strlit("root");
        }
        if ctx.config.get_for(lang).transitive_imports {
            let mut j: usize = 0;
            while j < node.imports.len() && result.is_none()
                invariant
                    visited@ == vk,
                    kept(*old(ctx), *ctx),
                    tree == ctx.tree,
                    fuel > 0,
                    scope_id < tree.len(),
                    node == tree.arena@[scope_id as int],
                    j <= node.imports@.len(),
                    result is None ==> forall|k: int|
                        0 <= k < j ==> !((#[trigger] node.imports@[k]).path@.len() > 0
                            && node.imports@[k].path@.last()@ == member@),
                decreases node.imports.len() - j,
            {
                let imp = &node.imports[j];
                if imp.path.len() > 0 {
                    let last = &imp.path[imp.path.len() - 1];
                    if str_eq(last.as_str(), member.as_str()) {
                        result = match resolve_import_path(ctx, scope_id, &imp.path, visited, fuel - 1) {
                            Some(resolved) => Some(resolved),
                            None => Some(TypeRef::External(clone_qn(&imp.path))),
                        };
                    } else if str_eq(last.as_str(), "*") || imp.is_wildcard {
                        let mut target_path = clone_qn(&imp.path);
                        if str_eq(target_path[target_path.len() - 1].as_str(), "*") {
                            target_path.pop();
                        }
                        target_path.push(member.clone());
                        match resolve_import_path(ctx, scope_id, &target_path, visited, fuel - 1) {
                            Some(resolved) => {
                                result = Some(resolved);
                            },
                            None => {},
                        }
                    }
                }
                j += 1;
            }
        }
    }
    unvisit(visited, &key);
    result
}

/// Evaluates each reference of a list in scope `scope_id`.
fn evaluate_each(ctx: &mut ExecutorContext, v: &Vec<TypeRef>, scope_id: ScopeId, resolve_type: bool) -> (r: Vec<TypeRef>)
    requires
        old(ctx).wf(),
        scope_id < old(ctx).tree.len(),
    ensures
        kept(*old(ctx), *final(ctx)),
        r@.len() == v@.len(),
        forall|i: int| 0 <= i < v@.len() ==> #[trigger] eval_shape(v@[i]@, r@[i]@),
{
    let mut out: Vec<TypeRef> = Vec::new();
    let mut i: usize = 0;
    while i < v.len()
        invariant
            kept(*old(ctx), *ctx),
            scope_id < ctx.tree.len(),
            i <= v@.len(),
            out@.len() == i,
            forall|j: int| 0 <= j < i ==> #[trigger] eval_shape(v@[j]@, out@[j]@),
        decreases v.len() - i,
    {
        out.push(evaluate_typeref(ctx, v[i].duplicate(), scope_id, resolve_type));
        i += 1;
    }
    out
}

/// Evaluates the fields of a list: each type as a type, each annotation as a reference.
fn execute_fields(ctx: &mut ExecutorContext, v: &Vec<Field>, scope_id: ScopeId, with_annotations: bool) -> (r: Vec<Field>)
    requires
        old(ctx).wf(),
        scope_id < old(ctx).tree.len(),
    ensures
        kept(*old(ctx), *final(ctx)),
        same_fields(v@, r@),
        evaluated_fields(v@, r@),
{
    let mut out: Vec<Field> = Vec::new();
    let mut i: usize = 0;
    while i < v.len()
        invariant
            kept(*old(ctx), *ctx),
            scope_id < ctx.tree.len(),
            i <= v@.len(),
            out@.len() == i,
            forall|j: int| 0 <= j < i ==> #[trigger] same_field(v@[j], out@[j]),
            forall|j: int| 0 <= j < i ==> #[trigger] eval_shape(v@[j].ty@, out@[j].ty@),
        decreases v.len() - i,
    {
        let f = &v[i];
        let ty = evaluate_typeref(ctx, f.ty.duplicate(), scope_id, true);
        let annotations = if with_annotations {
            evaluate_each(ctx, &f.annotations, scope_id, false)
        } else {
            clone_typerefs(&f.annotations)
        };
        out.push(Field { name: f.name.clone(), ty, annotations });
        i += 1;
    }
    out
}

/// Evaluates the bounds of each type parameter.
fn execute_type_params(ctx: &mut ExecutorContext, v: &Vec<TypeParameter>, scope_id: ScopeId) -> (r: Vec<TypeParameter>)
    requires
        old(ctx).wf(),
        scope_id < old(ctx).tree.len(),
    ensures
        kept(*old(ctx), *final(ctx)),
        same_type_params(v@, r@),
{
    let mut out: Vec<TypeParameter> = Vec::new();
    let mut i: usize = 0;
    while i < v.len()
        invariant
            kept(*old(ctx), *ctx),
            scope_id < ctx.tree.len(),
            i <= v@.len(),
            out@.len() == i,
            forall|j: int| 0 <= j < i ==> #[trigger] same_type_param(v@[j], out@[j]),
        decreases v.len() - i,
    {
        let tp = &v[i];
        let bounds = evaluate_each(ctx, &tp.bounds, scope_id, true);
        out.push(TypeParameter { name: tp.name.clone(), bounds });
        i += 1;
    }
    out
}

/// Evaluates the targets of type aliases.
fn execute_aliases(ctx: &mut ExecutorContext, v: &Vec<TypeAlias>, scope_id: ScopeId) -> (r: Vec<TypeAlias>)
    requires
        old(ctx).wf(),
        scope_id < old(ctx).tree.len(),
    ensures
        kept(*old(ctx), *final(ctx)),
        same_aliases(v@, r@),
{
    let mut out: Vec<TypeAlias> = Vec::new();
    let mut i: usize = 0;
    while i < v.len()
        invariant
            kept(*old(ctx), *ctx),
            scope_id < ctx.tree.len(),
            i <= v@.len(),
            out@.len() == i,
            forall|j: int| 0 <= j < i ==> #[trigger] crate::model::shape::same_alias(v@[j], out@[j]),
        decreases v.len() - i,
    {
        let ta = &v[i];
        let target = evaluate_typeref(ctx, ta.target.duplicate(), scope_id, true);
        out.push(TypeAlias { name: clone_qn(&ta.name), target });
        i += 1;
    }
    out
}

/// The first child scope of `parent` named `name`, else `parent` itself.
fn first_child_or(tree: &ScopeTree, parent: ScopeId, name: &String) -> (r: ScopeId)
    requires
        tree.wf(),
        parent < tree.len(),
    ensures
        r < tree.len(),
        r == (if crate::resolver::scope::ids_under(tree.arena@[parent as int].children_by_name.map(), name@).len()
            > 0 {
            crate::resolver::scope::ids_under(tree.arena@[parent as int].children_by_name.map(), name@)[0]
        } else {
            parent
        }),
{
    assert(scope_wf(tree.arena@[parent as int], parent as int, tree.len()));
    match tree.arena[parent].children_by_name.get(name) {
        Some(ids) => if ids.len() > 0 {
            ids[0]
        } else {
            parent
        },
        None => parent,
    }
}

/// Resolves a block (scope `block_<index>` under `parent_scope`): declarations, instantiations
/// (redirected to constructors), accesses, casts and calls (redirected to constructors; where
/// the language does not call types, a call of a type becomes a cast), then its sub-blocks.
fn execute_block(ctx: &mut ExecutorContext, b: &Block, parent_scope: ScopeId, index: usize) -> (r: Block)
    requires
        old(ctx).wf(),
        parent_scope < old(ctx).tree.len(),
    ensures
        kept(*old(ctx), *final(ctx)),
        same_block(*b, r),
    decreases b,
{
    let tree = ctx.tree;
    let block_name = crate::text_util::with_decimal("block_", index);
    let block_scope = first_child_or(tree, parent_scope, &block_name);
    let declarations = execute_fields(ctx, &b.declarations, block_scope, true);
    let mut instantiates: Vec<TypeRef> = Vec::new();
    let mut i: usize = 0;
    while i < b.instantiates.len()
        invariant
            kept(*old(ctx), *ctx),
            tree == ctx.tree,
            block_scope < tree.len(),
            i <= b.instantiates@.len(),
            instantiates@.len() == i,
        decreases b.instantiates.len() - i,
    {
        let tr = evaluate_typeref(ctx, b.instantiates[i].duplicate(), block_scope, false);
        instantiates.push(redirect_to_constructor(tree, tr));
        i += 1;
    }
    let accesses = evaluate_each(ctx, &b.accesses, block_scope, false);
    let mut type_casts = evaluate_each(ctx, &b.type_casts, block_scope, false);
    let lang = get_scope_language(tree, block_scope);
    let lang_str: &str = match &lang {
        Some(l) => l.as_str(),
        None => "",
    };
    let callable_types = ctx.config.get_for(lang_str).callable_types;
    let mut calls: Vec<TypeRef> = Vec::new();
    let mut i: usize = 0;
    while i < b.calls.len()
        invariant
            kept(*old(ctx), *ctx),
            tree == ctx.tree,
            block_scope < tree.len(),
            i <= b.calls@.len(),
            calls@.len() + type_casts@.len() == i + b.type_casts@.len(),
        decreases b.calls.len() - i,
    {
        let tr = evaluate_typeref(ctx, b.calls[i].duplicate(), block_scope, false);
        let redirected = redirect_to_constructor(tree, tr);
        if !callable_types && is_type_or_alias(tree, ctx.primitives, &redirected) {
            type_casts.push(redirected);
        } else {
            calls.push(redirected);
        }
        i += 1;
    }
    let mut sub_blocks: Vec<Block> = Vec::new();
    let mut i: usize = 0;
    while i < b.sub_blocks.len()
        invariant
            kept(*old(ctx), *ctx),
            tree == ctx.tree,
            block_scope < tree.len(),
            i <= b.sub_blocks@.len(),
            sub_blocks@.len() == i,
            forall|j: int| 0 <= j < i ==> #[trigger] same_block(b.sub_blocks@[j], sub_blocks@[j]),
        decreases b.sub_blocks.len() - i,
    {
        sub_blocks.push(execute_block(ctx, &b.sub_blocks[i], block_scope, i));
        i += 1;
    }
    let r = Block { declarations, calls, instantiates, accesses, type_casts, sub_blocks };
    assert(same_fields(b.declarations@, r.declarations@));
    assert(b.instantiates@.len() == r.instantiates@.len());
    assert(b.accesses@.len() == r.accesses@.len());
    assert(b.calls@.len() + b.type_casts@.len() == r.calls@.len() + r.type_casts@.len());
    proof {
        crate::model::shape::lemma_same_blocks(b.sub_blocks@, r.sub_blocks@);
    }
    r
}

/// Resolves a function (in its scope under `parent_scope`): parameter and return types,
/// annotations, type parameter bounds, then its body.
fn execute_function(ctx: &mut ExecutorContext, f: &Function, parent_scope: ScopeId) -> (r: Function)
    requires
        old(ctx).wf(),
        parent_scope < old(ctx).tree.len(),
    ensures
        kept(*old(ctx), *final(ctx)),
        same_function(*f, r),
        evaluated_function(*f, r),
{
    let tree = ctx.tree;
    let name = crate::resolver::scope::last_or_empty(&f.name);
    let func_scope = first_child_or(tree, parent_scope, &name);
    let mut parameters: Vec<Parameter> = Vec::new();
    let mut i: usize = 0;
    while i < f.signature.parameters.len()
        invariant
            kept(*old(ctx), *ctx),
            tree == ctx.tree,
            func_scope < tree.len(),
            i <= f.signature.parameters@.len(),
            parameters@.len() == i,
            forall|j: int|
                0 <= j < i ==> #[trigger] crate::model::shape::same_param(
                    f.signature.parameters@[j],
                    parameters@[j],
                ),
            forall|j: int|
                0 <= j < i ==> #[trigger] eval_shape(f.signature.parameters@[j].ty@, parameters@[j].ty@),
        decreases f.signature.parameters.len() - i,
    {
        let p = &f.signature.parameters[i];
        let ty = evaluate_typeref(ctx, p.ty.duplicate(), func_scope, true);
        parameters.push(
            Parameter {
                name: crate::model::components::clone_opt_string(&p.name),
                ty,
                is_variadic: p.is_variadic,
            },
        );
        i += 1;
    }
    let return_type = evaluate_typeref(ctx, f.signature.return_type.duplicate(), func_scope, true);
    let annotations = evaluate_each(ctx, &f.annotations, func_scope, false);
    let type_parameters = execute_type_params(ctx, &f.type_parameters, func_scope);
    let body = match &f.body {
        Some(b) => Some(execute_block(ctx, b, func_scope, 0)),
        None => None,
    };
    Function {
        name: clone_qn(&f.name),
        signature: crate::model::components::Signature { parameters, return_type },
        body,
        is_constructor: f.is_constructor,
        annotations,
        type_parameters,
    }
}

fn execute_functions(ctx: &mut ExecutorContext, v: &Vec<Function>, scope_id: ScopeId) -> (r: Vec<Function>)
    requires
        old(ctx).wf(),
        scope_id < old(ctx).tree.len(),
    ensures
        kept(*old(ctx), *final(ctx)),
        same_functions(v@, r@),
        evaluated_functions(v@, r@),
{
    let mut out: Vec<Function> = Vec::new();
    let mut i: usize = 0;
    while i < v.len()
        invariant
            kept(*old(ctx), *ctx),
            scope_id < ctx.tree.len(),
            i <= v@.len(),
            out@.len() == i,
            forall|j: int| 0 <= j < i ==> #[trigger] same_function(v@[j], out@[j]),
            forall|j: int| 0 <= j < i ==> #[trigger] evaluated_function(v@[j], out@[j]),
        decreases v.len() - i,
    {
        out.push(execute_function(ctx, &v[i], scope_id));
        i += 1;
    }
    out
}

/// Resolves a structured type (in its scope under `parent_scope`): super types, annotations,
/// fields, methods, type parameter bounds, then its nested types.
fn execute_structured_type(ctx: &mut ExecutorContext, st: &StructuredType, parent_scope: ScopeId) -> (r: StructuredType)
    requires
        old(ctx).wf(),
        parent_scope < old(ctx).tree.len(),
    ensures
        kept(*old(ctx), *final(ctx)),
        same_structured_type(*st, r),
        evaluated_structured_type(*st, r),
    decreases st,
{
    let tree = ctx.tree;
    let name = crate::resolver::scope::last_or_empty(&st.name);
    let scope_id = match find_child_scope(tree, parent_scope, &name, false) {
        Some(id) => id,
        None => parent_scope,
    };
    let super_types = evaluate_each(ctx, &st.super_types, scope_id, true);
    let annotations = evaluate_each(ctx, &st.annotations, scope_id, false);
    let fields = execute_fields(ctx, &st.fields, scope_id, true);
    let methods = execute_functions(ctx, &st.methods, scope_id);
    let type_parameters = execute_type_params(ctx, &st.type_parameters, scope_id);
    let mut nested_types: Vec<StructuredType> = Vec::new();
    let mut i: usize = 0;
    while i < st.nested_types.len()
        invariant
            kept(*old(ctx), *ctx),
            tree == ctx.tree,
            scope_id < tree.len(),
            i <= st.nested_types@.len(),
            nested_types@.len() == i,
            forall|j: int|
                0 <= j < i ==> #[trigger] same_structured_type(st.nested_types@[j], nested_types@[j]),
            forall|j: int|
                0 <= j < i ==> #[trigger] evaluated_structured_type(st.nested_types@[j], nested_types@[j]),
        decreases st.nested_types.len() - i,
    {
        nested_types.push(execute_structured_type(ctx, &st.nested_types[i], scope_id));
        i += 1;
    }
    proof {
        crate::model::shape::lemma_same_structured_types(st.nested_types@, nested_types@);
        lemma_evaluated_structured_types(st.nested_types@, nested_types@);
    }
    let r = StructuredType {
        name: clone_qn(&st.name),
        kind: st.kind,
        fields,
        methods,
        super_types,
        nested_types,
        annotations,
        imports: crate::model::components::dup_imports(&st.imports),
        type_parameters,
    };
    r
}

fn execute_structured_types(ctx: &mut ExecutorContext, v: &Vec<StructuredType>, scope_id: ScopeId) -> (r: Vec<StructuredType>)
    requires
        old(ctx).wf(),
        scope_id < old(ctx).tree.len(),
    ensures
        kept(*old(ctx), *final(ctx)),
        same_structured_types(v@, r@),
        evaluated_structured_types(v@, r@),
{
    let mut out: Vec<StructuredType> = Vec::new();
    let mut i: usize = 0;
    while i < v.len()
        invariant
            kept(*old(ctx), *ctx),
            scope_id < ctx.tree.len(),
            i <= v@.len(),
            out@.len() == i,
            forall|j: int| 0 <= j < i ==> #[trigger] same_structured_type(v@[j], out@[j]),
            forall|j: int| 0 <= j < i ==> #[trigger] evaluated_structured_type(v@[j], out@[j]),
        decreases v.len() - i,
    {
        out.push(execute_structured_type(ctx, &v[i], scope_id));
        i += 1;
    }
    proof {
        crate::model::shape::lemma_same_structured_types(v@, out@);
        lemma_evaluated_structured_types(v@, out@);
    }
    out
}

/// The name of the type an evaluated impl target stands for: the last segment of its path (of
/// the member reached, for an access), the text of a query, empty otherwise.
pub open spec fn evaluated_name_spec(t: TypeRef) -> Seq<char> {
    match t {
        TypeRef::Resolved(qn) => crate::resolver::scope::last_name(qn.deep_view()),
        TypeRef::External(qn) => crate::resolver::scope::last_name(qn.deep_view()),
        TypeRef::Failed(qn) => crate::resolver::scope::last_name(qn.deep_view()),
        TypeRef::ResolutionQuery(q) => query_text(q),
        TypeRef::EvaluatedAccess(_, inner) => match *inner {
            TypeRef::Resolved(qn) => crate::resolver::scope::last_name(qn.deep_view()),
            TypeRef::External(qn) => crate::resolver::scope::last_name(qn.deep_view()),
            _ => Seq::empty(),
        },
        _ => Seq::empty(),
    }
}

/// The name of the type an evaluated impl target stands for.
fn evaluated_target_name(t: &TypeRef) -> (r: String)
    ensures
        r@ == evaluated_name_spec(*t),
{
    match t {
        TypeRef::Resolved(qn) | TypeRef::External(qn) | TypeRef::Failed(qn) => {
            crate::resolver::scope::last_or_empty(qn)
        },
        TypeRef::ResolutionQuery(q) => extract_base_name(q),
        TypeRef::EvaluatedAccess(_, inner) => match &**inner {
            TypeRef::Resolved(qn) | TypeRef::External(qn) => crate::resolver::scope::last_or_empty(qn),
            _ => String::new(),
        },
        _ => String::new(),
    }
}

/// Resolves an impl block of the module scope `parent_scope`: the type it is for and the trait
/// it implements (in the module), then its methods, nested types and aliases in the scope of
/// that type (in the module, else anywhere by name, else the module's).
fn execute_impl_block(ctx: &mut ExecutorContext, ib: &ImplBlock, parent_scope: ScopeId) -> (r: ImplBlock)
    requires
        old(ctx).wf(),
        parent_scope < old(ctx).tree.len(),
    ensures
        kept(*old(ctx), *final(ctx)),
        same_impl_block(*ib, r),
        evaluated_impl_block(*ib, r),
{
    let tree = ctx.tree;
    let impl_for = evaluate_typeref(ctx, ib.impl_for.duplicate(), parent_scope, true);
    let implements_trait = match &ib.implements_trait {
        Some(t) => Some(evaluate_typeref(ctx, t.duplicate(), parent_scope, true)),
        None => None,
    };
    let target_name = evaluated_target_name(&impl_for);
    let scope_id = match find_child_scope(tree, parent_scope, &target_name, false) {
        Some(id) => id,
        None => match tree.type_scopes_by_name.get(&target_name) {
            Some(ids) => if ids.len() > 0 {
                assert(ids_in_bounds(ids@, tree.len()));
                ids[0]
            } else {
                parent_scope
            },
            None => parent_scope,
        },
    };
    let methods = execute_functions(ctx, &ib.methods, scope_id);
    let nested_types = execute_structured_types(ctx, &ib.nested_types, scope_id);
    let type_aliases = execute_aliases(ctx, &ib.type_aliases, scope_id);
    ImplBlock {
        name: clone_qn(&ib.name),
        methods,
        impl_for,
        implements_trait,
        nested_types,
        type_aliases,
    }
}

fn execute_module_in(ctx: &mut ExecutorContext, m: &Module, parent_scope: ScopeId) -> (r: Module)
    requires
        old(ctx).wf(),
        parent_scope < old(ctx).tree.len(),
    ensures
        kept(*old(ctx), *final(ctx)),
        same_module(*m, r),
        evaluated_module(*m, r),
    decreases m,
{
    let tree = ctx.tree;
    let module_name = if m.name.len() > 0 {
        m.name[m.name.len() - 1].clone()
    } else {
        "unknown".to_string()
    };
    let scope_id = if str_eq(module_name.as_str(), "root") {
        parent_scope
    } else {
        match find_child_scope(tree, parent_scope, &module_name, true) {
            Some(id) => id,
            None => parent_scope,
        }
    };
    let free_variables = execute_fields(ctx, &m.free_variables, scope_id, false);
    let type_aliases = execute_aliases(ctx, &m.type_aliases, scope_id);
    let free_functions = execute_functions(ctx, &m.free_functions, scope_id);
    let structured_types = execute_structured_types(ctx, &m.structured_types, scope_id);
    let mut impl_blocks: Vec<ImplBlock> = Vec::new();
    let mut i: usize = 0;
    while i < m.impl_blocks.len()
        invariant
            kept(*old(ctx), *ctx),
            tree == ctx.tree,
            scope_id < tree.len(),
            i <= m.impl_blocks@.len(),
            impl_blocks@.len() == i,
            forall|j: int| 0 <= j < i ==> #[trigger] same_impl_block(m.impl_blocks@[j], impl_blocks@[j]),
            forall|j: int| 0 <= j < i ==> #[trigger] evaluated_impl_block(m.impl_blocks@[j], impl_blocks@[j]),
        decreases m.impl_blocks.len() - i,
    {
        impl_blocks.push(execute_impl_block(ctx, &m.impl_blocks[i], scope_id));
        i += 1;
    }
    let mut sub_modules: Vec<Module> = Vec::new();
    let mut i: usize = 0;
    while i < m.sub_modules.len()
        invariant
            kept(*old(ctx), *ctx),
            tree == ctx.tree,
            scope_id < tree.len(),
            i <= m.sub_modules@.len(),
            sub_modules@.len() == i,
            forall|j: int| 0 <= j < i ==> #[trigger] same_module(m.sub_modules@[j], sub_modules@[j]),
            forall|j: int| 0 <= j < i ==> #[trigger] evaluated_module(m.sub_modules@[j], sub_modules@[j]),
        decreases m.sub_modules.len() - i,
    {
        sub_modules.push(execute_module_in(ctx, &m.sub_modules[i], scope_id));
        i += 1;
    }
    proof {
        crate::model::shape::lemma_same_modules(m.sub_modules@, sub_modules@);
        lemma_evaluated_modules(m.sub_modules@, sub_modules@);
    }
    Module {
        name: clone_qn(&m.name),
        language: crate::model::components::clone_opt_string(&m.language),
        file_path: crate::model::components::clone_opt_string(&m.file_path),
        imports: crate::model::components::dup_imports(&m.imports),
        sub_modules,
        structured_types,
        type_aliases,
        free_functions,
        impl_blocks,
        free_variables,
    }
}

/// Resolves every declaration and query of a module, in the scope its name opens under
/// `parent_scope` (`parent_scope` itself for the root module, or when there is none).
pub fn execute_module(ctx: &mut ExecutorContext, m: Module, parent_scope: ScopeId) -> (r: Module)
    requires
        old(ctx).wf(),
        parent_scope < old(ctx).tree.len(),
    ensures
        kept(*old(ctx), *final(ctx)),
        same_module(m, r),
        evaluated_module(m, r),
{
    execute_module_in(ctx, &m, parent_scope)
}

/// Query execution: builds the scope tree of the modules, then resolves every declaration and
/// query of each module against it. Every declaration keeps its name and place.
pub fn execute_queries(modules: Vec<Module>, primitives: &PrimitiveRegistry, config: &AnalyzerConfig) -> (r: Vec<Module>)
    requires
        primitives.wf(),
        config.wf(),
    ensures
        same_modules(modules@, r@),
        evaluated_modules(modules@, r@),
{
    let tree = ScopeTree::build(&modules, config);
    let mut ctx = ExecutorContext::new(&tree, primitives, config);
    let mut out: Vec<Module> = Vec::new();
    let mut i: usize = 0;
    while i < modules.len()
        invariant
            ctx.wf(),
            i <= modules@.len(),
            out@.len() == i,
            forall|j: int| 0 <= j < i ==> #[trigger] same_module(modules@[j], out@[j]),
            forall|j: int| 0 <= j < i ==> #[trigger] evaluated_module(modules@[j], out@[j]),
        decreases modules.len() - i,
    {
        let root = ctx.tree.root;
        out.push(execute_module_in(&mut ctx, &modules[i], root));
        i += 1;
    }
    proof {
        crate::model::shape::lemma_same_modules(modules@, out@);
        lemma_evaluated_modules(modules@, out@);
    }
    out
}

} // verus!
