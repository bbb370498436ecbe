//! Properties that relate several operations of the library, stated over the
//! models that the operations' own contracts use.
use crate::assoc::{AssocMap, MapKey};
use crate::benchmark::flat_name_spec;
use crate::model::components::QualifiedNameV;
use crate::model::queries::Query;
use crate::resolver::cache::{scope_key_spec, ResolutionCache, ResolutionResultV};
use crate::resolver::scope::{is_fresh_scope, path_included, same_but_children, scope_path, Scope, ScopeTree};
use crate::resolver::stack::{lookup_frames, SymbolStack};
use crate::export::graph::{
    alias_edges, all_module_edges, block_edges, blocks_edges, decl_edges, edge, edges_to, free_function_edges,
    free_variable_edges, function_edges, impl_edges, import_edges, module_edges, module_own_edges,
    module_types_edges, param_edges, refs_edges, submodule_edges, targets,
};
use crate::export::order::dep_views;
use crate::export::summary::own_segments;
use crate::model::components::Module;
use crate::model::graph::DependencyGraph;
use crate::export::summary::{fields_tally, tally, tally_seq};
use crate::heuristics::type_extraction::structured_kind_spec;
use crate::model::components::{Block, Field, Function, Parameter, StructuredTypeKind};
use crate::model::graph::{DependencyEdgeKind, DependencyV};
use crate::model::queries::TypeRef;
use crate::config::AnalyzerConfig;
use crate::model::queries::TypeRefV;
use crate::resolver::executor::{global_walk, imported_as, primitive_path, sym_get, transitive_scope, GlobalWalk};
use crate::text_util::{contains_sub, join_spec};
use vstd::prelude::*;

verus! {

/// A memoised result is read back: after `insert(prefix, name, res)` (whose
/// effect on the cache's model is the `requires` below), `get(prefix, name)` finds
/// `res`, and every other (scope, name) pair reads as before.
pub proof fn law_cache_read_after_write(
    before: ResolutionCache,
    after: ResolutionCache,
    prefix: Seq<Seq<char>>,
    name: QualifiedNameV,
    res: ResolutionResultV,
)
    requires
        after.view_map() == before.view_map().insert(
            scope_key_spec(prefix),
            if before.view_map().dom().contains(scope_key_spec(prefix)) {
                before.view_map()[scope_key_spec(prefix)].insert(name, res)
            } else {
                Map::<QualifiedNameV, ResolutionResultV>::empty().insert(name, res)
            },
        ),
    ensures
        after.view_map().dom().contains(scope_key_spec(prefix)),
        after.view_map()[scope_key_spec(prefix)].dom().contains(name),
        after.view_map()[scope_key_spec(prefix)][name] == res,
        forall|k: Seq<char>, n: QualifiedNameV|
            !(k == scope_key_spec(prefix) && n == name) ==> ((after.view_map().dom().contains(k)
                && after.view_map()[k].dom().contains(n)) <==> (before.view_map().dom().contains(k)
                && before.view_map()[k].dom().contains(n))),
{
}

/// A symbol defined in the current frame of a non-empty stack is what a lookup of
/// its name finds (the frame is innermost).
pub proof fn law_stack_define_then_lookup(
    before: SymbolStack,
    after: SymbolStack,
    name: Seq<char>,
    query: Query,
)
    requires
        before.frames@.len() > 0,
        after.view_frames() == before.view_frames().update(
            before.frames@.len() - 1,
            before.view_frames().last().insert(name, query),
        ),
    ensures
        lookup_frames(after.frames@, name) == Some(query),
{
    let n = before.frames@.len() as int;
    assert(after.view_frames().len() == n);
    assert(after.frames@.len() == n);
    assert(after.view_frames()[n - 1] == after.frames@[n - 1].map());
    assert(after.frames@.last().map() == before.view_frames().last().insert(name, query));
}

/// Entering a scope and leaving it again gives back the frames there were.
pub proof fn law_stack_push_then_pop(before: SymbolStack, pushed: SymbolStack, popped: SymbolStack)
    requires
        pushed.view_frames() == before.view_frames().push(Map::<Seq<char>, Query>::empty()),
        popped.view_frames() == if pushed.frames@.len() == 0 {
            pushed.view_frames()
        } else {
            pushed.view_frames().drop_last()
        },
    ensures
        popped.view_frames() == before.view_frames(),
{
    assert(pushed.frames@.len() == pushed.view_frames().len());
    assert(before.view_frames().push(Map::<Seq<char>, Query>::empty()).drop_last() == before.view_frames());
}

/// A scope's path depends only on the names and parents of the scopes up to it.
proof fn lemma_scope_path_same(a: Seq<Scope>, b: Seq<Scope>, id: int)
    requires
        0 <= id < a.len(),
        id < b.len(),
        forall|i: int| 0 <= i <= id ==> (#[trigger] a[i]).name == b[i].name && a[i].parent == b[i].parent,
    ensures
        scope_path(a, id) == scope_path(b, id),
    decreases id,
{
    match a[id].parent {
        Some(p) => {
            if p < id {
                lemma_scope_path_same(a, b, p as int);
            }
        },
        None => {},
    }
}

/// The path of a new scope is its parent's path followed by its own name, unless
/// the name is left out of paths (a block, or the root).
pub proof fn law_new_scope_path(before: ScopeTree, after: ScopeTree, parent: usize, name: Seq<char>, id: usize)
    requires
        parent < before.arena@.len(),
        id == before.arena@.len(),
        after.arena@.len() == before.arena@.len() + 1,
        is_fresh_scope(after.arena@[id as int], id as int, Some(parent), name),
        forall|i: int|
            0 <= i < before.arena@.len() && i != parent ==> #[trigger] after.arena@[i]
                == before.arena@[i],
        same_but_children(after.arena@[parent as int], before.arena@[parent as int]),
    ensures
        scope_path(after.arena@, id as int) == if path_included(name) {
            scope_path(before.arena@, parent as int).push(name)
        } else {
            scope_path(before.arena@, parent as int)
        },
{
    assert forall|i: int| 0 <= i <= parent implies (#[trigger] after.arena@[i]).name
        == before.arena@[i].name && after.arena@[i].parent == before.arena@[i].parent by {
        if i != parent {
            assert(after.arena@[i] == before.arena@[i]);
        }
    }
    lemma_scope_path_same(after.arena@, before.arena@, parent as int);
}

/// A leading `root` part does not change how a name is written.
pub proof fn law_flat_name_drops_root(path: Seq<Seq<char>>)
    ensures
        flat_name_spec(seq!["root"@] + path) == join_spec(path, "."@),
{
    assert((seq!["root"@] + path)[0] == "root"@);
    assert((seq!["root"@] + path).skip(1) =~= path);
}

/// A value stored in an association map under a key is what the map holds there,
/// and every other key keeps its value.
pub proof fn law_assoc_insert_then_get<K: MapKey, V>(before: AssocMap<K, V>, after: AssocMap<K, V>, k: K::KV, v: V)
    requires
        after.map() == before.map().insert(k, v),
    ensures
        after.map().dom().contains(k),
        after.map()[k] == v,
        forall|j: K::KV| j != k ==> (after.map().dom().contains(j) == before.map().dom().contains(j) && (
        before.map().dom().contains(j) ==> after.map()[j] == before.map()[j])),
{
}

/// A structured type whose syntax kind or text mentions `interface` is an interface; one that
/// mentions none of `interface`, `trait`, `struct` and `enum` is a class; a trait is never taken
/// for an interface unless `interface` is mentioned too.
pub proof fn law_structured_kind(kind: Seq<char>, text: Seq<char>)
    ensures
        contains_sub(kind, "interface"@) || contains_sub(text, "interface"@) ==> structured_kind_spec(kind, text)
            == StructuredTypeKind::Interface,
        structured_kind_spec(kind, text) == StructuredTypeKind::Interface ==> contains_sub(kind, "interface"@)
            || contains_sub(text, "interface"@),
        structured_kind_spec(kind, text) == StructuredTypeKind::Trait ==> contains_sub(kind, "trait"@)
            || contains_sub(text, "trait"@),
        !contains_sub(kind, "interface"@) && !contains_sub(text, "interface"@) && !contains_sub(kind, "trait"@)
            && !contains_sub(text, "trait"@) && !contains_sub(kind, "struct"@) && !contains_sub(text, "struct"@)
            && !contains_sub(kind, "enum"@) && !contains_sub(text, "enum"@) ==> structured_kind_spec(kind, text)
            == StructuredTypeKind::Class,
        !contains_sub(kind, "interface"@) && !contains_sub(text, "interface"@) && (contains_sub(kind, "trait"@)
            || contains_sub(text, "trait"@)) ==> structured_kind_spec(kind, text) == StructuredTypeKind::Trait,
        structured_kind_spec(kind, text) == StructuredTypeKind::Struct ==> contains_sub(kind, "struct"@)
            || contains_sub(text, "struct"@),
        structured_kind_spec(kind, text) == StructuredTypeKind::EnumVariant ==> contains_sub(kind, "enum_variant"@),
        structured_kind_spec(kind, text) == StructuredTypeKind::Enum ==> contains_sub(kind, "enum"@)
            || contains_sub(text, "enum"@),
{
    reveal_strlit("enum_variant");
    reveal_strlit("enum");
    if contains_sub(kind, "enum_variant"@) {
        let i = choose|i: int| 0 <= i && i + "enum_variant"@.len() <= kind.len() && #[trigger] kind.subrange(
            i,
            i + "enum_variant"@.len(),
        ) == "enum_variant"@;
        assert("enum_variant"@.subrange(0, 4) =~= "enum"@);
        assert(kind.subrange(i, i + 4) =~= kind.subrange(i, i + 12).subrange(0, 4));
        assert(kind.subrange(i, i + "enum"@.len()) == "enum"@);
        assert(contains_sub(kind, "enum"@));
    }
}

/// A reference with no failed or unresolved path in it.
pub open spec fn fully_resolved(t: TypeRef) -> bool
    decreases t, 0nat,
{
    match t {
        TypeRef::Failed(_) => false,
        TypeRef::Unresolved(_) => false,
        TypeRef::Union(vs) => all_fully_resolved(vs@),
        TypeRef::Generic { base, args } => fully_resolved(*base) && all_fully_resolved(args@),
        TypeRef::TypeVar { bounds, .. } => all_fully_resolved(bounds@),
        _ => true,
    }
}

pub open spec fn all_fully_resolved(s: Seq<TypeRef>) -> bool
    decreases s, 1nat,
{
    s.len() > 0 ==> all_fully_resolved(s.drop_last()) && fully_resolved(s.last())
}

/// The number of paths in a reference, resolved, external, failed or unresolved alike.
pub open spec fn path_count(t: TypeRef) -> nat
    decreases t, 0nat,
{
    match t {
        TypeRef::Resolved(_) => 1,
        TypeRef::External(_) => 1,
        TypeRef::Failed(_) => 1,
        TypeRef::Unresolved(_) => 1,
        TypeRef::Union(vs) => path_count_seq(vs@),
        TypeRef::Generic { base, args } => path_count(*base) + path_count_seq(args@),
        TypeRef::TypeVar { bounds, .. } => path_count_seq(bounds@),
        _ => 0,
    }
}

pub open spec fn path_count_seq(s: Seq<TypeRef>) -> nat
    decreases s, 1nat,
{
    if s.len() == 0 {
        0
    } else {
        path_count_seq(s.drop_last()) + path_count(s.last())
    }
}

/// Every path of a reference is counted once, as resolved or as failed; a reference with no
/// failed or unresolved path in it (resolved and external paths only) counts nothing as failed.
pub proof fn law_tally_counts_paths(t: TypeRef)
    ensures
        tally(t).0 + tally(t).1 == path_count(t),
        fully_resolved(t) ==> tally(t).1 == 0 && tally(t).0 == path_count(t),
        t is External ==> tally(t) == (1nat, 0nat),
    decreases t, 0nat,
{
    match t {
        TypeRef::Union(vs) => law_tally_counts_paths_seq(vs@),
        TypeRef::Generic { base, args } => {
            law_tally_counts_paths(*base);
            law_tally_counts_paths_seq(args@);
        },
        TypeRef::TypeVar { bounds, .. } => law_tally_counts_paths_seq(bounds@),
        _ => {},
    }
}

pub proof fn law_tally_counts_paths_seq(s: Seq<TypeRef>)
    ensures
        tally_seq(s).0 + tally_seq(s).1 == path_count_seq(s),
        all_fully_resolved(s) ==> tally_seq(s).1 == 0,
    decreases s, 1nat,
{
    if s.len() > 0 {
        law_tally_counts_paths_seq(s.drop_last());
        law_tally_counts_paths(s.last());
    }
}

/// Of the edges a function gives, from its name: each target of each parameter's type is
/// reached by a parameter-type edge, each target of its return type by a return-type edge,
/// every return-type edge goes to a target of the return type, and every parameter-type edge to
/// a target of some parameter's type.
pub proof fn law_function_edges(from: Seq<Seq<char>>, f: Function)
    ensures
        forall|i: int, k: int|
            0 <= i < f.signature.parameters@.len() && 0 <= k < targets(f.signature.parameters@[i].ty).len()
                ==> #[trigger] function_edges(from, f).contains(
                DependencyV {
                    from,
                    to: #[trigger] targets(f.signature.parameters@[i].ty)[k],
                    kind: DependencyEdgeKind::UsesParamType,
                },
            ),
        forall|k: int|
            0 <= k < targets(f.signature.return_type).len() ==> function_edges(from, f).contains(
                DependencyV { from, to: #[trigger] targets(f.signature.return_type)[k], kind: DependencyEdgeKind::UsesReturnType },
            ),
        forall|e: DependencyV|
            #[trigger] function_edges(from, f).contains(e) && e.kind == DependencyEdgeKind::UsesReturnType
                ==> e.from == from && targets(f.signature.return_type).contains(e.to),
        forall|e: DependencyV|
            #[trigger] function_edges(from, f).contains(e) && e.kind == DependencyEdgeKind::UsesParamType
                ==> e.from == from && exists|i: int|
                0 <= i < f.signature.parameters@.len() && targets(f.signature.parameters@[i].ty).contains(e.to),
{
    let ps = f.signature.parameters@;
    let pe = param_edges(from, ps);
    let re = edges_to(from, targets(f.signature.return_type), DependencyEdgeKind::UsesReturnType);
    let be = match f.body {
        Some(b) => block_edges(from, b),
        None => Seq::<DependencyV>::empty(),
    };
    lemma_param_edges(from, ps);
    match f.body {
        Some(b) => lemma_block_edges_kinds(from, b),
        None => {},
    }
    assert(function_edges(from, f) == pe + re + be);
    assert forall|i: int, k: int|
        0 <= i < ps.len() && 0 <= k < targets(ps[i].ty).len() implies #[trigger] function_edges(from, f).contains(
        DependencyV { from, to: #[trigger] targets(ps[i].ty)[k], kind: DependencyEdgeKind::UsesParamType },
    ) by {
        let x = DependencyV { from, to: targets(ps[i].ty)[k], kind: DependencyEdgeKind::UsesParamType };
        assert(pe.contains(x));
        let j = choose|j: int| 0 <= j < pe.len() && pe[j] == x;
        assert((pe + re + be)[j] == x);
    }
    assert forall|k: int| 0 <= k < targets(f.signature.return_type).len() implies function_edges(from, f).contains(
        DependencyV { from, to: #[trigger] targets(f.signature.return_type)[k], kind: DependencyEdgeKind::UsesReturnType },
    ) by {
        assert((pe + re + be)[pe.len() + k] == re[k]);
    }
    assert forall|e: DependencyV|
        #[trigger] function_edges(from, f).contains(e) && (e.kind == DependencyEdgeKind::UsesReturnType
            || e.kind == DependencyEdgeKind::UsesParamType) implies e.from == from && (e.kind
        == DependencyEdgeKind::UsesReturnType ==> targets(f.signature.return_type).contains(e.to)) && (e.kind
        == DependencyEdgeKind::UsesParamType ==> exists|i: int|
        0 <= i < ps.len() && targets(ps[i].ty).contains(e.to)) by {
        let j = choose|j: int| 0 <= j < (pe + re + be).len() && (pe + re + be)[j] == e;
        if j < pe.len() {
            assert(pe[j] == e);
            assert(pe.contains(e));
        } else if j < pe.len() + re.len() {
            assert(re[j - pe.len()] == e);
            assert(targets(f.signature.return_type)[j - pe.len()] == e.to);
        } else {
            assert(be[j - pe.len() - re.len()] == e);
            match f.body {
                Some(b) => {
                    assert(block_edges(from, b).contains(e));
                },
                None => {},
            }
        }
    }
}

proof fn lemma_param_edges(from: Seq<Seq<char>>, ps: Seq<Parameter>)
    ensures
        forall|i: int, k: int|
            0 <= i < ps.len() && 0 <= k < targets(ps[i].ty).len() ==> param_edges(from, ps).contains(
                DependencyV { from, to: #[trigger] targets(#[trigger] ps[i].ty)[k], kind: DependencyEdgeKind::UsesParamType },
            ),
        forall|e: DependencyV|
            #[trigger] param_edges(from, ps).contains(e) ==> e.from == from && e.kind == DependencyEdgeKind::UsesParamType
                && exists|i: int| 0 <= i < ps.len() && targets(ps[i].ty).contains(e.to),
    decreases ps.len(),
{
    if ps.len() > 0 {
        let rest = ps.drop_last();
        lemma_param_edges(from, rest);
        let a = param_edges(from, rest);
        let b = edges_to(from, targets(ps.last().ty), DependencyEdgeKind::UsesParamType);
        assert(param_edges(from, ps) == a + b);
        assert forall|i: int, k: int|
            0 <= i < ps.len() && 0 <= k < targets(ps[i].ty).len() implies param_edges(from, ps).contains(
            DependencyV { from, to: #[trigger] targets(#[trigger] ps[i].ty)[k], kind: DependencyEdgeKind::UsesParamType },
        ) by {
            let x = DependencyV { from, to: targets(ps[i].ty)[k], kind: DependencyEdgeKind::UsesParamType };
            if i < ps.len() - 1 {
                assert(rest[i] == ps[i]);
                assert(a.contains(x));
                let j = choose|j: int| 0 <= j < a.len() && a[j] == x;
                assert((a + b)[j] == x);
            } else {
                assert((a + b)[a.len() + k] == b[k]);
            }
        }
        assert forall|e: DependencyV| #[trigger] param_edges(from, ps).contains(e) implies e.from == from && e.kind
            == DependencyEdgeKind::UsesParamType && exists|i: int| 0 <= i < ps.len() && targets(ps[i].ty).contains(e.to) by {
            let j = choose|j: int| 0 <= j < (a + b).len() && (a + b)[j] == e;
            if j < a.len() {
                assert(a[j] == e);
                assert(a.contains(e));
                let i = choose|i: int| 0 <= i < rest.len() && targets(rest[i].ty).contains(e.to);
                assert(rest[i] == ps[i]);
            } else {
                assert(b[j - a.len()] == e);
                assert(targets(ps.last().ty)[j - a.len()] == e.to);
                assert(targets(ps[ps.len() - 1].ty).contains(e.to));
            }
        }
    }
}

/// The kinds an edge of a block can have: none of them is a parameter or return type.
pub open spec fn block_edge_kind(k: DependencyEdgeKind) -> bool {
    !(k is UsesParamType) && !(k is UsesReturnType)
}

proof fn lemma_block_edges_kinds(from: Seq<Seq<char>>, b: Block)
    ensures
        forall|e: DependencyV| #[trigger] block_edges(from, b).contains(e) ==> block_edge_kind(e.kind),
    decreases b, 0nat,
{
    lemma_blocks_edges_kinds(from, b.sub_blocks@);
    lemma_decl_edges_kinds(from, b.declarations@);
    lemma_refs_edges_kinds(from, b.calls@, DependencyEdgeKind::Calls);
    lemma_refs_edges_kinds(from, b.instantiates@, DependencyEdgeKind::Instantiates);
    lemma_refs_edges_kinds(from, b.accesses@, DependencyEdgeKind::AccessesField);
    lemma_refs_edges_kinds(from, b.type_casts@, DependencyEdgeKind::CastsTo);
    let s1 = decl_edges(from, b.declarations@);
    let s2 = refs_edges(from, b.calls@, DependencyEdgeKind::Calls);
    let s3 = refs_edges(from, b.instantiates@, DependencyEdgeKind::Instantiates);
    let s4 = refs_edges(from, b.accesses@, DependencyEdgeKind::AccessesField);
    let s5 = refs_edges(from, b.type_casts@, DependencyEdgeKind::CastsTo);
    let s6 = blocks_edges(from, b.sub_blocks@);
    assert(block_edges(from, b) == s1 + s2 + s3 + s4 + s5 + s6);
    assert forall|e: DependencyV| #[trigger] block_edges(from, b).contains(e) implies block_edge_kind(e.kind) by {
        let all = s1 + s2 + s3 + s4 + s5 + s6;
        let j = choose|j: int| 0 <= j < all.len() && all[j] == e;
        lemma_concat_contains(s1, s2, s3, s4, s5, s6, j);
    }
}

proof fn lemma_concat_contains(
    s1: Seq<DependencyV>,
    s2: Seq<DependencyV>,
    s3: Seq<DependencyV>,
    s4: Seq<DependencyV>,
    s5: Seq<DependencyV>,
    s6: Seq<DependencyV>,
    j: int,
)
    requires
        0 <= j < (s1 + s2 + s3 + s4 + s5 + s6).len(),
    ensures
        s1.contains((s1 + s2 + s3 + s4 + s5 + s6)[j]) || s2.contains((s1 + s2 + s3 + s4 + s5 + s6)[j]) || s3.contains(
            (s1 + s2 + s3 + s4 + s5 + s6)[j],
        ) || s4.contains((s1 + s2 + s3 + s4 + s5 + s6)[j]) || s5.contains((s1 + s2 + s3 + s4 + s5 + s6)[j])
            || s6.contains((s1 + s2 + s3 + s4 + s5 + s6)[j]),
{
    let all = s1 + s2 + s3 + s4 + s5 + s6;
    let e = all[j];
    let n1 = s1.len() as int;
    let n2 = n1 + s2.len();
    let n3 = n2 + s3.len();
    let n4 = n3 + s4.len();
    let n5 = n4 + s5.len();
    if j < n1 {
        assert(s1[j] == e);
    } else if j < n2 {
        assert(s2[j - n1] == e);
    } else if j < n3 {
        assert(s3[j - n2] == e);
    } else if j < n4 {
        assert(s4[j - n3] == e);
    } else if j < n5 {
        assert(s5[j - n4] == e);
    } else {
        assert(s6[j - n5] == e);
    }
}

proof fn lemma_blocks_edges_kinds(from: Seq<Seq<char>>, s: Seq<Block>)
    ensures
        forall|e: DependencyV| #[trigger] blocks_edges(from, s).contains(e) ==> block_edge_kind(e.kind),
    decreases s, 1nat,
{
    if s.len() > 0 {
        lemma_blocks_edges_kinds(from, s.drop_last());
        lemma_block_edges_kinds(from, s.last());
        let a = blocks_edges(from, s.drop_last());
        let b = block_edges(from, s.last());
        assert forall|e: DependencyV| #[trigger] blocks_edges(from, s).contains(e) implies block_edge_kind(e.kind) by {
            let j = choose|j: int| 0 <= j < (a + b).len() && (a + b)[j] == e;
            if j < a.len() {
                assert(a[j] == e);
                assert(a.contains(e));
            } else {
                assert(b[j - a.len()] == e);
                assert(b.contains(e));
            }
        }
    }
}

proof fn lemma_refs_edges_kinds(from: Seq<Seq<char>>, refs: Seq<TypeRef>, kind: DependencyEdgeKind)
    ensures
        forall|e: DependencyV| #[trigger] refs_edges(from, refs, kind).contains(e) ==> e.kind == kind,
    decreases refs.len(),
{
    if refs.len() > 0 {
        lemma_refs_edges_kinds(from, refs.drop_last(), kind);
        let a = refs_edges(from, refs.drop_last(), kind);
        let b = edges_to(from, targets(refs.last()), kind);
        assert forall|e: DependencyV| #[trigger] refs_edges(from, refs, kind).contains(e) implies e.kind == kind by {
            let j = choose|j: int| 0 <= j < (a + b).len() && (a + b)[j] == e;
            if j < a.len() {
                assert(a[j] == e);
                assert(a.contains(e));
            } else {
                assert(b[j - a.len()] == e);
            }
        }
    }
}

proof fn lemma_decl_edges_kinds(from: Seq<Seq<char>>, ds: Seq<Field>)
    ensures
        forall|e: DependencyV| #[trigger] decl_edges(from, ds).contains(e) ==> block_edge_kind(e.kind),
    decreases ds.len(),
{
    if ds.len() > 0 {
        lemma_decl_edges_kinds(from, ds.drop_last());
        let a = decl_edges(from, ds.drop_last());
        let c = edges_to(from, targets(ds.last().ty), DependencyEdgeKind::UsesLocalType);
        assert(decl_edges(from, ds) == a + c);
        assert forall|e: DependencyV| #[trigger] decl_edges(from, ds).contains(e) implies block_edge_kind(e.kind) by {
            let j = choose|j: int| 0 <= j < (a + c).len() && (a + c)[j] == e;
            if j < a.len() {
                assert(a[j] == e);
                assert(a.contains(e));
            } else {
                assert(c[j - a.len()] == e);
            }
        }
    }
}

/// A name imported by a path that the root cannot resolve (its first segment names nothing
/// there, it is no primitive, and the root re-exports no imports) stands for that path as an
/// external reference.
pub proof fn law_unresolved_import_is_external(
    tree: ScopeTree,
    prims: Set<Seq<char>>,
    config: AnalyzerConfig,
    p: Seq<Seq<char>>,
    x: TypeRefV,
)
    requires
        imported_as(tree, prims, config, p, x),
        p.len() > 0,
        p[0] != "root"@,
        p[0] != "crate"@,
        primitive_path(p, prims) is None,
        sym_get(tree.arena@[0].symbols.map(), p[0]) is None,
        !transitive_scope(tree, config, 0),
    ensures
        x == TypeRefV::External(p),
{
    assert(global_walk(tree, 0, p, 0) == GlobalWalk::Unbound(0));
}

proof fn lemma_contains_concat(a: Seq<DependencyV>, b: Seq<DependencyV>, x: DependencyV)
    ensures
        a.contains(x) ==> (a + b).contains(x),
        b.contains(x) ==> (a + b).contains(x),
{
    if a.contains(x) {
        let j = choose|j: int| 0 <= j < a.len() && a[j] == x;
        assert((a + b)[j] == x);
    }
    if b.contains(x) {
        let j = choose|j: int| 0 <= j < b.len() && b[j] == x;
        assert((a + b)[a.len() + j] == x);
    }
}

#[verifier::spinoff_prover]
proof fn lemma_free_function_edges_contain(name: Seq<Seq<char>>, fs: Seq<Function>, k: int, x: DependencyV)
    requires
        0 <= k < fs.len(),
        function_edges(name + fs[k].name.deep_view(), fs[k]).contains(x),
    ensures
        free_function_edges(name, fs).contains(x),
    decreases fs.len(),
{
    let f = fs.last();
    let f_name = name + f.name.deep_view();
    let a = free_function_edges(name, fs.drop_last());
    let b = edge(name, f_name, DependencyEdgeKind::ModuleContainment);
    let c = function_edges(f_name, f);
    let d = refs_edges(f_name, f.annotations@, DependencyEdgeKind::AnnotatedWith);
    assert(free_function_edges(name, fs) == a + b + c + d);
    if k < fs.len() - 1 {
        assert(fs.drop_last()[k] == fs[k]);
        lemma_free_function_edges_contain(name, fs.drop_last(), k, x);
        lemma_contains_concat(a, b, x);
        lemma_contains_concat(a + b, c, x);
        lemma_contains_concat(a + b + c, d, x);
    } else {
        lemma_contains_concat(a + b, c, x);
        lemma_contains_concat(a + b + c, d, x);
    }
}

#[verifier::spinoff_prover]
#[verifier::rlimit(40)]
proof fn lemma_all_module_edges_contain(ms: Seq<Module>, i: int, x: DependencyV)
    requires
        0 <= i < ms.len(),
        module_edges(ms[i], None, Seq::empty()).contains(x),
    ensures
        all_module_edges(ms).contains(x),
    decreases ms.len(),
{
    let a = all_module_edges(ms.drop_last());
    let b = module_edges(ms.last(), None, Seq::empty());
    assert(all_module_edges(ms) == a + b);
    if i < ms.len() - 1 {
        assert(ms.drop_last()[i] == ms[i]);
        lemma_all_module_edges_contain(ms.drop_last(), i, x);
    }
    lemma_contains_concat(a, b, x);
}

/// In the dependency graph of a set of modules, a free function of a top-level module has an
/// edge of kind parameter type to each target of each of its parameters' types, from its path
/// (the module's own name segments followed by the function's name).
#[verifier::spinoff_prover]
#[verifier::rlimit(40)]
pub proof fn law_graph_param_edges(modules: Seq<Module>, g: DependencyGraph, i: int, k: int, p: int, t: int)
    requires
        dep_views(g.edges@).to_set() == all_module_edges(modules).to_set(),
        0 <= i < modules.len(),
        0 <= k < modules[i].free_functions@.len(),
        0 <= p < modules[i].free_functions@[k].signature.parameters@.len(),
        0 <= t < targets(modules[i].free_functions@[k].signature.parameters@[p].ty).len(),
    ensures
        dep_views(g.edges@).to_set().contains(
            DependencyV {
                from: own_segments(modules[i].name.deep_view()) + modules[i].free_functions@[k].name.deep_view(),
                to: targets(modules[i].free_functions@[k].signature.parameters@[p].ty)[t],
                kind: DependencyEdgeKind::UsesParamType,
            },
        ),
{
    let m = modules[i];
    let f = m.free_functions@[k];
    let name = Seq::<Seq<char>>::empty() + own_segments(m.name.deep_view());
    assert(name =~= own_segments(m.name.deep_view()));
    let from = name + f.name.deep_view();
    let x = DependencyV { from, to: targets(f.signature.parameters@[p].ty)[t], kind: DependencyEdgeKind::UsesParamType };
    law_function_edges(from, f);
    assert(function_edges(from, f).contains(x));
    lemma_free_function_edges_contain(name, m.free_functions@, k, x);
    let own = module_own_edges(name, m);
    let a1 = import_edges(name, m.imports@);
    let a2 = alias_edges(name, m.type_aliases@);
    let a3 = module_types_edges(name, m.structured_types@);
    let a4 = free_function_edges(name, m.free_functions@);
    let a5 = free_variable_edges(name, m.free_variables@);
    let a6 = impl_edges(name, m.impl_blocks@);
    assert(own == a1 + a2 + a3 + a4 + a5 + a6);
    lemma_contains_concat(a1 + a2 + a3, a4, x);
    lemma_contains_concat(a1 + a2 + a3 + a4, a5, x);
    lemma_contains_concat(a1 + a2 + a3 + a4 + a5, a6, x);
    let me = module_edges(m, None, Seq::empty());
    let sub = submodule_edges(name, m.sub_modules@);
    assert(me == Seq::<DependencyV>::empty() + own + sub);
    lemma_contains_concat(Seq::<DependencyV>::empty(), own, x);
    lemma_contains_concat(Seq::<DependencyV>::empty() + own, sub, x);
    lemma_all_module_edges_contain(modules, i, x);
    assert(all_module_edges(modules).to_set().contains(x));
}

/// The field types of a list of fields with no failed or unresolved path in them count nothing
/// as failed, and count every path they hold as resolved.
pub proof fn law_fields_tally_resolved(fs: Seq<Field>)
    requires
        forall|i: int| 0 <= i < fs.len() ==> fully_resolved(#[trigger] fs[i].ty),
    ensures
        fields_tally(fs).1 == 0,
        fields_tally(fs).0 == fields_paths(fs),
    decreases fs.len(),
{
    if fs.len() > 0 {
        assert forall|i: int| 0 <= i < fs.drop_last().len() implies fully_resolved(#[trigger] fs.drop_last()[i].ty) by {
            assert(fs.drop_last()[i] == fs[i]);
        }
        law_fields_tally_resolved(fs.drop_last());
        law_tally_counts_paths(fs.last().ty);
        assert(fully_resolved(fs[fs.len() - 1].ty));
    }
}

/// The number of paths in the field types of a list of fields.
pub open spec fn fields_paths(fs: Seq<Field>) -> nat
    decreases fs.len(),
{
    if fs.len() == 0 {
        0
    } else {
        fields_paths(fs.drop_last()) + path_count(fs.last().ty)
    }
}

} // verus!
