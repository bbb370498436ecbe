//! The dependency graph of resolved modules: one node per module, type, alias, function and
//! field (paths prefixed by their enclosing module), typed edges for containment, inheritance,
//! use of types, calls, instantiations, accesses, casts, imports and annotations, and a node
//! for each primitive or external target that edges reach.
use crate::export::order::{dep_views, sort_dedup_edges, strictly_sorted};
use crate::export::summary::path_views;
use crate::model::components::{
    components_view, Block, ImplBlock, Import, Component, ComponentV, Field, Function, FunctionV, Module,
    ModuleV, StructuredType, StructuredTypeV, TypeAlias, TypeAliasV,
};
use crate::model::graph::{Dependency, DependencyEdgeKind, DependencyGraph, DependencyV};
use crate::model::queries::{clone_qn, TypeRef};
use crate::resolver::primitives::PrimitiveRegistry;
use crate::text_util::str_eq;
use vstd::prelude::*;

verus! {

/// The paths a reference makes edges to: its own path (if not empty) for a resolved, external,
/// unresolved or failed reference, `[p]` for a primitive `p` (if not empty), those of each
/// variant of a union; none for anything else.
pub open spec fn targets(t: TypeRef) -> Seq<Seq<Seq<char>>>
    decreases t, 0nat,
{
    match t {
        TypeRef::Resolved(to) => path_target(to.deep_view()),
        TypeRef::External(to) => path_target(to.deep_view()),
        TypeRef::Unresolved(to) => path_target(to.deep_view()),
        TypeRef::Failed(to) => path_target(to.deep_view()),
        TypeRef::Primitive(s) => if s@.len() == 0 {
            Seq::empty()
        } else {
            seq![seq![s@]]
        },
        TypeRef::Union(ts) => targets_seq(ts@),
        _ => Seq::empty(),
    }
}

pub open spec fn path_target(p: Seq<Seq<char>>) -> Seq<Seq<Seq<char>>> {
    if p.len() == 0 {
        Seq::empty()
    } else {
        seq![p]
    }
}

/// The targets of each reference of a list, in order.
pub open spec fn targets_seq(s: Seq<TypeRef>) -> Seq<Seq<Seq<char>>>
    decreases s, 1nat,
{
    if s.len() == 0 {
        Seq::empty()
    } else {
        targets_seq(s.drop_last()) + targets(s.last())
    }
}

fn single(p: &Vec<String>) -> (r: Vec<Vec<String>>)
    ensures
        path_views(r@) == path_target(p.deep_view()),
{
    let mut r: Vec<Vec<String>> = Vec::new();
    if p.len() > 0 {
        r.push(clone_qn(p));
        assert(path_views(r@) =~= seq![p.deep_view()]);
    } else {
        assert(path_views(r@) =~= Seq::<Seq<Seq<char>>>::empty());
    }
    r
}

/// The targets of each variant of a union, in order.
fn union_targets(types: &Vec<TypeRef>) -> (r: Vec<Vec<String>>)
    ensures
        path_views(r@) == targets_seq(types@),
    decreases types,
{
    let mut r: Vec<Vec<String>> = Vec::new();
    let mut i: usize = 0;
    assert(path_views(r@) =~= targets_seq(types@.take(0)));
    while i < types.len()
        invariant
            i <= types@.len(),
            path_views(r@) == targets_seq(types@.take(i as int)),
        decreases types.len() - i,
    {
        let mut t = type_ref_targets(&types[i]);
        let ghost before = path_views(r@);
        let ghost tv = path_views(t@);
        r.append(&mut t);
        assert(types@.take(i + 1).drop_last() =~= types@.take(i as int));
        assert(path_views(r@) =~= before + tv);
        i += 1;
    }
    assert(types@.take(types@.len() as int) =~= types@);
    r
}

/// The paths a reference makes edges to.
fn type_ref_targets(tr: &TypeRef) -> (r: Vec<Vec<String>>)
    ensures
        path_views(r@) == targets(*tr),
    decreases tr,
{
    match tr {
        TypeRef::Resolved(to) => {
            let r = single(to);
            assert(path_views(r@) == targets(*tr));
            r
        },
        TypeRef::External(to) => {
            let r = single(to);
            assert(path_views(r@) == targets(*tr));
            r
        },
        TypeRef::Unresolved(to) => {
            let r = single(to);
            assert(path_views(r@) == targets(*tr));
            r
        },
        TypeRef::Failed(to) => {
            let r = single(to);
            assert(path_views(r@) == targets(*tr));
            r
        },
        TypeRef::Primitive(s) => {
            let mut r: Vec<Vec<String>> = Vec::new();
            proof {
                reveal_strlit("");
            }
            if !str_eq(s.as_str(), "") {
                assert(s@.len() != 0) by {
                    if s@.len() == 0 {
                        assert(s@ =~= ""@);
                    }
                }
                let mut p: Vec<String> = Vec::new();
                p.push(s.clone());
                assert(p.deep_view() =~= seq![s@]);
                r.push(p);
                assert(path_views(r@) =~= seq![seq![s@]]);
            } else {
                proof {
                    reveal_strlit("");
                }
                assert(path_views(r@) =~= Seq::<Seq<Seq<char>>>::empty());
            }
            r
        },
        TypeRef::Union(types) => {
            let r = union_targets(types);
            assert(path_views(r@) == targets(*tr));
            r
        },
        _ => {
            let r: Vec<Vec<String>> = Vec::new();
            assert(path_views(r@) =~= Seq::<Seq<Seq<char>>>::empty());
            r
        },
    }
}

/// The edges from `from` to each of the paths, of one kind.
pub open spec fn edges_to(from: Seq<Seq<char>>, tos: Seq<Seq<Seq<char>>>, kind: DependencyEdgeKind) -> Seq<DependencyV> {
    tos.map_values(|t: Seq<Seq<char>>| DependencyV { from, to: t, kind })
}

/// Appends an edge from `from` to each target of `tr`.
fn push_target_edges(edges: &mut Vec<Dependency>, from: &Vec<String>, tr: &TypeRef, kind: DependencyEdgeKind)
    ensures
        dep_views(final(edges)@) == dep_views(old(edges)@) + edges_to(from.deep_view(), targets(*tr), kind),
{
    let tos = type_ref_targets(tr);
    let mut i: usize = 0;
    let ghost base = dep_views(edges@);
    assert(edges_to(from.deep_view(), path_views(tos@).take(0), kind) =~= Seq::<DependencyV>::empty());
    assert(dep_views(edges@) =~= base + Seq::<DependencyV>::empty());
    while i < tos.len()
        invariant
            i <= tos@.len(),
            dep_views(edges@) == base + edges_to(from.deep_view(), path_views(tos@).take(i as int), kind),
        decreases tos.len() - i,
    {
        let ghost before = dep_views(edges@);
        edges.push(Dependency { from: clone_qn(from), to: clone_qn(&tos[i]), kind });
        assert(dep_views(edges@) =~= before.push(DependencyV { from: from.deep_view(), to: tos@[i as int].deep_view(), kind }));
        assert(edges_to(from.deep_view(), path_views(tos@).take(i + 1), kind) =~= edges_to(
            from.deep_view(),
            path_views(tos@).take(i as int),
            kind,
        ).push(DependencyV { from: from.deep_view(), to: tos@[i as int].deep_view(), kind }));
        i += 1;
    }
    assert(path_views(tos@).take(tos@.len() as int) =~= path_views(tos@));
}

/// The edges from `from` to the targets of each reference of a list, of one kind.
pub open spec fn refs_edges(from: Seq<Seq<char>>, refs: Seq<TypeRef>, kind: DependencyEdgeKind) -> Seq<DependencyV>
    decreases refs.len(),
{
    if refs.len() == 0 {
        Seq::empty()
    } else {
        refs_edges(from, refs.drop_last(), kind) + edges_to(from, targets(refs.last()), kind)
    }
}

fn push_refs_edges(edges: &mut Vec<Dependency>, from: &Vec<String>, refs: &Vec<TypeRef>, kind: DependencyEdgeKind)
    ensures
        dep_views(final(edges)@) == dep_views(old(edges)@) + refs_edges(from.deep_view(), refs@, kind),
{
    let ghost base = dep_views(edges@);
    let mut i: usize = 0;
    assert(dep_views(edges@) =~= base + refs_edges(from.deep_view(), refs@.take(0), kind));
    while i < refs.len()
        invariant
            i <= refs@.len(),
            dep_views(edges@) == base + refs_edges(from.deep_view(), refs@.take(i as int), kind),
        decreases refs.len() - i,
    {
        push_target_edges(edges, from, &refs[i], kind);
        assert(refs@.take(i + 1).drop_last() =~= refs@.take(i as int));
        i += 1;
    }
    assert(refs@.take(refs@.len() as int) =~= refs@);
}

/// The edges of a function's parameter types.
pub open spec fn param_edges(from: Seq<Seq<char>>, ps: Seq<crate::model::components::Parameter>) -> Seq<DependencyV>
    decreases ps.len(),
{
    if ps.len() == 0 {
        Seq::empty()
    } else {
        param_edges(from, ps.drop_last()) + edges_to(from, targets(ps.last().ty), DependencyEdgeKind::UsesParamType)
    }
}

/// The edges of a block, from its function: the types of its declarations (local types),
/// calls, instantiations, accesses, casts, then those of its sub-blocks.
pub open spec fn block_edges(from: Seq<Seq<char>>, b: Block) -> Seq<DependencyV>
    decreases b, 0nat,
{
    decl_edges(from, b.declarations@) + refs_edges(from, b.calls@, DependencyEdgeKind::Calls) + refs_edges(
        from,
        b.instantiates@,
        DependencyEdgeKind::Instantiates,
    ) + refs_edges(from, b.accesses@, DependencyEdgeKind::AccessesField) + refs_edges(
        from,
        b.type_casts@,
        DependencyEdgeKind::CastsTo,
    ) + blocks_edges(from, b.sub_blocks@)
}

pub open spec fn blocks_edges(from: Seq<Seq<char>>, s: Seq<Block>) -> Seq<DependencyV>
    decreases s, 1nat,
{
    if s.len() == 0 {
        Seq::empty()
    } else {
        blocks_edges(from, s.drop_last()) + block_edges(from, s.last())
    }
}

pub open spec fn decl_edges(from: Seq<Seq<char>>, ds: Seq<Field>) -> Seq<DependencyV>
    decreases ds.len(),
{
    if ds.len() == 0 {
        Seq::empty()
    } else {
        decl_edges(from, ds.drop_last()) + edges_to(from, targets(ds.last().ty), DependencyEdgeKind::UsesLocalType)
    }
}

/// The edges of a function: parameter types, return type, and its body.
pub open spec fn function_edges(from: Seq<Seq<char>>, f: Function) -> Seq<DependencyV> {
    param_edges(from, f.signature.parameters@) + edges_to(
        from,
        targets(f.signature.return_type),
        DependencyEdgeKind::UsesReturnType,
    ) + match f.body {
        Some(b) => block_edges(from, b),
        None => Seq::empty(),
    }
}

fn add_block_edges(ff_name: &Vec<String>, block: &Block, edges: &mut Vec<Dependency>)
    ensures
        dep_views(final(edges)@) == dep_views(old(edges)@) + block_edges(ff_name.deep_view(), *block),
    decreases block,
{
    let ghost from = ff_name.deep_view();
    let ghost base = dep_views(edges@);
    let ds = &block.declarations;
    let mut i: usize = 0;
    assert(dep_views(edges@) =~= base + decl_edges(from, ds@.take(0)));
    while i < ds.len()
        invariant
            i <= ds@.len(),
            from == ff_name.deep_view(),
            dep_views(edges@) == base + decl_edges(from, ds@.take(i as int)),
        decreases ds.len() - i,
    {
        push_target_edges(edges, ff_name, &ds[i].ty, DependencyEdgeKind::UsesLocalType);
        assert(ds@.take(i + 1).drop_last() =~= ds@.take(i as int));
        i += 1;
    }
    assert(ds@.take(ds@.len() as int) =~= ds@);
    push_refs_edges(edges, ff_name, &block.calls, DependencyEdgeKind::Calls);
    push_refs_edges(edges, ff_name, &block.instantiates, DependencyEdgeKind::Instantiates);
    push_refs_edges(edges, ff_name, &block.accesses, DependencyEdgeKind::AccessesField);
    push_refs_edges(edges, ff_name, &block.type_casts, DependencyEdgeKind::CastsTo);
    let ghost mid = dep_views(edges@);
    let subs = &block.sub_blocks;
    let mut i: usize = 0;
    assert(dep_views(edges@) =~= mid + blocks_edges(from, subs@.take(0)));
    while i < subs.len()
        invariant
            i <= subs@.len(),
            subs@ == block.sub_blocks@,
            from == ff_name.deep_view(),
            dep_views(edges@) == mid + blocks_edges(from, subs@.take(i as int)),
        decreases subs.len() - i,
    {
        add_block_edges(ff_name, &subs[i], edges);
        assert(subs@.take(i + 1).drop_last() =~= subs@.take(i as int));
        i += 1;
    }
    assert(subs@.take(subs@.len() as int) =~= subs@);
}

fn add_function_edges(ff: &Function, ff_name: &Vec<String>, edges: &mut Vec<Dependency>)
    ensures
        dep_views(final(edges)@) == dep_views(old(edges)@) + function_edges(ff_name.deep_view(), *ff),
{
    let ghost from = ff_name.deep_view();
    let ghost base = dep_views(edges@);
    let ps = &ff.signature.parameters;
    let mut i: usize = 0;
    assert(dep_views(edges@) =~= base + param_edges(from, ps@.take(0)));
    while i < ps.len()
        invariant
            i <= ps@.len(),
            from == ff_name.deep_view(),
            dep_views(edges@) == base + param_edges(from, ps@.take(i as int)),
        decreases ps.len() - i,
    {
        push_target_edges(edges, ff_name, &ps[i].ty, DependencyEdgeKind::UsesParamType);
        assert(ps@.take(i + 1).drop_last() =~= ps@.take(i as int));
        i += 1;
    }
    assert(ps@.take(ps@.len() as int) =~= ps@);
    push_target_edges(edges, ff_name, &ff.signature.return_type, DependencyEdgeKind::UsesReturnType);
    match &ff.body {
        Some(body) => add_block_edges(ff_name, body, edges),
        None => {
            assert(dep_views(edges@) =~= dep_views(edges@) + Seq::<DependencyV>::empty());
        },
    }
}

/// `a` followed by `b`.
fn joined(a: &Vec<String>, b: &Vec<String>) -> (r: Vec<String>)
    ensures
        r.deep_view() == a.deep_view() + b.deep_view(),
{
    let mut r = clone_qn(a);
    let mut i: usize = 0;
    while i < b.len()
        invariant
            i <= b@.len(),
            r.deep_view() == a.deep_view() + b.deep_view().take(i as int),
        decreases b.len() - i,
    {
        let ghost before = r.deep_view();
        r.push(b[i].clone());
        assert(r.deep_view() =~= before.push(b@[i as int]@));
        assert(b.deep_view().take(i + 1) =~= b.deep_view().take(i as int).push(b@[i as int]@));
        i += 1;
    }
    assert(b.deep_view().take(b@.len() as int) =~= b.deep_view());
    r
}

/// `a` followed by the segment `s`.
fn pushed(a: &Vec<String>, s: &String) -> (r: Vec<String>)
    ensures
        r.deep_view() == a.deep_view().push(s@),
{
    let mut r = clone_qn(a);
    let ghost before = r.deep_view();
    r.push(s.clone());
    assert(r.deep_view() =~= before.push(s@));
    r
}

fn push_edge(edges: &mut Vec<Dependency>, from: &Vec<String>, to: &Vec<String>, kind: DependencyEdgeKind)
    ensures
        dep_views(final(edges)@) == dep_views(old(edges)@).push(
            DependencyV { from: from.deep_view(), to: to.deep_view(), kind },
        ),
{
    let ghost before = dep_views(edges@);
    edges.push(Dependency { from: clone_qn(from), to: clone_qn(to), kind });
    assert(dep_views(edges@) =~= before.push(DependencyV { from: from.deep_view(), to: to.deep_view(), kind }));
}

/// One edge.
pub open spec fn edge(from: Seq<Seq<char>>, to: Seq<Seq<char>>, kind: DependencyEdgeKind) -> Seq<DependencyV> {
    seq![DependencyV { from, to, kind }]
}

/// The edges of the fields of a type named `name`: each field's type
/// (`UsesFieldType`) and annotations (`AnnotatedWith`), from the field's path.
pub open spec fn field_type_edges(name: Seq<Seq<char>>, fs: Seq<Field>) -> Seq<DependencyV>
    decreases fs.len(),
{
    if fs.len() == 0 {
        Seq::empty()
    } else {
        let f = fs.last();
        field_type_edges(name, fs.drop_last()) + edges_to(
            name.push(f.name@),
            targets(f.ty),
            DependencyEdgeKind::UsesFieldType,
        ) + refs_edges(name.push(f.name@), f.annotations@, DependencyEdgeKind::AnnotatedWith)
    }
}

/// The containment edges from a type named `name` to each of its fields.
pub open spec fn field_nest_edges(name: Seq<Seq<char>>, fs: Seq<Field>) -> Seq<DependencyV>
    decreases fs.len(),
{
    if fs.len() == 0 {
        Seq::empty()
    } else {
        field_nest_edges(name, fs.drop_last()) + edge(
            name,
            name.push(fs.last().name@),
            DependencyEdgeKind::NestedIn,
        )
    }
}

/// The edges of the methods of a type named `name`: containment, the method's own
/// edges and its annotations.
pub open spec fn method_edges(name: Seq<Seq<char>>, ms: Seq<Function>) -> Seq<DependencyV>
    decreases ms.len(),
{
    if ms.len() == 0 {
        Seq::empty()
    } else {
        let m = ms.last();
        let m_name = name + m.name.deep_view();
        method_edges(name, ms.drop_last()) + edge(name, m_name, DependencyEdgeKind::NestedIn)
            + function_edges(m_name, m) + refs_edges(m_name, m.annotations@, DependencyEdgeKind::AnnotatedWith)
    }
}

/// The edges of a structured type under `prefix`: its super types (`IsA`), field
/// types and annotations, its own annotations, its fields, methods and nested types
/// (`NestedIn`, with the edges of each method and nested type).
pub open spec fn st_edges(prefix: Seq<Seq<char>>, st: StructuredType) -> Seq<DependencyV>
    decreases st, 0nat,
{
    let name = prefix + st.name.deep_view();
    refs_edges(name, st.super_types@, DependencyEdgeKind::IsA) + field_type_edges(name, st.fields@)
        + refs_edges(name, st.annotations@, DependencyEdgeKind::AnnotatedWith) + field_nest_edges(
        name,
        st.fields@,
    ) + method_edges(name, st.methods@) + nested_edges(name, st.nested_types@)
}

/// The edges of the nested types `ns` of a type named `name`: containment, then
/// the nested type's own edges.
pub open spec fn nested_edges(name: Seq<Seq<char>>, ns: Seq<StructuredType>) -> Seq<DependencyV>
    decreases ns, 1nat,
{
    if ns.len() == 0 {
        Seq::empty()
    } else {
        let n = ns.last();
        nested_edges(name, ns.drop_last()) + edge(
            name,
            name + n.name.deep_view(),
            DependencyEdgeKind::NestedIn,
        ) + st_edges(name, n)
    }
}

/// Appends the edges of a structured type under `prefix`: its super types (`IsA`), field types
/// and annotations, its own annotations, its fields, methods and nested types (`NestedIn`, with
/// the edges of each method and nested type).
fn traverse_structured_type_edges(st: &StructuredType, prefix: &Vec<String>, edges: &mut Vec<Dependency>)
    ensures
        dep_views(final(edges)@) == dep_views(old(edges)@) + st_edges(prefix.deep_view(), *st),
    decreases st,
{
    let ghost base = dep_views(edges@);
    let st_name = joined(prefix, &st.name);
    let ghost name = st_name.deep_view();
    push_refs_edges(edges, &st_name, &st.super_types, DependencyEdgeKind::IsA);
    let ghost b1 = dep_views(edges@);
    let mut i: usize = 0;
    assert(dep_views(edges@) =~= b1 + field_type_edges(name, st.fields@.take(0)));
    while i < st.fields.len()
        invariant
            name == st_name.deep_view(),
            i <= st.fields@.len(),
            dep_views(edges@) == b1 + field_type_edges(name, st.fields@.take(i as int)),
        decreases st.fields.len() - i,
    {
        let f = &st.fields[i];
        let f_name = pushed(&st_name, &f.name);
        push_target_edges(edges, &f_name, &f.ty, DependencyEdgeKind::UsesFieldType);
        push_refs_edges(edges, &f_name, &f.annotations, DependencyEdgeKind::AnnotatedWith);
        assert(st.fields@.take(i + 1).drop_last() =~= st.fields@.take(i as int));
        i += 1;
    }
    assert(st.fields@.take(i as int) =~= st.fields@);
    push_refs_edges(edges, &st_name, &st.annotations, DependencyEdgeKind::AnnotatedWith);
    let ghost b2 = dep_views(edges@);
    let mut i: usize = 0;
    assert(dep_views(edges@) =~= b2 + field_nest_edges(name, st.fields@.take(0)));
    while i < st.fields.len()
        invariant
            name == st_name.deep_view(),
            i <= st.fields@.len(),
            dep_views(edges@) == b2 + field_nest_edges(name, st.fields@.take(i as int)),
        decreases st.fields.len() - i,
    {
        let f_name = pushed(&st_name, &st.fields[i].name);
        push_edge(edges, &st_name, &f_name, DependencyEdgeKind::NestedIn);
        assert(st.fields@.take(i + 1).drop_last() =~= st.fields@.take(i as int));
        i += 1;
    }
    assert(st.fields@.take(i as int) =~= st.fields@);
    let ghost b3 = dep_views(edges@);
    let mut i: usize = 0;
    assert(dep_views(edges@) =~= b3 + method_edges(name, st.methods@.take(0)));
    while i < st.methods.len()
        invariant
            name == st_name.deep_view(),
            i <= st.methods@.len(),
            dep_views(edges@) == b3 + method_edges(name, st.methods@.take(i as int)),
        decreases st.methods.len() - i,
    {
        let m = &st.methods[i];
        let m_name = joined(&st_name, &m.name);
        push_edge(edges, &st_name, &m_name, DependencyEdgeKind::NestedIn);
        add_function_edges(m, &m_name, edges);
        push_refs_edges(edges, &m_name, &m.annotations, DependencyEdgeKind::AnnotatedWith);
        assert(st.methods@.take(i + 1).drop_last() =~= st.methods@.take(i as int));
        i += 1;
    }
    assert(st.methods@.take(i as int) =~= st.methods@);
    let ghost b4 = dep_views(edges@);
    let mut i: usize = 0;
    assert(dep_views(edges@) =~= b4 + nested_edges(name, st.nested_types@.take(0)));
    while i < st.nested_types.len()
        invariant
            name == st_name.deep_view(),
            i <= st.nested_types@.len(),
            dep_views(edges@) == b4 + nested_edges(name, st.nested_types@.take(i as int)),
        decreases st.nested_types.len() - i,
    {
        let nested = &st.nested_types[i];
        let nested_name = joined(&st_name, &nested.name);
        push_edge(edges, &st_name, &nested_name, DependencyEdgeKind::NestedIn);
        traverse_structured_type_edges(nested, &st_name, edges);
        assert(st.nested_types@.take(i + 1).drop_last() =~= st.nested_types@.take(i as int));
        i += 1;
    }
    assert(st.nested_types@.take(i as int) =~= st.nested_types@);
    assert(dep_views(edges@) =~= base + st_edges(prefix.deep_view(), *st));
}

/// A module's name without its `root` segments, after `prefix`.
fn qualified_module_name(prefix: &Vec<String>, name: &Vec<String>) -> (r: Vec<String>)
    ensures
        r.deep_view() == prefix.deep_view() + crate::export::summary::own_segments(name.deep_view()),
{
    let mut r = clone_qn(prefix);
    let mut i: usize = 0;
    while i < name.len()
        invariant
            i <= name@.len(),
            r.deep_view() == prefix.deep_view() + crate::export::summary::own_segments(
                name.deep_view().take(i as int),
            ),
        decreases name.len() - i,
    {
        let ghost before = r.deep_view();
        assert(name.deep_view().take(i + 1).drop_last() =~= name.deep_view().take(i as int));
        assert(name.deep_view().take(i + 1).last() == name@[i as int]@);
        if !str_eq(name[i].as_str(), "root") {
            r.push(name[i].clone());
            assert(r.deep_view() =~= before.push(name@[i as int]@));
        }
        i += 1;
    }
    assert(name.deep_view().take(name@.len() as int) =~= name.deep_view());
    r
}

/// The import edges of a module named `name`.
pub open spec fn import_edges(name: Seq<Seq<char>>, is: Seq<Import>) -> Seq<DependencyV>
    decreases is.len(),
{
    if is.len() == 0 {
        Seq::empty()
    } else {
        import_edges(name, is.drop_last()) + edge(name, is.last().path.deep_view(), DependencyEdgeKind::Imports)
    }
}

/// The edges of type aliases under `name`: from each alias to the targets of what
/// it aliases.
pub open spec fn alias_edges(name: Seq<Seq<char>>, ts: Seq<TypeAlias>) -> Seq<DependencyV>
    decreases ts.len(),
{
    if ts.len() == 0 {
        Seq::empty()
    } else {
        alias_edges(name, ts.drop_last()) + edges_to(
            name + ts.last().name.deep_view(),
            targets(ts.last().target),
            DependencyEdgeKind::Aliases,
        )
    }
}

/// The edges of a module's structured types: containment, then the type's edges.
pub open spec fn module_types_edges(name: Seq<Seq<char>>, sts: Seq<StructuredType>) -> Seq<DependencyV>
    decreases sts.len(),
{
    if sts.len() == 0 {
        Seq::empty()
    } else {
        module_types_edges(name, sts.drop_last()) + edge(
            name,
            name + sts.last().name.deep_view(),
            DependencyEdgeKind::ModuleContainment,
        ) + st_edges(name, sts.last())
    }
}

/// The edges of a module's free functions: containment, the function's edges and
/// its annotations.
pub open spec fn free_function_edges(name: Seq<Seq<char>>, fs: Seq<Function>) -> Seq<DependencyV>
    decreases fs.len(),
{
    if fs.len() == 0 {
        Seq::empty()
    } else {
        let f = fs.last();
        let f_name = name + f.name.deep_view();
        free_function_edges(name, fs.drop_last()) + edge(name, f_name, DependencyEdgeKind::ModuleContainment)
            + function_edges(f_name, f) + refs_edges(f_name, f.annotations@, DependencyEdgeKind::AnnotatedWith)
    }
}

/// The edges of a module's free variables: containment, the variable's type and
/// annotations.
pub open spec fn free_variable_edges(name: Seq<Seq<char>>, vs: Seq<Field>) -> Seq<DependencyV>
    decreases vs.len(),
{
    if vs.len() == 0 {
        Seq::empty()
    } else {
        let v = vs.last();
        let v_name = name.push(v.name@);
        free_variable_edges(name, vs.drop_last()) + edge(name, v_name, DependencyEdgeKind::ModuleContainment)
            + edges_to(v_name, targets(v.ty), DependencyEdgeKind::UsesFieldType) + refs_edges(
            v_name,
            v.annotations@,
            DependencyEdgeKind::AnnotatedWith,
        )
    }
}

/// The edges of the nested types of an impl block attached to `to`.
pub open spec fn impl_nested_edges(to: Seq<Seq<char>>, ns: Seq<StructuredType>) -> Seq<DependencyV>
    decreases ns.len(),
{
    if ns.len() == 0 {
        Seq::empty()
    } else {
        impl_nested_edges(to, ns.drop_last()) + edge(
            to,
            to + ns.last().name.deep_view(),
            DependencyEdgeKind::NestedIn,
        ) + st_edges(to, ns.last())
    }
}

/// The edges of an impl block for each type `tos` it is for, from a module named
/// `name`: the module implements the type, the type implements the trait, and the
/// block's methods, nested types and aliases hang from the type.
pub open spec fn impl_target_edges(name: Seq<Seq<char>>, ib: ImplBlock, tos: Seq<Seq<Seq<char>>>) -> Seq<DependencyV>
    decreases tos.len(),
{
    if tos.len() == 0 {
        Seq::empty()
    } else {
        impl_target_edges(name, ib, tos.drop_last()) + impl_one_target_edges(name, ib, tos.last())
    }
}

/// The edges of an impl block from a module named `name`, for one type `to` that it is for.
pub open spec fn impl_one_target_edges(name: Seq<Seq<char>>, ib: ImplBlock, to: Seq<Seq<char>>) -> Seq<DependencyV> {
    edge(name, to, DependencyEdgeKind::Implements) + match ib.implements_trait {
        Some(t) => edges_to(to, targets(t), DependencyEdgeKind::Implements),
        None => Seq::empty(),
    } + method_edges(to, ib.methods@) + impl_nested_edges(to, ib.nested_types@) + alias_edges(
        to,
        ib.type_aliases@,
    )
}

/// The edges of a module's impl blocks.
pub open spec fn impl_edges(name: Seq<Seq<char>>, ibs: Seq<ImplBlock>) -> Seq<DependencyV>
    decreases ibs.len(),
{
    if ibs.len() == 0 {
        Seq::empty()
    } else {
        impl_edges(name, ibs.drop_last()) + impl_target_edges(name, ibs.last(), targets(ibs.last().impl_for))
    }
}

/// The edges of a module under `prefix` (with the containment edge from `parent`
/// where there is one) and of its submodules: imports, aliases, types, free
/// functions and variables, and impl blocks.
pub open spec fn module_edges(m: Module, parent: Option<Seq<Seq<char>>>, prefix: Seq<Seq<char>>) -> Seq<DependencyV>
    decreases m, 0nat,
{
    let name = prefix + crate::export::summary::own_segments(m.name.deep_view());
    (match parent {
        Some(p) => edge(p, name, DependencyEdgeKind::ModuleContainment),
        None => Seq::empty(),
    }) + module_own_edges(name, m) + submodule_edges(name, m.sub_modules@)
}

/// The edges that a module named `name` has of its own, leaving out its submodules: imports,
/// aliases, types, free functions and variables, and impl blocks.
pub open spec fn module_own_edges(name: Seq<Seq<char>>, m: Module) -> Seq<DependencyV> {
    import_edges(name, m.imports@) + alias_edges(name, m.type_aliases@) + module_types_edges(
        name,
        m.structured_types@,
    ) + free_function_edges(name, m.free_functions@) + free_variable_edges(name, m.free_variables@)
        + impl_edges(name, m.impl_blocks@)
}

/// The edges of the submodules `ms` of a module named `name`.
pub open spec fn submodule_edges(name: Seq<Seq<char>>, ms: Seq<Module>) -> Seq<DependencyV>
    decreases ms, 1nat,
{
    if ms.len() == 0 {
        Seq::empty()
    } else {
        submodule_edges(name, ms.drop_last()) + module_edges(ms.last(), Some(name), name)
    }
}

/// Appends the import edges of a module named `m_name`.
fn push_import_edges(edges: &mut Vec<Dependency>, m_name: &Vec<String>, imports: &Vec<Import>)
    ensures
        dep_views(final(edges)@) == dep_views(old(edges)@) + import_edges(m_name.deep_view(), imports@),
{
    let ghost name = m_name.deep_view();
    let ghost b0 = dep_views(edges@);
    let mut i: usize = 0;
    assert(dep_views(edges@) =~= b0 + import_edges(name, imports@.take(0)));
    while i < imports.len()
        invariant
            name == m_name.deep_view(),
            i <= imports@.len(),
            dep_views(edges@) == b0 + import_edges(name, imports@.take(i as int)),
        decreases imports.len() - i,
    {
        push_edge(edges, m_name, &imports[i].path, DependencyEdgeKind::Imports);
        assert(imports@.take(i + 1).drop_last() =~= imports@.take(i as int));
        i += 1;
    }
    assert(imports@.take(i as int) =~= imports@);
}

/// Appends the edges of type aliases under `owner`.
fn push_alias_edges(edges: &mut Vec<Dependency>, owner: &Vec<String>, aliases: &Vec<TypeAlias>)
    ensures
        dep_views(final(edges)@) == dep_views(old(edges)@) + alias_edges(owner.deep_view(), aliases@),
{
    let ghost name = owner.deep_view();
    let ghost b1 = dep_views(edges@);
    let mut i: usize = 0;
    assert(dep_views(edges@) =~= b1 + alias_edges(name, aliases@.take(0)));
    while i < aliases.len()
        invariant
            name == owner.deep_view(),
            i <= aliases@.len(),
            dep_views(edges@) == b1 + alias_edges(name, aliases@.take(i as int)),
        decreases aliases.len() - i,
    {
        let ta = &aliases[i];
        let ta_name = joined(owner, &ta.name);
        push_target_edges(edges, &ta_name, &ta.target, DependencyEdgeKind::Aliases);
        assert(aliases@.take(i + 1).drop_last() =~= aliases@.take(i as int));
        i += 1;
    }
    assert(aliases@.take(i as int) =~= aliases@);
}

/// Appends the edges of a module's structured types.
fn push_module_type_edges(edges: &mut Vec<Dependency>, m_name: &Vec<String>, sts: &Vec<StructuredType>)
    ensures
        dep_views(final(edges)@) == dep_views(old(edges)@) + module_types_edges(m_name.deep_view(), sts@),
{
    let ghost name = m_name.deep_view();
    let ghost b2 = dep_views(edges@);
    let mut i: usize = 0;
    assert(dep_views(edges@) =~= b2 + module_types_edges(name, sts@.take(0)));
    while i < sts.len()
        invariant
            name == m_name.deep_view(),
            i <= sts@.len(),
            dep_views(edges@) == b2 + module_types_edges(name, sts@.take(i as int)),
        decreases sts.len() - i,
    {
        let st = &sts[i];
        let st_name = joined(m_name, &st.name);
        push_edge(edges, m_name, &st_name, DependencyEdgeKind::ModuleContainment);
        traverse_structured_type_edges(st, m_name, edges);
        assert(sts@.take(i + 1).drop_last() =~= sts@.take(i as int));
        i += 1;
    }
    assert(sts@.take(i as int) =~= sts@);
}

/// Appends the edges of a module's free functions.
fn push_free_function_edges(edges: &mut Vec<Dependency>, m_name: &Vec<String>, fs: &Vec<Function>)
    ensures
        dep_views(final(edges)@) == dep_views(old(edges)@) + free_function_edges(m_name.deep_view(), fs@),
{
    let ghost name = m_name.deep_view();
    let ghost b3 = dep_views(edges@);
    let mut i: usize = 0;
    assert(dep_views(edges@) =~= b3 + free_function_edges(name, fs@.take(0)));
    while i < fs.len()
        invariant
            name == m_name.deep_view(),
            i <= fs@.len(),
            dep_views(edges@) == b3 + free_function_edges(name, fs@.take(i as int)),
        decreases fs.len() - i,
    {
        let ff = &fs[i];
        let ff_name = joined(m_name, &ff.name);
        push_edge(edges, m_name, &ff_name, DependencyEdgeKind::ModuleContainment);
        add_function_edges(ff, &ff_name, edges);
        push_refs_edges(edges, &ff_name, &ff.annotations, DependencyEdgeKind::AnnotatedWith);
        assert(fs@.take(i + 1).drop_last() =~= fs@.take(i as int));
        i += 1;
    }
    assert(fs@.take(i as int) =~= fs@);
}

/// Appends the edges of a module's free variables.
fn push_free_variable_edges(edges: &mut Vec<Dependency>, m_name: &Vec<String>, vs: &Vec<Field>)
    ensures
        dep_views(final(edges)@) == dep_views(old(edges)@) + free_variable_edges(m_name.deep_view(), vs@),
{
    let ghost name = m_name.deep_view();
    let ghost b4 = dep_views(edges@);
    let mut i: usize = 0;
    assert(dep_views(edges@) =~= b4 + free_variable_edges(name, vs@.take(0)));
    while i < vs.len()
        invariant
            name == m_name.deep_view(),
            i <= vs@.len(),
            dep_views(edges@) == b4 + free_variable_edges(name, vs@.take(i as int)),
        decreases vs.len() - i,
    {
        let fv = &vs[i];
        let fv_name = pushed(m_name, &fv.name);
        push_edge(edges, m_name, &fv_name, DependencyEdgeKind::ModuleContainment);
        push_target_edges(edges, &fv_name, &fv.ty, DependencyEdgeKind::UsesFieldType);
        push_refs_edges(edges, &fv_name, &fv.annotations, DependencyEdgeKind::AnnotatedWith);
        assert(vs@.take(i + 1).drop_last() =~= vs@.take(i as int));
        i += 1;
    }
    assert(vs@.take(i as int) =~= vs@);
}

/// Appends the edges of the methods of a type named `owner`.
fn push_method_edges(edges: &mut Vec<Dependency>, owner: &Vec<String>, ms: &Vec<Function>)
    ensures
        dep_views(final(edges)@) == dep_views(old(edges)@) + method_edges(owner.deep_view(), ms@),
{
    let ghost to_v = owner.deep_view();
    let ghost bm = dep_views(edges@);
    let mut k: usize = 0;
    assert(dep_views(edges@) =~= bm + method_edges(to_v, ms@.take(0)));
    while k < ms.len()
        invariant
            to_v == owner.deep_view(),
            k <= ms@.len(),
            dep_views(edges@) == bm + method_edges(to_v, ms@.take(k as int)),
        decreases ms.len() - k,
    {
        let meth = &ms[k];
        let meth_name = joined(owner, &meth.name);
        push_edge(edges, owner, &meth_name, DependencyEdgeKind::NestedIn);
        add_function_edges(meth, &meth_name, edges);
        push_refs_edges(edges, &meth_name, &meth.annotations, DependencyEdgeKind::AnnotatedWith);
        assert(ms@.take(k + 1).drop_last() =~= ms@.take(k as int));
        k += 1;
    }
    assert(ms@.take(k as int) =~= ms@);
}

/// Appends the edges of an impl block's nested types, attached to `to`.
fn push_impl_nested_edges(edges: &mut Vec<Dependency>, to: &Vec<String>, ns: &Vec<StructuredType>)
    ensures
        dep_views(final(edges)@) == dep_views(old(edges)@) + impl_nested_edges(to.deep_view(), ns@),
{
    let ghost to_v = to.deep_view();
    let ghost bn = dep_views(edges@);
    let mut k: usize = 0;
    assert(dep_views(edges@) =~= bn + impl_nested_edges(to_v, ns@.take(0)));
    while k < ns.len()
        invariant
            to_v == to.deep_view(),
            k <= ns@.len(),
            dep_views(edges@) == bn + impl_nested_edges(to_v, ns@.take(k as int)),
        decreases ns.len() - k,
    {
        let nested = &ns[k];
        let nested_name = joined(to, &nested.name);
        push_edge(edges, to, &nested_name, DependencyEdgeKind::NestedIn);
        traverse_structured_type_edges(nested, to, edges);
        assert(ns@.take(k + 1).drop_last() =~= ns@.take(k as int));
        k += 1;
    }
    assert(ns@.take(k as int) =~= ns@);
}

/// Appends the edges of an impl block from a module named `m_name` for one type `to` that it
/// is for.
fn push_one_impl_target_edges(edges: &mut Vec<Dependency>, m_name: &Vec<String>, to: &Vec<String>, ib: &ImplBlock)
    ensures
        dep_views(final(edges)@) == dep_views(old(edges)@) + impl_one_target_edges(
            m_name.deep_view(),
            *ib,
            to.deep_view(),
        ),
{
    let ghost name = m_name.deep_view();
    let ghost to_v = to.deep_view();
    let ghost bj = dep_views(edges@);
    push_edge(edges, m_name, to, DependencyEdgeKind::Implements);
    match &ib.implements_trait {
        Some(trait_ref) => push_target_edges(edges, to, trait_ref, DependencyEdgeKind::Implements),
        None => {},
    }
    let ghost bm = dep_views(edges@);
    push_method_edges(edges, to, &ib.methods);
    push_impl_nested_edges(edges, to, &ib.nested_types);
    push_alias_edges(edges, to, &ib.type_aliases);
    proof {
        let tr_part = if ib.implements_trait is Some {
            edges_to(to_v, targets(ib.implements_trait->0), DependencyEdgeKind::Implements)
        } else {
            Seq::<DependencyV>::empty()
        };
        assert(bm =~= bj + edge(name, to_v, DependencyEdgeKind::Implements) + tr_part);
        assert(dep_views(edges@) =~= bj + impl_one_target_edges(name, *ib, to_v));
    }
}

/// Appends the edges of an impl block from a module named `m_name`, once for each
/// type it is for.
fn push_impl_block_edges(edges: &mut Vec<Dependency>, m_name: &Vec<String>, ib: &ImplBlock)
    ensures
        dep_views(final(edges)@) == dep_views(old(edges)@) + impl_target_edges(
            m_name.deep_view(),
            *ib,
            targets(ib.impl_for),
        ),
{
    let ghost name = m_name.deep_view();
    let tos = type_ref_targets(&ib.impl_for);
    let ghost bi = dep_views(edges@);
    let ghost tv = path_views(tos@);
    let mut j: usize = 0;
    assert(dep_views(edges@) =~= bi + impl_target_edges(name, *ib, tv.take(0)));
    while j < tos.len()
        invariant
            name == m_name.deep_view(),
            tv == path_views(tos@),
            j <= tos@.len(),
            dep_views(edges@) == bi + impl_target_edges(name, *ib, tv.take(j as int)),
        decreases tos.len() - j,
    {
        push_one_impl_target_edges(edges, m_name, &tos[j], ib);
        assert(tv.take(j + 1).drop_last() =~= tv.take(j as int));
        assert(tv.take(j + 1).last() == tos@[j as int].deep_view());
        j += 1;
    }
    assert(tv.take(j as int) =~= tv);
}

/// Appends the edges of a module's impl blocks.
fn push_impl_edges(edges: &mut Vec<Dependency>, m_name: &Vec<String>, ibs: &Vec<ImplBlock>)
    ensures
        dep_views(final(edges)@) == dep_views(old(edges)@) + impl_edges(m_name.deep_view(), ibs@),
{
    let ghost name = m_name.deep_view();
    let ghost b5 = dep_views(edges@);
    let mut i: usize = 0;
    assert(dep_views(edges@) =~= b5 + impl_edges(name, ibs@.take(0)));
    while i < ibs.len()
        invariant
            name == m_name.deep_view(),
            i <= ibs@.len(),
            dep_views(edges@) == b5 + impl_edges(name, ibs@.take(i as int)),
        decreases ibs.len() - i,
    {
        push_impl_block_edges(edges, m_name, &ibs[i]);
        assert(ibs@.take(i + 1).drop_last() =~= ibs@.take(i as int));
        i += 1;
    }
    assert(ibs@.take(i as int) =~= ibs@);
}

/// Appends the edges that a module named `m_name` has of its own (see `module_own_edges`).
fn push_module_own_edges(edges: &mut Vec<Dependency>, m_name: &Vec<String>, m: &Module)
    ensures
        dep_views(final(edges)@) == dep_views(old(edges)@) + module_own_edges(m_name.deep_view(), *m),
{
    let ghost name = m_name.deep_view();
    let ghost b0 = dep_views(edges@);
    push_import_edges(edges, m_name, &m.imports);
    push_alias_edges(edges, m_name, &m.type_aliases);
    push_module_type_edges(edges, m_name, &m.structured_types);
    push_free_function_edges(edges, m_name, &m.free_functions);
    push_free_variable_edges(edges, m_name, &m.free_variables);
    push_impl_edges(edges, m_name, &m.impl_blocks);
    assert(dep_views(edges@) =~= b0 + module_own_edges(name, *m));
}

/// Appends the edges of a module (with `parent`, the containment edge from it) and of its
/// submodules: imports, aliases, types, free functions and variables, and impl blocks (from the
/// module to each type they are for, from that type to its trait, its methods, nested types and
/// aliases).
#[verifier::spinoff_prover]
#[verifier::rlimit(40)]
fn traverse_module_for_edges(m: &Module, parent: Option<&Vec<String>>, prefix: &Vec<String>, edges: &mut Vec<Dependency>)
    ensures
        dep_views(final(edges)@) == dep_views(old(edges)@) + module_edges(
            *m,
            match parent {
                Some(p) => Some(p.deep_view()),
                None => None,
            },
            prefix.deep_view(),
        ),
    decreases m,
{
    let ghost base = dep_views(edges@);
    let m_name = qualified_module_name(prefix, &m.name);
    let ghost name = m_name.deep_view();
    match parent {
        Some(p) => push_edge(edges, p, &m_name, DependencyEdgeKind::ModuleContainment),
        None => {},
    }
    let ghost b0 = dep_views(edges@);
    push_module_own_edges(edges, &m_name, m);
    let ghost b6 = dep_views(edges@);
    let mut i: usize = 0;
    assert(dep_views(edges@) =~= b6 + submodule_edges(name, m.sub_modules@.take(0)));
    while i < m.sub_modules.len()
        invariant
            name == m_name.deep_view(),
            i <= m.sub_modules@.len(),
            dep_views(edges@) == b6 + submodule_edges(name, m.sub_modules@.take(i as int)),
        decreases m.sub_modules.len() - i,
    {
        traverse_module_for_edges(&m.sub_modules[i], Some(&m_name), &m_name, edges);
        assert(m.sub_modules@.take(i + 1).drop_last() =~= m.sub_modules@.take(i as int));
        i += 1;
    }
    assert(m.sub_modules@.take(i as int) =~= m.sub_modules@);
    proof {
        let pv = match parent {
            Some(p) => Some(p.deep_view()),
            None => None,
        };
        let pe = match pv {
            Some(p) => edge(p, name, DependencyEdgeKind::ModuleContainment),
            None => Seq::<DependencyV>::empty(),
        };
        assert(b0 =~= base + pe);
        assert(dep_views(edges@) =~= base + module_edges(*m, pv, prefix.deep_view()));
    }
}

/// The name a node goes by: the path of a module, type, alias, function or field, `[p]` for a
/// primitive `p`, the path of an external.
pub open spec fn node_name(c: Component) -> Seq<Seq<char>> {
    match c {
        Component::Module(m) => m.name.deep_view(),
        Component::StructuredType(st) => st.name.deep_view(),
        Component::Function(f) => f.name.deep_view(),
        Component::TypeAlias(t) => t.name.deep_view(),
        Component::Field(n, _) => n.deep_view(),
        Component::Primitive(p) => seq![p@],
        Component::External(q) => q.deep_view(),
    }
}

/// Whether a node is one of the analysed code (not a primitive or external one).
pub open spec fn is_code_node(c: Component) -> bool {
    !(c is Primitive) && !(c is External)
}

/// Whether a target is a primitive: one segment naming a primitive type.
pub open spec fn primitive_target(to: Seq<Seq<char>>, prims: Set<Seq<char>>) -> bool {
    to.len() == 1 && prims.contains(to[0])
}

/// Some node goes by the name `p`.
pub open spec fn has_node_named(nodes: Seq<Component>, p: Seq<Seq<char>>) -> bool {
    exists|j: int| 0 <= j < nodes.len() && #[trigger] node_name(nodes[j]) == p
}

/// Some edge has the target `p`.
pub open spec fn is_edge_target(edges: Seq<Dependency>, p: Seq<Seq<char>>) -> bool {
    exists|k: int| 0 <= k < edges.len() && (#[trigger] edges[k]).to.deep_view() == p
}

/// Every edge's target is the name of some node.
pub open spec fn targets_are_nodes(nodes: Seq<Component>, edges: Seq<Dependency>) -> bool {
    forall|i: int| 0 <= i < edges.len() ==> has_node_named(nodes, (#[trigger] edges[i]).to.deep_view())
}

fn node_name_of(c: &Component) -> (r: Option<Vec<String>>)
    ensures
        match r {
            Some(n) => is_code_node(*c) && n.deep_view() == node_name(*c),
            None => !is_code_node(*c),
        },
{
    match c {
        Component::Module(m) => Some(clone_qn(&m.name)),
        Component::StructuredType(st) => Some(clone_qn(&st.name)),
        Component::TypeAlias(t) => Some(clone_qn(&t.name)),
        Component::Function(f) => Some(clone_qn(&f.name)),
        Component::Field(n, _) => Some(clone_qn(n)),
        _ => None,
    }
}

/// Some listed name equals `c`.
pub open spec fn listed(v: Seq<String>, c: Seq<char>) -> bool {
    exists|a: int| 0 <= a < v.len() && (#[trigger] v[a])@ == c
}

fn contains_string(v: &Vec<String>, x: &String) -> (r: bool)
    ensures
        r == listed(v@, x@),
{
    let mut i: usize = 0;
    while i < v.len()
        invariant
            i <= v@.len(),
            forall|j: int| 0 <= j < i ==> (#[trigger] v@[j])@ != x@,
        decreases v.len() - i,
    {
        if str_eq(v[i].as_str(), x.as_str()) {
            return true;
        }
        i += 1;
    }
    false
}

/// The names of the nodes of the analysed code among `nodes`, in order.
pub open spec fn code_names(nodes: Seq<Component>) -> Seq<Seq<Seq<char>>>
    decreases nodes.len(),
{
    if nodes.len() == 0 {
        Seq::empty()
    } else if is_code_node(nodes.last()) {
        code_names(nodes.drop_last()).push(node_name(nodes.last()))
    } else {
        code_names(nodes.drop_last())
    }
}

/// The names of the nodes of the analysed code.
fn code_node_names(nodes: &Vec<Component>) -> (r: Vec<Vec<String>>)
    ensures
        path_views(r@) == code_names(nodes@),
        forall|k: int| 0 <= k < r@.len() ==> has_node_named(nodes@, (#[trigger] r@[k]).deep_view()),
{
    let mut existing: Vec<Vec<String>> = Vec::new();
    let mut i: usize = 0;
    while i < nodes.len()
        invariant
            i <= nodes@.len(),
            path_views(existing@) == code_names(nodes@.take(i as int)),
            forall|k: int|
                0 <= k < existing@.len() ==> has_node_named(nodes@, (#[trigger] existing@[k]).deep_view()),
        decreases nodes.len() - i,
    {
        match node_name_of(&nodes[i]) {
            Some(n) => {
                let ghost before = existing@;
                let ghost nv = n.deep_view();
                existing.push(n);
                proof {
                    assert forall|k: int| 0 <= k < existing@.len() implies has_node_named(
                        nodes@,
                        (#[trigger] existing@[k]).deep_view(),
                    ) by {
                        if k < before.len() {
                            assert(existing@[k] == before[k]);
                        } else {
                            assert(node_name(nodes@[i as int]) == existing@[k].deep_view());
                        }
                    }
                    assert(path_views(existing@) =~= path_views(before).push(nv));
                }
            },
            None => {},
        }
        assert(nodes@.take(i + 1).drop_last() =~= nodes@.take(i as int));
        i += 1;
    }
    assert(nodes@.take(i as int) =~= nodes@);
    existing
}

/// How the targets of the first `n` edges are covered: a primitive target by a listed
/// primitive, any other by a node name or a listed external.
pub open spec fn covered(
    edges: Seq<Dependency>,
    n: int,
    prims: Seq<String>,
    existing: Seq<Vec<String>>,
    unres: Seq<Vec<String>>,
    pnames: Set<Seq<char>>,
) -> bool {
    forall|k: int|
        0 <= k < n ==> if primitive_target((#[trigger] edges[k]).to.deep_view(), pnames) {
            listed(prims, edges[k].to.deep_view()[0])
        } else {
            path_views(existing).to_set().contains(edges[k].to.deep_view())
                || path_views(unres).to_set().contains(edges[k].to.deep_view())
        }
}

/// Each listed primitive and external is the target of some edge.
pub open spec fn from_edges(edges: Seq<Dependency>, prims: Seq<String>, unres: Seq<Vec<String>>) -> bool {
    &&& forall|a: int| 0 <= a < prims.len() ==> is_edge_target(edges, seq![(#[trigger] prims[a])@])
    &&& forall|a: int| 0 <= a < unres.len() ==> is_edge_target(edges, (#[trigger] unres[a]).deep_view())
}

/// The primitives that edges reach and the other targets that name no node, each once.
fn synthetic_targets(edges: &Vec<Dependency>, existing: &Vec<Vec<String>>, primitives: &PrimitiveRegistry) -> (r: (
    Vec<String>,
    Vec<Vec<String>>,
))
    requires
        primitives.wf(),
    ensures
        covered(edges@, edges@.len() as int, r.0@, existing@, r.1@, primitives.names()),
        from_edges(edges@, r.0@, r.1@),
        forall|a: int, b: int| 0 <= a < b < r.0@.len() ==> (#[trigger] r.0@[a])@ != (#[trigger] r.0@[b])@,
        forall|a: int| 0 <= a < r.0@.len() ==> primitives.names().contains((#[trigger] r.0@[a])@),
        path_views(r.1@).no_duplicates(),
        forall|a: int|
            0 <= a < r.1@.len() ==> !path_views(existing@).to_set().contains((#[trigger] r.1@[a]).deep_view())
                && !primitive_target(r.1@[a].deep_view(), primitives.names()),
{
    let mut prims: Vec<String> = Vec::new();
    let mut unres: Vec<Vec<String>> = Vec::new();
    let mut i: usize = 0;
    while i < edges.len()
        invariant
            i <= edges@.len(),
            primitives.wf(),
            covered(edges@, i as int, prims@, existing@, unres@, primitives.names()),
            from_edges(edges@, prims@, unres@),
            forall|a: int, b: int| 0 <= a < b < prims@.len() ==> (#[trigger] prims@[a])@ != (#[trigger] prims@[b])@,
            forall|a: int| 0 <= a < prims@.len() ==> primitives.names().contains((#[trigger] prims@[a])@),
            path_views(unres@).no_duplicates(),
            forall|a: int|
                0 <= a < unres@.len() ==> !path_views(existing@).to_set().contains((#[trigger] unres@[a]).deep_view())
                    && !primitive_target(unres@[a].deep_view(), primitives.names()),
        decreases edges.len() - i,
    {
        let to = &edges[i].to;
        let ghost tv = to.deep_view();
        let ghost prims0 = prims@;
        let ghost unres0 = unres@;
        if to.len() == 1 && primitives.is_primitive(to[0].as_str()) {
            assert(tv =~= seq![to@[0]@]);
            if !contains_string(&prims, &to[0]) {
                prims.push(to[0].clone());
                assert(prims@[prims@.len() - 1]@ == tv[0]);
            }
        } else if !crate::export::summary::contains_path_pub(existing, to) {
            if !crate::export::summary::contains_path_pub(&unres, to) {
                unres.push(clone_qn(to));
                assert(path_views(unres@)[unres0.len() as int] == tv);
                assert(path_views(unres@).to_set().contains(tv));
            }
        }
        proof {
            assert forall|x: Seq<Seq<char>>| path_views(unres0).to_set().contains(x) implies path_views(unres@).to_set().contains(x) by {
                let u = choose|u: int| 0 <= u < path_views(unres0).len() && path_views(unres0)[u] == x;
                assert(unres@[u] == unres0[u]);
                assert(path_views(unres@)[u] == x);
            }
            assert forall|c: Seq<char>| listed(prims0, c) implies listed(prims@, c) by {
                let a = choose|a: int| 0 <= a < prims0.len() && (#[trigger] prims0[a])@ == c;
                assert(prims@[a] == prims0[a]);
            }
            assert forall|k: int| 0 <= k < i + 1 implies (if primitive_target((#[trigger] edges@[k]).to.deep_view(), primitives.names()) {
                listed(prims@, edges@[k].to.deep_view()[0])
            } else {
                path_views(existing@).to_set().contains(edges@[k].to.deep_view())
                    || path_views(unres@).to_set().contains(edges@[k].to.deep_view())
            }) by {
            }
            assert forall|a: int| 0 <= a < prims@.len() implies is_edge_target(edges@, seq![(#[trigger] prims@[a])@]) by {
                if a < prims0.len() {
                    assert(prims@[a] == prims0[a]);
                } else {
                    assert(edges@[i as int].to.deep_view() == seq![prims@[a]@]);
                }
            }
            assert forall|a: int| 0 <= a < unres@.len() implies is_edge_target(edges@, (#[trigger] unres@[a]).deep_view()) by {
                if a < unres0.len() {
                    assert(unres@[a] == unres0[a]);
                } else {
                    assert(edges@[i as int].to.deep_view() == unres@[a].deep_view());
                }
            }
            assert forall|a: int| 0 <= a < prims@.len() implies primitives.names().contains((#[trigger] prims@[a])@) by {
                if a < prims0.len() {
                    assert(prims@[a] == prims0[a]);
                }
            }
            assert forall|a: int, b: int| 0 <= a < b < prims@.len() implies (#[trigger] prims@[a])@ != (#[trigger] prims@[b])@ by {
                if b >= prims0.len() {
                    assert(prims@[a] == prims0[a]);
                    assert(listed(prims0, prims0[a]@));
                } else {
                    assert(prims@[a] == prims0[a]);
                    assert(prims@[b] == prims0[b]);
                }
            }
            assert forall|a: int, b: int| 0 <= a < b < path_views(unres@).len() implies path_views(unres@)[a] != path_views(unres@)[b] by {
                if b >= unres0.len() {
                    assert(unres@[a] == unres0[a]);
                    assert(path_views(unres0)[a] == unres0[a].deep_view());
                    assert(path_views(unres0).to_set().contains(unres0[a].deep_view()));
                } else {
                    assert(unres@[a] == unres0[a]);
                    assert(unres@[b] == unres0[b]);
                    assert(path_views(unres0)[a] != path_views(unres0)[b]);
                }
            }
            assert forall|a: int|
                0 <= a < unres@.len() implies !path_views(existing@).to_set().contains((#[trigger] unres@[a]).deep_view())
                    && !primitive_target(unres@[a].deep_view(), primitives.names()) by {
                if a < unres0.len() {
                    assert(unres@[a] == unres0[a]);
                }
            }
        }
        i += 1;
    }
    (prims, unres)
}

/// Appends a primitive node for each name, then an external node for each path.
fn push_synthetic(nodes: &mut Vec<Component>, prims: &Vec<String>, unres: &Vec<Vec<String>>)
    ensures
        final(nodes)@.len() == old(nodes)@.len() + prims@.len() + unres@.len(),
        forall|j: int| 0 <= j < old(nodes)@.len() ==> #[trigger] final(nodes)@[j] == old(nodes)@[j],
        forall|t: int|
            0 <= t < prims@.len() ==> #[trigger] final(nodes)@[old(nodes)@.len() + t] == Component::Primitive(
                prims@[t],
            ),
        forall|t: int|
            0 <= t < unres@.len() ==> (#[trigger] final(nodes)@[old(nodes)@.len() + prims@.len() + t] matches Component::External(
                q,
            ) && q.deep_view() == unres@[t].deep_view()),
{
    let ghost old_nodes = nodes@;
    let n0 = nodes.len();
    let mut a: usize = 0;
    while a < prims.len()
        invariant
            a <= prims@.len(),
            nodes@.len() == n0 + a,
            n0 == old_nodes.len(),
            forall|j: int| 0 <= j < n0 ==> #[trigger] nodes@[j] == old_nodes[j],
            forall|t: int| 0 <= t < a ==> #[trigger] nodes@[n0 + t] == Component::Primitive(prims@[t]),
        decreases prims.len() - a,
    {
        nodes.push(Component::Primitive(prims[a].clone()));
        a += 1;
    }
    let n1 = nodes.len();
    let mut b: usize = 0;
    while b < unres.len()
        invariant
            b <= unres@.len(),
            nodes@.len() == n1 + b,
            n1 == n0 + prims@.len(),
            n0 == old_nodes.len(),
            forall|j: int| 0 <= j < n0 ==> #[trigger] nodes@[j] == old_nodes[j],
            forall|t: int| 0 <= t < prims@.len() ==> #[trigger] nodes@[n0 + t] == Component::Primitive(prims@[t]),
            forall|t: int| 0 <= t < b ==> (#[trigger] nodes@[n1 + t] matches Component::External(q) && q.deep_view() == unres@[t].deep_view()),
        decreases unres.len() - b,
    {
        nodes.push(Component::External(clone_qn(&unres[b])));
        b += 1;
    }
}

/// The nodes from index `n` on are the synthetic ones: none of the analysed code, each the
/// target of some edge, a primitive node only for a primitive target, an external node only for
/// a target that is no primitive and names none of the first `n` nodes; no two share a name.
pub open spec fn synthetic_ok(nodes: Seq<Component>, n: int, edges: Seq<Dependency>, pn: Set<Seq<char>>) -> bool {
    &&& forall|j: int|
        n <= j < nodes.len() ==> {
            &&& !is_code_node(#[trigger] nodes[j])
            &&& is_edge_target(edges, node_name(nodes[j]))
            &&& nodes[j] is Primitive ==> primitive_target(node_name(nodes[j]), pn)
            &&& nodes[j] is External ==> !primitive_target(node_name(nodes[j]), pn) && !code_names(
                nodes.take(n),
            ).contains(node_name(nodes[j]))
        }
    &&& forall|a: int, b: int| n <= a < b < nodes.len() ==> node_name(#[trigger] nodes[a]) != node_name(#[trigger] nodes[b])
}

/// Adds a node for each primitive that edges reach (a target of one segment naming a
/// primitive) and an external node for each other target that names no node; each once.
fn add_synthetic_nodes(nodes: &mut Vec<Component>, edges: &Vec<Dependency>, primitives: &PrimitiveRegistry)
    requires
        primitives.wf(),
    ensures
        final(nodes)@.len() >= old(nodes)@.len(),
        forall|j: int| 0 <= j < old(nodes)@.len() ==> #[trigger] final(nodes)@[j] == old(nodes)@[j],
        targets_are_nodes(final(nodes)@, edges@),
        forall|j: int|
            old(nodes)@.len() <= j < final(nodes)@.len() ==> !is_code_node(#[trigger] final(nodes)@[j])
                && is_edge_target(edges@, node_name(final(nodes)@[j])),
        synthetic_ok(final(nodes)@, old(nodes)@.len() as int, edges@, primitives.names()),
{
    let ghost old_nodes = nodes@;
    let n0 = nodes.len();
    let existing = code_node_names(nodes);
    let (prims, unres) = synthetic_targets(edges, &existing, primitives);
    push_synthetic(nodes, &prims, &unres);
    let ghost n1 = n0 + prims@.len();
    proof {
        assert forall|k: int| 0 <= k < edges@.len() implies has_node_named(nodes@, (#[trigger] edges@[k]).to.deep_view()) by {
            let tv = edges@[k].to.deep_view();
            if primitive_target(tv, primitives.names()) {
                let a = choose|a: int| 0 <= a < prims@.len() && (#[trigger] prims@[a])@ == tv[0];
                assert(tv =~= seq![tv[0]]);
                assert(nodes@[n0 + a] == Component::Primitive(prims@[a]));
                assert(node_name(nodes@[n0 + a]) == tv);
            } else if path_views(existing@).to_set().contains(tv) {
                let e = choose|e: int| 0 <= e < path_views(existing@).len() && path_views(existing@)[e] == tv;
                assert(existing@[e].deep_view() == tv);
                assert(has_node_named(old_nodes, existing@[e].deep_view()));
                let j = choose|j: int| 0 <= j < old_nodes.len() && #[trigger] node_name(old_nodes[j]) == existing@[e].deep_view();
                assert(nodes@[j] == old_nodes[j]);
                assert(node_name(nodes@[j]) == tv);
            } else {
                let u = choose|u: int| 0 <= u < path_views(unres@).len() && path_views(unres@)[u] == tv;
                assert(unres@[u].deep_view() == tv);
                assert(nodes@[n1 + u] matches Component::External(q) && q.deep_view() == unres@[u].deep_view());
                assert(node_name(nodes@[n1 + u]) == tv);
            }
        }
        assert forall|j: int| old_nodes.len() <= j < nodes@.len() implies !is_code_node(#[trigger] nodes@[j])
            && is_edge_target(edges@, node_name(nodes@[j])) by {
            if j < n1 {
                let t = j - n0;
                assert(nodes@[n0 + t] == Component::Primitive(prims@[t]));
                assert(node_name(nodes@[j]) == seq![prims@[t]@]);
            } else {
                let t = j - n1;
                assert(nodes@[n1 + t] matches Component::External(q) && q.deep_view() == unres@[t].deep_view());
                assert(node_name(nodes@[j]) == unres@[t].deep_view());
            }
        }
        assert(nodes@.take(n0 as int) =~= old_nodes);
        assert forall|j: int|
            n0 <= j < nodes@.len() implies {
                &&& !is_code_node(#[trigger] nodes@[j])
                &&& is_edge_target(edges@, node_name(nodes@[j]))
                &&& nodes@[j] is Primitive ==> primitive_target(node_name(nodes@[j]), primitives.names())
                &&& nodes@[j] is External ==> !primitive_target(node_name(nodes@[j]), primitives.names()) && !code_names(
                    nodes@.take(n0 as int),
                ).contains(node_name(nodes@[j]))
            } by {
            if j < n1 {
                let t = j - n0;
                assert(nodes@[n0 + t] == Component::Primitive(prims@[t]));
                assert(is_edge_target(edges@, seq![prims@[t]@]));
                let k = choose|k: int| 0 <= k < edges@.len() && (#[trigger] edges@[k]).to.deep_view() == seq![prims@[t]@];
                assert(primitive_target(edges@[k].to.deep_view(), primitives.names()) || !primitive_target(edges@[k].to.deep_view(), primitives.names()));
            } else {
                let t = j - n1;
                assert(nodes@[n1 + t] matches Component::External(q) && q.deep_view() == unres@[t].deep_view());
                assert(path_views(existing@) == code_names(old_nodes));
                assert(!path_views(existing@).to_set().contains(unres@[t].deep_view()));
            }
        }
        assert forall|a: int, b: int| n0 <= a < b < nodes@.len() implies node_name(#[trigger] nodes@[a]) != node_name(#[trigger] nodes@[b]) by {
            if b < n1 {
                let ta = a - n0;
                let tb = b - n0;
                assert(nodes@[n0 + ta] == Component::Primitive(prims@[ta]));
                assert(nodes@[n0 + tb] == Component::Primitive(prims@[tb]));
                assert(node_name(nodes@[a]) == seq![prims@[a - n0]@]);
                assert(node_name(nodes@[b]) == seq![prims@[b - n0]@]);
                if node_name(nodes@[a]) == node_name(nodes@[b]) {
                    assert(seq![prims@[a - n0]@][0] == seq![prims@[b - n0]@][0]);
                }
            } else if a < n1 {
                let t = b - n1;
                assert(nodes@[n1 + t] matches Component::External(q) && q.deep_view() == unres@[t].deep_view());
                let ta = a - n0;
                assert(nodes@[n0 + ta] == Component::Primitive(prims@[ta]));
                assert(!primitive_target(unres@[t].deep_view(), primitives.names()));
            } else {
                let ta = a - n1;
                let tb = b - n1;
                assert(nodes@[n1 + ta] matches Component::External(q) && q.deep_view() == unres@[ta].deep_view());
                assert(nodes@[n1 + tb] matches Component::External(q) && q.deep_view() == unres@[tb].deep_view());
                assert(path_views(unres@)[ta] != path_views(unres@)[tb]);
            }
        }
    }
}

/// A copy of a function under another name.
fn renamed_function(f: &Function, name: Vec<String>) -> (r: Function)
    ensures
        r@ == (FunctionV { name: name.deep_view(), ..f@ }),
{
    let mut c = f.duplicate();
    c.name = name;
    c
}

/// The nodes of the fields of a type named `name`.
pub open spec fn field_nodes(name: Seq<Seq<char>>, fs: Seq<Field>) -> Seq<ComponentV>
    decreases fs.len(),
{
    if fs.len() == 0 {
        Seq::empty()
    } else {
        field_nodes(name, fs.drop_last()) + seq![ComponentV::Field(name.push(fs.last().name@), fs.last().ty@)]
    }
}

/// The nodes of functions hanging from `name`, each named by its path below it.
pub open spec fn function_nodes(name: Seq<Seq<char>>, ms: Seq<Function>) -> Seq<ComponentV>
    decreases ms.len(),
{
    if ms.len() == 0 {
        Seq::empty()
    } else {
        function_nodes(name, ms.drop_last()) + seq![
            ComponentV::Function(FunctionV { name: name + ms.last().name.deep_view(), ..ms.last()@ }),
        ]
    }
}

/// The nodes of type aliases hanging from `name`.
pub open spec fn alias_nodes(name: Seq<Seq<char>>, ts: Seq<TypeAlias>) -> Seq<ComponentV>
    decreases ts.len(),
{
    if ts.len() == 0 {
        Seq::empty()
    } else {
        alias_nodes(name, ts.drop_last()) + seq![
            ComponentV::TypeAlias(
                TypeAliasV { name: name + ts.last().name.deep_view(), target: ts.last().target@ },
            ),
        ]
    }
}

/// The nodes of a structured type under `prefix`: the type, its fields, its
/// methods, then those of its nested types.
pub open spec fn st_nodes(prefix: Seq<Seq<char>>, st: StructuredType) -> Seq<ComponentV>
    decreases st, 0nat,
{
    let name = prefix + st.name.deep_view();
    seq![ComponentV::StructuredType(StructuredTypeV { name: name, ..st@ })] + field_nodes(
        name,
        st.fields@,
    ) + function_nodes(name, st.methods@) + st_list_nodes(name, st.nested_types@)
}

/// The nodes of the structured types `ns` under `prefix`.
pub open spec fn st_list_nodes(prefix: Seq<Seq<char>>, ns: Seq<StructuredType>) -> Seq<ComponentV>
    decreases ns, 1nat,
{
    if ns.len() == 0 {
        Seq::empty()
    } else {
        st_list_nodes(prefix, ns.drop_last()) + st_nodes(prefix, ns.last())
    }
}

/// The nodes an impl block contributes for each type `tos` it is for: its methods,
/// nested types and aliases under the type.
pub open spec fn impl_target_nodes(ib: ImplBlock, tos: Seq<Seq<Seq<char>>>) -> Seq<ComponentV>
    decreases tos.len(),
{
    if tos.len() == 0 {
        Seq::empty()
    } else {
        let to = tos.last();
        impl_target_nodes(ib, tos.drop_last()) + function_nodes(to, ib.methods@) + st_list_nodes(
            to,
            ib.nested_types@,
        ) + alias_nodes(to, ib.type_aliases@)
    }
}

/// The nodes of a module's impl blocks.
pub open spec fn impl_nodes(ibs: Seq<ImplBlock>) -> Seq<ComponentV>
    decreases ibs.len(),
{
    if ibs.len() == 0 {
        Seq::empty()
    } else {
        impl_nodes(ibs.drop_last()) + impl_target_nodes(ibs.last(), targets(ibs.last().impl_for))
    }
}

/// The nodes of a module under `prefix`: the module (named by its path), its
/// aliases, types, free functions, variables, the nodes of its impl blocks, then
/// those of its submodules.
pub open spec fn module_nodes(prefix: Seq<Seq<char>>, m: Module) -> Seq<ComponentV>
    decreases m, 0nat,
{
    let name = prefix + crate::export::summary::own_segments(m.name.deep_view());
    seq![ComponentV::Module(ModuleV { name: name, ..m@ })] + alias_nodes(name, m.type_aliases@)
        + st_list_nodes(name, m.structured_types@) + function_nodes(name, m.free_functions@)
        + field_nodes(name, m.free_variables@) + impl_nodes(m.impl_blocks@) + modules_nodes(
        name,
        m.sub_modules@,
    )
}

/// The nodes of the modules `ms` under `prefix`, one module after another.
pub open spec fn modules_nodes(prefix: Seq<Seq<char>>, ms: Seq<Module>) -> Seq<ComponentV>
    decreases ms, 1nat,
{
    if ms.len() == 0 {
        Seq::empty()
    } else {
        modules_nodes(prefix, ms.drop_last()) + module_nodes(prefix, ms.last())
    }
}

/// Pushing a component adds its view at the end.
proof fn lemma_components_push(s: Seq<Component>, c: Component)
    ensures
        components_view(s.push(c)) == components_view(s) + seq![c@],
{
    assert(components_view(s.push(c)) =~= components_view(s) + seq![c@]);
}

/// Appending components appends their views.
proof fn lemma_components_append(a: Seq<Component>, b: Seq<Component>)
    ensures
        components_view(a + b) == components_view(a) + components_view(b),
{
    assert(components_view(a + b) =~= components_view(a) + components_view(b));
}

/// Appends the nodes of the fields of a type named `name`.
fn push_field_nodes(flat: &mut Vec<Component>, name: &Vec<String>, fs: &Vec<Field>)
    ensures
        components_view(final(flat)@) == components_view(old(flat)@) + field_nodes(name.deep_view(), fs@),
{
    let ghost base = components_view(flat@);
    let mut i: usize = 0;
    assert(components_view(flat@) =~= base + field_nodes(name.deep_view(), fs@.take(0)));
    while i < fs.len()
        invariant
            i <= fs@.len(),
            components_view(flat@) == base + field_nodes(name.deep_view(), fs@.take(i as int)),
        decreases fs.len() - i,
    {
        let f = &fs[i];
        let c = Component::Field(pushed(name, &f.name), f.ty.duplicate());
        proof {
            lemma_components_push(flat@, c);
        }
        flat.push(c);
        assert(fs@.take(i + 1).drop_last() =~= fs@.take(i as int));
        i += 1;
    }
    assert(fs@.take(i as int) =~= fs@);
}

/// Appends the nodes of functions hanging from `name`.
fn push_function_nodes(flat: &mut Vec<Component>, name: &Vec<String>, ms: &Vec<Function>)
    ensures
        components_view(final(flat)@) == components_view(old(flat)@) + function_nodes(name.deep_view(), ms@),
{
    let ghost base = components_view(flat@);
    let mut i: usize = 0;
    assert(components_view(flat@) =~= base + function_nodes(name.deep_view(), ms@.take(0)));
    while i < ms.len()
        invariant
            i <= ms@.len(),
            components_view(flat@) == base + function_nodes(name.deep_view(), ms@.take(i as int)),
        decreases ms.len() - i,
    {
        let m = &ms[i];
        let c = Component::Function(renamed_function(m, joined(name, &m.name)));
        proof {
            lemma_components_push(flat@, c);
        }
        flat.push(c);
        assert(ms@.take(i + 1).drop_last() =~= ms@.take(i as int));
        i += 1;
    }
    assert(ms@.take(i as int) =~= ms@);
}

/// Appends the nodes of type aliases hanging from `name`.
fn push_alias_nodes(flat: &mut Vec<Component>, name: &Vec<String>, ts: &Vec<TypeAlias>)
    ensures
        components_view(final(flat)@) == components_view(old(flat)@) + alias_nodes(name.deep_view(), ts@),
{
    let ghost base = components_view(flat@);
    let mut i: usize = 0;
    assert(components_view(flat@) =~= base + alias_nodes(name.deep_view(), ts@.take(0)));
    while i < ts.len()
        invariant
            i <= ts@.len(),
            components_view(flat@) == base + alias_nodes(name.deep_view(), ts@.take(i as int)),
        decreases ts.len() - i,
    {
        let ta = &ts[i];
        let c = Component::TypeAlias(TypeAlias { name: joined(name, &ta.name), target: ta.target.duplicate() });
        proof {
            lemma_components_push(flat@, c);
        }
        flat.push(c);
        assert(ts@.take(i + 1).drop_last() =~= ts@.take(i as int));
        i += 1;
    }
    assert(ts@.take(i as int) =~= ts@);
}

/// Appends the nodes of the structured types `ns` under `prefix`.
fn push_st_list_nodes(flat: &mut Vec<Component>, prefix: &Vec<String>, ns: &Vec<StructuredType>)
    ensures
        components_view(final(flat)@) == components_view(old(flat)@) + st_list_nodes(prefix.deep_view(), ns@),
    decreases ns, 1nat,
{
    let ghost base = components_view(flat@);
    let mut i: usize = 0;
    assert(components_view(flat@) =~= base + st_list_nodes(prefix.deep_view(), ns@.take(0)));
    while i < ns.len()
        invariant
            i <= ns@.len(),
            components_view(flat@) == base + st_list_nodes(prefix.deep_view(), ns@.take(i as int)),
        decreases ns.len() - i,
    {
        let mut sub = flatten_structured_type(&ns[i], prefix);
        let ghost sv = sub@;
        proof {
            lemma_components_append(flat@, sv);
        }
        flat.append(&mut sub);
        assert(ns@.take(i + 1).drop_last() =~= ns@.take(i as int));
        i += 1;
    }
    assert(ns@.take(i as int) =~= ns@);
}

/// The nodes of a structured type under `prefix`: the type, its fields, its methods, then those
/// of its nested types.
fn flatten_structured_type(st: &StructuredType, prefix: &Vec<String>) -> (r: Vec<Component>)
    ensures
        components_view(r@) == st_nodes(prefix.deep_view(), *st),
    decreases st, 0nat,
{
    let st_name = joined(prefix, &st.name);
    let mut c = st.duplicate();
    c.name = clone_qn(&st_name);
    let mut flat: Vec<Component> = Vec::new();
    let first = Component::StructuredType(c);
    proof {
        assert(first@ == ComponentV::StructuredType(StructuredTypeV { name: st_name.deep_view(), ..st@ }));
        lemma_components_push(flat@, first);
        assert(components_view(flat@) =~= Seq::<ComponentV>::empty());
    }
    flat.push(first);
    push_field_nodes(&mut flat, &st_name, &st.fields);
    push_function_nodes(&mut flat, &st_name, &st.methods);
    push_st_list_nodes(&mut flat, &st_name, &st.nested_types);
    flat
}

/// Appends the nodes of an impl block, once for each type it is for.
fn push_impl_block_nodes(flat: &mut Vec<Component>, ib: &ImplBlock)
    ensures
        components_view(final(flat)@) == components_view(old(flat)@) + impl_target_nodes(*ib, targets(ib.impl_for)),
{
    let ghost base = components_view(flat@);
    let tos = type_ref_targets(&ib.impl_for);
    let ghost tv = path_views(tos@);
    let mut j: usize = 0;
    assert(components_view(flat@) =~= base + impl_target_nodes(*ib, tv.take(0)));
    while j < tos.len()
        invariant
            tv == path_views(tos@),
            j <= tos@.len(),
            components_view(flat@) == base + impl_target_nodes(*ib, tv.take(j as int)),
        decreases tos.len() - j,
    {
        let to = &tos[j];
        push_function_nodes(flat, to, &ib.methods);
        push_st_list_nodes(flat, to, &ib.nested_types);
        push_alias_nodes(flat, to, &ib.type_aliases);
        proof {
            assert(tv.take(j + 1).drop_last() =~= tv.take(j as int));
            assert(tv.take(j + 1).last() == to.deep_view());
        }
        j += 1;
    }
    assert(tv.take(j as int) =~= tv);
}

/// Appends the nodes of a module's impl blocks.
fn push_impl_nodes(flat: &mut Vec<Component>, ibs: &Vec<ImplBlock>)
    ensures
        components_view(final(flat)@) == components_view(old(flat)@) + impl_nodes(ibs@),
{
    let ghost base = components_view(flat@);
    let mut i: usize = 0;
    assert(components_view(flat@) =~= base + impl_nodes(ibs@.take(0)));
    while i < ibs.len()
        invariant
            i <= ibs@.len(),
            components_view(flat@) == base + impl_nodes(ibs@.take(i as int)),
        decreases ibs.len() - i,
    {
        push_impl_block_nodes(flat, &ibs[i]);
        assert(ibs@.take(i + 1).drop_last() =~= ibs@.take(i as int));
        i += 1;
    }
    assert(ibs@.take(i as int) =~= ibs@);
}

/// The nodes of modules under `prefix`: each module (named by its path), its aliases, types,
/// free functions, variables, the methods, nested types and aliases of its impl blocks (under
/// each type they are for), then those of its submodules.
#[verifier::spinoff_prover]
fn flatten_modules(modules: &Vec<Module>, prefix: &Vec<String>) -> (r: Vec<Component>)
    ensures
        components_view(r@) == modules_nodes(prefix.deep_view(), modules@),
    decreases modules, 1nat,
{
    let mut flat: Vec<Component> = Vec::new();
    let mut mi: usize = 0;
    assert(components_view(flat@) =~= modules_nodes(prefix.deep_view(), modules@.take(0)));
    while mi < modules.len()
        invariant
            mi <= modules@.len(),
            components_view(flat@) == modules_nodes(prefix.deep_view(), modules@.take(mi as int)),
        decreases modules.len() - mi,
    {
        let m = &modules[mi];
        let ghost before = components_view(flat@);
        let m_name = qualified_module_name(prefix, &m.name);
        let mut mc = m.duplicate();
        mc.name = clone_qn(&m_name);
        let first = Component::Module(mc);
        proof {
            assert(first@ == ComponentV::Module(ModuleV { name: m_name.deep_view(), ..m@ }));
            lemma_components_push(flat@, first);
        }
        flat.push(first);
        push_alias_nodes(&mut flat, &m_name, &m.type_aliases);
        push_st_list_nodes(&mut flat, &m_name, &m.structured_types);
        push_function_nodes(&mut flat, &m_name, &m.free_functions);
        push_field_nodes(&mut flat, &m_name, &m.free_variables);
        push_impl_nodes(&mut flat, &m.impl_blocks);
        let mut sub = flatten_modules(&m.sub_modules, &m_name);
        let ghost sv = sub@;
        proof {
            lemma_components_append(flat@, sv);
        }
        flat.append(&mut sub);
        proof {
            assert(modules@.take(mi + 1).drop_last() =~= modules@.take(mi as int));
            assert(components_view(flat@) =~= before + module_nodes(prefix.deep_view(), *m));
        }
        mi += 1;
    }
    assert(modules@.take(mi as int) =~= modules@);
    flat
}

/// The edges of the top-level modules `ms`, one module after another.
pub open spec fn all_module_edges(ms: Seq<Module>) -> Seq<DependencyV>
    decreases ms.len(),
{
    if ms.len() == 0 {
        Seq::empty()
    } else {
        all_module_edges(ms.drop_last()) + module_edges(ms.last(), None, Seq::empty())
    }
}

/// The edges of all the modules, in traversal order.
fn module_graph_edges(modules: &Vec<Module>) -> (r: Vec<Dependency>)
    ensures
        dep_views(r@) == all_module_edges(modules@),
{
    let empty: Vec<String> = Vec::new();
    assert(empty.deep_view() =~= Seq::<Seq<char>>::empty());
    let mut edges: Vec<Dependency> = Vec::new();
    let mut i: usize = 0;
    assert(dep_views(edges@) =~= all_module_edges(modules@.take(0)));
    while i < modules.len()
        invariant
            i <= modules@.len(),
            empty.deep_view() == Seq::<Seq<char>>::empty(),
            dep_views(edges@) == all_module_edges(modules@.take(i as int)),
        decreases modules.len() - i,
    {
        traverse_module_for_edges(&modules[i], None, &empty, &mut edges);
        assert(modules@.take(i + 1).drop_last() =~= modules@.take(i as int));
        i += 1;
    }
    assert(modules@.take(i as int) =~= modules@);
    edges
}

/// The dependency graph of resolved modules. Its edges are those of the modules, sorted (by
/// source, target, kind) with no edge twice; every edge's target is the name of a node (a node of the code, or one
/// added for the primitive or external target).
pub fn build_dependency_graph(modules: &Vec<Module>, primitives: &PrimitiveRegistry) -> (r: DependencyGraph)
    requires
        primitives.wf(),
    ensures
        strictly_sorted(dep_views(r.edges@)),
        dep_views(r.edges@).no_duplicates(),
        dep_views(r.edges@).to_set() == all_module_edges(modules@).to_set(),
        targets_are_nodes(r.nodes@, r.edges@),
        modules_nodes(Seq::empty(), modules@).len() <= r.nodes@.len(),
        components_view(r.nodes@.take(modules_nodes(Seq::empty(), modules@).len() as int)) == modules_nodes(
            Seq::empty(),
            modules@,
        ),
        synthetic_ok(r.nodes@, modules_nodes(Seq::empty(), modules@).len() as int, r.edges@, primitives.names()),
{
    let empty: Vec<String> = Vec::new();
    let mut nodes = flatten_modules(modules, &empty);
    assert(empty.deep_view() =~= Seq::<Seq<char>>::empty());
    let edges = module_graph_edges(modules);
    let ghost flat = nodes@;
    let ghost n = flat.len() as int;
    add_synthetic_nodes(&mut nodes, &edges, primitives);
    let sorted = sort_dedup_edges(&edges);
    proof {
        assert(components_view(flat).len() == flat.len());
        assert(nodes@.take(n) =~= flat);
        assert forall|p: Seq<Seq<char>>| is_edge_target(edges@, p) implies is_edge_target(sorted@, p) by {
            let k = choose|k: int| 0 <= k < edges@.len() && (#[trigger] edges@[k]).to.deep_view() == p;
            let d = dep_views(edges@)[k];
            assert(dep_views(edges@).to_set().contains(d));
            assert(dep_views(sorted@).to_set().contains(d));
            let e = choose|e: int| 0 <= e < dep_views(sorted@).len() && dep_views(sorted@)[e] == d;
            assert(sorted@[e].to.deep_view() == p);
        }
        assert forall|j: int|
            n <= j < nodes@.len() implies {
                &&& !is_code_node(#[trigger] nodes@[j])
                &&& is_edge_target(sorted@, node_name(nodes@[j]))
                &&& nodes@[j] is Primitive ==> primitive_target(node_name(nodes@[j]), primitives.names())
                &&& nodes@[j] is External ==> !primitive_target(node_name(nodes@[j]), primitives.names()) && !code_names(
                    nodes@.take(n),
                ).contains(node_name(nodes@[j]))
            } by {
            assert(is_edge_target(edges@, node_name(nodes@[j])));
        }
        assert forall|k: int| 0 <= k < sorted@.len() implies has_node_named(nodes@, (#[trigger] sorted@[k]).to.deep_view()) by {
            let d = dep_views(sorted@)[k];
            assert(dep_views(sorted@).to_set().contains(d));
            assert(dep_views(edges@).to_set().contains(d));
            let e = choose|e: int| 0 <= e < dep_views(edges@).len() && dep_views(edges@)[e] == d;
            assert(edges@[e].to.deep_view() == sorted@[k].to.deep_view());
            assert(has_node_named(nodes@, edges@[e].to.deep_view()));
        }
    }
    DependencyGraph { nodes, edges: sorted }
}

} // verus!
