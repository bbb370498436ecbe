//! Counts over resolved modules: distinct modules, structured types, free functions, and the
//! references that resolved or failed.
use crate::model::components::{Block, Field, Function, Module, Parameter, StructuredType, TypeParameter};
use crate::model::graph::AnalysisSummary;
use crate::model::queries::TypeRef;
use crate::text_util::str_eq;
use vstd::prelude::*;

verus! {

/// The sum of two pairs of counts.
pub open spec fn plus(a: (nat, nat), b: (nat, nat)) -> (nat, nat) {
    (a.0 + b.0, a.1 + b.1)
}

/// Each count of `a` at most that of `b`.
pub open spec fn le(a: (nat, nat), b: (nat, nat)) -> bool {
    a.0 <= b.0 && a.1 <= b.1
}

/// The resolved and failed references within a reference: a resolved or external path counts
/// as resolved, a failed or unresolved one as failed; unions, generics and type variables count
/// their parts; anything else counts nothing.
pub open spec fn tally(t: TypeRef) -> (nat, nat)
    decreases t, 0nat,
{
    match t {
        TypeRef::Resolved(_) => (1, 0),
        TypeRef::External(_) => (1, 0),
        TypeRef::Failed(_) => (0, 1),
        TypeRef::Unresolved(_) => (0, 1),
        TypeRef::Union(vs) => tally_seq(vs@),
        TypeRef::Generic { base, args } => plus(tally(*base), tally_seq(args@)),
        TypeRef::TypeVar { bounds, .. } => tally_seq(bounds@),
        _ => (0, 0),
    }
}

/// The references of a list, counted.
pub open spec fn tally_seq(s: Seq<TypeRef>) -> (nat, nat)
    decreases s, 1nat,
{
    if s.len() == 0 {
        (0, 0)
    } else {
        plus(tally_seq(s.drop_last()), tally(s.last()))
    }
}

pub proof fn lemma_tally_seq_prefix(s: Seq<TypeRef>, i: int)
    requires
        0 <= i <= s.len(),
    ensures
        le(tally_seq(s.take(i)), tally_seq(s)),
        i < s.len() ==> tally_seq(s.take(i + 1)) == plus(tally_seq(s.take(i)), tally(s[i])),
    decreases s.len(),
{
    if i < s.len() {
        assert(s.take(i + 1).drop_last() =~= s.take(i));
        lemma_tally_seq_prefix(s.drop_last(), i);
        assert(s.drop_last().take(i) =~= s.take(i));
    } else {
        assert(s.take(i) =~= s);
    }
}

pub open spec fn field_type_tally(f: Field) -> (nat, nat) {
    tally(f.ty)
}

pub open spec fn param_type_tally(p: Parameter) -> (nat, nat) {
    tally(p.ty)
}

pub open spec fn bounds_tally(tp: TypeParameter) -> (nat, nat) {
    tally_seq(tp.bounds@)
}

/// The types of the fields, counted.
pub open spec fn fields_tally(s: Seq<Field>) -> (nat, nat)
    decreases s.len(),
{
    if s.len() == 0 {
        (0, 0)
    } else {
        plus(fields_tally(s.drop_last()), field_type_tally(s.last()))
    }
}

pub proof fn lemma_fields_tally_prefix(s: Seq<Field>, i: int)
    requires
        0 <= i <= s.len(),
    ensures
        le(fields_tally(s.take(i)), fields_tally(s)),
        i < s.len() ==> fields_tally(s.take(i + 1)) == plus(fields_tally(s.take(i)), field_type_tally(s[i])),
    decreases s.len(),
{
    if i < s.len() {
        assert(s.take(i + 1).drop_last() =~= s.take(i));
        lemma_fields_tally_prefix(s.drop_last(), i);
        assert(s.drop_last().take(i) =~= s.take(i));
    } else {
        assert(s.take(i) =~= s);
    }
}

/// The types of the parameters, counted.
pub open spec fn params_tally(s: Seq<Parameter>) -> (nat, nat)
    decreases s.len(),
{
    if s.len() == 0 {
        (0, 0)
    } else {
        plus(params_tally(s.drop_last()), param_type_tally(s.last()))
    }
}

pub proof fn lemma_params_tally_prefix(s: Seq<Parameter>, i: int)
    requires
        0 <= i <= s.len(),
    ensures
        le(params_tally(s.take(i)), params_tally(s)),
        i < s.len() ==> params_tally(s.take(i + 1)) == plus(params_tally(s.take(i)), param_type_tally(s[i])),
    decreases s.len(),
{
    if i < s.len() {
        assert(s.take(i + 1).drop_last() =~= s.take(i));
        lemma_params_tally_prefix(s.drop_last(), i);
        assert(s.drop_last().take(i) =~= s.take(i));
    } else {
        assert(s.take(i) =~= s);
    }
}

/// The bounds of the type parameters, counted.
pub open spec fn type_params_tally(s: Seq<TypeParameter>) -> (nat, nat)
    decreases s.len(),
{
    if s.len() == 0 {
        (0, 0)
    } else {
        plus(type_params_tally(s.drop_last()), bounds_tally(s.last()))
    }
}

pub proof fn lemma_type_params_tally_prefix(s: Seq<TypeParameter>, i: int)
    requires
        0 <= i <= s.len(),
    ensures
        le(type_params_tally(s.take(i)), type_params_tally(s)),
        i < s.len() ==> type_params_tally(s.take(i + 1)) == plus(type_params_tally(s.take(i)), bounds_tally(s[i])),
    decreases s.len(),
{
    if i < s.len() {
        assert(s.take(i + 1).drop_last() =~= s.take(i));
        lemma_type_params_tally_prefix(s.drop_last(), i);
        assert(s.drop_last().take(i) =~= s.take(i));
    } else {
        assert(s.take(i) =~= s);
    }
}

/// The references a block counts: its declarations' types, calls and instantiations, and
/// those of its sub-blocks.
pub open spec fn block_tally(b: Block) -> (nat, nat)
    decreases b, 0nat,
{
    plus(
        plus(plus(fields_tally(b.declarations@), tally_seq(b.calls@)), tally_seq(b.instantiates@)),
        blocks_tally(b.sub_blocks@),
    )
}

pub open spec fn blocks_tally(s: Seq<Block>) -> (nat, nat)
    decreases s, 1nat,
{
    if s.len() == 0 {
        (0, 0)
    } else {
        plus(blocks_tally(s.drop_last()), block_tally(s.last()))
    }
}

pub proof fn lemma_blocks_tally_prefix(s: Seq<Block>, i: int)
    requires
        0 <= i <= s.len(),
    ensures
        le(blocks_tally(s.take(i)), blocks_tally(s)),
        i < s.len() ==> blocks_tally(s.take(i + 1)) == plus(blocks_tally(s.take(i)), block_tally(s[i])),
    decreases s.len(),
{
    if i < s.len() {
        assert(s.take(i + 1).drop_last() =~= s.take(i));
        lemma_blocks_tally_prefix(s.drop_last(), i);
        assert(s.drop_last().take(i) =~= s.take(i));
    } else {
        assert(s.take(i) =~= s);
    }
}

/// The references a function counts: its type parameters' bounds, parameter types, return type
/// and body.
pub open spec fn function_tally(f: Function) -> (nat, nat) {
    plus(
        plus(
            plus(type_params_tally(f.type_parameters@), params_tally(f.signature.parameters@)),
            tally(f.signature.return_type),
        ),
        match f.body {
            Some(b) => block_tally(b),
            None => (0, 0),
        },
    )
}

pub open spec fn functions_tally(s: Seq<Function>) -> (nat, nat)
    decreases s.len(),
{
    if s.len() == 0 {
        (0, 0)
    } else {
        plus(functions_tally(s.drop_last()), function_tally(s.last()))
    }
}

pub proof fn lemma_functions_tally_prefix(s: Seq<Function>, i: int)
    requires
        0 <= i <= s.len(),
    ensures
        le(functions_tally(s.take(i)), functions_tally(s)),
        i < s.len() ==> functions_tally(s.take(i + 1)) == plus(functions_tally(s.take(i)), function_tally(s[i])),
    decreases s.len(),
{
    if i < s.len() {
        assert(s.take(i + 1).drop_last() =~= s.take(i));
        lemma_functions_tally_prefix(s.drop_last(), i);
        assert(s.drop_last().take(i) =~= s.take(i));
    } else {
        assert(s.take(i) =~= s);
    }
}

/// The references a structured type counts: its type parameters' bounds, super types, field
/// types, methods and nested types.
pub open spec fn structured_type_tally(st: StructuredType) -> (nat, nat)
    decreases st, 0nat,
{
    plus(
        plus(
            plus(
                plus(type_params_tally(st.type_parameters@), tally_seq(st.super_types@)),
                fields_tally(st.fields@),
            ),
            functions_tally(st.methods@),
        ),
        structured_types_tally(st.nested_types@),
    )
}

pub open spec fn structured_types_tally(s: Seq<StructuredType>) -> (nat, nat)
    decreases s, 1nat,
{
    if s.len() == 0 {
        (0, 0)
    } else {
        plus(structured_types_tally(s.drop_last()), structured_type_tally(s.last()))
    }
}

pub proof fn lemma_structured_types_tally_prefix(s: Seq<StructuredType>, i: int)
    requires
        0 <= i <= s.len(),
    ensures
        le(structured_types_tally(s.take(i)), structured_types_tally(s)),
        i < s.len() ==> structured_types_tally(s.take(i + 1)) == plus(structured_types_tally(s.take(i)), structured_type_tally(s[i])),
    decreases s.len(),
{
    if i < s.len() {
        assert(s.take(i + 1).drop_last() =~= s.take(i));
        lemma_structured_types_tally_prefix(s.drop_last(), i);
        assert(s.drop_last().take(i) =~= s.take(i));
    } else {
        assert(s.take(i) =~= s);
    }
}

/// The number of types nested in a structured type, at any depth.
pub open spec fn nested_count(st: StructuredType) -> nat
    decreases st, 0nat,
{
    st.nested_types@.len() + nested_counts(st.nested_types@)
}

pub open spec fn nested_counts(s: Seq<StructuredType>) -> nat
    decreases s, 1nat,
{
    if s.len() == 0 {
        0
    } else {
        nested_counts(s.drop_last()) + nested_count(s.last())
    }
}

pub proof fn lemma_nested_counts_prefix(s: Seq<StructuredType>, i: int)
    requires
        0 <= i <= s.len(),
    ensures
        nested_counts(s.take(i)) <= nested_counts(s),
        i < s.len() ==> nested_counts(s.take(i + 1)) == nested_counts(s.take(i)) + nested_count(s[i]),
    decreases s.len(),
{
    if i < s.len() {
        assert(s.take(i + 1).drop_last() =~= s.take(i));
        lemma_nested_counts_prefix(s.drop_last(), i);
        assert(s.drop_last().take(i) =~= s.take(i));
    } else {
        assert(s.take(i) =~= s);
    }
}

/// Adds the references of one reference to the counts.
fn tally_ref(tr: &TypeRef, resolved: &mut usize, failed: &mut usize)
    requires
        *old(resolved) + tally(*tr).0 <= usize::MAX,
        *old(failed) + tally(*tr).1 <= usize::MAX,
    ensures
        *final(resolved) == *old(resolved) + tally(*tr).0,
        *final(failed) == *old(failed) + tally(*tr).1,
    decreases tr,
{
    match tr {
        TypeRef::Resolved(_) | TypeRef::External(_) => {
            *resolved += 1;
        },
        TypeRef::Failed(_) | TypeRef::Unresolved(_) => {
            *failed += 1;
        },
        TypeRef::Union(variants) => tally_refs(variants, resolved, failed),
        TypeRef::Generic { base, args } => {
            tally_ref(base, resolved, failed);
            tally_refs(args, resolved, failed);
        },
        TypeRef::TypeVar { bounds, .. } => tally_refs(bounds, resolved, failed),
        _ => {},
    }
}

fn tally_refs(v: &Vec<TypeRef>, resolved: &mut usize, failed: &mut usize)
    requires
        *old(resolved) + tally_seq(v@).0 <= usize::MAX,
        *old(failed) + tally_seq(v@).1 <= usize::MAX,
    ensures
        *final(resolved) == *old(resolved) + tally_seq(v@).0,
        *final(failed) == *old(failed) + tally_seq(v@).1,
    decreases v,
{
    let ghost r0 = *resolved;
    let ghost f0 = *failed;
    let mut i: usize = 0;
    while i < v.len()
        invariant
            i <= v@.len(),
            r0 + tally_seq(v@).0 <= usize::MAX,
            f0 + tally_seq(v@).1 <= usize::MAX,
            *resolved == r0 + tally_seq(v@.take(i as int)).0,
            *failed == f0 + tally_seq(v@.take(i as int)).1,
        decreases v.len() - i,
    {
        proof {
            lemma_tally_seq_prefix(v@, i as int);
            lemma_tally_seq_prefix(v@, i + 1);
        }
        tally_ref(&v[i], resolved, failed);
        i += 1;
    }
    assert(v@.take(v@.len() as int) =~= v@);
}

fn count_refs_in_block(block: &Block, resolved: &mut usize, failed: &mut usize)
    requires
        *old(resolved) + block_tally(*block).0 <= usize::MAX,
        *old(failed) + block_tally(*block).1 <= usize::MAX,
    ensures
        *final(resolved) == *old(resolved) + block_tally(*block).0,
        *final(failed) == *old(failed) + block_tally(*block).1,
    decreases block,
{
    let ghost r0 = *resolved;
    let ghost f0 = *failed;
    let ghost total = block_tally(*block);
    let decls = &block.declarations;
    let mut i: usize = 0;
    while i < decls.len()
        invariant
            i <= decls@.len(),
            r0 + total.0 <= usize::MAX,
            f0 + total.1 <= usize::MAX,
            total == block_tally(*block),
            decls@ == block.declarations@,
            *resolved == r0 + fields_tally(decls@.take(i as int)).0,
            *failed == f0 + fields_tally(decls@.take(i as int)).1,
        decreases decls.len() - i,
    {
        proof {
            lemma_fields_tally_prefix(decls@, i as int);
            lemma_fields_tally_prefix(decls@, i + 1);
        }
        tally_ref(&decls[i].ty, resolved, failed);
        i += 1;
    }
    assert(decls@.take(decls@.len() as int) =~= decls@);
    tally_refs(&block.calls, resolved, failed);
    tally_refs(&block.instantiates, resolved, failed);
    let subs = &block.sub_blocks;
    let ghost r1 = *resolved;
    let ghost f1 = *failed;
    let mut i: usize = 0;
    while i < subs.len()
        invariant
            i <= subs@.len(),
            subs@ == block.sub_blocks@,
            r1 + blocks_tally(subs@).0 <= usize::MAX,
            f1 + blocks_tally(subs@).1 <= usize::MAX,
            *resolved == r1 + blocks_tally(subs@.take(i as int)).0,
            *failed == f1 + blocks_tally(subs@.take(i as int)).1,
        decreases subs.len() - i,
    {
        proof {
            lemma_blocks_tally_prefix(subs@, i as int);
            lemma_blocks_tally_prefix(subs@, i + 1);
        }
        count_refs_in_block(&subs[i], resolved, failed);
        i += 1;
    }
    assert(subs@.take(subs@.len() as int) =~= subs@);
}

fn count_refs_in_type_params(v: &Vec<TypeParameter>, resolved: &mut usize, failed: &mut usize)
    requires
        *old(resolved) + type_params_tally(v@).0 <= usize::MAX,
        *old(failed) + type_params_tally(v@).1 <= usize::MAX,
    ensures
        *final(resolved) == *old(resolved) + type_params_tally(v@).0,
        *final(failed) == *old(failed) + type_params_tally(v@).1,
{
    let ghost r0 = *resolved;
    let ghost f0 = *failed;
    let mut i: usize = 0;
    while i < v.len()
        invariant
            i <= v@.len(),
            r0 + type_params_tally(v@).0 <= usize::MAX,
            f0 + type_params_tally(v@).1 <= usize::MAX,
            *resolved == r0 + type_params_tally(v@.take(i as int)).0,
            *failed == f0 + type_params_tally(v@.take(i as int)).1,
        decreases v.len() - i,
    {
        proof {
            lemma_type_params_tally_prefix(v@, i as int);
            lemma_type_params_tally_prefix(v@, i + 1);
        }
        tally_refs(&v[i].bounds, resolved, failed);
        i += 1;
    }
    assert(v@.take(v@.len() as int) =~= v@);
}

fn count_refs_in_func(f: &Function, resolved: &mut usize, failed: &mut usize)
    requires
        *old(resolved) + function_tally(*f).0 <= usize::MAX,
        *old(failed) + function_tally(*f).1 <= usize::MAX,
    ensures
        *final(resolved) == *old(resolved) + function_tally(*f).0,
        *final(failed) == *old(failed) + function_tally(*f).1,
{
    count_refs_in_type_params(&f.type_parameters, resolved, failed);
    let ghost r0 = *resolved;
    let ghost f0 = *failed;
    let ps = &f.signature.parameters;
    let mut i: usize = 0;
    while i < ps.len()
        invariant
            i <= ps@.len(),
            ps@ == f.signature.parameters@,
            r0 + params_tally(ps@).0 + tally(f.signature.return_type).0 + (match f.body {
                Some(b) => block_tally(b),
                None => (0nat, 0nat),
            }).0 <= usize::MAX,
            f0 + params_tally(ps@).1 + tally(f.signature.return_type).1 + (match f.body {
                Some(b) => block_tally(b),
                None => (0nat, 0nat),
            }).1 <= usize::MAX,
            *resolved == r0 + params_tally(ps@.take(i as int)).0,
            *failed == f0 + params_tally(ps@.take(i as int)).1,
        decreases ps.len() - i,
    {
        proof {
            lemma_params_tally_prefix(ps@, i as int);
            lemma_params_tally_prefix(ps@, i + 1);
        }
        tally_ref(&ps[i].ty, resolved, failed);
        i += 1;
    }
    assert(ps@.take(ps@.len() as int) =~= ps@);
    tally_ref(&f.signature.return_type, resolved, failed);
    match &f.body {
        Some(body) => count_refs_in_block(body, resolved, failed),
        None => {},
    }
}

fn count_refs_in_funcs(v: &Vec<Function>, resolved: &mut usize, failed: &mut usize)
    requires
        *old(resolved) + functions_tally(v@).0 <= usize::MAX,
        *old(failed) + functions_tally(v@).1 <= usize::MAX,
    ensures
        *final(resolved) == *old(resolved) + functions_tally(v@).0,
        *final(failed) == *old(failed) + functions_tally(v@).1,
{
    let ghost r0 = *resolved;
    let ghost f0 = *failed;
    let mut i: usize = 0;
    while i < v.len()
        invariant
            i <= v@.len(),
            r0 + functions_tally(v@).0 <= usize::MAX,
            f0 + functions_tally(v@).1 <= usize::MAX,
            *resolved == r0 + functions_tally(v@.take(i as int)).0,
            *failed == f0 + functions_tally(v@.take(i as int)).1,
        decreases v.len() - i,
    {
        proof {
            lemma_functions_tally_prefix(v@, i as int);
            lemma_functions_tally_prefix(v@, i + 1);
        }
        count_refs_in_func(&v[i], resolved, failed);
        i += 1;
    }
    assert(v@.take(v@.len() as int) =~= v@);
}

fn count_refs_in_st(st: &StructuredType, resolved: &mut usize, failed: &mut usize)
    requires
        *old(resolved) + structured_type_tally(*st).0 <= usize::MAX,
        *old(failed) + structured_type_tally(*st).1 <= usize::MAX,
    ensures
        *final(resolved) == *old(resolved) + structured_type_tally(*st).0,
        *final(failed) == *old(failed) + structured_type_tally(*st).1,
    decreases st,
{
    count_refs_in_type_params(&st.type_parameters, resolved, failed);
    tally_refs(&st.super_types, resolved, failed);
    let ghost r0 = *resolved;
    let ghost f0 = *failed;
    let fs = &st.fields;
    let mut i: usize = 0;
    while i < fs.len()
        invariant
            i <= fs@.len(),
            fs@ == st.fields@,
            r0 + fields_tally(fs@).0 + functions_tally(st.methods@).0 + structured_types_tally(
                st.nested_types@,
            ).0 <= usize::MAX,
            f0 + fields_tally(fs@).1 + functions_tally(st.methods@).1 + structured_types_tally(
                st.nested_types@,
            ).1 <= usize::MAX,
            *resolved == r0 + fields_tally(fs@.take(i as int)).0,
            *failed == f0 + fields_tally(fs@.take(i as int)).1,
        decreases fs.len() - i,
    {
        proof {
            lemma_fields_tally_prefix(fs@, i as int);
            lemma_fields_tally_prefix(fs@, i + 1);
        }
        tally_ref(&fs[i].ty, resolved, failed);
        i += 1;
    }
    assert(fs@.take(fs@.len() as int) =~= fs@);
    count_refs_in_funcs(&st.methods, resolved, failed);
    let ns = &st.nested_types;
    let ghost r1 = *resolved;
    let ghost f1 = *failed;
    let mut i: usize = 0;
    while i < ns.len()
        invariant
            i <= ns@.len(),
            ns@ == st.nested_types@,
            r1 + structured_types_tally(ns@).0 <= usize::MAX,
            f1 + structured_types_tally(ns@).1 <= usize::MAX,
            *resolved == r1 + structured_types_tally(ns@.take(i as int)).0,
            *failed == f1 + structured_types_tally(ns@.take(i as int)).1,
        decreases ns.len() - i,
    {
        proof {
            lemma_structured_types_tally_prefix(ns@, i as int);
            lemma_structured_types_tally_prefix(ns@, i + 1);
        }
        count_refs_in_st(&ns[i], resolved, failed);
        i += 1;
    }
    assert(ns@.take(ns@.len() as int) =~= ns@);
}

/// The number of types nested in a structured type, at any depth.
fn count_nested_types(st: &StructuredType) -> (r: usize)
    requires
        nested_count(*st) <= usize::MAX,
    ensures
        r == nested_count(*st),
    decreases st,
{
    let ns = &st.nested_types;
    let mut count = ns.len();
    let mut i: usize = 0;
    while i < ns.len()
        invariant
            i <= ns@.len(),
            ns@ == st.nested_types@,
            ns@.len() + nested_counts(ns@) <= usize::MAX,
            count == ns@.len() + nested_counts(ns@.take(i as int)),
        decreases ns.len() - i,
    {
        proof {
            lemma_nested_counts_prefix(ns@, i as int);
            lemma_nested_counts_prefix(ns@, i + 1);
        }
        count += count_nested_types(&ns[i]);
        i += 1;
    }
    assert(ns@.take(ns@.len() as int) =~= ns@);
    count
}

/// A module's own segments: its name without `root` segments.
pub open spec fn own_segments(name: Seq<Seq<char>>) -> Seq<Seq<char>>
    decreases name.len(),
{
    if name.len() == 0 {
        Seq::empty()
    } else {
        let r = own_segments(name.drop_last());
        if name.last() == "root"@ {
            r
        } else {
            r.push(name.last())
        }
    }
}

/// The counts a module contributes, with its submodules: structured types (nested ones
/// included), free functions, resolved and failed references.
pub open spec fn module_counts(m: Module) -> (nat, nat, nat, nat)
    decreases m, 0nat,
{
    let subs = modules_counts(m.sub_modules@);
    (
        m.structured_types@.len() + nested_counts(m.structured_types@) + subs.0,
        m.free_functions@.len() + subs.1,
        structured_types_tally(m.structured_types@).0 + functions_tally(m.free_functions@).0 + subs.2,
        structured_types_tally(m.structured_types@).1 + functions_tally(m.free_functions@).1 + subs.3,
    )
}

pub open spec fn modules_counts(s: Seq<Module>) -> (nat, nat, nat, nat)
    decreases s, 1nat,
{
    if s.len() == 0 {
        (0, 0, 0, 0)
    } else {
        let a = modules_counts(s.drop_last());
        let b = module_counts(s.last());
        (a.0 + b.0, a.1 + b.1, a.2 + b.2, a.3 + b.3)
    }
}

pub proof fn lemma_modules_counts_prefix(s: Seq<Module>, i: int)
    requires
        0 <= i <= s.len(),
    ensures
        modules_counts(s.take(i)).0 <= modules_counts(s).0,
        modules_counts(s.take(i)).1 <= modules_counts(s).1,
        modules_counts(s.take(i)).2 <= modules_counts(s).2,
        modules_counts(s.take(i)).3 <= modules_counts(s).3,
        i < s.len() ==> modules_counts(s.take(i + 1)) == ({
            let a = modules_counts(s.take(i));
            let b = module_counts(s[i]);
            (a.0 + b.0, a.1 + b.1, a.2 + b.2, a.3 + b.3)
        }),
    decreases s.len(),
{
    if i < s.len() {
        assert(s.take(i + 1).drop_last() =~= s.take(i));
        lemma_modules_counts_prefix(s.drop_last(), i);
        assert(s.drop_last().take(i) =~= s.take(i));
    } else {
        assert(s.take(i) =~= s);
    }
}

/// The paths of a module and its submodules, each under the path of its parent (empty paths
/// left out).
pub open spec fn module_paths(m: Module, prefix: Seq<Seq<char>>) -> Set<Seq<Seq<char>>>
    decreases m, 0nat,
{
    let p = prefix + own_segments(m.name.deep_view());
    let own = if p.len() > 0 {
        set![p]
    } else {
        Set::empty()
    };
    own.union(modules_paths(m.sub_modules@, p))
}

pub open spec fn modules_paths(s: Seq<Module>, prefix: Seq<Seq<char>>) -> Set<Seq<Seq<char>>>
    decreases s, 1nat,
{
    if s.len() == 0 {
        Set::empty()
    } else {
        modules_paths(s.drop_last(), prefix).union(module_paths(s.last(), prefix))
    }
}

/// The summary of a list of modules: distinct module paths (at least one when there are
/// modules), and the counts of [`module_counts`].
pub open spec fn summary_spec(modules: Seq<Module>, r: AnalysisSummary) -> bool {
    let c = modules_counts(modules);
    let paths = modules_paths(modules, Seq::empty());
    &&& r.total_modules == (if paths.len() == 0 && modules.len() > 0 {
        1
    } else {
        paths.len()
    })
    &&& r.total_structured_types == c.0
    &&& r.total_free_functions == c.1
    &&& r.resolved_refs == c.2
    &&& r.failed_refs == c.3
}

/// The values of a list of paths.
pub open spec fn path_views(v: Seq<Vec<String>>) -> Seq<Seq<Seq<char>>> {
    v.map_values(|p: Vec<String>| p.deep_view())
}

/// Whether a path equal to `p` is in the list.
fn contains_path(v: &Vec<Vec<String>>, p: &Vec<String>) -> (r: bool)
    ensures
        r == path_views(v@).to_set().contains(p.deep_view()),
{
    let mut i: usize = 0;
    while i < v.len()
        invariant
            i <= v@.len(),
            forall|j: int| 0 <= j < i ==> (#[trigger] v@[j]).deep_view() != p.deep_view(),
        decreases v.len() - i,
    {
        if crate::assoc::qn_eq(&v[i], p) {
            assert(path_views(v@)[i as int] == p.deep_view());
            return true;
        }
        i += 1;
    }
    proof {
        if path_views(v@).to_set().contains(p.deep_view()) {
            let j = choose|j: int| 0 <= j < path_views(v@).len() && path_views(v@)[j] == p.deep_view();
            assert(v@[j].deep_view() == p.deep_view());
        }
    }
    false
}

/// Whether a path equal to `p` is in the list.
pub fn contains_path_pub(v: &Vec<Vec<String>>, p: &Vec<String>) -> (r: bool)
    ensures
        r == path_views(v@).to_set().contains(p.deep_view()),
{
    contains_path(v, p)
}

/// Records a path, once.
fn record_path(seen: &mut Vec<Vec<String>>, p: Vec<String>)
    requires
        path_views(old(seen)@).no_duplicates(),
    ensures
        path_views(final(seen)@).no_duplicates(),
        path_views(final(seen)@).to_set() == path_views(old(seen)@).to_set().insert(p.deep_view()),
{
    if !contains_path(seen, &p) {
        let ghost before = path_views(seen@);
        let ghost pv = p.deep_view();
        seen.push(p);
        proof {
            assert(path_views(seen@) =~= before.push(pv));
            assert(path_views(seen@).to_set() =~= before.to_set().insert(pv)) by {
                assert forall|x: Seq<Seq<char>>| #[trigger] path_views(seen@).to_set().contains(x) implies before.to_set().insert(pv).contains(x) by {
                    let j = choose|j: int| 0 <= j < path_views(seen@).len() && path_views(seen@)[j] == x;
                    if j < before.len() {
                        assert(before[j] == x);
                    }
                }
                assert forall|x: Seq<Seq<char>>| before.to_set().insert(pv).contains(x) implies #[trigger] path_views(seen@).to_set().contains(x) by {
                    if x == pv {
                        assert(path_views(seen@)[before.len() as int] == x);
                    } else {
                        let j = choose|j: int| 0 <= j < before.len() && before[j] == x;
                        assert(path_views(seen@)[j] == x);
                    }
                }
            }
        }
    } else {
        assert(path_views(seen@).to_set() =~= path_views(seen@).to_set().insert(p.deep_view()));
    }
}

/// Adds a module's counts (and its submodules') to the summary, and records the paths of the
/// module and its submodules under `prefix`.
fn collect_module_summary(
    m: &Module,
    prefix: &Vec<String>,
    seen: &mut Vec<Vec<String>>,
    s: &mut AnalysisSummary,
)
    requires
        path_views(old(seen)@).no_duplicates(),
        old(s).total_structured_types + module_counts(*m).0 <= usize::MAX,
        old(s).total_free_functions + module_counts(*m).1 <= usize::MAX,
        old(s).resolved_refs + module_counts(*m).2 <= usize::MAX,
        old(s).failed_refs + module_counts(*m).3 <= usize::MAX,
    ensures
        path_views(final(seen)@).no_duplicates(),
        path_views(final(seen)@).to_set() == path_views(old(seen)@).to_set().union(
            module_paths(*m, prefix.deep_view()),
        ),
        final(s).total_modules == old(s).total_modules,
        final(s).total_structured_types == old(s).total_structured_types + module_counts(*m).0,
        final(s).total_free_functions == old(s).total_free_functions + module_counts(*m).1,
        final(s).resolved_refs == old(s).resolved_refs + module_counts(*m).2,
        final(s).failed_refs == old(s).failed_refs + module_counts(*m).3,
    decreases m,
{
    let mut current_path = crate::model::queries::clone_qn(prefix);
    let ghost pre = prefix.deep_view();
    let mut i: usize = 0;
    while i < m.name.len()
        invariant
            i <= m.name@.len(),
            pre == prefix.deep_view(),
            current_path.deep_view() == pre + own_segments(m.name.deep_view().take(i as int)),
        decreases m.name.len() - i,
    {
        let ghost before = current_path.deep_view();
        assert(m.name.deep_view().take(i + 1).drop_last() =~= m.name.deep_view().take(i as int));
        assert(m.name.deep_view().take(i + 1).last() == m.name@[i as int]@);
        if !str_eq(m.name[i].as_str(), "root") {
            current_path.push(m.name[i].clone());
            assert(current_path.deep_view() =~= before.push(m.name@[i as int]@));
        }
        i += 1;
    }
    assert(m.name.deep_view().take(m.name@.len() as int) =~= m.name.deep_view());
    let ghost cp = current_path.deep_view();
    let ghost seen0 = path_views(seen@).to_set();
    if current_path.len() > 0 {
        record_path(seen, crate::model::queries::clone_qn(&current_path));
        assert(seen0.insert(cp) =~= seen0.union(set![cp]));
    } else {
        assert(seen0 =~= seen0.union(Set::<Seq<Seq<char>>>::empty()));
    }
    let ghost seen1 = path_views(seen@).to_set();
    let ghost total = module_counts(*m);
    let sts = &m.structured_types;
    s.total_structured_types = s.total_structured_types + sts.len();
    let ghost s0 = *s;
    proof {
        lemma_nested_counts_prefix(sts@, 0);
        lemma_structured_types_tally_prefix(sts@, 0);
    }
    let mut i: usize = 0;
    while i < sts.len()
        invariant
            i <= sts@.len(),
            sts@ == m.structured_types@,
            total == module_counts(*m),
            s0.total_structured_types + nested_counts(sts@) + modules_counts(m.sub_modules@).0 <= usize::MAX,
            s0.resolved_refs + structured_types_tally(sts@).0 + functions_tally(m.free_functions@).0 + modules_counts(m.sub_modules@).2 <= usize::MAX,
            s0.failed_refs + structured_types_tally(sts@).1 + functions_tally(m.free_functions@).1 + modules_counts(m.sub_modules@).3 <= usize::MAX,
            s.total_modules == s0.total_modules,
            s.total_free_functions == s0.total_free_functions,
            s.total_structured_types == s0.total_structured_types + nested_counts(sts@.take(i as int)),
            s.resolved_refs == s0.resolved_refs + structured_types_tally(sts@.take(i as int)).0,
            s.failed_refs == s0.failed_refs + structured_types_tally(sts@.take(i as int)).1,
        decreases sts.len() - i,
    {
        proof {
            lemma_nested_counts_prefix(sts@, i as int);
            lemma_nested_counts_prefix(sts@, i + 1);
            lemma_structured_types_tally_prefix(sts@, i as int);
            lemma_structured_types_tally_prefix(sts@, i + 1);
            assert(nested_count(sts@[i as int]) <= nested_counts(sts@));
        }
        let n = count_nested_types(&sts[i]);
        s.total_structured_types = s.total_structured_types + n;
        let mut resolved = s.resolved_refs;
        let mut failed = s.failed_refs;
        count_refs_in_st(&sts[i], &mut resolved, &mut failed);
        s.resolved_refs = resolved;
        s.failed_refs = failed;
        i += 1;
    }
    assert(sts@.take(sts@.len() as int) =~= sts@);
    s.total_free_functions = s.total_free_functions + m.free_functions.len();
    let mut resolved = s.resolved_refs;
    let mut failed = s.failed_refs;
    count_refs_in_funcs(&m.free_functions, &mut resolved, &mut failed);
    s.resolved_refs = resolved;
    s.failed_refs = failed;
    let subs = &m.sub_modules;
    let ghost s1 = *s;
    let mut i: usize = 0;
    while i < subs.len()
        invariant
            i <= subs@.len(),
            subs@ == m.sub_modules@,
            cp == current_path.deep_view(),
            s1.total_structured_types + modules_counts(subs@).0 <= usize::MAX,
            s1.total_free_functions + modules_counts(subs@).1 <= usize::MAX,
            s1.resolved_refs + modules_counts(subs@).2 <= usize::MAX,
            s1.failed_refs + modules_counts(subs@).3 <= usize::MAX,
            s.total_modules == s1.total_modules,
            s.total_structured_types == s1.total_structured_types + modules_counts(subs@.take(i as int)).0,
            s.total_free_functions == s1.total_free_functions + modules_counts(subs@.take(i as int)).1,
            s.resolved_refs == s1.resolved_refs + modules_counts(subs@.take(i as int)).2,
            s.failed_refs == s1.failed_refs + modules_counts(subs@.take(i as int)).3,
            path_views(seen@).no_duplicates(),
            path_views(seen@).to_set() == seen1.union(modules_paths(subs@.take(i as int), cp)),
        decreases subs.len() - i,
    {
        proof {
            lemma_modules_counts_prefix(subs@, i as int);
            lemma_modules_counts_prefix(subs@, i + 1);
            assert(subs@.take(i + 1).drop_last() =~= subs@.take(i as int));
            assert(subs@.take(i + 1).last() == subs@[i as int]);
        }
        collect_module_summary(&subs[i], &current_path, seen, s);
        proof {
            assert(seen1.union(modules_paths(subs@.take(i as int), cp)).union(module_paths(subs@[i as int], cp))
                =~= seen1.union(modules_paths(subs@.take(i + 1), cp)));
        }
        i += 1;
    }
    proof {
        assert(subs@.take(subs@.len() as int) =~= subs@);
        let own = if cp.len() > 0 { set![cp] } else { Set::<Seq<Seq<char>>>::empty() };
        assert(module_paths(*m, pre) == own.union(modules_paths(subs@, cp)));
        assert(seen0.union(own).union(modules_paths(subs@, cp)) =~= seen0.union(module_paths(*m, pre)));
    }
}

/// The analysis summary of a list of modules: the number of distinct module paths (counting one
/// when there are modules but no path), of structured types with nested ones, of free
/// functions, and of the references that resolved or failed.
pub fn build_analysis_summary(modules: &Vec<Module>) -> (r: AnalysisSummary)
    requires
        modules_counts(modules@).0 <= usize::MAX,
        modules_counts(modules@).1 <= usize::MAX,
        modules_counts(modules@).2 <= usize::MAX,
        modules_counts(modules@).3 <= usize::MAX,
    ensures
        summary_spec(modules@, r),
{
    let mut s = AnalysisSummary::zero();
    let mut seen: Vec<Vec<String>> = Vec::new();
    let empty: Vec<String> = Vec::new();
    assert(empty.deep_view() =~= Seq::<Seq<char>>::empty());
    assert(path_views(seen@).to_set() =~= Set::<Seq<Seq<char>>>::empty());
    let mut i: usize = 0;
    while i < modules.len()
        invariant
            i <= modules@.len(),
            empty.deep_view() == Seq::<Seq<char>>::empty(),
            modules_counts(modules@).0 <= usize::MAX,
            modules_counts(modules@).1 <= usize::MAX,
            modules_counts(modules@).2 <= usize::MAX,
            modules_counts(modules@).3 <= usize::MAX,
            s.total_modules == 0,
            s.total_structured_types == modules_counts(modules@.take(i as int)).0,
            s.total_free_functions == modules_counts(modules@.take(i as int)).1,
            s.resolved_refs == modules_counts(modules@.take(i as int)).2,
            s.failed_refs == modules_counts(modules@.take(i as int)).3,
            path_views(seen@).no_duplicates(),
            path_views(seen@).to_set() == modules_paths(modules@.take(i as int), Seq::empty()),
        decreases modules.len() - i,
    {
        proof {
            lemma_modules_counts_prefix(modules@, i as int);
            lemma_modules_counts_prefix(modules@, i + 1);
            assert(modules@.take(i + 1).drop_last() =~= modules@.take(i as int));
            assert(modules@.take(i + 1).last() == modules@[i as int]);
        }
        collect_module_summary(&modules[i], &empty, &mut seen, &mut s);
        i += 1;
    }
    assert(modules@.take(modules@.len() as int) =~= modules@);
    proof {
        path_views(seen@).unique_seq_to_set();
    }
    let n = seen.len();
    s.total_modules = if n == 0 && modules.len() > 0 {
        1
    } else {
        n
    };
    s
}

} // verus!
