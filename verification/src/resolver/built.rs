//! What query building does to the type references of the modules: every non-empty
//! unresolved path becomes a resolution query, and every other reference stays as it was.
use crate::model::components::{Block, Function, ImplBlock, Module, StructuredType};
use crate::model::queries::{TypeRef, TypeRefV};
use vstd::prelude::*;

verus! {

/// A reference after query building: a non-empty unresolved path has become a query, any
/// other reference is unchanged.
pub open spec fn built_ref(a: TypeRefV, b: TypeRefV) -> bool {
    match a {
        TypeRefV::Unresolved(qn) => if qn.len() > 0 {
            b is ResolutionQuery
        } else {
            b == a
        },
        _ => b == a,
    }
}

/// A list of references after query building, element by element.
pub open spec fn built_refs(a: Seq<TypeRef>, b: Seq<TypeRef>) -> bool {
    a.len() == b.len() && forall|i: int| 0 <= i < a.len() ==> #[trigger] built_ref(a[i]@, b[i]@)
}

/// A block after query building: its declarations' types, calls, instantiations and accesses,
/// and those of its sub-blocks.
pub open spec fn built_block(a: Block, b: Block) -> bool
    decreases a, 0nat,
{
    &&& a.declarations@.len() == b.declarations@.len()
    &&& forall|i: int|
        0 <= i < a.declarations@.len() ==> #[trigger] built_ref(a.declarations@[i].ty@, b.declarations@[i].ty@)
    &&& built_refs(a.calls@, b.calls@)
    &&& built_refs(a.instantiates@, b.instantiates@)
    &&& built_refs(a.accesses@, b.accesses@)
    &&& built_blocks(a.sub_blocks@, b.sub_blocks@)
}

pub open spec fn built_blocks(a: Seq<Block>, b: Seq<Block>) -> bool
    decreases a, 1nat,
{
    a.len() == b.len() && (a.len() > 0 ==> built_block(a[0], b[0]) && built_blocks(a.drop_first(), b.drop_first()))
}

pub proof fn lemma_built_blocks(a: Seq<Block>, b: Seq<Block>)
    requires
        a.len() == b.len(),
        forall|i: int| 0 <= i < a.len() ==> #[trigger] built_block(a[i], b[i]),
    ensures
        built_blocks(a, b),
    decreases a.len(),
{
    if a.len() > 0 {
        assert forall|i: int| 0 <= i < a.drop_first().len() implies #[trigger] built_block(
            a.drop_first()[i],
            b.drop_first()[i],
        ) by {
            assert(built_block(a[i + 1], b[i + 1]));
        }
        lemma_built_blocks(a.drop_first(), b.drop_first());
        assert(built_block(a[0], b[0]));
    }
}

/// A function after query building: its parameter types, its return type and its body.
pub open spec fn built_function(a: Function, b: Function) -> bool {
    &&& a.signature.parameters@.len() == b.signature.parameters@.len()
    &&& forall|i: int|
        0 <= i < a.signature.parameters@.len() ==> #[trigger] built_ref(
            a.signature.parameters@[i].ty@,
            b.signature.parameters@[i].ty@,
        )
    &&& built_ref(a.signature.return_type@, b.signature.return_type@)
    &&& match (a.body, b.body) {
        (Some(x), Some(y)) => built_block(x, y),
        (None, None) => true,
        _ => false,
    }
}

pub open spec fn built_functions(a: Seq<Function>, b: Seq<Function>) -> bool {
    a.len() == b.len() && forall|i: int| 0 <= i < a.len() ==> #[trigger] built_function(a[i], b[i])
}

/// A structured type after query building: its super types, field types, methods and nested
/// types.
pub open spec fn built_structured_type(a: StructuredType, b: StructuredType) -> bool
    decreases a, 0nat,
{
    &&& built_refs(a.super_types@, b.super_types@)
    &&& a.fields@.len() == b.fields@.len()
    &&& forall|i: int| 0 <= i < a.fields@.len() ==> #[trigger] built_ref(a.fields@[i].ty@, b.fields@[i].ty@)
    &&& built_functions(a.methods@, b.methods@)
    &&& built_structured_types(a.nested_types@, b.nested_types@)
}

pub open spec fn built_structured_types(a: Seq<StructuredType>, b: Seq<StructuredType>) -> bool
    decreases a, 1nat,
{
    a.len() == b.len() && (a.len() > 0 ==> built_structured_type(a[0], b[0]) && built_structured_types(
        a.drop_first(),
        b.drop_first(),
    ))
}

pub proof fn lemma_built_structured_types(a: Seq<StructuredType>, b: Seq<StructuredType>)
    requires
        a.len() == b.len(),
        forall|i: int| 0 <= i < a.len() ==> #[trigger] built_structured_type(a[i], b[i]),
    ensures
        built_structured_types(a, b),
    decreases a.len(),
{
    if a.len() > 0 {
        assert forall|i: int| 0 <= i < a.drop_first().len() implies #[trigger] built_structured_type(
            a.drop_first()[i],
            b.drop_first()[i],
        ) by {
            assert(built_structured_type(a[i + 1], b[i + 1]));
        }
        lemma_built_structured_types(a.drop_first(), b.drop_first());
        assert(built_structured_type(a[0], b[0]));
    }
}

/// An impl block after query building: the type it is for, its trait, methods and nested
/// types.
pub open spec fn built_impl_block(a: ImplBlock, b: ImplBlock) -> bool {
    &&& built_ref(a.impl_for@, b.impl_for@)
    &&& match (a.implements_trait, b.implements_trait) {
        (Some(x), Some(y)) => built_ref(x@, y@),
        (None, None) => true,
        _ => false,
    }
    &&& built_functions(a.methods@, b.methods@)
    &&& built_structured_types(a.nested_types@, b.nested_types@)
}

/// A module after query building: its types, free functions, impl blocks and submodules.
pub open spec fn built_module(a: Module, b: Module) -> bool
    decreases a, 0nat,
{
    &&& built_structured_types(a.structured_types@, b.structured_types@)
    &&& built_functions(a.free_functions@, b.free_functions@)
    &&& a.impl_blocks@.len() == b.impl_blocks@.len()
    &&& forall|i: int| 0 <= i < a.impl_blocks@.len() ==> #[trigger] built_impl_block(a.impl_blocks@[i], b.impl_blocks@[i])
    &&& built_modules(a.sub_modules@, b.sub_modules@)
}

pub open spec fn built_modules(a: Seq<Module>, b: Seq<Module>) -> bool
    decreases a, 1nat,
{
    a.len() == b.len() && (a.len() > 0 ==> built_module(a[0], b[0]) && built_modules(a.drop_first(), b.drop_first()))
}

pub proof fn lemma_built_modules(a: Seq<Module>, b: Seq<Module>)
    requires
        a.len() == b.len(),
        forall|i: int| 0 <= i < a.len() ==> #[trigger] built_module(a[i], b[i]),
    ensures
        built_modules(a, b),
    decreases a.len(),
{
    if a.len() > 0 {
        assert forall|i: int| 0 <= i < a.drop_first().len() implies #[trigger] built_module(
            a.drop_first()[i],
            b.drop_first()[i],
        ) by {
            assert(built_module(a[i + 1], b[i + 1]));
        }
        lemma_built_modules(a.drop_first(), b.drop_first());
        assert(built_module(a[0], b[0]));
    }
}

/// What lexical substitution gives of a reference is a built one.
pub proof fn lemma_substituted_built(frames: Seq<crate::resolver::stack::StackFrame>, t: TypeRef, a: TypeRefV)
    requires
        t@ == a,
    ensures
        built_ref(a, crate::resolver::builder::substituted(frames, t, false)@),
{
    match t {
        TypeRef::Unresolved(qn) => {
            assert(qn.deep_view().len() == qn@.len());
        },
        _ => {},
    }
}

} // verus!
