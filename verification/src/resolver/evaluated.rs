//! What query evaluation does to the declared types of the modules: each is evaluated as
//! `eval_shape` says, so that every reference but a query, a non-empty unresolved path and the
//! parts of unions, generics and type variables stays as it was.
use crate::model::components::{Field, Function, ImplBlock, Module, StructuredType};
use crate::model::queries::TypeRef;
use crate::resolver::executor::eval_shape;
use vstd::prelude::*;

verus! {

/// The types of a list of fields after evaluation, element by element.
pub open spec fn evaluated_fields(a: Seq<Field>, b: Seq<Field>) -> bool {
    a.len() == b.len() && forall|i: int| 0 <= i < a.len() ==> #[trigger] eval_shape(a[i].ty@, b[i].ty@)
}

/// A list of references after evaluation, element by element.
pub open spec fn evaluated_refs(a: Seq<TypeRef>, b: Seq<TypeRef>) -> bool {
    a.len() == b.len() && forall|i: int| 0 <= i < a.len() ==> #[trigger] eval_shape(a[i]@, b[i]@)
}

/// A function after evaluation: its parameter types and its return type.
pub open spec fn evaluated_function(a: Function, b: Function) -> bool {
    &&& a.signature.parameters@.len() == b.signature.parameters@.len()
    &&& forall|i: int|
        0 <= i < a.signature.parameters@.len() ==> #[trigger] eval_shape(
            a.signature.parameters@[i].ty@,
            b.signature.parameters@[i].ty@,
        )
    &&& eval_shape(a.signature.return_type@, b.signature.return_type@)
}

pub open spec fn evaluated_functions(a: Seq<Function>, b: Seq<Function>) -> bool {
    a.len() == b.len() && forall|i: int| 0 <= i < a.len() ==> #[trigger] evaluated_function(a[i], b[i])
}

/// A structured type after evaluation: its super types, field types, methods and nested types.
pub open spec fn evaluated_structured_type(a: StructuredType, b: StructuredType) -> bool
    decreases a, 0nat,
{
    &&& evaluated_refs(a.super_types@, b.super_types@)
    &&& evaluated_fields(a.fields@, b.fields@)
    &&& evaluated_functions(a.methods@, b.methods@)
    &&& evaluated_structured_types(a.nested_types@, b.nested_types@)
}

pub open spec fn evaluated_structured_types(a: Seq<StructuredType>, b: Seq<StructuredType>) -> bool
    decreases a, 1nat,
{
    a.len() == b.len() && (a.len() > 0 ==> evaluated_structured_type(a[0], b[0]) && evaluated_structured_types(
        a.drop_first(),
        b.drop_first(),
    ))
}

pub proof fn lemma_evaluated_structured_types(a: Seq<StructuredType>, b: Seq<StructuredType>)
    requires
        a.len() == b.len(),
        forall|i: int| 0 <= i < a.len() ==> #[trigger] evaluated_structured_type(a[i], b[i]),
    ensures
        evaluated_structured_types(a, b),
    decreases a.len(),
{
    if a.len() > 0 {
        assert forall|i: int| 0 <= i < a.drop_first().len() implies #[trigger] evaluated_structured_type(
            a.drop_first()[i],
            b.drop_first()[i],
        ) by {
            assert(evaluated_structured_type(a[i + 1], b[i + 1]));
        }
        lemma_evaluated_structured_types(a.drop_first(), b.drop_first());
        assert(evaluated_structured_type(a[0], b[0]));
    }
}

/// An impl block after evaluation: the type it is for, its trait, methods and nested types.
pub open spec fn evaluated_impl_block(a: ImplBlock, b: ImplBlock) -> bool {
    &&& eval_shape(a.impl_for@, b.impl_for@)
    &&& match (a.implements_trait, b.implements_trait) {
        (Some(x), Some(y)) => eval_shape(x@, y@),
        (None, None) => true,
        _ => false,
    }
    &&& evaluated_functions(a.methods@, b.methods@)
    &&& evaluated_structured_types(a.nested_types@, b.nested_types@)
}

/// A module after evaluation: its free variables' types, types, free functions, impl blocks
/// and submodules.
pub open spec fn evaluated_module(a: Module, b: Module) -> bool
    decreases a, 0nat,
{
    &&& evaluated_fields(a.free_variables@, b.free_variables@)
    &&& evaluated_structured_types(a.structured_types@, b.structured_types@)
    &&& evaluated_functions(a.free_functions@, b.free_functions@)
    &&& a.impl_blocks@.len() == b.impl_blocks@.len()
    &&& forall|i: int| 0 <= i < a.impl_blocks@.len() ==> #[trigger] evaluated_impl_block(a.impl_blocks@[i], b.impl_blocks@[i])
    &&& evaluated_modules(a.sub_modules@, b.sub_modules@)
}

pub open spec fn evaluated_modules(a: Seq<Module>, b: Seq<Module>) -> bool
    decreases a, 1nat,
{
    a.len() == b.len() && (a.len() > 0 ==> evaluated_module(a[0], b[0]) && evaluated_modules(a.drop_first(), b.drop_first()))
}

pub proof fn lemma_evaluated_modules(a: Seq<Module>, b: Seq<Module>)
    requires
        a.len() == b.len(),
        forall|i: int| 0 <= i < a.len() ==> #[trigger] evaluated_module(a[i], b[i]),
    ensures
        evaluated_modules(a, b),
    decreases a.len(),
{
    if a.len() > 0 {
        assert forall|i: int| 0 <= i < a.drop_first().len() implies #[trigger] evaluated_module(
            a.drop_first()[i],
            b.drop_first()[i],
        ) by {
            assert(evaluated_module(a[i + 1], b[i + 1]));
        }
        lemma_evaluated_modules(a.drop_first(), b.drop_first());
        assert(evaluated_module(a[0], b[0]));
    }
}

} // verus!
