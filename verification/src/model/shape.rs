//! What the resolution passes keep of the modules: every declaration in its place, with its
//! name and kind; only type references change.
use crate::model::components::{
    imports_view, opt_str_view, Block, Field, Function, ImplBlock, Module, Parameter,
    StructuredType, TypeAlias, TypeParameter,
};
use crate::model::queries::lemma_typerefs_view;
use vstd::prelude::*;

verus! {

/// The same field: its name, and as many annotations.
pub open spec fn same_field(a: Field, b: Field) -> bool {
    a.name@ == b.name@ && a.annotations@.len() == b.annotations@.len()
}

/// The same fields, in order.
pub open spec fn same_fields(a: Seq<Field>, b: Seq<Field>) -> bool {
    a.len() == b.len() && forall|i: int| 0 <= i < a.len() ==> #[trigger] same_field(a[i], b[i])
}

/// The same parameter: its name and whether it is variadic.
pub open spec fn same_param(a: Parameter, b: Parameter) -> bool {
    opt_str_view(a.name) == opt_str_view(b.name) && a.is_variadic == b.is_variadic
}

/// The same type parameter: its name, and as many bounds.
pub open spec fn same_type_param(a: TypeParameter, b: TypeParameter) -> bool {
    a.name@ == b.name@ && a.bounds@.len() == b.bounds@.len()
}

pub open spec fn same_type_params(a: Seq<TypeParameter>, b: Seq<TypeParameter>) -> bool {
    a.len() == b.len() && forall|i: int|
        0 <= i < a.len() ==> #[trigger] same_type_param(a[i], b[i])
}

/// The same type alias name.
pub open spec fn same_alias(a: TypeAlias, b: TypeAlias) -> bool {
    a.name.deep_view() == b.name.deep_view()
}

pub open spec fn same_aliases(a: Seq<TypeAlias>, b: Seq<TypeAlias>) -> bool {
    a.len() == b.len() && forall|i: int| 0 <= i < a.len() ==> #[trigger] same_alias(a[i], b[i])
}

/// The same block: the same declarations, as many instantiations and accesses, as many calls
/// and casts together (a call of a type may become a cast), and the same sub-blocks.
pub open spec fn same_block(a: Block, b: Block) -> bool
    decreases a, 0nat,
{
    &&& same_fields(a.declarations@, b.declarations@)
    &&& a.instantiates@.len() == b.instantiates@.len()
    &&& a.accesses@.len() == b.accesses@.len()
    &&& a.calls@.len() + a.type_casts@.len() == b.calls@.len() + b.type_casts@.len()
    &&& same_blocks(a.sub_blocks@, b.sub_blocks@)
}

/// The same blocks, in order.
pub open spec fn same_blocks(a: Seq<Block>, b: Seq<Block>) -> bool
    decreases a, 1nat,
{
    a.len() == b.len() && (a.len() > 0 ==> same_block(a[0], b[0]) && same_blocks(
        a.drop_first(),
        b.drop_first(),
    ))
}

pub proof fn lemma_same_blocks(a: Seq<Block>, b: Seq<Block>)
    ensures
        same_blocks(a, b) <==> (a.len() == b.len() && forall|i: int|
            0 <= i < a.len() ==> #[trigger] same_block(a[i], b[i])),
    decreases a.len(),
{
    if a.len() > 0 && a.len() == b.len() {
        lemma_same_blocks(a.drop_first(), b.drop_first());
        if forall|i: int| 0 <= i < a.len() ==> #[trigger] same_block(a[i], b[i]) {
            assert forall|i: int| 0 <= i < a.drop_first().len() implies #[trigger] same_block(
                a.drop_first()[i],
                b.drop_first()[i],
            ) by {
                assert(same_block(a[i + 1], b[i + 1]));
            }
            assert(same_blocks(a.drop_first(), b.drop_first()));
            assert(same_block(a[0], b[0]));
            assert(same_blocks(a, b));
        }
        if same_blocks(a, b) {
            assert forall|i: int| 0 <= i < a.len() implies #[trigger] same_block(a[i], b[i]) by {
                if i > 0 {
                    assert(same_block(a.drop_first()[i - 1], b.drop_first()[i - 1]));
                }
            }
        }
    }
}

/// The same function: name, constructor flag, parameters, type parameters, as many
/// annotations, and the same body.
pub open spec fn same_function(a: Function, b: Function) -> bool {
    &&& a.name.deep_view() == b.name.deep_view()
    &&& a.is_constructor == b.is_constructor
    &&& a.signature.parameters@.len() == b.signature.parameters@.len()
    &&& forall|i: int|
        0 <= i < a.signature.parameters@.len() ==> #[trigger] same_param(
            a.signature.parameters@[i],
            b.signature.parameters@[i],
        )
    &&& a.annotations@.len() == b.annotations@.len()
    &&& same_type_params(a.type_parameters@, b.type_parameters@)
    &&& match (a.body, b.body) {
        (Some(x), Some(y)) => same_block(x, y),
        (None, None) => true,
        _ => false,
    }
}

pub open spec fn same_functions(a: Seq<Function>, b: Seq<Function>) -> bool {
    a.len() == b.len() && forall|i: int| 0 <= i < a.len() ==> #[trigger] same_function(a[i], b[i])
}

/// The same structured type: name, kind, imports, fields, methods, type parameters, as many
/// super types and annotations, and the same nested types.
pub open spec fn same_structured_type(a: StructuredType, b: StructuredType) -> bool
    decreases a, 0nat,
{
    &&& a.name.deep_view() == b.name.deep_view()
    &&& a.kind == b.kind
    &&& imports_view(a.imports@) == imports_view(b.imports@)
    &&& same_fields(a.fields@, b.fields@)
    &&& same_functions(a.methods@, b.methods@)
    &&& a.super_types@.len() == b.super_types@.len()
    &&& a.annotations@.len() == b.annotations@.len()
    &&& same_type_params(a.type_parameters@, b.type_parameters@)
    &&& same_structured_types(a.nested_types@, b.nested_types@)
}

/// The same structured types, in order.
pub open spec fn same_structured_types(a: Seq<StructuredType>, b: Seq<StructuredType>) -> bool
    decreases a, 1nat,
{
    a.len() == b.len() && (a.len() > 0 ==> same_structured_type(a[0], b[0])
        && same_structured_types(a.drop_first(), b.drop_first()))
}

pub proof fn lemma_same_structured_types(a: Seq<StructuredType>, b: Seq<StructuredType>)
    ensures
        same_structured_types(a, b) <==> (a.len() == b.len() && forall|i: int|
            0 <= i < a.len() ==> #[trigger] same_structured_type(a[i], b[i])),
    decreases a.len(),
{
    if a.len() > 0 && a.len() == b.len() {
        lemma_same_structured_types(a.drop_first(), b.drop_first());
        if forall|i: int| 0 <= i < a.len() ==> #[trigger] same_structured_type(a[i], b[i]) {
            assert forall|i: int| 0 <= i < a.drop_first().len() implies #[trigger] same_structured_type(
                a.drop_first()[i],
                b.drop_first()[i],
            ) by {
                assert(same_structured_type(a[i + 1], b[i + 1]));
            }
            assert(same_structured_types(a.drop_first(), b.drop_first()));
            assert(same_structured_type(a[0], b[0]));
            assert(same_structured_types(a, b));
        }
        if same_structured_types(a, b) {
            assert forall|i: int| 0 <= i < a.len() implies #[trigger] same_structured_type(a[i], b[i]) by {
                if i > 0 {
                    assert(same_structured_type(a.drop_first()[i - 1], b.drop_first()[i - 1]));
                }
            }
        }
    }
}

/// The same impl block: name, methods, whether it implements a trait, nested types and
/// aliases.
pub open spec fn same_impl_block(a: ImplBlock, b: ImplBlock) -> bool {
    &&& a.name.deep_view() == b.name.deep_view()
    &&& same_functions(a.methods@, b.methods@)
    &&& a.implements_trait.is_some() == b.implements_trait.is_some()
    &&& same_structured_types(a.nested_types@, b.nested_types@)
    &&& same_aliases(a.type_aliases@, b.type_aliases@)
}

pub open spec fn same_impl_blocks(a: Seq<ImplBlock>, b: Seq<ImplBlock>) -> bool {
    a.len() == b.len() && forall|i: int| 0 <= i < a.len() ==> #[trigger] same_impl_block(a[i], b[i])
}

/// The same module: name, language, file, imports, and the same declarations of every kind,
/// submodules included.
pub open spec fn same_module(a: Module, b: Module) -> bool
    decreases a, 0nat,
{
    &&& a.name.deep_view() == b.name.deep_view()
    &&& opt_str_view(a.language) == opt_str_view(b.language)
    &&& opt_str_view(a.file_path) == opt_str_view(b.file_path)
    &&& imports_view(a.imports@) == imports_view(b.imports@)
    &&& same_structured_types(a.structured_types@, b.structured_types@)
    &&& same_aliases(a.type_aliases@, b.type_aliases@)
    &&& same_functions(a.free_functions@, b.free_functions@)
    &&& same_impl_blocks(a.impl_blocks@, b.impl_blocks@)
    &&& same_fields(a.free_variables@, b.free_variables@)
    &&& same_modules(a.sub_modules@, b.sub_modules@)
}

/// The same modules, in order.
pub open spec fn same_modules(a: Seq<Module>, b: Seq<Module>) -> bool
    decreases a, 1nat,
{
    a.len() == b.len() && (a.len() > 0 ==> same_module(a[0], b[0]) && same_modules(
        a.drop_first(),
        b.drop_first(),
    ))
}

pub proof fn lemma_same_modules(a: Seq<Module>, b: Seq<Module>)
    ensures
        same_modules(a, b) <==> (a.len() == b.len() && forall|i: int|
            0 <= i < a.len() ==> #[trigger] same_module(a[i], b[i])),
    decreases a.len(),
{
    if a.len() > 0 && a.len() == b.len() {
        lemma_same_modules(a.drop_first(), b.drop_first());
        if forall|i: int| 0 <= i < a.len() ==> #[trigger] same_module(a[i], b[i]) {
            assert forall|i: int| 0 <= i < a.drop_first().len() implies #[trigger] same_module(
                a.drop_first()[i],
                b.drop_first()[i],
            ) by {
                assert(same_module(a[i + 1], b[i + 1]));
            }
            assert(same_modules(a.drop_first(), b.drop_first()));
            assert(same_module(a[0], b[0]));
            assert(same_modules(a, b));
        }
        if same_modules(a, b) {
            assert forall|i: int| 0 <= i < a.len() implies #[trigger] same_module(a[i], b[i]) by {
                if i > 0 {
                    assert(same_module(a.drop_first()[i - 1], b.drop_first()[i - 1]));
                }
            }
        }
    }
}

/// Copies keep their declarations.
pub proof fn lemma_same_type_params_copy(a: Seq<TypeParameter>, b: Seq<TypeParameter>)
    requires
        a.len() == b.len(),
        forall|i: int| 0 <= i < a.len() ==> #[trigger] a[i]@ == b[i]@,
    ensures
        same_type_params(a, b),
{
    assert forall|i: int| 0 <= i < a.len() implies #[trigger] same_type_param(a[i], b[i]) by {
        assert(a[i]@ == b[i]@);
        lemma_typerefs_view(a[i].bounds@);
        lemma_typerefs_view(b[i].bounds@);
    }
}

/// Copies keep their declarations.
pub proof fn lemma_same_fields_copy(a: Seq<Field>, b: Seq<Field>)
    requires
        a.len() == b.len(),
        forall|i: int| 0 <= i < a.len() ==> #[trigger] a[i]@ == b[i]@,
    ensures
        same_fields(a, b),
{
    assert forall|i: int| 0 <= i < a.len() implies #[trigger] same_field(a[i], b[i]) by {
        assert(a[i]@ == b[i]@);
        lemma_typerefs_view(a[i].annotations@);
        lemma_typerefs_view(b[i].annotations@);
    }
}

/// Copies keep their declarations.
pub proof fn lemma_same_aliases_copy(a: Seq<TypeAlias>, b: Seq<TypeAlias>)
    requires
        a.len() == b.len(),
        forall|i: int| 0 <= i < a.len() ==> #[trigger] a[i]@ == b[i]@,
    ensures
        same_aliases(a, b),
{
    assert forall|i: int| 0 <= i < a.len() implies #[trigger] same_alias(a[i], b[i]) by {
        assert(a[i]@ == b[i]@);
    }
}

pub proof fn lemma_same_block_trans(a: Block, b: Block, c: Block)
    requires
        same_block(a, b),
        same_block(b, c),
    ensures
        same_block(a, c),
    decreases a,
{
    assert forall|i: int| 0 <= i < a.declarations@.len() implies #[trigger] same_field(
        a.declarations@[i],
        c.declarations@[i],
    ) by {
        assert(same_field(a.declarations@[i], b.declarations@[i]));
        assert(same_field(b.declarations@[i], c.declarations@[i]));
    }
    lemma_same_blocks(a.sub_blocks@, b.sub_blocks@);
    lemma_same_blocks(b.sub_blocks@, c.sub_blocks@);
    lemma_same_blocks(a.sub_blocks@, c.sub_blocks@);
    assert forall|i: int| 0 <= i < a.sub_blocks@.len() implies #[trigger] same_block(
        a.sub_blocks@[i],
        c.sub_blocks@[i],
    ) by {
        lemma_same_block_trans(a.sub_blocks@[i], b.sub_blocks@[i], c.sub_blocks@[i]);
    }
}

pub proof fn lemma_same_function_trans(a: Function, b: Function, c: Function)
    requires
        same_function(a, b),
        same_function(b, c),
    ensures
        same_function(a, c),
{
    assert forall|i: int| 0 <= i < a.signature.parameters@.len() implies #[trigger] same_param(
        a.signature.parameters@[i],
        c.signature.parameters@[i],
    ) by {
        assert(same_param(a.signature.parameters@[i], b.signature.parameters@[i]));
        assert(same_param(b.signature.parameters@[i], c.signature.parameters@[i]));
    }
    assert forall|i: int| 0 <= i < a.type_parameters@.len() implies #[trigger] same_type_param(
        a.type_parameters@[i],
        c.type_parameters@[i],
    ) by {
        assert(same_type_param(a.type_parameters@[i], b.type_parameters@[i]));
        assert(same_type_param(b.type_parameters@[i], c.type_parameters@[i]));
    }
    match (a.body, b.body, c.body) {
        (Some(x), Some(y), Some(z)) => lemma_same_block_trans(x, y, z),
        _ => {},
    }
}

pub proof fn lemma_same_functions_trans(a: Seq<Function>, b: Seq<Function>, c: Seq<Function>)
    requires
        same_functions(a, b),
        same_functions(b, c),
    ensures
        same_functions(a, c),
{
    assert forall|i: int| 0 <= i < a.len() implies #[trigger] same_function(a[i], c[i]) by {
        lemma_same_function_trans(a[i], b[i], c[i]);
    }
}

pub proof fn lemma_same_fields_trans(a: Seq<Field>, b: Seq<Field>, c: Seq<Field>)
    requires
        same_fields(a, b),
        same_fields(b, c),
    ensures
        same_fields(a, c),
{
    assert forall|i: int| 0 <= i < a.len() implies #[trigger] same_field(a[i], c[i]) by {
        assert(same_field(a[i], b[i]));
        assert(same_field(b[i], c[i]));
    }
}

pub proof fn lemma_same_type_params_trans(a: Seq<TypeParameter>, b: Seq<TypeParameter>, c: Seq<TypeParameter>)
    requires
        same_type_params(a, b),
        same_type_params(b, c),
    ensures
        same_type_params(a, c),
{
    assert forall|i: int| 0 <= i < a.len() implies #[trigger] same_type_param(a[i], c[i]) by {
        assert(same_type_param(a[i], b[i]));
        assert(same_type_param(b[i], c[i]));
    }
}

pub proof fn lemma_same_aliases_trans(a: Seq<TypeAlias>, b: Seq<TypeAlias>, c: Seq<TypeAlias>)
    requires
        same_aliases(a, b),
        same_aliases(b, c),
    ensures
        same_aliases(a, c),
{
    assert forall|i: int| 0 <= i < a.len() implies #[trigger] same_alias(a[i], c[i]) by {
        assert(same_alias(a[i], b[i]));
        assert(same_alias(b[i], c[i]));
    }
}

pub proof fn lemma_same_structured_type_trans(a: StructuredType, b: StructuredType, c: StructuredType)
    requires
        same_structured_type(a, b),
        same_structured_type(b, c),
    ensures
        same_structured_type(a, c),
    decreases a,
{
    lemma_same_fields_trans(a.fields@, b.fields@, c.fields@);
    lemma_same_functions_trans(a.methods@, b.methods@, c.methods@);
    lemma_same_type_params_trans(a.type_parameters@, b.type_parameters@, c.type_parameters@);
    lemma_same_structured_types(a.nested_types@, b.nested_types@);
    lemma_same_structured_types(b.nested_types@, c.nested_types@);
    lemma_same_structured_types(a.nested_types@, c.nested_types@);
    assert forall|i: int| 0 <= i < a.nested_types@.len() implies #[trigger] same_structured_type(
        a.nested_types@[i],
        c.nested_types@[i],
    ) by {
        lemma_same_structured_type_trans(a.nested_types@[i], b.nested_types@[i], c.nested_types@[i]);
    }
}

pub proof fn lemma_same_structured_types_trans(
    a: Seq<StructuredType>,
    b: Seq<StructuredType>,
    c: Seq<StructuredType>,
)
    requires
        same_structured_types(a, b),
        same_structured_types(b, c),
    ensures
        same_structured_types(a, c),
{
    lemma_same_structured_types(a, b);
    lemma_same_structured_types(b, c);
    lemma_same_structured_types(a, c);
    assert forall|i: int| 0 <= i < a.len() implies #[trigger] same_structured_type(a[i], c[i]) by {
        lemma_same_structured_type_trans(a[i], b[i], c[i]);
    }
}

pub proof fn lemma_same_impl_blocks_trans(a: Seq<ImplBlock>, b: Seq<ImplBlock>, c: Seq<ImplBlock>)
    requires
        same_impl_blocks(a, b),
        same_impl_blocks(b, c),
    ensures
        same_impl_blocks(a, c),
{
    assert forall|i: int| 0 <= i < a.len() implies #[trigger] same_impl_block(a[i], c[i]) by {
        assert(same_impl_block(a[i], b[i]));
        assert(same_impl_block(b[i], c[i]));
        lemma_same_functions_trans(a[i].methods@, b[i].methods@, c[i].methods@);
        lemma_same_structured_types_trans(a[i].nested_types@, b[i].nested_types@, c[i].nested_types@);
        lemma_same_aliases_trans(a[i].type_aliases@, b[i].type_aliases@, c[i].type_aliases@);
    }
}

/// Keeping the declarations is transitive: two passes that each keep them keep them together.
pub proof fn lemma_same_module_trans(a: Module, b: Module, c: Module)
    requires
        same_module(a, b),
        same_module(b, c),
    ensures
        same_module(a, c),
    decreases a,
{
    lemma_same_structured_types_trans(a.structured_types@, b.structured_types@, c.structured_types@);
    lemma_same_aliases_trans(a.type_aliases@, b.type_aliases@, c.type_aliases@);
    lemma_same_functions_trans(a.free_functions@, b.free_functions@, c.free_functions@);
    lemma_same_impl_blocks_trans(a.impl_blocks@, b.impl_blocks@, c.impl_blocks@);
    lemma_same_fields_trans(a.free_variables@, b.free_variables@, c.free_variables@);
    lemma_same_modules(a.sub_modules@, b.sub_modules@);
    lemma_same_modules(b.sub_modules@, c.sub_modules@);
    lemma_same_modules(a.sub_modules@, c.sub_modules@);
    assert forall|i: int| 0 <= i < a.sub_modules@.len() implies #[trigger] same_module(
        a.sub_modules@[i],
        c.sub_modules@[i],
    ) by {
        lemma_same_module_trans(a.sub_modules@[i], b.sub_modules@[i], c.sub_modules@[i]);
    }
}

pub proof fn lemma_same_modules_trans(a: Seq<Module>, b: Seq<Module>, c: Seq<Module>)
    requires
        same_modules(a, b),
        same_modules(b, c),
    ensures
        same_modules(a, c),
{
    lemma_same_modules(a, b);
    lemma_same_modules(b, c);
    lemma_same_modules(a, c);
    assert forall|i: int| 0 <= i < a.len() implies #[trigger] same_module(a[i], c[i]) by {
        lemma_same_module_trans(a[i], b[i], c[i]);
    }
}

} // verus!
