//! Query building: lexical substitution of unresolved references into resolution queries,
//! with the local names of each scope on a symbol stack.
use crate::config::AnalyzerConfig;
use crate::model::components::{
    clone_opt_string, dup_fields, dup_functions, dup_imports, dup_impl_blocks, dup_modules,
    dup_structured_types, dup_type_aliases, dup_type_parameters, Block, Field, Function,
    ImplBlock, Module, Parameter, Signature, StructuredType,
};
use crate::model::queries::{clone_qn, clone_typerefs, Query, TypeRef};
use crate::model::shape::{
    lemma_same_blocks, lemma_same_modules, lemma_same_structured_types, same_block,
    same_field, same_fields, same_function, same_functions, same_impl_block, same_impl_blocks,
    same_module, same_modules, same_param, same_structured_type, same_structured_types,
};
use crate::resolver::built::{
    built_block, built_blocks, built_function, built_functions, built_impl_block, built_module,
    built_modules, built_ref, built_refs, built_structured_type, built_structured_types,
    lemma_built_blocks, lemma_built_modules, lemma_built_structured_types, lemma_substituted_built,
};
use crate::resolver::scope::last_or_empty;
use crate::resolver::stack::{lookup_frames, StackFrame, SymbolStack};
use vstd::prelude::*;

verus! {

/// The context of query building: the stack of local names, and the configuration.
pub struct BuilderContext<'a> {
    pub stack: SymbolStack,
    pub config: &'a AnalyzerConfig,
}

/// `base` followed by one `Extract` for each of the segments `qn[1..n]`.
pub open spec fn extend_query(base: Query, qn: Seq<String>, n: int) -> Query
    decreases n,
{
    if n <= 1 {
        base
    } else {
        Query::Extract(Box::new(extend_query(base, qn, n - 1)), qn[n - 1])
    }
}

/// Lexical substitution of a reference: a non-empty unresolved path becomes a query whose base
/// is the query its first segment is bound to on the stack (innermost first), else a `Find` of
/// that segment, with one `Extract` per further segment (and a `Call` around it all for a call);
/// every other reference is left as it is.
pub open spec fn substituted(frames: Seq<StackFrame>, t: TypeRef, is_call: bool) -> TypeRef {
    match t {
        TypeRef::Unresolved(qn) => if qn@.len() > 0 {
            let base = match lookup_frames(frames, qn@[0]@) {
                Some(q) => q,
                None => Query::Find(qn@[0]),
            };
            let q = extend_query(base, qn@, qn@.len() as int);
            TypeRef::ResolutionQuery(
                if is_call {
                    Query::Call(Box::new(q))
                } else {
                    q
                },
            )
        } else {
            t
        },
        _ => t,
    }
}

/// The builder's stack is back to what it was, its configuration untouched.
pub open spec fn restored(old: BuilderContext, new: BuilderContext) -> bool {
    &&& new.stack.wf()
    &&& new.stack.view_frames() == old.stack.view_frames()
    &&& new.config == old.config
}

/// Inside a scope that the builder entered from `base`: one frame more than `base`, the others
/// as they were.
pub open spec fn inside(base: Seq<Map<Seq<char>, Query>>, ctx: BuilderContext) -> bool {
    &&& ctx.stack.wf()
    &&& ctx.stack.view_frames().len() == base.len() + 1
    &&& ctx.stack.view_frames().drop_last() == base
}

/// Performs lexical substitution on one reference.
fn substitute_type(ctx: &BuilderContext, tr: TypeRef, is_call: bool) -> (r: TypeRef)
    requires
        ctx.stack.wf(),
    ensures
        r == substituted(ctx.stack.frames@, tr, is_call),
        !is_call ==> built_ref(tr@, r@),
{
    proof {
        lemma_substituted_built(ctx.stack.frames@, tr, tr@);
    }
    match tr {
        TypeRef::Unresolved(qn) => {
            if qn.len() == 0 {
                return TypeRef::Unresolved(qn);
            }
            let base = match ctx.stack.lookup(&qn[0]) {
                Some(local_query) => local_query.duplicate(),
                None => Query::Find(qn[0].clone()),
            };
            let ghost b = base;
            let mut q = base;
            let mut i: usize = 1;
            while i < qn.len()
                invariant
                    1 <= i <= qn@.len(),
                    q == extend_query(b, qn@, i as int),
                decreases qn.len() - i,
            {
                q = Query::Extract(Box::new(q), qn[i].clone());
                i += 1;
            }
            if is_call {
                q = Query::Call(Box::new(q));
            }
            TypeRef::ResolutionQuery(q)
        },
        other => other,
    }
}

fn substitute_all(ctx: &BuilderContext, v: &Vec<TypeRef>) -> (r: Vec<TypeRef>)
    requires
        ctx.stack.wf(),
    ensures
        r@.len() == v@.len(),
        built_refs(v@, r@),
{
    let mut out: Vec<TypeRef> = Vec::new();
    let mut i: usize = 0;
    while i < v.len()
        invariant
            ctx.stack.wf(),
            i <= v@.len(),
            out@.len() == i,
            forall|j: int| 0 <= j < i ==> #[trigger] built_ref(v@[j]@, out@[j]@),
        decreases v.len() - i,
    {
        let d = v[i].duplicate();
        let t = substitute_type(ctx, d, false);
        out.push(t);
        i += 1;
    }
    out
}

/// Binds a local name in the innermost frame.
fn define_local(ctx: &mut BuilderContext, name: String, q: Query)
    requires
        old(ctx).stack.wf(),
        old(ctx).stack.view_frames().len() > 0,
    ensures
        final(ctx).stack.wf(),
        final(ctx).stack.view_frames().len() == old(ctx).stack.view_frames().len(),
        final(ctx).stack.view_frames().drop_last() == old(ctx).stack.view_frames().drop_last(),
        final(ctx).stack.view_frames().last() == old(ctx).stack.view_frames().last().insert(name@, q),
        final(ctx).config == old(ctx).config,
{
    ctx.stack.define_symbol(name, q);
    assert(ctx.stack.view_frames().drop_last() =~= old(ctx).stack.view_frames().drop_last());
}

fn enter(ctx: &mut BuilderContext)
    requires
        old(ctx).stack.wf(),
    ensures
        inside(old(ctx).stack.view_frames(), *final(ctx)),
        final(ctx).config == old(ctx).config,
{
    ctx.stack.push_scope();
    assert(ctx.stack.view_frames().drop_last() =~= old(ctx).stack.view_frames());
}

fn leave(ctx: &mut BuilderContext, Ghost(base): Ghost<Seq<Map<Seq<char>, Query>>>)
    requires
        inside(base, *old(ctx)),
    ensures
        final(ctx).stack.wf(),
        final(ctx).stack.view_frames() == base,
        final(ctx).config == old(ctx).config,
{
    ctx.stack.pop_scope();
}

/// Builds the queries of a whole set of modules, under one global frame.
pub fn build_queries(modules: Vec<Module>, config: &AnalyzerConfig) -> (r: Vec<Module>)
    requires
        config.wf(),
    ensures
        same_modules(modules@, r@),
        built_modules(modules@, r@),
{
    let mut ctx = BuilderContext { stack: SymbolStack::new(), config };
    let ghost base = ctx.stack.view_frames();
    enter(&mut ctx);
    let mut out: Vec<Module> = Vec::new();
    let mut i: usize = 0;
    while i < modules.len()
        invariant
            inside(base, ctx),
            ctx.config == config,
            config.wf(),
            i <= modules@.len(),
            out@.len() == i,
            forall|j: int| 0 <= j < i ==> #[trigger] same_module(modules@[j], out@[j]),
            forall|j: int| 0 <= j < i ==> #[trigger] built_module(modules@[j], out@[j]),
        decreases modules.len() - i,
    {
        let m = &modules[i];
        let lang = clone_opt_string(&m.language);
        out.push(build_module_queries(&mut ctx, lang, m));
        i += 1;
    }
    leave(&mut ctx, Ghost(base));
    proof {
        lemma_same_modules(modules@, out@);
        lemma_built_modules(modules@, out@);
    }
    out
}

fn lang_of(l: &Option<String>) -> (r: &str)
    ensures
        r@ == match *l {
            Some(s) => s@,
            None => ""@,
        },
{
    match l {
        Some(s) => s.as_str(),
        None => "",
    }
}

/// Builds the queries of a module, in a frame of its own: those of its types, functions, impl
/// blocks and submodules (a submodule without a language takes the module's).
fn build_module_queries(ctx: &mut BuilderContext, current_lang: Option<String>, module: &Module) -> (r: Module)
    requires
        old(ctx).stack.wf(),
        old(ctx).config.wf(),
    ensures
        restored(*old(ctx), *final(ctx)),
        same_module(*module, r),
        built_module(*module, r),
    decreases module,
{
    let ghost base = ctx.stack.view_frames();
    enter(ctx);
    let structured_types = build_structured_types(ctx, &current_lang, &module.structured_types);
    let mut free_functions: Vec<Function> = Vec::new();
    let mut i: usize = 0;
    while i < module.free_functions.len()
        invariant
            inside(base, *ctx),
            ctx.config == old(ctx).config,
            i <= module.free_functions@.len(),
            free_functions@.len() == i,
            forall|j: int|
                0 <= j < i ==> #[trigger] same_function(module.free_functions@[j], free_functions@[j]),
            forall|j: int|
                0 <= j < i ==> #[trigger] built_function(module.free_functions@[j], free_functions@[j]),
        decreases module.free_functions.len() - i,
    {
        free_functions.push(build_function_queries(ctx, &module.free_functions[i], None, false));
        i += 1;
    }
    let mut impl_blocks: Vec<ImplBlock> = Vec::new();
    let mut i: usize = 0;
    while i < module.impl_blocks.len()
        invariant
            inside(base, *ctx),
            ctx.config == old(ctx).config,
            old(ctx).config.wf(),
            i <= module.impl_blocks@.len(),
            impl_blocks@.len() == i,
            forall|j: int|
                0 <= j < i ==> #[trigger] same_impl_block(module.impl_blocks@[j], impl_blocks@[j]),
            forall|j: int|
                0 <= j < i ==> #[trigger] built_impl_block(module.impl_blocks@[j], impl_blocks@[j]),
        decreases module.impl_blocks.len() - i,
    {
        impl_blocks.push(build_impl_block_queries(ctx, &current_lang, &module.impl_blocks[i]));
        i += 1;
    }
    let mut sub_modules: Vec<Module> = Vec::new();
    let mut i: usize = 0;
    while i < module.sub_modules.len()
        invariant
            inside(base, *ctx),
            ctx.config == old(ctx).config,
            old(ctx).config.wf(),
            i <= module.sub_modules@.len(),
            sub_modules@.len() == i,
            forall|j: int|
                0 <= j < i ==> #[trigger] same_module(module.sub_modules@[j], sub_modules@[j]),
            forall|j: int|
                0 <= j < i ==> #[trigger] built_module(module.sub_modules@[j], sub_modules@[j]),
        decreases module.sub_modules.len() - i,
    {
        let sub = &module.sub_modules[i];
        let lang = match &sub.language {
            Some(l) => Some(l.clone()),
            None => clone_opt_string(&current_lang),
        };
        sub_modules.push(build_module_queries(ctx, lang, sub));
        i += 1;
    }
    leave(ctx, Ghost(base));
    let type_aliases = dup_type_aliases(&module.type_aliases);
    let free_variables = dup_fields(&module.free_variables);
    proof {
        lemma_same_modules(module.sub_modules@, sub_modules@);
        lemma_built_modules(module.sub_modules@, sub_modules@);
        crate::model::shape::lemma_same_aliases_copy(module.type_aliases@, type_aliases@);
        crate::model::shape::lemma_same_fields_copy(module.free_variables@, free_variables@);
    }
    Module {
        name: clone_qn(&module.name),
        language: clone_opt_string(&module.language),
        file_path: clone_opt_string(&module.file_path),
        imports: dup_imports(&module.imports),
        sub_modules,
        structured_types,
        type_aliases,
        free_functions,
        impl_blocks,
        free_variables,
    }
}

fn build_structured_types(
    ctx: &mut BuilderContext,
    current_lang: &Option<String>,
    v: &Vec<StructuredType>,
) -> (r: Vec<StructuredType>)
    requires
        old(ctx).stack.wf(),
        old(ctx).config.wf(),
    ensures
        restored(*old(ctx), *final(ctx)),
        same_structured_types(v@, r@),
        built_structured_types(v@, r@),
    decreases v,
{
    let mut out: Vec<StructuredType> = Vec::new();
    let mut i: usize = 0;
    while i < v.len()
        invariant
            restored(*old(ctx), *ctx),
            old(ctx).config.wf(),
            i <= v@.len(),
            out@.len() == i,
            forall|j: int| 0 <= j < i ==> #[trigger] same_structured_type(v@[j], out@[j]),
            forall|j: int| 0 <= j < i ==> #[trigger] built_structured_type(v@[j], out@[j]),
        decreases v.len() - i,
    {
        out.push(build_structured_type_queries(ctx, current_lang, &v[i]));
        i += 1;
    }
    proof {
        lemma_same_structured_types(v@, out@);
        lemma_built_structured_types(v@, out@);
    }
    out
}

/// Builds the queries of a structured type, in a frame of its own where the language's self
/// keyword stands for the type: its super types and field types are substituted, its methods
/// (the type as their receiver) and nested types built.
fn build_structured_type_queries(
    ctx: &mut BuilderContext,
    current_lang: &Option<String>,
    st: &StructuredType,
) -> (r: StructuredType)
    requires
        old(ctx).stack.wf(),
        old(ctx).config.wf(),
    ensures
        restored(*old(ctx), *final(ctx)),
        same_structured_type(*st, r),
        built_structured_type(*st, r),
    decreases st,
{
    let ghost base = ctx.stack.view_frames();
    enter(ctx);
    let self_query = Query::Find(last_or_empty(&st.name));
    let config = ctx.config;
    let lang_config = config.get_for(lang_of(current_lang));
    match &lang_config.self_keyword {
        Some(kw) => {
            define_local(ctx, kw.clone(), self_query.duplicate());
        },
        None => {},
    }
    let super_types = substitute_all(ctx, &st.super_types);
    let mut fields: Vec<Field> = Vec::new();
    let mut i: usize = 0;
    while i < st.fields.len()
        invariant
            inside(base, *ctx),
            i <= st.fields@.len(),
            fields@.len() == i,
            forall|j: int| 0 <= j < i ==> #[trigger] same_field(st.fields@[j], fields@[j]),
            forall|j: int| 0 <= j < i ==> #[trigger] built_ref(st.fields@[j].ty@, fields@[j].ty@),
        decreases st.fields.len() - i,
    {
        let f = &st.fields[i];
        let ty = substitute_type(ctx, f.ty.duplicate(), false);
        fields.push(Field { name: f.name.clone(), ty, annotations: clone_typerefs(&f.annotations) });
        i += 1;
    }
    let mut methods: Vec<Function> = Vec::new();
    let mut i: usize = 0;
    while i < st.methods.len()
        invariant
            inside(base, *ctx),
            ctx.config == config,
            i <= st.methods@.len(),
            methods@.len() == i,
            forall|j: int| 0 <= j < i ==> #[trigger] same_function(st.methods@[j], methods@[j]),
            forall|j: int| 0 <= j < i ==> #[trigger] built_function(st.methods@[j], methods@[j]),
        decreases st.methods.len() - i,
    {
        methods.push(
            build_function_queries(
                ctx,
                &st.methods[i],
                Some(self_query.duplicate()),
                lang_config.implicit_first_param_as_self,
            ),
        );
        i += 1;
    }
    let nested_types = build_structured_types(ctx, current_lang, &st.nested_types);
    leave(ctx, Ghost(base));
    let type_parameters = dup_type_parameters(&st.type_parameters);
    proof {
        crate::model::shape::lemma_same_type_params_copy(st.type_parameters@, type_parameters@);
    }
    StructuredType {
        name: clone_qn(&st.name),
        kind: st.kind,
        fields,
        methods,
        super_types,
        nested_types,
        annotations: clone_typerefs(&st.annotations),
        imports: dup_imports(&st.imports),
        type_parameters,
    }
}

/// Builds the queries of a function, in a frame of its own: each parameter type is substituted
/// and each named parameter bound (the first to the owner's query where the language takes it
/// as the receiver, the others to their own query); then the return type and the body.
fn build_function_queries(
    ctx: &mut BuilderContext,
    ff: &Function,
    self_query: Option<Query>,
    implicit_first_param_as_self: bool,
) -> (r: Function)
    requires
        old(ctx).stack.wf(),
    ensures
        restored(*old(ctx), *final(ctx)),
        same_function(*ff, r),
        built_function(*ff, r),
{
    let ghost base = ctx.stack.view_frames();
    enter(ctx);
    let mut parameters: Vec<Parameter> = Vec::new();
    let mut i: usize = 0;
    while i < ff.signature.parameters.len()
        invariant
            inside(base, *ctx),
            ctx.config == old(ctx).config,
            i <= ff.signature.parameters@.len(),
            parameters@.len() == i,
            forall|j: int|
                0 <= j < i ==> #[trigger] same_param(ff.signature.parameters@[j], parameters@[j]),
            forall|j: int|
                0 <= j < i ==> #[trigger] built_ref(ff.signature.parameters@[j].ty@, parameters@[j].ty@),
        decreases ff.signature.parameters.len() - i,
    {
        let p = &ff.signature.parameters[i];
        let ty = substitute_type(ctx, p.ty.duplicate(), false);
        match &p.name {
            Some(name) => {
                if i == 0 && implicit_first_param_as_self {
                    match &self_query {
                        Some(sq) => {
                            define_local(ctx, name.clone(), sq.duplicate());
                        },
                        None => {},
                    }
                } else {
                    match &ty {
                        TypeRef::ResolutionQuery(q) => {
                            define_local(ctx, name.clone(), q.duplicate());
                        },
                        _ => {},
                    }
                }
            },
            None => {},
        }
        parameters.push(Parameter { name: clone_opt_string(&p.name), ty, is_variadic: p.is_variadic });
        i += 1;
    }
    let return_type = substitute_type(ctx, ff.signature.return_type.duplicate(), false);
    let body = match &ff.body {
        Some(b) => Some(build_block_queries(ctx, b)),
        None => None,
    };
    leave(ctx, Ghost(base));
    let type_parameters = dup_type_parameters(&ff.type_parameters);
    proof {
        crate::model::shape::lemma_same_type_params_copy(ff.type_parameters@, type_parameters@);
    }
    Function {
        name: clone_qn(&ff.name),
        signature: Signature { parameters, return_type },
        body,
        is_constructor: ff.is_constructor,
        annotations: clone_typerefs(&ff.annotations),
        type_parameters,
    }
}

/// Builds the queries of a block, in a frame of its own: each declaration's type is
/// substituted (and the declared name bound to it when it became a query), then calls,
/// instantiations and accesses, then the sub-blocks.
fn build_block_queries(ctx: &mut BuilderContext, block: &Block) -> (r: Block)
    requires
        old(ctx).stack.wf(),
    ensures
        restored(*old(ctx), *final(ctx)),
        same_block(*block, r),
        built_block(*block, r),
    decreases block,
{
    let ghost base = ctx.stack.view_frames();
    enter(ctx);
    let mut declarations: Vec<Field> = Vec::new();
    let mut i: usize = 0;
    while i < block.declarations.len()
        invariant
            inside(base, *ctx),
            ctx.config == old(ctx).config,
            i <= block.declarations@.len(),
            declarations@.len() == i,
            forall|j: int| 0 <= j < i ==> #[trigger] same_field(block.declarations@[j], declarations@[j]),
            forall|j: int| 0 <= j < i ==> #[trigger] built_ref(block.declarations@[j].ty@, declarations@[j].ty@),
        decreases block.declarations.len() - i,
    {
        let d = &block.declarations[i];
        let ty = substitute_type(ctx, d.ty.duplicate(), false);
        match &ty {
            TypeRef::ResolutionQuery(q) => {
                define_local(ctx, d.name.clone(), q.duplicate());
            },
            _ => {},
        }
        declarations.push(Field { name: d.name.clone(), ty, annotations: clone_typerefs(&d.annotations) });
        i += 1;
    }
    let calls = substitute_all(ctx, &block.calls);
    let instantiates = substitute_all(ctx, &block.instantiates);
    let accesses = substitute_all(ctx, &block.accesses);
    let mut sub_blocks: Vec<Block> = Vec::new();
    let mut i: usize = 0;
    while i < block.sub_blocks.len()
        invariant
            inside(base, *ctx),
            ctx.config == old(ctx).config,
            i <= block.sub_blocks@.len(),
            sub_blocks@.len() == i,
            forall|j: int| 0 <= j < i ==> #[trigger] same_block(block.sub_blocks@[j], sub_blocks@[j]),
            forall|j: int| 0 <= j < i ==> #[trigger] built_block(block.sub_blocks@[j], sub_blocks@[j]),
        decreases block.sub_blocks.len() - i,
    {
        sub_blocks.push(build_block_queries(ctx, &block.sub_blocks[i]));
        i += 1;
    }
    leave(ctx, Ghost(base));
    proof {
        lemma_same_blocks(block.sub_blocks@, sub_blocks@);
        lemma_built_blocks(block.sub_blocks@, sub_blocks@);
    }
    Block {
        declarations,
        calls,
        instantiates,
        accesses,
        type_casts: clone_typerefs(&block.type_casts),
        sub_blocks,
    }
}

/// Builds the queries of an impl block, in a frame of its own: the type it is for is
/// substituted, and where it became a query, that query is the methods' receiver and the
/// language's self keyword stands for it; then the trait, methods and nested types.
fn build_impl_block_queries(ctx: &mut BuilderContext, current_lang: &Option<String>, ib: &ImplBlock) -> (r: ImplBlock)
    requires
        old(ctx).stack.wf(),
        old(ctx).config.wf(),
    ensures
        restored(*old(ctx), *final(ctx)),
        same_impl_block(*ib, r),
        built_impl_block(*ib, r),
{
    let ghost base = ctx.stack.view_frames();
    enter(ctx);
    let impl_for = substitute_type(ctx, ib.impl_for.duplicate(), false);
    let config = ctx.config;
    let lang_config = config.get_for(lang_of(current_lang));
    let mut self_query: Option<Query> = None;
    match &impl_for {
        TypeRef::ResolutionQuery(q) => {
            self_query = Some(q.duplicate());
            match &lang_config.self_keyword {
                Some(kw) => {
                    define_local(ctx, kw.clone(), q.duplicate());
                },
                None => {},
            }
        },
        _ => {},
    }
    let implements_trait = match &ib.implements_trait {
        Some(t) => Some(substitute_type(ctx, t.duplicate(), false)),
        None => None,
    };
    let mut methods: Vec<Function> = Vec::new();
    let mut i: usize = 0;
    while i < ib.methods.len()
        invariant
            inside(base, *ctx),
            ctx.config == config,
            i <= ib.methods@.len(),
            methods@.len() == i,
            forall|j: int| 0 <= j < i ==> #[trigger] same_function(ib.methods@[j], methods@[j]),
            forall|j: int| 0 <= j < i ==> #[trigger] built_function(ib.methods@[j], methods@[j]),
        decreases ib.methods.len() - i,
    {
        let sq = match &self_query {
            Some(q) => Some(q.duplicate()),
            None => None,
        };
        methods.push(
            build_function_queries(ctx, &ib.methods[i], sq, lang_config.implicit_first_param_as_self),
        );
        i += 1;
    }
    let nested_types = build_structured_types(ctx, current_lang, &ib.nested_types);
    leave(ctx, Ghost(base));
    let type_aliases = dup_type_aliases(&ib.type_aliases);
    proof {
        crate::model::shape::lemma_same_aliases_copy(ib.type_aliases@, type_aliases@);
    }
    ImplBlock {
        name: clone_qn(&ib.name),
        methods,
        impl_for,
        implements_trait,
        nested_types,
        type_aliases,
    }
}

} // verus!
