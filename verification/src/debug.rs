//! The type references left in resolved modules, each with where it stands, for a
//! report of what name resolution achieved.
use crate::model::components::{Block, Field, Function, Module, Parameter, StructuredType};
use crate::model::queries::{TypeRef, TypeRefV};
use crate::text_util::{chars_of, join_spec, join_strings, string_from_chars, to_owned_string};
use vstd::prelude::*;

verus! {

/// One reference: what holds it (`SuperType`, `Field 'x'`, `Param 'p'`, `Return`,
/// `LocalVar 'v'`, `Call`, `Instantiates`), the component it stands in, and the
/// reference itself.
pub struct ReferenceRow {
    pub kind: String,
    pub context: String,
    pub reference: TypeRef,
}

/// The value of a row.
pub type RowV = (Seq<char>, Seq<char>, TypeRefV);

/// The values of rows.
pub open spec fn rows_view(rows: Seq<ReferenceRow>) -> Seq<RowV> {
    rows.map_values(|r: ReferenceRow| (r.kind@, r.context@, r.reference@))
}

/// `prefix 'name'`.
pub open spec fn quoted_spec(prefix: Seq<char>, name: Seq<char>) -> Seq<char> {
    prefix + seq![' ', '\''] + name + seq!['\'']
}

/// One row per reference, all of one kind and context.
pub open spec fn typed_rows(kind: Seq<char>, ctx: Seq<char>, ts: Seq<TypeRef>) -> Seq<RowV>
    decreases ts.len(),
{
    if ts.len() == 0 {
        Seq::empty()
    } else {
        typed_rows(kind, ctx, ts.drop_last()).push((kind, ctx, ts.last()@))
    }
}

/// One row per named value (`Field 'x'`, `LocalVar 'v'`).
pub open spec fn field_rows(prefix: Seq<char>, ctx: Seq<char>, fs: Seq<Field>) -> Seq<RowV>
    decreases fs.len(),
{
    if fs.len() == 0 {
        Seq::empty()
    } else {
        field_rows(prefix, ctx, fs.drop_last()).push(
            (quoted_spec(prefix, fs.last().name@), ctx, fs.last().ty@),
        )
    }
}

/// The name a parameter row shows: its name, or `?`.
pub open spec fn param_name(p: Parameter) -> Seq<char> {
    match p.name {
        Some(n) => n@,
        None => "?"@,
    }
}

/// One row per parameter.
pub open spec fn param_rows(ctx: Seq<char>, ps: Seq<Parameter>) -> Seq<RowV>
    decreases ps.len(),
{
    if ps.len() == 0 {
        Seq::empty()
    } else {
        param_rows(ctx, ps.drop_last()).push(
            (quoted_spec("Param"@, param_name(ps.last())), ctx, ps.last().ty@),
        )
    }
}

/// The rows of a block: its locals, calls and instantiations, then its sub-blocks.
pub open spec fn block_rows(b: Block, ctx: Seq<char>) -> Seq<RowV>
    decreases b, 1nat,
{
    field_rows("LocalVar"@, ctx, b.declarations@) + typed_rows("Call"@, ctx, b.calls@) + typed_rows(
        "Instantiates"@,
        ctx,
        b.instantiates@,
    ) + blocks_rows(b.sub_blocks@, ctx)
}

/// The rows of blocks, one after the other.
pub open spec fn blocks_rows(bs: Seq<Block>, ctx: Seq<char>) -> Seq<RowV>
    decreases bs, 0nat,
{
    if bs.len() == 0 {
        Seq::empty()
    } else {
        blocks_rows(bs.drop_last(), ctx) + block_rows(bs.last(), ctx)
    }
}

/// The context of a function: the enclosing context and the function's last name.
pub open spec fn function_ctx(f: Function, ctx: Seq<char>) -> Seq<char> {
    ctx + "::"@ + (if f.name@.len() > 0 { f.name@.last()@ } else { Seq::empty() })
}

/// The rows of a function: its parameters, its return type, then its body.
pub open spec fn function_rows(f: Function, ctx: Seq<char>) -> Seq<RowV> {
    let fc = function_ctx(f, ctx);
    param_rows(fc, f.signature.parameters@).push(("Return"@, fc, f.signature.return_type@)) + match f.body {
        Some(b) => block_rows(b, fc),
        None => Seq::empty(),
    }
}

/// The rows of functions, one after the other.
pub open spec fn functions_rows(fs: Seq<Function>, ctx: Seq<char>) -> Seq<RowV>
    decreases fs.len(),
{
    if fs.len() == 0 {
        Seq::empty()
    } else {
        functions_rows(fs.drop_last(), ctx) + function_rows(fs.last(), ctx)
    }
}

/// The rows of a structured type: super-types, fields, methods, then nested types.
pub open spec fn type_rows(st: StructuredType) -> Seq<RowV>
    decreases st, 1nat,
{
    let ctx = join_spec(st.name.deep_view(), "::"@);
    typed_rows("SuperType"@, ctx, st.super_types@) + field_rows("Field"@, ctx, st.fields@)
        + functions_rows(st.methods@, ctx) + types_rows(st.nested_types@)
}

/// The rows of structured types, one after the other.
pub open spec fn types_rows(ts: Seq<StructuredType>) -> Seq<RowV>
    decreases ts, 0nat,
{
    if ts.len() == 0 {
        Seq::empty()
    } else {
        types_rows(ts.drop_last()) + type_rows(ts.last())
    }
}

/// The rows of a module: its types, its free functions, then its submodules.
pub open spec fn module_rows(m: Module) -> Seq<RowV>
    decreases m, 1nat,
{
    types_rows(m.structured_types@) + functions_rows(
        m.free_functions@,
        join_spec(m.name.deep_view(), "::"@),
    ) + modules_rows(m.sub_modules@)
}

/// The rows of modules, one after the other.
pub open spec fn modules_rows(ms: Seq<Module>) -> Seq<RowV>
    decreases ms, 0nat,
{
    if ms.len() == 0 {
        Seq::empty()
    } else {
        modules_rows(ms.drop_last()) + module_rows(ms.last())
    }
}

/// `prefix 'name'`.
fn quoted(prefix: &str, name: &str) -> (r: String)
    ensures
        r@ == quoted_spec(prefix@, name@),
{
    let mut cs = chars_of(prefix);
    cs.push(' ');
    cs.push('\'');
    let mut n = chars_of(name);
    cs.append(&mut n);
    cs.push('\'');
    let r = string_from_chars(&cs);
    assert(r@ =~= quoted_spec(prefix@, name@));
    r
}

/// Appends one row.
fn row(rows: &mut Vec<ReferenceRow>, kind: String, context: &String, reference: &TypeRef)
    ensures
        rows_view(final(rows)@) == rows_view(old(rows)@).push((kind@, context@, reference@)),
{
    let r = ReferenceRow {
        kind,
        context: to_owned_string(context.as_str()),
        reference: reference.duplicate(),
    };
    rows.push(r);
    assert(rows_view(rows@) =~= rows_view(old(rows)@).push((kind@, context@, reference@)));
}

/// Appends one row per reference.
fn push_typed(rows: &mut Vec<ReferenceRow>, kind: &str, context: &String, ts: &Vec<TypeRef>)
    ensures
        rows_view(final(rows)@) == rows_view(old(rows)@) + typed_rows(kind@, context@, ts@),
{
    let mut i: usize = 0;
    while i < ts.len()
        invariant
            i <= ts@.len(),
            rows_view(rows@) == rows_view(old(rows)@) + typed_rows(kind@, context@, ts@.take(i as int)),
        decreases ts.len() - i,
    {
        assert(ts@.take(i + 1).drop_last() == ts@.take(i as int));
        row(rows, to_owned_string(kind), context, &ts[i]);
        i += 1;
    }
    assert(ts@.take(ts@.len() as int) == ts@);
}

/// Appends one row per named value.
fn push_fields(rows: &mut Vec<ReferenceRow>, prefix: &str, context: &String, fs: &Vec<Field>)
    ensures
        rows_view(final(rows)@) == rows_view(old(rows)@) + field_rows(prefix@, context@, fs@),
{
    let mut i: usize = 0;
    while i < fs.len()
        invariant
            i <= fs@.len(),
            rows_view(rows@) == rows_view(old(rows)@) + field_rows(prefix@, context@, fs@.take(i as int)),
        decreases fs.len() - i,
    {
        assert(fs@.take(i + 1).drop_last() == fs@.take(i as int));
        let f = &fs[i];
        row(rows, quoted(prefix, f.name.as_str()), context, &f.ty);
        i += 1;
    }
    assert(fs@.take(fs@.len() as int) == fs@);
}

/// The references of a block and its sub-blocks: declared locals, calls and
/// instantiations.
fn visit_block(b: &Block, context: &String, rows: &mut Vec<ReferenceRow>)
    ensures
        rows_view(final(rows)@) == rows_view(old(rows)@) + block_rows(*b, context@),
    decreases b,
{
    push_fields(rows, "LocalVar", context, &b.declarations);
    push_typed(rows, "Call", context, &b.calls);
    push_typed(rows, "Instantiates", context, &b.instantiates);
    let ghost mid = rows_view(rows@);
    let mut i: usize = 0;
    while i < b.sub_blocks.len()
        invariant
            i <= b.sub_blocks@.len(),
            rows_view(rows@) == mid + blocks_rows(b.sub_blocks@.take(i as int), context@),
        decreases b.sub_blocks.len() - i,
    {
        assert(b.sub_blocks@.take(i + 1).drop_last() == b.sub_blocks@.take(i as int));
        visit_block(&b.sub_blocks[i], context, rows);
        i += 1;
    }
    assert(b.sub_blocks@.take(b.sub_blocks@.len() as int) == b.sub_blocks@);
}

/// The references of a function: its parameters, its return type and its body.
fn visit_function(f: &Function, context: &String, rows: &mut Vec<ReferenceRow>)
    ensures
        rows_view(final(rows)@) == rows_view(old(rows)@) + function_rows(*f, context@),
{
    let last = if f.name.len() > 0 {
        to_owned_string(f.name[f.name.len() - 1].as_str())
    } else {
        to_owned_string("")
    };
    let mut fn_context = to_owned_string(context.as_str());
    fn_context.append("::");
    fn_context.append(last.as_str());
    proof {
        reveal_strlit("");
    }
    assert(fn_context@ == function_ctx(*f, context@));
    let ps = &f.signature.parameters;
    let mut i: usize = 0;
    while i < ps.len()
        invariant
            i <= ps@.len(),
            rows_view(rows@) == rows_view(old(rows)@) + param_rows(fn_context@, ps@.take(i as int)),
        decreases ps.len() - i,
    {
        assert(ps@.take(i + 1).drop_last() == ps@.take(i as int));
        let p = &ps[i];
        let name = match &p.name {
            Some(n) => n.as_str(),
            None => "?",
        };
        row(rows, quoted("Param", name), &fn_context, &p.ty);
        i += 1;
    }
    assert(ps@.take(ps@.len() as int) == ps@);
    row(rows, to_owned_string("Return"), &fn_context, &f.signature.return_type);
    let ghost mid = rows_view(rows@);
    if let Some(body) = &f.body {
        visit_block(body, &fn_context, rows);
    } else {
        assert(mid + Seq::<RowV>::empty() == mid);
    }
}

/// Appends the references of functions, one after the other.
fn visit_functions(fs: &Vec<Function>, context: &String, rows: &mut Vec<ReferenceRow>)
    ensures
        rows_view(final(rows)@) == rows_view(old(rows)@) + functions_rows(fs@, context@),
{
    let mut i: usize = 0;
    while i < fs.len()
        invariant
            i <= fs@.len(),
            rows_view(rows@) == rows_view(old(rows)@) + functions_rows(fs@.take(i as int), context@),
        decreases fs.len() - i,
    {
        assert(fs@.take(i + 1).drop_last() == fs@.take(i as int));
        visit_function(&fs[i], context, rows);
        i += 1;
    }
    assert(fs@.take(fs@.len() as int) == fs@);
}

/// The references of a structured type: super-types, fields, methods and nested
/// types.
fn visit_structured_type(st: &StructuredType, rows: &mut Vec<ReferenceRow>)
    ensures
        rows_view(final(rows)@) == rows_view(old(rows)@) + type_rows(*st),
    decreases st,
{
    let context = join_strings(&st.name, "::");
    push_typed(rows, "SuperType", &context, &st.super_types);
    push_fields(rows, "Field", &context, &st.fields);
    visit_functions(&st.methods, &context, rows);
    let ghost mid = rows_view(rows@);
    let mut i: usize = 0;
    while i < st.nested_types.len()
        invariant
            i <= st.nested_types@.len(),
            rows_view(rows@) == mid + types_rows(st.nested_types@.take(i as int)),
        decreases st.nested_types.len() - i,
    {
        assert(st.nested_types@.take(i + 1).drop_last() == st.nested_types@.take(i as int));
        visit_structured_type(&st.nested_types[i], rows);
        i += 1;
    }
    assert(st.nested_types@.take(st.nested_types@.len() as int) == st.nested_types@);
}

/// The references of a module: its types, its free functions and its submodules.
fn visit_module(m: &Module, rows: &mut Vec<ReferenceRow>)
    ensures
        rows_view(final(rows)@) == rows_view(old(rows)@) + module_rows(*m),
    decreases m,
{
    let mut i: usize = 0;
    while i < m.structured_types.len()
        invariant
            i <= m.structured_types@.len(),
            rows_view(rows@) == rows_view(old(rows)@) + types_rows(m.structured_types@.take(i as int)),
        decreases m.structured_types.len() - i,
    {
        assert(m.structured_types@.take(i + 1).drop_last() == m.structured_types@.take(i as int));
        visit_structured_type(&m.structured_types[i], rows);
        i += 1;
    }
    assert(m.structured_types@.take(m.structured_types@.len() as int) == m.structured_types@);
    let context = join_strings(&m.name, "::");
    visit_functions(&m.free_functions, &context, rows);
    let ghost mid = rows_view(rows@);
    let mut i: usize = 0;
    while i < m.sub_modules.len()
        invariant
            i <= m.sub_modules@.len(),
            rows_view(rows@) == mid + modules_rows(m.sub_modules@.take(i as int)),
        decreases m.sub_modules.len() - i,
    {
        assert(m.sub_modules@.take(i + 1).drop_last() == m.sub_modules@.take(i as int));
        visit_module(&m.sub_modules[i], rows);
        i += 1;
    }
    assert(m.sub_modules@.take(m.sub_modules@.len() as int) == m.sub_modules@);
}

/// Every type reference of the modules, in the order a report lists them: per
/// module its types (super-types, fields, methods, nested types), its free
/// functions (parameters, return type, body), then its submodules.
pub fn reference_rows(modules: &Vec<Module>) -> (r: Vec<ReferenceRow>)
    ensures
        rows_view(r@) == modules_rows(modules@),
{
    let mut rows: Vec<ReferenceRow> = Vec::new();
    let mut i: usize = 0;
    assert(rows_view(rows@) =~= Seq::<RowV>::empty());
    while i < modules.len()
        invariant
            i <= modules@.len(),
            rows_view(rows@) == modules_rows(modules@.take(i as int)),
        decreases modules.len() - i,
    {
        assert(modules@.take(i + 1).drop_last() == modules@.take(i as int));
        visit_module(&modules[i], &mut rows);
        i += 1;
    }
    assert(modules@.take(modules@.len() as int) == modules@);
    rows
}

} // verus!
