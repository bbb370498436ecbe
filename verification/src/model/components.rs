//! The components of the intermediate representation and their mathematical values.
use super::queries::{clone_qn, clone_typerefs, typerefs_view, QualifiedName, TypeRef, TypeRefV};
use vstd::prelude::*;

verus! {

pub type Identifier = String;

/// Primitive types recognised across languages.
#[derive(Debug, Clone, PartialEq, Eq, PartialOrd, Ord, Hash)]
pub enum PrimitiveType {
    Int,
    Float,
    Bool,
    String,
    Void,
    Other(String),
}

/// The classification of a structured type.
#[derive(Debug, Clone, Copy, PartialEq, Eq, PartialOrd, Ord, Hash, Structural)]
pub enum StructuredTypeKind {
    Class,
    Struct,
    Interface,
    Trait,
    Enum,
    EnumVariant,
}

/// A named, typed member: a field, a local variable or a free variable.
#[derive(Debug, PartialEq)]
pub struct Field {
    pub name: Identifier,
    pub ty: TypeRef,
    pub annotations: Vec<TypeRef>,
}

/// A formal parameter of a function.
#[derive(Debug, PartialEq)]
pub struct Parameter {
    pub name: Option<Identifier>,
    pub ty: TypeRef,
    pub is_variadic: bool,
}

/// A generic type parameter with its bounds.
#[derive(Debug, PartialEq)]
pub struct TypeParameter {
    pub name: Identifier,
    pub bounds: Vec<TypeRef>,
}

/// The parameters and return type of a function.
#[derive(Debug, PartialEq)]
pub struct Signature {
    pub parameters: Vec<Parameter>,
    pub return_type: TypeRef,
}

/// A lexical block of a function body and the behavioural references found in it.
#[derive(Debug, PartialEq)]
pub struct Block {
    pub declarations: Vec<Field>,
    pub calls: Vec<TypeRef>,
    pub instantiates: Vec<TypeRef>,
    pub accesses: Vec<TypeRef>,
    pub type_casts: Vec<TypeRef>,
    pub sub_blocks: Vec<Block>,
}

/// A function or method.
#[derive(Debug, PartialEq)]
pub struct Function {
    pub name: QualifiedName,
    pub signature: Signature,
    pub body: Option<Block>,
    pub is_constructor: bool,
    pub annotations: Vec<TypeRef>,
    pub type_parameters: Vec<TypeParameter>,
}

/// A type alias (`type A = B;`, `typedef`, `using`).
#[derive(Debug, PartialEq)]
pub struct TypeAlias {
    pub name: QualifiedName,
    pub target: TypeRef,
}

/// An implementation block (`impl [Trait for] Type { .. }`).
#[derive(Debug, PartialEq)]
pub struct ImplBlock {
    pub name: QualifiedName,
    pub methods: Vec<Function>,
    pub impl_for: TypeRef,
    pub implements_trait: Option<TypeRef>,
    pub nested_types: Vec<StructuredType>,
    pub type_aliases: Vec<TypeAlias>,
}

/// A class, struct, interface, trait or enum.
#[derive(Debug, PartialEq)]
pub struct StructuredType {
    pub name: QualifiedName,
    pub kind: StructuredTypeKind,
    pub fields: Vec<Field>,
    pub methods: Vec<Function>,
    pub super_types: Vec<TypeRef>,
    pub nested_types: Vec<StructuredType>,
    pub annotations: Vec<TypeRef>,
    pub imports: Vec<Import>,
    pub type_parameters: Vec<TypeParameter>,
}

/// An import (`use`, `import`, `#include`).
#[derive(Debug, PartialEq)]
pub struct Import {
    pub path: QualifiedName,
    pub alias: Option<Identifier>,
    pub is_wildcard: bool,
}

/// A module, package or namespace and everything declared in it.
#[derive(Debug, PartialEq)]
pub struct Module {
    pub name: QualifiedName,
    pub language: Option<String>,
    pub file_path: Option<String>,
    pub imports: Vec<Import>,
    pub sub_modules: Vec<Module>,
    pub structured_types: Vec<StructuredType>,
    pub type_aliases: Vec<TypeAlias>,
    pub free_functions: Vec<Function>,
    pub impl_blocks: Vec<ImplBlock>,
    pub free_variables: Vec<Field>,
}

/// A node of the dependency graph.
#[derive(Debug, PartialEq)]
pub enum Component {
    Module(Module),
    StructuredType(StructuredType),
    Function(Function),
    TypeAlias(TypeAlias),
    Field(QualifiedName, TypeRef),
    Primitive(String),
    External(QualifiedName),
}

// ---------------------------------------------------------------------------
// Mathematical values
// ---------------------------------------------------------------------------

pub type QualifiedNameV = Seq<Seq<char>>;

pub struct FieldV {
    pub name: Seq<char>,
    pub ty: TypeRefV,
    pub annotations: Seq<TypeRefV>,
}

pub struct ParameterV {
    pub name: Option<Seq<char>>,
    pub ty: TypeRefV,
    pub is_variadic: bool,
}

pub struct TypeParameterV {
    pub name: Seq<char>,
    pub bounds: Seq<TypeRefV>,
}

pub struct SignatureV {
    pub parameters: Seq<ParameterV>,
    pub return_type: TypeRefV,
}

pub struct BlockV {
    pub declarations: Seq<FieldV>,
    pub calls: Seq<TypeRefV>,
    pub instantiates: Seq<TypeRefV>,
    pub accesses: Seq<TypeRefV>,
    pub type_casts: Seq<TypeRefV>,
    pub sub_blocks: Seq<BlockV>,
}

pub struct FunctionV {
    pub name: QualifiedNameV,
    pub signature: SignatureV,
    pub body: Option<BlockV>,
    pub is_constructor: bool,
    pub annotations: Seq<TypeRefV>,
    pub type_parameters: Seq<TypeParameterV>,
}

pub struct TypeAliasV {
    pub name: QualifiedNameV,
    pub target: TypeRefV,
}

pub struct ImportV {
    pub path: QualifiedNameV,
    pub alias: Option<Seq<char>>,
    pub is_wildcard: bool,
}

pub struct StructuredTypeV {
    pub name: QualifiedNameV,
    pub kind: StructuredTypeKind,
    pub fields: Seq<FieldV>,
    pub methods: Seq<FunctionV>,
    pub super_types: Seq<TypeRefV>,
    pub nested_types: Seq<StructuredTypeV>,
    pub annotations: Seq<TypeRefV>,
    pub imports: Seq<ImportV>,
    pub type_parameters: Seq<TypeParameterV>,
}

pub struct ImplBlockV {
    pub name: QualifiedNameV,
    pub methods: Seq<FunctionV>,
    pub impl_for: TypeRefV,
    pub implements_trait: Option<TypeRefV>,
    pub nested_types: Seq<StructuredTypeV>,
    pub type_aliases: Seq<TypeAliasV>,
}

pub struct ModuleV {
    pub name: QualifiedNameV,
    pub language: Option<Seq<char>>,
    pub file_path: Option<Seq<char>>,
    pub imports: Seq<ImportV>,
    pub sub_modules: Seq<ModuleV>,
    pub structured_types: Seq<StructuredTypeV>,
    pub type_aliases: Seq<TypeAliasV>,
    pub free_functions: Seq<FunctionV>,
    pub impl_blocks: Seq<ImplBlockV>,
    pub free_variables: Seq<FieldV>,
}

pub enum ComponentV {
    Module(ModuleV),
    StructuredType(StructuredTypeV),
    Function(FunctionV),
    TypeAlias(TypeAliasV),
    Field(QualifiedNameV, TypeRefV),
    Primitive(Seq<char>),
    External(QualifiedNameV),
}

pub open spec fn opt_str_view(o: Option<String>) -> Option<Seq<char>> {
    match o {
        Some(s) => Some(s@),
        None => None,
    }
}

pub open spec fn fields_view(s: Seq<Field>) -> Seq<FieldV> {
    s.map_values(|x: Field| x@)
}

/// Lists with pointwise equal values have equal values.
pub proof fn lemma_fields_view_ext(a: Seq<Field>, b: Seq<Field>)
    requires
        a.len() == b.len(),
        forall|i: int| 0 <= i < a.len() ==> #[trigger] a[i]@ == b[i]@,
    ensures
        fields_view(a) == fields_view(b),
{
    assert(fields_view(a) =~= fields_view(b));
}

pub open spec fn parameters_view(s: Seq<Parameter>) -> Seq<ParameterV> {
    s.map_values(|x: Parameter| x@)
}

/// Lists with pointwise equal values have equal values.
pub proof fn lemma_parameters_view_ext(a: Seq<Parameter>, b: Seq<Parameter>)
    requires
        a.len() == b.len(),
        forall|i: int| 0 <= i < a.len() ==> #[trigger] a[i]@ == b[i]@,
    ensures
        parameters_view(a) == parameters_view(b),
{
    assert(parameters_view(a) =~= parameters_view(b));
}

pub open spec fn type_parameters_view(s: Seq<TypeParameter>) -> Seq<TypeParameterV> {
    s.map_values(|x: TypeParameter| x@)
}

/// Lists with pointwise equal values have equal values.
pub proof fn lemma_type_parameters_view_ext(a: Seq<TypeParameter>, b: Seq<TypeParameter>)
    requires
        a.len() == b.len(),
        forall|i: int| 0 <= i < a.len() ==> #[trigger] a[i]@ == b[i]@,
    ensures
        type_parameters_view(a) == type_parameters_view(b),
{
    assert(type_parameters_view(a) =~= type_parameters_view(b));
}

pub open spec fn functions_view(s: Seq<Function>) -> Seq<FunctionV> {
    s.map_values(|x: Function| x@)
}

/// Lists with pointwise equal values have equal values.
pub proof fn lemma_functions_view_ext(a: Seq<Function>, b: Seq<Function>)
    requires
        a.len() == b.len(),
        forall|i: int| 0 <= i < a.len() ==> #[trigger] a[i]@ == b[i]@,
    ensures
        functions_view(a) == functions_view(b),
{
    assert(functions_view(a) =~= functions_view(b));
}

pub open spec fn type_aliases_view(s: Seq<TypeAlias>) -> Seq<TypeAliasV> {
    s.map_values(|x: TypeAlias| x@)
}

/// Lists with pointwise equal values have equal values.
pub proof fn lemma_type_aliases_view_ext(a: Seq<TypeAlias>, b: Seq<TypeAlias>)
    requires
        a.len() == b.len(),
        forall|i: int| 0 <= i < a.len() ==> #[trigger] a[i]@ == b[i]@,
    ensures
        type_aliases_view(a) == type_aliases_view(b),
{
    assert(type_aliases_view(a) =~= type_aliases_view(b));
}

pub open spec fn imports_view(s: Seq<Import>) -> Seq<ImportV> {
    s.map_values(|x: Import| x@)
}

/// Lists with pointwise equal values have equal values.
pub proof fn lemma_imports_view_ext(a: Seq<Import>, b: Seq<Import>)
    requires
        a.len() == b.len(),
        forall|i: int| 0 <= i < a.len() ==> #[trigger] a[i]@ == b[i]@,
    ensures
        imports_view(a) == imports_view(b),
{
    assert(imports_view(a) =~= imports_view(b));
}

pub open spec fn impl_blocks_view(s: Seq<ImplBlock>) -> Seq<ImplBlockV> {
    s.map_values(|x: ImplBlock| x@)
}

/// Lists with pointwise equal values have equal values.
pub proof fn lemma_impl_blocks_view_ext(a: Seq<ImplBlock>, b: Seq<ImplBlock>)
    requires
        a.len() == b.len(),
        forall|i: int| 0 <= i < a.len() ==> #[trigger] a[i]@ == b[i]@,
    ensures
        impl_blocks_view(a) == impl_blocks_view(b),
{
    assert(impl_blocks_view(a) =~= impl_blocks_view(b));
}

pub open spec fn components_view(s: Seq<Component>) -> Seq<ComponentV> {
    s.map_values(|x: Component| x@)
}

/// Lists with pointwise equal values have equal values.
pub proof fn lemma_components_view_ext(a: Seq<Component>, b: Seq<Component>)
    requires
        a.len() == b.len(),
        forall|i: int| 0 <= i < a.len() ==> #[trigger] a[i]@ == b[i]@,
    ensures
        components_view(a) == components_view(b),
{
    assert(components_view(a) =~= components_view(b));
}

impl View for Field {
    type V = FieldV;

    open spec fn view(&self) -> FieldV {
        FieldV { name: self.name@, ty: self.ty@, annotations: typerefs_view(self.annotations@) }
    }
}

impl View for Parameter {
    type V = ParameterV;

    open spec fn view(&self) -> ParameterV {
        ParameterV { name: opt_str_view(self.name), ty: self.ty@, is_variadic: self.is_variadic }
    }
}

impl View for TypeParameter {
    type V = TypeParameterV;

    open spec fn view(&self) -> TypeParameterV {
        TypeParameterV { name: self.name@, bounds: typerefs_view(self.bounds@) }
    }
}

impl View for Signature {
    type V = SignatureV;

    open spec fn view(&self) -> SignatureV {
        SignatureV {
            parameters: parameters_view(self.parameters@),
            return_type: self.return_type@,
        }
    }
}

pub open spec fn block_view(b: Block) -> BlockV
    decreases b, 0nat,
{
    BlockV {
        declarations: fields_view(b.declarations@),
        calls: typerefs_view(b.calls@),
        instantiates: typerefs_view(b.instantiates@),
        accesses: typerefs_view(b.accesses@),
        type_casts: typerefs_view(b.type_casts@),
        sub_blocks: blocks_view(b.sub_blocks@),
    }
}

pub open spec fn blocks_view(s: Seq<Block>) -> Seq<BlockV>
    decreases s, 1nat,
{
    if s.len() == 0 {
        Seq::empty()
    } else {
        seq![block_view(s[0])] + blocks_view(s.drop_first())
    }
}

impl View for Block {
    type V = BlockV;

    open spec fn view(&self) -> BlockV {
        block_view(*self)
    }
}

pub open spec fn opt_block_view(o: Option<Block>) -> Option<BlockV> {
    match o {
        Some(b) => Some(b@),
        None => None,
    }
}

pub open spec fn opt_typeref_view(o: Option<TypeRef>) -> Option<TypeRefV> {
    match o {
        Some(t) => Some(t@),
        None => None,
    }
}

impl View for Function {
    type V = FunctionV;

    open spec fn view(&self) -> FunctionV {
        FunctionV {
            name: self.name.deep_view(),
            signature: self.signature@,
            body: opt_block_view(self.body),
            is_constructor: self.is_constructor,
            annotations: typerefs_view(self.annotations@),
            type_parameters: type_parameters_view(self.type_parameters@),
        }
    }
}

impl View for TypeAlias {
    type V = TypeAliasV;

    open spec fn view(&self) -> TypeAliasV {
        TypeAliasV { name: self.name.deep_view(), target: self.target@ }
    }
}

impl View for Import {
    type V = ImportV;

    open spec fn view(&self) -> ImportV {
        ImportV {
            path: self.path.deep_view(),
            alias: opt_str_view(self.alias),
            is_wildcard: self.is_wildcard,
        }
    }
}

pub open spec fn structured_type_view(st: StructuredType) -> StructuredTypeV
    decreases st, 0nat,
{
    StructuredTypeV {
        name: st.name.deep_view(),
        kind: st.kind,
        fields: fields_view(st.fields@),
        methods: functions_view(st.methods@),
        super_types: typerefs_view(st.super_types@),
        nested_types: structured_types_view(st.nested_types@),
        annotations: typerefs_view(st.annotations@),
        imports: imports_view(st.imports@),
        type_parameters: type_parameters_view(st.type_parameters@),
    }
}

pub open spec fn structured_types_view(s: Seq<StructuredType>) -> Seq<StructuredTypeV>
    decreases s, 1nat,
{
    if s.len() == 0 {
        Seq::empty()
    } else {
        seq![structured_type_view(s[0])] + structured_types_view(s.drop_first())
    }
}

impl View for StructuredType {
    type V = StructuredTypeV;

    open spec fn view(&self) -> StructuredTypeV {
        structured_type_view(*self)
    }
}

impl View for ImplBlock {
    type V = ImplBlockV;

    open spec fn view(&self) -> ImplBlockV {
        ImplBlockV {
            name: self.name.deep_view(),
            methods: functions_view(self.methods@),
            impl_for: self.impl_for@,
            implements_trait: opt_typeref_view(self.implements_trait),
            nested_types: structured_types_view(self.nested_types@),
            type_aliases: type_aliases_view(self.type_aliases@),
        }
    }
}

pub open spec fn module_view(m: Module) -> ModuleV
    decreases m, 0nat,
{
    ModuleV {
        name: m.name.deep_view(),
        language: opt_str_view(m.language),
        file_path: opt_str_view(m.file_path),
        imports: imports_view(m.imports@),
        sub_modules: modules_view(m.sub_modules@),
        structured_types: structured_types_view(m.structured_types@),
        type_aliases: type_aliases_view(m.type_aliases@),
        free_functions: functions_view(m.free_functions@),
        impl_blocks: impl_blocks_view(m.impl_blocks@),
        free_variables: fields_view(m.free_variables@),
    }
}

pub open spec fn modules_view(s: Seq<Module>) -> Seq<ModuleV>
    decreases s, 1nat,
{
    if s.len() == 0 {
        Seq::empty()
    } else {
        seq![module_view(s[0])] + modules_view(s.drop_first())
    }
}

impl View for Module {
    type V = ModuleV;

    open spec fn view(&self) -> ModuleV {
        module_view(*self)
    }
}

/// `blocks_view` maps each element by its value.
pub proof fn lemma_blocks_view(s: Seq<Block>)
    ensures
        blocks_view(s).len() == s.len(),
        forall|i: int| 0 <= i < s.len() ==> #[trigger] blocks_view(s)[i] == s[i]@,
    decreases s.len(),
{
    if s.len() > 0 {
        lemma_blocks_view(s.drop_first());
        assert forall|i: int| 0 <= i < s.len() implies #[trigger] blocks_view(s)[i] == s[i]@ by {
            if i > 0 {
                assert(s.drop_first()[i - 1] == s[i]);
            }
        }
    }
}

/// Lists with pointwise equal values have equal values.
pub proof fn lemma_blocks_view_ext(a: Seq<Block>, b: Seq<Block>)
    requires
        a.len() == b.len(),
        forall|i: int| 0 <= i < a.len() ==> #[trigger] a[i]@ == b[i]@,
    ensures
        blocks_view(a) == blocks_view(b),
{
    lemma_blocks_view(a);
    lemma_blocks_view(b);
    assert(blocks_view(a) =~= blocks_view(b));
}

/// `structured_types_view` maps each element by its value.
pub proof fn lemma_structured_types_view(s: Seq<StructuredType>)
    ensures
        structured_types_view(s).len() == s.len(),
        forall|i: int| 0 <= i < s.len() ==> #[trigger] structured_types_view(s)[i] == s[i]@,
    decreases s.len(),
{
    if s.len() > 0 {
        lemma_structured_types_view(s.drop_first());
        assert forall|i: int| 0 <= i < s.len() implies #[trigger] structured_types_view(s)[i] == s[i]@ by {
            if i > 0 {
                assert(s.drop_first()[i - 1] == s[i]);
            }
        }
    }
}

/// Lists with pointwise equal values have equal values.
pub proof fn lemma_structured_types_view_ext(a: Seq<StructuredType>, b: Seq<StructuredType>)
    requires
        a.len() == b.len(),
        forall|i: int| 0 <= i < a.len() ==> #[trigger] a[i]@ == b[i]@,
    ensures
        structured_types_view(a) == structured_types_view(b),
{
    lemma_structured_types_view(a);
    lemma_structured_types_view(b);
    assert(structured_types_view(a) =~= structured_types_view(b));
}

/// `modules_view` maps each element by its value.
pub proof fn lemma_modules_view(s: Seq<Module>)
    ensures
        modules_view(s).len() == s.len(),
        forall|i: int| 0 <= i < s.len() ==> #[trigger] modules_view(s)[i] == s[i]@,
    decreases s.len(),
{
    if s.len() > 0 {
        lemma_modules_view(s.drop_first());
        assert forall|i: int| 0 <= i < s.len() implies #[trigger] modules_view(s)[i] == s[i]@ by {
            if i > 0 {
                assert(s.drop_first()[i - 1] == s[i]);
            }
        }
    }
}

/// Lists with pointwise equal values have equal values.
pub proof fn lemma_modules_view_ext(a: Seq<Module>, b: Seq<Module>)
    requires
        a.len() == b.len(),
        forall|i: int| 0 <= i < a.len() ==> #[trigger] a[i]@ == b[i]@,
    ensures
        modules_view(a) == modules_view(b),
{
    lemma_modules_view(a);
    lemma_modules_view(b);
    assert(modules_view(a) =~= modules_view(b));
}

impl View for Component {
    type V = ComponentV;

    open spec fn view(&self) -> ComponentV {
        match *self {
            Component::Module(m) => ComponentV::Module(m@),
            Component::StructuredType(s) => ComponentV::StructuredType(s@),
            Component::Function(f) => ComponentV::Function(f@),
            Component::TypeAlias(t) => ComponentV::TypeAlias(t@),
            Component::Field(n, t) => ComponentV::Field(n.deep_view(), t@),
            Component::Primitive(p) => ComponentV::Primitive(p@),
            Component::External(n) => ComponentV::External(n.deep_view()),
        }
    }
}

// ---------------------------------------------------------------------------
// Copies
// ---------------------------------------------------------------------------

/// A copy of an optional string, with the same value.
pub fn clone_opt_string(o: &Option<String>) -> (r: Option<String>)
    ensures
        opt_str_view(r) == opt_str_view(*o),
        r == *o,
{
    match o {
        Some(s) => Some(s.clone()),
        None => None,
    }
}

impl Field {
    pub fn duplicate(&self) -> (r: Field)
        ensures
            r@ == self@,
    {
        Field { name: self.name.clone(), ty: self.ty.duplicate(), annotations: clone_typerefs(&self.annotations) }
    }
}

impl Parameter {
    pub fn duplicate(&self) -> (r: Parameter)
        ensures
            r@ == self@,
    {
        Parameter { name: clone_opt_string(&self.name), ty: self.ty.duplicate(), is_variadic: self.is_variadic }
    }
}

impl TypeParameter {
    pub fn duplicate(&self) -> (r: TypeParameter)
        ensures
            r@ == self@,
    {
        TypeParameter { name: self.name.clone(), bounds: clone_typerefs(&self.bounds) }
    }
}

impl Signature {
    pub fn duplicate(&self) -> (r: Signature)
        ensures
            r@ == self@,
    {
        Signature { parameters: dup_parameters(&self.parameters), return_type: self.return_type.duplicate() }
    }
}

impl TypeAlias {
    pub fn duplicate(&self) -> (r: TypeAlias)
        ensures
            r@ == self@,
    {
        TypeAlias { name: clone_qn(&self.name), target: self.target.duplicate() }
    }
}

impl Import {
    pub fn duplicate(&self) -> (r: Import)
        ensures
            r@ == self@,
    {
        Import { path: clone_qn(&self.path), alias: clone_opt_string(&self.alias), is_wildcard: self.is_wildcard }
    }
}

impl Block {
    pub fn duplicate(&self) -> (r: Block)
        ensures
            r@ == self@,
        decreases self,
    {
        Block {
            declarations: dup_fields(&self.declarations),
            calls: clone_typerefs(&self.calls),
            instantiates: clone_typerefs(&self.instantiates),
            accesses: clone_typerefs(&self.accesses),
            type_casts: clone_typerefs(&self.type_casts),
            sub_blocks: dup_blocks(&self.sub_blocks),
        }
    }
}

impl Function {
    pub fn duplicate(&self) -> (r: Function)
        ensures
            r@ == self@,
    {
        Function {
            name: clone_qn(&self.name),
            signature: self.signature.duplicate(),
            body: match &self.body {
                Some(b) => Some(b.duplicate()),
                None => None,
            },
            is_constructor: self.is_constructor,
            annotations: clone_typerefs(&self.annotations),
            type_parameters: dup_type_parameters(&self.type_parameters),
        }
    }
}

impl StructuredType {
    pub fn duplicate(&self) -> (r: StructuredType)
        ensures
            r@ == self@,
        decreases self,
    {
        StructuredType {
            name: clone_qn(&self.name),
            kind: self.kind,
            fields: dup_fields(&self.fields),
            methods: dup_functions(&self.methods),
            super_types: clone_typerefs(&self.super_types),
            nested_types: dup_structured_types(&self.nested_types),
            annotations: clone_typerefs(&self.annotations),
            imports: dup_imports(&self.imports),
            type_parameters: dup_type_parameters(&self.type_parameters),
        }
    }
}

impl ImplBlock {
    pub fn duplicate(&self) -> (r: ImplBlock)
        ensures
            r@ == self@,
    {
        ImplBlock {
            name: clone_qn(&self.name),
            methods: dup_functions(&self.methods),
            impl_for: self.impl_for.duplicate(),
            implements_trait: match &self.implements_trait {
                Some(t) => Some(t.duplicate()),
                None => None,
            },
            nested_types: dup_structured_types(&self.nested_types),
            type_aliases: dup_type_aliases(&self.type_aliases),
        }
    }
}

impl Module {
    pub fn duplicate(&self) -> (r: Module)
        ensures
            r@ == self@,
        decreases self,
    {
        Module {
            name: clone_qn(&self.name),
            language: clone_opt_string(&self.language),
            file_path: clone_opt_string(&self.file_path),
            imports: dup_imports(&self.imports),
            sub_modules: dup_modules(&self.sub_modules),
            structured_types: dup_structured_types(&self.structured_types),
            type_aliases: dup_type_aliases(&self.type_aliases),
            free_functions: dup_functions(&self.free_functions),
            impl_blocks: dup_impl_blocks(&self.impl_blocks),
            free_variables: dup_fields(&self.free_variables),
        }
    }
}

impl Component {
    pub fn duplicate(&self) -> (r: Component)
        ensures
            r@ == self@,
    {
        match self {
            Component::Module(m) => Component::Module(m.duplicate()),
            Component::StructuredType(st) => Component::StructuredType(st.duplicate()),
            Component::Function(f) => Component::Function(f.duplicate()),
            Component::TypeAlias(t) => Component::TypeAlias(t.duplicate()),
            Component::Field(n, t) => Component::Field(clone_qn(n), t.duplicate()),
            Component::Primitive(p) => Component::Primitive(p.clone()),
            Component::External(n) => Component::External(clone_qn(n)),
        }
    }
}

/// A copy of a list, element by element.
pub fn dup_fields(v: &Vec<Field>) -> (r: Vec<Field>)
    ensures
        r@.len() == v@.len(),
        forall|i: int| 0 <= i < v@.len() ==> #[trigger] r@[i]@ == v@[i]@,
        fields_view(r@) == fields_view(v@),
{
    let mut out: Vec<Field> = Vec::new();
    let mut i: usize = 0;
    while i < v.len()
        invariant
            i <= v@.len(),
            out@.len() == i,
            forall|j: int| 0 <= j < i ==> #[trigger] out@[j]@ == v@[j]@,
        decreases v.len() - i,
    {
        out.push(v[i].duplicate());
        i += 1;
    }
    proof {
        lemma_fields_view_ext(out@, v@);
    }
    out
}

/// A copy of a list, element by element.
pub fn dup_parameters(v: &Vec<Parameter>) -> (r: Vec<Parameter>)
    ensures
        r@.len() == v@.len(),
        forall|i: int| 0 <= i < v@.len() ==> #[trigger] r@[i]@ == v@[i]@,
        parameters_view(r@) == parameters_view(v@),
{
    let mut out: Vec<Parameter> = Vec::new();
    let mut i: usize = 0;
    while i < v.len()
        invariant
            i <= v@.len(),
            out@.len() == i,
            forall|j: int| 0 <= j < i ==> #[trigger] out@[j]@ == v@[j]@,
        decreases v.len() - i,
    {
        out.push(v[i].duplicate());
        i += 1;
    }
    proof {
        lemma_parameters_view_ext(out@, v@);
    }
    out
}

/// A copy of a list, element by element.
pub fn dup_type_parameters(v: &Vec<TypeParameter>) -> (r: Vec<TypeParameter>)
    ensures
        r@.len() == v@.len(),
        forall|i: int| 0 <= i < v@.len() ==> #[trigger] r@[i]@ == v@[i]@,
        type_parameters_view(r@) == type_parameters_view(v@),
{
    let mut out: Vec<TypeParameter> = Vec::new();
    let mut i: usize = 0;
    while i < v.len()
        invariant
            i <= v@.len(),
            out@.len() == i,
            forall|j: int| 0 <= j < i ==> #[trigger] out@[j]@ == v@[j]@,
        decreases v.len() - i,
    {
        out.push(v[i].duplicate());
        i += 1;
    }
    proof {
        lemma_type_parameters_view_ext(out@, v@);
    }
    out
}

/// A copy of a list, element by element.
pub fn dup_functions(v: &Vec<Function>) -> (r: Vec<Function>)
    ensures
        r@.len() == v@.len(),
        forall|i: int| 0 <= i < v@.len() ==> #[trigger] r@[i]@ == v@[i]@,
        functions_view(r@) == functions_view(v@),
{
    let mut out: Vec<Function> = Vec::new();
    let mut i: usize = 0;
    while i < v.len()
        invariant
            i <= v@.len(),
            out@.len() == i,
            forall|j: int| 0 <= j < i ==> #[trigger] out@[j]@ == v@[j]@,
        decreases v.len() - i,
    {
        out.push(v[i].duplicate());
        i += 1;
    }
    proof {
        lemma_functions_view_ext(out@, v@);
    }
    out
}

/// A copy of a list, element by element.
pub fn dup_type_aliases(v: &Vec<TypeAlias>) -> (r: Vec<TypeAlias>)
    ensures
        r@.len() == v@.len(),
        forall|i: int| 0 <= i < v@.len() ==> #[trigger] r@[i]@ == v@[i]@,
        type_aliases_view(r@) == type_aliases_view(v@),
{
    let mut out: Vec<TypeAlias> = Vec::new();
    let mut i: usize = 0;
    while i < v.len()
        invariant
            i <= v@.len(),
            out@.len() == i,
            forall|j: int| 0 <= j < i ==> #[trigger] out@[j]@ == v@[j]@,
        decreases v.len() - i,
    {
        out.push(v[i].duplicate());
        i += 1;
    }
    proof {
        lemma_type_aliases_view_ext(out@, v@);
    }
    out
}

/// A copy of a list, element by element.
pub fn dup_imports(v: &Vec<Import>) -> (r: Vec<Import>)
    ensures
        r@.len() == v@.len(),
        forall|i: int| 0 <= i < v@.len() ==> #[trigger] r@[i]@ == v@[i]@,
        imports_view(r@) == imports_view(v@),
{
    let mut out: Vec<Import> = Vec::new();
    let mut i: usize = 0;
    while i < v.len()
        invariant
            i <= v@.len(),
            out@.len() == i,
            forall|j: int| 0 <= j < i ==> #[trigger] out@[j]@ == v@[j]@,
        decreases v.len() - i,
    {
        out.push(v[i].duplicate());
        i += 1;
    }
    proof {
        lemma_imports_view_ext(out@, v@);
    }
    out
}

/// A copy of a list, element by element.
pub fn dup_impl_blocks(v: &Vec<ImplBlock>) -> (r: Vec<ImplBlock>)
    ensures
        r@.len() == v@.len(),
        forall|i: int| 0 <= i < v@.len() ==> #[trigger] r@[i]@ == v@[i]@,
        impl_blocks_view(r@) == impl_blocks_view(v@),
{
    let mut out: Vec<ImplBlock> = Vec::new();
    let mut i: usize = 0;
    while i < v.len()
        invariant
            i <= v@.len(),
            out@.len() == i,
            forall|j: int| 0 <= j < i ==> #[trigger] out@[j]@ == v@[j]@,
        decreases v.len() - i,
    {
        out.push(v[i].duplicate());
        i += 1;
    }
    proof {
        lemma_impl_blocks_view_ext(out@, v@);
    }
    out
}

/// A copy of a list, element by element.
pub fn dup_blocks(v: &Vec<Block>) -> (r: Vec<Block>)
    ensures
        r@.len() == v@.len(),
        forall|i: int| 0 <= i < v@.len() ==> #[trigger] r@[i]@ == v@[i]@,
        blocks_view(r@) == blocks_view(v@),
    decreases v,
{
    let mut out: Vec<Block> = Vec::new();
    let mut i: usize = 0;
    while i < v.len()
        invariant
            i <= v@.len(),
            out@.len() == i,
            forall|j: int| 0 <= j < i ==> #[trigger] out@[j]@ == v@[j]@,
        decreases v.len() - i,
    {
        out.push(v[i].duplicate());
        i += 1;
    }
    proof {
        lemma_blocks_view_ext(out@, v@);
    }
    out
}

/// A copy of a list, element by element.
pub fn dup_structured_types(v: &Vec<StructuredType>) -> (r: Vec<StructuredType>)
    ensures
        r@.len() == v@.len(),
        forall|i: int| 0 <= i < v@.len() ==> #[trigger] r@[i]@ == v@[i]@,
        structured_types_view(r@) == structured_types_view(v@),
    decreases v,
{
    let mut out: Vec<StructuredType> = Vec::new();
    let mut i: usize = 0;
    while i < v.len()
        invariant
            i <= v@.len(),
            out@.len() == i,
            forall|j: int| 0 <= j < i ==> #[trigger] out@[j]@ == v@[j]@,
        decreases v.len() - i,
    {
        out.push(v[i].duplicate());
        i += 1;
    }
    proof {
        lemma_structured_types_view_ext(out@, v@);
    }
    out
}

/// A copy of a list, element by element.
pub fn dup_modules(v: &Vec<Module>) -> (r: Vec<Module>)
    ensures
        r@.len() == v@.len(),
        forall|i: int| 0 <= i < v@.len() ==> #[trigger] r@[i]@ == v@[i]@,
        modules_view(r@) == modules_view(v@),
    decreases v,
{
    let mut out: Vec<Module> = Vec::new();
    let mut i: usize = 0;
    while i < v.len()
        invariant
            i <= v@.len(),
            out@.len() == i,
            forall|j: int| 0 <= j < i ==> #[trigger] out@[j]@ == v@[j]@,
        decreases v.len() - i,
    {
        out.push(v[i].duplicate());
        i += 1;
    }
    proof {
        lemma_modules_view_ext(out@, v@);
    }
    out
}

} // verus!
