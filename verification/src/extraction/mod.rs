//! Extraction: reading source files into modules of the model and placing them in
//! the module hierarchy.
pub mod strategies;

use crate::config::AnalyzerConfig;
use crate::extraction::strategies::{
    apply_directory_strategy, apply_package_strategy, link_out_of_line_methods,
    simple_free_functions,
};
use crate::heuristics::parsers::try_parse_package_declaration;
use crate::heuristics::{dispatch_node, node_kind, NodeKind, ParsedItem};
use crate::language::SupportedLanguage;
use crate::model::components::{dup_imports, Component, Field, Module, StructuredType};
use crate::model::queries::TypeRef;
use crate::resolver::primitives::PrimitiveRegistry;
use crate::syntax::SyntaxTree;
use crate::text_util::{str_contains, to_owned_string};
use vstd::prelude::*;

verus! {

/// Why a source text could not be read.
#[derive(Debug, Clone, Copy, PartialEq, Eq, Structural)]
pub enum ExtractionError {
    /// The parser gave no syntax tree.
    ParseFailed,
}

/// An empty module named `root`.
fn root_module(lang_name: &str, file_path: Option<String>) -> (r: Module)
    ensures
        r.name@.len() == 1,
        r.name@[0]@ == "root"@,
        r.imports@.len() == 0,
        r.sub_modules@.len() == 0,
        r.structured_types@.len() == 0,
        r.type_aliases@.len() == 0,
        r.free_functions@.len() == 0,
        r.impl_blocks@.len() == 0,
        r.free_variables@.len() == 0,
        crate::model::components::opt_str_view(r.language) == Some(lang_name@),
        r.file_path == file_path,
{
    Module {
        name: vec![to_owned_string("root")],
        language: Some(to_owned_string(lang_name)),
        file_path,
        imports: Vec::new(),
        sub_modules: Vec::new(),
        structured_types: Vec::new(),
        type_aliases: Vec::new(),
        free_functions: Vec::new(),
        impl_blocks: Vec::new(),
        free_variables: Vec::new(),
    }
}

fn clone_opt(o: &Option<String>) -> (r: Option<String>)
    ensures
        crate::model::components::opt_str_view(r) == crate::model::components::opt_str_view(*o),
{
    match o {
        Some(s) => Some(to_owned_string(s.as_str())),
        None => None,
    }
}

/// Whether the modules list after a walk has the shape the walk keeps: a list that
/// had a first module keeps its length; an empty one gets at most a `root` module.
pub open spec fn walk_kept(before: Seq<Module>, after: Seq<Module>) -> bool {
    if before.len() > 0 {
        after.len() == before.len() && after[0].name == before[0].name
    } else {
        after.len() <= 1 && (after.len() == 1 ==> after[0].name@.len() == 1 && after[0].name@[0]@
            == "root"@)
    }
}

/// Every module after the first is as it was.
pub open spec fn tail_kept(before: Seq<Module>, after: Seq<Module>) -> bool {
    forall|i: int| 1 <= i < before.len() ==> #[trigger] after[i] == before[i]
}

/// Whether a node is an import whose paths the heuristics read.
pub open spec fn import_node(tree: SyntaxTree, node: int) -> bool {
    crate::heuristics::parsers::import_like_kind(tree.kind_of(node)) && crate::heuristics::parsers::import_paths(
        tree,
        node,
    ).len() > 0
}

/// The imports of the first module, none where there is no module.
pub open spec fn first_imports(ms: Seq<Module>) -> Seq<crate::model::components::Import> {
    if ms.len() > 0 {
        ms[0].imports@
    } else {
        Seq::empty()
    }
}

/// After the walk of an import node: the first module's imports gained those the node reads,
/// in order, and nothing else of a module that was there changed.
pub open spec fn imports_added(tree: SyntaxTree, node: int, before: Seq<Module>, after: Seq<Module>) -> bool {
    let paths = crate::heuristics::parsers::import_paths(tree, node);
    let base = first_imports(before);
    &&& after.len() >= 1
    &&& after[0].imports@.len() == base.len() + paths.len()
    &&& forall|k: int| 0 <= k < base.len() ==> #[trigger] after[0].imports@[k] == base[k]
    &&& forall|k: int| 0 <= k < paths.len() ==> (#[trigger] after[0].imports@[base.len() + k]).path.deep_view() == paths[k]
    &&& before.len() > 0 ==> after[0] == (Module { imports: after[0].imports, ..before[0] })
}

proof fn lemma_first_replaced(a: Seq<Module>, x: Module)
    requires
        a.len() > 0,
    ensures
        tail_kept(a, a.remove(0).insert(0, x)),
        a.remove(0).insert(0, x).len() == a.len(),
        a.remove(0).insert(0, x)[0] == x,
{
    let b = a.remove(0).insert(0, x);
    assert forall|i: int| 1 <= i < a.len() implies #[trigger] b[i] == a[i] by {
        assert(b[i] == a.remove(0)[i - 1]);
    }
}

/// `a` is the start of `b`.
pub open spec fn is_prefix<T>(a: Seq<T>, b: Seq<T>) -> bool {
    a.len() <= b.len() && forall|i: int| 0 <= i < a.len() ==> #[trigger] b[i] == a[i]
}

/// The first module only grew: it keeps its name, and each of its lists keeps what it held, in
/// front.
pub open spec fn first_grew(before: Seq<Module>, after: Seq<Module>) -> bool {
    before.len() > 0 ==> {
        let a = before[0];
        let b = after[0];
        &&& after.len() > 0
        &&& b.name == a.name
        &&& is_prefix(a.imports@, b.imports@)
        &&& is_prefix(a.sub_modules@, b.sub_modules@)
        &&& is_prefix(a.structured_types@, b.structured_types@)
        &&& is_prefix(a.type_aliases@, b.type_aliases@)
        &&& is_prefix(a.free_functions@, b.free_functions@)
        &&& is_prefix(a.impl_blocks@, b.impl_blocks@)
        &&& is_prefix(a.free_variables@, b.free_variables@)
    }
}

/// The number of submodules, types, aliases, free functions and impl blocks of the first
/// module (none where there is no module).
pub open spec fn first_counts(ms: Seq<Module>) -> (int, int, int, int, int) {
    if ms.len() > 0 {
        (
            ms[0].sub_modules@.len() as int,
            ms[0].structured_types@.len() as int,
            ms[0].type_aliases@.len() as int,
            ms[0].free_functions@.len() as int,
            ms[0].impl_blocks@.len() as int,
        )
    } else {
        (0, 0, 0, 0, 0)
    }
}

/// What the walk of a node adds to the first module, by what the node is taken for: a module
/// becomes one more submodule, a structured type one more type, a type alias one more alias,
/// an impl block one more impl block (as read from the node), a function at least one more
/// free function (its body's may follow).
pub open spec fn walk_added(tree: SyntaxTree, node: int, kind: NodeKind, before: Seq<Module>, after: Seq<Module>) -> bool {
    let c = first_counts(before);
    &&& kind is Module ==> after.len() > 0 && after[0].sub_modules@.len() == c.0 + 1
    &&& kind is StructuredType ==> after.len() > 0 && after[0].structured_types@.len() == c.1 + 1
    &&& kind is TypeAlias ==> after.len() > 0 && after[0].type_aliases@.len() == c.2 + 1
    &&& kind is Function ==> after.len() > 0 && after[0].free_functions@.len() > c.3
    &&& kind is ImplBlock ==> after.len() > 0 && after[0].impl_blocks@.len() == c.4 + 1
        && crate::heuristics::parsers::impl_read_from(tree, node, after[0].impl_blocks@[c.4])
}

/// Recursively traverses the syntax tree. A recognised component is added to the
/// first module (created as `root` where there is none) and the walk does not
/// descend into it, except into a module, whose contents become its own, and into
/// the body of a function. Attributes wait in `pending_attributes` for the next
/// type, function or variable.
fn walk_cst(
    tree: &SyntaxTree,
    node: usize,
    modules: &mut Vec<Module>,
    pending_attributes: &mut Vec<TypeRef>,
    lang_name: &str,
    file_path: &Option<String>,
    config: &AnalyzerConfig,
)
    requires
        tree.wf(),
        node < tree.size(),
        config.wf(),
    ensures
        walk_kept(old(modules)@, final(modules)@),
        tail_kept(old(modules)@, final(modules)@),
        import_node(*tree, node as int) ==> imports_added(*tree, node as int, old(modules)@, final(modules)@),
        first_grew(old(modules)@, final(modules)@),
        walk_added(*tree, node as int, node_kind(*tree, node as int, lang_name@, *config), old(modules)@, final(modules)@),
    decreases tree.size() - node,
{
    let ghost before = modules@;
    if let Some(comp) = dispatch_node(tree, node, lang_name, config) {
        if modules.len() == 0 {
            let rm = root_module(lang_name, clone_opt(file_path));
            assert(rm.imports@.len() == 0);
            modules.push(rm);
        }
        let ghost mid = modules@;
        assert(first_counts(mid) == first_counts(before));
        assert(first_grew(before, mid));
        assert(tail_kept(before, mid));
        assert(mid[0].imports@ == first_imports(before));
        let ghost first_name = modules@[0].name;
        let ghost count = modules@.len();
        assert(walk_kept(before, modules@));
        match comp {
            ParsedItem::Component(Component::Module(m)) => {
                let mut new_modules: Vec<Module> = vec![m];
                let kids = tree.children(node);
                let mut i: usize = 0;
                while i < kids.len()
                    invariant
                        tree.wf(),
                        config.wf(),
                        node < tree.size(),
                        new_modules@.len() == 1,
                        modules@ == mid,
                        forall|k: int| 0 <= k < kids@.len() ==> node < #[trigger] kids@[k] < tree.size(),
                    decreases kids.len() - i,
                {
                    walk_cst(
                        tree,
                        kids[i],
                        &mut new_modules,
                        pending_attributes,
                        lang_name,
                        file_path,
                        config,
                    );
                    i += 1;
                }
                let sub = new_modules.remove(0);
                let mut first = modules.remove(0);
                first.sub_modules.push(sub);
                modules.insert(0, first);
                proof {
                    lemma_first_replaced(mid, modules@[0]);
                }
            },
            ParsedItem::Component(Component::StructuredType(st)) => {
                let mut st = st;
                st.annotations.append(pending_attributes);
                let mut first = modules.remove(0);
                first.structured_types.push(st);
                modules.insert(0, first);
                proof {
                    lemma_first_replaced(mid, modules@[0]);
                }
            },
            ParsedItem::Component(Component::Function(ff)) => {
                let mut ff = ff;
                ff.annotations.append(pending_attributes);
                let mut first = modules.remove(0);
                first.free_functions.push(ff);
                modules.insert(0, first);
                proof {
                    lemma_first_replaced(mid, modules@[0]);
                }
                let kids = tree.children(node);
                let mut i: usize = 0;
                while i < kids.len()
                    invariant
                        tree.wf(),
                        config.wf(),
                        node < tree.size(),
                        modules@.len() == count,
                        count > 0,
                        modules@[0].name == first_name,
                        tail_kept(before, modules@),
                        before.len() > 0 ==> count == before.len(),
                        first_grew(mid, modules@),
                        modules@[0].free_functions@.len() == first_counts(mid).3 + 1 || modules@[0].free_functions@.len() > first_counts(mid).3 + 1,
                        forall|k: int| 0 <= k < kids@.len() ==> node < #[trigger] kids@[k] < tree.size(),
                    decreases kids.len() - i,
                {
                    let ck = tree.kind(kids[i]);
                    let ghost prev = modules@;
                    assert(prev.len() > 0);
                    if str_contains(ck, "body") || str_contains(ck, "block") {
                        walk_cst(
                            tree,
                            kids[i],
                            modules,
                            pending_attributes,
                            lang_name,
                            file_path,
                            config,
                        );
                    }
                    proof {
                        assert forall|j: int| 1 <= j < before.len() implies #[trigger] modules@[j] == before[j] by {
                            assert(prev[j] == before[j]);
                        }
                        assert(first_grew(prev, modules@));
                    }
                    i += 1;
                }
            },
            ParsedItem::Component(Component::Field(name, ty)) => {
                if name.len() > 0 {
                    let n = to_owned_string(name[name.len() - 1].as_str());
                    let mut annotations: Vec<TypeRef> = Vec::new();
                    annotations.append(pending_attributes);
                    let mut first = modules.remove(0);
                    first.free_variables.push(Field { name: n, ty, annotations });
                    modules.insert(0, first);
                proof {
                    lemma_first_replaced(mid, modules@[0]);
                }
                }
            },
            ParsedItem::ImplBlock(ib) => {
                let mut first = modules.remove(0);
                first.impl_blocks.push(ib);
                modules.insert(0, first);
                proof {
                    lemma_first_replaced(mid, modules@[0]);
                }
            },
            ParsedItem::Imports(i) => {
                let mut imports = i;
                let ghost iv = imports@;
                let mut first = modules.remove(0);
                let ghost f0 = first;
                first.imports.append(&mut imports);
                modules.insert(0, first);
                proof {
                    lemma_first_replaced(mid, modules@[0]);
                }
                proof {
                    assert(modules@[0].imports@ == f0.imports@ + iv);
                    assert(modules@[0] == (Module { imports: modules@[0].imports, ..mid[0] }));
                }
            },
            ParsedItem::Component(Component::TypeAlias(t)) => {
                let mut first = modules.remove(0);
                first.type_aliases.push(t);
                modules.insert(0, first);
                proof {
                    lemma_first_replaced(mid, modules@[0]);
                }
                pending_attributes.clear();
            },
            ParsedItem::Component(Component::Primitive(_)) => {},
            ParsedItem::Component(Component::External(_)) => {},
            ParsedItem::Attribute(attrs) => {
                let mut attrs = attrs;
                pending_attributes.append(&mut attrs);
            },
        }
        assert(modules@.len() == count && modules@[0].name == first_name);
        assert(tail_kept(before, modules@));
        return;
    }
    proof {
        if import_node(*tree, node as int) {
            assert(false);
        }
    }
    let kids = tree.children(node);
    let mut i: usize = 0;
    while i < kids.len()
        invariant
            tree.wf(),
            config.wf(),
            node < tree.size(),
            walk_kept(before, modules@),
            tail_kept(before, modules@),
            first_grew(before, modules@),
            forall|k: int| 0 <= k < kids@.len() ==> node < #[trigger] kids@[k] < tree.size(),
        decreases kids.len() - i,
    {
        let ghost prev = modules@;
        walk_cst(tree, kids[i], modules, pending_attributes, lang_name, file_path, config);
        proof {
            assert(first_grew(prev, modules@));
        }
        i += 1;
    }
}

/// Parses a source text and extracts its modules, and, where the language declares
/// packages, the path of the first package declaration among the root's children.
/// `Err` where the parser gives no tree.
pub fn extract_from_cst(
    lang: SupportedLanguage,
    source: &str,
    lang_name: &str,
    file_path: Option<String>,
    config: &AnalyzerConfig,
) -> (r: Result<(Vec<Module>, Option<Vec<String>>), ExtractionError>)
    requires
        config.wf(),
    ensures
        r is Err <==> !crate::syntax::parses(lang, source@),
        r matches Ok((ms, pkg)) ==> ms@.len() <= 1 && (ms@.len() == 1 ==> ms@[0].name@.len() == 1
            && ms@[0].name@[0]@ == "root"@) && (pkg matches Some(p) ==> p@.len() > 0),
{
    let tree = match SyntaxTree::parse(lang, source) {
        Some(t) => t,
        None => {
            return Err(ExtractionError::ParseFailed);
        },
    };
    let mut package_path: Option<Vec<String>> = None;
    if config.get_for(lang_name).modules.package_decl_based {
        let kids = tree.children(0);
        let mut i: usize = 0;
        while i < kids.len()
            invariant
                tree.wf(),
                forall|k: int| 0 <= k < kids@.len() ==> #[trigger] kids@[k] < tree.size(),
                package_path matches Some(p) ==> p@.len() > 0,
            decreases kids.len() - i,
        {
            if let Some(pkg) = try_parse_package_declaration(&tree, kids[i]) {
                package_path = Some(pkg);
                break;
            }
            i += 1;
        }
    }
    let mut modules: Vec<Module> = Vec::new();
    let mut pending_attributes: Vec<TypeRef> = Vec::new();
    walk_cst(&tree, 0, &mut modules, &mut pending_attributes, lang_name, &file_path, config);
    Ok((modules, package_path))
}

/// Gives each top-level type of the first module the module's imports and clears
/// the module's own (packages declared per file import per type).
fn distribute_imports(modules: &mut Vec<Module>)
    ensures
        final(modules)@.len() == old(modules)@.len(),
        forall|i: int| 1 <= i < old(modules)@.len() ==> final(modules)@[i] == old(modules)@[i],
        old(modules)@.len() > 0 ==> final(modules)@[0].name == old(modules)@[0].name,
        old(modules)@.len() > 0 ==> final(modules)@[0] == (Module {
            imports: final(modules)@[0].imports,
            structured_types: final(modules)@[0].structured_types,
            ..old(modules)@[0]
        }),
        old(modules)@.len() > 0 ==> final(modules)@[0].imports@.len() == 0,
        old(modules)@.len() > 0 ==> final(modules)@[0].structured_types@.len()
            == old(modules)@[0].structured_types@.len(),
        old(modules)@.len() > 0 ==> forall|j: int|
            0 <= j < old(modules)@[0].structured_types@.len() ==> (#[trigger] final(modules)@[0].structured_types@[j])@
                == (crate::model::components::StructuredTypeV {
                imports: crate::model::components::imports_view(old(modules)@[0].imports@),
                ..old(modules)@[0].structured_types@[j]@
            }),
{
    if modules.len() == 0 {
        return;
    }
    let mut first = modules.remove(0);
    let ghost orig = first;
    let ghost iv = crate::model::components::imports_view(orig.imports@);
    let mut types: Vec<StructuredType> = Vec::new();
    while first.structured_types.len() > 0
        invariant
            iv == crate::model::components::imports_view(orig.imports@),
            first == (Module { structured_types: first.structured_types, ..orig }),
            types@.len() + first.structured_types@.len() == orig.structured_types@.len(),
            first.structured_types@ == orig.structured_types@.skip(types@.len() as int),
            forall|j: int|
                0 <= j < types@.len() ==> (#[trigger] types@[j])@ == (crate::model::components::StructuredTypeV {
                    imports: iv,
                    ..orig.structured_types@[j]@
                }),
        decreases first.structured_types@.len(),
    {
        let ghost k = types@.len() as int;
        assert(first.imports == orig.imports);
        let mut st = first.structured_types.remove(0);
        assert(first.imports == orig.imports);
        assert(st == orig.structured_types@[k]);
        let ghost st0 = st;
        let new_imports = dup_imports(&first.imports);
        assert(crate::model::components::imports_view(new_imports@) == iv);
        st.imports = new_imports;
        assert(st.nested_types == st0.nested_types && st.fields == st0.fields && st.methods == st0.methods);
        assert(st@ == (crate::model::components::StructuredTypeV { imports: iv, ..st0@ }));
        let ghost t0 = types@;
        types.push(st);
        assert forall|j: int|
            0 <= j < types@.len() implies (#[trigger] types@[j])@ == (crate::model::components::StructuredTypeV {
                imports: iv,
                ..orig.structured_types@[j]@
            }) by {
            if j < k {
                assert(types@[j] == t0[j]);
            }
        }
        assert(first.structured_types@ =~= orig.structured_types@.skip(types@.len() as int));
    }
    first.structured_types = types;
    first.imports = Vec::new();
    modules.insert(0, first);
    assert forall|i: int| 1 <= i < modules@.len() implies modules@[i] == old(modules)@[i] by {}
}

/// The first module's contents, moved under a global `root` module (languages
/// that group neither by path nor by package).
fn wrap_in_global_root(modules: &mut Vec<Module>, lang_name: &str)
    ensures
        final(modules)@.len() == (if old(modules)@.len() > 0 { old(modules)@.len() } else { 1 }),
        old(modules)@.len() > 0 ==> final(modules)@ == old(modules)@.drop_first().push(final(modules)@.last()),
        final(modules)@.last().name.deep_view() == seq!["root"@],
        crate::model::components::opt_str_view(final(modules)@.last().language) == Some(lang_name@),
        final(modules)@.last().file_path is None,
        old(modules)@.len() > 0 ==> {
            let f = old(modules)@[0];
            let g = final(modules)@.last();
            &&& g.sub_modules@ == f.sub_modules@
            &&& g.structured_types@ == f.structured_types@
            &&& g.free_functions@ == f.free_functions@
            &&& g.free_variables@ == f.free_variables@
            &&& g.impl_blocks@ == f.impl_blocks@
            &&& g.imports@ == f.imports@
            &&& g.type_aliases@ == f.type_aliases@
        },
        old(modules)@.len() == 0 ==> {
            let g = final(modules)@.last();
            &&& g.sub_modules@.len() == 0
            &&& g.structured_types@.len() == 0
            &&& g.free_functions@.len() == 0
            &&& g.free_variables@.len() == 0
            &&& g.impl_blocks@.len() == 0
            &&& g.imports@.len() == 0
            &&& g.type_aliases@.len() == 0
        },
{
    let mut global_root = root_module(lang_name, None);
    assert(global_root.name.deep_view() =~= seq!["root"@]);
    if modules.len() > 0 {
        let file_mod = modules.remove(0);
        let mut f = file_mod;
        assert(f == old(modules)@[0]);
        global_root.sub_modules.append(&mut f.sub_modules);
        global_root.structured_types.append(&mut f.structured_types);
        global_root.free_functions.append(&mut f.free_functions);
        global_root.free_variables.append(&mut f.free_variables);
        global_root.impl_blocks.append(&mut f.impl_blocks);
        global_root.imports.append(&mut f.imports);
        global_root.type_aliases.append(&mut f.type_aliases);
        assert(global_root.sub_modules@ =~= old(modules)@[0].sub_modules@);
        assert(global_root.structured_types@ =~= old(modules)@[0].structured_types@);
        assert(global_root.free_functions@ =~= old(modules)@[0].free_functions@);
        assert(global_root.free_variables@ =~= old(modules)@[0].free_variables@);
        assert(global_root.impl_blocks@ =~= old(modules)@[0].impl_blocks@);
        assert(global_root.imports@ =~= old(modules)@[0].imports@);
        assert(global_root.type_aliases@ =~= old(modules)@[0].type_aliases@);
    }
    modules.push(global_root);
}

/// Whether a language's modules are grouped neither by directory path nor by declared
/// package, so that a file's contents go under one global `root` module.
pub open spec fn global_root_strategy(config: AnalyzerConfig, lang: SupportedLanguage) -> bool {
    let mc = config.strategy_for(crate::language::language_name(lang)).modules;
    !(mc.file_based && mc.directory_based) && !mc.package_decl_based
}

/// Extracts the modules of one source file and places them in the module
/// hierarchy by the language's strategy (directory path, declared package, or one
/// global root), links out-of-line methods, and loads the language's primitives
/// from the table `primitives_json` (an empty registry where the table is not
/// valid). `Err` where the parser gives no tree. Afterwards no free function has a
/// qualified name.
pub fn parse_source(
    lang: SupportedLanguage,
    source: &str,
    path: &str,
    primitives_json: &str,
    config: &AnalyzerConfig,
) -> (r: Result<(Vec<Module>, PrimitiveRegistry), ExtractionError>)
    requires
        config.wf(),
    ensures
        r is Err <==> !crate::syntax::parses(lang, source@),
        r matches Ok((ms, reg)) ==> reg.wf() && forall|i: int|
            0 <= i < ms@.len() ==> #[trigger] simple_free_functions(ms@[i]),
        r matches Ok((ms, reg)) ==> global_root_strategy(*config, lang) ==> {
            &&& ms@.len() == 1
            &&& ms@[0].name.deep_view() == seq!["root"@]
            &&& crate::model::components::opt_str_view(ms@[0].language) == Some(crate::language::language_name(lang))
            &&& ms@[0].file_path is None
        },
{
    let file_path_str = to_owned_string(path);
    let lang_name = lang.name();
    let (mut modules, package_path) = match extract_from_cst(
        lang,
        source,
        lang_name,
        Some(to_owned_string(path)),
        config,
    ) {
        Ok(v) => v,
        Err(e) => {
            return Err(e);
        },
    };
    let lang_config = config.get_for(lang_name);
    if lang_config.modules.package_decl_based {
        distribute_imports(&mut modules);
    }
    if lang_config.modules.file_based && lang_config.modules.directory_based {
        apply_directory_strategy(&mut modules, path, file_path_str.as_str(), lang_name);
    } else if lang_config.modules.package_decl_based {
        if let Some(pkg_path) = package_path {
            apply_package_strategy(&mut modules, pkg_path, file_path_str.as_str(), lang_name);
        }
    } else {
        wrap_in_global_root(&mut modules, lang_name);
    }
    link_out_of_line_methods(&mut modules);
    let prim_registry = match PrimitiveRegistry::load(lang_name, primitives_json) {
        Ok(reg) => reg,
        Err(_) => PrimitiveRegistry::empty(),
    };
    Ok((modules, prim_registry))
}

} // verus!
