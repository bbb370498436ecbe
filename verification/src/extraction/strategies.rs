//! Module strategies: how the components extracted from one file are placed in the module
//! hierarchy (by the file's directory path, or by its package declaration), and the linking of
//! methods defined outside their type.
use crate::model::components::{
    clone_opt_string, dup_functions, Function, FunctionV, ImplBlock, ImplBlockV, Import, Module, ModuleV,
    StructuredType, StructuredTypeV, TypeAlias,
};
use crate::model::queries::{clone_qn, Query, QueryV, TypeRef, TypeRefV};
use crate::text_util::{str_eq, to_owned_string};
use vstd::prelude::*;

verus! {

/// The components of a path as `std::path::Path::components` yields them, each as text.
pub uninterp spec fn path_segments(path: Seq<char>) -> Seq<Seq<char>>;

/// The stem of a file name as `std::path::Path::file_stem` computes it (the name without its
/// extension), if it has one.
pub uninterp spec fn path_file_stem(name: Seq<char>) -> Option<Seq<char>>;

/// The components of `path`, as text (`Path::components`).
#[verifier::external_body]
fn components_of(path: &str) -> (r: Vec<String>)
    ensures
        r.deep_view() == path_segments(path@),
{
    std::path::Path::new(path).components().map(|c| c.as_os_str().to_string_lossy().to_string()).collect()
}

/// The stem of a file name (`Path::file_stem`).
#[verifier::external_body]
fn file_stem_of(name: &str) -> (r: Option<String>)
    ensures
        match r {
            Some(s) => path_file_stem(name@) == Some(s@),
            None => path_file_stem(name@) is None,
        },
{
    std::path::Path::new(name).file_stem().map(|s| s.to_string_lossy().to_string())
}

/// The segments without `.` and `..`.
pub open spec fn kept_segments(s: Seq<Seq<char>>) -> Seq<Seq<char>>
    decreases s.len(),
{
    if s.len() == 0 {
        Seq::empty()
    } else {
        let r = kept_segments(s.drop_last());
        if s.last() == "."@ || s.last() == ".."@ {
            r
        } else {
            r.push(s.last())
        }
    }
}

/// The segments without a leading source root (`src`, `lib` or `include`).
pub open spec fn source_relative(s: Seq<Seq<char>>) -> Seq<Seq<char>> {
    if s.len() > 0 && (s[0] == "src"@ || s[0] == "lib"@ || s[0] == "include"@) {
        s.drop_first()
    } else {
        s
    }
}

/// The segments with the last (the file name) replaced by its stem, where it has one.
pub open spec fn with_stem(s: Seq<Seq<char>>) -> Seq<Seq<char>> {
    if s.len() > 0 {
        match path_file_stem(s.last()) {
            Some(st) => s.update(s.len() - 1, st),
            None => s,
        }
    } else {
        s
    }
}

/// The module path a file's directory path stands for.
pub open spec fn directory_segments(path: Seq<char>) -> Seq<Seq<char>> {
    with_stem(source_relative(kept_segments(path_segments(path))))
}

/// A module named `[name]` holding only the submodule `inner`.
pub open spec fn wrapper_v(name: Seq<char>, lang: Seq<char>, file: Option<Seq<char>>, inner: ModuleV) -> ModuleV {
    ModuleV {
        name: seq![name],
        language: Some(lang),
        file_path: file,
        imports: Seq::empty(),
        sub_modules: seq![inner],
        structured_types: Seq::empty(),
        type_aliases: Seq::empty(),
        free_functions: Seq::empty(),
        impl_blocks: Seq::empty(),
        free_variables: Seq::empty(),
    }
}

/// `inner` wrapped in one module per segment, the last segment innermost.
pub open spec fn wrapped(inner: ModuleV, segs: Seq<Seq<char>>, lang: Seq<char>, file: Seq<char>) -> ModuleV
    decreases segs.len(),
{
    if segs.len() == 0 {
        inner
    } else {
        wrapped(wrapper_v(segs.last(), lang, Some(file), inner), segs.drop_last(), lang, file)
    }
}

/// The module a file's components end up in under the global root: wrapped in the modules of
/// the outer segments, under a `root` module of the language.
pub open spec fn rooted(inner: ModuleV, outer: Seq<Seq<char>>, lang: Seq<char>, file: Seq<char>) -> ModuleV {
    wrapper_v("root"@, lang, None, wrapped(inner, outer, lang, file))
}

/// A module holding only `inner`, as the strategies build it.
fn wrapper(name: String, lang: &str, file: Option<String>, inner: Module) -> (r: Module)
    ensures
        r@ == wrapper_v(name@, lang@, crate::model::components::opt_str_view(file), inner@),
{
    let mut subs: Vec<Module> = Vec::new();
    subs.push(inner);
    let r = Module {
        name: vec![name],
        language: Some(to_owned_string(lang)),
        file_path: file,
        imports: Vec::new(),
        sub_modules: subs,
        structured_types: Vec::new(),
        type_aliases: Vec::new(),
        free_functions: Vec::new(),
        impl_blocks: Vec::new(),
        free_variables: Vec::new(),
    };
    proof {
        crate::model::components::lemma_modules_view(r.sub_modules@);
        crate::model::components::lemma_modules_view(Seq::<Module>::empty());
        assert(r.name.deep_view() =~= seq![name@]);
        assert(r@.sub_modules =~= seq![inner@]);
        assert(r@.imports =~= Seq::empty());
        assert(r@.structured_types =~= Seq::empty());
        assert(r@.type_aliases =~= Seq::empty());
        assert(r@.free_functions =~= Seq::empty());
        assert(r@.impl_blocks =~= Seq::empty());
        assert(r@.free_variables =~= Seq::empty());
    }
    r
}

/// Wraps `inner` in one module per segment of `segs[..n]`, innermost last.
fn wrap_in(inner: Module, segs: &Vec<String>, n: usize, lang: &str, file: &str) -> (r: Module)
    requires
        n <= segs@.len(),
    ensures
        r@ == wrapped(inner@, segs.deep_view().take(n as int), lang@, file@),
{
    let mut current = inner;
    let mut k = n;
    let ghost start = inner@;
    assert(segs.deep_view().take(n as int).take(n as int) =~= segs.deep_view().take(n as int));
    while k > 0
        invariant
            k <= n <= segs@.len(),
            wrapped(start, segs.deep_view().take(n as int), lang@, file@) == wrapped(
                current@,
                segs.deep_view().take(k as int),
                lang@,
                file@,
            ),
        decreases k,
    {
        let ghost before = current@;
        assert(segs.deep_view().take(k as int).last() == segs@[k - 1]@);
        assert(segs.deep_view().take(k as int).drop_last() =~= segs.deep_view().take(k - 1));
        current = wrapper(segs[k - 1].clone(), lang, Some(to_owned_string(file)), current);
        k -= 1;
    }
    current
}

/// Places the components of one file in the module hierarchy of its directory path: the first
/// module (holding the file's components) is named after the file's stem, wrapped in one module
/// per directory (a leading `src`, `lib` or `include`, and `.` and `..`, left out), under a
/// `root` module, which takes its place at the end of the list. Nothing changes when there are
/// no modules or no segments.
pub fn apply_directory_strategy(modules: &mut Vec<Module>, path: &str, file_path_str: &str, lang_name: &str)
    ensures
        ({
            let segs = directory_segments(path@);
            if old(modules)@.len() == 0 || segs.len() == 0 {
                final(modules)@ == old(modules)@
            } else {
                &&& final(modules)@.len() == old(modules)@.len()
                &&& forall|i: int|
                    0 <= i < old(modules)@.len() - 1 ==> #[trigger] final(modules)@[i] == old(
                        modules,
                    )@[i + 1]
                &&& final(modules)@.last()@ == rooted(
                    ModuleV { name: seq![segs.last()], ..old(modules)@[0]@ },
                    segs.drop_last(),
                    lang_name@,
                    file_path_str@,
                )
            }
        }),
{
    let raw = components_of(path);
    let mut segs: Vec<String> = Vec::new();
    let mut i: usize = 0;
    while i < raw.len()
        invariant
            i <= raw@.len(),
            segs.deep_view() == kept_segments(raw.deep_view().take(i as int)),
        decreases raw.len() - i,
    {
        assert(raw.deep_view().take(i + 1).drop_last() =~= raw.deep_view().take(i as int));
        assert(raw.deep_view().take(i + 1).last() == raw@[i as int]@);
        let s = &raw[i];
        if !str_eq(s.as_str(), ".") && !str_eq(s.as_str(), "..") {
            let ghost before = segs.deep_view();
            segs.push(s.clone());
            assert(segs.deep_view() =~= before.push(s@));
        }
        i += 1;
    }
    assert(raw.deep_view().take(raw@.len() as int) =~= raw.deep_view());
    if segs.len() > 0 && (str_eq(segs[0].as_str(), "src") || str_eq(segs[0].as_str(), "lib")
        || str_eq(segs[0].as_str(), "include")) {
        let ghost before = segs.deep_view();
        segs.remove(0);
        assert(segs.deep_view() =~= before.drop_first());
    }
    if segs.len() > 0 {
        let n = segs.len();
        match file_stem_of(segs[n - 1].as_str()) {
            Some(stem) => {
                let ghost before = segs.deep_view();
                segs.set(n - 1, stem);
                assert(segs.deep_view() =~= before.update(n - 1, path_file_stem(before.last()).unwrap()));
            },
            None => {},
        }
    }
    assert(segs.deep_view() == directory_segments(path@));
    if modules.len() == 0 || segs.len() == 0 {
        return ;
    }
    let ghost old_modules = modules@;
    let mut current = modules.remove(0);
    let n = segs.len();
    let leaf = segs[n - 1].clone();
    current.name = vec![leaf];
    proof {
        assert(current.name.deep_view() =~= seq![segs.deep_view().last()]);
        assert(current@ == ModuleV { name: seq![segs.deep_view().last()], ..old_modules[0]@ });
        assert(segs.deep_view().take(n - 1) =~= segs.deep_view().drop_last());
    }
    let inner = wrap_in(current, &segs, n - 1, lang_name, file_path_str);
    let root = wrapper("root".to_string(), lang_name, None, inner);
    modules.push(root);
}

/// Places the components of one file in the module hierarchy of its declared package: the
/// first module's contents move into a module named after the package's last segment, wrapped
/// in one module per outer segment, under a `root` module, which takes its place at the end of
/// the list. Nothing changes when the package path is empty or there are no modules.
pub fn apply_package_strategy(
    modules: &mut Vec<Module>,
    package_path: Vec<String>,
    file_path_str: &str,
    lang_name: &str,
)
    ensures
        ({
            let p = package_path.deep_view();
            if old(modules)@.len() == 0 || p.len() == 0 {
                final(modules)@ == old(modules)@
            } else {
                &&& final(modules)@.len() == old(modules)@.len()
                &&& forall|i: int|
                    0 <= i < old(modules)@.len() - 1 ==> #[trigger] final(modules)@[i] == old(
                        modules,
                    )@[i + 1]
                &&& final(modules)@.last()@ == rooted(
                    ModuleV {
                        name: seq![p.last()],
                        language: Some(lang_name@),
                        file_path: Some(file_path_str@),
                        ..old(modules)@[0]@
                    },
                    p.drop_last(),
                    lang_name@,
                    file_path_str@,
                )
            }
        }),
{
    if package_path.len() == 0 || modules.len() == 0 {
        return ;
    }
    let ghost old_modules = modules@;
    let content = modules.remove(0);
    let n = package_path.len();
    let current = Module {
        name: vec![package_path[n - 1].clone()],
        language: Some(to_owned_string(lang_name)),
        file_path: Some(to_owned_string(file_path_str)),
        imports: content.imports,
        sub_modules: content.sub_modules,
        structured_types: content.structured_types,
        type_aliases: content.type_aliases,
        free_functions: content.free_functions,
        impl_blocks: content.impl_blocks,
        free_variables: content.free_variables,
    };
    proof {
        assert(current.name.deep_view() =~= seq![package_path.deep_view().last()]);
        assert(package_path.deep_view().take(n - 1) =~= package_path.deep_view().drop_last());
    }
    let inner = wrap_in(current, &package_path, n - 1, lang_name, file_path_str);
    let root = wrapper("root".to_string(), lang_name, None, inner);
    modules.push(root);
}

/// No free function of the module, nor of any module within it, has a qualified name.
pub open spec fn simple_free_functions(m: Module) -> bool
    decreases m, 0nat,
{
    &&& forall|k: int|
        0 <= k < m.free_functions@.len() ==> (#[trigger] m.free_functions@[k]).name@.len() <= 1
    &&& all_simple_free_functions(m.sub_modules@)
}

pub open spec fn all_simple_free_functions(s: Seq<Module>) -> bool
    decreases s, 1nat,
{
    s.len() > 0 ==> simple_free_functions(s[0]) && all_simple_free_functions(s.drop_first())
}

pub proof fn lemma_all_simple_free_functions(s: Seq<Module>)
    ensures
        all_simple_free_functions(s) <==> forall|i: int|
            0 <= i < s.len() ==> #[trigger] simple_free_functions(s[i]),
    decreases s.len(),
{
    if s.len() > 0 {
        lemma_all_simple_free_functions(s.drop_first());
        if forall|i: int| 0 <= i < s.len() ==> #[trigger] simple_free_functions(s[i]) {
            assert forall|i: int| 0 <= i < s.drop_first().len() implies #[trigger] simple_free_functions(
                s.drop_first()[i],
            ) by {
                assert(simple_free_functions(s[i + 1]));
            }
            assert(all_simple_free_functions(s.drop_first()));
            assert(simple_free_functions(s[0]));
            assert(all_simple_free_functions(s));
        }
        if all_simple_free_functions(s) {
            assert forall|i: int| 0 <= i < s.len() implies #[trigger] simple_free_functions(s[i]) by {
                if i > 0 {
                    assert(simple_free_functions(s.drop_first()[i - 1]));
                }
            }
        }
    }
}

/// A copy of a method named by its last segment alone.
fn as_method(f: &Function) -> (r: Function)
    ensures
        r@ == (crate::model::components::FunctionV {
            name: seq![crate::resolver::scope::last_name(f.name.deep_view())],
            ..f@
        }),
{
    let mut m = f.duplicate();
    let n = f.name.len();
    let last = if n > 0 {
        f.name[n - 1].clone()
    } else {
        String::new()
    };
    let ghost lv = last@;
    m.name = vec![last];
    assert(m.name.deep_view() =~= seq![lv]);
    m
}

/// The free functions with a simple name (one segment at most), in order.
pub open spec fn kept_functions(s: Seq<FunctionV>) -> Seq<FunctionV>
    decreases s.len(),
{
    if s.len() == 0 {
        Seq::empty()
    } else if s.last().name.len() <= 1 {
        kept_functions(s.drop_last()).push(s.last())
    } else {
        kept_functions(s.drop_last())
    }
}

/// The free functions with a qualified name (`T::m`), in order.
pub open spec fn moved_functions(s: Seq<FunctionV>) -> Seq<FunctionV>
    decreases s.len(),
{
    if s.len() == 0 {
        Seq::empty()
    } else if s.last().name.len() > 1 {
        moved_functions(s.drop_last()).push(s.last())
    } else {
        moved_functions(s.drop_last())
    }
}

/// The index of the first type named `c`, from index `j` on.
pub open spec fn first_named(t: Seq<StructuredTypeV>, c: Seq<Seq<char>>, j: int) -> Option<int>
    decreases t.len() - j,
{
    if j < 0 || j >= t.len() {
        None
    } else if t[j].name == c {
        Some(j)
    } else {
        first_named(t, c, j + 1)
    }
}

/// A qualified function `T::m` as method `m`.
pub open spec fn as_method_spec(f: FunctionV) -> FunctionV {
    FunctionV { name: seq![crate::resolver::scope::last_name(f.name)], ..f }
}

/// The impl block made for a qualified function whose type is not in the module.
pub open spec fn new_impl_block(f: FunctionV) -> ImplBlockV {
    let c = f.name.drop_last();
    ImplBlockV {
        name: c,
        methods: seq![as_method_spec(f)],
        impl_for: TypeRefV::ResolutionQuery(QueryV::Find(crate::resolver::scope::last_name(c))),
        implements_trait: None,
        nested_types: Seq::empty(),
        type_aliases: Seq::empty(),
    }
}

/// Types and impl blocks after placing one qualified function: a method of the first type of
/// its qualifier's name, else a new impl block after the others.
pub open spec fn place_one(t: Seq<StructuredTypeV>, ib: Seq<ImplBlockV>, f: FunctionV) -> (Seq<StructuredTypeV>, Seq<ImplBlockV>) {
    match first_named(t, f.name.drop_last(), 0) {
        Some(j) => (t.update(j, StructuredTypeV { methods: t[j].methods.push(as_method_spec(f)), ..t[j] }), ib),
        None => (t, ib.push(new_impl_block(f))),
    }
}

/// Types and impl blocks after placing the qualified functions in order.
pub open spec fn place_all(t: Seq<StructuredTypeV>, ib: Seq<ImplBlockV>, fs: Seq<FunctionV>) -> (Seq<StructuredTypeV>, Seq<ImplBlockV>)
    decreases fs.len(),
{
    if fs.len() == 0 {
        (t, ib)
    } else {
        let prev = place_all(t, ib, fs.drop_last());
        place_one(prev.0, prev.1, fs.last())
    }
}

/// The value of a list, element by element.
pub open spec fn type_views(s: Seq<StructuredType>) -> Seq<StructuredTypeV> {
    s.map_values(|x: StructuredType| x@)
}

/// `r` is module `m` with its own out-of-line methods linked: the simple free functions stay
/// in order; each qualified one becomes a method of the first type named as its qualifier, or
/// of a new impl block for it; everything else but the submodules is as it was.
pub open spec fn linked_top(m: Module, r: Module) -> bool {
    let fv = crate::model::components::functions_view(m.free_functions@);
    let placed = place_all(type_views(m.structured_types@), crate::model::components::impl_blocks_view(m.impl_blocks@), moved_functions(fv));
    &&& r.name.deep_view() == m.name.deep_view()
    &&& crate::model::components::opt_str_view(r.language) == crate::model::components::opt_str_view(m.language)
    &&& crate::model::components::opt_str_view(r.file_path) == crate::model::components::opt_str_view(m.file_path)
    &&& crate::model::components::imports_view(r.imports@) == crate::model::components::imports_view(m.imports@)
    &&& crate::model::components::type_aliases_view(r.type_aliases@) == crate::model::components::type_aliases_view(m.type_aliases@)
    &&& crate::model::components::fields_view(r.free_variables@) == crate::model::components::fields_view(m.free_variables@)
    &&& crate::model::components::functions_view(r.free_functions@) == kept_functions(fv)
    &&& type_views(r.structured_types@) == placed.0
    &&& crate::model::components::impl_blocks_view(r.impl_blocks@) == placed.1
    &&& r.sub_modules@.len() == m.sub_modules@.len()
}

/// `r` is module `m` with the out-of-line methods of it and of every module within linked.
pub open spec fn linked(m: Module, r: Module) -> bool
    decreases m, 0nat,
{
    linked_top(m, r) && all_linked(m.sub_modules@, r.sub_modules@)
}

pub open spec fn all_linked(ms: Seq<Module>, rs: Seq<Module>) -> bool
    decreases ms, 1nat,
{
    &&& ms.len() == rs.len()
    &&& ms.len() > 0 ==> linked(ms.last(), rs.last()) && all_linked(ms.drop_last(), rs.drop_last())
}

/// The module with its out-of-line methods linked, and its submodules linked in turn: each
/// free function with a qualified name `T::m` leaves the free functions and becomes method `m`
/// of the module's type named `T` (the first such), or, with no such type, of a new impl block
/// for `T`.
fn linked_module(m: &Module) -> (r: Module)
    ensures
        simple_free_functions(r),
        linked(*m, r),
    decreases m,
{
    let ghost fv = crate::model::components::functions_view(m.free_functions@);
    let mut free_functions: Vec<Function> = Vec::new();
    let mut to_move: Vec<Function> = Vec::new();
    let mut i: usize = 0;
    while i < m.free_functions.len()
        invariant
            i <= m.free_functions@.len(),
            fv == crate::model::components::functions_view(m.free_functions@),
            forall|k: int| 0 <= k < free_functions@.len() ==> (#[trigger] free_functions@[k]).name@.len() <= 1,
            forall|k: int| 0 <= k < to_move@.len() ==> (#[trigger] to_move@[k]).name@.len() > 1,
            crate::model::components::functions_view(free_functions@) == kept_functions(fv.take(i as int)),
            crate::model::components::functions_view(to_move@) == moved_functions(fv.take(i as int)),
        decreases m.free_functions.len() - i,
    {
        let ff = &m.free_functions[i];
        assert(fv.take(i + 1).drop_last() =~= fv.take(i as int));
        assert(fv.take(i + 1).last() == ff@);
        assert(ff@.name.len() == ff.name@.len());
        if ff.name.len() > 1 {
            let d = ff.duplicate();
            assert(d.name.deep_view() == ff.name.deep_view());
            assert(d.name@.len() == d.name.deep_view().len());
            let ghost before = to_move@;
            to_move.push(d);
            assert(crate::model::components::functions_view(to_move@) =~= crate::model::components::functions_view(before).push(d@));
        } else {
            let d = ff.duplicate();
            assert(d.name.deep_view() == ff.name.deep_view());
            assert(d.name@.len() == d.name.deep_view().len());
            let ghost before = free_functions@;
            free_functions.push(d);
            assert(crate::model::components::functions_view(free_functions@) =~= crate::model::components::functions_view(before).push(d@));
        }
        i += 1;
    }
    assert(fv.take(i as int) =~= fv);
    let ghost moved = moved_functions(fv);
    let mut structured_types = crate::model::components::dup_structured_types(&m.structured_types);
    let mut impl_blocks = crate::model::components::dup_impl_blocks(&m.impl_blocks);
    let ghost t0 = type_views(m.structured_types@);
    let ghost b0 = crate::model::components::impl_blocks_view(m.impl_blocks@);
    assert(type_views(structured_types@) =~= t0);
    assert(crate::model::components::impl_blocks_view(impl_blocks@) =~= b0);
    let mut i: usize = 0;
    while i < to_move.len()
        invariant
            i <= to_move@.len(),
            forall|k: int| 0 <= k < to_move@.len() ==> (#[trigger] to_move@[k]).name@.len() > 1,
            moved == crate::model::components::functions_view(to_move@),
            type_views(structured_types@) == place_all(t0, b0, moved.take(i as int)).0,
            crate::model::components::impl_blocks_view(impl_blocks@) == place_all(t0, b0, moved.take(i as int)).1,
        decreases to_move.len() - i,
    {
        let method = &to_move[i];
        let ghost mv = method@;
        assert(mv.name.len() == method.name@.len());
        assert(moved.take(i + 1).drop_last() =~= moved.take(i as int));
        assert(moved.take(i + 1).last() == mv);
        let ghost tv = type_views(structured_types@);
        let ghost bv = crate::model::components::impl_blocks_view(impl_blocks@);
        let n = method.name.len();
        let mut class_name: Vec<String> = Vec::new();
        let mut k: usize = 0;
        while k < n - 1
            invariant
                n > 1,
                k <= n - 1,
                n == method.name@.len(),
                class_name.deep_view() == method.name.deep_view().take(k as int),
            decreases n - k,
        {
            let ghost before = class_name.deep_view();
            class_name.push(method.name[k].clone());
            assert(class_name.deep_view() =~= before.push(method.name@[k as int]@));
            assert(method.name.deep_view().take(k + 1) =~= method.name.deep_view().take(k as int).push(method.name@[k as int]@));
            k += 1;
        }
        assert(class_name.deep_view() =~= mv.name.drop_last());
        let mut found = false;
        let mut j: usize = 0;
        while j < structured_types.len() && !found
            invariant
                j <= structured_types@.len(),
                tv.len() == structured_types@.len(),
                mv.name.len() > 1,
                mv == method@,
                class_name.deep_view() == mv.name.drop_last(),
                !found ==> type_views(structured_types@) == tv,
                !found ==> first_named(tv, mv.name.drop_last(), 0) == first_named(tv, mv.name.drop_last(), j as int),
                found ==> first_named(tv, mv.name.drop_last(), 0) == Some(j as int) && j < tv.len()
                    && type_views(structured_types@) == tv.update(
                    j as int,
                    StructuredTypeV { methods: tv[j as int].methods.push(as_method_spec(mv)), ..tv[j as int] },
                ),
            decreases structured_types.len() - j, if found { 0int } else { 1int },
        {
            if crate::assoc::qn_eq(&structured_types[j].name, &class_name) {
                let ghost before = structured_types@;
                let mth = as_method(method);
                assert(mv.name == method.name.deep_view());
                assert(mth@.name =~= as_method_spec(mv).name);
                assert(mth@ == as_method_spec(mv));
                let st = &mut structured_types[j];
                let ghost st0 = *st;
                st.methods.push(mth);
                proof {
                    assert(crate::model::components::functions_view(structured_types@[j as int].methods@)
                        =~= crate::model::components::functions_view(st0.methods@).push(as_method_spec(mv)));
                    assert(structured_types@[j as int]@ == StructuredTypeV { methods: tv[j as int].methods.push(as_method_spec(mv)), ..tv[j as int] });
                    assert(type_views(structured_types@) =~= tv.update(
                        j as int,
                        StructuredTypeV { methods: tv[j as int].methods.push(as_method_spec(mv)), ..tv[j as int] },
                    ));
                }
                found = true;
            } else {
                j += 1;
            }
        }
        if !found {
            let target = if class_name.len() > 0 {
                class_name[class_name.len() - 1].clone()
            } else {
                String::new()
            };
            let mut methods: Vec<Function> = Vec::new();
            methods.push(as_method(method));
            let ghost before = impl_blocks@;
            let nb = ImplBlock {
                name: class_name,
                impl_for: TypeRef::ResolutionQuery(Query::Find(target)),
                implements_trait: None,
                methods,
                nested_types: Vec::new(),
                type_aliases: Vec::new(),
            };
            proof {
                assert(crate::model::components::functions_view(nb.methods@) =~= seq![as_method_spec(mv)]);
                assert(crate::model::components::structured_types_view(nb.nested_types@) =~= Seq::<StructuredTypeV>::empty());
                assert(crate::model::components::type_aliases_view(nb.type_aliases@) =~= Seq::<crate::model::components::TypeAliasV>::empty());
                assert(nb@ == new_impl_block(mv));
            }
            impl_blocks.push(nb);
            proof {
                assert(crate::model::components::impl_blocks_view(impl_blocks@) =~= bv.push(new_impl_block(mv)));
                assert(first_named(tv, mv.name.drop_last(), j as int) is None);
            }
        }
        i += 1;
    }
    assert(moved.take(i as int) =~= moved);
    let mut sub_modules: Vec<Module> = Vec::new();
    let mut i: usize = 0;
    while i < m.sub_modules.len()
        invariant
            i <= m.sub_modules@.len(),
            sub_modules@.len() == i,
            forall|k: int| 0 <= k < i ==> #[trigger] simple_free_functions(sub_modules@[k]),
            all_linked(m.sub_modules@.take(i as int), sub_modules@),
        decreases m.sub_modules.len() - i,
    {
        let ghost before = sub_modules@;
        sub_modules.push(linked_module(&m.sub_modules[i]));
        assert(m.sub_modules@.take(i + 1).drop_last() =~= m.sub_modules@.take(i as int));
        assert(sub_modules@.drop_last() =~= before);
        i += 1;
    }
    assert(m.sub_modules@.take(i as int) =~= m.sub_modules@);
    proof {
        lemma_all_simple_free_functions(sub_modules@);
    }
    let r = Module {
        name: clone_qn(&m.name),
        language: clone_opt_string(&m.language),
        file_path: clone_opt_string(&m.file_path),
        imports: crate::model::components::dup_imports(&m.imports),
        sub_modules,
        structured_types,
        type_aliases: crate::model::components::dup_type_aliases(&m.type_aliases),
        free_functions,
        impl_blocks,
        free_variables: crate::model::components::dup_fields(&m.free_variables),
    };
    assert(linked_top(*m, r));
    r
}

proof fn lemma_kept_all_simple(s: Seq<FunctionV>)
    requires
        forall|k: int| 0 <= k < s.len() ==> (#[trigger] s[k]).name.len() <= 1,
    ensures
        kept_functions(s) == s,
        moved_functions(s).len() == 0,
    decreases s.len(),
{
    if s.len() > 0 {
        lemma_kept_all_simple(s.drop_last());
        assert(s.drop_last().push(s.last()) =~= s);
    }
}

proof fn lemma_all_linked_each(ms: Seq<Module>, rs: Seq<Module>)
    requires
        all_linked(ms, rs),
    ensures
        ms.len() == rs.len(),
        forall|i: int| 0 <= i < ms.len() ==> #[trigger] linked(ms[i], rs[i]),
    decreases ms.len(),
{
    if ms.len() > 0 {
        lemma_all_linked_each(ms.drop_last(), rs.drop_last());
        assert forall|i: int| 0 <= i < ms.len() implies #[trigger] linked(ms[i], rs[i]) by {
            if i < ms.len() - 1 {
                assert(ms.drop_last()[i] == ms[i]);
                assert(rs.drop_last()[i] == rs[i]);
            }
        }
    }
}

/// Linking leaves a module with no qualified free function, at any depth, as it was.
pub proof fn lemma_linked_unchanged(m: Module, r: Module)
    requires
        linked(m, r),
        simple_free_functions(m),
    ensures
        r@ == m@,
    decreases m,
{
    let fv = crate::model::components::functions_view(m.free_functions@);
    assert forall|k: int| 0 <= k < fv.len() implies (#[trigger] fv[k]).name.len() <= 1 by {
        assert(m.free_functions@[k].name@.len() <= 1);
    }
    lemma_kept_all_simple(fv);
    assert(moved_functions(fv) =~= Seq::<FunctionV>::empty());
    assert(crate::model::components::functions_view(r.free_functions@) == fv);
    assert(type_views(r.structured_types@) == type_views(m.structured_types@));
    assert(r.structured_types@.len() == m.structured_types@.len()) by {
        assert(type_views(r.structured_types@).len() == r.structured_types@.len());
    }
    assert forall|i: int| 0 <= i < r.structured_types@.len() implies #[trigger] r.structured_types@[i]@ == m.structured_types@[i]@ by {
        assert(type_views(r.structured_types@)[i] == type_views(m.structured_types@)[i]);
    }
    crate::model::components::lemma_structured_types_view_ext(r.structured_types@, m.structured_types@);
    lemma_all_linked_each(m.sub_modules@, r.sub_modules@);
    lemma_all_simple_free_functions(m.sub_modules@);
    assert forall|i: int| 0 <= i < r.sub_modules@.len() implies #[trigger] r.sub_modules@[i]@ == m.sub_modules@[i]@ by {
        assert(linked(m.sub_modules@[i], r.sub_modules@[i]));
        assert(simple_free_functions(m.sub_modules@[i]));
        lemma_linked_unchanged(m.sub_modules@[i], r.sub_modules@[i]);
    }
    crate::model::components::lemma_modules_view_ext(r.sub_modules@, m.sub_modules@);
    assert(r@ =~= m@);
}

/// Links out-of-line method definitions (C++ `T::m` defined outside `T`) with their type, in
/// every module at any depth: afterwards no free function has a qualified name; each type keeps
/// its name and every impl block stays, new ones coming after.
pub fn link_out_of_line_methods(modules: &mut Vec<Module>)
    ensures
        final(modules)@.len() == old(modules)@.len(),
        forall|i: int| 0 <= i < final(modules)@.len() ==> #[trigger] simple_free_functions(final(modules)@[i]),
        forall|i: int|
            0 <= i < old(modules)@.len() ==> (#[trigger] final(modules)@[i]).name.deep_view() == old(
                modules,
            )@[i].name.deep_view(),
        forall|i: int| 0 <= i < old(modules)@.len() ==> linked(old(modules)@[i], #[trigger] final(modules)@[i]),
        forall|i: int|
            0 <= i < old(modules)@.len() && simple_free_functions(#[trigger] old(modules)@[i]) ==> final(modules)@[i]@
                == old(modules)@[i]@,
{
    let mut out: Vec<Module> = Vec::new();
    let mut i: usize = 0;
    while i < modules.len()
        invariant
            i <= modules@.len(),
            modules@ == old(modules)@,
            out@.len() == i,
            forall|k: int| 0 <= k < i ==> #[trigger] simple_free_functions(out@[k]),
            forall|k: int|
                0 <= k < i ==> (#[trigger] out@[k]).name.deep_view() == modules@[k].name.deep_view(),
            forall|k: int| 0 <= k < i ==> linked(modules@[k], #[trigger] out@[k]),
        decreases modules.len() - i,
    {
        out.push(linked_module(&modules[i]));
        i += 1;
    }
    proof {
        assert forall|k: int|
            0 <= k < old(modules)@.len() && simple_free_functions(#[trigger] old(modules)@[k]) implies out@[k]@
                == old(modules)@[k]@ by {
            lemma_linked_unchanged(old(modules)@[k], out@[k]);
        }
    }
    *modules = out;
}

} // verus!
