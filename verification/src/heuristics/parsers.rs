//! Recognisers that turn one syntax node into one component of the model.
use crate::assoc::qn_eq;
use crate::heuristics::annotation_extraction::{annotations_spec, extract_annotations};
use crate::heuristics::body_extraction::{block_of, extract_block, named_locals};
use crate::heuristics::classifiers::{
    alias_kind, function_spec, function_word_kind, is_function, is_impl_block, is_module, is_package_declaration,
    is_structured_type, is_type_alias, is_free_variable, module_kind, structured_type_spec,
};
use crate::heuristics::structural_extraction::{
    extract_fields, extract_implements_trait, extract_impl_for, extract_methods,
    extract_nested_types, extract_parameters, extract_return_type, extract_super_types,
    alias_ok, extract_type_aliases, fields_read_from, impl_target_node, implements_read_from,
    list_nodes, method_ok, ListKind,
    nested_type_ok, params_read_from, return_type_read_from, super_nodes, supers_in,
};
use crate::heuristics::text_parsing::{
    extract_identifier, extract_qualified_name, identifier_spec, qualified_name_spec,
    split_qualified_name, split_qualified_name_spec,
};
use crate::heuristics::type_extraction::{
    determine_structured_kind, extract_type_ref, structured_kind_spec, type_read_from,
};
use crate::model::components::{
    opt_typeref_view, Field, Function, ImplBlock, Import, Module, Signature, StructuredType,
    TypeAlias,
};
use crate::model::queries::{typerefs_view, QualifiedName};
use crate::syntax::SyntaxTree;
use crate::text_util::{
    alphanumeric, ends_with_chars, ends_with_spec, replace_spec, replace_all_chars, chars_eq, chars_of, contains_sub, find_sub, is_first_sub, slice_chars,
    str_contains, str_eq, str_starts_with, string_from_chars, sub_at, to_owned_string, trim,
    trim_chars,
};
use vstd::prelude::*;

verus! {

/// The characters at the start of `s` that may form an identifier (alphanumeric
/// or `_`).
pub open spec fn ident_prefix(s: Seq<char>) -> Seq<char>
    decreases s.len(),
{
    if s.len() > 0 && (alphanumeric(s[0]) || s[0] == '_') {
        seq![s[0]] + ident_prefix(s.drop_first())
    } else {
        Seq::empty()
    }
}

fn ident_prefix_chars(s: &[char]) -> (r: Vec<char>)
    ensures
        r@ == ident_prefix(s@),
{
    let mut out: Vec<char> = Vec::new();
    let mut i: usize = 0;
    assert(s@.skip(0) == s@);
    assert(out@ + ident_prefix(s@) == ident_prefix(s@));
    while i < s.len()
        invariant
            i <= s@.len(),
            ident_prefix(s@) == out@ + ident_prefix(s@.skip(i as int)),
        decreases s.len() - i,
    {

        let c = s[i];
        if !(crate::text_util::char_is_alphanumeric(c) || c == '_') {
            assert(ident_prefix(s@.skip(i as int)) == Seq::<char>::empty());
            assert(out@ + Seq::<char>::empty() == out@);
            return out;
        }
        assert(s@.skip(i as int).drop_first() == s@.skip(i + 1));
        assert(out@.push(c) + ident_prefix(s@.skip(i + 1)) == out@ + (seq![c] + ident_prefix(
            s@.skip(i + 1),
        )));
        out.push(c);
        i += 1;
    }
    assert(s@.skip(i as int).len() == 0);
    assert(out@ + Seq::<char>::empty() == out@);
    out
}

/// The alias of an import statement: the identifier after the first ` as `.
pub open spec fn import_alias_spec(text: Seq<char>) -> Option<Seq<char>> {
    if exists|i: int| is_first_sub(text, " as "@, i) {
        let i = choose|i: int| is_first_sub(text, " as "@, i);
        let part = ident_prefix(trim(text.skip(i + 4)));
        if part.len() > 0 {
            Some(part)
        } else {
            None
        }
    } else {
        None
    }
}

/// Whether an import statement imports everything of its path.
pub open spec fn import_wildcard_spec(text: Seq<char>) -> bool {
    contains_sub(text, "*"@) || contains_sub(text, ".*"@) || contains_sub(text, "::*"@) || (
    "using namespace "@.len() <= text.len() && text.take("using namespace "@.len() as int)
        == "using namespace "@)
}

/// Kinds that may hold an import.
pub open spec fn import_like_kind(k: Seq<char>) -> bool {
    contains_sub(k, "import"@) || contains_sub(k, "use"@) || k == "using_declaration"@
}

/// The view of an optional string.
pub open spec fn opt_str_view(o: Option<String>) -> Option<Seq<char>> {
    match o {
        Some(s) => Some(s@),
        None => None,
    }
}

fn clone_opt_string(o: &Option<String>) -> (r: Option<String>)
    ensures
        opt_str_view(r) == opt_str_view(*o),
{
    match o {
        Some(s) => Some(to_owned_string(s.as_str())),
        None => None,
    }
}

/// The alias written after ` as ` in an import's text.
fn import_alias(text: &str) -> (r: Option<String>)
    ensures
        opt_str_view(r) == import_alias_spec(text@),
{
    let cs = chars_of(text);
    let pat = chars_of(" as ");
    proof {
        reveal_strlit(" as ");
    }
    assert(pat@.len() == 4);
    match find_sub(&cs, &pat) {
        Some(pos) => {
            assert(sub_at(cs@, pat@, pos as int));
            let n = cs.len();
            assert(pos + 4 <= n);
            let after = trim_chars(&slice_chars(&cs, pos + 4, n));
            let part = ident_prefix_chars(&after);
            proof {
                let j = choose|j: int| is_first_sub(cs@, " as "@, j);
                if j < pos {
                    assert(!sub_at(cs@, " as "@, j));
                } else if j > pos {
                    assert(!sub_at(cs@, " as "@, pos as int));
                }
                assert(j == pos);
            }
            if part.len() > 0 {
                Some(string_from_chars(&part))
            } else {
                None
            }
        },
        None => {
            proof {
                if exists|i: int| is_first_sub(cs@, " as "@, i) {
                    let j = choose|i: int| is_first_sub(cs@, " as "@, i);
                    assert(sub_at(cs@, " as "@, j));
                }
            }
            None
        },
    }
}

/// Whether an import's text imports everything.
fn import_wildcard(text: &str) -> (r: bool)
    ensures
        r == import_wildcard_spec(text@),
{
    str_contains(text, "*") || str_contains(text, ".*") || str_contains(text, "::*")
        || str_starts_with(text, "using namespace ")
}

/// Characters kept in an import path: all but quotes and angle brackets.
pub open spec fn keep_path_char(c: char) -> bool {
    c != '"' && c != '<' && c != '>'
}

/// The test that keeps path characters.
pub closed spec fn keep_path_pred() -> spec_fn(char) -> bool {
    |c: char| keep_path_char(c)
}

/// `s` without the first of `exts` that it ends with.
pub open spec fn drop_ext_from(s: Seq<char>, exts: Seq<Seq<char>>) -> Seq<char>
    decreases exts.len(),
{
    if exts.len() == 0 {
        s
    } else if ends_with_spec(s, exts[0]) {
        s.take(s.len() - exts[0].len())
    } else {
        drop_ext_from(s, exts.drop_first())
    }
}

/// Source-file extensions dropped from an import path, in the order they are tried.
pub open spec fn source_exts() -> Seq<Seq<char>> {
    seq![".hpp"@, ".cpp"@, ".h"@, ".c"@, ".ts"@, ".js"@]
}

/// The module path named by an import's raw text: quotes and angle brackets
/// dropped, every `crate::` removed where the text starts with it, the first
/// source-file extension it ends with dropped, `/` read as `::`, then split.
pub open spec fn sanitize_spec(raw: Seq<char>) -> Seq<Seq<char>> {
    let t0 = raw.filter(keep_path_pred());
    let t1 = if "crate::"@.len() <= t0.len() && t0.take("crate::"@.len() as int) == "crate::"@ {
        replace_spec(t0, "crate::"@, Seq::empty())
    } else {
        t0
    };
    let t2 = drop_ext_from(t1, source_exts());
    split_qualified_name_spec(replace_spec(t2, "/"@, "::"@))
}

/// `t` without the extension `ext`, if it ends with it.
fn drop_ext(t: &Vec<char>, ext: &str) -> (r: Option<Vec<char>>)
    ensures
        match r {
            Some(x) => ends_with_spec(t@, ext@) && x@ == t@.take(t@.len() - ext@.len()),
            None => !ends_with_spec(t@, ext@),
        },
{
    let e = chars_of(ext);
    if ends_with_chars(t, &e) {
        let x = slice_chars(t, 0, t.len() - e.len());
        assert(x@ =~= t@.take(t@.len() - ext@.len()));
        Some(x)
    } else {
        None
    }
}

/// The module path named by an import's raw text: quotes and angle brackets
/// dropped, a leading `crate::` removed, a source-file extension dropped, `/` read
/// as `::`.
fn sanitize_import_path(raw_text: &str) -> (r: QualifiedName)
    ensures
        r.deep_view() == sanitize_spec(raw_text@),
{
    let cs = chars_of(raw_text);
    let ghost keep = keep_path_pred();
    let mut txt: Vec<char> = Vec::new();
    let mut i: usize = 0;
    proof {
        assert(cs@.take(0).filter(keep) =~= Seq::<char>::empty()) by {
            reveal(Seq::filter);
        }
    }
    while i < cs.len()
        invariant
            keep == keep_path_pred(),
            i <= cs@.len(),
            txt@ == cs@.take(i as int).filter(keep),
        decreases cs.len() - i,
    {
        let c = cs[i];
        proof {
            assert(cs@.take(i as int + 1) =~= cs@.take(i as int).push(c));
            cs@.take(i as int).lemma_filter_push(c, keep);
        }
        if c != '"' && c != '<' && c != '>' {
            txt.push(c);
        }
        i += 1;
    }
    proof {
        assert(cs@.take(i as int) =~= cs@);
    }
    let crate_prefix = chars_of("crate::");
    let empty: Vec<char> = Vec::new();
    proof {
        assert(empty@ =~= Seq::<char>::empty());
    }
    if crate::text_util::starts_with_chars(&txt, &crate_prefix) {
        proof {
            reveal_strlit("crate::");
        }
        txt = replace_all_chars(&txt, &crate_prefix, &empty);
    }
    let ghost t1 = txt@;
    let dropped = if let Some(x) = drop_ext(&txt, ".hpp") {
        x
    } else if let Some(x) = drop_ext(&txt, ".cpp") {
        x
    } else if let Some(x) = drop_ext(&txt, ".h") {
        x
    } else if let Some(x) = drop_ext(&txt, ".c") {
        x
    } else if let Some(x) = drop_ext(&txt, ".ts") {
        x
    } else if let Some(x) = drop_ext(&txt, ".js") {
        x
    } else {
        txt
    };
    proof {
        let ex = source_exts();
        assert(ex.drop_first() =~= seq![".cpp"@, ".h"@, ".c"@, ".ts"@, ".js"@]);
        assert(ex.drop_first().drop_first() =~= seq![".h"@, ".c"@, ".ts"@, ".js"@]);
        assert(ex.drop_first().drop_first().drop_first() =~= seq![".c"@, ".ts"@, ".js"@]);
        assert(ex.drop_first().drop_first().drop_first().drop_first() =~= seq![".ts"@, ".js"@]);
        assert(ex.drop_first().drop_first().drop_first().drop_first().drop_first() =~= seq![
            ".js"@,
        ]);
        assert(ex.drop_first().drop_first().drop_first().drop_first().drop_first().drop_first()
            =~= Seq::<Seq<char>>::empty());
        reveal_with_fuel(drop_ext_from, 7);
        assert(dropped@ == drop_ext_from(t1, ex));
    }
    let slash = chars_of("/");
    let colons = chars_of("::");
    proof {
        reveal_strlit("/");
    }
    let txt = replace_all_chars(&dropped, &slash, &colons);
    let s = string_from_chars(&txt);
    split_qualified_name(s.as_str())
}

/// Kinds of the imported names after a `module_name` field.
pub open spec fn import_part_kind(k: Seq<char>) -> bool {
    k == "aliased_import"@ || k == "dotted_name"@ || k == "name"@ || k == "identifier"@
}

/// The test that picks the imported names of a `from ... import` node.
pub closed spec fn import_part_pred(tree: SyntaxTree, pn: usize) -> spec_fn(usize) -> bool {
    |c: usize| import_part_kind(tree.kind_of(c as int)) && c != pn
}

/// The path of an imported name: the module path followed by the name's parts.
pub closed spec fn with_base_fn(tree: SyntaxTree, base: Seq<Seq<char>>) -> spec_fn(usize) -> Seq<Seq<char>> {
    |c: usize| base + split_qualified_name_spec(tree.text_of(c as int))
}

/// Kinds of a child that holds an import path.
pub open spec fn import_path_kind(k: Seq<char>) -> bool {
    k == "scoped_identifier"@ || k == "identifier"@ || k == "dotted_name"@ || k
        == "system_lib_string"@ || k == "string_literal"@
}

/// Whether the `k`-th child of `node` is its first child that holds a path.
pub open spec fn first_path_kid(tree: SyntaxTree, node: int, k: int) -> bool {
    &&& 0 <= k < tree.kids_of(node).len()
    &&& import_path_kind(tree.kind_of(tree.kids_of(node)[k] as int))
    &&& forall|j: int|
        0 <= j < k ==> !import_path_kind(tree.kind_of(#[trigger] tree.kids_of(node)[j] as int))
}

/// The node of an import's path field: `argument`, else `name`, else `path`.
pub open spec fn import_path_node(tree: SyntaxTree, node: int) -> Option<usize> {
    if tree.field_child(node, "argument"@) is Some {
        tree.field_child(node, "argument"@)
    } else if tree.field_child(node, "name"@) is Some {
        tree.field_child(node, "name"@)
    } else {
        tree.field_child(node, "path"@)
    }
}

/// The paths an import-like node imports. With a `module_name` field: the module
/// path followed by each imported name (the module path alone where none is
/// named). Otherwise: the path of the path field, else of the first child that
/// holds one, where it is not empty.
pub open spec fn import_paths(tree: SyntaxTree, node: int) -> Seq<Seq<Seq<char>>> {
    match tree.field_child(node, "module_name"@) {
        Some(pn) => {
            let base = split_qualified_name_spec(tree.text_of(pn as int));
            let parts = tree.kids_of(node).filter(import_part_pred(tree, pn)).map_values(
                with_base_fn(tree, base),
            );
            if parts.len() > 0 {
                parts
            } else {
                seq![base]
            }
        },
        None => {
            let p = match import_path_node(tree, node) {
                Some(pn) => sanitize_spec(tree.text_of(pn as int)),
                None => if exists|k: int| first_path_kid(tree, node, k) {
                    sanitize_spec(
                        tree.text_of(
                            tree.kids_of(node)[choose|k: int| first_path_kid(tree, node, k)] as int,
                        ),
                    )
                } else {
                    Seq::empty()
                },
            };
            if p.len() > 0 {
                seq![p]
            } else {
                Seq::empty()
            }
        },
    }
}

/// The imports of an import-like node (`use`, `import`, `from ... import`,
/// `#include`, `using`), one per path it imports. Each import carries the
/// statement's alias (the identifier after ` as `) and whether it is a wildcard
/// import; `None` for other kinds and where no path is found.
pub fn try_parse_imports(tree: &SyntaxTree, node: usize) -> (r: Option<Vec<Import>>)
    requires
        tree.wf(),
        node < tree.size(),
    ensures
        r is Some <==> import_like_kind(tree.kind_of(node as int)) && import_paths(
            *tree,
            node as int,
        ).len() > 0,
        !import_like_kind(tree.kind_of(node as int)) ==> r is None,
        r matches Some(v) ==> v@.len() > 0,
        r matches Some(v) ==> v@.len() == import_paths(*tree, node as int).len(),
        r matches Some(v) ==> forall|k: int|
            0 <= k < v@.len() ==> (#[trigger] v@[k]).path.deep_view() == import_paths(
                *tree,
                node as int,
            )[k],
        r matches Some(v) ==> forall|k: int|
            0 <= k < v@.len() ==> (#[trigger] v@[k]).is_wildcard == import_wildcard_spec(
                tree.text_of(node as int),
            ) && opt_str_view(v@[k].alias) == import_alias_spec(tree.text_of(node as int)),
{
    let kind = tree.kind(node);
    if !str_contains(kind, "import") && !str_contains(kind, "use") && !str_eq(
        kind,
        "using_declaration",
    ) {
        return None;
    }
    let text = tree.text(node);
    let is_wildcard = import_wildcard(text);
    let alias = import_alias(text);
    let ghost w = import_wildcard_spec(tree.text_of(node as int));
    let ghost a = import_alias_spec(tree.text_of(node as int));
    let ghost paths = import_paths(*tree, node as int);
    let mut imports: Vec<Import> = Vec::new();
    if let Some(p_node) = tree.child_by_field_name(node, "module_name") {
        let base_path = split_qualified_name(tree.text(p_node));
        let kids = tree.children(node);
        let ghost pp = import_part_pred(*tree, p_node);
        let ghost wb = with_base_fn(*tree, base_path.deep_view());
        let mut i: usize = 0;
        proof {
            assert(kids@.take(0).filter(pp) =~= Seq::<usize>::empty()) by {
                reveal(Seq::filter);
            }
        }
        while i < kids.len()
            invariant
                tree.wf(),
                kids@ == tree.kids_of(node as int),
                pp == import_part_pred(*tree, p_node),
                wb == with_base_fn(*tree, base_path.deep_view()),
                i <= kids@.len(),
                is_wildcard == w,
                opt_str_view(alias) == a,
                forall|k: int| 0 <= k < kids@.len() ==> #[trigger] kids@[k] < tree.size(),
                imports@.len() == kids@.take(i as int).filter(pp).len(),
                forall|k: int|
                    0 <= k < imports@.len() ==> (#[trigger] imports@[k]).path.deep_view() == kids@.take(
                        i as int,
                    ).filter(pp).map_values(wb)[k],
                forall|k: int|
                    0 <= k < imports@.len() ==> (#[trigger] imports@[k]).is_wildcard == w
                        && opt_str_view(imports@[k].alias) == a,
            decreases kids.len() - i,
        {
            let child = kids[i];
            proof {
                assert(kids@.take(i as int + 1) =~= kids@.take(i as int).push(child));
                kids@.take(i as int).lemma_filter_push(child, pp);
            }
            let ck = tree.kind(child);
            if (str_eq(ck, "aliased_import") || str_eq(ck, "dotted_name") || str_eq(ck, "name")
                || str_eq(ck, "identifier")) && child != p_node {
                let mut full_path = crate::model::queries::clone_qn(&base_path);
                let mut tail = split_qualified_name(tree.text(child));
                let ghost fp = full_path.deep_view();
                let ghost tl = tail.deep_view();
                full_path.append(&mut tail);
                proof {
                    assert(full_path.deep_view() =~= fp + tl);
                    assert(pp(child));
                    assert(wb(child) == base_path.deep_view() + split_qualified_name_spec(
                        tree.text_of(child as int),
                    ));
                    let old_parts = kids@.take(i as int).filter(pp);
                    assert(old_parts.push(child).map_values(wb) =~= old_parts.map_values(wb).push(
                        wb(child),
                    ));
                }
                imports.push(
                    Import { path: full_path, alias: clone_opt_string(&alias), is_wildcard },
                );
            } else {
                proof {
                    assert(!pp(child));
                }
            }
            i += 1;
        }
        proof {
            assert(kids@.take(i as int) =~= kids@);
        }
        if imports.len() == 0 {
            imports.push(Import { path: base_path, alias, is_wildcard });
        }
        proof {
            assert(imports@.len() == paths.len());
        }
    } else {
        let mut p_node = tree.child_by_field_name(node, "argument");
        if p_node.is_none() {
            p_node = tree.child_by_field_name(node, "name");
        }
        if p_node.is_none() {
            p_node = tree.child_by_field_name(node, "path");
        }
        let path = match p_node {
            Some(p) => sanitize_import_path(tree.text(p)),
            None => {
                let kids = tree.children(node);
                let mut picked: Option<usize> = None;
                let mut i: usize = 0;
                while i < kids.len()
                    invariant_except_break
                        picked is None,
                    invariant
                        tree.wf(),
                        kids@ == tree.kids_of(node as int),
                        i <= kids@.len(),
                        forall|k: int| 0 <= k < kids@.len() ==> #[trigger] kids@[k] < tree.size(),
                        forall|j: int|
                            0 <= j < i ==> !import_path_kind(tree.kind_of(#[trigger] kids@[j] as int)),
                    ensures
                        picked matches Some(c) ==> c < tree.size() && exists|k: int|
                            first_path_kid(*tree, node as int, k) && kids@[k] == c,
                        picked is None ==> forall|k: int| !first_path_kid(*tree, node as int, k),
                    decreases kids.len() - i,
                {
                    let ck = tree.kind(kids[i]);
                    if str_eq(ck, "scoped_identifier") || str_eq(ck, "identifier") || str_eq(
                        ck,
                        "dotted_name",
                    ) || str_eq(ck, "system_lib_string") || str_eq(ck, "string_literal") {
                        proof {
                            assert(first_path_kid(*tree, node as int, i as int));
                        }
                        picked = Some(kids[i]);
                        break;
                    }
                    i += 1;
                }
                match picked {
                    Some(c) => {
                        proof {
                            let wi = choose|k: int| first_path_kid(*tree, node as int, k) && kids@[k] == c;
                            assert forall|k: int| first_path_kid(*tree, node as int, k) implies k == wi by {
                                if k < wi {
                                    assert(!import_path_kind(tree.kind_of(kids@[k] as int)));
                                }
                                if k > wi {
                                    assert(!import_path_kind(tree.kind_of(kids@[wi] as int)));
                                }
                            }
                        }
                        sanitize_import_path(tree.text(c))
                    },
                    None => {
                        let p: QualifiedName = Vec::new();
                        assert(p.deep_view() =~= Seq::<Seq<char>>::empty());
                        p
                    },
                }
            },
        };
        if path.len() > 0 {
            imports.push(Import { path, alias, is_wildcard });
        }
    }
    if imports.len() == 0 {
        None
    } else {
        Some(imports)
    }
}

/// A module or namespace node, named by its identifier (`unnamed_module` where it
/// has none), with nothing in it yet.
pub fn try_parse_module_node(tree: &SyntaxTree, node: usize, lang_name: &str) -> (r: Option<Module>)
    requires
        tree.wf(),
        node < tree.size(),
    ensures
        r is Some <==> tree.named_of(node as int) && module_kind(tree.kind_of(node as int)),
        r matches Some(m) ==> m.name@[0]@ == (match identifier_spec(*tree, node as int) {
            Some(t) => t,
            None => "unnamed_module"@,
        }),
        r matches Some(m) ==> m.name@.len() == 1 && (m.language matches Some(l) && l@
            == lang_name@) && m.file_path is None && m.imports@.len() == 0
            && m.sub_modules@.len() == 0 && m.structured_types@.len() == 0
            && m.type_aliases@.len() == 0 && m.free_functions@.len() == 0
            && m.impl_blocks@.len() == 0 && m.free_variables@.len() == 0,
{
    if !is_module(tree, node) {
        return None;
    }
    let name = match extract_identifier(tree, node) {
        Some(n) => n,
        None => to_owned_string("unnamed_module"),
    };
    Some(
        Module {
            name: vec![name],
            language: Some(to_owned_string(lang_name)),
            file_path: None,
            imports: Vec::new(),
            sub_modules: Vec::new(),
            structured_types: Vec::new(),
            type_aliases: Vec::new(),
            free_functions: Vec::new(),
            impl_blocks: Vec::new(),
            free_variables: Vec::new(),
        },
    )
}

/// The qualified name of a file-level package declaration, read from its first
/// named child; `None` for other nodes and for an empty name.
pub fn try_parse_package_declaration(tree: &SyntaxTree, node: usize) -> (r: Option<QualifiedName>)
    requires
        tree.wf(),
        node < tree.size(),
    ensures
        r matches Some(p) ==> p@.len() > 0,
        r is Some <==> tree.named_of(node as int) && (tree.kind_of(node as int)
            == "package_declaration"@ || tree.kind_of(node as int) == "package_clause"@)
            && tree.named_kids(node as int).len() > 0 && split_qualified_name_spec(
            tree.text_of(tree.named_kids(node as int)[0] as int),
        ).len() > 0,
        r matches Some(p) ==> p.deep_view() == split_qualified_name_spec(
            tree.text_of(tree.named_kids(node as int)[0] as int),
        ),
{
    if !is_package_declaration(tree, node) {
        return None;
    }
    if let Some(child) = tree.named_child(node, 0) {
        let parts = split_qualified_name(tree.text(child));
        if parts.len() > 0 {
            return Some(parts);
        }
    }
    None
}

/// Whether `name` is the placeholder name of an unnamed type.
pub open spec fn unnamed_type_name(name: Seq<Seq<char>>) -> bool {
    name.len() == 1 && name[0] == "unnamed_type"@
}

/// Whether `name` is the placeholder name of an unnamed type.
fn is_unnamed_type(name: &QualifiedName) -> (r: bool)
    ensures
        r == unnamed_type_name(name.deep_view()),
{
    name.len() == 1 && str_eq(name[0].as_str(), "unnamed_type")
}

/// The name of a declaration: its qualified name, or the one-part placeholder
/// `fallback` where it has none.
pub open spec fn name_or(tree: SyntaxTree, node: int, fallback: Seq<char>) -> Seq<Seq<char>> {
    match qualified_name_spec(tree, node) {
        Some(q) => q,
        None => seq![fallback],
    }
}

/// What is stated of the structured type read from `node`: its name (with the
/// `unnamed_type` placeholder), its kind, named fields, methods whose body locals
/// are named, its super-types read from their nodes, nested types that are named
/// (and, for a `typedef`, not named as the type itself), its annotations, and no
/// imports or type parameters.
pub open spec fn structured_read_from(tree: SyntaxTree, node: int, st: StructuredType) -> bool {
    &&& st.name.deep_view() == name_or(tree, node, "unnamed_type"@)
    &&& st.kind == structured_kind_spec(tree.kind_of(node), tree.text_of(node))
    &&& forall|k: int| 0 <= k < st.fields@.len() ==> (#[trigger] st.fields@[k]).name@.len() > 0
    &&& (tree.kind_of(node) != "type_definition"@ ==> fields_read_from(tree, node, st.fields@))
    &&& (tree.kind_of(node) == "type_definition"@ ==> exists|n: int|
        0 <= n <= st.fields@.len() && fields_read_from(tree, node, #[trigger] st.fields@.take(n)))
    &&& st.methods@.len() == list_nodes(tree, node, 0, ListKind::Method).len()
    &&& forall|k: int|
        0 <= k < st.methods@.len() ==> function_read_from(
            tree,
            function_node(tree, list_nodes(tree, node, 0, ListKind::Method)[k] as int),
            #[trigger] st.methods@[k],
        )
    &&& forall|k: int| 0 <= k < st.methods@.len() ==> method_ok(#[trigger] st.methods@[k])
    &&& st.super_types@.len() == supers_in(tree, super_nodes(tree, node)).len()
    &&& forall|k: int|
        0 <= k < st.super_types@.len() ==> type_read_from(
            tree,
            supers_in(tree, super_nodes(tree, node))[k] as int,
            #[trigger] st.super_types@[k]@,
        )
    &&& forall|k: int|
        0 <= k < st.nested_types@.len() ==> nested_type_ok(#[trigger] st.nested_types@[k])
            && !unnamed_type_name(st.nested_types@[k].name.deep_view()) && !(tree.kind_of(node)
            == "type_definition"@ && st.nested_types@[k].name.deep_view() == st.name.deep_view())
    &&& typerefs_view(st.annotations@) == annotations_spec(tree, node)
    &&& st.imports@.len() == 0
    &&& st.type_parameters@.len() == 0
}

/// A structured type: its name (`unnamed_type` where it has none), kind, fields
/// (those of an inner struct, enum or union specifier of a C `typedef` included),
/// methods, super-types, named nested types and annotations. `Some` exactly for
/// the nodes that define a structured type.
pub fn try_parse_structured_type(
    tree: &SyntaxTree,
    node: usize,
    lang_name: &str,
    config: &crate::config::AnalyzerConfig,
) -> (r: Option<StructuredType>)
    requires
        tree.wf(),
        node < tree.size(),
    ensures
        r is Some <==> structured_type_spec(*tree, node as int),
        r matches Some(st) ==> st.kind == structured_kind_spec(
            tree.kind_of(node as int),
            tree.text_of(node as int),
        ),
        r matches Some(st) ==> forall|k: int|
            0 <= k < st.fields@.len() ==> (#[trigger] st.fields@[k]).name@.len() > 0,
        r matches Some(st) ==> structured_read_from(*tree, node as int, st),
    decreases tree.size() - node, 3nat,
{
    if !is_structured_type(tree, node) {
        return None;
    }
    let kind_text = tree.kind(node);
    let text = tree.text(node);
    let name = match extract_qualified_name(tree, node) {
        Some(q) => q,
        None => {
            let v = vec![to_owned_string("unnamed_type")];
            assert(v.deep_view() =~= seq!["unnamed_type"@]);
            v
        },
    };
    assert(name.deep_view() == name_or(*tree, node as int, "unnamed_type"@));
    let mut fields = extract_fields(tree, node, lang_name, config);
    let ghost own = fields@;
    let is_typedef = str_eq(kind_text, "type_definition");
    if is_typedef {
        let kids = tree.children(node);
        let mut i: usize = 0;
        while i < kids.len()
            invariant
                tree.wf(),
                node < tree.size(),
                forall|k: int| 0 <= k < kids@.len() ==> node < #[trigger] kids@[k] < tree.size(),
                forall|k: int| 0 <= k < fields@.len() ==> (#[trigger] fields@[k]).name@.len() > 0,
                own.len() <= fields@.len(),
                fields@.take(own.len() as int) == own,
            decreases kids.len() - i,
        {
            let ck = tree.kind(kids[i]);
            if str_eq(ck, "struct_specifier") || str_eq(ck, "enum_specifier") || str_eq(
                ck,
                "union_specifier",
            ) {
                let mut more = extract_fields(tree, kids[i], lang_name, config);
                let ghost before = fields@;
                fields.append(&mut more);
                proof {
                    assert(fields@.take(own.len() as int) =~= before.take(own.len() as int));
                }
            }
            i += 1;
        }
    }
    let methods = extract_methods(tree, node, lang_name, config);
    let super_types = extract_super_types(tree, node);
    let mut found = extract_nested_types(tree, node, lang_name, config);
    let mut nested_types: Vec<StructuredType> = Vec::new();
    while found.len() > 0
        invariant
            forall|k: int| 0 <= k < found@.len() ==> nested_type_ok(#[trigger] found@[k]),
            forall|k: int|
                0 <= k < nested_types@.len() ==> nested_type_ok(#[trigger] nested_types@[k])
                    && !unnamed_type_name(nested_types@[k].name.deep_view()) && !(is_typedef
                    && nested_types@[k].name.deep_view() == name.deep_view()),
        decreases found@.len(),
    {
        let nt = found.remove(0);
        let keep = !is_unnamed_type(&nt.name) && !(is_typedef && qn_eq(&nt.name, &name));
        if keep {
            nested_types.push(nt);
        }
    }
    let annotations = extract_annotations(tree, node);
    Some(
        StructuredType {
            name,
            kind: determine_structured_kind(kind_text, text),
            fields,
            methods,
            super_types,
            nested_types,
            annotations,
            imports: Vec::new(),
            type_parameters: Vec::new(),
        },
    )
}

/// Kinds of the body of a function found without a `body` field.
pub open spec fn body_kind(k: Seq<char>) -> bool {
    k == "block"@ || k == "constructor_body"@ || k == "statement_block"@
}

/// Kinds of the body of a function found without a `body` field.
fn is_body_kind(k: &str) -> (r: bool)
    ensures
        r == body_kind(k@),
{
    str_eq(k, "block") || str_eq(k, "constructor_body") || str_eq(k, "statement_block")
}

/// Kinds that mention a function or a method.
pub open spec fn fn_kind_text(k: Seq<char>) -> bool {
    contains_sub(k, "function"@) || contains_sub(k, "method"@)
}

/// Whether the `k`-th child of `n` is its first child whose kind mentions a
/// function or a method.
pub open spec fn first_fn_child(tree: SyntaxTree, n: int, k: int) -> bool {
    &&& 0 <= k < tree.kids_of(n).len()
    &&& fn_kind_text(tree.kind_of(tree.kids_of(n)[k] as int))
    &&& forall|j: int| 0 <= j < k ==> !fn_kind_text(tree.kind_of(#[trigger] tree.kids_of(n)[j] as int))
}

/// The node a function is read from: for a `decorated_definition`, its
/// `definition` field, else its first child whose kind mentions a function or a
/// method; the node itself otherwise.
pub open spec fn function_node(tree: SyntaxTree, start: int) -> int {
    if tree.kind_of(start) == "decorated_definition"@ {
        match tree.field_child(start, "definition"@) {
            Some(d) => d as int,
            None => if exists|k: int| first_fn_child(tree, start, k) {
                tree.kids_of(start)[choose|k: int| first_fn_child(tree, start, k)] as int
            } else {
                start
            },
        }
    } else {
        start
    }
}

/// Whether the `k`-th child of `node` is its first child of a body kind.
pub open spec fn first_body_kid(tree: SyntaxTree, node: int, k: int) -> bool {
    &&& 0 <= k < tree.kids_of(node).len()
    &&& body_kind(tree.kind_of(tree.kids_of(node)[k] as int))
    &&& forall|j: int| 0 <= j < k ==> !body_kind(tree.kind_of(#[trigger] tree.kids_of(node)[j] as int))
}

/// The body of a function node: its `body` field, else its first child of a body
/// kind.
pub open spec fn body_node(tree: SyntaxTree, node: int) -> Option<usize> {
    if tree.field_child(node, "body"@) is Some {
        tree.field_child(node, "body"@)
    } else if exists|k: int| first_body_kid(tree, node, k) {
        Some(tree.kids_of(node)[choose|k: int| first_body_kid(tree, node, k)])
    } else {
        None
    }
}

/// What is stated of the function read from `node`: its name is its identifier
/// (`unnamed_function` where it has none), split; it is a constructor exactly when
/// its kind says so; its parameters, return type and annotations are read from
/// it; it has no type parameters; it has a body exactly when the node has one,
/// and the locals of that body are named.
pub open spec fn function_read_from(tree: SyntaxTree, node: int, f: Function) -> bool {
    &&& f.name.deep_view() == split_qualified_name_spec(
        match identifier_spec(tree, node) {
            Some(t) => t,
            None => "unnamed_function"@,
        },
    )
    &&& f.is_constructor == contains_sub(tree.kind_of(node), "constructor"@)
    &&& params_read_from(tree, node, f.signature.parameters@)
    &&& return_type_read_from(tree, node, f.signature.return_type@)
    &&& typerefs_view(f.annotations@) == annotations_spec(tree, node)
    &&& f.type_parameters@.len() == 0
    &&& (f.body is Some <==> body_node(tree, node) is Some)
    &&& (f.body matches Some(b) ==> named_locals(b) && b@ == block_of(tree, body_node(tree, node)->0 as int))
}

/// A function or method: for a Python `decorated_definition`, the definition
/// inside it. Its name (`unnamed_function` where it has none), parameters, return
/// type, body block, whether it is a constructor, and its annotations.
pub fn try_parse_function(tree: &SyntaxTree, start: usize) -> (r: Option<Function>)
    requires
        tree.wf(),
        start < tree.size(),
    ensures
        r is Some ==> tree.named_of(start as int),
        tree.kind_of(start as int) != "declaration"@ ==> (r is Some <==> (tree.named_of(
            start as int,
        ) && function_word_kind(tree.kind_of(start as int)) && !contains_sub(
            tree.kind_of(start as int),
            "class"@,
        ))),
        r is Some <==> function_spec(*tree, start as int),
        r matches Some(f) ==> function_read_from(*tree, function_node(*tree, start as int), f),
        r matches Some(f) ==> (f.body matches Some(b) ==> named_locals(b)),
{
    if !is_function(tree, start) {
        return None;
    }
    let mut node = start;
    if str_eq(tree.kind(node), "decorated_definition") {
        if let Some(definition) = tree.child_by_field_name(node, "definition") {
            node = definition;
        } else {
            let kids = tree.children(start);
            let mut picked: Option<usize> = None;
            let mut i: usize = 0;
            while i < kids.len()
                invariant
                    tree.wf(),
                    kids@ == tree.kids_of(start as int),
                    i <= kids@.len(),
                    forall|k: int| 0 <= k < kids@.len() ==> #[trigger] kids@[k] < tree.size(),
                    forall|j: int| 0 <= j < i ==> !fn_kind_text(tree.kind_of(#[trigger] kids@[j] as int)),
                    picked matches Some(c) ==> c < tree.size() && exists|k: int| first_fn_child(*tree, start as int, k) && kids@[k] == c,
                ensures
                    picked matches Some(c) ==> c < tree.size() && exists|k: int| first_fn_child(*tree, start as int, k) && kids@[k] == c,
                    picked is None ==> forall|k: int| !first_fn_child(*tree, start as int, k),
                decreases kids.len() - i,
            {
                let ck = tree.kind(kids[i]);
                if str_contains(ck, "function") || str_contains(ck, "method") {
                    proof {
                        assert(first_fn_child(*tree, start as int, i as int));
                    }
                    picked = Some(kids[i]);
                    break;
                }
                i += 1;
            }
            if let Some(c) = picked {
                proof {
                    let w = choose|k: int| first_fn_child(*tree, start as int, k) && kids@[k] == c;
                    assert forall|k: int| first_fn_child(*tree, start as int, k) implies k == w by {
                        if k < w {
                            assert(!fn_kind_text(tree.kind_of(kids@[k] as int)));
                        }
                        if k > w {
                            assert(!fn_kind_text(tree.kind_of(kids@[w] as int)));
                        }
                    }
                }
                node = c;
            }
        }
    }
    assert(node == function_node(*tree, start as int));
    let name = match extract_identifier(tree, node) {
        Some(n) => n,
        None => to_owned_string("unnamed_function"),
    };
    let is_constructor = str_contains(tree.kind(node), "constructor");
    let parameters = extract_parameters(tree, node);
    let return_type = extract_return_type(tree, node);
    let body = match tree.child_by_field_name(node, "body") {
        Some(b) => Some(extract_block(tree, b)),
        None => {
            let mut found: Option<crate::model::components::Block> = None;
            let kids = tree.children(node);
            let mut i: usize = 0;
            while i < kids.len()
                invariant_except_break
                    found is None,
                invariant
                    tree.wf(),
                    kids@ == tree.kids_of(node as int),
                    i <= kids@.len(),
                    forall|k: int| 0 <= k < kids@.len() ==> #[trigger] kids@[k] < tree.size(),
                    forall|j: int| 0 <= j < i ==> !body_kind(tree.kind_of(#[trigger] kids@[j] as int)),
                ensures
                    found matches Some(b) ==> named_locals(b) && exists|k: int|
                        first_body_kid(*tree, node as int, k) && b@ == block_of(*tree, kids@[k] as int),
                    found is None ==> forall|k: int| !first_body_kid(*tree, node as int, k),
                decreases kids.len() - i,
            {
                if is_body_kind(tree.kind(kids[i])) {
                    let blk = extract_block(tree, kids[i]);
                    proof {
                        assert(first_body_kid(*tree, node as int, i as int));
                    }
                    found = Some(blk);
                    break;
                }
                i += 1;
            }
            proof {
                if found is Some {
                    let b = found->0;
                    let w = choose|k: int| first_body_kid(*tree, node as int, k) && b@ == block_of(*tree, kids@[k] as int);
                    assert forall|k: int| first_body_kid(*tree, node as int, k) implies k == w by {
                        if k < w {
                            assert(!body_kind(tree.kind_of(kids@[k] as int)));
                        }
                        if k > w {
                            assert(!body_kind(tree.kind_of(kids@[w] as int)));
                        }
                    }
                }
            }
            found
        },
    };
    let annotations = extract_annotations(tree, node);
    let qn = split_qualified_name(name.as_str());
    let r = Function {
        name: qn,
        signature: Signature { parameters, return_type },
        body,
        is_constructor,
        annotations,
        type_parameters: Vec::new(),
    };
    proof {
        assert(r.type_parameters@.len() == 0);
    }
    Some(r)
}

/// What is stated of the implementation block read from `node`: its name (with
/// the `unnamed_impl` placeholder), the type it is for and the trait it implements
/// as read from the node, methods whose body locals are named, nested types with
/// named fields, and aliases with one-part names.
pub open spec fn impl_read_from(tree: SyntaxTree, node: int, ib: ImplBlock) -> bool {
    &&& ib.name.deep_view() == name_or(tree, node, "unnamed_impl"@)
    &&& type_read_from(tree, impl_target_node(tree, node), ib.impl_for@)
    &&& implements_read_from(tree, node, opt_typeref_view(ib.implements_trait))
    &&& forall|k: int| 0 <= k < ib.methods@.len() ==> method_ok(#[trigger] ib.methods@[k])
    &&& ib.methods@.len() == list_nodes(tree, node, 0, ListKind::Method).len()
    &&& forall|k: int|
        0 <= k < ib.methods@.len() ==> function_read_from(
            tree,
            function_node(tree, list_nodes(tree, node, 0, ListKind::Method)[k] as int),
            #[trigger] ib.methods@[k],
        )
    &&& forall|k: int| 0 <= k < ib.nested_types@.len() ==> nested_type_ok(#[trigger] ib.nested_types@[k])
    &&& ib.nested_types@.len() == list_nodes(tree, node, 0, ListKind::NestedType).len()
    &&& forall|k: int|
        0 <= k < ib.nested_types@.len() ==> structured_read_from(
            tree,
            list_nodes(tree, node, 0, ListKind::NestedType)[k] as int,
            #[trigger] ib.nested_types@[k],
        )
    &&& forall|k: int| 0 <= k < ib.type_aliases@.len() ==> alias_ok(#[trigger] ib.type_aliases@[k])
    &&& ib.type_aliases@.len() == list_nodes(tree, node, 0, ListKind::TypeAlias).len()
}

/// An implementation block: its name (`unnamed_impl` where it has none), methods,
/// the type it is for, the trait it implements, nested types and type aliases.
/// `Some` exactly for `impl_item` and `impl_block` nodes.
pub fn try_parse_impl_block(
    tree: &SyntaxTree,
    node: usize,
    lang_name: &str,
    config: &crate::config::AnalyzerConfig,
) -> (r: Option<ImplBlock>)
    requires
        tree.wf(),
        node < tree.size(),
    ensures
        r is Some <==> tree.named_of(node as int) && (tree.kind_of(node as int) == "impl_item"@
            || tree.kind_of(node as int) == "impl_block"@),
        r matches Some(ib) ==> impl_read_from(*tree, node as int, ib),
{
    if !is_impl_block(tree, node) {
        return None;
    }
    let name = match extract_qualified_name(tree, node) {
        Some(q) => q,
        None => {
            let v = vec![to_owned_string("unnamed_impl")];
            assert(v.deep_view() =~= seq!["unnamed_impl"@]);
            v
        },
    };
    let methods = extract_methods(tree, node, lang_name, config);
    let impl_for = extract_impl_for(tree, node);
    let implements_trait = extract_implements_trait(tree, node);
    let nested_types = extract_nested_types(tree, node, lang_name, config);
    let type_aliases = extract_type_aliases(tree, node, lang_name, config);
    Some(ImplBlock { name, methods, impl_for, implements_trait, nested_types, type_aliases })
}

/// A global or static variable with a name: its type and annotations.
pub fn try_parse_free_variable(tree: &SyntaxTree, node: usize) -> (r: Option<Field>)
    requires
        tree.wf(),
        node < tree.size(),
    ensures
        r matches Some(f) ==> f.name@.len() > 0 && tree.named_of(node as int),
        r matches Some(f) ==> Some(f.name@) == identifier_spec(*tree, node as int) && type_read_from(
            *tree,
            node as int,
            f.ty@,
        ) && typerefs_view(f.annotations@) == annotations_spec(*tree, node as int),
        r is Some ==> identifier_spec(*tree, node as int) is Some,
        tree.named_of(node as int) && (tree.kind_of(node as int) == "static_item"@ || tree.kind_of(
            node as int,
        ) == "const_item"@ || tree.kind_of(node as int) == "global_variable_declaration"@)
            && identifier_spec(*tree, node as int) is Some ==> r is Some,
{
    if !is_free_variable(tree, node) {
        return None;
    }
    if let Some(name) = extract_identifier(tree, node) {
        let ty = extract_type_ref(tree, node);
        let annotations = extract_annotations(tree, node);
        return Some(Field { name, ty, annotations });
    }
    None
}

/// A type alias with a name: the name and the aliased type.
pub fn try_parse_type_alias(tree: &SyntaxTree, node: usize) -> (r: Option<TypeAlias>)
    requires
        tree.wf(),
        node < tree.size(),
    ensures
        r matches Some(t) ==> t.name@.len() == 1 && t.name@[0]@.len() > 0,
        r is Some <==> tree.named_of(node as int) && (alias_kind(tree.kind_of(node as int)) || (
        tree.kind_of(node as int) == "type_definition"@ && !structured_type_spec(
            *tree,
            node as int,
        ))) && identifier_spec(*tree, node as int) is Some,
        r matches Some(t) ==> Some(t.name@[0]@) == identifier_spec(*tree, node as int)
            && type_read_from(*tree, node as int, t.target@),
{
    if !is_type_alias(tree, node) {
        return None;
    }
    let name = match extract_identifier(tree, node) {
        Some(n) => n,
        None => {
            return None;
        },
    };
    let target = extract_type_ref(tree, node);
    Some(TypeAlias { name: vec![name], target })
}

} // verus!
