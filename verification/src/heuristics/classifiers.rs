//! Language-agnostic recognition of syntax nodes by their grammar kind.
use crate::syntax::SyntaxTree;
use crate::text_util::{contains_sub, str_contains, str_eq};
use vstd::prelude::*;

verus! {

/// Kinds that name a module or a namespace.
pub open spec fn module_kind(k: Seq<char>) -> bool {
    contains_sub(k, "mod_item"@) || contains_sub(k, "module"@) || contains_sub(k, "namespace"@)
}

/// Kinds that hold an aggregate (a struct, an enum or a union).
pub open spec fn aggregate_kind(k: Seq<char>) -> bool {
    contains_sub(k, "struct"@) || contains_sub(k, "enum"@) || contains_sub(k, "union"@)
}

/// Kinds that mention a type-defining word.
pub open spec fn type_word_kind(k: Seq<char>) -> bool {
    contains_sub(k, "struct"@) || contains_sub(k, "class"@) || contains_sub(k, "interface"@)
        || contains_sub(k, "trait"@) || contains_sub(k, "enum"@) || contains_sub(k, "union"@)
        || contains_sub(k, "annotation_type"@)
}

/// Kinds that mention a word of a use of a type rather than its definition.
pub open spec fn type_use_kind(k: Seq<char>) -> bool {
    contains_sub(k, "bound"@) || contains_sub(k, "clause"@) || contains_sub(k, "list"@)
        || contains_sub(k, "expression"@) || contains_sub(k, "argument"@) || contains_sub(k, "call"@)
        || contains_sub(k, "identifier"@) || contains_sub(k, "reference"@) || contains_sub(
        k,
        "body"@,
    ) || contains_sub(k, "mod"@) || contains_sub(k, "super"@) || contains_sub(k, "base"@)
        || contains_sub(k, "constructor"@)
}

/// Whether node `n` defines a structured type: a `type_definition` with an
/// aggregate child, or another kind with a type-defining word and no word of a use.
pub open spec fn structured_type_spec(t: SyntaxTree, n: int) -> bool {
    t.named_of(n) && if t.kind_of(n) == "type_definition"@ {
        exists|j: int|
            0 <= j < t.kids_of(n).len() && #[trigger] aggregate_kind(t.kind_of(t.kids_of(n)[j] as int))
    } else {
        type_word_kind(t.kind_of(n)) && !type_use_kind(t.kind_of(n))
    }
}

/// Kinds of functions and methods.
pub open spec fn function_word_kind(k: Seq<char>) -> bool {
    contains_sub(k, "function"@) || contains_sub(k, "method"@) || contains_sub(k, "fn_item"@)
        || contains_sub(k, "func"@) || contains_sub(k, "constructor"@) || k == "decorated_definition"@
}

/// Kinds of import statements.
pub open spec fn import_kind(k: Seq<char>) -> bool {
    k == "use_declaration"@ || k == "import_declaration"@ || k == "import_statement"@ || k
        == "import_from_statement"@ || k == "preproc_include"@
}

/// Kinds of type aliases.
pub open spec fn alias_kind(k: Seq<char>) -> bool {
    k == "type_alias_declaration"@ || k == "alias_declaration"@ || k == "type_item"@ || k
        == "type_alias_statement"@
}

/// Whether `k` holds one of the words of `aggregate_kind`.
fn is_aggregate_kind(k: &str) -> (r: bool)
    ensures
        r == aggregate_kind(k@),
{
    str_contains(k, "struct") || str_contains(k, "enum") || str_contains(k, "union")
}

/// Heuristically determines if a node is a module or namespace definition.
pub fn is_module(tree: &SyntaxTree, node: usize) -> (r: bool)
    requires
        tree.wf(),
        node < tree.size(),
    ensures
        r == (tree.named_of(node as int) && module_kind(tree.kind_of(node as int))),
{
    if !tree.is_named(node) {
        return false;
    }
    let kind = tree.kind(node);
    str_contains(kind, "mod_item") || str_contains(kind, "module") || str_contains(kind, "namespace")
}

/// Heuristically determines if a node is a file-level package declaration.
pub fn is_package_declaration(tree: &SyntaxTree, node: usize) -> (r: bool)
    requires
        tree.wf(),
        node < tree.size(),
    ensures
        r == (tree.named_of(node as int) && (tree.kind_of(node as int) == "package_declaration"@
            || tree.kind_of(node as int) == "package_clause"@)),
{
    if !tree.is_named(node) {
        return false;
    }
    let kind = tree.kind(node);
    str_eq(kind, "package_declaration") || str_eq(kind, "package_clause")
}

/// Heuristically determines if a node is a structured type definition (struct, class,
/// interface, trait, enum, union).
pub fn is_structured_type(tree: &SyntaxTree, node: usize) -> (r: bool)
    requires
        tree.wf(),
        node < tree.size(),
    ensures
        r == structured_type_spec(*tree, node as int),
{
    if !tree.is_named(node) {
        return false;
    }
    let kind = tree.kind(node);
    if str_eq(kind, "type_definition") {
        let kids = tree.children(node);
        let mut i: usize = 0;
        while i < kids.len()
            invariant
                tree.wf(),
                node < tree.size(),
                kids@ == tree.kids_of(node as int),
                tree.named_of(node as int),
                tree.kind_of(node as int) == "type_definition"@,
                i <= kids@.len(),
                forall|k: int| 0 <= k < kids@.len() ==> #[trigger] kids@[k] < tree.size(),
                forall|j: int| 0 <= j < i ==> !#[trigger] aggregate_kind(tree.kind_of(kids@[j] as int)),
            decreases kids.len() - i,
        {
            if is_aggregate_kind(tree.kind(kids[i])) {
                assert(aggregate_kind(tree.kind_of(tree.kids_of(node as int)[i as int] as int)));
                return true;
            }
            i += 1;
        }
        return false;
    }
    let word = str_contains(kind, "struct") || str_contains(kind, "class") || str_contains(
        kind,
        "interface",
    ) || str_contains(kind, "trait") || str_contains(kind, "enum") || str_contains(kind, "union")
        || str_contains(kind, "annotation_type");
    let used = str_contains(kind, "bound") || str_contains(kind, "clause") || str_contains(
        kind,
        "list",
    ) || str_contains(kind, "expression") || str_contains(kind, "argument") || str_contains(
        kind,
        "call",
    ) || str_contains(kind, "identifier") || str_contains(kind, "reference") || str_contains(
        kind,
        "body",
    ) || str_contains(kind, "mod") || str_contains(kind, "super") || str_contains(kind, "base")
        || str_contains(kind, "constructor");
    word && !used
}

/// Whether one of the nested `declarator` fields below `n` is a
/// `function_declarator`.
pub open spec fn fn_declarator_below(tree: SyntaxTree, n: int) -> bool
    decreases tree.size() - n,
{
    match tree.field_child(n, "declarator"@) {
        Some(d) => if n < d < tree.size() {
            tree.kind_of(d as int) == "function_declarator"@ || fn_declarator_below(tree, d as int)
        } else {
            false
        },
        None => false,
    }
}

/// Whether one of the nested `declarator` fields below `node` is a
/// `function_declarator` (C and C++ declarations).
fn has_nested_function_declarator(tree: &SyntaxTree, node: usize) -> (r: bool)
    requires
        tree.wf(),
        node < tree.size(),
    ensures
        r == fn_declarator_below(*tree, node as int),
{
    let mut curr = tree.child_by_field_name(node, "declarator");
    while curr.is_some()
        invariant
            tree.wf(),
            curr matches Some(d) ==> d < tree.size(),
            fn_declarator_below(*tree, node as int) == (match curr {
                Some(d) => tree.kind_of(d as int) == "function_declarator"@ || fn_declarator_below(
                    *tree,
                    d as int,
                ),
                None => false,
            }),
        decreases tree.size() - (match curr { Some(d) => d as int, None => tree.size() as int }),
    {
        let d = curr.unwrap();
        if str_eq(tree.kind(d), "function_declarator") {
            return true;
        }
        curr = tree.child_by_field_name(d, "declarator");
    }
    false
}

/// Heuristically identifies free-standing functions or methods. A C or C++
/// `declaration` counts where a nested declarator declares a function.
pub open spec fn function_spec(tree: SyntaxTree, node: int) -> bool {
    tree.named_of(node) && ((tree.kind_of(node) == "declaration"@ && fn_declarator_below(tree, node))
        || (function_word_kind(tree.kind_of(node)) && !contains_sub(tree.kind_of(node), "class"@)))
}

/// Heuristically identifies free-standing functions or methods. A C or C++
/// `declaration` counts where a nested declarator declares a function.
pub fn is_function(tree: &SyntaxTree, node: usize) -> (r: bool)
    requires
        tree.wf(),
        node < tree.size(),
    ensures
        r == function_spec(*tree, node as int),
        r ==> tree.named_of(node as int),
        tree.kind_of(node as int) != "declaration"@ ==> r == (tree.named_of(node as int)
            && function_word_kind(tree.kind_of(node as int)) && !contains_sub(
            tree.kind_of(node as int),
            "class"@,
        )),
{
    if !tree.is_named(node) {
        return false;
    }
    let kind = tree.kind(node);
    if str_eq(kind, "declaration") && has_nested_function_declarator(tree, node) {
        return true;
    }
    let is_func_kind = str_contains(kind, "function") || str_contains(kind, "method")
        || str_contains(kind, "fn_item") || str_contains(kind, "func") || str_contains(
        kind,
        "constructor",
    ) || str_eq(kind, "decorated_definition");
    is_func_kind && !str_contains(kind, "class")
}

/// Identifies implementation blocks (Rust `impl`).
pub fn is_impl_block(tree: &SyntaxTree, node: usize) -> (r: bool)
    requires
        tree.wf(),
        node < tree.size(),
    ensures
        r == (tree.named_of(node as int) && (tree.kind_of(node as int) == "impl_item"@
            || tree.kind_of(node as int) == "impl_block"@)),
{
    if !tree.is_named(node) {
        return false;
    }
    let kind = tree.kind(node);
    str_eq(kind, "impl_item") || str_eq(kind, "impl_block")
}

/// Identifies import or use statements.
pub fn is_import(tree: &SyntaxTree, node: usize) -> (r: bool)
    requires
        tree.wf(),
        node < tree.size(),
    ensures
        r == (tree.named_of(node as int) && import_kind(tree.kind_of(node as int))),
{
    if !tree.is_named(node) {
        return false;
    }
    let kind = tree.kind(node);
    str_eq(kind, "use_declaration") || str_eq(kind, "import_declaration") || str_eq(
        kind,
        "import_statement",
    ) || str_eq(kind, "import_from_statement") || str_eq(kind, "preproc_include")
}

/// Whether a kind marks a function or a block around a declaration.
pub open spec fn local_scope_kind(k: Seq<char>) -> bool {
    contains_sub(k, "function"@) || contains_sub(k, "method"@) || contains_sub(k, "body"@) || k
        == "compound_statement"@ || k == "block"@
}

/// Whether a kind marks a function or a block around a declaration.
fn is_local_scope_kind(k: &str) -> (r: bool)
    ensures
        r == local_scope_kind(k@),
{
    str_contains(k, "function") || str_contains(k, "method") || str_contains(k, "body") || str_eq(
        k,
        "compound_statement",
    ) || str_eq(k, "block")
}

/// Whether no node from `p` up to the root is a function or a block.
pub open spec fn outside_local_scopes(tree: SyntaxTree, p: Option<usize>) -> bool
    decreases (match p {
        Some(q) => q as int + 1,
        None => 0int,
    }),
{
    match p {
        None => true,
        Some(q) => !local_scope_kind(tree.kind_of(q as int)) && match tree.parent_of(q as int) {
            Some(g) => if g < q {
                outside_local_scopes(tree, Some(g))
            } else {
                true
            },
            None => true,
        },
    }
}

/// Kinds of C-style variable declarations.
pub open spec fn c_declaration_kind(k: Seq<char>) -> bool {
    k == "declaration"@ || k == "variable_declaration"@
}

/// Global or static variables: `static_item`, `const_item`,
/// `global_variable_declaration`, and C-style declarations that declare no
/// function and stand outside every function and block.
pub open spec fn free_variable_spec(tree: SyntaxTree, node: int) -> bool {
    let k = tree.kind_of(node);
    tree.named_of(node) && (k == "static_item"@ || k == "const_item"@ || k
        == "global_variable_declaration"@ || (c_declaration_kind(k) && !fn_declarator_below(
        tree,
        node,
    ) && outside_local_scopes(tree, tree.parent_of(node))))
}

/// Identifies global or static variables: `static_item`, `const_item`,
/// `global_variable_declaration`, and C-style declarations that declare no function
/// and stand outside every function and block.
pub fn is_free_variable(tree: &SyntaxTree, node: usize) -> (r: bool)
    requires
        tree.wf(),
        node < tree.size(),
    ensures
        r == free_variable_spec(*tree, node as int),
        r ==> tree.named_of(node as int),
        tree.named_of(node as int) && (tree.kind_of(node as int) == "static_item"@ || tree.kind_of(
            node as int,
        ) == "const_item"@ || tree.kind_of(node as int) == "global_variable_declaration"@) ==> r,
        tree.kind_of(node as int) != "declaration"@ && tree.kind_of(node as int)
            != "variable_declaration"@ ==> r == (tree.named_of(node as int) && (tree.kind_of(
            node as int,
        ) == "static_item"@ || tree.kind_of(node as int) == "const_item"@ || tree.kind_of(
            node as int,
        ) == "global_variable_declaration"@)),
{
    if !tree.is_named(node) {
        return false;
    }
    let kind = tree.kind(node);
    let mut is_decl = false;
    if str_eq(kind, "declaration") || str_eq(kind, "variable_declaration") {
        proof {
            reveal_strlit("declaration");
            reveal_strlit("variable_declaration");
            reveal_strlit("static_item");
            reveal_strlit("const_item");
            reveal_strlit("global_variable_declaration");
            assert("declaration"@[0] != "static_item"@[0]);
            assert("declaration"@[0] != "const_item"@[0]);
            assert("variable_declaration"@[0] != "static_item"@[0]);
            assert("variable_declaration"@[0] != "const_item"@[0]);
            assert("declaration"@.len() != "global_variable_declaration"@.len());
            assert("variable_declaration"@.len() != "global_variable_declaration"@.len());
        }
        if has_nested_function_declarator(tree, node) {
            return false;
        }
        let mut parent = tree.parent(node);
        while parent.is_some()
            invariant
                tree.wf(),
                parent matches Some(p) ==> p < tree.size(),
                tree.kind_of(node as int) == "declaration"@ || tree.kind_of(node as int)
                    == "variable_declaration"@,
                !(tree.kind_of(node as int) == "static_item"@ || tree.kind_of(node as int)
                    == "const_item"@ || tree.kind_of(node as int) == "global_variable_declaration"@),
                outside_local_scopes(*tree, tree.parent_of(node as int)) == outside_local_scopes(
                    *tree,
                    parent,
                ),
            decreases (match parent { Some(p) => p as int + 1, None => 0int }),
        {
            let p = parent.unwrap();
            if is_local_scope_kind(tree.kind(p)) {
                return false;
            }
            parent = tree.parent(p);
        }
        is_decl = true;
    }
    str_eq(kind, "static_item") || str_eq(kind, "const_item") || str_eq(
        kind,
        "global_variable_declaration",
    ) || is_decl
}

/// Identifies type aliases (`typedef`, `using`, `type = ...`); a C `type_definition`
/// counts where it defines no structured type.
pub fn is_type_alias(tree: &SyntaxTree, node: usize) -> (r: bool)
    requires
        tree.wf(),
        node < tree.size(),
    ensures
        r == (tree.named_of(node as int) && (alias_kind(tree.kind_of(node as int)) || (tree.kind_of(
            node as int,
        ) == "type_definition"@ && !structured_type_spec(*tree, node as int)))),
{
    if !tree.is_named(node) {
        return false;
    }
    let kind = tree.kind(node);
    str_eq(kind, "type_alias_declaration") || str_eq(kind, "alias_declaration") || str_eq(
        kind,
        "type_item",
    ) || str_eq(kind, "type_alias_statement") || (str_eq(kind, "type_definition")
        && !is_structured_type(tree, node))
}

} // verus!
