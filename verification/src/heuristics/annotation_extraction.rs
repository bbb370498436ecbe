//! Annotations, attributes and decorators attached to a declaration.
use crate::heuristics::text_parsing::{
    extract_qualified_name, opt_qn_view, qualified_name_spec, split_qualified_name,
    split_qualified_name_spec,
};
use crate::model::queries::{lemma_typerefs_view_concat, typerefs_view, QualifiedName, TypeRef, TypeRefV};
use crate::syntax::SyntaxTree;
use crate::text_util::{chars_of, contains_sub, slice_chars, str_contains, str_eq, string_from_chars};
use vstd::prelude::*;

verus! {

/// Whether every reference in `s` is an unresolved name.
pub open spec fn all_unresolved(s: Seq<TypeRef>) -> bool {
    forall|k: int| 0 <= k < s.len() ==> #[trigger] s[k] is Unresolved
}

/// The views of `s` with `x` pushed are those of `s` with the view of `x` pushed.
proof fn lemma_view_push(s: Seq<TypeRef>, x: TypeRef)
    ensures
        typerefs_view(s.push(x)) == typerefs_view(s) + seq![x@],
{
    assert(s.push(x) =~= s + seq![x]);
    lemma_typerefs_view_concat(s, seq![x]);
    crate::model::queries::lemma_typerefs_view(seq![x]);
    assert(typerefs_view(seq![x]) =~= seq![x@]);
}

/// The contributions of the nodes `cs`, in order.
pub open spec fn concat_ann(cs: Seq<usize>, f: spec_fn(usize) -> Seq<TypeRefV>) -> Seq<TypeRefV>
    decreases cs.len(),
{
    if cs.len() == 0 {
        Seq::empty()
    } else {
        concat_ann(cs.drop_last(), f) + f(cs.last())
    }
}

/// One more node adds its contribution at the end.
proof fn lemma_concat_step(cs: Seq<usize>, i: int, f: spec_fn(usize) -> Seq<TypeRefV>)
    requires
        0 <= i < cs.len(),
    ensures
        concat_ann(cs.take(i + 1), f) == concat_ann(cs.take(i), f) + f(cs[i]),
{
    assert(cs.take(i + 1).drop_last() =~= cs.take(i));
}

/// The annotation named by node `n`, if it has a qualified name.
pub open spec fn name_ann(tree: SyntaxTree, n: int) -> Seq<TypeRefV> {
    match qualified_name_spec(tree, n) {
        Some(q) => seq![TypeRefV::Unresolved(q)],
        None => Seq::empty(),
    }
}

/// The annotation of an attribute or annotation node: named by its `name` field
/// where it has one, else by itself.
pub open spec fn attribute_ann(tree: SyntaxTree, attr: int) -> Seq<TypeRefV> {
    match tree.field_child(attr, "name"@) {
        Some(n) => name_ann(tree, n as int),
        None => name_ann(tree, attr),
    }
}

/// Each node contributes the annotation it names.
pub closed spec fn name_contrib(tree: SyntaxTree) -> spec_fn(usize) -> Seq<TypeRefV> {
    |c: usize| name_ann(tree, c as int)
}

/// Kinds of the attributes inside a Rust attribute item.
pub open spec fn rust_attr_kind(k: Seq<char>) -> bool {
    k == "attribute"@ || k == "meta_item"@
}

/// The annotations of one Rust attribute: the names of its arguments, then its
/// name (or the first part of its path).
pub open spec fn rust_attr_ann(tree: SyntaxTree, attr: int) -> Seq<TypeRefV> {
    let args = match tree.field_child(attr, "arguments"@) {
        Some(meta) => concat_ann(tree.kids_of(meta as int), name_contrib(tree)),
        None => Seq::empty(),
    };
    let name = match tree.field_child(attr, "name"@) {
        Some(n) => name_ann(tree, n as int),
        None => match qualified_name_spec(tree, attr) {
            Some(q) => if q.len() > 0 {
                seq![TypeRefV::Unresolved(seq![q[0]])]
            } else {
                Seq::empty()
            },
            None => Seq::empty(),
        },
    };
    args + name
}

/// Each child of a Rust attribute item contributes its annotations if it is an
/// attribute.
pub closed spec fn rust_attr_contrib(tree: SyntaxTree) -> spec_fn(usize) -> Seq<TypeRefV> {
    |c: usize| if rust_attr_kind(tree.kind_of(c as int)) {
        rust_attr_ann(tree, c as int)
    } else {
        Seq::empty()
    }
}

/// The annotations of a Rust attribute item.
pub open spec fn rust_item_ann(tree: SyntaxTree, item: int) -> Seq<TypeRefV> {
    concat_ann(tree.kids_of(item), rust_attr_contrib(tree))
}

/// Pushes the qualified name of `node`, if it has one, as an unresolved reference.
fn push_name_of(tree: &SyntaxTree, node: usize, out: &mut Vec<TypeRef>)
    requires
        tree.wf(),
        node < tree.size(),
        all_unresolved(old(out)@),
    ensures
        all_unresolved(final(out)@),
        typerefs_view(final(out)@) == typerefs_view(old(out)@) + name_ann(*tree, node as int),
{
    let ghost before = out@;
    if let Some(q) = extract_qualified_name(tree, node) {
        let t = TypeRef::Unresolved(q);
        proof {
            lemma_view_push(before, t);
        }
        out.push(t);
    } else {
        assert(typerefs_view(before) + Seq::<TypeRefV>::empty() =~= typerefs_view(before));
    }
}

/// The name of an attribute or annotation node: its `name` field where it has
/// one, else its own qualified name.
fn push_attribute_name(tree: &SyntaxTree, attr: usize, out: &mut Vec<TypeRef>)
    requires
        tree.wf(),
        attr < tree.size(),
        all_unresolved(old(out)@),
    ensures
        all_unresolved(final(out)@),
        typerefs_view(final(out)@) == typerefs_view(old(out)@) + attribute_ann(*tree, attr as int),
{
    if let Some(name_node) = tree.child_by_field_name(attr, "name") {
        push_name_of(tree, name_node, out);
    } else {
        push_name_of(tree, attr, out);
    }
}

/// Pushes the names of the nodes `cs`.
fn push_names_of(tree: &SyntaxTree, cs: &Vec<usize>, out: &mut Vec<TypeRef>)
    requires
        tree.wf(),
        forall|k: int| 0 <= k < cs@.len() ==> #[trigger] cs@[k] < tree.size(),
        all_unresolved(old(out)@),
    ensures
        all_unresolved(final(out)@),
        typerefs_view(final(out)@) == typerefs_view(old(out)@) + concat_ann(cs@, name_contrib(*tree)),
{
    let ghost base = typerefs_view(out@);
    let ghost f = name_contrib(*tree);
    let mut j: usize = 0;
    proof {
        assert(base + concat_ann(cs@.take(0), f) =~= base);
    }
    while j < cs.len()
        invariant
            tree.wf(),
            forall|k: int| 0 <= k < cs@.len() ==> #[trigger] cs@[k] < tree.size(),
            f == name_contrib(*tree),
            j <= cs@.len(),
            all_unresolved(out@),
            typerefs_view(out@) == base + concat_ann(cs@.take(j as int), f),
        decreases cs.len() - j,
    {
        proof {
            lemma_concat_step(cs@, j as int, f);
        }
        push_name_of(tree, cs[j], out);
        proof {
            assert(f(cs@[j as int]) == name_ann(*tree, cs@[j as int] as int));
            assert(typerefs_view(out@) =~= base + concat_ann(cs@.take(j as int + 1), f));
        }
        j += 1;
    }
    proof {
        assert(cs@.take(j as int) =~= cs@);
    }
}

/// The names of one Rust attribute: its arguments, then its name or first path part.
fn push_rust_attribute(tree: &SyntaxTree, attr: usize, out: &mut Vec<TypeRef>)
    requires
        tree.wf(),
        attr < tree.size(),
        all_unresolved(old(out)@),
    ensures
        all_unresolved(final(out)@),
        typerefs_view(final(out)@) == typerefs_view(old(out)@) + rust_attr_ann(*tree, attr as int),
{
    let ghost base = typerefs_view(out@);
    if let Some(meta) = tree.child_by_field_name(attr, "arguments") {
        let args = tree.children(meta);
        push_names_of(tree, args, out);
    } else {
        assert(typerefs_view(out@) =~= base + Seq::<TypeRefV>::empty());
    }
    let ghost mid = typerefs_view(out@);
    if let Some(name_node) = tree.child_by_field_name(attr, "name") {
        push_name_of(tree, name_node, out);
    } else if let Some(q) = extract_qualified_name(tree, attr) {
        if q.len() > 0 {
            let first = crate::text_util::to_owned_string(q[0].as_str());
            let one = vec![first];
            proof {
                assert(one.deep_view() =~= seq![q.deep_view()[0]]);
            }
            let t = TypeRef::Unresolved(one);
            proof {
                lemma_view_push(out@, t);
            }
            out.push(t);
        } else {
            assert(typerefs_view(out@) =~= mid + Seq::<TypeRefV>::empty());
        }
    } else {
        assert(typerefs_view(out@) =~= mid + Seq::<TypeRefV>::empty());
    }
    proof {
        assert(typerefs_view(out@) =~= base + rust_attr_ann(*tree, attr as int));
    }
}

/// The names in a Rust attribute item (`#[derive(Debug)]`, `#[serde(...)]`): the
/// arguments of each attribute, then its name (or the first part of its path).
fn push_rust_attribute_item(tree: &SyntaxTree, item: usize, out: &mut Vec<TypeRef>)
    requires
        tree.wf(),
        item < tree.size(),
        all_unresolved(old(out)@),
    ensures
        all_unresolved(final(out)@),
        typerefs_view(final(out)@) == typerefs_view(old(out)@) + rust_item_ann(*tree, item as int),
{
    let kids = tree.children(item);
    let ghost base = typerefs_view(out@);
    let ghost f = rust_attr_contrib(*tree);
    proof {
        assert(base + concat_ann(kids@.take(0), f) =~= base);
    }
    let mut i: usize = 0;
    while i < kids.len()
        invariant
            tree.wf(),
            kids@ == tree.kids_of(item as int),
            f == rust_attr_contrib(*tree),
            i <= kids@.len(),
            forall|k: int| 0 <= k < kids@.len() ==> #[trigger] kids@[k] < tree.size(),
            all_unresolved(out@),
            typerefs_view(out@) == base + concat_ann(kids@.take(i as int), f),
        decreases kids.len() - i,
    {
        let attr = kids[i];
        proof {
            lemma_concat_step(kids@, i as int, f);
        }
        let ak = tree.kind(attr);
        if str_eq(ak, "attribute") || str_eq(ak, "meta_item") {
            push_rust_attribute(tree, attr, out);
        } else {
            assert(typerefs_view(out@) =~= typerefs_view(out@) + Seq::<TypeRefV>::empty());
        }
        proof {
            assert(typerefs_view(out@) =~= base + concat_ann(kids@.take(i as int + 1), f));
        }
        i += 1;
    }
    proof {
        assert(kids@.take(i as int) =~= kids@);
    }
}

/// `name` without a leading `@`.
pub open spec fn strip_at_spec(name: Seq<char>) -> Seq<char> {
    if name.len() > 0 && name[0] == '@' {
        name.skip(1)
    } else {
        name
    }
}

/// `name` without a leading `@`.
fn strip_at(name: &str) -> (r: String)
    ensures
        r@ == strip_at_spec(name@),
{
    let cs = chars_of(name);
    if cs.len() > 0 && cs[0] == '@' {
        let rest = slice_chars(&cs, 1, cs.len());
        string_from_chars(&rest)
    } else {
        string_from_chars(&cs)
    }
}

/// A qualified name with a leading `@` taken off its first part.
pub open spec fn strip_first_at(q: Seq<Seq<char>>) -> Seq<Seq<char>> {
    if q.len() > 0 {
        q.update(0, strip_at_spec(q[0]))
    } else {
        q
    }
}

/// The annotation of a Java annotation node: named by its `name` field, else by its
/// own qualified name with the leading `@` taken off.
pub open spec fn java_annotation_ann(tree: SyntaxTree, m: int) -> Seq<TypeRefV> {
    match tree.field_child(m, "name"@) {
        Some(n) => name_ann(tree, n as int),
        None => match qualified_name_spec(tree, m) {
            Some(q) => seq![TypeRefV::Unresolved(strip_first_at(q))],
            None => Seq::empty(),
        },
    }
}

/// Each child of a `modifiers` node contributes its annotation if it is one.
pub closed spec fn modifier_contrib(tree: SyntaxTree) -> spec_fn(usize) -> Seq<TypeRefV> {
    |c: usize| if tree.kind_of(c as int) == "marker_annotation"@ || tree.kind_of(c as int)
        == "annotation"@ {
        java_annotation_ann(tree, c as int)
    } else {
        Seq::empty()
    }
}

/// The annotations among the children of a `modifiers` node.
pub open spec fn modifiers_ann(tree: SyntaxTree, mods: int) -> Seq<TypeRefV> {
    concat_ann(tree.kids_of(mods), modifier_contrib(tree))
}

/// Pushes the annotation of a Java annotation node.
fn push_java_annotation(tree: &SyntaxTree, m: usize, out: &mut Vec<TypeRef>)
    requires
        tree.wf(),
        m < tree.size(),
        all_unresolved(old(out)@),
    ensures
        all_unresolved(final(out)@),
        typerefs_view(final(out)@) == typerefs_view(old(out)@) + java_annotation_ann(*tree, m as int),
{
    if let Some(name_node) = tree.child_by_field_name(m, "name") {
        push_name_of(tree, name_node, out);
    } else if let Some(q) = extract_qualified_name(tree, m) {
        let mut name: QualifiedName = Vec::new();
        let mut j: usize = 0;
        while j < q.len()
            invariant
                j <= q@.len(),
                name.deep_view() == strip_first_at(q.deep_view()).take(j as int),
            decreases q.len() - j,
        {
            let ghost before = name.deep_view();
            if j == 0 {
                name.push(strip_at(q[0].as_str()));
            } else {
                name.push(crate::text_util::to_owned_string(q[j].as_str()));
            }
            proof {
                assert(q.deep_view()[j as int] == q@[j as int]@);
                assert(name.deep_view() =~= before.push(strip_first_at(q.deep_view())[j as int]));
                assert(name.deep_view() =~= strip_first_at(q.deep_view()).take(j as int + 1));
            }
            j += 1;
        }
        proof {
            assert(name.deep_view() =~= strip_first_at(q.deep_view()));
        }
        let t = TypeRef::Unresolved(name);
        proof {
            lemma_view_push(out@, t);
        }
        out.push(t);
    } else {
        assert(typerefs_view(out@) =~= typerefs_view(out@) + Seq::<TypeRefV>::empty());
    }
}

/// The Java annotations inside a `modifiers` node.
fn push_modifier_annotations(tree: &SyntaxTree, mods: usize, out: &mut Vec<TypeRef>)
    requires
        tree.wf(),
        mods < tree.size(),
        all_unresolved(old(out)@),
    ensures
        all_unresolved(final(out)@),
        typerefs_view(final(out)@) == typerefs_view(old(out)@) + modifiers_ann(*tree, mods as int),
{
    let kids = tree.children(mods);
    let ghost base = typerefs_view(out@);
    let ghost f = modifier_contrib(*tree);
    proof {
        assert(base + concat_ann(kids@.take(0), f) =~= base);
    }
    let mut i: usize = 0;
    while i < kids.len()
        invariant
            tree.wf(),
            kids@ == tree.kids_of(mods as int),
            f == modifier_contrib(*tree),
            i <= kids@.len(),
            forall|k: int| 0 <= k < kids@.len() ==> #[trigger] kids@[k] < tree.size(),
            all_unresolved(out@),
            typerefs_view(out@) == base + concat_ann(kids@.take(i as int), f),
        decreases kids.len() - i,
    {
        let m = kids[i];
        proof {
            lemma_concat_step(kids@, i as int, f);
        }
        let mk = tree.kind(m);
        if str_eq(mk, "marker_annotation") || str_eq(mk, "annotation") {
            push_java_annotation(tree, m, out);
        } else {
            assert(typerefs_view(out@) =~= typerefs_view(out@) + Seq::<TypeRefV>::empty());
        }
        proof {
            assert(typerefs_view(out@) =~= base + concat_ann(kids@.take(i as int + 1), f));
        }
        i += 1;
    }
    proof {
        assert(kids@.take(i as int) =~= kids@);
    }
}

/// Each child of an `attribute_declaration` contributes its annotation if it is an
/// `attribute`.
pub closed spec fn attr_decl_contrib(tree: SyntaxTree) -> spec_fn(usize) -> Seq<TypeRefV> {
    |c: usize| if tree.kind_of(c as int) == "attribute"@ {
        attribute_ann(tree, c as int)
    } else {
        Seq::empty()
    }
}

/// The annotations of a C or C++ `attribute_declaration`.
pub open spec fn attr_decl_ann(tree: SyntaxTree, decl: int) -> Seq<TypeRefV> {
    concat_ann(tree.kids_of(decl), attr_decl_contrib(tree))
}

/// The names of the `attribute` children of a C or C++ `attribute_declaration`.
fn push_attribute_declaration(tree: &SyntaxTree, decl: usize, out: &mut Vec<TypeRef>)
    requires
        tree.wf(),
        decl < tree.size(),
        all_unresolved(old(out)@),
    ensures
        all_unresolved(final(out)@),
        typerefs_view(final(out)@) == typerefs_view(old(out)@) + attr_decl_ann(*tree, decl as int),
{
    let kids = tree.children(decl);
    let ghost base = typerefs_view(out@);
    let ghost f = attr_decl_contrib(*tree);
    proof {
        assert(base + concat_ann(kids@.take(0), f) =~= base);
    }
    let mut i: usize = 0;
    while i < kids.len()
        invariant
            tree.wf(),
            kids@ == tree.kids_of(decl as int),
            f == attr_decl_contrib(*tree),
            i <= kids@.len(),
            forall|k: int| 0 <= k < kids@.len() ==> #[trigger] kids@[k] < tree.size(),
            all_unresolved(out@),
            typerefs_view(out@) == base + concat_ann(kids@.take(i as int), f),
        decreases kids.len() - i,
    {
        proof {
            lemma_concat_step(kids@, i as int, f);
        }
        if str_eq(tree.kind(kids[i]), "attribute") {
            push_attribute_name(tree, kids[i], out);
        } else {
            assert(typerefs_view(out@) =~= typerefs_view(out@) + Seq::<TypeRefV>::empty());
        }
        proof {
            assert(typerefs_view(out@) =~= base + concat_ann(kids@.take(i as int + 1), f));
        }
        i += 1;
    }
    proof {
        assert(kids@.take(i as int) =~= kids@);
    }
}

/// Whether child `c` of a decorator gives its name: an identifier or dotted name,
/// or a call with a `function` field.
pub open spec fn decorator_part(tree: SyntaxTree, c: int) -> bool {
    tree.kind_of(c) == "identifier"@ || tree.kind_of(c) == "dotted_name"@ || (tree.kind_of(c)
        == "call"@ && tree.field_child(c, "function"@) is Some)
}

/// The name a decorator part gives.
pub open spec fn decorator_part_name(tree: SyntaxTree, c: int) -> Seq<Seq<char>> {
    if tree.kind_of(c) == "identifier"@ || tree.kind_of(c) == "dotted_name"@ {
        split_qualified_name_spec(tree.text_of(c))
    } else {
        split_qualified_name_spec(tree.text_of(tree.field_child(c, "function"@)->0 as int))
    }
}

/// Whether the `k`-th child of decorator `d` is its first part that gives a name.
pub open spec fn first_decorator_part(tree: SyntaxTree, d: int, k: int) -> bool {
    &&& 0 <= k < tree.kids_of(d).len()
    &&& decorator_part(tree, tree.kids_of(d)[k] as int)
    &&& forall|j: int| 0 <= j < k ==> !decorator_part(tree, #[trigger] tree.kids_of(d)[j] as int)
}

/// The name of a Python decorator: that of its first part that gives one.
pub open spec fn decorator_name(tree: SyntaxTree, d: int) -> Option<Seq<Seq<char>>> {
    if exists|k: int| first_decorator_part(tree, d, k) {
        Some(
            decorator_part_name(
                tree,
                tree.kids_of(d)[choose|k: int| first_decorator_part(tree, d, k)] as int,
            ),
        )
    } else {
        None
    }
}

/// The name of a Python decorator: its identifier or dotted name, or the function
/// of a decorator call.
fn extract_python_decorator(tree: &SyntaxTree, decorator: usize) -> (r: Option<QualifiedName>)
    requires
        tree.wf(),
        decorator < tree.size(),
    ensures
        opt_qn_view(r) == decorator_name(*tree, decorator as int),
{
    let kids = tree.children(decorator);
    let mut i: usize = 0;
    while i < kids.len()
        invariant
            tree.wf(),
            kids@ == tree.kids_of(decorator as int),
            i <= kids@.len(),
            forall|k: int| 0 <= k < kids@.len() ==> #[trigger] kids@[k] < tree.size(),
            forall|j: int| 0 <= j < i ==> !decorator_part(*tree, #[trigger] kids@[j] as int),
        decreases kids.len() - i,
    {
        let c = kids[i];
        let ck = tree.kind(c);
        if str_eq(ck, "identifier") || str_eq(ck, "dotted_name") {
            proof {
                lemma_first_part_unique(*tree, decorator as int, i as int);
            }
            return Some(split_qualified_name(tree.text(c)));
        } else if str_eq(ck, "call") {
            if let Some(func) = tree.child_by_field_name(c, "function") {
                proof {
                    lemma_first_part_unique(*tree, decorator as int, i as int);
                }
                return Some(split_qualified_name(tree.text(func)));
            }
        }
        i += 1;
    }
    proof {
        assert forall|k: int| !first_decorator_part(*tree, decorator as int, k) by {
            if 0 <= k < kids@.len() {
                assert(!decorator_part(*tree, kids@[k] as int));
            }
        }
    }
    None
}

/// A first part is the only first part.
proof fn lemma_first_part_unique(tree: SyntaxTree, d: int, i: int)
    requires
        first_decorator_part(tree, d, i),
    ensures
        decorator_name(tree, d) == Some(decorator_part_name(tree, tree.kids_of(d)[i] as int)),
{
    assert forall|k: int| first_decorator_part(tree, d, k) implies k == i by {
        if k < i {
            assert(!decorator_part(tree, tree.kids_of(d)[k] as int));
        }
        if k > i {
            assert(!decorator_part(tree, tree.kids_of(d)[i] as int));
        }
    }
}

/// Each child of a `decorated_definition` contributes the name of a decorator.
pub closed spec fn decorator_contrib(tree: SyntaxTree) -> spec_fn(usize) -> Seq<TypeRefV> {
    |c: usize| if tree.kind_of(c as int) == "decorator"@ {
        match decorator_name(tree, c as int) {
            Some(q) => seq![TypeRefV::Unresolved(q)],
            None => Seq::empty(),
        }
    } else {
        Seq::empty()
    }
}

/// The decorators of the `decorated_definition` enclosing `node`, if any.
pub open spec fn decorated_ann(tree: SyntaxTree, node: int) -> Seq<TypeRefV> {
    match tree.parent_of(node) {
        Some(p) => if tree.kind_of(p as int) == "decorated_definition"@ {
            concat_ann(tree.kids_of(p as int), decorator_contrib(tree))
        } else {
            Seq::empty()
        },
        None => Seq::empty(),
    }
}

/// Kinds of Rust attribute items.
pub open spec fn attr_item_kind(k: Seq<char>) -> bool {
    k == "attribute_item"@ || k == "inner_attribute_item"@
}

/// The annotations of the Rust attribute items before a node, walking back from
/// its previous sibling `prev`: attribute items are read, comments skipped, and
/// anything else stops the walk.
pub open spec fn prev_ann(tree: SyntaxTree, prev: Option<usize>) -> Seq<TypeRefV>
    decreases (match prev {
        Some(p) => p as int + 1,
        None => 0int,
    }),
{
    match prev {
        None => Seq::empty(),
        Some(p) => {
            let next = match tree.prev_of(p as int) {
                Some(q) => if q < p {
                    Some(q)
                } else {
                    None
                },
                None => None,
            };
            if attr_item_kind(tree.kind_of(p as int)) {
                rust_item_ann(tree, p as int) + prev_ann(tree, next)
            } else if !contains_sub(tree.kind_of(p as int), "comment"@) {
                Seq::empty()
            } else {
                prev_ann(tree, next)
            }
        },
    }
}

/// Each child of a declaration contributes the annotations it holds: those among
/// `modifiers`, those of an attribute or annotation node, those of an
/// `attribute_declaration`.
pub closed spec fn child_contrib(tree: SyntaxTree) -> spec_fn(usize) -> Seq<TypeRefV> {
    |c: usize| {
        let k = tree.kind_of(c as int);
        (if k == "modifiers"@ {
            modifiers_ann(tree, c as int)
        } else {
            Seq::empty()
        }) + (if attr_item_kind(k) || k == "marker_annotation"@ || k == "annotation"@ {
            attribute_ann(tree, c as int)
        } else {
            Seq::empty()
        }) + (if k == "attribute_declaration"@ {
            attr_decl_ann(tree, c as int)
        } else {
            Seq::empty()
        })
    }
}

/// The annotations of a declaration: its decorators, the attribute items before it
/// (nearest first), then those held by its children, in order.
pub open spec fn annotations_spec(tree: SyntaxTree, node: int) -> Seq<TypeRefV> {
    decorated_ann(tree, node) + prev_ann(tree, tree.prev_of(node)) + concat_ann(
        tree.kids_of(node),
        child_contrib(tree),
    )
}

/// Extracts the annotations of a declaration: Python decorators of an enclosing
/// `decorated_definition`, Rust attribute items just before it (comments between
/// them are skipped), Java annotations among its modifiers, and attribute or
/// annotation children. Every annotation is an unresolved name.
pub fn extract_annotations(tree: &SyntaxTree, node: usize) -> (r: Vec<TypeRef>)
    requires
        tree.wf(),
        node < tree.size(),
    ensures
        all_unresolved(r@),
        typerefs_view(r@) == annotations_spec(*tree, node as int),
{
    let mut annotations: Vec<TypeRef> = Vec::new();
    proof {
        assert(typerefs_view(annotations@) =~= Seq::<TypeRefV>::empty());
    }
    if let Some(parent) = tree.parent(node) {
        if str_eq(tree.kind(parent), "decorated_definition") {
            let kids = tree.children(parent);
            let ghost f = decorator_contrib(*tree);
            proof {
                assert(concat_ann(kids@.take(0), f) =~= Seq::<TypeRefV>::empty());
            }
            let mut i: usize = 0;
            while i < kids.len()
                invariant
                    tree.wf(),
                    kids@ == tree.kids_of(parent as int),
                    f == decorator_contrib(*tree),
                    i <= kids@.len(),
                    forall|k: int| 0 <= k < kids@.len() ==> #[trigger] kids@[k] < tree.size(),
                    all_unresolved(annotations@),
                    typerefs_view(annotations@) == concat_ann(kids@.take(i as int), f),
                decreases kids.len() - i,
            {
                let c = kids[i];
                proof {
                    lemma_concat_step(kids@, i as int, f);
                }
                if str_eq(tree.kind(c), "decorator") {
                    if let Some(dec) = extract_python_decorator(tree, c) {
                        let t = TypeRef::Unresolved(dec);
                        proof {
                            lemma_view_push(annotations@, t);
                        }
                        annotations.push(t);
                    } else {
                        assert(typerefs_view(annotations@) =~= typerefs_view(annotations@)
                            + Seq::<TypeRefV>::empty());
                    }
                } else {
                    assert(typerefs_view(annotations@) =~= typerefs_view(annotations@)
                        + Seq::<TypeRefV>::empty());
                }
                proof {
                    assert(typerefs_view(annotations@) =~= concat_ann(kids@.take(i as int + 1), f));
                }
                i += 1;
            }
            proof {
                assert(kids@.take(i as int) =~= kids@);
            }
        }
    }
    let ghost decorated = typerefs_view(annotations@);
    assert(decorated == decorated_ann(*tree, node as int));
    let mut prev = tree.prev_sibling(node);
    while prev.is_some()
        invariant
            tree.wf(),
            prev matches Some(p) ==> p < tree.size(),
            all_unresolved(annotations@),
            typerefs_view(annotations@) + prev_ann(*tree, prev) == decorated + prev_ann(
                *tree,
                tree.prev_of(node as int),
            ),
        ensures
            all_unresolved(annotations@),
            typerefs_view(annotations@) == decorated + prev_ann(*tree, tree.prev_of(node as int)),
        decreases (match prev {
            Some(p) => p as int + 1,
            None => 0int,
        }),
    {
        let sibling = prev.unwrap();
        let sk = tree.kind(sibling);
        let next = tree.prev_sibling(sibling);
        let ghost before = typerefs_view(annotations@);
        if str_eq(sk, "attribute_item") || str_eq(sk, "inner_attribute_item") {
            push_rust_attribute_item(tree, sibling, &mut annotations);
            proof {
                assert(typerefs_view(annotations@) + prev_ann(*tree, next) =~= before + (
                rust_item_ann(*tree, sibling as int) + prev_ann(*tree, next)));
            }
        } else if !str_contains(sk, "comment") {
            proof {
                assert(prev_ann(*tree, prev) =~= Seq::<TypeRefV>::empty());
                assert(typerefs_view(annotations@) =~= typerefs_view(annotations@) + prev_ann(*tree, prev));
            }
            break;
        }
        prev = next;
    }
    let ghost walked = typerefs_view(annotations@);
    let kids = tree.children(node);
    let ghost f = child_contrib(*tree);
    proof {
        assert(walked + concat_ann(kids@.take(0), f) =~= walked);
    }
    let mut i: usize = 0;
    while i < kids.len()
        invariant
            tree.wf(),
            kids@ == tree.kids_of(node as int),
            f == child_contrib(*tree),
            i <= kids@.len(),
            forall|k: int| 0 <= k < kids@.len() ==> #[trigger] kids@[k] < tree.size(),
            all_unresolved(annotations@),
            typerefs_view(annotations@) == walked + concat_ann(kids@.take(i as int), f),
        decreases kids.len() - i,
    {
        let child = kids[i];
        proof {
            lemma_concat_step(kids@, i as int, f);
        }
        let ghost v0 = typerefs_view(annotations@);
        let ck = tree.kind(child);
        if str_eq(ck, "modifiers") {
            push_modifier_annotations(tree, child, &mut annotations);
        }
        let ghost v1 = typerefs_view(annotations@);
        if str_eq(ck, "attribute_item") || str_eq(ck, "inner_attribute_item") || str_eq(
            ck,
            "marker_annotation",
        ) || str_eq(ck, "annotation") {
            push_attribute_name(tree, child, &mut annotations);
        }
        let ghost v2 = typerefs_view(annotations@);
        if str_eq(ck, "attribute_declaration") {
            push_attribute_declaration(tree, child, &mut annotations);
        }
        proof {
            let k = tree.kind_of(child as int);
            let a = if k == "modifiers"@ {
                modifiers_ann(*tree, child as int)
            } else {
                Seq::<TypeRefV>::empty()
            };
            let b = if attr_item_kind(k) || k == "marker_annotation"@ || k == "annotation"@ {
                attribute_ann(*tree, child as int)
            } else {
                Seq::<TypeRefV>::empty()
            };
            let c = if k == "attribute_declaration"@ {
                attr_decl_ann(*tree, child as int)
            } else {
                Seq::<TypeRefV>::empty()
            };
            assert(v1 =~= v0 + a);
            assert(v2 =~= v1 + b);
            assert(typerefs_view(annotations@) =~= v2 + c);
            assert(f(child) == a + b + c);
            assert(typerefs_view(annotations@) =~= walked + concat_ann(kids@.take(i as int + 1), f));
        }
        i += 1;
    }
    proof {
        assert(kids@.take(i as int) =~= kids@);
    }
    annotations
}

} // verus!
