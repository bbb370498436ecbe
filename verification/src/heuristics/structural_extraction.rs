//! Fields, methods, nested types, parameters and super-types of declarations.
use crate::heuristics::annotation_extraction::extract_annotations;
use crate::heuristics::body_extraction::named_locals;
use crate::heuristics::annotation_extraction::annotations_spec;
use crate::heuristics::classifiers::{alias_kind, function_spec, is_function, is_structured_type, structured_type_spec};
use crate::heuristics::parsers::{
    function_node, function_read_from, structured_read_from, try_parse_function,
    try_parse_structured_type, try_parse_type_alias,
};
use crate::heuristics::text_parsing::{extract_identifier, split_qualified_name};
use crate::heuristics::text_parsing::{identifier_spec, split_qualified_name_spec};
use crate::heuristics::type_extraction::{extract_type_ref, type_read_from};
use crate::model::components::{Field, Function, Parameter, ParameterV, StructuredType, TypeAlias};
use crate::model::components::opt_typeref_view;
use crate::model::queries::{typerefs_view, TypeRef, TypeRefV};
use crate::syntax::SyntaxTree;
use crate::text_util::{
    alphanumeric, chars_of, char_is_alphanumeric, contains_chars, contains_sub, decimal_spec, is_first_sub, replace_spec, sub_at, trim, decimal_chars, slice_chars, str_contains,
    str_eq, string_from_chars, trim_chars,
};
use vstd::prelude::*;

verus! {

/// What a list walk collects.
#[derive(Clone, Copy, PartialEq, Eq, Structural)]
pub enum ListKind {
    Field,
    Method,
    NestedType,
    TypeAlias,
}

/// An item collected by a list walk.
pub enum ListedItem {
    Field(Field),
    Method(Function),
    NestedType(StructuredType),
    TypeAlias(TypeAlias),
}

/// Whether an item is of the kind a walk collects.
pub open spec fn item_of_kind(item: ListedItem, kind: ListKind) -> bool {
    match kind {
        ListKind::Field => item is Field && item->Field_0.name@.len() > 0,
        ListKind::Method => item is Method && method_ok(item->Method_0),
        ListKind::NestedType => item is NestedType && nested_type_ok(item->NestedType_0),
        ListKind::TypeAlias => item is TypeAlias && alias_ok(item->TypeAlias_0),
    }
}

/// What is stated of an extracted method: the locals of its body are named.
pub open spec fn method_ok(f: Function) -> bool {
    f.body matches Some(b) ==> named_locals(b)
}

/// What is stated of an extracted nested type: its fields are named.
pub open spec fn nested_type_ok(t: StructuredType) -> bool {
    forall|k: int| 0 <= k < t.fields@.len() ==> (#[trigger] t.fields@[k]).name@.len() > 0
}

/// What is stated of an extracted type alias: its name is one non-empty segment.
pub open spec fn alias_ok(t: TypeAlias) -> bool {
    t.name@.len() == 1 && t.name@[0]@.len() > 0
}

/// Kinds of field declarations.
pub open spec fn field_kind(k: Seq<char>) -> bool {
    k == "field_declaration"@ || k == "property_declaration"@ || k == "field"@ || k
        == "member_declaration"@ || k == "variable_declarator"@ || k == "attribute"@
}

/// Kinds of field declarations.
fn is_field_kind(k: &str) -> (r: bool)
    ensures
        r == field_kind(k@),
{
    str_eq(k, "field_declaration") || str_eq(k, "property_declaration") || str_eq(k, "field")
        || str_eq(k, "member_declaration") || str_eq(k, "variable_declarator") || str_eq(
        k,
        "attribute",
    )
}

/// What is stated of the field read from node `c`: its name is the node's
/// identifier, its type is read from the node, and its annotations are the node's.
pub open spec fn field_read_from(tree: SyntaxTree, c: int, f: Field) -> bool {
    &&& Some(f.name@) == identifier_spec(tree, c)
    &&& type_read_from(tree, c, f.ty@)
    &&& typerefs_view(f.annotations@) == annotations_spec(tree, c)
}

/// A field declared by `child`, if it is a field declaration with a name.
fn parse_field(tree: &SyntaxTree, child: usize) -> (r: Option<Field>)
    requires
        tree.wf(),
        child < tree.size(),
    ensures
        r is Some <==> field_kind(tree.kind_of(child as int)) && identifier_spec(*tree, child as int) is Some,
        r matches Some(f) ==> f.name@.len() > 0 && field_read_from(*tree, child as int, f),
{
    if is_field_kind(tree.kind(child)) {
        if let Some(name) = extract_identifier(tree, child) {
            let ty = extract_type_ref(tree, child);
            let annotations = extract_annotations(tree, child);
            return Some(Field { name, ty, annotations });
        }
    }
    None
}

/// Whether child `c` gives an item of the kind a walk collects.
pub open spec fn yields_item(tree: SyntaxTree, c: int, kind: ListKind) -> bool {
    match kind {
        ListKind::Field => field_kind(tree.kind_of(c)) && identifier_spec(tree, c) is Some,
        ListKind::Method => function_spec(tree, c),
        ListKind::NestedType => structured_type_spec(tree, c),
        ListKind::TypeAlias => tree.named_of(c) && (alias_kind(tree.kind_of(c)) || (tree.kind_of(c)
            == "type_definition"@ && !structured_type_spec(tree, c))) && identifier_spec(tree, c) is Some,
    }
}

/// What is stated of the item read from node `c`.
pub open spec fn item_read_from(tree: SyntaxTree, c: int, kind: ListKind, item: ListedItem) -> bool {
    match kind {
        ListKind::Field => item matches ListedItem::Field(f) && field_read_from(tree, c, f),
        ListKind::Method => item matches ListedItem::Method(f) && function_read_from(
            tree,
            function_node(tree, c),
            f,
        ),
        ListKind::NestedType => item matches ListedItem::NestedType(t) && structured_read_from(
            tree,
            c,
            t,
        ),
        ListKind::TypeAlias => item matches ListedItem::TypeAlias(t) && Some(t.name@[0]@)
            == identifier_spec(tree, c) && type_read_from(tree, c, t.target@),
    }
}

/// Kinds of the containers a walk descends into.
pub open spec fn container_kind(k: Seq<char>) -> bool {
    contains_sub(k, "body"@) || contains_sub(k, "list"@) || contains_sub(k, "block"@)
        || contains_sub(k, "declaration"@) || contains_sub(k, "variant"@)
}

/// Whether a walk descends into `c`: a container that defines no function and no
/// structured type.
pub open spec fn descends_spec(tree: SyntaxTree, c: int) -> bool {
    !function_spec(tree, c) && !structured_type_spec(tree, c) && container_kind(tree.kind_of(c))
}

/// Whether a list walk descends into `child`: containers (bodies, lists, blocks,
/// declarations, variants) that define no function and no structured type.
fn descends_into(tree: &SyntaxTree, child: usize) -> (r: bool)
    requires
        tree.wf(),
        child < tree.size(),
    ensures
        r == descends_spec(*tree, child as int),
{
    if is_function(tree, child) || is_structured_type(tree, child) {
        return false;
    }
    let k = tree.kind(child);
    str_contains(k, "body") || str_contains(k, "list") || str_contains(k, "block") || str_contains(
        k,
        "declaration",
    ) || str_contains(k, "variant")
}

/// The nodes a list walk reads items from, among the children of `node` from the
/// `i`-th on: a child that gives an item, else the nodes found inside a child the
/// walk descends into.
pub open spec fn list_nodes(tree: SyntaxTree, node: int, i: int, kind: ListKind) -> Seq<usize>
    decreases tree.size() - node, tree.kids_of(node).len() - i,
{
    if 0 <= i < tree.kids_of(node).len() {
        let c = tree.kids_of(node)[i];
        let here = if yields_item(tree, c as int, kind) {
            seq![c]
        } else if descends_spec(tree, c as int) && node < c < tree.size() {
            list_nodes(tree, c as int, 0, kind)
        } else {
            Seq::empty()
        };
        here + list_nodes(tree, node, i + 1, kind)
    } else {
        Seq::empty()
    }
}

/// Collects the items of one kind among the children of `node`, descending into
/// containers that are not themselves items.
pub fn extract_list_of(
    tree: &SyntaxTree,
    node: usize,
    kind: ListKind,
    lang_name: &str,
    config: &crate::config::AnalyzerConfig,
) -> (r: Vec<ListedItem>)
    requires
        tree.wf(),
        node < tree.size(),
    ensures
        forall|k: int| 0 <= k < r@.len() ==> item_of_kind(#[trigger] r@[k], kind),
        r@.len() == list_nodes(*tree, node as int, 0, kind).len(),
        forall|k: int|
            0 <= k < r@.len() ==> item_read_from(
                *tree,
                list_nodes(*tree, node as int, 0, kind)[k] as int,
                kind,
                #[trigger] r@[k],
            ),
    decreases tree.size() - node, 1nat,
{
    let mut items: Vec<ListedItem> = Vec::new();
    let kids = tree.children(node);
    let ghost whole = list_nodes(*tree, node as int, 0, kind);
    let ghost mut done: Seq<usize> = Seq::empty();
    let mut i: usize = 0;
    proof {
        assert(done + list_nodes(*tree, node as int, 0, kind) =~= whole);
    }
    while i < kids.len()
        invariant
            tree.wf(),
            node < tree.size(),
            kids@ == tree.kids_of(node as int),
            i <= kids@.len(),
            whole == list_nodes(*tree, node as int, 0, kind),
            forall|k: int| 0 <= k < kids@.len() ==> node < #[trigger] kids@[k] < tree.size(),
            forall|k: int| 0 <= k < items@.len() ==> item_of_kind(#[trigger] items@[k], kind),
            done + list_nodes(*tree, node as int, i as int, kind) == whole,
            done.len() == items@.len(),
            forall|k: int|
                0 <= k < items@.len() ==> item_read_from(*tree, done[k] as int, kind, #[trigger] items@[k]),
        decreases kids.len() - i,
    {
        let child = kids[i];
        let ghost rest = list_nodes(*tree, node as int, i as int + 1, kind);
        let found: Option<ListedItem> = match kind {
            ListKind::Field => match parse_field(tree, child) {
                Some(f) => Some(ListedItem::Field(f)),
                None => None,
            },
            ListKind::Method => match try_parse_function(tree, child) {
                Some(f) => Some(ListedItem::Method(f)),
                None => None,
            },
            ListKind::NestedType => match try_parse_structured_type(tree, child, lang_name, config) {
                Some(t) => Some(ListedItem::NestedType(t)),
                None => None,
            },
            ListKind::TypeAlias => match try_parse_type_alias(tree, child) {
                Some(t) => Some(ListedItem::TypeAlias(t)),
                None => None,
            },
        };
        proof {
            assert(found is Some <==> yields_item(*tree, child as int, kind));
            assert(found matches Some(it) ==> item_read_from(*tree, child as int, kind, it)
                && item_of_kind(it, kind));
        }
        match found {
            Some(item) => {
                proof {
                    assert(list_nodes(*tree, node as int, i as int, kind) == seq![child] + rest);
                    assert(done.push(child) + rest =~= done + (seq![child] + rest));
                    done = done.push(child);
                }
                items.push(item);
            },
            None => {
                if descends_into(tree, child) {
                    let mut inner = extract_list_of(tree, child, kind, lang_name, config);
                    let ghost inner_nodes = list_nodes(*tree, child as int, 0, kind);
                    let ghost before = items@;
                    let ghost inner_v = inner@;
                    items.append(&mut inner);
                    proof {
                        assert(list_nodes(*tree, node as int, i as int, kind) == inner_nodes + rest);
                        assert(done + inner_nodes + rest =~= done + (inner_nodes + rest));
                        assert forall|k: int| 0 <= k < items@.len() implies item_read_from(
                            *tree,
                            (done + inner_nodes)[k] as int,
                            kind,
                            #[trigger] items@[k],
                        ) by {
                            if k >= before.len() {
                                assert(items@[k] == inner_v[k - before.len()]);
                            }
                        }
                        done = done + inner_nodes;
                    }
                } else {
                    proof {
                        assert(list_nodes(*tree, node as int, i as int, kind) =~= rest);
                    }
                }
            },
        }
        i += 1;
    }
    proof {
        assert(list_nodes(*tree, node as int, i as int, kind) =~= Seq::<usize>::empty());
        assert(done =~= whole);
    }
    items
}

/// Kinds left out of a positional field list.
pub open spec fn tuple_skip_kind(k: Seq<char>) -> bool {
    k == "visibility_modifier"@ || k == ","@ || k == "("@ || k == ")"@ || contains_sub(
        k,
        "attribute"@,
    )
}

/// The test that keeps the field entries of a positional list.
pub closed spec fn tuple_keep_pred(tree: SyntaxTree) -> spec_fn(usize) -> bool {
    |c: usize| !tuple_skip_kind(tree.kind_of(c as int))
}

/// The field entries of a positional list, in order.
pub open spec fn tuple_entries(tree: SyntaxTree, list: int) -> Seq<usize> {
    tree.kids_of(list).filter(tuple_keep_pred(tree))
}

/// The positional field lists at or below `node`, from its `i`-th child on, in
/// order: `node` itself if it is one, else those below each child that defines no
/// function and no structured type.
pub open spec fn tuple_lists(tree: SyntaxTree, node: int, i: int) -> Seq<usize>
    decreases tree.size() - node, tree.kids_of(node).len() - i,
{
    if tree.kind_of(node) == "ordered_field_declaration_list"@ {
        seq![node as usize]
    } else if 0 <= i < tree.kids_of(node).len() {
        let c = tree.kids_of(node)[i];
        (if !function_spec(tree, c as int) && !structured_type_spec(tree, c as int) && node < c
            < tree.size() {
            tree_lists_at(tree, c as int)
        } else {
            Seq::empty()
        }) + tuple_lists(tree, node, i + 1)
    } else {
        Seq::empty()
    }
}

/// The positional field lists at or below `c`.
pub open spec fn tree_lists_at(tree: SyntaxTree, c: int) -> Seq<usize>
    decreases tree.size() - c, tree.kids_of(c).len() + 1,
{
    tuple_lists(tree, c, 0)
}

/// An entry paired with its position.
pub closed spec fn with_position() -> spec_fn(int, usize) -> (usize, nat) {
    |k: int, c: usize| (c, k as nat)
}

/// An entry of a list paired with its position.
pub proof fn lemma_with_position(s: Seq<usize>, k: int)
    requires
        0 <= k < s.len(),
    ensures
        s.map(with_position())[k] == (s[k], k as nat),
{
}

/// The positional fields of the lists `ls`, each with its node and its position.
pub open spec fn positional(tree: SyntaxTree, ls: Seq<usize>) -> Seq<(usize, nat)>
    decreases ls.len(),
{
    if ls.len() == 0 {
        Seq::empty()
    } else {
        positional(tree, ls.drop_last()) + tuple_entries(tree, ls.last() as int).map(with_position())
    }
}

/// What is stated of a positional field: it is named by its position, its type
/// is read from its node, and it has no annotations.
pub open spec fn tuple_field_read(tree: SyntaxTree, at: (usize, nat), f: Field) -> bool {
    &&& f.name@ == decimal_spec(at.1)
    &&& type_read_from(tree, at.0 as int, f.ty@)
    &&& f.annotations@.len() == 0
}

/// The fields of the positional field lists below `node` (Rust tuple structs and
/// tuple variants), named by their position.
fn extract_tuple_fields(tree: &SyntaxTree, node: usize, fields: &mut Vec<Field>)
    requires
        tree.wf(),
        node < tree.size(),
        forall|k: int| 0 <= k < old(fields)@.len() ==> (#[trigger] old(fields)@[k]).name@.len() > 0,
    ensures
        forall|k: int| 0 <= k < final(fields)@.len() ==> (#[trigger] final(fields)@[k]).name@.len() > 0,
        final(fields)@.len() == old(fields)@.len() + positional(*tree, tree_lists_at(*tree, node as int)).len(),
        forall|k: int| 0 <= k < old(fields)@.len() ==> final(fields)@[k] == #[trigger] old(fields)@[k],
        forall|k: int|
            0 <= k < positional(*tree, tree_lists_at(*tree, node as int)).len() ==> tuple_field_read(
                *tree,
                positional(*tree, tree_lists_at(*tree, node as int))[k],
                #[trigger] final(fields)@[old(fields)@.len() + k],
            ),
    decreases tree.size() - node,
{
    let kids = tree.children(node);
    let ghost base = fields@;
    if str_eq(tree.kind(node), "ordered_field_declaration_list") {
        let ghost keep = tuple_keep_pred(*tree);
        let mut index: usize = 0;
        let mut i: usize = 0;
        proof {
            assert(kids@.take(0).filter(keep) =~= Seq::<usize>::empty()) by {
                reveal(Seq::filter);
            }
        }
        while i < kids.len()
            invariant
                tree.wf(),
                kids@ == tree.kids_of(node as int),
                keep == tuple_keep_pred(*tree),
                index <= i <= kids@.len(),
                index == kids@.take(i as int).filter(keep).len(),
                forall|k: int| 0 <= k < kids@.len() ==> node < #[trigger] kids@[k] < tree.size(),
                forall|k: int| 0 <= k < fields@.len() ==> (#[trigger] fields@[k]).name@.len() > 0,
                fields@.len() == base.len() + index,
                forall|k: int| 0 <= k < base.len() ==> fields@[k] == #[trigger] base[k],
                forall|k: int|
                    0 <= k < index ==> tuple_field_read(
                        *tree,
                        (kids@.take(i as int).filter(keep)[k], k as nat),
                        #[trigger] fields@[base.len() + k],
                    ),
            decreases kids.len() - i,
        {
            let child = kids[i];
            proof {
                assert(kids@.take(i as int + 1) =~= kids@.take(i as int).push(child));
                kids@.take(i as int).lemma_filter_push(child, keep);
                kids@.take(i as int).filter(keep).lemma_filter_len_push(keep, child);
                kids@.take(i as int + 1).lemma_filter_len(keep);
            }
            let k = tree.kind(child);
            let skip = str_eq(k, "visibility_modifier") || str_eq(k, ",") || str_eq(k, "(") || str_eq(
                k,
                ")",
            ) || str_contains(k, "attribute");
            if !skip {
                let digits = decimal_chars(index);
                let name = string_from_chars(&digits);
                let ty = extract_type_ref(tree, child);
                proof {
                    assert(keep(child));
                }
                fields.push(Field { name, ty, annotations: Vec::new() });
                index += 1;
            } else {
                proof {
                    assert(!keep(child));
                }
            }
            i += 1;
        }
        proof {
            assert(kids@.take(i as int) =~= kids@);
            let ls = tree_lists_at(*tree, node as int);
            assert(ls == seq![node]);
            assert(ls.drop_last() =~= Seq::<usize>::empty());
            assert(positional(*tree, ls.drop_last()) =~= Seq::<(usize, nat)>::empty());
            assert(ls.last() == node);
            let pos = positional(*tree, ls);
            let es = tuple_entries(*tree, node as int);
            assert(es == kids@.filter(keep));
            assert(pos =~= es.map(with_position()));
            assert forall|k: int| 0 <= k < pos.len() implies tuple_field_read(
                *tree,
                pos[k],
                #[trigger] fields@[base.len() + k],
            ) by {
                lemma_with_position(es, k);
            }
        }
    } else {
        let mut i: usize = 0;
        proof {
            assert(positional(*tree, tuple_lists(*tree, node as int, 0)) =~= positional(
                *tree,
                tuple_lists(*tree, node as int, 0),
            ));
        }
        let ghost whole = tuple_lists(*tree, node as int, 0);
        let ghost mut done: Seq<usize> = Seq::empty();
        proof {
            assert(done + tuple_lists(*tree, node as int, 0) =~= whole);
        }
        while i < kids.len()
            invariant
                tree.wf(),
                node < tree.size(),
                kids@ == tree.kids_of(node as int),
                tree.kind_of(node as int) != "ordered_field_declaration_list"@,
                i <= kids@.len(),
                whole == tuple_lists(*tree, node as int, 0),
                done + tuple_lists(*tree, node as int, i as int) == whole,
                forall|k: int| 0 <= k < kids@.len() ==> node < #[trigger] kids@[k] < tree.size(),
                forall|k: int| 0 <= k < fields@.len() ==> (#[trigger] fields@[k]).name@.len() > 0,
                fields@.len() == base.len() + positional(*tree, done).len(),
                forall|k: int| 0 <= k < base.len() ==> fields@[k] == #[trigger] base[k],
                forall|k: int|
                    0 <= k < positional(*tree, done).len() ==> tuple_field_read(
                        *tree,
                        positional(*tree, done)[k],
                        #[trigger] fields@[base.len() + k],
                    ),
            decreases kids.len() - i,
        {
            let child = kids[i];
            let ghost rest = tuple_lists(*tree, node as int, i as int + 1);
            if !is_function(tree, child) && !is_structured_type(tree, child) {
                let ghost before = fields@;
                let ghost sub = tree_lists_at(*tree, child as int);
                extract_tuple_fields(tree, child, fields);
                proof {
                    assert(tuple_lists(*tree, node as int, i as int) == sub + rest);
                    lemma_positional_concat(*tree, done, sub);
                    assert(done + sub + rest =~= done + (sub + rest));
                    let pd = positional(*tree, done);
                    let ps = positional(*tree, sub);
                    assert forall|k: int| 0 <= k < pd.len() + ps.len() implies tuple_field_read(
                        *tree,
                        (pd + ps)[k],
                        #[trigger] fields@[base.len() + k],
                    ) by {
                        if k < pd.len() {
                            assert(fields@[base.len() + k] == before[base.len() + k]);
                        } else {
                            let j = k - pd.len();
                            assert(fields@[before.len() + j] == fields@[base.len() + k]);
                        }
                    }
                    assert forall|k: int| 0 <= k < base.len() implies fields@[k] == #[trigger] base[k] by {
                        assert(fields@[k] == before[k]);
                    }
                    done = done + sub;
                }
            } else {
                proof {
                    assert(tuple_lists(*tree, node as int, i as int) =~= rest);
                }
            }
            i += 1;
        }
        proof {
            assert(tuple_lists(*tree, node as int, i as int) =~= Seq::<usize>::empty());
            assert(done =~= whole);
            assert(tree_lists_at(*tree, node as int) == whole);
        }
    }
}

/// The positional fields of two runs of lists are those of the first, then those
/// of the second.
proof fn lemma_positional_concat(tree: SyntaxTree, a: Seq<usize>, b: Seq<usize>)
    ensures
        positional(tree, a + b) == positional(tree, a) + positional(tree, b),
    decreases b.len(),
{
    if b.len() == 0 {
        assert(a + b =~= a);
        assert(positional(tree, a) + positional(tree, b) =~= positional(tree, a));
    } else {
        lemma_positional_concat(tree, a, b.drop_last());
        assert((a + b).drop_last() =~= a + b.drop_last());
        assert((a + b).last() == b.last());
    }
}

/// Extracts the fields declared in a node: named field declarations, then
/// positional fields named `0`, `1`, ... Every field has a non-empty name.
pub fn extract_fields(
    tree: &SyntaxTree,
    node: usize,
    lang_name: &str,
    config: &crate::config::AnalyzerConfig,
) -> (r: Vec<Field>)
    requires
        tree.wf(),
        node < tree.size(),
    ensures
        forall|k: int| 0 <= k < r@.len() ==> (#[trigger] r@[k]).name@.len() > 0,
        fields_read_from(*tree, node as int, r@),
    decreases tree.size() - node, 2nat,
{
    let items = extract_list_of(tree, node, ListKind::Field, lang_name, config);
    let ghost nodes = list_nodes(*tree, node as int, 0, ListKind::Field);
    let mut fields: Vec<Field> = Vec::new();
    let mut items = items;
    while items.len() > 0
        invariant
            forall|k: int| 0 <= k < items@.len() ==> item_of_kind(#[trigger] items@[k], ListKind::Field),
            forall|k: int| 0 <= k < fields@.len() ==> (#[trigger] fields@[k]).name@.len() > 0,
            fields@.len() + items@.len() == nodes.len(),
            forall|k: int| 0 <= k < fields@.len() ==> field_read_from(*tree, nodes[k] as int, #[trigger] fields@[k]),
            forall|k: int|
                0 <= k < items@.len() ==> item_read_from(*tree, nodes[fields@.len() + k] as int, ListKind::Field, #[trigger] items@[k]),
        decreases items@.len(),
    {
        let ghost prev = items@;
        let ghost at = fields@.len();
        let item = items.remove(0);
        proof {
            assert(item_read_from(*tree, nodes[at as int] as int, ListKind::Field, prev[0]));
            assert forall|k: int| 0 <= k < items@.len() implies item_read_from(*tree, nodes[at + 1 + k] as int, ListKind::Field, #[trigger] items@[k]) by {
                assert(items@[k] == prev[k + 1]);
            }
        }
        if let ListedItem::Field(f) = item {
            fields.push(f);
        }
    }
    let ghost named = fields@;
    extract_tuple_fields(tree, node, &mut fields);
    proof {
        assert forall|k: int| 0 <= k < nodes.len() implies field_read_from(*tree, nodes[k] as int, #[trigger] fields@[k]) by {
            assert(fields@[k] == named[k]);
        }
    }
    fields
}

/// The fields of `node`: one per field declaration that the list walk finds, read
/// from its node, then the positional fields of its positional lists.
pub open spec fn fields_read_from(tree: SyntaxTree, node: int, fs: Seq<Field>) -> bool {
    let named = list_nodes(tree, node, 0, ListKind::Field);
    let pos = positional(tree, tree_lists_at(tree, node));
    &&& fs.len() == named.len() + pos.len()
    &&& forall|k: int| 0 <= k < named.len() ==> field_read_from(tree, named[k] as int, #[trigger] fs[k])
    &&& forall|k: int| 0 <= k < pos.len() ==> tuple_field_read(tree, pos[k], #[trigger] fs[named.len() + k])
}

/// Extracts the methods declared in a node.
pub fn extract_methods(
    tree: &SyntaxTree,
    node: usize,
    lang_name: &str,
    config: &crate::config::AnalyzerConfig,
) -> (r: Vec<Function>)
    requires
        tree.wf(),
        node < tree.size(),
    ensures
        forall|k: int| 0 <= k < r@.len() ==> method_ok(#[trigger] r@[k]),
        r@.len() == list_nodes(*tree, node as int, 0, ListKind::Method).len(),
        forall|k: int| 0 <= k < r@.len() ==> function_read_from(*tree, function_node(*tree, list_nodes(*tree, node as int, 0, ListKind::Method)[k] as int), #[trigger] r@[k]),
    decreases tree.size() - node, 2nat,
{
    let mut items = extract_list_of(tree, node, ListKind::Method, lang_name, config);
    let ghost nodes = list_nodes(*tree, node as int, 0, ListKind::Method);
    let mut out: Vec<Function> = Vec::new();
    while items.len() > 0
        invariant
            forall|k: int| 0 <= k < items@.len() ==> item_of_kind(#[trigger] items@[k], ListKind::Method),
            forall|k: int| 0 <= k < out@.len() ==> method_ok(#[trigger] out@[k]),
            out@.len() + items@.len() == nodes.len(),
            forall|k: int| 0 <= k < out@.len() ==> function_read_from(*tree, function_node(*tree, nodes[k] as int), #[trigger] out@[k]),
            forall|k: int|
                0 <= k < items@.len() ==> item_read_from(*tree, nodes[out@.len() + k] as int, ListKind::Method, #[trigger] items@[k]),
        decreases items@.len(),
    {
        let ghost prev = items@;
        let ghost first = items@[0];
        let ghost at = out@.len();
        let item = items.remove(0);
        proof {
            assert(item_read_from(*tree, nodes[at as int] as int, ListKind::Method, first));
            assert forall|k: int| 0 <= k < items@.len() implies item_read_from(*tree, nodes[at + 1 + k] as int, ListKind::Method, #[trigger] items@[k]) by {
                assert(items@[k] == prev[k + 1]);
            }
        }
        if let ListedItem::Method(f) = item {
            out.push(f);
        }
    }
    out
}

/// Extracts the structured types nested in a node.
pub fn extract_nested_types(
    tree: &SyntaxTree,
    node: usize,
    lang_name: &str,
    config: &crate::config::AnalyzerConfig,
) -> (r: Vec<StructuredType>)
    requires
        tree.wf(),
        node < tree.size(),
    ensures
        forall|k: int| 0 <= k < r@.len() ==> nested_type_ok(#[trigger] r@[k]),
        r@.len() == list_nodes(*tree, node as int, 0, ListKind::NestedType).len(),
        forall|k: int| 0 <= k < r@.len() ==> structured_read_from(*tree, list_nodes(*tree, node as int, 0, ListKind::NestedType)[k] as int, #[trigger] r@[k]),
    decreases tree.size() - node, 2nat,
{
    let mut items = extract_list_of(tree, node, ListKind::NestedType, lang_name, config);
    let ghost nodes = list_nodes(*tree, node as int, 0, ListKind::NestedType);
    let mut out: Vec<StructuredType> = Vec::new();
    while items.len() > 0
        invariant
            forall|k: int| 0 <= k < items@.len() ==> item_of_kind(#[trigger] items@[k], ListKind::NestedType),
            forall|k: int| 0 <= k < out@.len() ==> nested_type_ok(#[trigger] out@[k]),
            out@.len() + items@.len() == nodes.len(),
            forall|k: int| 0 <= k < out@.len() ==> structured_read_from(*tree, nodes[k] as int, #[trigger] out@[k]),
            forall|k: int|
                0 <= k < items@.len() ==> item_read_from(*tree, nodes[out@.len() + k] as int, ListKind::NestedType, #[trigger] items@[k]),
        decreases items@.len(),
    {
        let ghost prev = items@;
        let ghost first = items@[0];
        let ghost at = out@.len();
        let item = items.remove(0);
        proof {
            assert(item_read_from(*tree, nodes[at as int] as int, ListKind::NestedType, first));
            assert forall|k: int| 0 <= k < items@.len() implies item_read_from(*tree, nodes[at + 1 + k] as int, ListKind::NestedType, #[trigger] items@[k]) by {
                assert(items@[k] == prev[k + 1]);
            }
        }
        if let ListedItem::NestedType(t) = item {
            out.push(t);
        }
    }
    out
}

/// Extracts the type aliases declared in a node.
pub fn extract_type_aliases(
    tree: &SyntaxTree,
    node: usize,
    lang_name: &str,
    config: &crate::config::AnalyzerConfig,
) -> (r: Vec<TypeAlias>)
    requires
        tree.wf(),
        node < tree.size(),
    ensures
        forall|k: int| 0 <= k < r@.len() ==> alias_ok(#[trigger] r@[k]),
        r@.len() == list_nodes(*tree, node as int, 0, ListKind::TypeAlias).len(),
        forall|k: int| 0 <= k < r@.len() ==> Some((#[trigger] r@[k]).name@[0]@) == identifier_spec(*tree, list_nodes(*tree, node as int, 0, ListKind::TypeAlias)[k] as int) && type_read_from(*tree, list_nodes(*tree, node as int, 0, ListKind::TypeAlias)[k] as int, r@[k].target@),
    decreases tree.size() - node, 2nat,
{
    let mut items = extract_list_of(tree, node, ListKind::TypeAlias, lang_name, config);
    let ghost nodes = list_nodes(*tree, node as int, 0, ListKind::TypeAlias);
    let mut out: Vec<TypeAlias> = Vec::new();
    while items.len() > 0
        invariant
            forall|k: int| 0 <= k < items@.len() ==> item_of_kind(#[trigger] items@[k], ListKind::TypeAlias),
            forall|k: int| 0 <= k < out@.len() ==> alias_ok(#[trigger] out@[k]),
            out@.len() + items@.len() == nodes.len(),
            forall|k: int| 0 <= k < out@.len() ==> Some((#[trigger] out@[k]).name@[0]@) == identifier_spec(*tree, nodes[k] as int) && type_read_from(*tree, nodes[k] as int, out@[k].target@),
            forall|k: int|
                0 <= k < items@.len() ==> item_read_from(*tree, nodes[out@.len() + k] as int, ListKind::TypeAlias, #[trigger] items@[k]),
        decreases items@.len(),
    {
        let ghost prev = items@;
        let ghost first = items@[0];
        let ghost at = out@.len();
        let item = items.remove(0);
        proof {
            assert(item_read_from(*tree, nodes[at as int] as int, ListKind::TypeAlias, first));
            assert forall|k: int| 0 <= k < items@.len() implies item_read_from(*tree, nodes[at + 1 + k] as int, ListKind::TypeAlias, #[trigger] items@[k]) by {
                assert(items@[k] == prev[k + 1]);
            }
        }
        if let ListedItem::TypeAlias(t) = item {
            out.push(t);
        }
    }
    out
}

/// Whether a child of a parameter list declares a parameter.
pub open spec fn is_param_node(tree: SyntaxTree, c: usize) -> bool {
    contains_sub(tree.kind_of(c as int), "parameter"@)
}

/// The test that picks parameter declarations out of a parameter list.
pub closed spec fn param_pred(tree: SyntaxTree) -> spec_fn(usize) -> bool {
    |c: usize| is_param_node(tree, c)
}

/// The children of the parameter list `pn` that declare parameters, in order.
pub open spec fn param_nodes(tree: SyntaxTree, pn: int) -> Seq<usize> {
    tree.kids_of(pn).filter(param_pred(tree))
}

/// What is stated of the parameter read from node `p`: its name is the node's
/// identifier, its type is read from the node, and it is variadic exactly when its
/// text holds `...` or `*args`.
pub open spec fn param_read_from(tree: SyntaxTree, p: int, param: ParameterV) -> bool {
    &&& param.is_variadic == (contains_sub(tree.text_of(p), "..."@) || contains_sub(
        tree.text_of(p),
        "*args"@,
    ))
    &&& param.name == identifier_spec(tree, p)
    &&& type_read_from(tree, p, param.ty)
}

/// The parameters of `node`: none without a `parameters` field, else one per
/// parameter declaration in that list, each read from its node.
pub open spec fn params_read_from(tree: SyntaxTree, node: int, ps: Seq<Parameter>) -> bool {
    match tree.field_child(node, "parameters"@) {
        None => ps.len() == 0,
        Some(pn) => {
            &&& ps.len() == param_nodes(tree, pn as int).len()
            &&& forall|k: int|
                0 <= k < ps.len() ==> param_read_from(
                    tree,
                    param_nodes(tree, pn as int)[k] as int,
                    #[trigger] ps[k]@,
                )
        },
    }
}

/// Extracts the formal parameters under the `parameters` field of a function: one
/// per child of that list whose kind mentions `parameter`, in order.
pub fn extract_parameters(tree: &SyntaxTree, node: usize) -> (r: Vec<Parameter>)
    requires
        tree.wf(),
        node < tree.size(),
    ensures
        params_read_from(*tree, node as int, r@),
{
    let mut params: Vec<Parameter> = Vec::new();
    if let Some(pn) = tree.child_by_field_name(node, "parameters") {
        let kids = tree.children(pn);
        let ghost pred = param_pred(*tree);
        let mut i: usize = 0;
        while i < kids.len()
            invariant
                tree.wf(),
                pn < tree.size(),
                kids@ == tree.kids_of(pn as int),
                pred == param_pred(*tree),
                i <= kids@.len(),
                forall|k: int| 0 <= k < kids@.len() ==> #[trigger] kids@[k] < tree.size(),
                params@.len() == kids@.take(i as int).filter(pred).len(),
                forall|k: int|
                    0 <= k < params@.len() ==> param_read_from(
                        *tree,
                        kids@.take(i as int).filter(pred)[k] as int,
                        #[trigger] params@[k]@,
                    ),
            decreases kids.len() - i,
        {
            let p = kids[i];
            proof {
                assert(kids@.take(i as int + 1) =~= kids@.take(i as int).push(p));
                kids@.take(i as int).lemma_filter_push(p, pred);
            }
            if str_contains(tree.kind(p), "parameter") {
                let name = extract_identifier(tree, p);
                let ty = extract_type_ref(tree, p);
                let text = tree.text(p);
                let is_variadic = str_contains(text, "...") || str_contains(text, "*args");
                params.push(Parameter { name, ty, is_variadic });
                proof {
                    assert(pred(p));
                }
            } else {
                proof {
                    assert(!pred(p));
                }
            }
            i += 1;
        }
        proof {
            assert(kids@.take(i as int) =~= kids@);
        }
    }
    params
}

/// Characters of a type name read after `->`.
pub open spec fn type_name_char(c: char) -> bool {
    alphanumeric(c) || c == '_' || c == ':'
}

/// Whether the first `k` characters of `s` are type-name characters and the next
/// one, if any, is not.
pub open spec fn name_prefix_end(s: Seq<char>, k: int) -> bool {
    &&& 0 <= k <= s.len()
    &&& forall|j: int| 0 <= j < k ==> type_name_char(#[trigger] s[j])
    &&& k < s.len() ==> !type_name_char(s[k])
}

/// The longest prefix of `s` made of type-name characters.
pub open spec fn type_name_prefix_spec(s: Seq<char>) -> Seq<char> {
    s.take(choose|k: int| name_prefix_end(s, k))
}

/// The longest prefix of `s` made of alphanumeric characters, `_` and `:`.
fn type_name_prefix(s: &[char]) -> (r: Vec<char>)
    ensures
        r@ == type_name_prefix_spec(s@),
{
    let mut i: usize = 0;
    while i < s.len()
        invariant
            i <= s@.len(),
            forall|j: int| 0 <= j < i ==> type_name_char(#[trigger] s@[j]),
        ensures
            i <= s@.len(),
            forall|j: int| 0 <= j < i ==> type_name_char(#[trigger] s@[j]),
            i < s@.len() ==> !type_name_char(s@[i as int]),
        decreases s.len() - i,
    {
        let c = s[i];
        if !(char_is_alphanumeric(c) || c == '_' || c == ':') {
            break;
        }
        i += 1;
    }
    proof {
        assert(name_prefix_end(s@, i as int));
        let k = choose|k: int| name_prefix_end(s@, k);
        if k < i {
            assert(type_name_char(s@[k]));
        }
        if k > i {
            assert(type_name_char(s@[i as int]));
        }
        assert(k == i);
    }
    slice_chars(s, 0, i)
}

/// The type named after the first `->` in a function's text, or `Failed` where
/// there is no arrow or no name after it.
pub open spec fn arrow_return_type(text: Seq<char>) -> TypeRefV {
    if exists|i: int| is_first_sub(text, "->"@, i) {
        let i = choose|i: int| is_first_sub(text, "->"@, i);
        let name = type_name_prefix_spec(trim(text.skip(i + "->"@.len())));
        if name.len() > 0 {
            TypeRefV::Unresolved(split_qualified_name_spec(name))
        } else {
            TypeRefV::Failed(Seq::empty())
        }
    } else {
        TypeRefV::Failed(Seq::empty())
    }
}

/// What is stated of the return type read from `node`: that read from its
/// `return_type` field, else from its `type` field, else the type after `->`.
pub open spec fn return_type_read_from(tree: SyntaxTree, node: int, t: TypeRefV) -> bool {
    match tree.field_child(node, "return_type"@) {
        Some(n) => type_read_from(tree, n as int, t),
        None => match tree.field_child(node, "type"@) {
            Some(n) => type_read_from(tree, n as int, t),
            None => t == arrow_return_type(tree.text_of(node)),
        },
    }
}

/// Deduces the return type of a function: its `return_type` (or `type`) field,
/// else the name after `->` in its text; `Failed` where neither is found.
pub fn extract_return_type(tree: &SyntaxTree, node: usize) -> (r: TypeRef)
    requires
        tree.wf(),
        node < tree.size(),
    ensures
        return_type_read_from(*tree, node as int, r@),
{
    let mut tn = tree.child_by_field_name(node, "return_type");
    if tn.is_none() {
        tn = tree.child_by_field_name(node, "type");
    }
    if let Some(t) = tn {
        return extract_type_ref(tree, t);
    }
    let cs = chars_of(tree.text(node));
    let arrow = chars_of("->");
    proof {
        reveal_strlit("->");
    }
    if let Some(pos) = crate::text_util::find_sub(&cs, &arrow) {
        assert(crate::text_util::sub_at(cs@, arrow@, pos as int));
        assert(arrow@.len() == 2);
        let n = cs.len();
        assert(pos + 2 <= n);
        let after = trim_chars(&slice_chars(&cs, pos + 2, n));
        let ret = type_name_prefix(&after);
        proof {
            let k = choose|i: int| is_first_sub(cs@, "->"@, i);
            if k < pos {
                assert(!sub_at(cs@, arrow@, k));
            }
            if k > pos {
                assert(!sub_at(cs@, arrow@, pos as int));
            }
            assert(k == pos);
            assert(cs@.subrange(pos + 2, n as int) =~= cs@.skip(pos + 2));
        }
        if ret.len() > 0 {
            let s = string_from_chars(&ret);
            return TypeRef::Unresolved(split_qualified_name(s.as_str()));
        }
    }
    let none: Vec<String> = Vec::new();
    proof {
        assert(none.deep_view() =~= Seq::<Seq<char>>::empty());
    }
    TypeRef::Failed(none)
}

/// Kinds that name a type in a super-type list.
pub open spec fn super_name_kind(k: Seq<char>) -> bool {
    k == "type_identifier"@ || k == "identifier"@ || k == "scoped_type_identifier"@
}

/// Whether a kind names a type in a super-type list.
fn is_super_name_kind(k: &str) -> (r: bool)
    ensures
        r == super_name_kind(k@),
{
    str_eq(k, "type_identifier") || str_eq(k, "identifier") || str_eq(k, "scoped_type_identifier")
}

/// The test that picks type names out of a `type_list`.
pub closed spec fn super_name_pred(tree: SyntaxTree) -> spec_fn(usize) -> bool {
    |c: usize| super_name_kind(tree.kind_of(c as int))
}

/// The type-name nodes that child `c` of a super-type node contributes: itself if
/// it names a type, the type names among its children if it is a `type_list`.
pub open spec fn names_of_child(tree: SyntaxTree, c: usize) -> Seq<usize> {
    if super_name_kind(tree.kind_of(c as int)) {
        seq![c]
    } else if tree.kind_of(c as int) == "type_list"@ {
        tree.kids_of(c as int).filter(super_name_pred(tree))
    } else {
        Seq::empty()
    }
}

/// The type-name nodes contributed by the children `cs` of a super-type node.
pub open spec fn names_in(tree: SyntaxTree, cs: Seq<usize>) -> Seq<usize>
    decreases cs.len(),
{
    if cs.len() == 0 {
        Seq::empty()
    } else {
        names_in(tree, cs.drop_last()) + names_of_child(tree, cs.last())
    }
}

/// The type-name nodes under the super-type nodes `ns`, in order.
pub open spec fn supers_in(tree: SyntaxTree, ns: Seq<usize>) -> Seq<usize>
    decreases ns.len(),
{
    if ns.len() == 0 {
        Seq::empty()
    } else {
        supers_in(tree, ns.drop_last()) + names_in(tree, tree.kids_of(ns.last() as int))
    }
}

/// An optional node as a sequence of at most one.
pub open spec fn opt_node(o: Option<usize>) -> Seq<usize> {
    match o {
        Some(n) => seq![n],
        None => Seq::empty(),
    }
}

/// The test that picks `base_class_clause` children.
pub closed spec fn base_clause_pred(tree: SyntaxTree) -> spec_fn(usize) -> bool {
    |c: usize| tree.kind_of(c as int) == "base_class_clause"@
}

/// The super-type nodes of a declaration: its children under the fields
/// `super_type`, `extends`, `implements`, `superclass`, `interfaces`,
/// `superclasses` and `bounds`, in that order, then its `base_class_clause`
/// children.
pub open spec fn super_nodes(tree: SyntaxTree, node: int) -> Seq<usize> {
    opt_node(tree.field_child(node, "super_type"@)) + opt_node(tree.field_child(node, "extends"@))
        + opt_node(tree.field_child(node, "implements"@)) + opt_node(
        tree.field_child(node, "superclass"@),
    ) + opt_node(tree.field_child(node, "interfaces"@)) + opt_node(
        tree.field_child(node, "superclasses"@),
    ) + opt_node(tree.field_child(node, "bounds"@)) + tree.kids_of(node).filter(
        base_clause_pred(tree),
    )
}

/// Appends the child of `node` under `name`, if any.
fn push_field_child(tree: &SyntaxTree, node: usize, name: &str, nodes: &mut Vec<usize>)
    requires
        tree.wf(),
        node < tree.size(),
        forall|k: int| 0 <= k < old(nodes)@.len() ==> #[trigger] old(nodes)@[k] < tree.size(),
    ensures
        final(nodes)@ == old(nodes)@ + opt_node(tree.field_child(node as int, name@)),
        forall|k: int| 0 <= k < final(nodes)@.len() ==> #[trigger] final(nodes)@[k] < tree.size(),
{
    match tree.child_by_field_name(node, name) {
        Some(n) => {
            nodes.push(n);
            assert(nodes@ =~= old(nodes)@ + seq![n]);
        },
        None => {
            assert(nodes@ =~= old(nodes)@ + Seq::<usize>::empty());
        },
    }
}

/// Extracts the inherited or implemented super-types (base classes, interfaces,
/// trait bounds) from the usual fields and from `base_class_clause` children: one
/// type per type-name node under them, in order.
pub fn extract_super_types(tree: &SyntaxTree, node: usize) -> (r: Vec<TypeRef>)
    requires
        tree.wf(),
        node < tree.size(),
    ensures
        r@.len() == supers_in(*tree, super_nodes(*tree, node as int)).len(),
        forall|k: int|
            0 <= k < r@.len() ==> type_read_from(
                *tree,
                supers_in(*tree, super_nodes(*tree, node as int))[k] as int,
                #[trigger] r@[k]@,
            ),
{
    let mut supers: Vec<TypeRef> = Vec::new();
    let ghost mut from: Seq<usize> = Seq::empty();
    let mut super_nodes_v: Vec<usize> = Vec::new();
    push_field_child(tree, node, "super_type", &mut super_nodes_v);
    push_field_child(tree, node, "extends", &mut super_nodes_v);
    push_field_child(tree, node, "implements", &mut super_nodes_v);
    push_field_child(tree, node, "superclass", &mut super_nodes_v);
    push_field_child(tree, node, "interfaces", &mut super_nodes_v);
    push_field_child(tree, node, "superclasses", &mut super_nodes_v);
    push_field_child(tree, node, "bounds", &mut super_nodes_v);
    let ghost fields_part = super_nodes_v@;
    let kids = tree.children(node);
    let ghost bpred = base_clause_pred(*tree);
    let mut i: usize = 0;
    while i < kids.len()
        invariant
            tree.wf(),
            kids@ == tree.kids_of(node as int),
            bpred == base_clause_pred(*tree),
            i <= kids@.len(),
            forall|k: int| 0 <= k < kids@.len() ==> #[trigger] kids@[k] < tree.size(),
            forall|k: int| 0 <= k < super_nodes_v@.len() ==> #[trigger] super_nodes_v@[k] < tree.size(),
            super_nodes_v@ == fields_part + kids@.take(i as int).filter(bpred),
        decreases kids.len() - i,
    {
        let c = kids[i];
        proof {
            assert(kids@.take(i as int + 1) =~= kids@.take(i as int).push(c));
            kids@.take(i as int).lemma_filter_push(c, bpred);
        }
        if str_eq(tree.kind(c), "base_class_clause") {
            super_nodes_v.push(c);
            proof {
                assert(bpred(c));
                assert(super_nodes_v@ =~= fields_part + kids@.take(i as int + 1).filter(bpred));
            }
        } else {
            proof {
                assert(!bpred(c));
            }
        }
        i += 1;
    }
    proof {
        assert(kids@.take(i as int) =~= kids@);
        assert(super_nodes_v@ =~= super_nodes(*tree, node as int));
    }
    let ghost npred = super_name_pred(*tree);
    let mut s: usize = 0;
    while s < super_nodes_v.len()
        invariant
            tree.wf(),
            npred == super_name_pred(*tree),
            s <= super_nodes_v@.len(),
            forall|k: int| 0 <= k < super_nodes_v@.len() ==> #[trigger] super_nodes_v@[k] < tree.size(),
            from == supers_in(*tree, super_nodes_v@.take(s as int)),
            supers@.len() == from.len(),
            forall|k: int| 0 <= k < supers@.len() ==> type_read_from(*tree, from[k] as int, #[trigger] supers@[k]@),
        decreases super_nodes_v.len() - s,
    {
        let n = super_nodes_v[s];
        let ghost before = from;
        proof {
            assert(super_nodes_v@.take(s as int + 1).drop_last() =~= super_nodes_v@.take(s as int));
        }
        let nk = tree.children(n);
        let mut j: usize = 0;
        proof {
            assert(nk@.take(0).len() == 0);
            assert(before + names_in(*tree, nk@.take(0)) =~= before);
        }
        while j < nk.len()
            invariant
                tree.wf(),
                n < tree.size(),
                nk@ == tree.kids_of(n as int),
                npred == super_name_pred(*tree),
                j <= nk@.len(),
                forall|k: int| 0 <= k < nk@.len() ==> #[trigger] nk@[k] < tree.size(),
                from == before + names_in(*tree, nk@.take(j as int)),
                supers@.len() == from.len(),
                forall|k: int| 0 <= k < supers@.len() ==> type_read_from(*tree, from[k] as int, #[trigger] supers@[k]@),
            decreases nk.len() - j,
        {
            let child = nk[j];
            let ghost mid = from;
            proof {
                assert(nk@.take(j as int + 1).drop_last() =~= nk@.take(j as int));
                assert(nk@.take(j as int + 1).last() == child);
            }
            let ck = tree.kind(child);
            if is_super_name_kind(ck) {
                supers.push(extract_type_ref(tree, child));
                proof {
                    from = from.push(child);
                    assert(from =~= mid + names_of_child(*tree, child));
                }
            } else if str_eq(ck, "type_list") {
                let tl = tree.children(child);
                let mut m: usize = 0;
                proof {
                    assert(tl@.take(0).filter(npred) =~= Seq::<usize>::empty()) by {
                        reveal(Seq::filter);
                    }
                    assert(mid + tl@.take(0).filter(npred) =~= mid);
                }
                while m < tl.len()
                    invariant
                        tree.wf(),
                        tl@ == tree.kids_of(child as int),
                        npred == super_name_pred(*tree),
                        m <= tl@.len(),
                        forall|k: int| 0 <= k < tl@.len() ==> #[trigger] tl@[k] < tree.size(),
                        from == mid + tl@.take(m as int).filter(npred),
                        supers@.len() == from.len(),
                        forall|k: int| 0 <= k < supers@.len() ==> type_read_from(*tree, from[k] as int, #[trigger] supers@[k]@),
                    decreases tl.len() - m,
                {
                    let t = tl[m];
                    proof {
                        assert(tl@.take(m as int + 1) =~= tl@.take(m as int).push(t));
                        tl@.take(m as int).lemma_filter_push(t, npred);
                    }
                    if is_super_name_kind(tree.kind(t)) {
                        supers.push(extract_type_ref(tree, t));
                        proof {
                            assert(npred(t));
                            from = from.push(t);
                            assert(from =~= mid + tl@.take(m as int + 1).filter(npred));
                        }
                    } else {
                        proof {
                            assert(!npred(t));
                        }
                    }
                    m += 1;
                }
                proof {
                    assert(tl@.take(m as int) =~= tl@);
                    lemma_str_ne_type_list(ck@);
                    assert(from =~= mid + names_of_child(*tree, child));
                }
            } else {
                proof {
                    assert(names_of_child(*tree, child) =~= Seq::<usize>::empty());
                    assert(from =~= mid + names_of_child(*tree, child));
                }
            }
            proof {
                assert(from =~= before + names_in(*tree, nk@.take(j as int + 1)));
            }
            j += 1;
        }
        proof {
            assert(nk@.take(j as int) =~= nk@);
            assert(super_nodes_v@.take(s as int + 1).last() == n);
            assert(from =~= supers_in(*tree, super_nodes_v@.take(s as int + 1)));
        }
        s += 1;
    }
    proof {
        assert(super_nodes_v@.take(s as int) =~= super_nodes_v@);
    }
    supers
}

/// `type_list` is none of the type-name kinds.
proof fn lemma_str_ne_type_list(k: Seq<char>)
    ensures
        k == "type_list"@ ==> !super_name_kind(k),
{
    reveal_strlit("type_list");
    reveal_strlit("type_identifier");
    reveal_strlit("identifier");
    reveal_strlit("scoped_type_identifier");
    if k == "type_list"@ {
        assert(k.len() != "type_identifier"@.len() || k[0] != "type_identifier"@[0] || k[5] != "type_identifier"@[5]);
        assert(k.len() != "identifier"@.len());
        assert(k.len() != "scoped_type_identifier"@.len());
    }
}

/// Whether the `k`-th child of `node` is the first type name after the child `tr`.
pub open spec fn first_name_after(tree: SyntaxTree, node: int, tr: usize, k: int) -> bool {
    &&& 0 <= k < tree.kids_of(node).len()
    &&& tree.kids_of(node)[k] > tr && super_name_kind(tree.kind_of(tree.kids_of(node)[k] as int))
    &&& forall|j: int|
        0 <= j < k ==> !(#[trigger] tree.kids_of(node)[j] > tr && super_name_kind(
            tree.kind_of(tree.kids_of(node)[j] as int),
        ))
}

/// The node an implementation block's target type is read from: its `type`
/// field, else the first type name after its `trait` field, else the block itself.
pub open spec fn impl_target_node(tree: SyntaxTree, node: int) -> int {
    match tree.field_child(node, "type"@) {
        Some(t) => t as int,
        None => match tree.field_child(node, "trait"@) {
            Some(tr) => name_after(tree, node, tr),
            None => node,
        },
    }
}

/// The first type name among the children of `node` after the child `tr`, else
/// `node` itself.
pub open spec fn name_after(tree: SyntaxTree, node: int, tr: usize) -> int {
    if exists|k: int| first_name_after(tree, node, tr, k) {
        tree.kids_of(node)[choose|k: int| first_name_after(tree, node, tr, k)] as int
    } else {
        node
    }
}

/// The type an implementation block is for: its `type` field, else the first type
/// name after its `trait` field, else the type of the block node itself.
pub fn extract_impl_for(tree: &SyntaxTree, node: usize) -> (r: TypeRef)
    requires
        tree.wf(),
        node < tree.size(),
    ensures
        type_read_from(*tree, impl_target_node(*tree, node as int), r@),
{
    if let Some(t) = tree.child_by_field_name(node, "type") {
        return extract_type_ref(tree, t);
    }
    if let Some(trait_node) = tree.child_by_field_name(node, "trait") {
        let kids = tree.children(node);
        let ghost t_idx = choose|k: int| tree.first_field_index(node as int, "trait"@, k);
        let mut found_trait = false;
        let mut i: usize = 0;
        while i < kids.len()
            invariant
                tree.wf(),
                node < tree.size(),
                kids@ == tree.kids_of(node as int),
                tree.field_child(node as int, "type"@) is None,
                tree.field_child(node as int, "trait"@) == Some(trait_node),
                0 <= t_idx < kids@.len(),
                kids@[t_idx] == trait_node,
                i <= kids@.len(),
                found_trait == (t_idx < i),
                forall|j: int, k: int| 0 <= j < k < kids@.len() ==> kids@[j] < kids@[k],
                forall|k: int| 0 <= k < kids@.len() ==> #[trigger] kids@[k] < tree.size(),
                forall|j: int|
                    0 <= j < i ==> !(#[trigger] kids@[j] > trait_node && super_name_kind(
                        tree.kind_of(kids@[j] as int),
                    )),
            decreases kids.len() - i,
        {
            let child = kids[i];
            if child == trait_node {
                proof {
                    if (i as int) < t_idx {
                        assert(kids@[i as int] < kids@[t_idx]);
                    }
                    if (i as int) > t_idx {
                        assert(kids@[t_idx] < kids@[i as int]);
                    }
                }
                found_trait = true;
            } else if found_trait && is_super_name_kind(tree.kind(child)) {
                proof {
                    assert(kids@[t_idx] < kids@[i as int]);
                    assert(first_name_after(*tree, node as int, trait_node, i as int));
                    assert forall|k: int| first_name_after(*tree, node as int, trait_node, k) implies k
                        == i by {
                        if k < i {
                            assert(!(kids@[k] > trait_node && super_name_kind(
                                tree.kind_of(kids@[k] as int),
                            )));
                        }
                        if k > i {
                            assert(!(kids@[i as int] > trait_node && super_name_kind(
                                tree.kind_of(kids@[i as int] as int),
                            )));
                        }
                    }
                    assert(name_after(*tree, node as int, trait_node) == child as int);
                }
                return extract_type_ref(tree, child);
            } else {
                proof {
                    if !found_trait {
                        if (i as int) < t_idx {
                            assert(kids@[i as int] < kids@[t_idx]);
                        }
                    }
                }
            }
            i += 1;
        }
        proof {
            assert forall|k: int| !first_name_after(*tree, node as int, trait_node, k) by {
                if 0 <= k < kids@.len() {
                    assert(!(kids@[k] > trait_node && super_name_kind(tree.kind_of(kids@[k] as int))));
                }
            }
        }
    }
    extract_type_ref(tree, node)
}

/// The trait named in the text of an implementation block without a `trait`
/// field: the text before the first `for `, trimmed, must hold `impl` and not end
/// with it; the trait is what is left once `impl` is taken out, trimmed.
pub open spec fn implements_from_text(text: Seq<char>) -> Option<TypeRefV> {
    if exists|i: int| is_first_sub(text, "for "@, i) {
        let i = choose|i: int| is_first_sub(text, "for "@, i);
        let before = trim(text.take(i));
        let ends_with_impl = before.len() >= "impl"@.len() && before.subrange(
            before.len() - "impl"@.len(),
            before.len() as int,
        ) == "impl"@;
        if contains_sub(before, "impl"@) && !ends_with_impl {
            let name = trim(replace_spec(before, "impl"@, Seq::empty()));
            if name.len() > 0 {
                Some(TypeRefV::Unresolved(split_qualified_name_spec(name)))
            } else {
                None
            }
        } else {
            None
        }
    } else {
        None
    }
}

/// What is stated of the trait read from an implementation block: that read from
/// its `trait` field, else the one named in its text.
pub open spec fn implements_read_from(tree: SyntaxTree, node: int, t: Option<TypeRefV>) -> bool {
    match tree.field_child(node, "trait"@) {
        Some(n) => t matches Some(x) && type_read_from(tree, n as int, x),
        None => t == implements_from_text(tree.text_of(node)),
    }
}

/// The trait an implementation block implements: its `trait` field, else the name
/// between `impl` and `for ` in its text.
pub fn extract_implements_trait(tree: &SyntaxTree, node: usize) -> (r: Option<TypeRef>)
    requires
        tree.wf(),
        node < tree.size(),
    ensures
        implements_read_from(*tree, node as int, opt_typeref_view(r)),
{
    if let Some(t) = tree.child_by_field_name(node, "trait") {
        return Some(extract_type_ref(tree, t));
    }
    let cs = chars_of(tree.text(node));
    let for_word = chars_of("for ");
    if let Some(pos) = crate::text_util::find_sub(&cs, &for_word) {
        proof {
            let k = choose|i: int| is_first_sub(cs@, "for "@, i);
            if k < pos {
                assert(!sub_at(cs@, for_word@, k));
            }
            if k > pos {
                assert(!sub_at(cs@, for_word@, pos as int));
            }
            assert(k == pos);
            assert(cs@.subrange(0, pos as int) =~= cs@.take(pos as int));
        }
        let before = trim_chars(&slice_chars(&cs, 0, pos));
        let imp = chars_of("impl");
        proof {
            reveal_strlit("impl");
        }
        let ends_with_impl = before.len() >= 4 && crate::text_util::chars_eq(
            &slice_chars(&before, before.len() - 4, before.len()),
            &imp,
        );
        if contains_chars(&before, &imp) && !ends_with_impl {
            let empty: Vec<char> = Vec::new();
            let name = trim_chars(&crate::text_util::replace_all_chars(&before, &imp, &empty));
            proof {
                assert(empty@ =~= Seq::<char>::empty());
            }
            if name.len() > 0 {
                let s = string_from_chars(&name);
                return Some(TypeRef::Unresolved(split_qualified_name(s.as_str())));
            }
        }
    }
    None
}

} // verus!
