//! The elements of a Cytoscape.js view of dependency graphs: compound nodes for
//! modules, types and functions, and one edge per distinct dependency.
use crate::model::components::{opt_str_view, Component, StructuredTypeKind};
use crate::model::graph::{DependencyEdgeKind, DependencyGraph};
use crate::model::queries::QualifiedName;
use crate::text_util::{chars_of, join_strings, slice_chars, str_eq, string_from_chars, to_owned_string, with_decimal};
use vstd::prelude::*;

verus! {

/// The data of one element.
pub enum CytoscapeData {
    Node { id: String, label: String, ty: String, parent: Option<String> },
    Edge { id: String, source: String, target: String, label: String },
}

/// One element of the view.
pub struct CytoscapeElement {
    pub data: CytoscapeData,
}

/// Whether an element is a node with the given id.
pub open spec fn is_node_with_id(e: CytoscapeElement, id: Seq<char>) -> bool {
    e.data matches CytoscapeData::Node { id: nid, .. } && nid@ == id
}

/// Whether some element is a node with the given id.
pub open spec fn has_node_id(es: Seq<CytoscapeElement>, id: Seq<char>) -> bool {
    exists|i: int| 0 <= i < es.len() && is_node_with_id(#[trigger] es[i], id)
}

/// Whether no two node elements share an id.
pub open spec fn node_ids_distinct(es: Seq<CytoscapeElement>) -> bool {
    forall|i: int, j: int|
        0 <= i < j < es.len() && (#[trigger] es[i]).data is Node && (#[trigger] es[j]).data is Node
            ==> es[i].data->Node_id@ != es[j].data->Node_id@
}

/// Whether both ends of every edge element are node elements.
pub open spec fn edges_have_nodes(es: Seq<CytoscapeElement>) -> bool {
    forall|i: int|
        0 <= i < es.len() && (#[trigger] es[i]).data is Edge ==> has_node_id(
            es,
            es[i].data->Edge_source@,
        ) && has_node_id(es, es[i].data->Edge_target@)
}

/// The id of a qualified name: its parts joined with `::`.
fn qn_to_id(qn: &QualifiedName) -> (r: String)
    ensures
        r@ == crate::text_util::join_spec(qn.deep_view(), "::"@),
{
    join_strings(qn, "::")
}

/// The id of the element enclosing a node named `qn`: the name without its last part, unless
/// that is the bare `root` module or nothing.
pub open spec fn parent_id_spec(qn: Seq<Seq<char>>) -> Option<Seq<char>> {
    if qn.len() > 1 && !(qn.len() == 2 && qn[0] == "root"@) {
        Some(crate::text_util::join_spec(qn.drop_last(), "::"@))
    } else {
        None
    }
}

/// The id of the enclosing element: the name without its last part, unless that
/// is the bare `root` module.
fn get_parent_id(qn: &QualifiedName) -> (r: Option<String>)
    ensures
        match r {
            Some(s) => parent_id_spec(qn.deep_view()) == Some(s@),
            None => parent_id_spec(qn.deep_view()) is None,
        },
{
    if qn.len() > 1 {
        let mut parent: Vec<String> = Vec::new();
        let mut i: usize = 0;
        while i < qn.len() - 1
            invariant
                qn@.len() > 1,
                i <= qn@.len() - 1,
                parent.deep_view() == qn.deep_view().take(i as int),
            decreases qn.len() - 1 - i,
        {
            let ghost before = parent.deep_view();
            parent.push(to_owned_string(qn[i].as_str()));
            assert(parent.deep_view() =~= before.push(qn@[i as int]@));
            assert(qn.deep_view().take(i + 1) =~= qn.deep_view().take(i as int).push(qn@[i as int]@));
            i += 1;
        }
        assert(parent.deep_view() =~= qn.deep_view().drop_last());
        if parent.len() == 1 && str_eq(parent[0].as_str(), "root") {
            None
        } else {
            Some(qn_to_id(&parent))
        }
    } else {
        None
    }
}

/// The last part of the name, or `default` for an empty name.
fn last_or(qn: &QualifiedName, default: &str) -> (r: String)
    ensures
        r@ == (if qn@.len() > 0 {
            qn@.last()@
        } else {
            default@
        }),
{
    if qn.len() > 0 {
        to_owned_string(qn[qn.len() - 1].as_str())
    } else {
        to_owned_string(default)
    }
}

/// The written name of a structured-type kind.
pub open spec fn kind_label_spec(k: StructuredTypeKind) -> Seq<char> {
    match k {
        StructuredTypeKind::Class => "Class"@,
        StructuredTypeKind::Struct => "Struct"@,
        StructuredTypeKind::Interface => "Interface"@,
        StructuredTypeKind::Trait => "Trait"@,
        StructuredTypeKind::Enum => "Enum"@,
        StructuredTypeKind::EnumVariant => "EnumVariant"@,
    }
}

/// The written name of a structured-type kind.
fn kind_label(k: StructuredTypeKind) -> (r: &'static str)
    ensures
        r@ == kind_label_spec(k),
{
    match k {
        StructuredTypeKind::Class => "Class",
        StructuredTypeKind::Struct => "Struct",
        StructuredTypeKind::Interface => "Interface",
        StructuredTypeKind::Trait => "Trait",
        StructuredTypeKind::Enum => "Enum",
        StructuredTypeKind::EnumVariant => "EnumVariant",
    }
}

/// The written name of an edge kind.
pub open spec fn edge_label_spec(k: DependencyEdgeKind) -> Seq<char> {
    match k {
        DependencyEdgeKind::IsA => "IsA"@,
        DependencyEdgeKind::Implements => "Implements"@,
        DependencyEdgeKind::UsesFieldType => "UsesFieldType"@,
        DependencyEdgeKind::UsesLocalType => "UsesLocalType"@,
        DependencyEdgeKind::UsesParamType => "UsesParamType"@,
        DependencyEdgeKind::UsesReturnType => "UsesReturnType"@,
        DependencyEdgeKind::NestedIn => "NestedIn"@,
        DependencyEdgeKind::ModuleContainment => "ModuleContainment"@,
        DependencyEdgeKind::Calls => "Calls"@,
        DependencyEdgeKind::Instantiates => "Instantiates"@,
        DependencyEdgeKind::AccessesField => "AccessesField"@,
        DependencyEdgeKind::Imports => "Imports"@,
        DependencyEdgeKind::Aliases => "Aliases"@,
        DependencyEdgeKind::CastsTo => "CastsTo"@,
        DependencyEdgeKind::AnnotatedWith => "AnnotatedWith"@,
    }
}

/// The written name of an edge kind.
fn edge_label(k: DependencyEdgeKind) -> (r: &'static str)
    ensures
        r@ == edge_label_spec(k),
{
    match k {
        DependencyEdgeKind::IsA => "IsA",
        DependencyEdgeKind::Implements => "Implements",
        DependencyEdgeKind::UsesFieldType => "UsesFieldType",
        DependencyEdgeKind::UsesLocalType => "UsesLocalType",
        DependencyEdgeKind::UsesParamType => "UsesParamType",
        DependencyEdgeKind::UsesReturnType => "UsesReturnType",
        DependencyEdgeKind::NestedIn => "NestedIn",
        DependencyEdgeKind::ModuleContainment => "ModuleContainment",
        DependencyEdgeKind::Calls => "Calls",
        DependencyEdgeKind::Instantiates => "Instantiates",
        DependencyEdgeKind::AccessesField => "AccessesField",
        DependencyEdgeKind::Imports => "Imports",
        DependencyEdgeKind::Aliases => "Aliases",
        DependencyEdgeKind::CastsTo => "CastsTo",
        DependencyEdgeKind::AnnotatedWith => "AnnotatedWith",
    }
}

/// Where the last piece of `s` starts, scanning from `i` with the current piece starting at
/// `start`: each `::` met (left to right, matches not overlapping) starts a new piece after it.
pub open spec fn last_piece_start(s: Seq<char>, i: int, start: int) -> int
    decreases s.len() - i,
{
    if i >= s.len() {
        start
    } else if i + 1 < s.len() && s[i] == ':' && s[i + 1] == ':' {
        last_piece_start(s, i + 2, i + 2)
    } else {
        last_piece_start(s, i + 1, start)
    }
}

proof fn lemma_last_piece_start_bound(s: Seq<char>, i: int, start: int)
    requires
        0 <= start <= s.len(),
        0 <= i <= s.len(),
    ensures
        0 <= last_piece_start(s, i, start) <= s.len(),
    decreases s.len() - i,
{
    if i >= s.len() {
    } else if i + 1 < s.len() && s[i] == ':' && s[i + 1] == ':' {
        lemma_last_piece_start_bound(s, i + 2, i + 2);
    } else {
        lemma_last_piece_start_bound(s, i + 1, start);
    }
}

/// The last piece of `s` split at `::`.
pub open spec fn last_piece_spec(s: Seq<char>) -> Seq<char> {
    s.subrange(last_piece_start(s, 0, 0), s.len() as int)
}

/// The last piece of `id` split at `::` (`str::split("::").last()`).
fn last_piece(id: &str) -> (r: String)
    ensures
        r@ == last_piece_spec(id@),
{
    let cs = chars_of(id);
    let mut start: usize = 0;
    let mut i: usize = 0;
    proof {
        lemma_last_piece_start_bound(id@, 0, 0);
    }
    while i < cs.len()
        invariant
            start <= cs@.len(),
            i <= cs@.len(),
            cs@ == id@,
            last_piece_start(id@, 0, 0) == last_piece_start(id@, i as int, start as int),
        decreases cs.len() - i,
    {
        if i + 1 < cs.len() && cs[i] == ':' && cs[i + 1] == ':' {
            start = i + 2;
            i = i + 2;
        } else {
            i += 1;
        }
    }
    string_from_chars(&slice_chars(&cs, start, cs.len()))
}

/// Whether `v` holds a string equal to `x`.
fn listed(v: &Vec<String>, x: &str) -> (r: bool)
    ensures
        r == exists|i: int| 0 <= i < v@.len() && (#[trigger] v@[i])@ == x@,
{
    let mut i: usize = 0;
    while i < v.len()
        invariant
            i <= v@.len(),
            forall|j: int| 0 <= j < i ==> (#[trigger] v@[j])@ != x@,
        decreases v.len() - i,
    {
        if str_eq(v[i].as_str(), x) {
            return true;
        }
        i += 1;
    }
    false
}

/// What the element list keeps while it grows: the node ids added so far are
/// exactly those of its node elements, no two of them equal, and every edge has
/// its two ends among them.
pub open spec fn elements_inv(es: Seq<CytoscapeElement>, ids: Seq<String>) -> bool {
    &&& node_ids_distinct(es)
    &&& edges_have_nodes(es)
    &&& forall|i: int| 0 <= i < ids.len() ==> has_node_id(es, (#[trigger] ids[i])@)
    &&& forall|i: int|
        0 <= i < es.len() && (#[trigger] es[i]).data is Node ==> exists|j: int|
            0 <= j < ids.len() && (#[trigger] ids[j])@ == es[i].data->Node_id@
}

/// The name of a node of the view: that of a module, structured type or function.
pub open spec fn shown_name(c: Component) -> Seq<Seq<char>> {
    match c {
        Component::Module(m) => m.name.deep_view(),
        Component::StructuredType(st) => st.name.deep_view(),
        Component::Function(f) => f.name.deep_view(),
        _ => Seq::empty(),
    }
}

/// The id of the node element that a graph node gets: modules (but the bare `root`),
/// structured types and functions have one, by their name joined with `::`.
pub open spec fn node_id_of(c: Component) -> Option<Seq<char>> {
    let id = crate::text_util::join_spec(shown_name(c), "::"@);
    match c {
        Component::Module(_) => if id == "root"@ {
            None
        } else {
            Some(id)
        },
        Component::StructuredType(_) => Some(id),
        Component::Function(_) => Some(id),
        _ => None,
    }
}

/// The last part of a name, or `d` for an empty name.
pub open spec fn last_or_spec(q: Seq<Seq<char>>, d: Seq<char>) -> Seq<char> {
    if q.len() > 0 {
        q.last()
    } else {
        d
    }
}

/// The label of a graph node's element: its last name part (a function's followed by `()`).
pub open spec fn node_label_spec(c: Component) -> Seq<char> {
    match c {
        Component::Module(m) => last_or_spec(m.name.deep_view(), "root"@),
        Component::StructuredType(st) => last_or_spec(st.name.deep_view(), "Unknown"@),
        Component::Function(f) => last_or_spec(f.name.deep_view(), Seq::empty()).push('(').push(')'),
        _ => Seq::empty(),
    }
}

/// The type of a graph node's element: `Module`, the type's kind, or `Function`.
pub open spec fn node_type_spec(c: Component) -> Seq<char> {
    match c {
        Component::Module(_) => "Module"@,
        Component::StructuredType(st) => kind_label_spec(st.kind),
        Component::Function(_) => "Function"@,
        _ => Seq::empty(),
    }
}

/// Whether `e` is a node element with these id, label, type and parent.
pub open spec fn is_node_element(e: CytoscapeElement, id: Seq<char>, label: Seq<char>, ty: Seq<char>, parent: Option<Seq<char>>) -> bool {
    e.data matches CytoscapeData::Node { id: a, label: b, ty: t, parent: p } && a@ == id && b@ == label
        && t@ == ty && crate::model::components::opt_str_view(p) == parent
}

/// Adds a node element unless one with the same id is there.
fn add_node(
    elements: &mut Vec<CytoscapeElement>,
    added_nodes: &mut Vec<String>,
    id: String,
    label: String,
    ty: String,
    parent: Option<String>,
)
    requires
        elements_inv(old(elements)@, old(added_nodes)@),
    ensures
        elements_inv(final(elements)@, final(added_nodes)@),
        has_node_id(final(elements)@, id@),
        forall|x: Seq<char>| has_node_id(old(elements)@, x) ==> has_node_id(final(elements)@, x),
        has_node_id(old(elements)@, id@) ==> final(elements)@ == old(elements)@,
        !has_node_id(old(elements)@, id@) ==> final(elements)@ == old(elements)@.push(
            (CytoscapeElement { data: CytoscapeData::Node { id, label, ty, parent } }),
        ),
{
    if listed(added_nodes, id.as_str()) {
        proof {
            let j = choose|j: int| 0 <= j < added_nodes@.len() && (#[trigger] added_nodes@[j])@ == id@;
            assert(has_node_id(elements@, added_nodes@[j]@));
        }
        return;
    }
    let ghost es0 = elements@;
    let ghost ids0 = added_nodes@;
    added_nodes.push(to_owned_string(id.as_str()));
    let ghost idv = id@;
    elements.push(CytoscapeElement { data: CytoscapeData::Node { id, label, ty, parent } });
    proof {
        let es = elements@;
        let n = es0.len() as int;
        assert(is_node_with_id(es[n], idv));
        assert forall|x: Seq<char>| has_node_id(es0, x) implies has_node_id(es, x) by {
            let i = choose|i: int| 0 <= i < es0.len() && is_node_with_id(es0[i], x);
            assert(es[i] == es0[i]);
        }
        assert forall|i: int, j: int|
            0 <= i < j < es.len() && (#[trigger] es[i]).data is Node && (#[trigger] es[j]).data is Node
            implies es[i].data->Node_id@ != es[j].data->Node_id@ by {
            if j == n {
                assert(es[i] == es0[i]);
                let k = choose|k: int| 0 <= k < ids0.len() && (#[trigger] ids0[k])@ == es0[i].data->Node_id@;
                assert(ids0[k]@ != idv);
            } else {
                assert(es[i] == es0[i]);
                assert(es[j] == es0[j]);
            }
        }
        assert forall|i: int| 0 <= i < es.len() && (#[trigger] es[i]).data is Edge implies has_node_id(
            es,
            es[i].data->Edge_source@,
        ) && has_node_id(es, es[i].data->Edge_target@) by {
            assert(es[i] == es0[i]);
        }
        assert forall|i: int| 0 <= i < added_nodes@.len() implies has_node_id(es, (#[trigger] added_nodes@[i])@) by {
            if i < ids0.len() {
                assert(added_nodes@[i] == ids0[i]);
            }
        }
        assert forall|i: int|
            0 <= i < es.len() && (#[trigger] es[i]).data is Node implies exists|j: int|
                0 <= j < added_nodes@.len() && (#[trigger] added_nodes@[j])@ == es[i].data->Node_id@ by {
            if i == n {
                assert(added_nodes@[ids0.len() as int]@ == idv);
            } else {
                assert(es[i] == es0[i]);
                let k = choose|k: int| 0 <= k < ids0.len() && (#[trigger] ids0[k])@ == es0[i].data->Node_id@;
                assert(added_nodes@[k] == ids0[k]);
            }
        }
    }
}

/// The node element of a graph node, for modules (but the bare `root`),
/// structured types and functions.
fn add_graph_node(elements: &mut Vec<CytoscapeElement>, added_nodes: &mut Vec<String>, node: &Component)
    requires
        elements_inv(old(elements)@, old(added_nodes)@),
    ensures
        elements_inv(final(elements)@, final(added_nodes)@),
        forall|x: Seq<char>| has_node_id(old(elements)@, x) ==> has_node_id(final(elements)@, x),
        match node_id_of(*node) {
            None => final(elements)@ == old(elements)@,
            Some(id) => if has_node_id(old(elements)@, id) {
                final(elements)@ == old(elements)@
            } else {
                &&& final(elements)@.len() == old(elements)@.len() + 1
                &&& final(elements)@.drop_last() == old(elements)@
                &&& is_node_element(
                    final(elements)@.last(),
                    id,
                    node_label_spec(*node),
                    node_type_spec(*node),
                    parent_id_spec(shown_name(*node)),
                )
            },
        },
{
    let ghost es0 = elements@;
    match node {
        Component::Module(m) => {
            let id = qn_to_id(&m.name);
            proof {
                reveal_strlit("root");
            }
            if !str_eq(id.as_str(), "root") {
                let label = last_or(&m.name, "root");
                let parent = get_parent_id(&m.name);
                let ty = to_owned_string("Module");
                assert(node_id_of(*node) == Some(id@));
                assert(label@ == node_label_spec(*node));
                assert(ty@ == node_type_spec(*node));
                assert(opt_str_view(parent) == parent_id_spec(shown_name(*node)));
                add_node(elements, added_nodes, id, label, ty, parent);
            } else {
                assert(node_id_of(*node) is None);
            }
        },
        Component::StructuredType(st) => {
            let id = qn_to_id(&st.name);
            let label = last_or(&st.name, "Unknown");
            let parent = get_parent_id(&st.name);
            add_node(elements, added_nodes, id, label, to_owned_string(kind_label(st.kind)), parent);
        },
        Component::Function(f) => {
            let id = qn_to_id(&f.name);
            let name = last_or(&f.name, "");
            proof {
                reveal_strlit("");
            }
            let mut label_chars = chars_of(name.as_str());
            label_chars.push('(');
            label_chars.push(')');
            let label = string_from_chars(&label_chars);
            let parent = get_parent_id(&f.name);
            let ty = to_owned_string("Function");
            assert(label@ == node_label_spec(*node));
            assert(ty@ == node_type_spec(*node));
            add_node(elements, added_nodes, id, label, ty, parent);
        },
        _ => {},
    }
}

/// Whether an edge of a graph is shown: not a containment or nesting edge, and with both ends
/// named.
pub open spec fn kept_edge(e: crate::model::graph::Dependency) -> bool {
    &&& !(e.kind is ModuleContainment || e.kind is NestedIn)
    &&& crate::text_util::join_spec(e.from.deep_view(), "::"@).len() > 0
    &&& crate::text_util::join_spec(e.to.deep_view(), "::"@).len() > 0
}

/// Whether `el` is an edge element from `e`'s source to its target, labelled with its kind.
pub open spec fn shows_edge(el: CytoscapeElement, e: crate::model::graph::Dependency) -> bool {
    el.data matches CytoscapeData::Edge { source, target, label, .. } && source@
        == crate::text_util::join_spec(e.from.deep_view(), "::"@) && target@ == crate::text_util::join_spec(
        e.to.deep_view(),
        "::"@,
    ) && label@ == edge_label_spec(e.kind)
}

/// Whether `el` is the element of some shown edge of the graphs.
pub open spec fn from_some_edge(gs: Seq<DependencyGraph>, el: CytoscapeElement) -> bool {
    exists|g: int, k: int|
        0 <= g < gs.len() && 0 <= k < gs[g].edges@.len() && kept_edge(#[trigger] gs[g].edges@[k])
            && shows_edge(el, gs[g].edges@[k])
}

/// The nodes of the graphs up to graph `g` (and its first `n` nodes) have their elements.
pub open spec fn nodes_shown(gs: Seq<DependencyGraph>, es: Seq<CytoscapeElement>, g: int, n: int) -> bool {
    &&& forall|a: int, b: int|
        0 <= a < g && 0 <= b < gs[a].nodes@.len() ==> (node_id_of(#[trigger] gs[a].nodes@[b]) matches Some(
            id,
        ) ==> has_node_id(es, id))
    &&& forall|b: int|
        0 <= b < n ==> (node_id_of(#[trigger] gs[g].nodes@[b]) matches Some(id) ==> has_node_id(es, id))
}

/// The shown edges of the graphs up to graph `g` (and its first `k` edges) have both ends
/// among the node elements.
pub open spec fn ends_shown(gs: Seq<DependencyGraph>, es: Seq<CytoscapeElement>, g: int, k: int) -> bool {
    &&& forall|a: int, b: int|
        0 <= a < g && 0 <= b < gs[a].edges@.len() && kept_edge(#[trigger] gs[a].edges@[b]) ==> has_node_id(
            es,
            crate::text_util::join_spec(gs[a].edges@[b].from.deep_view(), "::"@),
        ) && has_node_id(es, crate::text_util::join_spec(gs[a].edges@[b].to.deep_view(), "::"@))
    &&& forall|b: int|
        0 <= b < k && kept_edge(#[trigger] gs[g].edges@[b]) ==> has_node_id(
            es,
            crate::text_util::join_spec(gs[g].edges@[b].from.deep_view(), "::"@),
        ) && has_node_id(es, crate::text_util::join_spec(gs[g].edges@[b].to.deep_view(), "::"@))
}

/// Every edge element is that of a shown edge of the graphs.
pub open spec fn edges_from_graphs(gs: Seq<DependencyGraph>, es: Seq<CytoscapeElement>) -> bool {
    forall|i: int| 0 <= i < es.len() && (#[trigger] es[i]).data is Edge ==> from_some_edge(gs, es[i])
}

proof fn lemma_shown_grow(
    gs: Seq<DependencyGraph>,
    es0: Seq<CytoscapeElement>,
    es1: Seq<CytoscapeElement>,
    g: int,
    k: int,
)
    requires
        forall|x: Seq<char>| has_node_id(es0, x) ==> has_node_id(es1, x),
        nodes_shown(gs, es0, g + 1, 0),
        ends_shown(gs, es0, g, k),
    ensures
        nodes_shown(gs, es1, g + 1, 0),
        ends_shown(gs, es1, g, k),
{
}

proof fn lemma_edges_kept(gs: Seq<DependencyGraph>, es0: Seq<CytoscapeElement>, es1: Seq<CytoscapeElement>)
    requires
        edges_from_graphs(gs, es0),
        es1 == es0 || (es1.len() > 0 && es1 == es0.push(es1.last()) && es1.last().data is Node),
    ensures
        edges_from_graphs(gs, es1),
{
    assert forall|i: int| 0 <= i < es1.len() && (#[trigger] es1[i]).data is Edge implies from_some_edge(gs, es1[i]) by {
        if es1 != es0 {
            assert(i < es0.len());
            assert(es1[i] == es0[i]);
        }
    }
}

/// The key by which edge elements are told apart: source, `->`, target, `:` and label.
pub open spec fn edge_key(s: Seq<char>, t: Seq<char>, l: Seq<char>) -> Seq<char> {
    s + "->"@ + t + seq![':'] + l
}

/// The key of an edge element.
pub open spec fn element_key(el: CytoscapeElement) -> Seq<char> {
    match el.data {
        CytoscapeData::Edge { source, target, label, .. } => edge_key(source@, target@, label@),
        _ => Seq::empty(),
    }
}

/// Some edge element has the key `k`.
pub open spec fn key_backed(es: Seq<CytoscapeElement>, k: Seq<char>) -> bool {
    exists|i: int| 0 <= i < es.len() && es[i].data is Edge && #[trigger] element_key(es[i]) == k
}

/// Every key listed is that of some edge element.
pub open spec fn keys_backed(es: Seq<CytoscapeElement>, keys: Seq<String>) -> bool {
    forall|a: int| 0 <= a < keys.len() ==> key_backed(es, (#[trigger] keys[a])@)
}

/// Whether `s` holds no `>`.
pub open spec fn no_gt(s: Seq<char>) -> bool {
    forall|i: int| 0 <= i < s.len() ==> s[i] != '>'
}

/// Some element is the edge element of `e`.
pub open spec fn edge_shown(es: Seq<CytoscapeElement>, e: crate::model::graph::Dependency) -> bool {
    exists|i: int| 0 <= i < es.len() && #[trigger] shows_edge(es[i], e)
}

/// Graphs whose edge elements can be told apart by their keys, and not too many to number:
/// no source id of a shown edge holds `>`, and the edges are fewer than the largest `usize`.
pub open spec fn plain_graphs(gs: Seq<DependencyGraph>) -> bool {
    &&& total_edges(gs) < usize::MAX
    &&& forall|a: int, b: int|
        0 <= a < gs.len() && 0 <= b < gs[a].edges@.len() && kept_edge(#[trigger] gs[a].edges@[b]) ==> no_gt(
            crate::text_util::join_spec(gs[a].edges@[b].from.deep_view(), "::"@),
        )
}

/// The shown edges up to graph `g` (and its first `k` edges) have their edge elements.
pub open spec fn edges_shown_upto(gs: Seq<DependencyGraph>, es: Seq<CytoscapeElement>, g: int, k: int) -> bool {
    &&& forall|a: int, b: int|
        0 <= a < g && 0 <= b < gs[a].edges@.len() && kept_edge(#[trigger] gs[a].edges@[b]) ==> edge_shown(
            es,
            gs[a].edges@[b],
        )
    &&& forall|b: int| 0 <= b < k && kept_edge(#[trigger] gs[g].edges@[b]) ==> edge_shown(es, gs[g].edges@[b])
}

/// The number of edges of the first `g` graphs.
pub open spec fn edges_before(gs: Seq<DependencyGraph>, g: int) -> int
    decreases g,
{
    if g <= 0 {
        0
    } else {
        edges_before(gs, g - 1) + gs[g - 1].edges@.len()
    }
}

/// The number of edges of all the graphs.
pub open spec fn total_edges(gs: Seq<DependencyGraph>) -> int {
    edges_before(gs, gs.len() as int)
}

proof fn lemma_edges_before_mono(gs: Seq<DependencyGraph>, g: int, h: int)
    requires
        0 <= g <= h,
    ensures
        edges_before(gs, g) <= edges_before(gs, h),
    decreases h - g,
{
    if g < h {
        lemma_edges_before_mono(gs, g, h - 1);
    }
}

proof fn lemma_label_no_colon(k: DependencyEdgeKind)
    ensures
        forall|i: int| 0 <= i < edge_label_spec(k).len() ==> edge_label_spec(k)[i] != ':',
{
    reveal_strlit("IsA");
    reveal_strlit("Implements");
    reveal_strlit("UsesFieldType");
    reveal_strlit("UsesLocalType");
    reveal_strlit("UsesParamType");
    reveal_strlit("UsesReturnType");
    reveal_strlit("NestedIn");
    reveal_strlit("ModuleContainment");
    reveal_strlit("Calls");
    reveal_strlit("Instantiates");
    reveal_strlit("AccessesField");
    reveal_strlit("Imports");
    reveal_strlit("Aliases");
    reveal_strlit("CastsTo");
    reveal_strlit("AnnotatedWith");
}

/// Two edges with equal keys, whose sources hold no `>` and whose labels are edge labels, have
/// the same source, target and label.
proof fn lemma_edge_key_injective(
    s1: Seq<char>,
    t1: Seq<char>,
    k1: DependencyEdgeKind,
    s2: Seq<char>,
    t2: Seq<char>,
    k2: DependencyEdgeKind,
)
    requires
        no_gt(s1),
        no_gt(s2),
        edge_key(s1, t1, edge_label_spec(k1)) == edge_key(s2, t2, edge_label_spec(k2)),
    ensures
        s1 == s2,
        t1 == t2,
        edge_label_spec(k1) == edge_label_spec(k2),
{
    let l1 = edge_label_spec(k1);
    let l2 = edge_label_spec(k2);
    let x = edge_key(s1, t1, l1);
    let y = edge_key(s2, t2, l2);
    let a1: int = s1.len() as int;
    let a2: int = s2.len() as int;
    reveal_strlit("->");
    assert(x.len() == y.len());
    assert(x[a1 + 1] == '>');
    assert(y[a2 + 1] == '>');
    if a1 < a2 {
        let p: int = a1 + 1;
        if p < a2 {
            assert(y[p] == s2[p]);
        } else {
            assert(y[p] == '-');
        }
        assert(false);
    }
    if a2 < a1 {
        let p: int = a2 + 1;
        if p < a1 {
            assert(x[p] == s1[p]);
        } else {
            assert(x[p] == '-');
        }
        assert(false);
    }
    assert(s1 =~= x.subrange(0, a1));
    assert(s2 =~= y.subrange(0, a2));
    let n: int = a1 + 2;
    let b1: int = t1.len() as int;
    let b2: int = t2.len() as int;
    lemma_label_no_colon(k1);
    lemma_label_no_colon(k2);
    assert(x[n + b1] == ':');
    assert(y[n + b2] == ':');
    if b1 < b2 {
        let p: int = n + b2;
        assert(x[p] == l1[p - n - b1 - 1]);
        assert(false);
    }
    if b2 < b1 {
        let p: int = n + b1;
        assert(y[p] == l2[p - n - b2 - 1]);
        assert(false);
    }
    assert(t1 =~= x.subrange(n, n + b1));
    assert(t2 =~= y.subrange(n, n + b2));
    assert(l1 =~= x.subrange(n + b1 + 1, x.len() as int));
    assert(l2 =~= y.subrange(n + b2 + 1, y.len() as int));
}

/// What an element list that only grew at its end keeps.
proof fn lemma_elements_extend(
    gs: Seq<DependencyGraph>,
    es0: Seq<CytoscapeElement>,
    es1: Seq<CytoscapeElement>,
    keys: Seq<String>,
    g: int,
    k: int,
)
    requires
        es0.len() <= es1.len(),
        forall|i: int| 0 <= i < es0.len() ==> es1[i] == es0[i],
    ensures
        keys_backed(es0, keys) ==> keys_backed(es1, keys),
        edges_shown_upto(gs, es0, g, k) ==> edges_shown_upto(gs, es1, g, k),
{
    if keys_backed(es0, keys) {
        assert forall|a: int| 0 <= a < keys.len() implies key_backed(es1, (#[trigger] keys[a])@) by {
            assert(key_backed(es0, keys[a]@));
            let i = choose|i: int| 0 <= i < es0.len() && es0[i].data is Edge && #[trigger] element_key(es0[i]) == keys[a]@;
            assert(es1[i] == es0[i]);
        }
    }
    assert forall|e: crate::model::graph::Dependency| edge_shown(es0, e) implies edge_shown(es1, e) by {
        let i = choose|i: int| 0 <= i < es0.len() && #[trigger] shows_edge(es0[i], e);
        assert(es1[i] == es0[i]);
    }
}

/// The elements of a Cytoscape.js view of the graphs: a node per module (but the
/// bare `root`), structured type and function, each in its enclosing element; an
/// edge per distinct (source, target, kind), numbered `e0`, `e1`, ... in order,
/// containment edges left out (nesting shows them), and an `External` node for an
/// edge end that is no node yet. No two nodes share an id and both ends of every
/// edge are nodes.
pub fn graph_elements(graphs: &Vec<DependencyGraph>) -> (r: Vec<CytoscapeElement>)
    ensures
        node_ids_distinct(r@),
        edges_have_nodes(r@),
        forall|g: int, n: int|
            0 <= g < graphs@.len() && 0 <= n < graphs@[g].nodes@.len() ==> (node_id_of(
                #[trigger] graphs@[g].nodes@[n],
            ) matches Some(id) ==> has_node_id(r@, id)),
        forall|g: int, k: int|
            0 <= g < graphs@.len() && 0 <= k < graphs@[g].edges@.len() && kept_edge(
                #[trigger] graphs@[g].edges@[k],
            ) ==> has_node_id(r@, crate::text_util::join_spec(graphs@[g].edges@[k].from.deep_view(), "::"@))
                && has_node_id(r@, crate::text_util::join_spec(graphs@[g].edges@[k].to.deep_view(), "::"@)),
        edges_from_graphs(graphs@, r@),
        plain_graphs(graphs@) ==> forall|g: int, k: int|
            0 <= g < graphs@.len() && 0 <= k < graphs@[g].edges@.len() && kept_edge(
                #[trigger] graphs@[g].edges@[k],
            ) ==> edge_shown(r@, graphs@[g].edges@[k]),
{
    let mut elements: Vec<CytoscapeElement> = Vec::new();
    let mut added_nodes: Vec<String> = Vec::new();
    let mut added_edges: Vec<String> = Vec::new();
    let mut global_edge_id: usize = 0;
    let mut g: usize = 0;
    while g < graphs.len()
        invariant
            g <= graphs@.len(),
            elements_inv(elements@, added_nodes@),
            nodes_shown(graphs@, elements@, g as int, 0),
            ends_shown(graphs@, elements@, g as int, 0),
            edges_from_graphs(graphs@, elements@),
            keys_backed(elements@, added_edges@),
            plain_graphs(graphs@) ==> edges_shown_upto(graphs@, elements@, g as int, 0),
            global_edge_id <= edges_before(graphs@, g as int),
        decreases graphs.len() - g,
    {
        let graph = &graphs[g];
        let mut n: usize = 0;
        while n < graph.nodes.len()
            invariant
                g < graphs@.len(),
                graph == graphs@[g as int],
                n <= graph.nodes@.len(),
                elements_inv(elements@, added_nodes@),
                nodes_shown(graphs@, elements@, g as int, n as int),
                ends_shown(graphs@, elements@, g as int, 0),
                edges_from_graphs(graphs@, elements@),
                keys_backed(elements@, added_edges@),
                plain_graphs(graphs@) ==> edges_shown_upto(graphs@, elements@, g as int, 0),
                global_edge_id <= edges_before(graphs@, g as int),
            decreases graph.nodes.len() - n,
        {
            let ghost es0 = elements@;
            add_graph_node(&mut elements, &mut added_nodes, &graph.nodes[n]);
            proof {
                if elements@ != es0 {
                    assert(elements@ =~= es0.push(elements@.last()));
                }
                lemma_edges_kept(graphs@, es0, elements@);
                lemma_elements_extend(graphs@, es0, elements@, added_edges@, g as int, 0);
                assert forall|b: int|
                    0 <= b < n + 1 implies (node_id_of(#[trigger] graphs@[g as int].nodes@[b]) matches Some(
                    id,
                ) ==> has_node_id(elements@, id)) by {
                    if b < n {
                        if let Some(id) = node_id_of(graphs@[g as int].nodes@[b]) {
                            assert(has_node_id(es0, id));
                        }
                    }
                }
            }
            n += 1;
        }
        proof {
            assert forall|a: int, b: int|
                0 <= a < g + 1 && 0 <= b < graphs@[a].nodes@.len() implies (node_id_of(
                #[trigger] graphs@[a].nodes@[b],
            ) matches Some(id) ==> has_node_id(elements@, id)) by {
                if a == g {
                    assert(graphs@[a].nodes@[b] == graph.nodes@[b]);
                }
            }
        }
        let mut k: usize = 0;
        while k < graph.edges.len()
            invariant
                g < graphs@.len(),
                graph == graphs@[g as int],
                k <= graph.edges@.len(),
                elements_inv(elements@, added_nodes@),
                nodes_shown(graphs@, elements@, g as int + 1, 0),
                ends_shown(graphs@, elements@, g as int, k as int),
                edges_from_graphs(graphs@, elements@),
                keys_backed(elements@, added_edges@),
                plain_graphs(graphs@) ==> edges_shown_upto(graphs@, elements@, g as int, k as int),
                global_edge_id <= edges_before(graphs@, g as int) + k,
            decreases graph.edges.len() - k,
        {
            let edge = &graph.edges[k];
            let ghost kk = k as int;
            k += 1;
            let skip = match edge.kind {
                DependencyEdgeKind::ModuleContainment => true,
                DependencyEdgeKind::NestedIn => true,
                _ => false,
            };
            if skip {
                assert(!kept_edge(graphs@[g as int].edges@[kk]));
                continue;
            }
            let source_id = qn_to_id(&edge.from);
            let target_id = qn_to_id(&edge.to);
            if source_id.unicode_len() == 0 || target_id.unicode_len() == 0 {
                assert(!kept_edge(graphs@[g as int].edges@[kk]));
                continue;
            }
            let label = edge_label(edge.kind);
            let ghost es_a = elements@;
            let ghost e_cur = graphs@[g as int].edges@[kk];
            add_node(
                &mut elements,
                &mut added_nodes,
                to_owned_string(source_id.as_str()),
                last_piece(source_id.as_str()),
                to_owned_string("External"),
                None,
            );
            proof {
                lemma_edges_kept(graphs@, es_a, elements@);
                lemma_elements_extend(graphs@, es_a, elements@, added_edges@, g as int, kk);
            }
            let ghost es_b = elements@;
            add_node(
                &mut elements,
                &mut added_nodes,
                to_owned_string(target_id.as_str()),
                last_piece(target_id.as_str()),
                to_owned_string("External"),
                None,
            );
            proof {
                lemma_edges_kept(graphs@, es_b, elements@);
                lemma_elements_extend(graphs@, es_b, elements@, added_edges@, g as int, kk);
                lemma_shown_grow(graphs@, es_a, elements@, g as int, kk);
                assert(has_node_id(elements@, source_id@));
                assert(has_node_id(elements@, target_id@));
                assert(kept_edge(graphs@[g as int].edges@[kk]));
                assert forall|b: int|
                    0 <= b < kk + 1 && kept_edge(#[trigger] graphs@[g as int].edges@[b]) implies has_node_id(
                    elements@,
                    crate::text_util::join_spec(graphs@[g as int].edges@[b].from.deep_view(), "::"@),
                ) && has_node_id(
                    elements@,
                    crate::text_util::join_spec(graphs@[g as int].edges@[b].to.deep_view(), "::"@),
                ) by {
                    if b < kk {
                        assert(has_node_id(es_a, crate::text_util::join_spec(graphs@[g as int].edges@[b].from.deep_view(), "::"@)));
                        assert(has_node_id(es_a, crate::text_util::join_spec(graphs@[g as int].edges@[b].to.deep_view(), "::"@)));
                    }
                }
            }
            let mut sig = chars_of(source_id.as_str());
            let mut arrow = chars_of("->");
            sig.append(&mut arrow);
            let mut t = chars_of(target_id.as_str());
            sig.append(&mut t);
            sig.push(':');
            let mut l = chars_of(label);
            sig.append(&mut l);
            let edge_sig = string_from_chars(&sig);
            proof {
                assert(edge_sig@ == edge_key(source_id@, target_id@, label@));
                lemma_edges_before_mono(graphs@, g as int + 1, graphs@.len() as int);
                assert(edges_before(graphs@, g as int + 1) == edges_before(graphs@, g as int) + graph.edges@.len());
            }
            let is_listed = listed(&added_edges, edge_sig.as_str());
            proof {
                if is_listed && plain_graphs(graphs@) && kept_edge(e_cur) {
                    let a = choose|a: int| 0 <= a < added_edges@.len() && (#[trigger] added_edges@[a])@ == edge_sig@;
                    assert(key_backed(elements@, added_edges@[a]@));
                    let i = choose|i: int|
                        0 <= i < elements@.len() && elements@[i].data is Edge && #[trigger] element_key(elements@[i])
                            == added_edges@[a]@;
                    let el = elements@[i];
                    assert(from_some_edge(graphs@, el));
                    let (ga, kb) = choose|ga: int, kb: int|
                        0 <= ga < graphs@.len() && 0 <= kb < graphs@[ga].edges@.len() && kept_edge(
                            #[trigger] graphs@[ga].edges@[kb],
                        ) && shows_edge(el, graphs@[ga].edges@[kb]);
                    let other = graphs@[ga].edges@[kb];
                    let src = el.data->Edge_source@;
                    let tgt = el.data->Edge_target@;
                    assert(element_key(el) == edge_key(src, tgt, edge_label_spec(other.kind)));
                    assert(no_gt(src));
                    assert(no_gt(source_id@));
                    lemma_edge_key_injective(src, tgt, other.kind, source_id@, target_id@, edge.kind);
                    assert(shows_edge(el, e_cur));
                    assert(edge_shown(elements@, e_cur));
                }
            }
            let ghost keys0 = added_edges@;
            let ghost ek = edge_sig@;
            if !is_listed && global_edge_id < usize::MAX {
                added_edges.push(edge_sig);
                let ghost es0 = elements@;
                let ghost sv = source_id@;
                let ghost tv = target_id@;
                let ghost lv = label@;
                elements.push(
                    CytoscapeElement {
                        data: CytoscapeData::Edge {
                            id: with_decimal("e", global_edge_id),
                            source: source_id,
                            target: target_id,
                            label: to_owned_string(label),
                        },
                    },
                );
                proof {
                    let es = elements@;
                    let m = es0.len() as int;
                    assert forall|x: Seq<char>| has_node_id(es0, x) implies has_node_id(es, x) by {
                        let i = choose|i: int| 0 <= i < es0.len() && is_node_with_id(es0[i], x);
                        assert(es[i] == es0[i]);
                    }
                    assert(has_node_id(es, sv));
                    assert(has_node_id(es, tv));
                    assert forall|i: int, j: int|
                        0 <= i < j < es.len() && (#[trigger] es[i]).data is Node && (#[trigger] es[j]).data is Node
                        implies es[i].data->Node_id@ != es[j].data->Node_id@ by {
                        assert(es[i] == es0[i]);
                        assert(es[j] == es0[j]);
                    }
                    assert forall|i: int| 0 <= i < es.len() && (#[trigger] es[i]).data is Edge implies has_node_id(
                        es,
                        es[i].data->Edge_source@,
                    ) && has_node_id(es, es[i].data->Edge_target@) by {
                        if i < m {
                            assert(es[i] == es0[i]);
                        }
                    }
                    assert forall|i: int| 0 <= i < added_nodes@.len() implies has_node_id(es, (#[trigger] added_nodes@[i])@) by {}
                    assert forall|i: int|
                        0 <= i < es.len() && (#[trigger] es[i]).data is Node implies exists|j: int|
                            0 <= j < added_nodes@.len() && (#[trigger] added_nodes@[j])@ == es[i].data->Node_id@ by {
                        assert(es[i] == es0[i]);
                    }
                    assert(shows_edge(es[m], graphs@[g as int].edges@[kk]));
                    assert(from_some_edge(graphs@, es[m]));
                    assert forall|i: int| 0 <= i < es.len() && (#[trigger] es[i]).data is Edge implies from_some_edge(graphs@, es[i]) by {
                        if i < m {
                            assert(es[i] == es0[i]);
                        }
                    }
                    lemma_shown_grow(graphs@, es0, es, g as int, kk + 1);
                    lemma_elements_extend(graphs@, es0, es, keys0, g as int, kk);
                    assert(element_key(es[m]) == ek);
                    assert forall|a: int| 0 <= a < added_edges@.len() implies key_backed(es, (#[trigger] added_edges@[a])@) by {
                        if a < keys0.len() {
                            assert(added_edges@[a] == keys0[a]);
                            assert(key_backed(es, keys0[a]@));
                        } else {
                            assert(added_edges@[a]@ == ek);
                            assert(es[m].data is Edge);
                        }
                    }
                    assert(edge_shown(es, e_cur));
                    if plain_graphs(graphs@) {
                        assert forall|b: int| 0 <= b < kk + 1 && kept_edge(#[trigger] graphs@[g as int].edges@[b]) implies edge_shown(
                            es,
                            graphs@[g as int].edges@[b],
                        ) by {
                            if b < kk {
                                assert(edge_shown(es0, graphs@[g as int].edges@[b]));
                            }
                        }
                    }
                }
                global_edge_id += 1;
            } else {
                proof {
                    if plain_graphs(graphs@) {
                        lemma_edges_before_mono(graphs@, g as int + 1, graphs@.len() as int);
                        assert(global_edge_id < usize::MAX);
                        assert(is_listed);
                        assert forall|b: int| 0 <= b < kk + 1 && kept_edge(#[trigger] graphs@[g as int].edges@[b]) implies edge_shown(
                            elements@,
                            graphs@[g as int].edges@[b],
                        ) by {
                        }
                    }
                }
            }
        }
        proof {
            assert(edges_before(graphs@, g as int + 1) == edges_before(graphs@, g as int) + graph.edges@.len());
            if plain_graphs(graphs@) {
                assert forall|a: int, b: int|
                    0 <= a < g + 1 && 0 <= b < graphs@[a].edges@.len() && kept_edge(#[trigger] graphs@[a].edges@[b])
                        implies edge_shown(elements@, graphs@[a].edges@[b]) by {
                    if a == g {
                        assert(graphs@[a].edges@[b] == graph.edges@[b]);
                    }
                }
            }
            assert forall|a: int, b: int|
                0 <= a < g + 1 && 0 <= b < graphs@[a].edges@.len() && kept_edge(
                #[trigger] graphs@[a].edges@[b],
            ) implies has_node_id(
                elements@,
                crate::text_util::join_spec(graphs@[a].edges@[b].from.deep_view(), "::"@),
            ) && has_node_id(
                elements@,
                crate::text_util::join_spec(graphs@[a].edges@[b].to.deep_view(), "::"@),
            ) by {
                if a == g {
                    assert(graphs@[a].edges@[b] == graph.edges@[b]);
                }
            }
        }
        g += 1;
    }
    elements
}

} // verus!
