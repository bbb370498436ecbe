//! Heuristic extraction of names, types and components from source text and
//! syntax trees.
pub mod annotation_extraction;
pub mod body_extraction;
pub mod classifiers;
pub mod parsers;
pub mod structural_extraction;
pub mod text_parsing;
pub mod type_extraction;

use crate::config::AnalyzerConfig;
use crate::heuristics::annotation_extraction::annotations_spec;
use crate::heuristics::classifiers::structured_type_spec;
use crate::heuristics::parsers::{
    function_node, function_read_from, impl_read_from, import_alias_spec, import_like_kind,
    import_paths, import_wildcard_spec, opt_str_view, structured_read_from,
};
use crate::heuristics::text_parsing::identifier_spec;
use crate::heuristics::type_extraction::type_read_from;
use crate::model::components::{Component, ImplBlock, Import};
use crate::model::queries::{typerefs_view, TypeRef};
use crate::syntax::SyntaxTree;
use vstd::prelude::*;

verus! {

/// What one syntax node contributes to the model.
pub enum ParsedItem {
    Component(Component),
    ImplBlock(ImplBlock),
    Imports(Vec<Import>),
    Attribute(Vec<TypeRef>),
}

/// What a node is taken for, by the first test that it passes, in the order the dispatch
/// tries them.
pub enum NodeKind {
    Imports,
    Attribute,
    Module,
    StructuredType,
    Function,
    ImplBlock,
    TypeAlias,
    /// A free variable, or nothing.
    Other,
}

/// What a node is taken for: imports; an attribute item with annotations; a module (where the
/// language has inline modules or namespaces); a structured type; a function; an
/// implementation block (where the language has them); a type alias; otherwise a free
/// variable or nothing.
pub open spec fn node_kind(tree: SyntaxTree, node: int, lang_name: Seq<char>, config: AnalyzerConfig) -> NodeKind {
    let lc = config.strategy_for(lang_name);
    let k = tree.kind_of(node);
    if import_like_kind(k) && import_paths(tree, node).len() > 0 {
        NodeKind::Imports
    } else if k == "attribute_item"@ && annotations_spec(tree, node).len() > 0 {
        NodeKind::Attribute
    } else if (lc.modules.inline_mod_based || lc.modules.namespace_based) && tree.named_of(node)
        && crate::heuristics::classifiers::module_kind(k) {
        NodeKind::Module
    } else if structured_type_spec(tree, node) {
        NodeKind::StructuredType
    } else if crate::heuristics::classifiers::function_spec(tree, node) {
        NodeKind::Function
    } else if lc.support_impl_blocks && tree.named_of(node) && (k == "impl_item"@ || k == "impl_block"@) {
        NodeKind::ImplBlock
    } else if tree.named_of(node) && (crate::heuristics::classifiers::alias_kind(k) || (k == "type_definition"@
        && !structured_type_spec(tree, node))) && identifier_spec(tree, node) is Some {
        NodeKind::TypeAlias
    } else {
        NodeKind::Other
    }
}

/// Whether the dispatch's result is of the kind the node is taken for.
pub open spec fn dispatch_agrees(kind: NodeKind, r: Option<ParsedItem>) -> bool {
    match kind {
        NodeKind::Imports => r matches Some(ParsedItem::Imports(_)),
        NodeKind::Attribute => r matches Some(ParsedItem::Attribute(_)),
        NodeKind::Module => r matches Some(ParsedItem::Component(Component::Module(_))),
        NodeKind::StructuredType => r matches Some(ParsedItem::Component(Component::StructuredType(_))),
        NodeKind::Function => r matches Some(ParsedItem::Component(Component::Function(_))),
        NodeKind::ImplBlock => r matches Some(ParsedItem::ImplBlock(_)),
        NodeKind::TypeAlias => r matches Some(ParsedItem::Component(Component::TypeAlias(_))),
        NodeKind::Other => r is None || r matches Some(ParsedItem::Component(Component::Field(_, _))),
    }
}

/// Identifies what a node is and parses it, trying in turn: imports, an attribute
/// item, a module (where the language has inline modules or namespaces), a
/// structured type, a function, an implementation block (where the language has
/// them), a type alias and a free variable.
pub fn dispatch_node(
    tree: &SyntaxTree,
    node: usize,
    lang_name: &str,
    config: &AnalyzerConfig,
) -> (r: Option<ParsedItem>)
    requires
        tree.wf(),
        node < tree.size(),
        config.wf(),
    ensures
        (r matches Some(ParsedItem::Imports(_))) <==> import_like_kind(tree.kind_of(node as int))
            && import_paths(*tree, node as int).len() > 0,
        r matches Some(ParsedItem::Imports(v)) ==> v@.len() > 0,
        r matches Some(ParsedItem::Imports(v)) ==> v@.len() == import_paths(*tree, node as int).len()
            && forall|k: int|
            0 <= k < v@.len() ==> (#[trigger] v@[k]).path.deep_view() == import_paths(
                *tree,
                node as int,
            )[k] && v@[k].is_wildcard == import_wildcard_spec(tree.text_of(node as int))
                && opt_str_view(v@[k].alias) == import_alias_spec(tree.text_of(node as int)),
        r matches Some(ParsedItem::Attribute(a)) ==> a@.len() > 0 && tree.kind_of(node as int)
            == "attribute_item"@,
        r matches Some(ParsedItem::Attribute(a)) ==> typerefs_view(a@) == annotations_spec(
            *tree,
            node as int,
        ),
        r matches Some(ParsedItem::Component(Component::StructuredType(st))) ==> structured_read_from(
            *tree,
            node as int,
            st,
        ),
        r matches Some(ParsedItem::Component(Component::Function(f))) ==> function_read_from(
            *tree,
            function_node(*tree, node as int),
            f,
        ),
        r matches Some(ParsedItem::ImplBlock(b)) ==> impl_read_from(*tree, node as int, b),
        r matches Some(ParsedItem::Component(Component::TypeAlias(ta))) ==> Some(ta.name@[0]@)
            == identifier_spec(*tree, node as int) && type_read_from(*tree, node as int, ta.target@),
        r matches Some(ParsedItem::Component(Component::Field(name, ty))) ==> name@.len() == 1
            && Some(name@[0]@) == identifier_spec(*tree, node as int) && type_read_from(
            *tree,
            node as int,
            ty@,
        ),
        r is None ==> !structured_type_spec(*tree, node as int),
        r matches Some(ParsedItem::Component(Component::Module(m))) ==> (config.strategy_for(
            lang_name@,
        ).modules.inline_mod_based || config.strategy_for(lang_name@).modules.namespace_based),
        r matches Some(ParsedItem::ImplBlock(b)) ==> config.strategy_for(
            lang_name@,
        ).support_impl_blocks,
        dispatch_agrees(node_kind(*tree, node as int, lang_name@, *config), r),
{
    proof {
        reveal_strlit("attribute_item");
        reveal_strlit("impl_item");
        reveal_strlit("impl_block");
        reveal_strlit("type_definition");
    }
    if let Some(imports) = parsers::try_parse_imports(tree, node) {
        return Some(ParsedItem::Imports(imports));
    }
    if crate::text_util::str_eq(tree.kind(node), "attribute_item") {
        let attrs = annotation_extraction::extract_annotations(tree, node);
        if attrs.len() > 0 {
            return Some(ParsedItem::Attribute(attrs));
        }
    }
    let lang_config = config.get_for(lang_name);
    if lang_config.modules.inline_mod_based || lang_config.modules.namespace_based {
        if let Some(m) = parsers::try_parse_module_node(tree, node, lang_name) {
            return Some(ParsedItem::Component(Component::Module(m)));
        }
    }
    if let Some(st) = parsers::try_parse_structured_type(tree, node, lang_name, config) {
        return Some(ParsedItem::Component(Component::StructuredType(st)));
    }
    if let Some(ff) = parsers::try_parse_function(tree, node) {
        return Some(ParsedItem::Component(Component::Function(ff)));
    }
    if lang_config.support_impl_blocks {
        if let Some(implb) = parsers::try_parse_impl_block(tree, node, lang_name, config) {
            return Some(ParsedItem::ImplBlock(implb));
        }
    }
    if let Some(ta) = parsers::try_parse_type_alias(tree, node) {
        return Some(ParsedItem::Component(Component::TypeAlias(ta)));
    }
    if let Some(fv) = parsers::try_parse_free_variable(tree, node) {
        let name = vec![fv.name];
        return Some(ParsedItem::Component(Component::Field(name, fv.ty)));
    }
    None
}

} // verus!
