//! Name resolution: lexical substitution into queries, then query evaluation over a scope tree.
pub mod builder;
pub mod built;
pub mod cache;
pub mod evaluated;
pub mod executor;
pub mod primitives;
pub mod registry;
pub mod scope;
pub mod stack;

use crate::config::AnalyzerConfig;
use crate::model::components::Module;
use crate::model::shape::{lemma_same_modules_trans, same_modules};
use primitives::PrimitiveRegistry;
use vstd::prelude::*;

verus! {

/// The complete name resolution: query building, then query execution. Every declaration of
/// the modules keeps its name and place; only type references change: query building turns
/// each non-empty unresolved path into a query, and evaluation keeps every declared type but a
/// query, an unresolved path and the parts of unions, generics and type variables.
pub fn resolve_type_refs(
    modules: Vec<Module>,
    primitives: &PrimitiveRegistry,
    config: &AnalyzerConfig,
) -> (r: Vec<Module>)
    requires
        primitives.wf(),
        config.wf(),
    ensures
        same_modules(modules@, r@),
        exists|mid: Seq<Module>|
            built::built_modules(modules@, mid) && evaluated::evaluated_modules(mid, r@),
{
    let ghost input = modules@;
    let with_queries = builder::build_queries(modules, config);
    let ghost mid = with_queries@;
    let r = executor::execute_queries(with_queries, primitives, config);
    proof {
        lemma_same_modules_trans(input, mid, r@);
    }
    r
}

} // verus!
