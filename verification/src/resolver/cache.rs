//! Memoisation of resolution results, isolated per scope.
use crate::assoc::AssocMap;
use crate::model::components::QualifiedNameV;
use crate::model::queries::{clone_qn, QualifiedName};
use crate::text_util::{join_spec, join_strings, to_owned_string};
use vstd::prelude::*;

verus! {

/// Where a name was found: inside the analysed workspace, or outside it.
#[derive(Debug, PartialEq)]
pub enum ResolutionResult {
    Local(QualifiedName),
    External(QualifiedName),
}

pub enum ResolutionResultV {
    Local(QualifiedNameV),
    External(QualifiedNameV),
}

impl View for ResolutionResult {
    type V = ResolutionResultV;

    open spec fn view(&self) -> ResolutionResultV {
        match *self {
            ResolutionResult::Local(q) => ResolutionResultV::Local(q.deep_view()),
            ResolutionResult::External(q) => ResolutionResultV::External(q.deep_view()),
        }
    }
}

impl ResolutionResult {
    /// A copy with the same value.
    pub fn duplicate(&self) -> (r: ResolutionResult)
        ensures
            r@ == self@,
    {
        match self {
            ResolutionResult::Local(q) => ResolutionResult::Local(clone_qn(q)),
            ResolutionResult::External(q) => ResolutionResult::External(clone_qn(q)),
        }
    }
}

/// The key of a scope: its path joined by `::`, or `GLOBAL_ROOT` for the empty path.
pub open spec fn scope_key_spec(prefix: Seq<Seq<char>>) -> Seq<char> {
    if prefix.len() == 0 {
        "GLOBAL_ROOT"@
    } else {
        join_spec(prefix, "::"@)
    }
}

/// Memoised resolution results, keyed by scope and then by the name looked up.
pub struct ResolutionCache {
    store: AssocMap<String, AssocMap<QualifiedName, ResolutionResult>>,
}

impl ResolutionCache {
    pub closed spec fn wf(&self) -> bool {
        &&& self.store.wf()
        &&& forall|k: Seq<char>| #[trigger] self.store.map().dom().contains(k) ==> self.store.map()[k].wf()
    }

    /// The memoised results: scope key to (name to result).
    pub closed spec fn view_map(&self) -> Map<Seq<char>, Map<QualifiedNameV, ResolutionResultV>> {
        Map::new(
            |k: Seq<char>| self.store.map().dom().contains(k),
            |k: Seq<char>| self.store.map()[k].map().map_values(|r: ResolutionResult| r@),
        )
    }

    pub closed spec fn inv(&self) -> bool {
        self.wf()
    }

    /// An empty cache.
    pub fn new() -> (r: ResolutionCache)
        ensures
            r.inv(),
            r.view_map() == Map::<Seq<char>, Map<QualifiedNameV, ResolutionResultV>>::empty(),
    {
        let r = ResolutionCache { store: AssocMap::new() };
        assert(r.view_map() =~= Map::<Seq<char>, Map<QualifiedNameV, ResolutionResultV>>::empty());
        r
    }

    /// The key of the scope with the given path.
    fn scope_key(prefix: &Vec<String>) -> (r: String)
        ensures
            r@ == scope_key_spec(prefix.deep_view()),
    {
        if prefix.len() == 0 {
            to_owned_string("GLOBAL_ROOT")
        } else {
            join_strings(prefix, "::")
        }
    }

    /// The memoised result for `name` in the scope with path `current_prefix`.
    pub fn get(&self, current_prefix: &Vec<String>, name: &QualifiedName) -> (r: Option<ResolutionResult>)
        requires
            self.inv(),
        ensures
            match r {
                Some(res) => {
                    &&& self.view_map().dom().contains(scope_key_spec(current_prefix.deep_view()))
                    &&& self.view_map()[scope_key_spec(current_prefix.deep_view())].dom().contains(name.deep_view())
                    &&& self.view_map()[scope_key_spec(current_prefix.deep_view())][name.deep_view()] == res@
                },
                None => !(self.view_map().dom().contains(scope_key_spec(current_prefix.deep_view()))
                    && self.view_map()[scope_key_spec(current_prefix.deep_view())].dom().contains(name.deep_view())),
            },
    {
        let key = Self::scope_key(current_prefix);
        match self.store.get(&key) {
            Some(scope_cache) => match scope_cache.get(name) {
                Some(res) => Some(res.duplicate()),
                None => None,
            },
            None => None,
        }
    }

    /// Memoises `res` for `name` in the scope with path `current_prefix`.
    pub fn insert(&mut self, current_prefix: &Vec<String>, name: QualifiedName, res: ResolutionResult)
        requires
            old(self).inv(),
        ensures
            final(self).inv(),
            final(self).view_map() == old(self).view_map().insert(
                scope_key_spec(current_prefix.deep_view()),
                if old(self).view_map().dom().contains(scope_key_spec(current_prefix.deep_view())) {
                    old(self).view_map()[scope_key_spec(current_prefix.deep_view())].insert(name.deep_view(), res@)
                } else {
                    Map::<QualifiedNameV, ResolutionResultV>::empty().insert(name.deep_view(), res@)
                },
            ),
    {
        let key = Self::scope_key(current_prefix);
        let ghost kv = key@;
        let ghost nv = name.deep_view();
        let ghost rv = res@;
        let mut inner = match self.store.take_value(&key) {
            Some(m) => m,
            None => AssocMap::new(),
        };
        inner.insert(name, res);
        self.store.insert(key, inner);
        proof {
            let target = old(self).view_map().insert(
                kv,
                if old(self).view_map().dom().contains(kv) {
                    old(self).view_map()[kv].insert(nv, rv)
                } else {
                    Map::<QualifiedNameV, ResolutionResultV>::empty().insert(nv, rv)
                },
            );
            assert forall|k: Seq<char>| #[trigger] self.store.map().dom().contains(k) implies self.store.map()[k].wf() by {
                if k != kv {
                    assert(old(self).store.map().dom().contains(k));
                }
            }
            assert(self.view_map().dom() =~= target.dom());
            assert forall|k: Seq<char>| #[trigger] self.view_map().dom().contains(k) implies self.view_map()[k] == target[k] by {
                if k == kv {
                    assert(self.view_map()[k] =~= target[k]);
                }
            }
            assert(self.view_map() =~= target);
        }
    }
}

} // verus!
