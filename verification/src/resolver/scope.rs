//! The scope tree: an arena of lexical scopes (modules, types, functions, blocks) built from
//! the extracted modules, in which queries are later evaluated.
use crate::assoc::{qn_eq, AssocMap};
use crate::config::AnalyzerConfig;
use crate::model::components::{
    clone_opt_string, opt_str_view, Block, Function, ImplBlock, Import, Module, StructuredType,
};
use crate::model::queries::{clone_typerefs, TypeRef};
use crate::resolver::executor::extract_base_name;
use crate::text_util::{str_eq, str_starts_with, with_decimal};
use vstd::prelude::*;

verus! {

/// Index of a scope in the arena of a [`ScopeTree`].
pub type ScopeId = usize;

/// What a name is bound to in a scope.
pub enum Symbol {
    /// A submodule, with the scope it opens.
    Module(ScopeId),
    /// A structured type (or a type parameter), with the scope it opens.
    Type(ScopeId),
    /// A type alias, with its target.
    TypeAlias(TypeRef),
    /// A variable, parameter, field or function, with its type (a function's return type).
    Value(TypeRef),
}

impl Symbol {
    /// A copy equal in value to `self`.
    pub fn duplicate(&self) -> (r: Symbol)
        ensures
            symbol_same(r, *self),
    {
        match self {
            Symbol::Module(id) => Symbol::Module(*id),
            Symbol::Type(id) => Symbol::Type(*id),
            Symbol::TypeAlias(t) => Symbol::TypeAlias(t.duplicate()),
            Symbol::Value(t) => Symbol::Value(t.duplicate()),
        }
    }
}

/// Two symbols of the same kind, the same scope or a type of the same value.
pub open spec fn symbol_same(a: Symbol, b: Symbol) -> bool {
    match (a, b) {
        (Symbol::Module(x), Symbol::Module(y)) => x == y,
        (Symbol::Type(x), Symbol::Type(y)) => x == y,
        (Symbol::TypeAlias(x), Symbol::TypeAlias(y)) => x@ == y@,
        (Symbol::Value(x), Symbol::Value(y)) => x@ == y@,
        _ => false,
    }
}

/// One lexical environment of the tree.
pub struct Scope {
    pub id: ScopeId,
    pub parent: Option<ScopeId>,
    pub name: String,
    pub symbols: AssocMap<String, Symbol>,
    pub imports: Vec<Import>,
    pub super_types: Vec<TypeRef>,
    pub is_module: bool,
    pub language: Option<String>,
    pub type_parameters: Vec<String>,
    pub is_phantom: bool,
    pub children: Vec<ScopeId>,
    pub children_by_name: AssocMap<String, Vec<ScopeId>>,
}

/// The scope tree: scopes in an arena, the root at index 0.
pub struct ScopeTree {
    pub arena: Vec<Scope>,
    pub root: ScopeId,
    pub pending_impl_blocks: Vec<(ImplBlock, ScopeId, String)>,
    pub type_scopes_by_name: AssocMap<String, Vec<ScopeId>>,
}

/// A symbol names no scope outside the first `n`.
pub open spec fn symbol_in_bounds(s: Symbol, n: int) -> bool {
    match s {
        Symbol::Module(id) => id < n,
        Symbol::Type(id) => id < n,
        _ => true,
    }
}

/// Every id of the list is below `n`.
pub open spec fn ids_in_bounds(v: Seq<usize>, n: int) -> bool {
    forall|j: int| 0 <= j < v.len() ==> #[trigger] v[j] < n
}

/// Scope `s` is well placed at index `i` of an arena of `n` scopes: it knows its index, its
/// parent comes before it (the root, at 0, has none), its maps have distinct keys, and every
/// scope it points to exists.
pub open spec fn scope_wf(s: Scope, i: int, n: int) -> bool {
    &&& s.id == i
    &&& (if i == 0 {
        s.parent is None
    } else {
        s.parent matches Some(p) && p < i
    })
    &&& s.symbols.wf()
    &&& forall|k: Seq<char>|
        s.symbols.map().dom().contains(k) ==> symbol_in_bounds(#[trigger] s.symbols.map()[k], n)
    &&& s.children_by_name.wf()
    &&& forall|k: Seq<char>|
        s.children_by_name.map().dom().contains(k) ==> ids_in_bounds(
            #[trigger] s.children_by_name.map()[k]@,
            n,
        )
    &&& ids_in_bounds(s.children@, n)
}

pub proof fn lemma_scope_wf_grow(s: Scope, i: int, n: int, m: int)
    requires
        scope_wf(s, i, n),
        n <= m,
    ensures
        scope_wf(s, i, m),
{
    assert forall|k: Seq<char>| s.symbols.map().dom().contains(k) implies symbol_in_bounds(
        #[trigger] s.symbols.map()[k],
        m,
    ) by {
        assert(symbol_in_bounds(s.symbols.map()[k], n));
    }
    assert forall|k: Seq<char>| s.children_by_name.map().dom().contains(k) implies ids_in_bounds(
        #[trigger] s.children_by_name.map()[k]@,
        m,
    ) by {
        assert(ids_in_bounds(s.children_by_name.map()[k]@, n));
    }
}

/// Whether a scope's name is part of the paths it contributes to (block scopes and the root
/// are not).
pub open spec fn path_included(name: Seq<char>) -> bool {
    !("block"@.len() <= name.len() && name.take("block"@.len() as int) == "block"@) && name
        != "root"@
}

/// The path of a scope: the names of the scopes from the root down to it, blocks and the root
/// left out.
pub open spec fn scope_path(arena: Seq<Scope>, id: int) -> Seq<Seq<char>>
    decreases id,
{
    if 0 <= id < arena.len() {
        let s = arena[id];
        let prefix = match s.parent {
            Some(p) => if p < id {
                scope_path(arena, p as int)
            } else {
                Seq::empty()
            },
            None => Seq::empty(),
        };
        if path_included(s.name@) {
            prefix.push(s.name@)
        } else {
            prefix
        }
    } else {
        Seq::empty()
    }
}

/// The ids under `k`, none when `k` is absent.
pub open spec fn ids_under(m: Map<Seq<char>, Vec<ScopeId>>, k: Seq<char>) -> Seq<ScopeId> {
    if m.dom().contains(k) {
        m[k]@
    } else {
        Seq::empty()
    }
}

/// A fresh scope, with nothing bound in it.
pub open spec fn is_fresh_scope(s: Scope, id: int, parent: Option<ScopeId>, name: Seq<char>) -> bool {
    &&& s.id == id
    &&& s.parent == parent
    &&& s.name@ == name
    &&& s.symbols.map() == Map::<Seq<char>, Symbol>::empty()
    &&& s.symbols.wf()
    &&& s.imports@.len() == 0
    &&& s.super_types@.len() == 0
    &&& !s.is_module
    &&& s.language is None
    &&& s.type_parameters@.len() == 0
    &&& !s.is_phantom
    &&& s.children@.len() == 0
    &&& s.children_by_name.map() == Map::<Seq<char>, Vec<ScopeId>>::empty()
    &&& s.children_by_name.wf()
}

/// A scope with the same fields as `s`, but for its bound symbols.
pub open spec fn same_but_symbols(a: Scope, b: Scope) -> bool {
    &&& a.id == b.id
    &&& a.parent == b.parent
    &&& a.name == b.name
    &&& a.imports == b.imports
    &&& a.super_types == b.super_types
    &&& a.is_module == b.is_module
    &&& a.language == b.language
    &&& a.type_parameters == b.type_parameters
    &&& a.is_phantom == b.is_phantom
    &&& a.children == b.children
    &&& a.children_by_name == b.children_by_name
}

/// A scope with the same fields as `s`, but for its children.
pub open spec fn same_but_children(a: Scope, b: Scope) -> bool {
    &&& a.id == b.id
    &&& a.parent == b.parent
    &&& a.name == b.name
    &&& a.symbols == b.symbols
    &&& a.imports == b.imports
    &&& a.super_types == b.super_types
    &&& a.is_module == b.is_module
    &&& a.language == b.language
    &&& a.type_parameters == b.type_parameters
    &&& a.is_phantom == b.is_phantom
}

fn fresh_scope(id: ScopeId, parent: Option<ScopeId>, name: String) -> (r: Scope)
    ensures
        is_fresh_scope(r, id as int, parent, name@),
{
    Scope {
        id,
        parent,
        name,
        symbols: AssocMap::new(),
        imports: Vec::new(),
        super_types: Vec::new(),
        is_module: false,
        language: None,
        type_parameters: Vec::new(),
        is_phantom: false,
        children: Vec::new(),
        children_by_name: AssocMap::new(),
    }
}

/// Appends `id` to the list under `k`, starting one when `k` has none.
fn push_id_under(m: &mut AssocMap<String, Vec<ScopeId>>, k: &String, id: ScopeId)
    requires
        old(m).wf(),
    ensures
        final(m).wf(),
        final(m).map().dom() == old(m).map().dom().insert(k@),
        final(m).map()[k@]@ == ids_under(old(m).map(), k@).push(id),
        forall|j: Seq<char>| j != k@ ==> #[trigger] final(m).map().dom().contains(j) ==> final(m).map()[j]
            == old(m).map()[j],
{
    match m.take_value(k) {
        Some(v) => {
            let mut v = v;
            v.push(id);
            m.insert(k.clone(), v);
        },
        None => {
            let mut v: Vec<ScopeId> = Vec::new();
            v.push(id);
            m.insert(k.clone(), v);
        },
    }
}

/// Scope `i` is among the children of its parent, also under its name.
pub open spec fn listed_by_parent(arena: Seq<Scope>, i: int) -> bool {
    arena[i].parent matches Some(p) && 0 <= p < arena.len() && arena[p as int].children@.contains(i as ScopeId)
        && ids_under(arena[p as int].children_by_name.map(), arena[i].name@).contains(i as ScopeId)
}

impl ScopeTree {
    /// The tree is well formed: a root module at index 0, every scope well placed and listed by
    /// its parent among its children (also by name), every recorded scope id in the arena.
    pub open spec fn wf(&self) -> bool {
        &&& self.arena@.len() > 0
        &&& self.root == 0
        &&& forall|i: int|
            0 <= i < self.arena@.len() ==> #[trigger] scope_wf(
                self.arena@[i],
                i,
                self.arena@.len() as int,
            )
        &&& self.type_scopes_by_name.wf()
        &&& forall|k: Seq<char>|
            self.type_scopes_by_name.map().dom().contains(k) ==> ids_in_bounds(
                #[trigger] self.type_scopes_by_name.map()[k]@,
                self.arena@.len() as int,
            )
        &&& forall|j: int|
            0 <= j < self.pending_impl_blocks@.len() ==> #[trigger] self.pending_impl_blocks@[j].1
                < self.arena@.len()
        &&& self.arena@[0].is_module
        &&& forall|i: int| 0 < i < self.arena@.len() ==> #[trigger] listed_by_parent(self.arena@, i)
    }

    /// The number of scopes.
    pub open spec fn len(&self) -> int {
        self.arena@.len() as int
    }

    /// A tree holding the root scope alone.
    pub fn new_root() -> (r: ScopeTree)
        ensures
            r.wf(),
            r.arena@.len() == 1,
            r.arena@[0].is_module,
            r.arena@[0].name@ == "root"@,
            r.arena@[0].parent is None,
            r.arena@[0].symbols.map() == Map::<Seq<char>, Symbol>::empty(),
            r.arena@[0].children@.len() == 0,
            r.pending_impl_blocks@.len() == 0,
            r.type_scopes_by_name.map() == Map::<Seq<char>, Vec<ScopeId>>::empty(),
    {
        let mut root = fresh_scope(0, None, "root".to_string());
        root.is_module = true;
        let mut arena: Vec<Scope> = Vec::new();
        arena.push(root);
        let r = ScopeTree {
            arena,
            root: 0,
            pending_impl_blocks: Vec::new(),
            type_scopes_by_name: AssocMap::new(),
        };
        assert(scope_wf(r.arena@[0], 0, 1));
        r
    }

    /// Creates a child scope named `name` under `parent` and returns its id (the arena's former
    /// length); the parent lists it among its children, also by name.
    pub fn new_scope(&mut self, parent: ScopeId, name: String) -> (id: ScopeId)
        requires
            old(self).wf(),
            parent < old(self).len(),
        ensures
            final(self).wf(),
            id == old(self).len(),
            final(self).len() == old(self).len() + 1,
            is_fresh_scope(final(self).arena@[id as int], id as int, Some(parent), name@),
            forall|i: int|
                0 <= i < old(self).len() && i != parent ==> #[trigger] final(self).arena@[i]
                    == old(self).arena@[i],
            same_but_children(final(self).arena@[parent as int], old(self).arena@[parent as int]),
            final(self).arena@[parent as int].children@ == old(self).arena@[parent as int].children@.push(
                id,
            ),
            final(self).arena@[parent as int].children_by_name.map().dom() == old(
                self,
            ).arena@[parent as int].children_by_name.map().dom().insert(name@),
            final(self).arena@[parent as int].children_by_name.map()[name@]@ == ids_under(
                old(self).arena@[parent as int].children_by_name.map(),
                name@,
            ).push(id),
            forall|k: Seq<char>|
                k != name@ && #[trigger] final(self).arena@[parent as int].children_by_name.map().dom().contains(k)
                    ==> final(self).arena@[parent as int].children_by_name.map()[k] == old(
                    self,
                ).arena@[parent as int].children_by_name.map()[k],
            final(self).root == old(self).root,
            final(self).pending_impl_blocks == old(self).pending_impl_blocks,
            final(self).type_scopes_by_name == old(self).type_scopes_by_name,
    {
        let id = self.arena.len();
        let key = name.clone();
        let s = fresh_scope(id, Some(parent), name);
        self.arena.push(s);
        let ghost mid = self.arena@;
        assert(scope_wf(old(self).arena@[parent as int], parent as int, old(self).len()));
        assert(self.arena@[parent as int] == old(self).arena@[parent as int]);
        {
            let ps = &mut self.arena[parent];
            ps.children.push(id);
            push_id_under(&mut ps.children_by_name, &key, id);
        }
        proof {
            let n = self.arena@.len() as int;
            assert forall|i: int| 0 <= i < n implies #[trigger] scope_wf(self.arena@[i], i, n) by {
                if i < n - 1 {
                    assert(scope_wf(old(self).arena@[i], i, n - 1));
                    lemma_scope_wf_grow(old(self).arena@[i], i, n - 1, n);
                    if i == parent {
                        let s = self.arena@[i];
                        let o = old(self).arena@[i];
                        assert forall|k: Seq<char>|
                            s.children_by_name.map().dom().contains(k) implies ids_in_bounds(
                            #[trigger] s.children_by_name.map()[k]@,
                            n,
                        ) by {
                            if k != key@ {
                                assert(ids_in_bounds(o.children_by_name.map()[k]@, n - 1));
                            } else {
                                if o.children_by_name.map().dom().contains(k) {
                                    assert(ids_in_bounds(o.children_by_name.map()[k]@, n - 1));
                                }
                                assert(s.children_by_name.map()[k]@ == ids_under(
                                    o.children_by_name.map(),
                                    k,
                                ).push(id));
                            }
                        }
                        assert(ids_in_bounds(s.children@, n));
                    }
                } else {
                    assert(self.arena@[i] == mid[i]);
                }
            }
            assert forall|k: Seq<char>|
                self.type_scopes_by_name.map().dom().contains(k) implies ids_in_bounds(
                #[trigger] self.type_scopes_by_name.map()[k]@,
                n,
            ) by {
                assert(ids_in_bounds(old(self).type_scopes_by_name.map()[k]@, n - 1));
            }
            assert forall|j: int| 0 <= j < self.pending_impl_blocks@.len() implies #[trigger] self.pending_impl_blocks@[j].1
                < n by {
                assert(old(self).pending_impl_blocks@[j].1 < n - 1);
            }
            let po = old(self).arena@[parent as int];
            let pn = self.arena@[parent as int];
            assert forall|k: int| 0 < k < n implies #[trigger] listed_by_parent(self.arena@, k) by {
                if k == n - 1 {
                    assert(self.arena@[k].parent == Some(parent));
                    assert(pn.children@.last() == id);
                    assert(pn.children_by_name.map()[key@]@.last() == id);
                    assert(self.arena@[k].name@ == key@);
                } else {
                    assert(listed_by_parent(old(self).arena@, k));
                    if k != parent {
                        assert(self.arena@[k] == old(self).arena@[k]);
                    }
                    assert(self.arena@[k].parent == old(self).arena@[k].parent);
                    assert(self.arena@[k].name == old(self).arena@[k].name);
                    let p = old(self).arena@[k].parent->Some_0;
                    if p == parent {
                        let j = choose|j: int| 0 <= j < po.children@.len() && po.children@[j] == k as ScopeId;
                        assert(pn.children@[j] == k as ScopeId);
                        let nm = self.arena@[k].name@;
                        let ol = ids_under(po.children_by_name.map(), nm);
                        let j2 = choose|j2: int| 0 <= j2 < ol.len() && ol[j2] == k as ScopeId;
                        if nm == key@ {
                            assert(pn.children_by_name.map()[nm]@ == ol.push(id));
                            assert(ids_under(pn.children_by_name.map(), nm)[j2] == k as ScopeId);
                        } else {
                            assert(po.children_by_name.map().dom().contains(nm));
                            assert(pn.children_by_name.map().dom().contains(nm));
                            assert(pn.children_by_name.map()[nm] == po.children_by_name.map()[nm]);
                            assert(ids_under(pn.children_by_name.map(), nm)[j2] == k as ScopeId);
                        }
                    } else {
                        assert(self.arena@[p as int] == old(self).arena@[p as int]);
                    }
                }
            }
        }
        id
    }

    /// Binds `name` to `symbol` in scope `scope_id`, replacing any earlier binding of it there.
    pub fn define_symbol(&mut self, scope_id: ScopeId, name: String, symbol: Symbol)
        requires
            old(self).wf(),
            scope_id < old(self).len(),
            symbol_in_bounds(symbol, old(self).len()),
        ensures
            final(self).wf(),
            final(self).len() == old(self).len(),
            final(self).arena@[scope_id as int].symbols.map() == old(
                self,
            ).arena@[scope_id as int].symbols.map().insert(name@, symbol),
            same_but_symbols(final(self).arena@[scope_id as int], old(self).arena@[scope_id as int]),
            forall|i: int|
                0 <= i < old(self).len() && i != scope_id ==> #[trigger] final(self).arena@[i]
                    == old(self).arena@[i],
            final(self).root == old(self).root,
            final(self).pending_impl_blocks == old(self).pending_impl_blocks,
            final(self).type_scopes_by_name == old(self).type_scopes_by_name,
    {
        assert(scope_wf(old(self).arena@[scope_id as int], scope_id as int, old(self).len()));
        {
            let s = &mut self.arena[scope_id];
            s.symbols.insert(name, symbol);
        }
        proof {
            let n = self.arena@.len() as int;
            assert forall|k: int| 0 < k < n implies #[trigger] listed_by_parent(self.arena@, k) by {
                assert(listed_by_parent(old(self).arena@, k));
                let p = old(self).arena@[k].parent->Some_0;
                assert(self.arena@[p as int].children == old(self).arena@[p as int].children);
                assert(self.arena@[p as int].children_by_name == old(self).arena@[p as int].children_by_name);
            }
            assert forall|i: int| 0 <= i < n implies #[trigger] scope_wf(self.arena@[i], i, n) by {
                assert(scope_wf(old(self).arena@[i], i, n));
                if i == scope_id {
                    let s = self.arena@[i];
                    let o = old(self).arena@[i];
                    assert forall|k: Seq<char>| s.symbols.map().dom().contains(k) implies symbol_in_bounds(
                        #[trigger] s.symbols.map()[k],
                        n,
                    ) by {
                        if k != name@ {
                            assert(symbol_in_bounds(o.symbols.map()[k], n));
                        }
                    }
                }
            }
        }
    }

    /// The path of scope `id`: the names from the root down to it, block scopes and the root
    /// left out.
    pub fn build_path_from_scope(&self, id: ScopeId) -> (r: Vec<String>)
        requires
            self.wf(),
            id < self.len(),
        ensures
            r.deep_view() == scope_path(self.arena@, id as int),
    {
        let mut acc: Vec<String> = Vec::new();
        let mut curr: Option<ScopeId> = Some(id);
        while curr.is_some()
            invariant
                self.wf(),
                match curr {
                    Some(c) => c < self.len() && scope_path(self.arena@, id as int) == scope_path(
                        self.arena@,
                        c as int,
                    ) + acc.deep_view(),
                    None => scope_path(self.arena@, id as int) == acc.deep_view(),
                },
            decreases match curr {
                Some(c) => c + 1,
                None => 0,
            },
        {
            let c = curr.unwrap();
            let ghost before = acc.deep_view();
            let s = &self.arena[c];
            assert(scope_wf(self.arena@[c as int], c as int, self.len()));
            let keep = !str_starts_with(s.name.as_str(), "block") && !str_eq(
                s.name.as_str(),
                "root",
            );
            if keep {
                acc.insert(0, s.name.clone());
                assert(acc.deep_view() =~= seq![s.name@] + before);
            }
            curr = s.parent;
            proof {
                match curr {
                    Some(p) => {
                        assert(scope_path(self.arena@, c as int) == (if keep {
                            scope_path(self.arena@, p as int).push(s.name@)
                        } else {
                            scope_path(self.arena@, p as int)
                        }));
                        if keep {
                            assert(scope_path(self.arena@, p as int).push(s.name@) + before
                                =~= scope_path(self.arena@, p as int) + acc.deep_view());
                        }
                    },
                    None => {
                        if keep {
                            assert(scope_path(self.arena@, c as int) =~= seq![s.name@]);
                        } else {
                            assert(scope_path(self.arena@, c as int) =~= Seq::<Seq<char>>::empty());
                        }
                        assert(scope_path(self.arena@, c as int) + before =~= acc.deep_view());
                    },
                }
            }
        }
        acc
    }
}

/// Every scope that existed before, but `p`, is as it was.
pub open spec fn others_kept(old: ScopeTree, new: ScopeTree, p: int) -> bool {
    forall|i: int| 0 <= i < old.len() && i != p ==> #[trigger] new.arena@[i] == old.arena@[i]
}

/// Two scopes alike in all but their bound symbols and their children.
pub open spec fn same_core(a: Scope, b: Scope) -> bool {
    &&& a.id == b.id
    &&& a.parent == b.parent
    &&& a.name == b.name
    &&& a.imports == b.imports
    &&& a.super_types == b.super_types
    &&& a.is_module == b.is_module
    &&& a.language == b.language
    &&& a.type_parameters == b.type_parameters
    &&& a.is_phantom == b.is_phantom
}

/// Every name bound in `a` is bound in `b`.
pub open spec fn symbols_grow(a: Scope, b: Scope) -> bool {
    forall|k: Seq<char>| a.symbols.map().dom().contains(k) ==> #[trigger] b.symbols.map().dom().contains(k)
}

/// The child scope `c` was added under `p` (its children list gained `c`), and `p` is
/// otherwise as it was.
pub open spec fn child_added(old: ScopeTree, new: ScopeTree, p: int, c: int) -> bool {
    &&& same_but_children(new.arena@[p], old.arena@[p])
    &&& new.arena@[p].children@ == old.arena@[p].children@.push(c as ScopeId)
}

/// Whether a method is bound under its name in its type's scope: it is no constructor, is not
/// named as the type, and is no destructor (`~...`).
pub open spec fn bound_as_method(m: Function, owner: Seq<char>) -> bool {
    let n = last_name(m.name.deep_view());
    !m.is_constructor && n != owner && !("~"@.len() <= n.len() && n.take("~"@.len() as int) == "~"@)
}

/// The type scopes recorded by name only grow: every list keeps what it held, in front.
pub open spec fn type_scopes_grow(old: ScopeTree, new: ScopeTree) -> bool {
    forall|k: Seq<char>|
        #[trigger] old.type_scopes_by_name.map().dom().contains(k) ==> new.type_scopes_by_name.map().dom().contains(k)
            && old.type_scopes_by_name.map()[k]@.len() <= new.type_scopes_by_name.map()[k]@.len()
            && new.type_scopes_by_name.map()[k]@.take(old.type_scopes_by_name.map()[k]@.len() as int)
            == old.type_scopes_by_name.map()[k]@
}

/// Scope `id` is recorded among the type scopes named `name`.
pub open spec fn lists_type_scope(t: ScopeTree, name: Seq<char>, id: ScopeId) -> bool {
    t.type_scopes_by_name.map().dom().contains(name) && t.type_scopes_by_name.map()[name]@.contains(id)
}

pub proof fn lemma_type_scopes_grow_refl(t: ScopeTree)
    ensures
        type_scopes_grow(t, t),
{
    assert forall|k: Seq<char>| #[trigger] t.type_scopes_by_name.map().dom().contains(k) implies t.type_scopes_by_name.map().dom().contains(k)
        && t.type_scopes_by_name.map()[k]@.len() <= t.type_scopes_by_name.map()[k]@.len()
        && t.type_scopes_by_name.map()[k]@.take(t.type_scopes_by_name.map()[k]@.len() as int)
        == t.type_scopes_by_name.map()[k]@ by {
        assert(t.type_scopes_by_name.map()[k]@.take(t.type_scopes_by_name.map()[k]@.len() as int)
            =~= t.type_scopes_by_name.map()[k]@);
    }
}

pub proof fn lemma_type_scopes_grow_trans(a: ScopeTree, b: ScopeTree, c: ScopeTree)
    requires
        type_scopes_grow(a, b),
        type_scopes_grow(b, c),
    ensures
        type_scopes_grow(a, c),
{
    assert forall|k: Seq<char>| #[trigger] a.type_scopes_by_name.map().dom().contains(k) implies c.type_scopes_by_name.map().dom().contains(k)
        && a.type_scopes_by_name.map()[k]@.len() <= c.type_scopes_by_name.map()[k]@.len()
        && c.type_scopes_by_name.map()[k]@.take(a.type_scopes_by_name.map()[k]@.len() as int)
        == a.type_scopes_by_name.map()[k]@ by {
        assert(b.type_scopes_by_name.map().dom().contains(k));
        let la = a.type_scopes_by_name.map()[k]@;
        let lb = b.type_scopes_by_name.map()[k]@;
        let lc = c.type_scopes_by_name.map()[k]@;
        assert(lb.take(la.len() as int) == la);
        assert(lc.take(lb.len() as int) == lb);
        assert forall|j: int| 0 <= j < la.len() implies lc[j] == la[j] by {
            assert(lc.take(lb.len() as int)[j] == lb[j]);
            assert(lb.take(la.len() as int)[j] == la[j]);
        }
        assert(lc.take(la.len() as int) =~= la);
    }
}

pub proof fn lemma_type_scopes_grow_eq(a: ScopeTree, a2: ScopeTree, b: ScopeTree, b2: ScopeTree)
    requires
        type_scopes_grow(a, b),
        a.type_scopes_by_name == a2.type_scopes_by_name,
        b.type_scopes_by_name == b2.type_scopes_by_name,
    ensures
        type_scopes_grow(a2, b2),
{
    assert forall|k: Seq<char>| #[trigger] a2.type_scopes_by_name.map().dom().contains(k) implies b2.type_scopes_by_name.map().dom().contains(k)
        && a2.type_scopes_by_name.map()[k]@.len() <= b2.type_scopes_by_name.map()[k]@.len()
        && b2.type_scopes_by_name.map()[k]@.take(a2.type_scopes_by_name.map()[k]@.len() as int)
        == a2.type_scopes_by_name.map()[k]@ by {
        assert(a.type_scopes_by_name.map().dom().contains(k));
    }
}

pub proof fn lemma_lists_type_scope_grow(a: ScopeTree, b: ScopeTree, name: Seq<char>, id: ScopeId)
    requires
        type_scopes_grow(a, b),
        lists_type_scope(a, name, id),
    ensures
        lists_type_scope(b, name, id),
{
    let la = a.type_scopes_by_name.map()[name]@;
    let lb = b.type_scopes_by_name.map()[name]@;
    assert(a.type_scopes_by_name.map().dom().contains(name));
    assert(lb.take(la.len() as int) == la);
    let j = choose|j: int| 0 <= j < la.len() && la[j] == id;
    assert(lb.take(la.len() as int)[j] == la[j]);
    assert(lb[j] == la[j]);
}

/// Every type parameter and field of `st`, and every method bound under its name, has a
/// binding in scope `s`.
pub open spec fn type_scope_named(s: Scope, st: StructuredType) -> bool {
    &&& forall|k: int|
        0 <= k < st.type_parameters@.len() ==> s.symbols.map().dom().contains(
            (#[trigger] st.type_parameters@[k]).name@,
        )
    &&& forall|k: int| 0 <= k < st.fields@.len() ==> s.symbols.map().dom().contains((#[trigger] st.fields@[k]).name@)
    &&& forall|k: int|
        0 <= k < st.methods@.len() && bound_as_method(#[trigger] st.methods@[k], last_name(st.name.deep_view()))
            ==> s.symbols.map().dom().contains(last_name(st.methods@[k].name.deep_view()))
}

/// The scope of a structured type `st` registered under `parent`: named as its last segment,
/// with its super types and imports, and a binding for each type parameter, field and bound
/// method.
pub open spec fn type_scope_filled(s: Scope, st: StructuredType, parent: ScopeId) -> bool {
    &&& s.name@ == last_name(st.name.deep_view())
    &&& s.parent == Some(parent)
    &&& crate::model::queries::typerefs_view(s.super_types@) == crate::model::queries::typerefs_view(st.super_types@)
    &&& crate::model::components::imports_view(s.imports@) == crate::model::components::imports_view(st.imports@)
    &&& type_scope_named(s, st)
}

/// No scope that existed before lost a binding.
pub open spec fn all_grow(old: ScopeTree, new: ScopeTree) -> bool {
    &&& old.len() <= new.len()
    &&& forall|i: int, k: Seq<char>|
        0 <= i < old.len() && old.arena@[i].symbols.map().dom().contains(k)
            ==> #[trigger] new.arena@[i].symbols.map().dom().contains(k)
}

pub proof fn lemma_all_grow_refl(t: ScopeTree)
    ensures
        all_grow(t, t),
{
}

pub proof fn lemma_all_grow_trans(a: ScopeTree, b: ScopeTree, c: ScopeTree)
    requires
        all_grow(a, b),
        all_grow(b, c),
    ensures
        all_grow(a, c),
{
    assert forall|i: int, k: Seq<char>|
        0 <= i < a.len() && a.arena@[i].symbols.map().dom().contains(k) implies #[trigger] c.arena@[i].symbols.map().dom().contains(k) by {
        assert(b.arena@[i].symbols.map().dom().contains(k));
    }
}

pub proof fn lemma_kept_grow(old: ScopeTree, new: ScopeTree, p: int)
    requires
        old.len() <= new.len(),
        others_kept(old, new, p),
        0 <= p < old.len() ==> forall|k: Seq<char>|
            old.arena@[p].symbols.map().dom().contains(k) ==> #[trigger] new.arena@[p].symbols.map().dom().contains(k),
    ensures
        all_grow(old, new),
{
    assert forall|i: int, k: Seq<char>|
        0 <= i < old.len() && old.arena@[i].symbols.map().dom().contains(k) implies #[trigger] new.arena@[i].symbols.map().dom().contains(k) by {
        if i != p {
            assert(new.arena@[i] == old.arena@[i]);
        }
    }
}

/// The first `na` aliases, `nt` types, `nf` free functions and `nv` free variables of `m` have
/// a binding in scope `s`.
pub open spec fn module_bound_upto(s: Scope, m: Module, na: int, nt: int, nf: int, nv: int) -> bool {
    &&& forall|k: int|
        0 <= k < na ==> s.symbols.map().dom().contains(last_name((#[trigger] m.type_aliases@[k]).name.deep_view()))
    &&& forall|k: int|
        0 <= k < nt ==> s.symbols.map().dom().contains(
            last_name((#[trigger] m.structured_types@[k]).name.deep_view()),
        )
    &&& forall|k: int|
        0 <= k < nf ==> s.symbols.map().dom().contains(last_name((#[trigger] m.free_functions@[k]).name.deep_view()))
    &&& forall|k: int| 0 <= k < nv ==> s.symbols.map().dom().contains((#[trigger] m.free_variables@[k]).name@)
}

/// Every alias, structured type, free function and free variable of `m` has a binding in scope
/// `s`.
pub open spec fn module_bound(s: Scope, m: Module) -> bool {
    module_bound_upto(
        s,
        m,
        m.type_aliases@.len() as int,
        m.structured_types@.len() as int,
        m.free_functions@.len() as int,
        m.free_variables@.len() as int,
    )
}

pub proof fn lemma_bound_upto_grow(a: Scope, b: Scope, m: Module, na: int, nt: int, nf: int, nv: int)
    requires
        module_bound_upto(a, m, na, nt, nf, nv),
        forall|k: Seq<char>| a.symbols.map().dom().contains(k) ==> #[trigger] b.symbols.map().dom().contains(k),
    ensures
        module_bound_upto(b, m, na, nt, nf, nv),
{
    assert forall|k: int| 0 <= k < na implies b.symbols.map().dom().contains(
        last_name((#[trigger] m.type_aliases@[k]).name.deep_view()),
    ) by {
        assert(a.symbols.map().dom().contains(last_name(m.type_aliases@[k].name.deep_view())));
    }
    assert forall|k: int| 0 <= k < nt implies b.symbols.map().dom().contains(
        last_name((#[trigger] m.structured_types@[k]).name.deep_view()),
    ) by {
        assert(a.symbols.map().dom().contains(last_name(m.structured_types@[k].name.deep_view())));
    }
    assert forall|k: int| 0 <= k < nf implies b.symbols.map().dom().contains(
        last_name((#[trigger] m.free_functions@[k]).name.deep_view()),
    ) by {
        assert(a.symbols.map().dom().contains(last_name(m.free_functions@[k].name.deep_view())));
    }
    assert forall|k: int| 0 <= k < nv implies b.symbols.map().dom().contains((#[trigger] m.free_variables@[k]).name@) by {
        assert(a.symbols.map().dom().contains(m.free_variables@[k].name@));
    }
}

/// One more declaration of a kind, now bound, extends what is bound.
pub proof fn lemma_bound_upto_step(s: Scope, m: Module, na: int, nt: int, nf: int, nv: int)
    requires
        module_bound_upto(s, m, na, nt, nf, nv),
    ensures
        0 <= na < m.type_aliases@.len() && s.symbols.map().dom().contains(last_name(m.type_aliases@[na].name.deep_view()))
            ==> module_bound_upto(s, m, na + 1, nt, nf, nv),
        0 <= nt < m.structured_types@.len() && s.symbols.map().dom().contains(
            last_name(m.structured_types@[nt].name.deep_view()),
        ) ==> module_bound_upto(s, m, na, nt + 1, nf, nv),
        0 <= nf < m.free_functions@.len() && s.symbols.map().dom().contains(
            last_name(m.free_functions@[nf].name.deep_view()),
        ) ==> module_bound_upto(s, m, na, nt, nf + 1, nv),
        0 <= nv < m.free_variables@.len() && s.symbols.map().dom().contains(m.free_variables@[nv].name@)
            ==> module_bound_upto(s, m, na, nt, nf, nv + 1),
{
}

/// Each module's declarations have a binding in some scope of the tree.
pub open spec fn all_modules_bound(t: ScopeTree, ms: Seq<Module>) -> bool {
    forall|k: int| 0 <= k < ms.len() ==> #[trigger] bound_somewhere(t, ms[k])
}

/// Some scope of the tree binds every declaration of `m`.
pub open spec fn bound_somewhere(t: ScopeTree, m: Module) -> bool {
    exists|s: int| 0 <= s < t.len() && #[trigger] module_bound(t.arena@[s], m)
}

/// The scopes that existed before keep their name and parent.
pub open spec fn stable(old: ScopeTree, new: ScopeTree) -> bool {
    &&& old.len() <= new.len()
    &&& forall|i: int|
        0 <= i < old.len() ==> (#[trigger] new.arena@[i]).name == old.arena@[i].name
            && new.arena@[i].parent == old.arena@[i].parent
}

/// The tree after the fields of scope `i` that well-formedness does not read were changed.
pub open spec fn changed_free_fields(old: ScopeTree, new: ScopeTree, i: int) -> bool {
    &&& 0 <= i < old.len()
    &&& new.arena@ == old.arena@.update(i, new.arena@[i])
    &&& new.arena@[i].id == old.arena@[i].id
    &&& new.arena@[i].parent == old.arena@[i].parent
    &&& new.arena@[i].name == old.arena@[i].name
    &&& new.arena@[i].symbols == old.arena@[i].symbols
    &&& new.arena@[i].children == old.arena@[i].children
    &&& new.arena@[i].children_by_name == old.arena@[i].children_by_name
    &&& new.root == old.root
    &&& new.pending_impl_blocks == old.pending_impl_blocks
    &&& new.type_scopes_by_name == old.type_scopes_by_name
}

pub proof fn lemma_changed_free_fields(old: ScopeTree, new: ScopeTree, i: int)
    requires
        old.wf(),
        changed_free_fields(old, new, i),
        i == 0 ==> new.arena@[0].is_module,
    ensures
        new.wf(),
        stable(old, new),
{
    assert forall|k: int| 0 < k < new.arena@.len() implies #[trigger] listed_by_parent(new.arena@, k) by {
        assert(listed_by_parent(old.arena@, k));
        let p = old.arena@[k].parent->Some_0;
        assert(new.arena@[p as int].children == old.arena@[p as int].children);
        assert(new.arena@[p as int].children_by_name == old.arena@[p as int].children_by_name);
    }
    assert(new.len() == old.len());
    assert forall|j: int| 0 <= j < new.len() implies #[trigger] scope_wf(new.arena@[j], j, new.len()) by {
        assert(scope_wf(old.arena@[j], j, old.len()));
    }
    assert forall|k: Seq<char>|
        new.type_scopes_by_name.map().dom().contains(k) implies ids_in_bounds(
        #[trigger] new.type_scopes_by_name.map()[k]@,
        new.len(),
    ) by {
        assert(ids_in_bounds(old.type_scopes_by_name.map()[k]@, old.len()));
    }
    assert forall|j: int| 0 <= j < new.pending_impl_blocks@.len() implies #[trigger] new.pending_impl_blocks@[j].1
        < new.len() by {
        assert(old.pending_impl_blocks@[j].1 < old.len());
    }
}

/// The last segment of a qualified name, empty for an empty name.
pub open spec fn last_name(q: Seq<Seq<char>>) -> Seq<char> {
    if q.len() > 0 {
        q.last()
    } else {
        Seq::empty()
    }
}

/// The last segment of a qualified name, empty for an empty name.
pub fn last_or_empty(q: &Vec<String>) -> (r: String)
    ensures
        r@ == last_name(q.deep_view()),
{
    if q.len() > 0 {
        q[q.len() - 1].clone()
    } else {
        String::new()
    }
}

/// Whether two imports are equal.
pub fn import_same(a: &Import, b: &Import) -> (r: bool)
    ensures
        r == (a@ == b@),
{
    let same_alias = match (&a.alias, &b.alias) {
        (Some(x), Some(y)) => *x == *y,
        (None, None) => true,
        _ => false,
    };
    qn_eq(&a.path, &b.path) && same_alias && a.is_wildcard == b.is_wildcard
}

/// Whether an import equal to `imp` is in the list.
pub fn contains_import(v: &Vec<Import>, imp: &Import) -> (r: bool)
    ensures
        r == exists|j: int| 0 <= j < v@.len() && (#[trigger] v@[j])@ == imp@,
{
    let mut i: usize = 0;
    while i < v.len()
        invariant
            i <= v@.len(),
            forall|j: int| 0 <= j < i ==> (#[trigger] v@[j])@ != imp@,
        decreases v.len() - i,
    {
        if import_same(&v[i], imp) {
            return true;
        }
        i += 1;
    }
    false
}

/// The tree after only scope `i` was changed: the other scopes, the root, the deferred impl
/// blocks and the type scopes by name are as they were.
pub open spec fn scope_updated(old: ScopeTree, new: ScopeTree, i: int) -> bool {
    &&& 0 <= i < old.len()
    &&& new.arena@ == old.arena@.update(i, new.arena@[i])
    &&& new.root == old.root
    &&& new.pending_impl_blocks == old.pending_impl_blocks
    &&& new.type_scopes_by_name == old.type_scopes_by_name
}

impl ScopeTree {
    fn set_is_module(&mut self, id: ScopeId, b: bool)
        requires
            old(self).wf(),
            0 < id < old(self).len(),
        ensures
            final(self).wf(),
            stable(*old(self), *final(self)),
            final(self).pending_impl_blocks == old(self).pending_impl_blocks,
            final(self).len() == old(self).len(),
            scope_updated(*old(self), *final(self), id as int),
            final(self).arena@[id as int] == (Scope { is_module: b, ..old(self).arena@[id as int] }),
    {
        self.arena[id].is_module = b;
        proof {
            lemma_changed_free_fields(*old(self), *self, id as int);
        }
    }

    fn set_language(&mut self, id: ScopeId, lang: Option<String>)
        requires
            old(self).wf(),
            id < old(self).len(),
        ensures
            final(self).wf(),
            stable(*old(self), *final(self)),
            final(self).pending_impl_blocks == old(self).pending_impl_blocks,
            final(self).len() == old(self).len(),
            scope_updated(*old(self), *final(self), id as int),
            final(self).arena@[id as int] == (Scope { language: lang, ..old(self).arena@[id as int] }),
    {
        self.arena[id].language = lang;
        proof {
            lemma_changed_free_fields(*old(self), *self, id as int);
        }
    }

    fn set_phantom(&mut self, id: ScopeId)
        requires
            old(self).wf(),
            id < old(self).len(),
        ensures
            final(self).wf(),
            stable(*old(self), *final(self)),
            final(self).pending_impl_blocks == old(self).pending_impl_blocks,
            final(self).len() == old(self).len(),
            scope_updated(*old(self), *final(self), id as int),
            final(self).arena@[id as int] == (Scope { is_phantom: true, ..old(self).arena@[id as int] }),
    {
        self.arena[id].is_phantom = true;
        proof {
            lemma_changed_free_fields(*old(self), *self, id as int);
        }
    }

    fn add_import(&mut self, id: ScopeId, imp: Import)
        requires
            old(self).wf(),
            id < old(self).len(),
        ensures
            final(self).wf(),
            stable(*old(self), *final(self)),
            final(self).pending_impl_blocks == old(self).pending_impl_blocks,
            final(self).len() == old(self).len(),
            scope_updated(*old(self), *final(self), id as int),
            final(self).arena@[id as int] == (Scope {
                imports: final(self).arena@[id as int].imports,
                ..old(self).arena@[id as int]
            }),
            final(self).arena@[id as int].imports@ == old(self).arena@[id as int].imports@.push(imp),
    {
        self.arena[id].imports.push(imp);
        proof {
            lemma_changed_free_fields(*old(self), *self, id as int);
        }
    }

    fn set_super_types(&mut self, id: ScopeId, v: Vec<TypeRef>)
        requires
            old(self).wf(),
            id < old(self).len(),
        ensures
            final(self).wf(),
            stable(*old(self), *final(self)),
            final(self).pending_impl_blocks == old(self).pending_impl_blocks,
            final(self).len() == old(self).len(),
            scope_updated(*old(self), *final(self), id as int),
            final(self).arena@[id as int] == (Scope { super_types: v, ..old(self).arena@[id as int] }),
    {
        self.arena[id].super_types = v;
        proof {
            lemma_changed_free_fields(*old(self), *self, id as int);
        }
    }

    fn add_super_type(&mut self, id: ScopeId, t: TypeRef)
        requires
            old(self).wf(),
            id < old(self).len(),
        ensures
            final(self).wf(),
            stable(*old(self), *final(self)),
            final(self).pending_impl_blocks == old(self).pending_impl_blocks,
            final(self).len() == old(self).len(),
            scope_updated(*old(self), *final(self), id as int),
            final(self).arena@[id as int] == (Scope {
                super_types: final(self).arena@[id as int].super_types,
                ..old(self).arena@[id as int]
            }),
            final(self).arena@[id as int].super_types@ == old(self).arena@[id as int].super_types@.push(t),
    {
        self.arena[id].super_types.push(t);
        proof {
            lemma_changed_free_fields(*old(self), *self, id as int);
        }
    }

    fn add_type_parameter(&mut self, id: ScopeId, name: String)
        requires
            old(self).wf(),
            id < old(self).len(),
        ensures
            final(self).wf(),
            stable(*old(self), *final(self)),
            final(self).pending_impl_blocks == old(self).pending_impl_blocks,
            final(self).len() == old(self).len(),
            scope_updated(*old(self), *final(self), id as int),
            final(self).arena@[id as int] == (Scope {
                type_parameters: final(self).arena@[id as int].type_parameters,
                ..old(self).arena@[id as int]
            }),
            final(self).arena@[id as int].type_parameters@ == old(self).arena@[id as int].type_parameters@.push(
                name,
            ),
    {
        self.arena[id].type_parameters.push(name);
        proof {
            lemma_changed_free_fields(*old(self), *self, id as int);
        }
    }

    /// Records `id` among the type scopes named `name`.
    fn add_type_scope(&mut self, name: &String, id: ScopeId)
        requires
            old(self).wf(),
            id < old(self).len(),
        ensures
            final(self).wf(),
            stable(*old(self), *final(self)),
            final(self).pending_impl_blocks == old(self).pending_impl_blocks,
            final(self).len() == old(self).len(),
            final(self).arena == old(self).arena,
            final(self).root == old(self).root,
            final(self).type_scopes_by_name.map().dom() == old(self).type_scopes_by_name.map().dom().insert(
                name@,
            ),
            final(self).type_scopes_by_name.map()[name@]@ == ids_under(
                old(self).type_scopes_by_name.map(),
                name@,
            ).push(id),
            forall|k: Seq<char>|
                k != name@ && #[trigger] final(self).type_scopes_by_name.map().dom().contains(k)
                    ==> final(self).type_scopes_by_name.map()[k] == old(self).type_scopes_by_name.map()[k],
            type_scopes_grow(*old(self), *final(self)),
            lists_type_scope(*final(self), name@, id),
    {
        push_id_under(&mut self.type_scopes_by_name, name, id);
        proof {
            let m0 = old(self).type_scopes_by_name.map();
            let m1 = self.type_scopes_by_name.map();
            assert(m1[name@]@.last() == id);
            assert(m1[name@]@.contains(id));
            assert forall|k: Seq<char>| #[trigger] m0.dom().contains(k) implies m1.dom().contains(k)
                && m0[k]@.len() <= m1[k]@.len() && m1[k]@.take(m0[k]@.len() as int) == m0[k]@ by {
                if k == name@ {
                    assert(ids_under(m0, k) == m0[k]@);
                    assert(m1[k]@ == m0[k]@.push(id));
                    assert(m1[k]@.len() == m0[k]@.len() + 1);
                    assert forall|j: int| 0 <= j < m0[k]@.len() implies m1[k]@.take(m0[k]@.len() as int)[j] == m0[k]@[j] by {
                        assert(m1[k]@[j] == m0[k]@.push(id)[j]);
                    }
                    assert(m1[k]@.take(m0[k]@.len() as int) =~= m0[k]@);
                } else {
                    assert(m1.dom().contains(k));
                    assert(m1[k] == m0[k]);
                    assert(m1[k]@.take(m0[k]@.len() as int) =~= m0[k]@);
                }
            }
            let n = self.len();
            assert forall|k: Seq<char>|
                self.type_scopes_by_name.map().dom().contains(k) implies ids_in_bounds(
                #[trigger] self.type_scopes_by_name.map()[k]@,
                n,
            ) by {
                if k != name@ {
                    assert(ids_in_bounds(old(self).type_scopes_by_name.map()[k]@, n));
                } else if old(self).type_scopes_by_name.map().dom().contains(k) {
                    assert(ids_in_bounds(old(self).type_scopes_by_name.map()[k]@, n));
                }
            }
        }
    }

    /// Defers an impl block of the module scope `scope_id`.
    fn add_pending(&mut self, ib: ImplBlock, scope_id: ScopeId, lang: String)
        requires
            old(self).wf(),
            scope_id < old(self).len(),
        ensures
            final(self).wf(),
            stable(*old(self), *final(self)),
            final(self).len() == old(self).len(),
            final(self).arena == old(self).arena,
            final(self).root == old(self).root,
            final(self).type_scopes_by_name == old(self).type_scopes_by_name,
            final(self).pending_impl_blocks@ == old(self).pending_impl_blocks@.push((ib, scope_id, lang)),
    {
        self.pending_impl_blocks.push((ib, scope_id, lang));
        proof {
            assert forall|j: int| 0 <= j < self.pending_impl_blocks@.len() implies #[trigger] self.pending_impl_blocks@[j].1
                < self.len() by {
                if j < old(self).pending_impl_blocks@.len() {
                    assert(old(self).pending_impl_blocks@[j].1 < self.len());
                }
            }
        }
    }

    /// Opens a scope for each type parameter under `scope`: a phantom scope bounded by the
    /// parameter's bounds, bound to the parameter's name.
    fn register_type_parameters(
        &mut self,
        tps: &Vec<crate::model::components::TypeParameter>,
        scope: ScopeId,
    )
        requires
            old(self).wf(),
            scope < old(self).len(),
        ensures
            final(self).wf(),
            stable(*old(self), *final(self)),
            final(self).pending_impl_blocks == old(self).pending_impl_blocks,
            final(self).type_scopes_by_name == old(self).type_scopes_by_name,
            final(self).len() == old(self).len() + tps@.len(),
            others_kept(*old(self), *final(self), scope as int),
            same_core(
                final(self).arena@[scope as int],
                (Scope { type_parameters: final(self).arena@[scope as int].type_parameters, ..old(self).arena@[scope as int] }),
            ),
            final(self).arena@[scope as int].type_parameters@.len() == old(self).arena@[scope as int].type_parameters@.len()
                + tps@.len(),
            forall|k: int|
                0 <= k < tps@.len() ==> #[trigger] final(self).arena@[scope as int].type_parameters@[old(
                    self,
                ).arena@[scope as int].type_parameters@.len() + k] == tps@[k].name,
            symbols_grow(old(self).arena@[scope as int], final(self).arena@[scope as int]),
            forall|k: int|
                0 <= k < tps@.len() ==> final(self).arena@[scope as int].symbols.map().dom().contains(
                    #[trigger] tps@[k].name@,
                ),
            forall|k: int|
                0 <= k < tps@.len() ==> {
                    let ph = #[trigger] final(self).arena@[old(self).len() + k];
                    ph.name@ == tps@[k].name@ && ph.parent == Some(scope) && ph.is_phantom
                        && crate::model::queries::typerefs_view(ph.super_types@)
                        == crate::model::queries::typerefs_view(tps@[k].bounds@)
                },
    {
        let ghost n0 = old(self).len();
        let ghost tp0 = old(self).arena@[scope as int].type_parameters@;
        let mut i: usize = 0;
        while i < tps.len()
            invariant
                self.wf(),
                stable(*old(self), *self),
                self.pending_impl_blocks == old(self).pending_impl_blocks,
                self.type_scopes_by_name == old(self).type_scopes_by_name,
                scope < old(self).len(),
                n0 == old(self).len(),
                tp0 == old(self).arena@[scope as int].type_parameters@,
                i <= tps@.len(),
                self.len() == n0 + i,
                others_kept(*old(self), *self, scope as int),
                same_core(
                    self.arena@[scope as int],
                    (Scope { type_parameters: self.arena@[scope as int].type_parameters, ..old(self).arena@[scope as int] }),
                ),
                self.arena@[scope as int].type_parameters@.len() == tp0.len() + i,
                forall|k: int| 0 <= k < tp0.len() ==> #[trigger] self.arena@[scope as int].type_parameters@[k] == tp0[k],
                forall|k: int|
                    0 <= k < i ==> #[trigger] self.arena@[scope as int].type_parameters@[tp0.len() + k] == tps@[k].name,
                symbols_grow(old(self).arena@[scope as int], self.arena@[scope as int]),
                forall|k: int|
                    0 <= k < i ==> self.arena@[scope as int].symbols.map().dom().contains(#[trigger] tps@[k].name@),
                forall|k: int|
                    0 <= k < i ==> {
                        let ph = #[trigger] self.arena@[n0 + k];
                        ph.name@ == tps@[k].name@ && ph.parent == Some(scope) && ph.is_phantom
                            && crate::model::queries::typerefs_view(ph.super_types@)
                            == crate::model::queries::typerefs_view(tps@[k].bounds@)
                    },
            decreases tps.len() - i,
        {
            let tp = &tps[i];
            let ghost t0 = *self;
            self.add_type_parameter(scope, tp.name.clone());
            let ghost t1 = *self;
            let phantom = self.new_scope(scope, tp.name.clone());
            let ghost t2 = *self;
            self.set_phantom(phantom);
            let ghost t3 = *self;
            let bounds = clone_typerefs(&tp.bounds);
            self.set_super_types(phantom, bounds);
            let ghost t4 = *self;
            self.define_symbol(scope, tp.name.clone(), Symbol::Type(phantom));
            proof {
                assert forall|j: int| 0 <= j < n0 && j != scope implies #[trigger] self.arena@[j] == old(self).arena@[j] by {
                    assert(t0.arena@[j] == old(self).arena@[j]);
                    assert(t1.arena@[j] == t0.arena@[j]);
                    assert(t2.arena@[j] == t1.arena@[j]);
                    assert(t3.arena@[j] == t2.arena@[j]);
                    assert(t4.arena@[j] == t3.arena@[j]);
                }
                assert forall|k: int|
                    0 <= k < i + 1 implies {
                        let ph = #[trigger] self.arena@[n0 + k];
                        ph.name@ == tps@[k].name@ && ph.parent == Some(scope) && ph.is_phantom
                            && crate::model::queries::typerefs_view(ph.super_types@)
                            == crate::model::queries::typerefs_view(tps@[k].bounds@)
                    } by {
                    if k < i {
                        assert(t1.arena@[n0 + k] == t0.arena@[n0 + k]);
                        assert(t2.arena@[n0 + k] == t1.arena@[n0 + k]);
                        assert(t3.arena@[n0 + k] == t2.arena@[n0 + k]);
                        assert(t4.arena@[n0 + k] == t3.arena@[n0 + k]);
                    }
                }
                assert forall|k: int|
                    0 <= k < i + 1 implies #[trigger] self.arena@[scope as int].type_parameters@[tp0.len() + k] == tps@[k].name by {
                }
                assert forall|k: Seq<char>| old(self).arena@[scope as int].symbols.map().dom().contains(k) implies #[trigger] self.arena@[scope as int].symbols.map().dom().contains(k) by {
                    assert(t0.arena@[scope as int].symbols.map().dom().contains(k));
                }
                assert forall|k: int|
                    0 <= k < i + 1 implies self.arena@[scope as int].symbols.map().dom().contains(#[trigger] tps@[k].name@) by {
                    if k < i {
                        assert(t0.arena@[scope as int].symbols.map().dom().contains(tps@[k].name@));
                    }
                }
            }
            i += 1;
        }
        proof {
            assert forall|k: int|
                0 <= k < tps@.len() implies #[trigger] self.arena@[scope as int].type_parameters@[tp0.len() + k] == tps@[k].name by {
            }
        }
    }

    /// Registers a module (and its submodules) under `parent_id`: one module scope per segment
    /// of its name, reusing those that exist; then its imports, aliases, types, functions and
    /// variables. Its impl blocks are deferred until every module is registered.
    fn register_module(&mut self, m: &Module, parent_id: ScopeId, config: &AnalyzerConfig)
        requires
            old(self).wf(),
            parent_id < old(self).len(),
            config.wf(),
        ensures
            final(self).wf(),
            stable(*old(self), *final(self)),
            all_grow(*old(self), *final(self)),
            exists|ms: int| 0 <= ms < final(self).len() && module_bound(final(self).arena@[ms], *m),
        decreases m,
    {
        proof {
            lemma_all_grow_refl(*old(self));
        }
        let mut parent_id = parent_id;
        let mut i: usize = 0;
        while i < m.name.len()
            invariant
                self.wf(),
                stable(*old(self), *self),
                all_grow(*old(self), *self),
                parent_id < self.len(),
            decreases m.name.len() - i,
        {
            let part = &m.name[i];
            if !str_eq(part.as_str(), "root") {
                assert(scope_wf(self.arena@[parent_id as int], parent_id as int, self.len()));
                let found: Option<ScopeId> = match self.arena[parent_id].children_by_name.get(part) {
                    Some(ids) => if ids.len() > 0 {
                        Some(ids[0])
                    } else {
                        None
                    },
                    None => None,
                };
                parent_id = match found {
                    Some(existing) => existing,
                    None => {
                        let ghost t0 = *self;
                        let id = self.new_scope(parent_id, part.clone());
                        let ghost t1 = *self;
                        proof {
                            lemma_kept_grow(t0, t1, parent_id as int);
                        }
                        self.set_is_module(id, true);
                        let ghost t2 = *self;
                        proof {
                            lemma_kept_grow(t1, t2, id as int);
                            lemma_all_grow_trans(t0, t1, t2);
                        }
                        self.set_language(id, clone_opt_string(&m.language));
                        let ghost t3 = *self;
                        proof {
                            lemma_kept_grow(t2, t3, id as int);
                            lemma_all_grow_trans(t0, t2, t3);
                        }
                        self.define_symbol(parent_id, part.clone(), Symbol::Module(id));
                        proof {
                            lemma_kept_grow(t3, *self, parent_id as int);
                            lemma_all_grow_trans(t0, t3, *self);
                            lemma_all_grow_trans(*old(self), t0, *self);
                        }
                        id
                    },
                };
            }
            i += 1;
        }
        let scope_id = parent_id;
        if self.arena[scope_id].language.is_none() {
            let ghost t0 = *self;
            self.set_language(scope_id, clone_opt_string(&m.language));
            proof {
                lemma_kept_grow(t0, *self, scope_id as int);
                lemma_all_grow_trans(*old(self), t0, *self);
            }
        }
        let mut i: usize = 0;
        while i < m.imports.len()
            invariant
                self.wf(),
                stable(*old(self), *self),
                scope_id < self.len(),
                all_grow(*old(self), *self),
                module_bound_upto(self.arena@[scope_id as int], *m, 0 as int, 0 as int, 0 as int, 0 as int),
                i <= m.imports@.len(),
            decreases m.imports.len() - i,
        {
            if !contains_import(&self.arena[scope_id].imports, &m.imports[i]) {
                let ghost t0 = *self;
                self.add_import(scope_id, m.imports[i].duplicate());
                proof {
                    lemma_kept_grow(t0, *self, scope_id as int);
                    lemma_all_grow_trans(*old(self), t0, *self);
                    lemma_bound_upto_grow(t0.arena@[scope_id as int], self.arena@[scope_id as int], *m, 0, 0, 0, 0);
                }
            }
            i += 1;
        }
        let mut i: usize = 0;
        while i < m.type_aliases.len()
            invariant
                self.wf(),
                stable(*old(self), *self),
                scope_id < self.len(),
                all_grow(*old(self), *self),
                module_bound_upto(self.arena@[scope_id as int], *m, i as int, 0 as int, 0 as int, 0 as int),
                i <= m.type_aliases@.len(),
            decreases m.type_aliases.len() - i,
        {
            let ta = &m.type_aliases[i];
            let ghost t0 = *self;
            self.define_symbol(
                scope_id,
                last_or_empty(&ta.name),
                Symbol::TypeAlias(ta.target.duplicate()),
            );
            proof {
                lemma_kept_grow(t0, *self, scope_id as int);
                lemma_all_grow_trans(*old(self), t0, *self);
                lemma_bound_upto_grow(t0.arena@[scope_id as int], self.arena@[scope_id as int], *m, i as int, 0, 0, 0);
                lemma_bound_upto_step(self.arena@[scope_id as int], *m, i as int, 0, 0, 0);
            }
            i += 1;
        }
        let lang: &str = match &m.language {
            Some(l) => l.as_str(),
            None => "",
        };
        let mut i: usize = 0;
        while i < m.structured_types.len()
            invariant
                self.wf(),
                stable(*old(self), *self),
                scope_id < self.len(),
                all_grow(*old(self), *self),
                module_bound_upto(self.arena@[scope_id as int], *m, m.type_aliases@.len() as int, i as int, 0 as int, 0 as int),
                i <= m.structured_types@.len(),
                config.wf(),
            decreases m.structured_types.len() - i,
        {
            let ghost t0 = *self;
            self.register_structured_type(&m.structured_types[i], scope_id, config, lang);
            proof {
                lemma_kept_grow(t0, *self, scope_id as int);
                lemma_all_grow_trans(*old(self), t0, *self);
                lemma_bound_upto_grow(t0.arena@[scope_id as int], self.arena@[scope_id as int], *m, m.type_aliases@.len() as int, i as int, 0, 0);
                lemma_bound_upto_step(self.arena@[scope_id as int], *m, m.type_aliases@.len() as int, i as int, 0, 0);
            }
            i += 1;
        }
        let mut i: usize = 0;
        while i < m.impl_blocks.len()
            invariant
                self.wf(),
                stable(*old(self), *self),
                scope_id < self.len(),
                all_grow(*old(self), *self),
                module_bound_upto(self.arena@[scope_id as int], *m, m.type_aliases@.len() as int, m.structured_types@.len() as int, 0 as int, 0 as int),
                i <= m.impl_blocks@.len(),
            decreases m.impl_blocks.len() - i,
        {
            let ghost t0 = *self;
            self.add_pending(m.impl_blocks[i].duplicate(), scope_id, lang.to_string());
            i += 1;
        }
        let mut i: usize = 0;
        while i < m.free_functions.len()
            invariant
                self.wf(),
                stable(*old(self), *self),
                scope_id < self.len(),
                all_grow(*old(self), *self),
                module_bound_upto(self.arena@[scope_id as int], *m, m.type_aliases@.len() as int, m.structured_types@.len() as int, i as int, 0 as int),
                i <= m.free_functions@.len(),
                config.wf(),
            decreases m.free_functions.len() - i,
        {
            let ff = &m.free_functions[i];
            let ghost t0 = *self;
            self.define_symbol(
                scope_id,
                last_or_empty(&ff.name),
                Symbol::Value(ff.signature.return_type.duplicate()),
            );
            let ghost t1 = *self;
            proof {
                lemma_kept_grow(t0, t1, scope_id as int);
                lemma_all_grow_trans(*old(self), t0, t1);
            }
            self.register_function(ff, scope_id, config, lang, None);
            proof {
                lemma_kept_grow(t1, *self, scope_id as int);
                lemma_all_grow_trans(*old(self), t1, *self);
                lemma_bound_upto_grow(t0.arena@[scope_id as int], t1.arena@[scope_id as int], *m, m.type_aliases@.len() as int, m.structured_types@.len() as int, i as int, 0);
                lemma_bound_upto_step(t1.arena@[scope_id as int], *m, m.type_aliases@.len() as int, m.structured_types@.len() as int, i as int, 0);
                lemma_bound_upto_grow(t1.arena@[scope_id as int], self.arena@[scope_id as int], *m, m.type_aliases@.len() as int, m.structured_types@.len() as int, i + 1, 0);
            }
            i += 1;
        }
        let mut i: usize = 0;
        while i < m.free_variables.len()
            invariant
                self.wf(),
                stable(*old(self), *self),
                scope_id < self.len(),
                all_grow(*old(self), *self),
                module_bound_upto(self.arena@[scope_id as int], *m, m.type_aliases@.len() as int, m.structured_types@.len() as int, m.free_functions@.len() as int, i as int),
                i <= m.free_variables@.len(),
            decreases m.free_variables.len() - i,
        {
            let fv = &m.free_variables[i];
            let ghost t0 = *self;
            self.define_symbol(scope_id, fv.name.clone(), Symbol::Value(fv.ty.duplicate()));
            proof {
                lemma_kept_grow(t0, *self, scope_id as int);
                lemma_all_grow_trans(*old(self), t0, *self);
                lemma_bound_upto_grow(t0.arena@[scope_id as int], self.arena@[scope_id as int], *m, m.type_aliases@.len() as int, m.structured_types@.len() as int, m.free_functions@.len() as int, i as int);
                lemma_bound_upto_step(self.arena@[scope_id as int], *m, m.type_aliases@.len() as int, m.structured_types@.len() as int, m.free_functions@.len() as int, i as int);
            }
            i += 1;
        }
        let mut i: usize = 0;
        while i < m.sub_modules.len()
            invariant
                self.wf(),
                stable(*old(self), *self),
                scope_id < self.len(),
                all_grow(*old(self), *self),
                module_bound_upto(self.arena@[scope_id as int], *m, m.type_aliases@.len() as int, m.structured_types@.len() as int, m.free_functions@.len() as int, m.free_variables@.len() as int),
                i <= m.sub_modules@.len(),
                config.wf(),
            decreases m.sub_modules.len() - i,
        {
            let ghost t0 = *self;
            self.register_module(&m.sub_modules[i], scope_id, config);
            proof {
                lemma_all_grow_trans(*old(self), t0, *self);
                lemma_bound_upto_grow(t0.arena@[scope_id as int], self.arena@[scope_id as int], *m, m.type_aliases@.len() as int, m.structured_types@.len() as int, m.free_functions@.len() as int, m.free_variables@.len() as int);
            }
            i += 1;
        }
        assert(module_bound(self.arena@[scope_id as int], *m));
    }

    /// Binds the methods of a type (or an impl block) in its scope and registers each: a
    /// method is bound under its name unless it is a constructor, is named as the type, or is a
    /// destructor (`~...`).
    fn register_methods(
        &mut self,
        methods: &Vec<Function>,
        class_scope: ScopeId,
        owner_name: &String,
        config: &AnalyzerConfig,
        lang: &str,
        owner: &TypeRef,
    )
        requires
            old(self).wf(),
            class_scope < old(self).len(),
            config.wf(),
        ensures
            final(self).wf(),
            stable(*old(self), *final(self)),
            final(self).pending_impl_blocks == old(self).pending_impl_blocks,
            final(self).type_scopes_by_name == old(self).type_scopes_by_name,
            others_kept(*old(self), *final(self), class_scope as int),
            same_core(final(self).arena@[class_scope as int], old(self).arena@[class_scope as int]),
            symbols_grow(old(self).arena@[class_scope as int], final(self).arena@[class_scope as int]),
            forall|k: int|
                0 <= k < methods@.len() && bound_as_method(#[trigger] methods@[k], owner_name@)
                    ==> final(self).arena@[class_scope as int].symbols.map().dom().contains(
                    last_name(methods@[k].name.deep_view()),
                ),
    {
        let ghost c0 = old(self).arena@[class_scope as int];
        let mut i: usize = 0;
        while i < methods.len()
            invariant
                self.wf(),
                stable(*old(self), *self),
                self.pending_impl_blocks == old(self).pending_impl_blocks,
                self.type_scopes_by_name == old(self).type_scopes_by_name,
                class_scope < old(self).len(),
                config.wf(),
                c0 == old(self).arena@[class_scope as int],
                i <= methods@.len(),
                others_kept(*old(self), *self, class_scope as int),
                same_core(self.arena@[class_scope as int], c0),
                symbols_grow(c0, self.arena@[class_scope as int]),
                forall|k: int|
                    0 <= k < i && bound_as_method(#[trigger] methods@[k], owner_name@)
                        ==> self.arena@[class_scope as int].symbols.map().dom().contains(
                        last_name(methods@[k].name.deep_view()),
                    ),
            decreases methods.len() - i,
        {
            let method = &methods[i];
            let m_name = last_or_empty(&method.name);
            let ghost t = *self;
            if !method.is_constructor && !str_eq(m_name.as_str(), owner_name.as_str())
                && !str_starts_with(m_name.as_str(), "~") {
                self.define_symbol(
                    class_scope,
                    m_name,
                    Symbol::Value(method.signature.return_type.duplicate()),
                );
            }
            let ghost t2 = *self;
            self.register_function(method, class_scope, config, lang, Some(owner.duplicate()));
            proof {
                reveal_strlit("~");
                assert(self.arena@[class_scope as int].symbols == t2.arena@[class_scope as int].symbols);
                assert forall|j: int| 0 <= j < old(self).len() && j != class_scope implies #[trigger] self.arena@[j] == old(self).arena@[j] by {
                    assert(t.arena@[j] == old(self).arena@[j]);
                    assert(t2.arena@[j] == t.arena@[j]);
                }
                assert forall|k: Seq<char>| c0.symbols.map().dom().contains(k) implies #[trigger] self.arena@[class_scope as int].symbols.map().dom().contains(k) by {
                    assert(t.arena@[class_scope as int].symbols.map().dom().contains(k));
                }
                assert forall|k: int|
                    0 <= k < i + 1 && bound_as_method(#[trigger] methods@[k], owner_name@)
                        implies self.arena@[class_scope as int].symbols.map().dom().contains(
                        last_name(methods@[k].name.deep_view()),
                    ) by {
                    if k < i {
                        assert(t.arena@[class_scope as int].symbols.map().dom().contains(last_name(methods@[k].name.deep_view())));
                    }
                }
            }
            i += 1;
        }
    }

    /// Registers a structured type under `parent_id`: its scope, its type parameters, fields,
    /// methods, imports and nested types.
    fn register_structured_type(
        &mut self,
        st: &StructuredType,
        parent_id: ScopeId,
        config: &AnalyzerConfig,
        lang: &str,
    )
        requires
            old(self).wf(),
            parent_id < old(self).len(),
            config.wf(),
        ensures
            final(self).wf(),
            stable(*old(self), *final(self)),
            final(self).pending_impl_blocks == old(self).pending_impl_blocks,
            type_scopes_grow(*old(self), *final(self)),
            last_name(st.name.deep_view()) != Seq::<char>::empty() ==> lists_type_scope(
                *final(self),
                last_name(st.name.deep_view()),
                old(self).len() as ScopeId,
            ),
            final(self).len() > old(self).len(),
            others_kept(*old(self), *final(self), parent_id as int),
            same_core(final(self).arena@[parent_id as int], old(self).arena@[parent_id as int]),
            final(self).arena@[parent_id as int].children@ == old(self).arena@[parent_id as int].children@.push(
                old(self).len() as ScopeId,
            ),
            final(self).arena@[parent_id as int].symbols.map() == old(self).arena@[parent_id as int].symbols.map().insert(
                last_name(st.name.deep_view()),
                Symbol::Type(old(self).len() as ScopeId),
            ),
            type_scope_filled(final(self).arena@[old(self).len()], *st, parent_id),
        decreases st,
    {
        let ghost n0 = old(self).len();
        let name = last_or_empty(&st.name);
        let class_scope = self.new_scope(parent_id, name.clone());
        let ghost t1 = *self;
        proof {
            reveal_strlit("");
        }
        if !str_eq(name.as_str(), "") {
            self.add_type_scope(&name, class_scope);
            proof {
                lemma_type_scopes_grow_eq(t1, *old(self), *self, *self);
                assert(lists_type_scope(*self, name@, n0 as ScopeId));
            }
        } else {
            proof {
                lemma_type_scopes_grow_refl(*old(self));
                lemma_type_scopes_grow_eq(*old(self), *old(self), *old(self), *self);
                assert(name@ == Seq::<char>::empty());
            }
        }
        let ghost ta = *self;
        self.set_super_types(class_scope, clone_typerefs(&st.super_types));
        let ghost t2 = *self;
        self.define_symbol(parent_id, name.clone(), Symbol::Type(class_scope));
        let ghost tpar = self.arena@[parent_id as int];
        proof {
            assert(tpar.symbols.map() == old(self).arena@[parent_id as int].symbols.map().insert(
                name@,
                Symbol::Type(n0 as ScopeId),
            ));
        }
        let ghost t3 = *self;
        self.register_type_parameters(&st.type_parameters, class_scope);
        let ghost t4 = *self;
        proof {
            assert forall|j: int| 0 <= j < n0 && j != parent_id implies #[trigger] self.arena@[j] == old(self).arena@[j] by {
                assert(t1.arena@[j] == old(self).arena@[j]);
                assert(t2.arena@[j] == t1.arena@[j]);
                assert(t3.arena@[j] == t2.arena@[j]);
            }
            assert(self.arena@[parent_id as int] == tpar);
            assert(self.type_scopes_by_name == ta.type_scopes_by_name);
            lemma_type_scopes_grow_eq(*old(self), *old(self), ta, *self);
            if name@ != Seq::<char>::empty() {
                assert(lists_type_scope(ta, name@, n0 as ScopeId));
                assert(self.type_scopes_by_name.map() == ta.type_scopes_by_name.map());
                assert(lists_type_scope(*self, name@, n0 as ScopeId));
            }
        }
        let mut i: usize = 0;
        while i < st.fields.len()
            invariant
                self.wf(),
                stable(*old(self), *self),
                self.pending_impl_blocks == old(self).pending_impl_blocks,
                class_scope == n0,
                n0 == old(self).len(),
                parent_id < n0,
                self.len() > n0,
                type_scopes_grow(*old(self), *self),
                name@ == last_name(st.name.deep_view()),
                name@ != Seq::<char>::empty() ==> lists_type_scope(*self, name@, n0 as ScopeId),
                others_kept(*old(self), *self, parent_id as int),
                self.arena@[parent_id as int] == tpar,
                self.arena@[n0].name@ == name@,
                self.arena@[n0].parent == Some(parent_id),
                self.arena@[n0].imports@.len() == 0,
                crate::model::queries::typerefs_view(self.arena@[n0].super_types@)
                    == crate::model::queries::typerefs_view(st.super_types@),
                forall|k: int|
                    0 <= k < st.type_parameters@.len() ==> self.arena@[n0].symbols.map().dom().contains(
                        (#[trigger] st.type_parameters@[k]).name@,
                    ),
                i <= st.fields@.len(),
                forall|k: int|
                    0 <= k < i ==> self.arena@[n0].symbols.map().dom().contains((#[trigger] st.fields@[k]).name@),
            decreases st.fields.len() - i,
        {
            let f = &st.fields[i];
            let ghost t = *self;
            self.define_symbol(class_scope, f.name.clone(), Symbol::Value(f.ty.duplicate()));
            proof {
                assert forall|j: int| 0 <= j < n0 && j != parent_id implies #[trigger] self.arena@[j] == old(self).arena@[j] by {
                    assert(t.arena@[j] == old(self).arena@[j]);
                }
                assert forall|k: int|
                    0 <= k < st.type_parameters@.len() implies self.arena@[n0].symbols.map().dom().contains(
                    (#[trigger] st.type_parameters@[k]).name@,
                ) by {
                    assert(t.arena@[n0].symbols.map().dom().contains(st.type_parameters@[k].name@));
                }
                assert forall|k: int|
                    0 <= k < i + 1 implies self.arena@[n0].symbols.map().dom().contains((#[trigger] st.fields@[k]).name@) by {
                    if k < i {
                        assert(t.arena@[n0].symbols.map().dom().contains(st.fields@[k].name@));
                    }
                }
            }
            i += 1;
        }
        let path = self.build_path_from_scope(class_scope);
        let type_ref = TypeRef::Resolved(path);
        let ghost t5 = *self;
        self.register_methods(&st.methods, class_scope, &name, config, lang, &type_ref);
        proof {
            assert forall|j: int| 0 <= j < n0 && j != parent_id implies #[trigger] self.arena@[j] == old(self).arena@[j] by {
                assert(t5.arena@[j] == old(self).arena@[j]);
            }
            assert forall|k: int|
                0 <= k < st.type_parameters@.len() implies self.arena@[n0].symbols.map().dom().contains(
                (#[trigger] st.type_parameters@[k]).name@,
            ) by {
                assert(t5.arena@[n0].symbols.map().dom().contains(st.type_parameters@[k].name@));
            }
            assert forall|k: int|
                0 <= k < st.fields@.len() implies self.arena@[n0].symbols.map().dom().contains((#[trigger] st.fields@[k]).name@) by {
                assert(t5.arena@[n0].symbols.map().dom().contains(st.fields@[k].name@));
            }
        }
        let mut i: usize = 0;
        while i < st.imports.len()
            invariant
                self.wf(),
                stable(*old(self), *self),
                self.pending_impl_blocks == old(self).pending_impl_blocks,
                class_scope == n0,
                n0 == old(self).len(),
                parent_id < n0,
                self.len() > n0,
                type_scopes_grow(*old(self), *self),
                name@ == last_name(st.name.deep_view()),
                name@ != Seq::<char>::empty() ==> lists_type_scope(*self, name@, n0 as ScopeId),
                others_kept(*old(self), *self, parent_id as int),
                self.arena@[parent_id as int] == tpar,
                self.arena@[n0].name@ == name@,
                self.arena@[n0].parent == Some(parent_id),
                crate::model::queries::typerefs_view(self.arena@[n0].super_types@)
                    == crate::model::queries::typerefs_view(st.super_types@),
                type_scope_named(self.arena@[n0], *st),
                i <= st.imports@.len(),
                self.arena@[n0].imports@.len() == i,
                forall|k: int| 0 <= k < i ==> (#[trigger] self.arena@[n0].imports@[k])@ == st.imports@[k]@,
            decreases st.imports.len() - i,
        {
            let ghost t = *self;
            self.add_import(class_scope, st.imports[i].duplicate());
            proof {
                assert forall|j: int| 0 <= j < n0 && j != parent_id implies #[trigger] self.arena@[j] == old(self).arena@[j] by {
                    assert(t.arena@[j] == old(self).arena@[j]);
                }
                assert forall|k: int| 0 <= k < i + 1 implies (#[trigger] self.arena@[n0].imports@[k])@ == st.imports@[k]@ by {
                    if k < i {
                        assert(self.arena@[n0].imports@[k] == t.arena@[n0].imports@[k]);
                    }
                }
            }
            i += 1;
        }
        let mut i: usize = 0;
        while i < st.nested_types.len()
            invariant
                self.wf(),
                stable(*old(self), *self),
                self.pending_impl_blocks == old(self).pending_impl_blocks,
                class_scope == n0,
                n0 == old(self).len(),
                parent_id < n0,
                self.len() > n0,
                type_scopes_grow(*old(self), *self),
                name@ == last_name(st.name.deep_view()),
                name@ != Seq::<char>::empty() ==> lists_type_scope(*self, name@, n0 as ScopeId),
                others_kept(*old(self), *self, parent_id as int),
                self.arena@[parent_id as int] == tpar,
                self.arena@[n0].name@ == name@,
                self.arena@[n0].parent == Some(parent_id),
                crate::model::queries::typerefs_view(self.arena@[n0].super_types@)
                    == crate::model::queries::typerefs_view(st.super_types@),
                type_scope_named(self.arena@[n0], *st),
                crate::model::components::imports_view(self.arena@[n0].imports@)
                    == crate::model::components::imports_view(st.imports@),
                config.wf(),
            decreases st.nested_types.len() - i,
        {
            let ghost t = *self;
            self.register_structured_type(&st.nested_types[i], class_scope, config, lang);
            proof {
                lemma_type_scopes_grow_trans(*old(self), t, *self);
                if name@ != Seq::<char>::empty() {
                    lemma_lists_type_scope_grow(t, *self, name@, n0 as ScopeId);
                }
                assert forall|j: int| 0 <= j < n0 && j != parent_id implies #[trigger] self.arena@[j] == old(self).arena@[j] by {
                    assert(t.arena@[j] == old(self).arena@[j]);
                }
                assert(type_scope_named(t.arena@[n0], *st));
                assert forall|k: Seq<char>| t.arena@[n0].symbols.map().dom().contains(k) implies #[trigger] self.arena@[n0].symbols.map().dom().contains(k) by {
                }
            }
            i += 1;
        }
        proof {
            assert(crate::model::components::imports_view(self.arena@[n0].imports@)
                == crate::model::components::imports_view(st.imports@));
        }
    }

    /// Registers a function under `parent_id`: its scope, its type parameters, its parameters
    /// (the first one bound to the owner type where the language takes it as the receiver), the
    /// language's self keyword, and its body.
    fn register_function(
        &mut self,
        func: &Function,
        parent_id: ScopeId,
        config: &AnalyzerConfig,
        lang: &str,
        parent_class_type: Option<TypeRef>,
    )
        requires
            old(self).wf(),
            parent_id < old(self).len(),
            config.wf(),
        ensures
            final(self).wf(),
            stable(*old(self), *final(self)),
            final(self).pending_impl_blocks == old(self).pending_impl_blocks,
            final(self).type_scopes_by_name == old(self).type_scopes_by_name,
            final(self).len() > old(self).len(),
            others_kept(*old(self), *final(self), parent_id as int),
            child_added(*old(self), *final(self), parent_id as int, old(self).len()),
            final(self).arena@[old(self).len()].name@ == last_name(func.name.deep_view()),
            final(self).arena@[old(self).len()].parent == Some(parent_id),
            forall|k: int|
                0 <= k < func.type_parameters@.len() ==> final(self).arena@[old(self).len()].symbols.map().dom().contains(
                    (#[trigger] func.type_parameters@[k]).name@,
                ),
            forall|k: int|
                0 <= k < func.signature.parameters@.len() ==> ((#[trigger] func.signature.parameters@[k]).name matches Some(
                    n,
                ) ==> final(self).arena@[old(self).len()].symbols.map().dom().contains(n@)),
            parent_class_type is Some ==> (config.strategy_for(lang@).self_keyword matches Some(kw)
                ==> final(self).arena@[old(self).len()].symbols.map().dom().contains(kw@)),
    {
        let ghost n0 = old(self).len();
        let name = last_or_empty(&func.name);
        let func_scope = self.new_scope(parent_id, name);
        let ghost t1 = *self;
        let lang_config = config.get_for(lang);
        self.register_type_parameters(&func.type_parameters, func_scope);
        proof {
            assert forall|j: int| 0 <= j < n0 && j != parent_id implies #[trigger] self.arena@[j] == old(self).arena@[j] by {
                assert(t1.arena@[j] == old(self).arena@[j]);
            }
        }
        let params = &func.signature.parameters;
        let mut start: usize = 0;
        if lang_config.implicit_first_param_as_self {
            if let Some(class_type) = &parent_class_type {
                if params.len() > 0 {
                    let p_name = match &params[0].name {
                        Some(n) => n.clone(),
                        None => "self".to_string(),
                    };
                    let ghost t = *self;
                    self.define_symbol(func_scope, p_name, Symbol::Value(class_type.duplicate()));
                    proof {
                        assert forall|j: int| 0 <= j < n0 && j != parent_id implies #[trigger] self.arena@[j] == old(self).arena@[j] by {
                            assert(t.arena@[j] == old(self).arena@[j]);
                        }
                        assert forall|k: int|
                            0 <= k < func.type_parameters@.len() implies self.arena@[n0].symbols.map().dom().contains(
                            (#[trigger] func.type_parameters@[k]).name@,
                        ) by {
                            assert(t.arena@[n0].symbols.map().dom().contains(func.type_parameters@[k].name@));
                        }
                    }
                    start = 1;
                }
            }
        }
        let mut i: usize = start;
        while i < params.len()
            invariant
                self.wf(),
                stable(*old(self), *self),
                self.pending_impl_blocks == old(self).pending_impl_blocks,
                self.type_scopes_by_name == old(self).type_scopes_by_name,
                func_scope < self.len(),
                func_scope == n0,
                n0 == old(self).len(),
                parent_id < n0,
                params == func.signature.parameters,
                self.arena@[parent_id as int] == t1.arena@[parent_id as int],
                child_added(*old(self), t1, parent_id as int, n0),
                others_kept(*old(self), *self, parent_id as int),
                self.arena@[n0].name@ == last_name(func.name.deep_view()),
                self.arena@[n0].parent == Some(parent_id),
                start <= i <= params@.len(),
                start <= 1,
                start == 1 ==> (params@[0].name matches Some(n) ==> self.arena@[n0].symbols.map().dom().contains(n@)),
                forall|k: int|
                    0 <= k < func.type_parameters@.len() ==> self.arena@[n0].symbols.map().dom().contains(
                        (#[trigger] func.type_parameters@[k]).name@,
                    ),
                forall|k: int|
                    start <= k < i ==> ((#[trigger] params@[k]).name matches Some(n)
                        ==> self.arena@[n0].symbols.map().dom().contains(n@)),
            decreases params.len() - i,
        {
            if let Some(p_name) = &params[i].name {
                let ghost t = *self;
                self.define_symbol(
                    func_scope,
                    p_name.clone(),
                    Symbol::Value(params[i].ty.duplicate()),
                );
                proof {
                    assert forall|j: int| 0 <= j < n0 && j != parent_id implies #[trigger] self.arena@[j] == old(self).arena@[j] by {
                        assert(t.arena@[j] == old(self).arena@[j]);
                    }
                    assert forall|k: int|
                        0 <= k < func.type_parameters@.len() implies self.arena@[n0].symbols.map().dom().contains(
                        (#[trigger] func.type_parameters@[k]).name@,
                    ) by {
                        assert(t.arena@[n0].symbols.map().dom().contains(func.type_parameters@[k].name@));
                    }
                    assert forall|k: int|
                        start <= k < i + 1 implies ((#[trigger] params@[k]).name matches Some(n)
                            ==> self.arena@[n0].symbols.map().dom().contains(n@)) by {
                        if k < i {
                            if let Some(n) = params@[k].name {
                                assert(t.arena@[n0].symbols.map().dom().contains(n@));
                            }
                        }
                    }
                    if start == 1 {
                        if let Some(n) = params@[0].name {
                            assert(t.arena@[n0].symbols.map().dom().contains(n@));
                        }
                    }
                }
            }
            i += 1;
        }
        if let Some(class_type) = &parent_class_type {
            if let Some(kw) = &lang_config.self_keyword {
                let ghost t = *self;
                self.define_symbol(func_scope, kw.clone(), Symbol::Value(class_type.duplicate()));
                proof {
                    assert forall|j: int| 0 <= j < n0 && j != parent_id implies #[trigger] self.arena@[j] == old(self).arena@[j] by {
                        assert(t.arena@[j] == old(self).arena@[j]);
                    }
                    assert forall|k: Seq<char>| t.arena@[n0].symbols.map().dom().contains(k) implies #[trigger] self.arena@[n0].symbols.map().dom().contains(k) by {
                    }
                }
            }
        }
        if let Some(block) = &func.body {
            let ghost t = *self;
            self.register_block(block, func_scope, 0);
            proof {
                assert(self.arena@[n0].symbols == t.arena@[n0].symbols);
                assert forall|j: int| 0 <= j < n0 && j != parent_id implies #[trigger] self.arena@[j] == old(self).arena@[j] by {
                    assert(t.arena@[j] == old(self).arena@[j]);
                }
            }
        }
        proof {
            assert forall|k: int|
                0 <= k < func.signature.parameters@.len() implies ((#[trigger] func.signature.parameters@[k]).name matches Some(
                n,
            ) ==> self.arena@[n0].symbols.map().dom().contains(n@)) by {
            }
        }
    }

    /// Registers a block as scope `block_<index>` under `parent_id`, its declarations bound in
    /// it, its sub-blocks numbered from 0.
    fn register_block(&mut self, block: &Block, parent_id: ScopeId, index: usize)
        requires
            old(self).wf(),
            parent_id < old(self).len(),
        ensures
            final(self).wf(),
            stable(*old(self), *final(self)),
            final(self).pending_impl_blocks == old(self).pending_impl_blocks,
            final(self).type_scopes_by_name == old(self).type_scopes_by_name,
            final(self).len() > old(self).len(),
            others_kept(*old(self), *final(self), parent_id as int),
            child_added(*old(self), *final(self), parent_id as int, old(self).len()),
            final(self).arena@[old(self).len()].name@ == "block_"@ + crate::text_util::decimal_spec(
                index as nat,
            ),
            final(self).arena@[old(self).len()].parent == Some(parent_id),
            forall|k: int|
                0 <= k < block.declarations@.len() ==> final(self).arena@[old(self).len()].symbols.map().dom().contains(
                    (#[trigger] block.declarations@[k]).name@,
                ),
        decreases block,
    {
        let ghost n0 = old(self).len();
        let block_scope = self.new_scope(parent_id, with_decimal("block_", index));
        let ghost t1 = *self;
        let mut i: usize = 0;
        while i < block.declarations.len()
            invariant
                self.wf(),
                stable(*old(self), *self),
                self.pending_impl_blocks == old(self).pending_impl_blocks,
                self.type_scopes_by_name == old(self).type_scopes_by_name,
                block_scope < self.len(),
                block_scope == n0,
                n0 == old(self).len(),
                parent_id < n0,
                self.len() == n0 + 1,
                self.arena@[parent_id as int] == t1.arena@[parent_id as int],
                child_added(*old(self), t1, parent_id as int, n0),
                others_kept(*old(self), *self, parent_id as int),
                self.arena@[n0].name@ == "block_"@ + crate::text_util::decimal_spec(index as nat),
                self.arena@[n0].parent == Some(parent_id),
                i <= block.declarations@.len(),
                forall|k: int|
                    0 <= k < i ==> self.arena@[n0].symbols.map().dom().contains(
                        (#[trigger] block.declarations@[k]).name@,
                    ),
            decreases block.declarations.len() - i,
        {
            let d = &block.declarations[i];
            let ghost t = *self;
            self.define_symbol(block_scope, d.name.clone(), Symbol::Value(d.ty.duplicate()));
            proof {
                assert forall|k: int|
                    0 <= k < i + 1 implies self.arena@[n0].symbols.map().dom().contains(
                    (#[trigger] block.declarations@[k]).name@,
                ) by {
                    if k < i {
                        assert(t.arena@[n0].symbols.map().dom().contains(block.declarations@[k].name@));
                    }
                }
                assert forall|j: int| 0 <= j < n0 && j != parent_id implies #[trigger] self.arena@[j] == old(self).arena@[j] by {
                    assert(t.arena@[j] == old(self).arena@[j]);
                }
            }
            i += 1;
        }
        let mut i: usize = 0;
        while i < block.sub_blocks.len()
            invariant
                self.wf(),
                stable(*old(self), *self),
                self.pending_impl_blocks == old(self).pending_impl_blocks,
                self.type_scopes_by_name == old(self).type_scopes_by_name,
                block_scope < self.len(),
                block_scope == n0,
                n0 == old(self).len(),
                parent_id < n0,
                self.arena@[parent_id as int] == t1.arena@[parent_id as int],
                child_added(*old(self), t1, parent_id as int, n0),
                others_kept(*old(self), *self, parent_id as int),
                self.arena@[n0].name@ == "block_"@ + crate::text_util::decimal_spec(index as nat),
                self.arena@[n0].parent == Some(parent_id),
                forall|k: int|
                    0 <= k < block.declarations@.len() ==> self.arena@[n0].symbols.map().dom().contains(
                        (#[trigger] block.declarations@[k]).name@,
                    ),
            decreases block.sub_blocks.len() - i,
        {
            let ghost t = *self;
            self.register_block(&block.sub_blocks[i], block_scope, i);
            proof {
                assert(self.arena@[n0].symbols == t.arena@[n0].symbols);
                assert forall|j: int| 0 <= j < n0 && j != parent_id implies #[trigger] self.arena@[j] == old(self).arena@[j] by {
                    assert(t.arena@[j] == old(self).arena@[j]);
                }
                assert(self.arena@[parent_id as int] == t.arena@[parent_id as int]);
            }
            i += 1;
        }
    }
}

/// The name an impl block is attached to: the last segment of the type it is for (through a
/// generic's base), or the text of its query; empty for any other form.
pub open spec fn impl_target_name(t: TypeRef) -> Seq<char> {
    match t {
        TypeRef::Resolved(qn) => last_name(qn.deep_view()),
        TypeRef::External(qn) => last_name(qn.deep_view()),
        TypeRef::Unresolved(qn) => last_name(qn.deep_view()),
        TypeRef::ResolutionQuery(q) => crate::model::queries::query_text(q),
        TypeRef::Generic { base, .. } => match *base {
            TypeRef::Resolved(qn) => last_name(qn.deep_view()),
            TypeRef::External(qn) => last_name(qn.deep_view()),
            TypeRef::Unresolved(qn) => last_name(qn.deep_view()),
            TypeRef::ResolutionQuery(q) => crate::model::queries::query_text(q),
            _ => Seq::empty(),
        },
        _ => Seq::empty(),
    }
}

fn path_last_name(t: &TypeRef) -> (r: String)
    ensures
        r@ == match *t {
            TypeRef::Resolved(qn) => last_name(qn.deep_view()),
            TypeRef::External(qn) => last_name(qn.deep_view()),
            TypeRef::Unresolved(qn) => last_name(qn.deep_view()),
            TypeRef::ResolutionQuery(q) => crate::model::queries::query_text(q),
            _ => Seq::empty(),
        },
{
    match t {
        TypeRef::Resolved(qn) => last_or_empty(qn),
        TypeRef::External(qn) => last_or_empty(qn),
        TypeRef::Unresolved(qn) => last_or_empty(qn),
        TypeRef::ResolutionQuery(q) => extract_base_name(q),
        _ => String::new(),
    }
}

/// The name an impl block is attached to.
pub fn impl_target(t: &TypeRef) -> (r: String)
    ensures
        r@ == impl_target_name(*t),
{
    match t {
        TypeRef::Generic { base, .. } => path_last_name(base),
        _ => path_last_name(t),
    }
}

/// Whether a trait reference names `Deref`.
pub fn names_deref(t: &TypeRef) -> (r: bool)
    ensures
        r == (match *t {
            TypeRef::Resolved(qn) => qn.deep_view().len() > 0 && qn.deep_view().last() == "Deref"@,
            TypeRef::Unresolved(qn) => qn.deep_view().len() > 0 && qn.deep_view().last()
                == "Deref"@,
            TypeRef::External(qn) => qn.deep_view().len() > 0 && qn.deep_view().last() == "Deref"@,
            TypeRef::ResolutionQuery(q) => crate::model::queries::query_text(q) == "Deref"@,
            _ => false,
        }),
{
    match t {
        TypeRef::Resolved(qn) | TypeRef::Unresolved(qn) | TypeRef::External(qn) => {
            if qn.len() > 0 {
                str_eq(qn[qn.len() - 1].as_str(), "Deref")
            } else {
                false
            }
        },
        TypeRef::ResolutionQuery(q) => {
            let n = extract_base_name(q);
            str_eq(n.as_str(), "Deref")
        },
        _ => false,
    }
}

/// The existing scope that an impl block for the type named `name` attaches to, seen from the
/// module scope `parent`: the type bound to `name` there, else the first type scope of that
/// name anywhere.
pub open spec fn impl_scope_found(t: ScopeTree, parent: int, name: Seq<char>) -> Option<ScopeId> {
    let syms = t.arena@[parent].symbols.map();
    if syms.dom().contains(name) && syms[name] is Type {
        Some(syms[name]->Type_0)
    } else if ids_under(t.type_scopes_by_name.map(), name).len() > 0 {
        Some(ids_under(t.type_scopes_by_name.map(), name)[0])
    } else {
        None
    }
}

/// The scope an impl block for `name` is registered in: the one found, else a new one.
pub open spec fn impl_class_scope(t: ScopeTree, parent: int, name: Seq<char>) -> ScopeId {
    match impl_scope_found(t, parent, name) {
        Some(id) => id,
        None => t.len() as ScopeId,
    }
}

/// The tree after an impl block `ib` of the module scope `parent` was registered: where no
/// scope was found, a new one named after the target hangs under `parent` and is bound there
/// and recorded by name; no scope but `parent` and the target's changed; in the target's scope
/// the self-type keyword, every method bound under its name and every alias have a binding.
pub open spec fn impl_block_registered(
    old: ScopeTree,
    new: ScopeTree,
    ib: ImplBlock,
    parent: ScopeId,
    self_kw: Option<Seq<char>>,
) -> bool {
    let name = impl_target_name(ib.impl_for);
    let c = impl_class_scope(old, parent as int, name);
    &&& c < new.len()
    &&& forall|j: int| 0 <= j < old.len() && j != parent && j != c ==> #[trigger] new.arena@[j] == old.arena@[j]
    &&& impl_scope_found(old, parent as int, name) is None ==> {
        &&& new.arena@[c as int].name@ == name
        &&& new.arena@[c as int].parent == Some(parent)
        &&& new.arena@[parent as int].symbols.map().dom().contains(name)
        &&& new.arena@[parent as int].symbols.map()[name] == Symbol::Type(c)
    }
    &&& self_kw matches Some(kw) ==> new.arena@[c as int].symbols.map().dom().contains(kw)
    &&& forall|k: int|
        0 <= k < ib.methods@.len() && bound_as_method(#[trigger] ib.methods@[k], name)
            ==> new.arena@[c as int].symbols.map().dom().contains(last_name(ib.methods@[k].name.deep_view()))
    &&& forall|k: int|
        0 <= k < ib.type_aliases@.len() ==> new.arena@[c as int].symbols.map().dom().contains(
            last_name((#[trigger] ib.type_aliases@[k]).name.deep_view()),
        )
}

impl ScopeTree {
    /// Registers an impl block of the module scope `parent_id`: its methods, nested types and
    /// aliases go to the scope of the type it is for (in the module, else anywhere by name, else
    /// a new scope). An alias named `Target` in an impl of `Deref` makes its target a super type.
    fn register_impl_block(
        &mut self,
        ib: &ImplBlock,
        parent_id: ScopeId,
        config: &AnalyzerConfig,
        lang: &str,
    )
        requires
            old(self).wf(),
            parent_id < old(self).len(),
            config.wf(),
        ensures
            final(self).wf(),
            stable(*old(self), *final(self)),
            final(self).pending_impl_blocks == old(self).pending_impl_blocks,
            all_grow(*old(self), *final(self)),
            impl_target_name(ib.impl_for) == Seq::<char>::empty() ==> *final(self) == *old(self),
            impl_target_name(ib.impl_for) != Seq::<char>::empty() ==> impl_block_registered(
                *old(self),
                *final(self),
                *ib,
                parent_id,
                opt_str_view(config.strategy_for(lang@).self_type_keyword),
            ),
    {
        let ghost n0 = old(self).len();
        let target_name = impl_target(&ib.impl_for);
        proof {
            reveal_strlit("");
        }
        if str_eq(target_name.as_str(), "") {
            assert(target_name@ =~= Seq::<char>::empty());
            proof {
                lemma_all_grow_refl(*self);
            }
            return ;
        }
        assert(target_name@ != Seq::<char>::empty()) by {
            if target_name@ == Seq::<char>::empty() {
                assert(target_name@ =~= ""@);
            }
        }
        assert(scope_wf(self.arena@[parent_id as int], parent_id as int, self.len()));
        let mut target: Option<ScopeId> = match self.arena[parent_id].symbols.get(&target_name) {
            Some(Symbol::Type(id)) => Some(*id),
            _ => None,
        };
        if target.is_none() {
            match self.type_scopes_by_name.get(&target_name) {
                Some(ids) => {
                    if ids.len() > 0 {
                        target = Some(ids[0]);
                    }
                },
                None => {},
            }
        }
        assert(target == impl_scope_found(*old(self), parent_id as int, target_name@));
        let class_scope = match target {
            Some(id) => id,
            None => {
                let id = self.new_scope(parent_id, target_name.clone());
                let ghost ta = *self;
                self.define_symbol(parent_id, target_name.clone(), Symbol::Type(id));
                self.add_type_scope(&target_name, id);
                proof {
                    assert forall|j: int| 0 <= j < n0 && j != parent_id implies #[trigger] self.arena@[j] == old(self).arena@[j] by {
                        assert(ta.arena@[j] == old(self).arena@[j]);
                    }
                    assert(self.arena@[id as int].name@ == target_name@);
                    assert(self.arena@[id as int].parent == Some(parent_id));
                    assert(self.arena@[parent_id as int].symbols.map().dom().contains(target_name@));
                    assert(self.arena@[parent_id as int].symbols.map()[target_name@] == Symbol::Type(id));
                }
                id
            },
        };
        assert(class_scope == impl_class_scope(*old(self), parent_id as int, target_name@));
        let ghost tb = *self;
        proof {
            if target is Some {
                assert(*self == *old(self));
            }
            assert forall|j: int, k: Seq<char>|
                0 <= j < n0 && j != class_scope && old(self).arena@[j].symbols.map().dom().contains(k) implies #[trigger] self.arena@[j].symbols.map().dom().contains(k) by {
                if j != parent_id {
                    assert(self.arena@[j] == old(self).arena@[j]);
                }
            }
        }
        if let Some(kw) = &config.get_for(lang).self_type_keyword {
            self.define_symbol(class_scope, kw.clone(), Symbol::TypeAlias(ib.impl_for.duplicate()));
        }
        let ghost tc = *self;
        proof {
            assert forall|k: Seq<char>| tb.arena@[class_scope as int].symbols.map().dom().contains(k) implies #[trigger] tc.arena@[class_scope as int].symbols.map().dom().contains(k) by {
            }
            assert forall|j: int, k: Seq<char>|
                0 <= j < n0 && j != class_scope && old(self).arena@[j].symbols.map().dom().contains(k) implies #[trigger] tc.arena@[j].symbols.map().dom().contains(k) by {
                assert(tc.arena@[j] == tb.arena@[j]);
            }
        }
        self.register_methods(&ib.methods, class_scope, &target_name, config, lang, &ib.impl_for);
        proof {
            assert forall|k: Seq<char>| tb.arena@[class_scope as int].symbols.map().dom().contains(k) implies #[trigger] self.arena@[class_scope as int].symbols.map().dom().contains(k) by {
                assert(tc.arena@[class_scope as int].symbols.map().dom().contains(k));
            }
            assert forall|j: int, k: Seq<char>|
                0 <= j < n0 && j != class_scope && old(self).arena@[j].symbols.map().dom().contains(k) implies #[trigger] self.arena@[j].symbols.map().dom().contains(k) by {
                assert(tc.arena@[j].symbols.map().dom().contains(k));
                assert(self.arena@[j] == tc.arena@[j]);
            }
            assert forall|j: int| 0 <= j < n0 && j != parent_id && j != class_scope implies #[trigger] self.arena@[j] == old(self).arena@[j] by {
                assert(tb.arena@[j] == old(self).arena@[j]);
                assert(tc.arena@[j] == tb.arena@[j]);
            }
            if target is None {
                assert(self.arena@[parent_id as int] == tb.arena@[parent_id as int]);
            }
            if let Some(kw) = config.strategy_for(lang@).self_type_keyword {
                assert(tc.arena@[class_scope as int].symbols.map().dom().contains(kw@));
            }
        }
        let mut i: usize = 0;
        while i < ib.nested_types.len()
            invariant
                self.wf(),
                stable(*old(self), *self),
                self.pending_impl_blocks == old(self).pending_impl_blocks,
                class_scope < self.len(),
                n0 == old(self).len(),
                parent_id < n0,
                stable(tb, *self),
                class_scope < tb.len(),
                forall|j: int, k: Seq<char>|
                    0 <= j < n0 && j != class_scope && old(self).arena@[j].symbols.map().dom().contains(k)
                        ==> #[trigger] self.arena@[j].symbols.map().dom().contains(k),
                forall|j: int, k: Seq<char>|
                    0 <= j < n0 && j != class_scope && old(self).arena@[j].symbols.map().dom().contains(k)
                        ==> #[trigger] tb.arena@[j].symbols.map().dom().contains(k),
                class_scope < n0 ==> tb.arena@[class_scope as int] == old(self).arena@[class_scope as int],
                forall|k: Seq<char>|
                    tb.arena@[class_scope as int].symbols.map().dom().contains(k) ==> #[trigger] self.arena@[class_scope as int].symbols.map().dom().contains(k),
                target is None ==> class_scope == n0 && self.arena@[parent_id as int] == tb.arena@[parent_id as int],
                config.wf(),
                forall|j: int|
                    0 <= j < n0 && j != parent_id && j != class_scope ==> #[trigger] self.arena@[j] == old(self).arena@[j],
                forall|k: int|
                    0 <= k < ib.methods@.len() && bound_as_method(#[trigger] ib.methods@[k], target_name@)
                        ==> self.arena@[class_scope as int].symbols.map().dom().contains(
                        last_name(ib.methods@[k].name.deep_view()),
                    ),
                config.strategy_for(lang@).self_type_keyword matches Some(kw) ==> self.arena@[class_scope as int].symbols.map().dom().contains(kw@),
            decreases ib.nested_types.len() - i,
        {
            let ghost t = *self;
            self.register_structured_type(&ib.nested_types[i], class_scope, config, lang);
            proof {
                if target is None {
                    assert(self.arena@[parent_id as int] == t.arena@[parent_id as int]);
                }
                assert forall|j: int| 0 <= j < n0 && j != parent_id && j != class_scope implies #[trigger] self.arena@[j] == old(self).arena@[j] by {
                    assert(t.arena@[j] == old(self).arena@[j]);
                }
                assert forall|k: Seq<char>| t.arena@[class_scope as int].symbols.map().dom().contains(k) implies #[trigger] self.arena@[class_scope as int].symbols.map().dom().contains(k) by {
                }
                assert forall|k: Seq<char>| tb.arena@[class_scope as int].symbols.map().dom().contains(k) implies #[trigger] self.arena@[class_scope as int].symbols.map().dom().contains(k) by {
                    assert(t.arena@[class_scope as int].symbols.map().dom().contains(k));
                }
                assert forall|j: int, k: Seq<char>|
                    0 <= j < n0 && j != class_scope && old(self).arena@[j].symbols.map().dom().contains(k) implies #[trigger] self.arena@[j].symbols.map().dom().contains(k) by {
                    assert(t.arena@[j].symbols.map().dom().contains(k));
                    assert(self.arena@[j] == t.arena@[j]);
                }
            }
            i += 1;
        }
        let mut i: usize = 0;
        while i < ib.type_aliases.len()
            invariant
                self.wf(),
                stable(*old(self), *self),
                self.pending_impl_blocks == old(self).pending_impl_blocks,
                class_scope < self.len(),
                n0 == old(self).len(),
                parent_id < n0,
                stable(tb, *self),
                class_scope < tb.len(),
                forall|j: int, k: Seq<char>|
                    0 <= j < n0 && j != class_scope && old(self).arena@[j].symbols.map().dom().contains(k)
                        ==> #[trigger] self.arena@[j].symbols.map().dom().contains(k),
                forall|j: int, k: Seq<char>|
                    0 <= j < n0 && j != class_scope && old(self).arena@[j].symbols.map().dom().contains(k)
                        ==> #[trigger] tb.arena@[j].symbols.map().dom().contains(k),
                class_scope < n0 ==> tb.arena@[class_scope as int] == old(self).arena@[class_scope as int],
                forall|k: Seq<char>|
                    tb.arena@[class_scope as int].symbols.map().dom().contains(k) ==> #[trigger] self.arena@[class_scope as int].symbols.map().dom().contains(k),
                target is None ==> class_scope == n0 && self.arena@[parent_id as int] == tb.arena@[parent_id as int],
                forall|j: int|
                    0 <= j < n0 && j != parent_id && j != class_scope ==> #[trigger] self.arena@[j] == old(self).arena@[j],
                forall|k: int|
                    0 <= k < ib.methods@.len() && bound_as_method(#[trigger] ib.methods@[k], target_name@)
                        ==> self.arena@[class_scope as int].symbols.map().dom().contains(
                        last_name(ib.methods@[k].name.deep_view()),
                    ),
                config.strategy_for(lang@).self_type_keyword matches Some(kw) ==> self.arena@[class_scope as int].symbols.map().dom().contains(kw@),
                i <= ib.type_aliases@.len(),
                forall|k: int|
                    0 <= k < i ==> self.arena@[class_scope as int].symbols.map().dom().contains(
                        last_name((#[trigger] ib.type_aliases@[k]).name.deep_view()),
                    ),
            decreases ib.type_aliases.len() - i,
        {
            let ta = &ib.type_aliases[i];
            let ta_name = last_or_empty(&ta.name);
            let is_target = str_eq(ta_name.as_str(), "Target");
            let ghost t = *self;
            self.define_symbol(class_scope, ta_name, Symbol::TypeAlias(ta.target.duplicate()));
            if is_target {
                if let Some(trait_ref) = &ib.implements_trait {
                    if names_deref(trait_ref) {
                        self.add_super_type(class_scope, ta.target.duplicate());
                    }
                }
            }
            proof {
                if target is None {
                    assert(self.arena@[parent_id as int] == t.arena@[parent_id as int]);
                }
                assert forall|j: int| 0 <= j < n0 && j != parent_id && j != class_scope implies #[trigger] self.arena@[j] == old(self).arena@[j] by {
                    assert(t.arena@[j] == old(self).arena@[j]);
                }
                assert forall|k: Seq<char>| t.arena@[class_scope as int].symbols.map().dom().contains(k) implies #[trigger] self.arena@[class_scope as int].symbols.map().dom().contains(k) by {
                }
                assert forall|k: Seq<char>| tb.arena@[class_scope as int].symbols.map().dom().contains(k) implies #[trigger] self.arena@[class_scope as int].symbols.map().dom().contains(k) by {
                    assert(t.arena@[class_scope as int].symbols.map().dom().contains(k));
                }
                assert forall|j: int, k: Seq<char>|
                    0 <= j < n0 && j != class_scope && old(self).arena@[j].symbols.map().dom().contains(k) implies #[trigger] self.arena@[j].symbols.map().dom().contains(k) by {
                    assert(t.arena@[j].symbols.map().dom().contains(k));
                    assert(self.arena@[j] == t.arena@[j]);
                }
                assert forall|k: int|
                    0 <= k < i + 1 implies self.arena@[class_scope as int].symbols.map().dom().contains(
                    last_name((#[trigger] ib.type_aliases@[k]).name.deep_view()),
                ) by {
                    if k < i {
                        assert(t.arena@[class_scope as int].symbols.map().dom().contains(last_name(ib.type_aliases@[k].name.deep_view())));
                    }
                }
            }
            i += 1;
        }
        proof {
            assert forall|j: int, k: Seq<char>|
                0 <= j < old(self).len() && old(self).arena@[j].symbols.map().dom().contains(k) implies #[trigger] self.arena@[j].symbols.map().dom().contains(k) by {
                if j == class_scope {
                    assert(tb.arena@[j] == old(self).arena@[j]);
                    assert(tb.arena@[class_scope as int].symbols.map().dom().contains(k));
                }
            }
        }
    }

    /// Builds the scope tree of a set of modules: the root scope, every module registered under
    /// it, then every impl block attached to the type it is for.
    pub fn build(modules: &Vec<Module>, config: &AnalyzerConfig) -> (r: ScopeTree)
        requires
            config.wf(),
        ensures
            r.wf(),
            r.arena@[0].name@ == "root"@,
            r.pending_impl_blocks@.len() == 0,
            all_modules_bound(r, modules@),
    {
        let mut tree = ScopeTree::new_root();
        let ghost first = tree;
        let mut i: usize = 0;
        while i < modules.len()
            invariant
                tree.wf(),
                stable(first, tree),
                first.arena@[0].name@ == "root"@,
                config.wf(),
                i <= modules@.len(),
                forall|k: int| 0 <= k < i ==> #[trigger] bound_somewhere(tree, modules@[k]),
            decreases modules.len() - i,
        {
            let ghost t = tree;
            tree.register_module(&modules[i], 0, config);
            proof {
                assert forall|k: int| 0 <= k < i + 1 implies #[trigger] bound_somewhere(tree, modules@[k]) by {
                    if k == i {
                        let ms = choose|ms: int| 0 <= ms < tree.len() && module_bound(tree.arena@[ms], modules@[k]);
                        assert(module_bound(tree.arena@[ms], modules@[k]));
                    } else {
                        assert(bound_somewhere(t, modules@[k]));
                        let ms = choose|ms: int| 0 <= ms < t.len() && module_bound(t.arena@[ms], modules@[k]);
                        lemma_bound_upto_grow(t.arena@[ms], tree.arena@[ms], modules@[k],
                            modules@[k].type_aliases@.len() as int, modules@[k].structured_types@.len() as int,
                            modules@[k].free_functions@.len() as int, modules@[k].free_variables@.len() as int);
                        assert(module_bound(tree.arena@[ms], modules@[k]));
                    }
                }
            }
            i += 1;
        }
        let mut pending: Vec<(ImplBlock, ScopeId, String)> = Vec::new();
        let ghost pre = tree;
        std::mem::swap(&mut pending, &mut tree.pending_impl_blocks);
        let ghost mid = tree;
        proof {
            assert(tree.arena == pre.arena);
            assert forall|k: int| 0 <= k < modules@.len() implies #[trigger] bound_somewhere(tree, modules@[k]) by {
                assert(bound_somewhere(pre, modules@[k]));
                let ms = choose|ms: int| 0 <= ms < pre.len() && module_bound(pre.arena@[ms], modules@[k]);
                assert(tree.arena@[ms] == pre.arena@[ms]);
                assert(module_bound(tree.arena@[ms], modules@[k]));
            }
            assert(all_modules_bound(tree, modules@));
            assert forall|j: int| 0 <= j < pending@.len() implies #[trigger] pending@[j].1 < mid.len() by {
            }
            assert(tree.wf()) by {
                assert forall|j: int| 0 <= j < tree.len() implies #[trigger] scope_wf(tree.arena@[j], j, tree.len()) by {
                }
                assert forall|k: Seq<char>|
                    tree.type_scopes_by_name.map().dom().contains(k) implies ids_in_bounds(
                    #[trigger] tree.type_scopes_by_name.map()[k]@,
                    tree.len(),
                ) by {
                }
            }
        }
        let mut i: usize = 0;
        while i < pending.len()
            invariant
                tree.wf(),
                stable(first, tree),
                first.arena@[0].name@ == "root"@,
                tree.pending_impl_blocks@.len() == 0,
                config.wf(),
                mid.len() <= tree.len(),
                forall|j: int| 0 <= j < pending@.len() ==> #[trigger] pending@[j].1 < mid.len(),
                all_modules_bound(tree, modules@),
            decreases pending.len() - i,
        {
            assert(pending@[i as int].1 < mid.len());
            let ghost t = tree;
            tree.register_impl_block(&pending[i].0, pending[i].1, config, pending[i].2.as_str());
            proof {
                assert forall|k: int| 0 <= k < modules@.len() implies #[trigger] bound_somewhere(tree, modules@[k]) by {
                    assert(bound_somewhere(t, modules@[k]));
                    let ms = choose|ms: int| 0 <= ms < t.len() && module_bound(t.arena@[ms], modules@[k]);
                    lemma_bound_upto_grow(t.arena@[ms], tree.arena@[ms], modules@[k],
                        modules@[k].type_aliases@.len() as int, modules@[k].structured_types@.len() as int,
                        modules@[k].free_functions@.len() as int, modules@[k].free_variables@.len() as int);
                    assert(module_bound(tree.arena@[ms], modules@[k]));
                }
                assert(all_modules_bound(tree, modules@));
            }
            i += 1;
        }
        tree
    }
}

} // verus!
