//! The global registry: a flat index from the absolute path of every declaration (module,
//! structured type, function, field) to what it is.
use crate::assoc::{AssocMap, MapKey};
use crate::model::components::{ImplBlock, Import, Module, StructuredType};
use crate::model::queries::{clone_qn, clone_typerefs, TypeRef};
use crate::resolver::scope::contains_import;
use vstd::prelude::*;

verus! {

/// What a registered path is, with what type inference needs of it.
pub enum RegistryEntry {
    Module { imports: Vec<Import> },
    StructuredType { super_types: Vec<TypeRef> },
    Function { return_type: TypeRef },
    Field { field_type: TypeRef },
}

/// The index of every absolute path of the analysed project.
pub struct GlobalRegistry {
    pub paths: AssocMap<Vec<String>, RegistryEntry>,
}

/// The paths a structured type registers under `prefix`: its own, its fields', its methods',
/// and those of its nested types.
pub open spec fn type_keys(st: StructuredType, prefix: Seq<Seq<char>>) -> Set<Seq<Seq<char>>>
    decreases st, 0nat,
{
    let p = prefix + st.name.deep_view();
    set![p].union(field_keys(st.fields@, p, st.fields@.len() as int)).union(
        function_keys(st.methods@, p, st.methods@.len() as int),
    ).union(types_keys(st.nested_types@, p))
}

/// The paths of the first `n` fields under `p`.
pub open spec fn field_keys(fs: Seq<crate::model::components::Field>, p: Seq<Seq<char>>, n: int) -> Set<Seq<Seq<char>>> {
    Set::new(|k: Seq<Seq<char>>| exists|i: int| 0 <= i < n && k == p.push((#[trigger] fs[i]).name@))
}

/// The paths of the first `n` functions under `p`.
pub open spec fn function_keys(fs: Seq<crate::model::components::Function>, p: Seq<Seq<char>>, n: int) -> Set<Seq<Seq<char>>> {
    Set::new(|k: Seq<Seq<char>>| exists|i: int| 0 <= i < n && k == p + (#[trigger] fs[i]).name.deep_view())
}

/// The segment under which an impl block registers its members: the last segment of the
/// path it is for, or the text of its query; empty for any other form.
pub open spec fn impl_segment(t: TypeRef) -> Seq<char> {
    match t {
        TypeRef::Unresolved(qn) => crate::resolver::scope::last_name(qn.deep_view()),
        TypeRef::Resolved(qn) => crate::resolver::scope::last_name(qn.deep_view()),
        TypeRef::ResolutionQuery(q) => crate::model::queries::query_text(q),
        _ => Seq::empty(),
    }
}

/// The paths an impl block registers under the module path `p`: under `p` and its segment,
/// its methods and nested types (nothing when the segment is empty).
pub open spec fn impl_keys(ib: ImplBlock, p: Seq<Seq<char>>) -> Set<Seq<Seq<char>>> {
    let t = impl_segment(ib.impl_for);
    if t.len() == 0 {
        Set::empty()
    } else {
        function_keys(ib.methods@, p.push(t), ib.methods@.len() as int).union(
            types_keys(ib.nested_types@, p.push(t)),
        )
    }
}

pub open spec fn impls_keys(s: Seq<ImplBlock>, p: Seq<Seq<char>>) -> Set<Seq<Seq<char>>>
    decreases s.len(),
{
    if s.len() == 0 {
        Set::empty()
    } else {
        impls_keys(s.drop_last(), p).union(impl_keys(s.last(), p))
    }
}

pub open spec fn types_keys(s: Seq<StructuredType>, prefix: Seq<Seq<char>>) -> Set<Seq<Seq<char>>>
    decreases s, 1nat,
{
    if s.len() == 0 {
        Set::empty()
    } else {
        types_keys(s.drop_last(), prefix).union(type_keys(s.last(), prefix))
    }
}

/// The paths a module registers under `prefix`: its own, its types', its free functions', its
/// impl blocks' members, and those of its submodules.
pub open spec fn module_keys(m: Module, prefix: Seq<Seq<char>>) -> Set<Seq<Seq<char>>>
    decreases m, 0nat,
{
    let p = prefix + m.name.deep_view();
    set![p].union(types_keys(m.structured_types@, p)).union(
        function_keys(m.free_functions@, p, m.free_functions@.len() as int),
    ).union(impls_keys(m.impl_blocks@, p)).union(modules_keys(m.sub_modules@, p))
}

pub open spec fn modules_keys(s: Seq<Module>, prefix: Seq<Seq<char>>) -> Set<Seq<Seq<char>>>
    decreases s, 1nat,
{
    if s.len() == 0 {
        Set::empty()
    } else {
        modules_keys(s.drop_last(), prefix).union(module_keys(s.last(), prefix))
    }
}

fn concat(a: &Vec<String>, b: &Vec<String>) -> (r: Vec<String>)
    ensures
        r.deep_view() == a.deep_view() + b.deep_view(),
{
    let mut r = clone_qn(a);
    let mut i: usize = 0;
    while i < b.len()
        invariant
            i <= b@.len(),
            r.deep_view() == a.deep_view() + b.deep_view().take(i as int),
        decreases b.len() - i,
    {
        let ghost before = r.deep_view();
        r.push(b[i].clone());
        assert(r.deep_view() =~= before.push(b@[i as int]@));
        assert(b.deep_view().take(i + 1) =~= b.deep_view().take(i as int).push(b@[i as int]@));
        i += 1;
    }
    assert(b.deep_view().take(b@.len() as int) =~= b.deep_view());
    r
}

impl GlobalRegistry {
    pub open spec fn wf(&self) -> bool {
        self.paths.wf()
    }

    /// The registered paths.
    pub open spec fn keys(&self) -> Set<Seq<Seq<char>>> {
        self.paths.map().dom()
    }

    /// Builds the registry of a set of modules: every module, structured type, free function,
    /// field and method is registered under its absolute path (a module keeps the imports of
    /// every module registered under its path, each once). The registered paths are exactly
    /// those.
    pub fn build(modules: &Vec<Module>) -> (r: GlobalRegistry)
        ensures
            r.wf(),
            r.keys() == modules_keys(modules@, Seq::empty()),
    {
        let mut registry = GlobalRegistry { paths: AssocMap::new() };
        let empty: Vec<String> = Vec::new();
        assert(empty.deep_view() =~= Seq::<Seq<char>>::empty());
        assert(registry.keys() =~= modules_keys(modules@.take(0), Seq::empty()));
        let mut i: usize = 0;
        while i < modules.len()
            invariant
                i <= modules@.len(),
                registry.wf(),
                empty.deep_view() == Seq::<Seq<char>>::empty(),
                registry.keys() == modules_keys(modules@.take(i as int), Seq::empty()),
            decreases modules.len() - i,
        {
            registry.register_module(&modules[i], &empty);
            assert(modules@.take(i + 1).drop_last() =~= modules@.take(i as int));
            assert(modules@.take(i + 1).last() == modules@[i as int]);
            i += 1;
        }
        assert(modules@.take(modules@.len() as int) =~= modules@);
        registry
    }

    fn put(&mut self, key: Vec<String>, entry: RegistryEntry)
        requires
            old(self).wf(),
        ensures
            final(self).wf(),
            final(self).keys() == old(self).keys().insert(key.deep_view()),
    {
        let ghost k = key.deep_view();
        self.paths.insert(key, entry);
        assert(self.keys() =~= old(self).keys().insert(k));
    }

    /// Registers a module under `prefix`, then its types, free functions, impl blocks and
    /// submodules.
    fn register_module(&mut self, m: &Module, prefix: &Vec<String>)
        requires
            old(self).wf(),
        ensures
            final(self).wf(),
            final(self).keys() == old(self).keys().union(module_keys(*m, prefix.deep_view())),
        decreases m,
    {
        let path = concat(prefix, &m.name);
        let ghost p = path.deep_view();
        let entry = match self.paths.take_value(&path) {
            Some(RegistryEntry::Module { imports }) => {
                let mut imports = imports;
                let mut i: usize = 0;
                while i < m.imports.len()
                    decreases m.imports.len() - i,
                {
                    if !contains_import(&imports, &m.imports[i]) {
                        imports.push(m.imports[i].duplicate());
                    }
                    i += 1;
                }
                RegistryEntry::Module { imports }
            },
            Some(other) => other,
            None => RegistryEntry::Module { imports: Vec::new() },
        };
        let ghost k_mid = self.keys();
        self.put(clone_qn(&path), entry);
        let ghost k0 = old(self).keys().insert(p);
        assert(self.keys() =~= k0) by {
            assert(k_mid.insert(p) =~= old(self).keys().insert(p));
        }
        assert(self.keys() =~= k0.union(types_keys(m.structured_types@.take(0), p)));
        let mut i: usize = 0;
        while i < m.structured_types.len()
            invariant
                i <= m.structured_types@.len(),
                self.wf(),
                p == path.deep_view(),
                self.keys() == k0.union(types_keys(m.structured_types@.take(i as int), p)),
            decreases m.structured_types.len() - i,
        {
            self.register_structured_type(&m.structured_types[i], &path);
            assert(m.structured_types@.take(i + 1).drop_last() =~= m.structured_types@.take(i as int));
            assert(m.structured_types@.take(i + 1).last() == m.structured_types@[i as int]);
            assert(self.keys() =~= k0.union(types_keys(m.structured_types@.take(i + 1), p)));
            i += 1;
        }
        assert(m.structured_types@.take(m.structured_types@.len() as int) =~= m.structured_types@);
        let ghost k1 = k0.union(types_keys(m.structured_types@, p));
        assert(self.keys() =~= k1.union(function_keys(m.free_functions@, p, 0)));
        let mut i: usize = 0;
        while i < m.free_functions.len()
            invariant
                i <= m.free_functions@.len(),
                self.wf(),
                p == path.deep_view(),
                self.keys() == k1.union(function_keys(m.free_functions@, p, i as int)),
            decreases m.free_functions.len() - i,
        {
            let ff = &m.free_functions[i];
            let ghost before = self.keys();
            self.put(concat(&path, &ff.name), RegistryEntry::Function { return_type: ff.signature.return_type.duplicate() });
            assert(self.keys() =~= k1.union(function_keys(m.free_functions@, p, i + 1))) by {
                assert forall|k: Seq<Seq<char>>| function_keys(m.free_functions@, p, i + 1).contains(k) implies
                    function_keys(m.free_functions@, p, i as int).contains(k) || k == p + m.free_functions@[i as int].name.deep_view() by {
                    let j = choose|j: int| 0 <= j < i + 1 && k == p + (#[trigger] m.free_functions@[j]).name.deep_view();
                    if j < i {
                        assert(function_keys(m.free_functions@, p, i as int).contains(k));
                    }
                }
                assert(function_keys(m.free_functions@, p, i + 1).contains(p + m.free_functions@[i as int].name.deep_view()));
                assert forall|k: Seq<Seq<char>>| function_keys(m.free_functions@, p, i as int).contains(k) implies
                    function_keys(m.free_functions@, p, i + 1).contains(k) by {
                    let j = choose|j: int| 0 <= j < i && k == p + (#[trigger] m.free_functions@[j]).name.deep_view();
                }
            }
            i += 1;
        }
        let ghost k2 = k1.union(function_keys(m.free_functions@, p, m.free_functions@.len() as int));
        assert(self.keys() =~= k2.union(impls_keys(m.impl_blocks@.take(0), p)));
        let mut i: usize = 0;
        while i < m.impl_blocks.len()
            invariant
                i <= m.impl_blocks@.len(),
                self.wf(),
                p == path.deep_view(),
                self.keys() == k2.union(impls_keys(m.impl_blocks@.take(i as int), p)),
            decreases m.impl_blocks.len() - i,
        {
            let ib = &m.impl_blocks[i];
            let ghost kb = self.keys();
            let target_name = match &ib.impl_for {
                TypeRef::Unresolved(qn) | TypeRef::Resolved(qn) => crate::resolver::scope::last_or_empty(qn),
                TypeRef::ResolutionQuery(q) => crate::resolver::executor::extract_base_name(q),
                _ => String::new(),
            };
            assert(target_name@ == impl_segment(ib.impl_for));
            proof {
                reveal_strlit("");
            }
            if !crate::text_util::str_eq(target_name.as_str(), "") {
                let mut target_prefix = clone_qn(&path);
                let ghost tn = target_name@;
                target_prefix.push(target_name);
                let ghost tp = target_prefix.deep_view();
                assert(tp =~= p.push(tn));
                assert(self.keys() =~= kb.union(function_keys(ib.methods@, tp, 0)));
                let mut k: usize = 0;
                while k < ib.methods.len()
                    invariant
                        k <= ib.methods@.len(),
                        self.wf(),
                        tp == target_prefix.deep_view(),
                        self.keys() == kb.union(function_keys(ib.methods@, tp, k as int)),
                    decreases ib.methods.len() - k,
                {
                    let method = &ib.methods[k];
                    self.put(concat(&target_prefix, &method.name), RegistryEntry::Function { return_type: method.signature.return_type.duplicate() });
                    assert(self.keys() =~= kb.union(function_keys(ib.methods@, tp, k + 1))) by {
                        assert forall|x: Seq<Seq<char>>| function_keys(ib.methods@, tp, k + 1).contains(x) implies
                            function_keys(ib.methods@, tp, k as int).contains(x) || x == tp + ib.methods@[k as int].name.deep_view() by {
                            let j = choose|j: int| 0 <= j < k + 1 && x == tp + (#[trigger] ib.methods@[j]).name.deep_view();
                            if j < k {
                                assert(function_keys(ib.methods@, tp, k as int).contains(x));
                            }
                        }
                        assert(function_keys(ib.methods@, tp, k + 1).contains(tp + ib.methods@[k as int].name.deep_view()));
                        assert forall|x: Seq<Seq<char>>| function_keys(ib.methods@, tp, k as int).contains(x) implies
                            function_keys(ib.methods@, tp, k + 1).contains(x) by {
                            let j = choose|j: int| 0 <= j < k && x == tp + (#[trigger] ib.methods@[j]).name.deep_view();
                        }
                    }
                    k += 1;
                }
                let ghost kc = kb.union(function_keys(ib.methods@, tp, ib.methods@.len() as int));
                assert(self.keys() =~= kc.union(types_keys(ib.nested_types@.take(0), tp)));
                let mut k: usize = 0;
                while k < ib.nested_types.len()
                    invariant
                        k <= ib.nested_types@.len(),
                        self.wf(),
                        tp == target_prefix.deep_view(),
                        self.keys() == kc.union(types_keys(ib.nested_types@.take(k as int), tp)),
                    decreases ib.nested_types.len() - k,
                {
                    self.register_structured_type(&ib.nested_types[k], &target_prefix);
                    assert(ib.nested_types@.take(k + 1).drop_last() =~= ib.nested_types@.take(k as int));
                    assert(ib.nested_types@.take(k + 1).last() == ib.nested_types@[k as int]);
                    assert(self.keys() =~= kc.union(types_keys(ib.nested_types@.take(k + 1), tp)));
                    k += 1;
                }
                assert(ib.nested_types@.take(ib.nested_types@.len() as int) =~= ib.nested_types@);
                assert(tn == impl_segment(ib.impl_for));
                assert(tn.len() != 0) by {
                    if tn.len() == 0 {
                        assert(tn =~= ""@);
                    }
                }
                assert(impl_keys(*ib, p) == function_keys(ib.methods@, tp, ib.methods@.len() as int).union(
                    types_keys(ib.nested_types@, tp),
                ));
                assert(self.keys() =~= kb.union(impl_keys(*ib, p)));
            } else {
                assert(impl_segment(ib.impl_for) =~= Seq::<char>::empty());
                assert(self.keys() =~= kb.union(impl_keys(*ib, p)));
            }
            assert(m.impl_blocks@.take(i + 1).drop_last() =~= m.impl_blocks@.take(i as int));
            assert(m.impl_blocks@.take(i + 1).last() == m.impl_blocks@[i as int]);
            assert(self.keys() =~= k2.union(impls_keys(m.impl_blocks@.take(i + 1), p)));
            i += 1;
        }
        assert(m.impl_blocks@.take(m.impl_blocks@.len() as int) =~= m.impl_blocks@);
        let ghost k3 = k2.union(impls_keys(m.impl_blocks@, p));
        assert(self.keys() =~= k3.union(modules_keys(m.sub_modules@.take(0), p)));
        let mut i: usize = 0;
        while i < m.sub_modules.len()
            invariant
                i <= m.sub_modules@.len(),
                self.wf(),
                p == path.deep_view(),
                self.keys() == k3.union(modules_keys(m.sub_modules@.take(i as int), p)),
            decreases m.sub_modules.len() - i,
        {
            self.register_module(&m.sub_modules[i], &path);
            assert(m.sub_modules@.take(i + 1).drop_last() =~= m.sub_modules@.take(i as int));
            assert(m.sub_modules@.take(i + 1).last() == m.sub_modules@[i as int]);
            assert(self.keys() =~= k3.union(modules_keys(m.sub_modules@.take(i + 1), p)));
            i += 1;
        }
        assert(m.sub_modules@.take(m.sub_modules@.len() as int) =~= m.sub_modules@);
        assert(self.keys() =~= old(self).keys().union(module_keys(*m, prefix.deep_view())));
    }

    /// Registers a structured type under `prefix`, with its fields, methods and nested types.
    fn register_structured_type(&mut self, st: &StructuredType, prefix: &Vec<String>)
        requires
            old(self).wf(),
        ensures
            final(self).wf(),
            final(self).keys() == old(self).keys().union(type_keys(*st, prefix.deep_view())),
        decreases st,
    {
        let path = concat(prefix, &st.name);
        let ghost p = path.deep_view();
        self.put(clone_qn(&path), RegistryEntry::StructuredType { super_types: clone_typerefs(&st.super_types) });
        let ghost k0 = old(self).keys().insert(p);
        assert(self.keys() =~= k0.union(field_keys(st.fields@, p, 0)));
        let mut i: usize = 0;
        while i < st.fields.len()
            invariant
                i <= st.fields@.len(),
                self.wf(),
                p == path.deep_view(),
                self.keys() == k0.union(field_keys(st.fields@, p, i as int)),
            decreases st.fields.len() - i,
        {
            let f = &st.fields[i];
            let mut f_path = clone_qn(&path);
            let ghost before = f_path.deep_view();
            f_path.push(f.name.clone());
            assert(f_path.deep_view() =~= before.push(f.name@));
            self.put(f_path, RegistryEntry::Field { field_type: f.ty.duplicate() });
            assert(self.keys() =~= k0.union(field_keys(st.fields@, p, i + 1))) by {
                assert forall|x: Seq<Seq<char>>| field_keys(st.fields@, p, i + 1).contains(x) implies
                    field_keys(st.fields@, p, i as int).contains(x) || x == p.push(st.fields@[i as int].name@) by {
                    let j = choose|j: int| 0 <= j < i + 1 && x == p.push((#[trigger] st.fields@[j]).name@);
                    if j < i {
                        assert(field_keys(st.fields@, p, i as int).contains(x));
                    }
                }
                assert(field_keys(st.fields@, p, i + 1).contains(p.push(st.fields@[i as int].name@)));
                assert forall|x: Seq<Seq<char>>| field_keys(st.fields@, p, i as int).contains(x) implies
                    field_keys(st.fields@, p, i + 1).contains(x) by {
                    let j = choose|j: int| 0 <= j < i && x == p.push((#[trigger] st.fields@[j]).name@);
                }
            }
            i += 1;
        }
        let ghost k1 = k0.union(field_keys(st.fields@, p, st.fields@.len() as int));
        assert(self.keys() =~= k1.union(function_keys(st.methods@, p, 0)));
        let mut i: usize = 0;
        while i < st.methods.len()
            invariant
                i <= st.methods@.len(),
                self.wf(),
                p == path.deep_view(),
                self.keys() == k1.union(function_keys(st.methods@, p, i as int)),
            decreases st.methods.len() - i,
        {
            let method = &st.methods[i];
            self.put(concat(&path, &method.name), RegistryEntry::Function { return_type: method.signature.return_type.duplicate() });
            assert(self.keys() =~= k1.union(function_keys(st.methods@, p, i + 1))) by {
                assert forall|x: Seq<Seq<char>>| function_keys(st.methods@, p, i + 1).contains(x) implies
                    function_keys(st.methods@, p, i as int).contains(x) || x == p + st.methods@[i as int].name.deep_view() by {
                    let j = choose|j: int| 0 <= j < i + 1 && x == p + (#[trigger] st.methods@[j]).name.deep_view();
                    if j < i {
                        assert(function_keys(st.methods@, p, i as int).contains(x));
                    }
                }
                assert(function_keys(st.methods@, p, i + 1).contains(p + st.methods@[i as int].name.deep_view()));
                assert forall|x: Seq<Seq<char>>| function_keys(st.methods@, p, i as int).contains(x) implies
                    function_keys(st.methods@, p, i + 1).contains(x) by {
                    let j = choose|j: int| 0 <= j < i && x == p + (#[trigger] st.methods@[j]).name.deep_view();
                }
            }
            i += 1;
        }
        let ghost k2 = k1.union(function_keys(st.methods@, p, st.methods@.len() as int));
        assert(self.keys() =~= k2.union(types_keys(st.nested_types@.take(0), p)));
        let mut i: usize = 0;
        while i < st.nested_types.len()
            invariant
                i <= st.nested_types@.len(),
                self.wf(),
                p == path.deep_view(),
                self.keys() == k2.union(types_keys(st.nested_types@.take(i as int), p)),
            decreases st.nested_types.len() - i,
        {
            self.register_structured_type(&st.nested_types[i], &path);
            assert(st.nested_types@.take(i + 1).drop_last() =~= st.nested_types@.take(i as int));
            assert(st.nested_types@.take(i + 1).last() == st.nested_types@[i as int]);
            assert(self.keys() =~= k2.union(types_keys(st.nested_types@.take(i + 1), p)));
            i += 1;
        }
        assert(st.nested_types@.take(st.nested_types@.len() as int) =~= st.nested_types@);
        assert(self.keys() =~= old(self).keys().union(type_keys(*st, prefix.deep_view())));
    }

    /// Whether a path is registered.
    pub fn path_exists(&self, path: &Vec<String>) -> (r: bool)
        requires
            self.wf(),
        ensures
            r == self.keys().contains(path.deep_view()),
    {
        self.paths.contains_key(path)
    }

    /// The entry registered under a path.
    pub fn get(&self, path: &Vec<String>) -> (r: Option<&RegistryEntry>)
        requires
            self.wf(),
        ensures
            match r {
                Some(e) => self.keys().contains(path.deep_view()) && self.paths.map()[path.deep_view()] == *e,
                None => !self.keys().contains(path.deep_view()),
            },
    {
        self.paths.get(path)
    }
}

} // verus!
