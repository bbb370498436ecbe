//! A registry of the primitive type names of a language.
use crate::assoc::{lemma_entries_map, AssocMap, MapKey};
use crate::text_util::to_owned_string;
use vstd::prelude::*;

verus! {

/// The set of primitive type names recognised in the current language context.
pub struct PrimitiveRegistry {
    pub lang_primitives: AssocMap<String, ()>,
}

/// A primitive table could not be read.
#[derive(Debug, Clone, Copy, PartialEq, Eq, Structural)]
pub enum PrimitivesError {
    InvalidTable,
}

/// The table of primitive names per language that a JSON document holds (an object from
/// language name to the list of its primitive names), in ascending order of language name;
/// `None` when the document is not such an object.
pub uninterp spec fn primitive_table(json: Seq<char>) -> Option<Seq<(Seq<char>, Seq<Seq<char>>)>>;

/// The value of a table of names per language.
pub open spec fn table_view(t: Seq<(String, Vec<String>)>) -> Seq<(Seq<char>, Seq<Seq<char>>)> {
    t.map_values(|e: (String, Vec<String>)| (e.0@, e.1.deep_view()))
}

/// Reads the table of primitive names per language from JSON (`serde_json::from_str` into a
/// `BTreeMap<String, Vec<String>>`, whose entries come out in ascending key order).
#[verifier::external_body]
fn read_primitive_table(json: &str) -> (r: Option<Vec<(String, Vec<String>)>>)
    ensures
        match r {
            Some(t) => primitive_table(json@) == Some(
                table_view(t@),
            ),
            None => primitive_table(json@) is None,
        },
{
    serde_json::from_str::<std::collections::BTreeMap<String, Vec<String>>>(json).ok().map(
        |m| m.into_iter().collect(),
    )
}

/// The names listed for `lang` in a table: those of its first entry for `lang`, none if absent.
pub open spec fn names_for(table: Seq<(Seq<char>, Seq<Seq<char>>)>, lang: Seq<char>) -> Seq<Seq<char>>
    decreases table.len(),
{
    if table.len() == 0 {
        Seq::empty()
    } else if table[0].0 == lang {
        table[0].1
    } else {
        names_for(table.drop_first(), lang)
    }
}

impl PrimitiveRegistry {
    pub open spec fn wf(&self) -> bool {
        self.lang_primitives.wf()
    }

    /// The set of primitive names.
    pub open spec fn names(&self) -> Set<Seq<char>> {
        self.lang_primitives.map().dom()
    }

    /// An empty registry.
    pub fn empty() -> (r: PrimitiveRegistry)
        ensures
            r.wf(),
            r.names() == Set::<Seq<char>>::empty(),
    {
        let r = PrimitiveRegistry { lang_primitives: AssocMap::new() };
        assert(r.names() =~= Set::<Seq<char>>::empty());
        r
    }

    /// Adds one name.
    pub fn add(&mut self, name: String)
        requires
            old(self).wf(),
        ensures
            final(self).wf(),
            final(self).names() == old(self).names().insert(name@),
    {
        self.lang_primitives.insert(name, ());
        assert(self.names() =~= old(self).names().insert(name@));
    }

    /// A registry holding exactly the given names.
    pub fn from_names(names: Vec<String>) -> (r: PrimitiveRegistry)
        ensures
            r.wf(),
            forall|n: Seq<char>| r.names().contains(n) <==> names.deep_view().contains(n),
    {
        let mut r = PrimitiveRegistry::empty();
        let mut i: usize = 0;
        while i < names.len()
            invariant
                r.wf(),
                i <= names@.len(),
                forall|n: Seq<char>| r.names().contains(n) <==> names.deep_view().take(i as int).contains(n),
            decreases names.len() - i,
        {
            let ghost before = r.names();
            r.add(names[i].clone());
            proof {
                let t = names.deep_view().take(i + 1);
                assert(t == names.deep_view().take(i as int).push(names@[i as int]@));
                assert forall|n: Seq<char>| r.names().contains(n) <==> t.contains(n) by {
                    if n == names@[i as int]@ {
                        assert(t[i as int] == n);
                    }
                    if t.contains(n) && n != names@[i as int]@ {
                        let j = choose|j: int| 0 <= j < t.len() && t[j] == n;
                        assert(names.deep_view().take(i as int)[j] == n);
                    }
                    if names.deep_view().take(i as int).contains(n) {
                        let j = choose|j: int| 0 <= j < i && names.deep_view().take(i as int)[j] == n;
                        assert(t[j] == n);
                    }
                }
            }
            i += 1;
        }
        assert(names.deep_view().take(names@.len() as int) == names.deep_view());
        r
    }

    /// Loads the primitives listed for `lang_name` in a JSON table of primitive names per
    /// language; a language without an entry gets an empty registry.
    pub fn load(lang_name: &str, registry_json: &str) -> (r: Result<PrimitiveRegistry, PrimitivesError>)
        ensures
            match r {
                Ok(reg) => {
                    &&& reg.wf()
                    &&& primitive_table(registry_json@) is Some
                    &&& forall|n: Seq<char>|
                        reg.names().contains(n) <==> names_for(
                            primitive_table(registry_json@)->0,
                            lang_name@,
                        ).contains(n)
                },
                Err(e) => primitive_table(registry_json@) is None,
            },
    {
        let table = match read_primitive_table(registry_json) {
            Some(t) => t,
            None => {
                return Err(PrimitivesError::InvalidTable);
            },
        };
        let ghost tv = table_view(table@);
        let lang = to_owned_string(lang_name);
        let mut i: usize = 0;
        assert(tv.skip(0) == tv);
        while i < table.len()
            invariant
                i <= table@.len(),
                tv == table_view(table@),
                primitive_table(registry_json@) == Some(tv),
                lang@ == lang_name@,
                names_for(tv, lang@) == names_for(tv.skip(i as int), lang@),
            decreases table.len() - i,
        {
            assert(tv.skip(i as int)[0] == tv[i as int]);
            assert(tv.skip(i as int).drop_first() == tv.skip(i + 1));
            assert(tv[i as int] == (table@[i as int].0@, table@[i as int].1.deep_view()));
            if table[i].0 == lang {
                let names = table[i].1.clone();
                assert(names.deep_view() =~= table@[i as int].1.deep_view());
                assert(tv.skip(i as int).len() > 0);
                assert(names_for(tv.skip(i as int), lang@) == tv[i as int].1);
                assert(primitive_table(registry_json@) == Some(tv));
                assert(names_for(primitive_table(registry_json@)->0, lang_name@) == names.deep_view());
                let reg = PrimitiveRegistry::from_names(names);
                assert(forall|n: Seq<char>| reg.names().contains(n) <==> names_for(primitive_table(registry_json@)->0, lang_name@).contains(n));
                return Ok(reg);
            }
            i += 1;
        }
        Ok(PrimitiveRegistry::empty())
    }

    /// Merges another registry into this one.
    pub fn merge(&mut self, other: PrimitiveRegistry)
        requires
            old(self).wf(),
            other.wf(),
        ensures
            final(self).wf(),
            final(self).names() == old(self).names().union(other.names()),
    {
        let entries = other.lang_primitives.entries;
        let ghost oe = entries@;
        proof {
            lemma_entries_map(oe);
        }
        let mut i: usize = 0;
        while i < entries.len()
            invariant
                self.wf(),
                i <= entries@.len(),
                entries@ == oe,
                keys_unique_view(oe),
                forall|n: Seq<char>| self.names().contains(n) <==> (old(self).names().contains(n)
                    || exists|j: int| 0 <= j < i && #[trigger] oe[j].0@ == n),
            decreases entries.len() - i,
        {
            let ghost before = self.names();
            self.add(entries[i].0.clone());
            proof {
                assert forall|n: Seq<char>| self.names().contains(n) <==> (old(self).names().contains(n)
                    || exists|j: int| 0 <= j < i + 1 && #[trigger] oe[j].0@ == n) by {
                    if n == oe[i as int].0@ {
                        assert(oe[i as int].0@ == n);
                    }
                }
            }
            i += 1;
        }
        proof {
            assert forall|n: Seq<char>| self.names().contains(n) == old(self).names().union(other.names()).contains(n) by {
                if other.names().contains(n) {
                    assert(other.lang_primitives.map().dom().contains(n));
                    let j = choose|j: int| 0 <= j < oe.len() && #[trigger] oe[j].0.kview() == n;
                    assert(oe[j].0@ == n);
                }
                if exists|j: int| 0 <= j < oe.len() && #[trigger] oe[j].0@ == n {
                    let j = choose|j: int| 0 <= j < oe.len() && #[trigger] oe[j].0@ == n;
                    assert(oe[j].0.kview() == n);
                }
            }
            assert(self.names() =~= old(self).names().union(other.names()));
        }
    }

    /// Whether `name` is a primitive type.
    pub fn is_primitive(&self, name: &str) -> (r: bool)
        requires
            self.wf(),
        ensures
            r == self.names().contains(name@),
    {
        let k = to_owned_string(name);
        self.lang_primitives.contains_key(&k)
    }
}

pub open spec fn keys_unique_view(s: Seq<(String, ())>) -> bool {
    crate::assoc::keys_unique(s)
}

} // verus!
