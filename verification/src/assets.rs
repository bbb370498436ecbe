//! What the web visualizer lists of the files bundled with it: the tree of the
//! documentation and the built-in test inputs.
use crate::export::order::{compare_strings, lemma_order_str, order_str};
use crate::heuristics::type_extraction::{split_on, split_on_chars};
use crate::language::{language_of_extension, path_extension, SupportedLanguage};
use crate::text_util::{
    chars_of, contains_sub, str_contains, str_eq, str_starts_with, string_from_chars,
    to_owned_string,
};
use vstd::prelude::*;

verus! {

/// A file or directory of the documentation tree.
pub struct DocsNode {
    pub node_type: String,
    pub name: String,
    pub path: String,
    pub children: Option<Vec<DocsNode>>,
}

/// Whether `a` may come before `b` in a listing: directories first, then by name.
pub open spec fn node_before(a: DocsNode, b: DocsNode) -> bool {
    (a.children is Some && b.children is None) || ((a.children is Some) == (b.children is Some)
        && order_str(a.name@, b.name@) <= 0)
}

/// Whether a listing is in order.
pub open spec fn level_sorted(ns: Seq<DocsNode>) -> bool {
    forall|i: int| 0 <= i < ns.len() - 1 ==> #[trigger] node_before(ns[i], ns[i + 1])
}

/// Whether a node is well formed: a directory has children, listed in order, and
/// a file has none.
pub open spec fn node_ok(n: DocsNode) -> bool
    decreases n,
{
    match n.children {
        Some(c) => n.node_type@ == "directory"@ && level_sorted(c@) && forest_ok(c@),
        None => n.node_type@ == "file"@,
    }
}

/// Whether every node of a listing is well formed.
pub open spec fn forest_ok(ns: Seq<DocsNode>) -> bool
    decreases ns,
{
    if ns.len() == 0 {
        true
    } else {
        node_ok(ns[0]) && forest_ok(ns.drop_first())
    }
}

/// A listing is well formed exactly when each of its nodes is.
pub proof fn lemma_forest_ok(ns: Seq<DocsNode>)
    ensures
        forest_ok(ns) <==> forall|i: int| 0 <= i < ns.len() ==> #[trigger] node_ok(ns[i]),
    decreases ns.len(),
{
    if ns.len() > 0 {
        lemma_forest_ok(ns.drop_first());
        if forall|i: int| 0 <= i < ns.len() ==> #[trigger] node_ok(ns[i]) {
            assert(node_ok(ns[0]));
            assert forall|i: int| 0 <= i < ns.drop_first().len() implies #[trigger] node_ok(
                ns.drop_first()[i],
            ) by {
                assert(node_ok(ns[i + 1]));
            }
        }
        if forest_ok(ns) {
            assert forall|i: int| 0 <= i < ns.len() implies #[trigger] node_ok(ns[i]) by {
                if i > 0 {
                    assert(ns[i] == ns.drop_first()[i - 1]);
                }
            }
        }
    }
}

/// Whether `a` is a directory and `b` not, or both are of one type with `a`'s
/// name first.
fn before(a: &DocsNode, b: &DocsNode) -> (r: bool)
    ensures
        r == node_before(*a, *b),
{
    let ad = a.children.is_some();
    let bd = b.children.is_some();
    (ad && !bd) || (ad == bd && compare_strings(&a.name, &b.name) <= 0)
}

/// Inserts `x` into an ordered listing, keeping it ordered.
fn insert_sorted(ns: &mut Vec<DocsNode>, x: DocsNode)
    requires
        level_sorted(old(ns)@),
        forall|i: int| 0 <= i < old(ns)@.len() ==> #[trigger] node_ok(old(ns)@[i]),
        node_ok(x),
    ensures
        level_sorted(final(ns)@),
        forall|i: int| 0 <= i < final(ns)@.len() ==> #[trigger] node_ok(final(ns)@[i]),
        final(ns)@.len() == old(ns)@.len() + 1,
        exists|p: int| 0 <= p <= old(ns)@.len() && final(ns)@ == old(ns)@.insert(p, x),
{
    let mut p: usize = 0;
    while p < ns.len() && before(&ns[p], &x)
        invariant
            p <= ns@.len(),
            forall|i: int| 0 <= i < p ==> node_before(#[trigger] ns@[i], x),
        decreases ns.len() - p,
    {
        p += 1;
    }
    let ghost old_ns = ns@;
    proof {
        lemma_order_str(x.name@, x.name@);
        if p < old_ns.len() {
            lemma_order_str(old_ns[p as int].name@, x.name@);
            assert(!node_before(old_ns[p as int], x));
            assert(node_before(x, old_ns[p as int]));
        }
    }
    ns.insert(p, x);
    proof {
        let s = ns@;
        assert forall|i: int| 0 <= i < s.len() - 1 implies #[trigger] node_before(s[i], s[i + 1]) by {
            if i + 1 < p {
                assert(s[i] == old_ns[i] && s[i + 1] == old_ns[i + 1]);
                assert(node_before(old_ns[i], old_ns[i + 1]));
            } else if i + 1 == p {
                assert(s[i] == old_ns[i]);
                assert(node_before(old_ns[i], x));
            } else if i == p {
                assert(s[i + 1] == old_ns[i]);
            } else {
                assert(s[i] == old_ns[i - 1] && s[i + 1] == old_ns[i]);
                let k = i - 1;
                assert(node_before(old_ns[k], old_ns[k + 1]));
            }
        }
        assert forall|i: int| 0 <= i < s.len() implies #[trigger] node_ok(s[i]) by {
            if i < p {
                assert(s[i] == old_ns[i]);
            } else if i > p {
                assert(s[i] == old_ns[i - 1]);
            }
        }
    }
}

/// The pieces of `s` between the `/` characters (`str::split('/')`).
fn split_slash(s: &str) -> (r: Vec<String>)
    ensures
        r@.len() >= 1,
        r.deep_view() == split_on(s@, '/'),
{
    let cs = chars_of(s);
    let mut parts: Vec<String> = Vec::new();
    let mut cur: Vec<char> = Vec::new();
    let mut i: usize = 0;
    assert(cs@.take(0) == Seq::<char>::empty());
    while i < cs.len()
        invariant
            cs@ == s@,
            i <= cs@.len(),
            split_on(cs@.take(i as int), '/').len() >= 1,
            parts.deep_view() == split_on(cs@.take(i as int), '/').drop_last(),
            cur@ == split_on(cs@.take(i as int), '/').last(),
        decreases cs.len() - i,
    {
        let ghost p = split_on(cs@.take(i as int), '/');
        assert(cs@.take(i + 1).drop_last() == cs@.take(i as int));
        if cs[i] == '/' {
            let ghost before = parts.deep_view();
            parts.push(string_from_chars(&cur));
            assert(parts.deep_view() =~= before.push(p.last()));
            assert(p.push(Seq::<char>::empty()).drop_last() =~= p.drop_last().push(p.last()));
            cur = Vec::new();
        } else {
            cur.push(cs[i]);
            assert(p.update(p.len() - 1, p.last().push(cs@[i as int])).drop_last() == p.drop_last());
        }
        i += 1;
    }
    let ghost before = parts.deep_view();
    let last = string_from_chars(&cur);
    parts.push(last);
    assert(cs@.take(i as int) == cs@);
    let ghost sp = split_on(s@, '/');
    assert(parts.deep_view() =~= before.push(cur@));
    assert(sp.drop_last().push(sp.last()) =~= sp);
    parts
}

/// Whether a bundled file belongs to the documentation tree: not hidden, and a Markdown or
/// HTML file.
pub open spec fn is_doc_spec(path: Seq<char>) -> bool {
    !(path.len() > 0 && path[0] == '.') && (crate::text_util::ends_with_spec(path, ".md"@)
        || crate::text_util::ends_with_spec(path, ".html"@))
}

/// `prefix/name`, or `name` at the top.
pub open spec fn child_path_spec(prefix: Seq<char>, name: Seq<char>, top: bool) -> Seq<char> {
    if top {
        name
    } else {
        prefix.push('/') + name
    }
}

/// Some node of the listing is named `x`.
pub open spec fn has_name(ns: Seq<DocsNode>, x: Seq<char>) -> bool {
    exists|i: int| 0 <= i < ns.len() && (#[trigger] ns[i]).name@ == x
}

/// Some split path has the name `x` at `depth`.
pub open spec fn entry_named(es: Seq<Vec<String>>, depth: int, x: Seq<char>) -> bool {
    exists|k: int| 0 <= k < es.len() && (#[trigger] es[k])@[depth]@ == x
}

/// No two nodes of the listing share a name.
pub open spec fn names_distinct(ns: Seq<DocsNode>) -> bool {
    forall|i: int, j: int| 0 <= i < j < ns.len() ==> (#[trigger] ns[i]).name@ != (#[trigger] ns[j]).name@
}

/// Whether a bundled file belongs to the documentation tree: not hidden, and a
/// Markdown or HTML file.
fn is_doc_file(path: &str) -> (r: bool)
    ensures
        r == is_doc_spec(path@),
{
    let cs = chars_of(path);
    if cs.len() > 0 && cs[0] == '.' {
        return false;
    }
    let md = chars_of(".md");
    let html = chars_of(".html");
    crate::text_util::ends_with_chars(&cs, &md) || crate::text_util::ends_with_chars(&cs, &html)
}

/// `prefix/name`, or `name` at the top.
fn child_path(prefix: &String, name: &String, top: bool) -> (r: String)
    ensures
        r@ == child_path_spec(prefix@, name@, top),
{
    if top {
        to_owned_string(name.as_str())
    } else {
        let mut cs = chars_of(prefix.as_str());
        cs.push('/');
        let mut n = chars_of(name.as_str());
        cs.append(&mut n);
        string_from_chars(&cs)
    }
}

/// Whether `v` holds a string equal to `x`.
fn listed(v: &Vec<String>, x: &String) -> (r: bool)
    ensures
        r == exists|i: int| 0 <= i < v@.len() && (#[trigger] v@[i])@ == x@,
{
    let mut i: usize = 0;
    while i < v.len()
        invariant
            i <= v@.len(),
            forall|j: int| 0 <= j < i ==> (#[trigger] v@[j])@ != x@,
        decreases v.len() - i,
    {
        if str_eq(v[i].as_str(), x.as_str()) {
            return true;
        }
        i += 1;
    }
    false
}

/// Some of the first `n` split paths has the name `x` at `depth`.
pub open spec fn entry_named_upto(es: Seq<Vec<String>>, depth: int, n: int, x: Seq<char>) -> bool {
    exists|k: int| 0 <= k < n && (#[trigger] es[k])@[depth]@ == x
}

proof fn lemma_insert_node(ns: Seq<DocsNode>, p: int, n: DocsNode)
    requires
        0 <= p <= ns.len(),
    ensures
        forall|x: Seq<char>| has_name(ns.insert(p, n), x) <==> (has_name(ns, x) || n.name@ == x),
        forall|i: int|
            0 <= i < ns.len() + 1 ==> #[trigger] ns.insert(p, n)[i] == (if i < p {
                ns[i]
            } else if i == p {
                n
            } else {
                ns[i - 1]
            }),
{
    let t = ns.insert(p, n);
    assert forall|i: int| 0 <= i < ns.len() + 1 implies #[trigger] t[i] == (if i < p {
        ns[i]
    } else if i == p {
        n
    } else {
        ns[i - 1]
    }) by {}
    assert forall|x: Seq<char>| has_name(t, x) <==> (has_name(ns, x) || n.name@ == x) by {
        if has_name(t, x) {
            let i = choose|i: int| 0 <= i < t.len() && (#[trigger] t[i]).name@ == x;
            if i < p {
                assert(ns[i] == t[i]);
            } else if i > p {
                assert(ns[i - 1] == t[i]);
            }
        }
        if has_name(ns, x) {
            let i = choose|i: int| 0 <= i < ns.len() && (#[trigger] ns[i]).name@ == x;
            if i < p {
                assert(t[i] == ns[i]);
            } else {
                assert(t[i + 1] == ns[i]);
            }
        }
        if n.name@ == x {
            assert(t[p] == n);
        }
    }
}

/// The listing at `depth` of the split paths that share the directory `prefix`:
/// one node per distinct name, a file where the first path with that name ends
/// there, otherwise a directory holding the listing one level down.
fn docs_level(entries: &Vec<Vec<String>>, depth: usize, prefix: &String, bound: usize) -> (r: Vec<DocsNode>)
    requires
        forall|k: int| 0 <= k < entries@.len() ==> depth < (#[trigger] entries@[k])@.len() <= bound,
    ensures
        level_sorted(r@),
        forall|i: int| 0 <= i < r@.len() ==> #[trigger] node_ok(r@[i]),
        forall|x: Seq<char>| has_name(r@, x) <==> entry_named(entries@, depth as int, x),
        forall|i: int|
            0 <= i < r@.len() ==> (#[trigger] r@[i]).path@ == child_path_spec(prefix@, r@[i].name@, depth == 0),
        names_distinct(r@),
    decreases bound - depth,
{
    let mut out: Vec<DocsNode> = Vec::new();
    let mut seen: Vec<String> = Vec::new();
    let mut k: usize = 0;
    while k < entries.len()
        invariant
            k <= entries@.len(),
            forall|j: int| 0 <= j < entries@.len() ==> depth < (#[trigger] entries@[j])@.len() <= bound,
            level_sorted(out@),
            forall|i: int| 0 <= i < out@.len() ==> #[trigger] node_ok(out@[i]),
            forall|x: Seq<char>| has_name(out@, x) <==> entry_named_upto(entries@, depth as int, k as int, x),
            forall|x: Seq<char>|
                has_name(out@, x) <==> exists|i: int| 0 <= i < seen@.len() && (#[trigger] seen@[i])@ == x,
            forall|i: int|
                0 <= i < out@.len() ==> (#[trigger] out@[i]).path@ == child_path_spec(prefix@, out@[i].name@, depth == 0),
            names_distinct(out@),
        decreases entries.len() - k,
    {
        let entry = &entries[k];
        let name = &entry[depth];
        let ghost out0 = out@;
        let ghost seen0 = seen@;
        proof {
            assert(entries@[k as int]@[depth as int]@ == name@);
        }
        if !listed(&seen, name) {
            seen.push(to_owned_string(name.as_str()));
            let path = child_path(prefix, name, depth == 0);
            let node = if entry.len() == depth + 1 {
                proof {
                    reveal_strlit("file");
                }
                DocsNode {
                    node_type: to_owned_string("file"),
                    name: to_owned_string(name.as_str()),
                    path,
                    children: None,
                }
            } else {
                let mut sub: Vec<Vec<String>> = Vec::new();
                let mut j: usize = 0;
                while j < entries.len()
                    invariant
                        forall|m: int| 0 <= m < entries@.len() ==> depth < (#[trigger] entries@[m])@.len() <= bound,
                        forall|m: int| 0 <= m < sub@.len() ==> depth + 1 < (#[trigger] sub@[m])@.len() <= bound,
                    decreases entries.len() - j,
                {
                    let e = &entries[j];
                    if e.len() > depth + 1 && str_eq(e[depth].as_str(), name.as_str()) {
                        sub.push(crate::model::queries::clone_qn(e));
                    }
                    j += 1;
                }
                let children = docs_level(&sub, depth + 1, &path, bound);
                proof {
                    lemma_forest_ok(children@);
                }
                DocsNode {
                    node_type: to_owned_string("directory"),
                    name: to_owned_string(name.as_str()),
                    path,
                    children: Some(children),
                }
            };
            let ghost nd = node;
            proof {
                assert(nd.name@ == name@);
                assert(nd.path@ == child_path_spec(prefix@, name@, depth == 0));
            }
            insert_sorted(&mut out, node);
            proof {
                let p = choose|p: int| 0 <= p <= out0.len() && out@ == out0.insert(p, nd);
                lemma_insert_node(out0, p, nd);
                assert(!has_name(out0, name@));
                assert(forall|x: Seq<char>| has_name(out0, x) <==> entry_named_upto(entries@, depth as int, k as int, x));
                assert(forall|x: Seq<char>| has_name(out@, x) <==> (has_name(out0, x) || nd.name@ == x));
                assert forall|x: Seq<char>| has_name(out@, x) implies entry_named_upto(
                    entries@,
                    depth as int,
                    k + 1,
                    x,
                ) by {
                    if has_name(out0, x) {
                        assert(entry_named_upto(entries@, depth as int, k as int, x));
                        let j = choose|j: int| 0 <= j < k && (#[trigger] entries@[j])@[depth as int]@ == x;
                        assert(entries@[j]@[depth as int]@ == x);
                    } else {
                        assert(entries@[k as int]@[depth as int]@ == x);
                    }
                }
                assert forall|x: Seq<char>| entry_named_upto(entries@, depth as int, k + 1, x) implies has_name(
                    out@,
                    x,
                ) by {
                    let j = choose|j: int| 0 <= j < k + 1 && (#[trigger] entries@[j])@[depth as int]@ == x;
                    if j < k {
                        assert(entry_named_upto(entries@, depth as int, k as int, x));
                        assert(has_name(out0, x));
                    }
                }
                assert forall|x: Seq<char>| has_name(out@, x) implies exists|i: int|
                    0 <= i < seen@.len() && (#[trigger] seen@[i])@ == x by {
                    if has_name(out0, x) {
                        let i = choose|i: int| 0 <= i < seen0.len() && (#[trigger] seen0[i])@ == x;
                        assert(seen@[i] == seen0[i]);
                    } else {
                        assert(seen@[seen0.len() as int]@ == x);
                    }
                }
                assert forall|x: Seq<char>|
                    (exists|i: int| 0 <= i < seen@.len() && (#[trigger] seen@[i])@ == x) implies has_name(
                    out@,
                    x,
                ) by {
                    let i = choose|i: int| 0 <= i < seen@.len() && (#[trigger] seen@[i])@ == x;
                    if i < seen0.len() {
                        assert(seen0[i] == seen@[i]);
                        assert(has_name(out0, x));
                    }
                }
                assert forall|i: int| 0 <= i < out@.len() implies (#[trigger] out@[i]).path@ == child_path_spec(
                    prefix@,
                    out@[i].name@,
                    depth == 0,
                ) by {
                    if i < p {
                        assert(out@[i] == out0[i]);
                    } else if i > p {
                        assert(out@[i] == out0[i - 1]);
                    }
                }
                assert forall|i: int, j: int| 0 <= i < j < out@.len() implies (#[trigger] out@[i]).name@
                    != (#[trigger] out@[j]).name@ by {
                    if i == p {
                        assert(out@[j] == out0[j - 1]);
                        assert(has_name(out0, out0[j - 1].name@));
                    } else if j == p {
                        assert(out@[i] == out0[i]);
                        assert(has_name(out0, out0[i].name@));
                    } else {
                        let a = if i < p { i } else { i - 1 };
                        let b = if j < p { j } else { j - 1 };
                        assert(out@[i] == out0[a]);
                        assert(out@[j] == out0[b]);
                    }
                }
            }
        } else {
            proof {
                assert forall|x: Seq<char>|
                    has_name(out@, x) <==> entry_named_upto(entries@, depth as int, k + 1, x) by {
                    if entry_named_upto(entries@, depth as int, k + 1, x) {
                        let j = choose|j: int| 0 <= j < k + 1 && (#[trigger] entries@[j])@[depth as int]@ == x;
                        if j < k {
                            assert(entry_named_upto(entries@, depth as int, k as int, x));
                        }
                    }
                    if entry_named_upto(entries@, depth as int, k as int, x) {
                        let j = choose|j: int| 0 <= j < k && (#[trigger] entries@[j])@[depth as int]@ == x;
                        assert(entry_named_upto(entries@, depth as int, k + 1, x));
                    }
                }
            }
        }
        k += 1;
    }
    proof {
        assert forall|x: Seq<char>| has_name(out@, x) <==> entry_named(entries@, depth as int, x) by {
            if entry_named(entries@, depth as int, x) {
                let j = choose|j: int| 0 <= j < entries@.len() && (#[trigger] entries@[j])@[depth as int]@ == x;
                assert(entry_named_upto(entries@, depth as int, k as int, x));
            }
            if entry_named_upto(entries@, depth as int, k as int, x) {
                let j = choose|j: int| 0 <= j < k && (#[trigger] entries@[j])@[depth as int]@ == x;
                assert(entry_named(entries@, depth as int, x));
            }
        }
    }
    out
}

/// Some of the first `n` files is a documentation file whose path starts with the part `x`.
pub open spec fn doc_named(files: Seq<String>, n: int, x: Seq<char>) -> bool {
    exists|f: int| 0 <= f < n && is_doc_spec((#[trigger] files[f])@) && split_on(files[f]@, '/')[0] == x
}

/// The documentation tree of the bundled files: their Markdown and HTML files
/// (hidden ones left out), one node per distinct path prefix, each listing with
/// directories first and then by name.
pub fn build_docs_tree(files: &Vec<String>) -> (r: Vec<DocsNode>)
    ensures
        level_sorted(r@),
        forest_ok(r@),
        forall|x: Seq<char>| has_name(r@, x) <==> doc_named(files@, files@.len() as int, x),
        forall|i: int| 0 <= i < r@.len() ==> (#[trigger] r@[i]).path@ == r@[i].name@,
        names_distinct(r@),
{
    let mut entries: Vec<Vec<String>> = Vec::new();
    let mut bound: usize = 1;
    let mut i: usize = 0;
    while i < files.len()
        invariant
            i <= files@.len(),
            bound >= 1,
            forall|k: int| 0 <= k < entries@.len() ==> 0 < (#[trigger] entries@[k])@.len() <= bound,
            forall|x: Seq<char>| entry_named(entries@, 0, x) <==> doc_named(files@, i as int, x),
        decreases files.len() - i,
    {
        let ghost e0 = entries@;
        if is_doc_file(files[i].as_str()) {
            let parts = split_slash(files[i].as_str());
            if parts.len() > bound {
                bound = parts.len();
            }
            let ghost pv = parts;
            entries.push(parts);
            proof {
                assert(pv@[0]@ == split_on(files@[i as int]@, '/')[0]);
                assert forall|x: Seq<char>| entry_named(entries@, 0, x) implies doc_named(files@, i + 1, x) by {
                    let k = choose|k: int| 0 <= k < entries@.len() && (#[trigger] entries@[k])@[0]@ == x;
                    if k < e0.len() {
                        assert(entries@[k] == e0[k]);
                        assert(entry_named(e0, 0, x));
                        let f = choose|f: int| 0 <= f < i && is_doc_spec((#[trigger] files@[f])@) && split_on(files@[f]@, '/')[0] == x;
                    } else {
                        assert(entries@[k] == pv);
                    }
                }
                assert forall|x: Seq<char>| doc_named(files@, i + 1, x) implies entry_named(entries@, 0, x) by {
                    let f = choose|f: int| 0 <= f < i + 1 && is_doc_spec((#[trigger] files@[f])@) && split_on(files@[f]@, '/')[0] == x;
                    if f < i {
                        assert(doc_named(files@, i as int, x));
                        let k = choose|k: int| 0 <= k < e0.len() && (#[trigger] e0[k])@[0]@ == x;
                        assert(entries@[k] == e0[k]);
                    } else {
                        assert(entries@[e0.len() as int] == pv);
                    }
                }
            }
        } else {
            proof {
                assert forall|x: Seq<char>| doc_named(files@, i + 1, x) implies entry_named(entries@, 0, x) by {
                    let f = choose|f: int| 0 <= f < i + 1 && is_doc_spec((#[trigger] files@[f])@) && split_on(files@[f]@, '/')[0] == x;
                    assert(f < i);
                    assert(doc_named(files@, i as int, x));
                }
                assert forall|x: Seq<char>| entry_named(entries@, 0, x) implies doc_named(files@, i + 1, x) by {
                    let f = choose|f: int| 0 <= f < i && is_doc_spec((#[trigger] files@[f])@) && split_on(files@[f]@, '/')[0] == x;
                }
            }
        }
        i += 1;
    }
    let top = to_owned_string("");
    let r = docs_level(&entries, 0, &top, bound);
    proof {
        lemma_forest_ok(r@);
    }
    r
}

/// Whether the strings are in order with none twice.
pub open spec fn strictly_ordered(v: Seq<String>) -> bool {
    forall|i: int| 0 <= i < v.len() - 1 ==> order_str((#[trigger] v[i])@, v[i + 1]@) < 0
}

/// The characters of each string.
pub open spec fn views(v: Seq<String>) -> Seq<Seq<char>> {
    v.map_values(|s: String| s@)
}

/// Inserts `x` into an ordered list of distinct strings unless it is there.
fn insert_unique(v: &mut Vec<String>, x: String)
    requires
        strictly_ordered(old(v)@),
    ensures
        strictly_ordered(final(v)@),
        views(final(v)@).to_set() == views(old(v)@).to_set().insert(x@),
{
    let ghost xv = x@;
    let mut p: usize = 0;
    while p < v.len() && compare_strings(&v[p], &x) < 0
        invariant
            p <= v@.len(),
            forall|i: int| 0 <= i < p ==> order_str((#[trigger] v@[i])@, x@) < 0,
        decreases v.len() - p,
    {
        p += 1;
    }
    if p < v.len() && compare_strings(&v[p], &x) == 0 {
        proof {
            lemma_order_str(v@[p as int]@, x@);
            assert(views(v@)[p as int] == xv);
            assert(views(v@).to_set().insert(xv) =~= views(v@).to_set());
        }
        return;
    }
    let ghost old_v = v@;
    proof {
        if p < old_v.len() {
            lemma_order_str(old_v[p as int]@, x@);
        }
    }
    v.insert(p, x);
    proof {
        let s = v@;
        assert forall|i: int| 0 <= i < s.len() - 1 implies order_str((#[trigger] s[i])@, s[i + 1]@) < 0 by {
            if i + 1 < p {
                assert(s[i] == old_v[i] && s[i + 1] == old_v[i + 1]);
            } else if i + 1 == p {
                assert(s[i] == old_v[i]);
            } else if i == p {
                assert(s[i + 1] == old_v[i]);
            } else {
                assert(s[i] == old_v[i - 1] && s[i + 1] == old_v[i]);
                let k = i - 1;
                assert(order_str(old_v[k]@, old_v[k + 1]@) < 0);
            }
        }
        assert forall|y: Seq<char>| views(s).to_set().contains(y) <==> views(old_v).to_set().insert(xv).contains(y) by {
            if views(s).to_set().contains(y) {
                let j = choose|j: int| 0 <= j < views(s).len() && views(s)[j] == y;
                if j < p {
                    assert(views(old_v)[j] == y);
                } else if j > p {
                    assert(views(old_v)[j - 1] == y);
                }
            }
            if views(old_v).to_set().contains(y) {
                let j = choose|j: int| 0 <= j < views(old_v).len() && views(old_v)[j] == y;
                if j < p {
                    assert(views(s)[j] == y);
                } else {
                    assert(views(s)[j + 1] == y);
                }
            }
            if y == xv {
                assert(views(s)[p as int] == y);
            }
        }
        assert(views(s).to_set() =~= views(old_v).to_set().insert(xv));
    }
}

/// `split_on` always gives at least one piece.
proof fn lemma_split_on_nonempty(s: Seq<char>, c: char)
    ensures
        split_on(s, c).len() >= 1,
    decreases s.len(),
{
    if s.len() > 0 {
        lemma_split_on_nonempty(s.drop_last(), c);
    }
}

/// The second piece of `path` split at `/`, if any.
fn second_piece(path: &str) -> (r: Option<String>)
    ensures
        match r {
            Some(p) => split_on(path@, '/').len() >= 2 && p@ == split_on(path@, '/')[1],
            None => split_on(path@, '/').len() < 2,
        },
{
    let cs = chars_of(path);
    let parts = split_on_chars(&cs, '/');
    if parts.len() >= 2 {
        let r = string_from_chars(&parts[1]);
        assert(parts.deep_view()[1] == parts@[1]@);
        Some(r)
    } else {
        None
    }
}

/// `prefix` followed by `rest`.
fn concat(prefix: &str, rest: &str) -> (r: String)
    ensures
        r@ == prefix@ + rest@,
{
    let mut cs = chars_of(prefix);
    let mut r = chars_of(rest);
    cs.append(&mut r);
    string_from_chars(&cs)
}

/// Whether `s` starts with `p`.
pub open spec fn starts_with(s: Seq<char>, p: Seq<char>) -> bool {
    p.len() <= s.len() && s.take(p.len() as int) == p
}

/// The benchmark suite a bundled file belongs to, if it is under
/// `benchmarks/benchmark-`: the directory below `benchmarks`.
pub open spec fn suite_of(f: Seq<char>) -> Option<Seq<char>> {
    if starts_with(f, "benchmarks/benchmark-"@) && split_on(f, '/').len() >= 2 {
        Some("omnideps-builtin/benchmarks/"@ + split_on(f, '/')[1])
    } else {
        None
    }
}

/// The built-in input a bundled file offers: a source file of a supported language
/// under `generics/`, or the benchmark suite it belongs to.
pub open spec fn builtin_input_of(f: Seq<char>) -> Option<Seq<char>> {
    if starts_with(f, "generics/"@) {
        match path_extension(f) {
            Some(e) => if language_of_extension(e) is Some {
                Some("omnideps-builtin/"@ + f)
            } else {
                None
            },
            None => None,
        }
    } else {
        suite_of(f)
    }
}

/// The values `entry` gives to the first `n` files.
pub open spec fn offered(files: Seq<String>, n: int, by_suite: bool) -> Set<Seq<char>> {
    Set::new(
        |x: Seq<char>|
            exists|j: int|
                0 <= j < n && (if by_suite {
                    suite_of((#[trigger] files[j])@)
                } else {
                    builtin_input_of(files[j]@)
                }) == Some(x),
    )
}

/// The built-in inputs the visualizer offers, in order and each once: every
/// source file of a supported language under `generics/`, and every benchmark
/// directory under `benchmarks/`, named under `omnideps-builtin/`.
pub fn builtin_inputs(files: &Vec<String>) -> (r: Vec<String>)
    ensures
        strictly_ordered(r@),
        views(r@).to_set() == offered(files@, files@.len() as int, false),
{
    collect_offered(files, false)
}

/// The benchmark suites bundled with the visualizer, in order and each once.
pub fn benchmark_suites(files: &Vec<String>) -> (r: Vec<String>)
    ensures
        strictly_ordered(r@),
        views(r@).to_set() == offered(files@, files@.len() as int, true),
{
    collect_offered(files, true)
}

/// What the files offer, as suites only or as all built-in inputs.
fn collect_offered(files: &Vec<String>, by_suite: bool) -> (r: Vec<String>)
    ensures
        strictly_ordered(r@),
        views(r@).to_set() == offered(files@, files@.len() as int, by_suite),
{
    let mut out: Vec<String> = Vec::new();
    let mut i: usize = 0;
    proof {
        reveal_strlit("generics/");
        reveal_strlit("benchmarks/benchmark-");
    }
    assert(views(out@).to_set() =~= offered(files@, 0, by_suite));
    while i < files.len()
        invariant
            i <= files@.len(),
            strictly_ordered(out@),
            views(out@).to_set() == offered(files@, i as int, by_suite),
        decreases files.len() - i,
    {
        let f = files[i].as_str();
        let ghost fv = f@;
        let generic = !by_suite && str_starts_with(f, "generics/");
        let mut entry: Option<String> = None;
        if generic {
            if SupportedLanguage::from_path(f).is_some() {
                entry = Some(concat("omnideps-builtin/", f));
            }
        } else if str_starts_with(f, "benchmarks/benchmark-") {
            if let Some(dir) = second_piece(f) {
                entry = Some(concat("omnideps-builtin/benchmarks/", dir.as_str()));
            }
        }
        proof {
            let e = if by_suite { suite_of(fv) } else { builtin_input_of(fv) };
            assert(match entry { Some(x) => e == Some(x@), None => e is None });
        }
        let ghost before = views(out@).to_set();
        match entry {
            Some(x) => {
                let ghost xv = x@;
                insert_unique(&mut out, x);
                proof {
                    assert(offered(files@, i + 1, by_suite) =~= offered(files@, i as int, by_suite).insert(xv)) by {
                        assert forall|y: Seq<char>| offered(files@, i + 1, by_suite).contains(y) implies offered(
                            files@,
                            i as int,
                            by_suite,
                        ).insert(xv).contains(y) by {
                            let j = choose|j: int|
                                0 <= j < i + 1 && (if by_suite {
                                    suite_of((#[trigger] files@[j])@)
                                } else {
                                    builtin_input_of(files@[j]@)
                                }) == Some(y);
                            if j < i {
                                assert(offered(files@, i as int, by_suite).contains(y));
                            }
                        }
                        assert forall|y: Seq<char>| offered(files@, i as int, by_suite).insert(xv).contains(y) implies offered(
                            files@,
                            i + 1,
                            by_suite,
                        ).contains(y) by {
                            if y == xv {
                                assert(files@[i as int]@ == fv);
                            } else {
                                let j = choose|j: int|
                                    0 <= j < i && (if by_suite {
                                        suite_of((#[trigger] files@[j])@)
                                    } else {
                                        builtin_input_of(files@[j]@)
                                    }) == Some(y);
                                assert(0 <= j < i + 1);
                            }
                        }
                    }
                }
            },
            None => {
                proof {
                    assert(offered(files@, i + 1, by_suite) =~= offered(files@, i as int, by_suite)) by {
                        assert forall|y: Seq<char>| offered(files@, i + 1, by_suite).contains(y) implies offered(
                            files@,
                            i as int,
                            by_suite,
                        ).contains(y) by {
                            let j = choose|j: int|
                                0 <= j < i + 1 && (if by_suite {
                                    suite_of((#[trigger] files@[j])@)
                                } else {
                                    builtin_input_of(files@[j]@)
                                }) == Some(y);
                            if j == i {
                                assert(files@[i as int]@ == fv);
                            }
                        }
                    }
                }
            },
        }
        i += 1;
    }
    out
}

/// Whether a requested benchmark is one of the bundled ones: under
/// `omnideps-builtin/benchmarks/benchmark-`, with no `..` in it.
pub fn is_builtin_benchmark(path: &str) -> (r: bool)
    ensures
        r == (("omnideps-builtin/benchmarks/benchmark-"@.len() <= path@.len() && path@.take(
            "omnideps-builtin/benchmarks/benchmark-"@.len() as int,
        ) == "omnideps-builtin/benchmarks/benchmark-"@) && !contains_sub(path@, ".."@)),
{
    str_starts_with(path, "omnideps-builtin/benchmarks/benchmark-") && !str_contains(path, "..")
}

} // verus!
