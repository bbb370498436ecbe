//! The order of dependency edges: by source path, then target path, then kind; paths compare
//! segment by segment, segments character by character (a prefix first).
use crate::model::graph::{Dependency, DependencyEdgeKind, DependencyV};
use crate::text_util::chars_of;
use vstd::prelude::*;

verus! {

/// Three-way comparison of two character sequences (`-1`, `0` or `1`).
pub open spec fn order_str(a: Seq<char>, b: Seq<char>) -> int
    decreases a.len(),
{
    if a.len() == 0 {
        if b.len() == 0 {
            0
        } else {
            -1
        }
    } else if b.len() == 0 {
        1
    } else if a[0] < b[0] {
        -1
    } else if b[0] < a[0] {
        1
    } else {
        order_str(a.drop_first(), b.drop_first())
    }
}

pub proof fn lemma_order_str(a: Seq<char>, b: Seq<char>)
    ensures
        order_str(a, b) == -order_str(b, a),
        -1 <= order_str(a, b) <= 1,
        order_str(a, b) == 0 <==> a == b,
    decreases a.len(),
{
    if a.len() == 0 && b.len() == 0 {
        assert(a =~= b);
    }
    if a.len() > 0 && b.len() > 0 {
        lemma_order_str(a.drop_first(), b.drop_first());
        if a[0] == b[0] && a.drop_first() == b.drop_first() {
            assert(a =~= seq![a[0]] + a.drop_first());
            assert(b =~= seq![b[0]] + b.drop_first());
        }
    }
}

/// Three-way comparison of two paths.
pub open spec fn order_path(a: Seq<Seq<char>>, b: Seq<Seq<char>>) -> int
    decreases a.len(),
{
    if a.len() == 0 {
        if b.len() == 0 {
            0
        } else {
            -1
        }
    } else if b.len() == 0 {
        1
    } else if order_str(a[0], b[0]) != 0 {
        order_str(a[0], b[0])
    } else {
        order_path(a.drop_first(), b.drop_first())
    }
}

pub proof fn lemma_order_path(a: Seq<Seq<char>>, b: Seq<Seq<char>>)
    ensures
        order_path(a, b) == -order_path(b, a),
        -1 <= order_path(a, b) <= 1,
        order_path(a, b) == 0 <==> a == b,
    decreases a.len(),
{
    if a.len() == 0 && b.len() == 0 {
        assert(a =~= b);
    }
    if a.len() > 0 && b.len() > 0 {
        lemma_order_str(a[0], b[0]);
        lemma_order_path(a.drop_first(), b.drop_first());
        if a[0] == b[0] && a.drop_first() == b.drop_first() {
            assert(a =~= seq![a[0]] + a.drop_first());
            assert(b =~= seq![b[0]] + b.drop_first());
        }
    }
}

/// The position of an edge kind in its declaration.
pub open spec fn kind_rank(k: DependencyEdgeKind) -> int {
    match k {
        DependencyEdgeKind::IsA => 0,
        DependencyEdgeKind::Implements => 1,
        DependencyEdgeKind::UsesFieldType => 2,
        DependencyEdgeKind::UsesLocalType => 3,
        DependencyEdgeKind::UsesParamType => 4,
        DependencyEdgeKind::UsesReturnType => 5,
        DependencyEdgeKind::NestedIn => 6,
        DependencyEdgeKind::ModuleContainment => 7,
        DependencyEdgeKind::Calls => 8,
        DependencyEdgeKind::Instantiates => 9,
        DependencyEdgeKind::AccessesField => 10,
        DependencyEdgeKind::Imports => 11,
        DependencyEdgeKind::Aliases => 12,
        DependencyEdgeKind::CastsTo => 13,
        DependencyEdgeKind::AnnotatedWith => 14,
    }
}

/// Three-way comparison of two edges: source, then target, then kind.
pub open spec fn order_dep(a: DependencyV, b: DependencyV) -> int {
    if order_path(a.from, b.from) != 0 {
        order_path(a.from, b.from)
    } else if order_path(a.to, b.to) != 0 {
        order_path(a.to, b.to)
    } else if kind_rank(a.kind) < kind_rank(b.kind) {
        -1
    } else if kind_rank(b.kind) < kind_rank(a.kind) {
        1
    } else {
        0
    }
}

pub proof fn lemma_order_dep(a: DependencyV, b: DependencyV)
    ensures
        order_dep(a, b) == -order_dep(b, a),
        order_dep(a, b) == 0 <==> a == b,
{
    lemma_order_path(a.from, b.from);
    lemma_order_path(a.to, b.to);
    if kind_rank(a.kind) == kind_rank(b.kind) {
        assert(a.kind == b.kind);
    }
}

fn rank(k: DependencyEdgeKind) -> (r: u8)
    ensures
        r as int == kind_rank(k),
{
    match k {
        DependencyEdgeKind::IsA => 0,
        DependencyEdgeKind::Implements => 1,
        DependencyEdgeKind::UsesFieldType => 2,
        DependencyEdgeKind::UsesLocalType => 3,
        DependencyEdgeKind::UsesParamType => 4,
        DependencyEdgeKind::UsesReturnType => 5,
        DependencyEdgeKind::NestedIn => 6,
        DependencyEdgeKind::ModuleContainment => 7,
        DependencyEdgeKind::Calls => 8,
        DependencyEdgeKind::Instantiates => 9,
        DependencyEdgeKind::AccessesField => 10,
        DependencyEdgeKind::Imports => 11,
        DependencyEdgeKind::Aliases => 12,
        DependencyEdgeKind::CastsTo => 13,
        DependencyEdgeKind::AnnotatedWith => 14,
    }
}

fn compare_chars(a: &Vec<char>, b: &Vec<char>) -> (r: i8)
    ensures
        r as int == order_str(a@, b@),
{
    let mut i: usize = 0;
    assert(a@.skip(0) =~= a@);
    assert(b@.skip(0) =~= b@);
    while i < a.len() && i < b.len()
        invariant
            i <= a@.len(),
            i <= b@.len(),
            order_str(a@, b@) == order_str(a@.skip(i as int), b@.skip(i as int)),
        decreases a.len() - i,
    {
        let x = a[i];
        let y = b[i];
        if x < y {
            return -1;
        }
        if y < x {
            return 1;
        }
        assert(a@.skip(i as int).drop_first() =~= a@.skip(i + 1));
        assert(b@.skip(i as int).drop_first() =~= b@.skip(i + 1));
        i += 1;
    }
    if a.len() == i && b.len() == i {
        0
    } else if a.len() == i {
        -1
    } else {
        1
    }
}

/// Three-way comparison of two strings.
pub fn compare_strings(a: &String, b: &String) -> (r: i8)
    ensures
        r as int == order_str(a@, b@),
{
    let x = chars_of(a.as_str());
    let y = chars_of(b.as_str());
    compare_chars(&x, &y)
}

/// Three-way comparison of two paths.
pub fn compare_paths(a: &Vec<String>, b: &Vec<String>) -> (r: i8)
    ensures
        r as int == order_path(a.deep_view(), b.deep_view()),
{
    let ghost av = a.deep_view();
    let ghost bv = b.deep_view();
    let mut i: usize = 0;
    assert(av.skip(0) =~= av);
    assert(bv.skip(0) =~= bv);
    while i < a.len() && i < b.len()
        invariant
            i <= a@.len(),
            i <= b@.len(),
            av == a.deep_view(),
            bv == b.deep_view(),
            order_path(av, bv) == order_path(av.skip(i as int), bv.skip(i as int)),
        decreases a.len() - i,
    {
        let c = compare_strings(&a[i], &b[i]);
        assert(av.skip(i as int)[0] == a@[i as int]@);
        assert(bv.skip(i as int)[0] == b@[i as int]@);
        if c != 0 {
            return c;
        }
        assert(av.skip(i as int).drop_first() =~= av.skip(i + 1));
        assert(bv.skip(i as int).drop_first() =~= bv.skip(i + 1));
        i += 1;
    }
    if a.len() == i && b.len() == i {
        0
    } else if a.len() == i {
        -1
    } else {
        1
    }
}

/// Three-way comparison of two edges.
pub fn compare_dependencies(a: &Dependency, b: &Dependency) -> (r: i8)
    ensures
        r as int == order_dep(a@, b@),
{
    let c = compare_paths(&a.from, &b.from);
    if c != 0 {
        return c;
    }
    let c = compare_paths(&a.to, &b.to);
    if c != 0 {
        return c;
    }
    let x = rank(a.kind);
    let y = rank(b.kind);
    if x < y {
        -1
    } else if y < x {
        1
    } else {
        0
    }
}

/// The values of a list of edges.
pub open spec fn dep_views(v: Seq<Dependency>) -> Seq<DependencyV> {
    v.map_values(|d: Dependency| d@)
}

/// Each edge comes strictly before the next.
pub open spec fn strictly_sorted(s: Seq<DependencyV>) -> bool {
    forall|i: int| 0 <= i < s.len() - 1 ==> #[trigger] order_dep(s[i], s[i + 1]) < 0
}

fn copy_dependency(d: &Dependency) -> (r: Dependency)
    ensures
        r@ == d@,
{
    Dependency {
        from: crate::model::queries::clone_qn(&d.from),
        to: crate::model::queries::clone_qn(&d.to),
        kind: d.kind,
    }
}

/// The edges sorted in their order with repeats removed: strictly sorted, and holding exactly
/// the edges given.
pub fn sort_dedup_edges(edges: &Vec<Dependency>) -> (r: Vec<Dependency>)
    ensures
        strictly_sorted(dep_views(r@)),
        dep_views(r@).to_set() == dep_views(edges@).to_set(),
        dep_views(r@).no_duplicates(),
{
    let mut out: Vec<Dependency> = Vec::new();
    let mut i: usize = 0;
    assert(dep_views(out@).to_set() =~= dep_views(edges@.take(0)).to_set());
    while i < edges.len()
        invariant
            i <= edges@.len(),
            strictly_sorted(dep_views(out@)),
            dep_views(out@).no_duplicates(),
            dep_views(out@).to_set() == dep_views(edges@.take(i as int)).to_set(),
        decreases edges.len() - i,
    {
        let e = &edges[i];
        let ghost ev = e@;
        let ghost before = dep_views(out@);
        assert(dep_views(edges@.take(i + 1)) =~= dep_views(edges@.take(i as int)).push(ev));
        assert(dep_views(edges@.take(i + 1)).to_set() =~= dep_views(edges@.take(i as int)).to_set().insert(ev)) by {
            let s = dep_views(edges@.take(i as int));
            assert forall|x: DependencyV| #[trigger] s.push(ev).to_set().contains(x) implies s.to_set().insert(ev).contains(x) by {
                let j = choose|j: int| 0 <= j < s.push(ev).len() && s.push(ev)[j] == x;
                if j < s.len() {
                    assert(s[j] == x);
                }
            }
            assert forall|x: DependencyV| s.to_set().insert(ev).contains(x) implies #[trigger] s.push(ev).to_set().contains(x) by {
                if x == ev {
                    assert(s.push(ev)[s.len() as int] == x);
                } else {
                    let j = choose|j: int| 0 <= j < s.len() && s[j] == x;
                    assert(s.push(ev)[j] == x);
                }
            }
        }
        // Is it already present?
        let mut present = false;
        let mut j: usize = 0;
        while j < out.len()
            invariant
                j <= out@.len(),
                ev == e@,
                before == dep_views(out@),
                !present ==> forall|k: int| 0 <= k < j ==> before[k] != ev,
                present ==> before.to_set().contains(ev),
            decreases out.len() - j,
        {
            let c = compare_dependencies(&out[j], e);
            proof {
                lemma_order_dep(out@[j as int]@, ev);
                assert(before[j as int] == out@[j as int]@);
            }
            if c == 0 {
                assert(before.to_set().contains(before[j as int]));
                present = true;
            } else {
                assert(before[j as int] != ev);
            }
            j += 1;
        }
        if present {
            assert(before.to_set().insert(ev) =~= before.to_set());
        } else {
            // Find the first position whose edge does not come before `e`.
            let mut p: usize = 0;
            let mut stop = false;
            while p < out.len() && !stop
                invariant
                    p <= out@.len(),
                    ev == e@,
                    before == dep_views(out@),
                    forall|k: int| 0 <= k < p ==> order_dep(#[trigger] before[k], ev) < 0,
                    stop ==> p < out@.len() && order_dep(before[p as int], ev) >= 0,
                decreases out.len() - p, if stop { 0int } else { 1int },
            {
                let c = compare_dependencies(&out[p], e);
                assert(before[p as int] == out@[p as int]@);
                assert(c as int == order_dep(before[p as int], ev));
                if c < 0 {
                    p += 1;
                } else {
                    stop = true;
                }
            }
            proof {
                if p < out@.len() {
                    lemma_order_dep(before[p as int], ev);
                    assert(before[p as int] != ev);
                }
            }
            out.insert(p, copy_dependency(e));
            proof {
                let after = dep_views(out@);
                assert(after =~= before.insert(p as int, ev));
                assert forall|k: int| 0 <= k < after.len() - 1 implies #[trigger] order_dep(after[k], after[k + 1]) < 0 by {
                    if k + 1 < p {
                        assert(after[k] == before[k] && after[k + 1] == before[k + 1]);
                        assert(order_dep(before[k], before[k + 1]) < 0);
                    } else if k + 1 == p {
                        assert(after[k] == before[k] && after[k + 1] == ev);
                    } else if k == p {
                        assert(after[k] == ev && after[k + 1] == before[k]);
                        lemma_order_dep(before[k], ev);
                        assert(before[k] != ev);
                        assert(order_dep(before[k], ev) >= 0);
                    } else {
                        assert(after[k] == before[k - 1] && after[k + 1] == before[k]);
                        assert(order_dep(before[k - 1], before[(k - 1) + 1]) < 0);
                    }
                }
                assert forall|a: int, b: int| 0 <= a < b < after.len() implies after[a] != after[b] by {
                    if a != p && b != p {
                        let a2 = if a < p { a } else { a - 1 };
                        let b2 = if b < p { b } else { b - 1 };
                        assert(after[a] == before[a2] && after[b] == before[b2]);
                    } else if a == p {
                        let b2 = b - 1;
                        assert(after[b] == before[b2]);
                    } else {
                        assert(after[a] == before[a]);
                    }
                }
                assert(after.to_set() =~= before.to_set().insert(ev)) by {
                    assert forall|x: DependencyV| #[trigger] after.to_set().contains(x) implies before.to_set().insert(ev).contains(x) by {
                        let k = choose|k: int| 0 <= k < after.len() && after[k] == x;
                        if k < p {
                            assert(before[k] == x);
                        } else if k > p {
                            assert(before[k - 1] == x);
                        }
                    }
                    assert forall|x: DependencyV| before.to_set().insert(ev).contains(x) implies #[trigger] after.to_set().contains(x) by {
                        if x == ev {
                            assert(after[p as int] == x);
                        } else {
                            let k = choose|k: int| 0 <= k < before.len() && before[k] == x;
                            if k < p {
                                assert(after[k] == x);
                            } else {
                                assert(after[k + 1] == x);
                            }
                        }
                    }
                }
            }
        }
        i += 1;
    }
    assert(edges@.take(edges@.len() as int) =~= edges@);
    out
}

} // verus!
