//! Type references and the resolution queries that the builder writes into them.
use vstd::prelude::*;

verus! {

/// A path of identifiers, outermost first (`std::vec::Vec` is `["std", "vec", "Vec"]`).
pub type QualifiedName = Vec<String>;

/// An algebraic resolution query: find a name, extract a member of a result, or call a result.
#[derive(Debug, PartialEq)]
pub enum Query {
    Find(String),
    Extract(Box<Query>, String),
    Call(Box<Query>),
}

/// A reference to a type, in one of the states it passes through during analysis.
#[derive(Debug, PartialEq)]
pub enum TypeRef {
    Primitive(String),
    Unresolved(QualifiedName),
    ResolutionQuery(Query),
    Resolved(QualifiedName),
    External(QualifiedName),
    Failed(QualifiedName),
    EvaluatedAccess(Box<TypeRef>, Box<TypeRef>),
    Union(Vec<TypeRef>),
    Generic { base: Box<TypeRef>, args: Vec<TypeRef> },
    TypeVar { name: String, bounds: Vec<TypeRef> },
}

/// The mathematical value of a [`Query`]: names as character sequences.
pub enum QueryV {
    Find(Seq<char>),
    Extract(Box<QueryV>, Seq<char>),
    Call(Box<QueryV>),
}

/// The mathematical value of a [`TypeRef`].
pub enum TypeRefV {
    Primitive(Seq<char>),
    Unresolved(Seq<Seq<char>>),
    ResolutionQuery(QueryV),
    Resolved(Seq<Seq<char>>),
    External(Seq<Seq<char>>),
    Failed(Seq<Seq<char>>),
    EvaluatedAccess(Box<TypeRefV>, Box<TypeRefV>),
    Union(Seq<TypeRefV>),
    Generic { base: Box<TypeRefV>, args: Seq<TypeRefV> },
    TypeVar { name: Seq<char>, bounds: Seq<TypeRefV> },
}

pub open spec fn query_view(q: Query) -> QueryV
    decreases q,
{
    match q {
        Query::Find(n) => QueryV::Find(n@),
        Query::Extract(p, m) => QueryV::Extract(Box::new(query_view(*p)), m@),
        Query::Call(p) => QueryV::Call(Box::new(query_view(*p))),
    }
}

impl View for Query {
    type V = QueryV;

    open spec fn view(&self) -> QueryV {
        query_view(*self)
    }
}

pub open spec fn typeref_view(t: TypeRef) -> TypeRefV
    decreases t, 0nat,
{
    match t {
        TypeRef::Primitive(s) => TypeRefV::Primitive(s@),
        TypeRef::Unresolved(q) => TypeRefV::Unresolved(q.deep_view()),
        TypeRef::ResolutionQuery(q) => TypeRefV::ResolutionQuery(query_view(q)),
        TypeRef::Resolved(q) => TypeRefV::Resolved(q.deep_view()),
        TypeRef::External(q) => TypeRefV::External(q.deep_view()),
        TypeRef::Failed(q) => TypeRefV::Failed(q.deep_view()),
        TypeRef::EvaluatedAccess(a, b) => TypeRefV::EvaluatedAccess(
            Box::new(typeref_view(*a)),
            Box::new(typeref_view(*b)),
        ),
        TypeRef::Union(vs) => TypeRefV::Union(typerefs_view(vs@)),
        TypeRef::Generic { base, args } => TypeRefV::Generic {
            base: Box::new(typeref_view(*base)),
            args: typerefs_view(args@),
        },
        TypeRef::TypeVar { name, bounds } => TypeRefV::TypeVar {
            name: name@,
            bounds: typerefs_view(bounds@),
        },
    }
}

pub open spec fn typerefs_view(s: Seq<TypeRef>) -> Seq<TypeRefV>
    decreases s, 1nat,
{
    if s.len() == 0 {
        Seq::empty()
    } else {
        seq![typeref_view(s[0])] + typerefs_view(s.drop_first())
    }
}

/// `typerefs_view` maps each element by its view.
pub proof fn lemma_typerefs_view(s: Seq<TypeRef>)
    ensures
        typerefs_view(s).len() == s.len(),
        forall|i: int| 0 <= i < s.len() ==> #[trigger] typerefs_view(s)[i] == s[i]@,
    decreases s.len(),
{
    if s.len() > 0 {
        lemma_typerefs_view(s.drop_first());
        assert forall|i: int| 0 <= i < s.len() implies #[trigger] typerefs_view(s)[i] == s[i]@ by {
            if i > 0 {
                assert(s.drop_first()[i - 1] == s[i]);
            }
        }
    }
}

/// The view of a concatenation is the concatenation of the views.
pub proof fn lemma_typerefs_view_concat(a: Seq<TypeRef>, b: Seq<TypeRef>)
    ensures
        typerefs_view(a + b) == typerefs_view(a) + typerefs_view(b),
{
    lemma_typerefs_view(a);
    lemma_typerefs_view(b);
    lemma_typerefs_view(a + b);
    assert(typerefs_view(a + b) =~= typerefs_view(a) + typerefs_view(b));
}

/// Two lists with pointwise equal views have equal views.
pub proof fn lemma_typerefs_view_ext(a: Seq<TypeRef>, b: Seq<TypeRef>)
    requires
        a.len() == b.len(),
        forall|i: int| 0 <= i < a.len() ==> #[trigger] a[i]@ == b[i]@,
    ensures
        typerefs_view(a) == typerefs_view(b),
{
    lemma_typerefs_view(a);
    lemma_typerefs_view(b);
    assert(typerefs_view(a) =~= typerefs_view(b));
}

impl View for TypeRef {
    type V = TypeRefV;

    open spec fn view(&self) -> TypeRefV {
        typeref_view(*self)
    }
}

/// A query built from a path: `Find(p[0])` followed by one `Extract` per further segment.
pub open spec fn path_query(p: Seq<String>) -> Query
    decreases p.len(),
{
    if p.len() <= 1 {
        Query::Find(if p.len() == 1 { p[0] } else { arbitrary() })
    } else {
        Query::Extract(Box::new(path_query(p.drop_last())), p.last())
    }
}

/// The human-readable rendering of a query: `a::b::c`, with `()` after a call.
pub open spec fn query_text(q: Query) -> Seq<char>
    decreases q,
{
    match q {
        Query::Find(n) => n@,
        Query::Extract(p, m) => query_text(*p) + "::"@ + m@,
        Query::Call(p) => query_text(*p) + "()"@,
    }
}

/// The static path a query denotes: its `Find` name followed by every extracted member (calls add nothing).
pub open spec fn query_path(q: Query) -> Seq<Seq<char>>
    decreases q,
{
    match q {
        Query::Find(n) => seq![n@],
        Query::Extract(p, m) => query_path(*p).push(m@),
        Query::Call(p) => query_path(*p),
    }
}

impl Query {
    /// A copy equal to `self`.
    pub fn duplicate(&self) -> (r: Query)
        ensures
            r == *self,
        decreases self,
    {
        match self {
            Query::Find(n) => Query::Find(n.clone()),
            Query::Extract(p, m) => Query::Extract(Box::new(p.duplicate()), m.clone()),
            Query::Call(p) => Query::Call(Box::new(p.duplicate())),
        }
    }
}

/// A copy of a qualified name, equal to it.
pub fn clone_qn(q: &QualifiedName) -> (r: QualifiedName)
    ensures
        r@ == q@,
        r.deep_view() == q.deep_view(),
{
    let r = q.clone();
    assert(r@ =~= q@);
    r
}

impl TypeRef {
    /// A copy equal to `self`.
    pub fn duplicate(&self) -> (r: TypeRef)
        ensures
            r@ == self@,
        decreases self,
    {
        match self {
            TypeRef::Primitive(s) => TypeRef::Primitive(s.clone()),
            TypeRef::Unresolved(q) => TypeRef::Unresolved(clone_qn(q)),
            TypeRef::ResolutionQuery(q) => TypeRef::ResolutionQuery(q.duplicate()),
            TypeRef::Resolved(q) => TypeRef::Resolved(clone_qn(q)),
            TypeRef::External(q) => TypeRef::External(clone_qn(q)),
            TypeRef::Failed(q) => TypeRef::Failed(clone_qn(q)),
            TypeRef::EvaluatedAccess(a, b) => TypeRef::EvaluatedAccess(
                Box::new(a.duplicate()),
                Box::new(b.duplicate()),
            ),
            TypeRef::Union(vs) => TypeRef::Union(clone_typerefs(vs)),
            TypeRef::Generic { base, args } => TypeRef::Generic {
                base: Box::new(base.duplicate()),
                args: clone_typerefs(args),
            },
            TypeRef::TypeVar { name, bounds } => TypeRef::TypeVar {
                name: name.clone(),
                bounds: clone_typerefs(bounds),
            },
        }
    }
}

impl Clone for TypeRef {
    fn clone(&self) -> (r: Self)
        ensures
            r@ == self@,
    {
        self.duplicate()
    }
}

impl Clone for Query {
    fn clone(&self) -> (r: Self)
        ensures
            r == *self,
    {
        self.duplicate()
    }
}

/// A copy of a list of type references, equal to it.
pub fn clone_typerefs(v: &Vec<TypeRef>) -> (r: Vec<TypeRef>)
    ensures
        r@.len() == v@.len(),
        forall|i: int| 0 <= i < v@.len() ==> #[trigger] r@[i]@ == v@[i]@,
        typerefs_view(r@) == typerefs_view(v@),
    decreases v,
{
    let mut out: Vec<TypeRef> = Vec::new();
    let mut i: usize = 0;
    while i < v.len()
        invariant
            i <= v.len(),
            out@.len() == i,
            forall|j: int| 0 <= j < i ==> #[trigger] out@[j]@ == v@[j]@,
        decreases v.len() - i,
    {
        out.push(v[i].duplicate());
        i += 1;
    }
    proof {
        lemma_typerefs_view_ext(out@, v@);
    }
    out
}

} // verus!
