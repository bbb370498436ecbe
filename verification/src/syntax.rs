//! A concrete syntax tree held as plain values: an arena of nodes in pre-order,
//! linked by parent, first-child and sibling indices.
//!
//! The tree is filled from a tree-sitter parse by walking a cursor over it; the
//! heuristics then read only this arena.
use crate::language::SupportedLanguage;
use crate::text_util::str_eq;
use vstd::prelude::*;

verus! {

/// The tree-sitter grammar handle.
#[verifier::external_type_specification]
#[verifier::external_body]
pub struct ExLanguage(tree_sitter::Language);

/// A tree produced by the tree-sitter parser.
#[verifier::external_type_specification]
#[verifier::external_body]
pub struct ExTree(tree_sitter::Tree);

/// A cursor over a tree-sitter tree.
#[verifier::external_type_specification]
#[verifier::external_body]
pub struct ExTreeCursor<'tree>(tree_sitter::TreeCursor<'tree>);

/// The Rust grammar (`tree_sitter_rust::LANGUAGE`).
#[verifier::external_body]
fn rust_grammar() -> tree_sitter::Language {
    tree_sitter_rust::LANGUAGE.into()
}

/// The Java grammar (`tree_sitter_java::LANGUAGE`).
#[verifier::external_body]
fn java_grammar() -> tree_sitter::Language {
    tree_sitter_java::LANGUAGE.into()
}

/// The Python grammar (`tree_sitter_python::LANGUAGE`).
#[verifier::external_body]
fn python_grammar() -> tree_sitter::Language {
    tree_sitter_python::LANGUAGE.into()
}

/// The C grammar (`tree_sitter_c::LANGUAGE`).
#[verifier::external_body]
fn c_grammar() -> tree_sitter::Language {
    tree_sitter_c::LANGUAGE.into()
}

/// The C++ grammar (`tree_sitter_cpp::LANGUAGE`).
#[verifier::external_body]
fn cpp_grammar() -> tree_sitter::Language {
    tree_sitter_cpp::LANGUAGE.into()
}

impl SupportedLanguage {
    /// The tree-sitter grammar of this language.
    pub fn to_tree_sitter_lang(&self) -> tree_sitter::Language {
        match self {
            SupportedLanguage::Rust => rust_grammar(),
            SupportedLanguage::Java => java_grammar(),
            SupportedLanguage::Python => python_grammar(),
            SupportedLanguage::C => c_grammar(),
            SupportedLanguage::Cpp => cpp_grammar(),
        }
    }
}

/// Whether tree-sitter gives a tree for `source` in the grammar of `lang` (a grammar the
/// parser accepts, with no timeout or cancellation set): a function of the two alone.
pub uninterp spec fn parses(lang: SupportedLanguage, source: Seq<char>) -> bool;

/// Parses `source` with the grammar of `lang` (the grammar crate's `LANGUAGE`, then
/// `Parser::new`, `Parser::set_language`, `Parser::parse`). `None` comes back where the grammar
/// is refused or the parser gives no tree, that is exactly where `parses` does not hold.
/// Nothing is stated of the tree.
#[verifier::external_body]
fn parse_in(lang: SupportedLanguage, source: &str) -> (r: Option<tree_sitter::Tree>)
    ensures
        r is Some <==> parses(lang, source@),
{
    let grammar: tree_sitter::Language = match lang {
        SupportedLanguage::Rust => tree_sitter_rust::LANGUAGE.into(),
        SupportedLanguage::Java => tree_sitter_java::LANGUAGE.into(),
        SupportedLanguage::Python => tree_sitter_python::LANGUAGE.into(),
        SupportedLanguage::C => tree_sitter_c::LANGUAGE.into(),
        SupportedLanguage::Cpp => tree_sitter_cpp::LANGUAGE.into(),
    };
    let mut parser = tree_sitter::Parser::new();
    parser.set_language(&grammar).ok()?;
    parser.parse(source, None)
}

/// The number of nodes of the tree, the root included
/// (`Node::descendant_count` of `Tree::root_node`); at least one, for the root.
#[verifier::external_body]
fn node_count(tree: &tree_sitter::Tree) -> (r: usize)
    ensures
        r >= 1,
{
    tree.root_node().descendant_count()
}

/// A cursor on the root of the tree (`Tree::walk`).
#[verifier::external_body]
fn root_cursor(tree: &tree_sitter::Tree) -> tree_sitter::TreeCursor<'_> {
    tree.walk()
}

/// Moves the cursor to the first child of its node (`TreeCursor::goto_first_child`);
/// `false` where the node has no child.
#[verifier::external_body]
fn goto_first_child(c: &mut tree_sitter::TreeCursor<'_>) -> bool {
    c.goto_first_child()
}

/// Moves the cursor to the next sibling of its node
/// (`TreeCursor::goto_next_sibling`); `false` where there is none.
#[verifier::external_body]
fn goto_next_sibling(c: &mut tree_sitter::TreeCursor<'_>) -> bool {
    c.goto_next_sibling()
}

/// Moves the cursor to the parent of its node (`TreeCursor::goto_parent`).
#[verifier::external_body]
fn goto_parent(c: &mut tree_sitter::TreeCursor<'_>) -> bool {
    c.goto_parent()
}

/// The grammar kind of the cursor's node (`Node::kind`).
#[verifier::external_body]
fn cursor_kind(c: &tree_sitter::TreeCursor<'_>) -> String {
    c.node().kind().to_string()
}

/// Whether the cursor's node is named in the grammar (`Node::is_named`).
#[verifier::external_body]
fn cursor_is_named(c: &tree_sitter::TreeCursor<'_>) -> bool {
    c.node().is_named()
}

/// The field under which the cursor's node hangs from its parent
/// (`TreeCursor::field_name`).
#[verifier::external_body]
fn cursor_field(c: &tree_sitter::TreeCursor<'_>) -> Option<String> {
    c.field_name().map(|f| f.to_string())
}

/// The source text that the cursor's node spans (the bytes from `Node::start_byte` to
/// `Node::end_byte`, read with `slice::get` and `str::from_utf8`), or the empty string where
/// that range is not within `source` or its bytes are not UTF-8: either way a stretch of
/// `source`, with no panic whatever string is given. Which stretch depends on the cursor's node
/// and is not stated.
#[verifier::external_body]
fn cursor_text(c: &tree_sitter::TreeCursor<'_>, source: &str) -> (r: String)
    ensures
        crate::text_util::contains_sub(source@, r@),
{
    let n = c.node();
    match source.as_bytes().get(n.start_byte()..n.end_byte()) {
        Some(b) => std::str::from_utf8(b).unwrap_or("").to_string(),
        None => String::new(),
    }
}

/// A syntax tree as an arena. Node `0` is the root; every other node comes after
/// its parent, and siblings come in source order.
pub struct SyntaxTree {
    kinds: Vec<String>,
    named: Vec<bool>,
    texts: Vec<String>,
    fields: Vec<Option<String>>,
    parents: Vec<Option<usize>>,
    first_child: Vec<Option<usize>>,
    last_child: Vec<Option<usize>>,
    next_sibling: Vec<Option<usize>>,
    prev_sibling: Vec<Option<usize>>,
    kids: Vec<Vec<usize>>,
}

impl SyntaxTree {
    /// The number of nodes.
    pub closed spec fn size(&self) -> nat {
        self.kinds@.len()
    }

    /// The grammar kind of node `n`.
    pub closed spec fn kind_of(&self, n: int) -> Seq<char> {
        self.kinds@[n]@
    }

    /// Whether node `n` is named in the grammar.
    pub closed spec fn named_of(&self, n: int) -> bool {
        self.named@[n]
    }

    /// The source text of node `n`.
    pub closed spec fn text_of(&self, n: int) -> Seq<char> {
        self.texts@[n]@
    }

    /// The field name of node `n` under its parent.
    pub closed spec fn field_of(&self, n: int) -> Option<Seq<char>> {
        match self.fields@[n] {
            Some(f) => Some(f@),
            None => None,
        }
    }

    /// The parent of node `n`.
    pub closed spec fn parent_of(&self, n: int) -> Option<usize> {
        self.parents@[n]
    }

    /// The next sibling of node `n`.
    pub closed spec fn next_of(&self, n: int) -> Option<usize> {
        self.next_sibling@[n]
    }

    /// The previous sibling of node `n`.
    pub closed spec fn prev_of(&self, n: int) -> Option<usize> {
        self.prev_sibling@[n]
    }

    /// The first child of node `n`.
    pub closed spec fn first_of(&self, n: int) -> Option<usize> {
        self.first_child@[n]
    }

    /// The children of node `n`, in source order.
    pub closed spec fn kids_of(&self, n: int) -> Seq<usize> {
        self.kids@[n]@
    }

    /// Whether `c` is a child of `n`.
    pub open spec fn is_child(&self, n: int, c: int) -> bool {
        0 <= c < self.size() && self.parent_of(c) == Some(n as usize)
    }

    /// Well-formedness: the arrays agree in length, the root has no parent, every
    /// other node follows its parent, and the child and sibling links stay among
    /// the children of one parent and move forward (backward for `prev`).
    pub closed spec fn wf(&self) -> bool {
        let n = self.kinds@.len();
        &&& n > 0
        &&& self.named@.len() == n
        &&& self.texts@.len() == n
        &&& self.fields@.len() == n
        &&& self.parents@.len() == n
        &&& self.first_child@.len() == n
        &&& self.last_child@.len() == n
        &&& self.next_sibling@.len() == n
        &&& self.prev_sibling@.len() == n
        &&& self.kids@.len() == n
        &&& self.parents@[0] is None
        &&& forall|i: int, k: int|
            0 <= i < n && 0 <= k < self.kids@[i]@.len() ==> i < #[trigger] self.kids@[i]@[k] < n
                && self.parents@[self.kids@[i]@[k] as int] == Some(i as usize)
        &&& forall|i: int, j: int, k: int|
            0 <= i < n && 0 <= j < k < self.kids@[i]@.len() ==> #[trigger] self.kids@[i]@[j]
                < #[trigger] self.kids@[i]@[k]
        &&& forall|c: int|
            0 < c < n ==> ((#[trigger] self.parents@[c]) matches Some(p)
                && self.kids@[p as int]@.contains(c as usize))
        &&& forall|i: int|
            0 < i < n ==> ((#[trigger] self.parents@[i]) matches Some(p) && p < i)
        &&& forall|i: int|
            0 <= i < n ==> ((#[trigger] self.first_child@[i]) matches Some(c) ==> i < c < n
                && self.parents@[c as int] == Some(i as usize))
        &&& forall|i: int|
            0 <= i < n ==> ((#[trigger] self.last_child@[i]) matches Some(c) ==> i < c < n
                && self.parents@[c as int] == Some(i as usize))
        &&& forall|i: int|
            0 <= i < n ==> ((#[trigger] self.next_sibling@[i]) matches Some(s) ==> i < s < n
                && self.parents@[s as int] == self.parents@[i] && self.parents@[i] is Some)
        &&& forall|i: int|
            0 <= i < n ==> ((#[trigger] self.prev_sibling@[i]) matches Some(s) ==> s < i
                && self.parents@[s as int] == self.parents@[i] && self.parents@[i] is Some)
    }

    /// The number of nodes.
    pub fn len(&self) -> (r: usize)
        ensures
            r == self.size(),
    {
        self.kinds.len()
    }

    /// The grammar kind of node `n` (`Node::kind`).
    pub fn kind(&self, n: usize) -> (r: &str)
        requires
            self.wf(),
            n < self.size(),
        ensures
            r@ == self.kind_of(n as int),
    {
        self.kinds[n].as_str()
    }

    /// Whether node `n` is named (`Node::is_named`).
    pub fn is_named(&self, n: usize) -> (r: bool)
        requires
            self.wf(),
            n < self.size(),
        ensures
            r == self.named_of(n as int),
    {
        self.named[n]
    }

    /// The source text of node `n`.
    pub fn text(&self, n: usize) -> (r: &str)
        requires
            self.wf(),
            n < self.size(),
        ensures
            r@ == self.text_of(n as int),
    {
        self.texts[n].as_str()
    }

    /// The parent of node `n` (`Node::parent`).
    pub fn parent(&self, n: usize) -> (r: Option<usize>)
        requires
            self.wf(),
            n < self.size(),
        ensures
            r == self.parent_of(n as int),
            r matches Some(p) ==> p < n,
            r is None <==> n == 0,
    {
        self.parents[n]
    }

    /// The first child of node `n`.
    pub fn first_child(&self, n: usize) -> (r: Option<usize>)
        requires
            self.wf(),
            n < self.size(),
        ensures
            r == self.first_of(n as int),
            r matches Some(c) ==> n < c < self.size() && self.is_child(n as int, c as int),
    {
        self.first_child[n]
    }

    /// The next sibling of node `n` (`Node::next_sibling`).
    pub fn next_sibling(&self, n: usize) -> (r: Option<usize>)
        requires
            self.wf(),
            n < self.size(),
        ensures
            r == self.next_of(n as int),
            r matches Some(s) ==> n < s < self.size() && self.parent_of(s as int) == self.parent_of(
                n as int,
            ),
    {
        self.next_sibling[n]
    }

    /// The previous sibling of node `n` (`Node::prev_sibling`).
    pub fn prev_sibling(&self, n: usize) -> (r: Option<usize>)
        requires
            self.wf(),
            n < self.size(),
        ensures
            r == self.prev_of(n as int),
            r matches Some(s) ==> s < n && self.parent_of(s as int) == self.parent_of(n as int),
    {
        self.prev_sibling[n]
    }

    /// Whether node `n` hangs from its parent under the field `name`.
    pub fn has_field(&self, n: usize, name: &str) -> (r: bool)
        requires
            self.wf(),
            n < self.size(),
        ensures
            r == (self.field_of(n as int) == Some(name@)),
    {
        match &self.fields[n] {
            Some(f) => str_eq(f.as_str(), name),
            None => false,
        }
    }

    /// The children of node `n`, in source order (`Node::children`).
    pub fn children(&self, n: usize) -> (r: &Vec<usize>)
        requires
            self.wf(),
            n < self.size(),
        ensures
            r@ == self.kids_of(n as int),
            forall|k: int| 0 <= k < r@.len() ==> self.is_child(n as int, #[trigger] r@[k] as int),
            forall|k: int| 0 <= k < r@.len() ==> n < #[trigger] r@[k] < self.size(),
            forall|j: int, k: int| 0 <= j < k < r@.len() ==> r@[j] < r@[k],
            forall|c: int| #[trigger] self.is_child(n as int, c) ==> r@.contains(c as usize),
    {
        let r = &self.kids[n];
        proof {
            assert forall|c: int| #[trigger] self.is_child(n as int, c) implies r@.contains(c as usize) by {
                assert(self.parents@[c] == Some(n));
            }
        }
        r
    }

    /// The `k`-th child of node `n` (`Node::child`).
    pub fn child(&self, n: usize, k: usize) -> (r: Option<usize>)
        requires
            self.wf(),
            n < self.size(),
        ensures
            r == (if k < self.kids_of(n as int).len() {
                Some(self.kids_of(n as int)[k as int])
            } else {
                None
            }),
            r matches Some(c) ==> self.is_child(n as int, c as int) && n < c,
    {
        let kids = self.children(n);
        if k < kids.len() {
            Some(kids[k])
        } else {
            None
        }
    }

    /// The number of children of node `n` (`Node::child_count`).
    pub fn child_count(&self, n: usize) -> (r: usize)
        requires
            self.wf(),
            n < self.size(),
        ensures
            r == self.kids_of(n as int).len(),
    {
        self.children(n).len()
    }

    /// The test that picks the named nodes out of a list of children.
    pub closed spec fn named_pred(&self) -> spec_fn(usize) -> bool {
        |c: usize| self.named_of(c as int)
    }

    /// The named children of node `n`, in source order.
    pub open spec fn named_kids(&self, n: int) -> Seq<usize> {
        self.kids_of(n).filter(self.named_pred())
    }

    /// The `k`-th named child of node `n` (`Node::named_child`).
    pub fn named_child(&self, n: usize, k: usize) -> (r: Option<usize>)
        requires
            self.wf(),
            n < self.size(),
        ensures
            r == (if k < self.named_kids(n as int).len() {
                Some(self.named_kids(n as int)[k as int])
            } else {
                None
            }),
            r matches Some(c) ==> self.is_child(n as int, c as int) && n < c && self.named_of(
                c as int,
            ),
    {
        let kids = self.children(n);
        let ghost p = self.named_pred();
        let mut seen: usize = 0;
        let mut i: usize = 0;
        while i < kids.len()
            invariant
                self.wf(),
                n < self.size(),
                kids@ == self.kids_of(n as int),
                p == self.named_pred(),
                i <= kids@.len(),
                seen <= k,
                seen == kids@.take(i as int).filter(p).len(),
                forall|j: int| 0 <= j < kids@.len() ==> self.is_child(n as int, #[trigger] kids@[j] as int),
                forall|j: int| 0 <= j < kids@.len() ==> n < #[trigger] kids@[j],
            decreases kids.len() - i,
        {
            let c = kids[i];
            proof {
                assert(kids@.take(i as int + 1) =~= kids@.take(i as int).push(c));
                kids@.take(i as int).lemma_filter_push(c, p);
            }
            if self.named[c] {
                if seen == k {
                    proof {
                        let front = kids@.take(i as int + 1);
                        let back = kids@.skip(i as int + 1);
                        assert(kids@ =~= front + back);
                        Seq::filter_distributes_over_add(front, back, p);
                        assert(p(c));
                        assert(front.filter(p) == kids@.take(i as int).filter(p).push(c));
                        assert(kids@.filter(p)[k as int] == c);
                    }
                    return Some(c);
                }
                seen = seen + 1;
            }
            i = i + 1;
        }
        proof {
            assert(kids@.take(i as int) =~= kids@);
        }
        None
    }

    /// Whether the `k`-th child of `n` is the first one under the field `name`.
    pub open spec fn first_field_index(&self, n: int, name: Seq<char>, k: int) -> bool {
        &&& 0 <= k < self.kids_of(n).len()
        &&& self.field_of(self.kids_of(n)[k] as int) == Some(name)
        &&& forall|j: int| 0 <= j < k ==> self.field_of(#[trigger] self.kids_of(n)[j] as int) != Some(name)
    }

    /// The first child of `n` under the field `name`, if any.
    pub open spec fn field_child(&self, n: int, name: Seq<char>) -> Option<usize> {
        if exists|k: int| self.first_field_index(n, name, k) {
            Some(self.kids_of(n)[choose|k: int| self.first_field_index(n, name, k)])
        } else {
            None
        }
    }

    /// The first child of node `n` under the field `name` (`Node::child_by_field_name`).
    pub fn child_by_field_name(&self, n: usize, name: &str) -> (r: Option<usize>)
        requires
            self.wf(),
            n < self.size(),
        ensures
            r == self.field_child(n as int, name@),
            r matches Some(c) ==> exists|k: int|
                0 <= k < self.kids_of(n as int).len() && #[trigger] self.kids_of(n as int)[k] == c
                    && self.field_of(c as int) == Some(name@) && forall|j: int|
                    0 <= j < k ==> self.field_of(#[trigger] self.kids_of(n as int)[j] as int)
                        != Some(name@),
            r is None ==> forall|k: int|
                0 <= k < self.kids_of(n as int).len() ==> self.field_of(
                    #[trigger] self.kids_of(n as int)[k] as int,
                ) != Some(name@),
            r matches Some(c) ==> self.is_child(n as int, c as int) && n < c && self.field_of(
                c as int,
            ) == Some(name@),
    {
        let kids = self.children(n);
        let mut i: usize = 0;
        while i < kids.len()
            invariant
                self.wf(),
                n < self.size(),
                kids@ == self.kids_of(n as int),
                i <= kids@.len(),
                forall|j: int| 0 <= j < i ==> self.field_of(#[trigger] kids@[j] as int) != Some(name@),
                forall|j: int| 0 <= j < kids@.len() ==> self.is_child(n as int, #[trigger] kids@[j] as int),
                forall|j: int| 0 <= j < kids@.len() ==> n < #[trigger] kids@[j],
            decreases kids.len() - i,
        {
            let c = kids[i];
            if self.has_field(c, name) {
                proof {
                    assert(self.kids_of(n as int)[i as int] == c);
                    assert(self.first_field_index(n as int, name@, i as int));
                    let k = choose|k: int| self.first_field_index(n as int, name@, k);
                    if k < i {
                        assert(self.field_of(kids@[k] as int) != Some(name@));
                    }
                    if k > i {
                        assert(self.field_of(self.kids_of(n as int)[i as int] as int) != Some(name@));
                    }
                    assert(k == i);
                }
                return Some(c);
            }
            i = i + 1;
        }
        proof {
            assert forall|k: int| !self.first_field_index(n as int, name@, k) by {
                if 0 <= k < kids@.len() {
                    assert(self.field_of(kids@[k] as int) != Some(name@));
                }
            }
        }
        None
    }

    /// Whether every node's text is a stretch of `source`.
    pub open spec fn texts_within(&self, source: Seq<char>) -> bool {
        forall|i: int| 0 <= i < self.size() ==> crate::text_util::contains_sub(source, #[trigger] self.text_of(i))
    }

    /// A tree of one node, read from the cursor's node.
    fn from_root(c: &tree_sitter::TreeCursor<'_>, source: &str) -> (r: SyntaxTree)
        ensures
            r.wf(),
            r.size() == 1,
            r.texts_within(source@),
    {
        let kind = cursor_kind(c);
        let named = cursor_is_named(c);
        let field = cursor_field(c);
        let text = cursor_text(c, source);
        SyntaxTree {
            kinds: vec![kind],
            named: vec![named],
            texts: vec![text],
            fields: vec![field],
            parents: vec![None],
            first_child: vec![None],
            last_child: vec![None],
            next_sibling: vec![None],
            prev_sibling: vec![None],
            kids: vec![Vec::new()],
        }
    }

    /// Appends the cursor's node as the last child of `p`.
    fn push_child(&mut self, p: usize, c: &tree_sitter::TreeCursor<'_>, source: &str)
        requires
            old(self).wf(),
            p < old(self).size(),
            old(self).texts_within(source@),
        ensures
            final(self).wf(),
            final(self).texts_within(source@),
            final(self).size() == old(self).size() + 1,
            final(self).parent_of(old(self).size() as int) == Some(p),
            forall|i: int| 0 <= i < old(self).size() ==> final(self).parent_of(i) == old(self).parent_of(i),
    {
        let i = self.kinds.len();
        let kind = cursor_kind(c);
        let named = cursor_is_named(c);
        let field = cursor_field(c);
        let text = cursor_text(c, source);
        let ghost tv = text@;
        let prev = self.last_child[p];
        self.kinds.push(kind);
        self.named.push(named);
        self.texts.push(text);
        self.fields.push(field);
        self.parents.push(Some(p));
        self.first_child.push(None);
        self.last_child.push(None);
        self.next_sibling.push(None);
        self.prev_sibling.push(prev);
        match prev {
            Some(l) => {
                self.next_sibling.set(l, Some(i));
            },
            None => {
                self.first_child.set(p, Some(i));
            },
        }
        self.last_child.set(p, Some(i));
        self.kids.push(Vec::new());
        let mut list: Vec<usize> = Vec::new();
        self.kids.set_and_swap(p, &mut list);
        list.push(i);
        self.kids.set_and_swap(p, &mut list);
        proof {
            let n = self.kids@.len() as int;
            let o = old(self);
            assert(n == i + 1);
            assert forall|j: int| 0 <= j < self.size() implies crate::text_util::contains_sub(
                source@,
                #[trigger] self.text_of(j),
            ) by {
                if j < i {
                    assert(self.texts@[j] == o.texts@[j]);
                    assert(crate::text_util::contains_sub(source@, o.text_of(j)));
                } else {
                    assert(self.texts@[j]@ == tv);
                }
            }
            assert forall|a: int| 0 <= a < n && a != p implies #[trigger] self.kids@[a]@ == (if a
                < i { o.kids@[a]@ } else { Seq::<usize>::empty() }) by {}
            assert(self.kids@[p as int]@ == o.kids@[p as int]@.push(i));
            assert forall|a: int, k: int|
                0 <= a < n && 0 <= k < self.kids@[a]@.len() implies a < #[trigger] self.kids@[a]@[k]
                < n && self.parents@[self.kids@[a]@[k] as int] == Some(a as usize) by {
                if a != p {
                    assert(self.kids@[a]@[k] == o.kids@[a]@[k]);
                } else if k < o.kids@[p as int]@.len() {
                    assert(self.kids@[a]@[k] == o.kids@[a]@[k]);
                }
            }
            assert forall|a: int, j: int, k: int|
                0 <= a < n && 0 <= j < k < self.kids@[a]@.len() implies #[trigger] self.kids@[a]@[j]
                < #[trigger] self.kids@[a]@[k] by {
                if a != p {
                    assert(self.kids@[a]@[j] == o.kids@[a]@[j]);
                    assert(self.kids@[a]@[k] == o.kids@[a]@[k]);
                } else {
                    assert(self.kids@[a]@[j] == o.kids@[a]@[j]);
                    assert(o.kids@[a]@[j] < i);
                }
            }
            assert forall|c: int| 0 < c < n implies ((#[trigger] self.parents@[c]) matches Some(q)
                && self.kids@[q as int]@.contains(c as usize)) by {
                if c < i {
                    let q = o.parents@[c].unwrap();
                    assert(o.kids@[q as int]@.contains(c as usize));
                    let w = choose|w: int| 0 <= w < o.kids@[q as int]@.len() && o.kids@[q as int]@[w] == c;
                    assert(self.kids@[q as int]@[w] == c);
                } else {
                    assert(self.kids@[p as int]@[o.kids@[p as int]@.len() as int] == i);
                }
            }
        }
    }

    /// Reads a tree-sitter tree into an arena, node by node in pre-order.
    fn from_tree(tree: &tree_sitter::Tree, source: &str) -> (r: SyntaxTree)
        ensures
            r.wf(),
            r.size() > 0,
            r.texts_within(source@),
    {
        let limit = node_count(tree);
        let mut cursor = root_cursor(tree);
        let mut out = SyntaxTree::from_root(&cursor, source);
        // The path from the root to the cursor's node.
        let mut path: Vec<usize> = vec![0];
        let mut done = false;
        while !done && out.len() < limit
            invariant
                out.wf(),
                out.texts_within(source@),
                path@.len() >= 1,
                path@[0] == 0,
                forall|k: int| 0 <= k < path@.len() ==> #[trigger] path@[k] < out.size(),
            decreases limit - out.size() + (if done { 0int } else { 1int }),
        {
            if goto_first_child(&mut cursor) {
                let top = path[path.len() - 1];
                let fresh = out.len();
                out.push_child(top, &cursor, source);
                path.push(fresh);
            } else {
                let mut moved = false;
                let ghost s0 = out.size();
                while !moved && path.len() > 1
                    invariant
                        out.wf(),
                        out.texts_within(source@),
                        path@.len() >= 1,
                        path@[0] == 0,
                        forall|k: int| 0 <= k < path@.len() ==> #[trigger] path@[k] < out.size(),
                        s0 < limit,
                        out.size() == s0 + (if moved { 1int } else { 0int }),
                    decreases path@.len() + (if moved { 0int } else { 1int }),
                {
                    if goto_next_sibling(&mut cursor) {
                        let up = path[path.len() - 2];
                        let fresh = out.len();
                        out.push_child(up, &cursor, source);
                        path.pop();
                        path.push(fresh);
                        moved = true;
                    } else {
                        goto_parent(&mut cursor);
                        path.pop();
                    }
                }
                if !moved {
                    done = true;
                }
            }
        }
        out
    }

    /// Parses `source` in `lang` and reads the tree into an arena; `None` where the
    /// parser gives no tree. Every node's text is a stretch of `source`.
    pub fn parse(lang: SupportedLanguage, source: &str) -> (r: Option<SyntaxTree>)
        ensures
            r is Some <==> parses(lang, source@),
            r matches Some(t) ==> t.wf() && t.size() > 0 && t.texts_within(source@),
    {
        match parse_in(lang, source) {
            Some(tree) => Some(SyntaxTree::from_tree(&tree, source)),
            None => None,
        }
    }
}

} // verus!
