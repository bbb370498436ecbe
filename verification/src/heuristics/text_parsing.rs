//! Splitting textual names into qualified names.
use crate::model::components::opt_str_view;
use crate::model::queries::QualifiedName;
use crate::text_util::{
    chars_of, find_char, first_index_of, lemma_first_index_of, slice_chars, string_from_chars,
    trim, trim_chars,
};
use crate::syntax::SyntaxTree;
use crate::text_util::str_eq;
use vstd::prelude::*;

verus! {

/// `s` up to (not including) the first occurrence of `c`; all of `s` if `c` does not occur.
pub open spec fn before_first(s: Seq<char>, c: char) -> Seq<char> {
    match first_index_of(s, c) {
        Some(i) => s.take(i),
        None => s,
    }
}

/// `s` with every `->` (scanned left to right) replaced by `.`.
pub open spec fn replace_arrows(s: Seq<char>) -> Seq<char>
    decreases s.len(),
{
    if s.len() >= 2 && s[0] == '-' && s[1] == '>' {
        seq!['.'] + replace_arrows(s.skip(2))
    } else if s.len() >= 1 {
        seq![s[0]] + replace_arrows(s.skip(1))
    } else {
        s
    }
}

/// The separators of a qualified name: `:` and `.`.
pub open spec fn is_name_sep(c: char) -> bool {
    c == ':' || c == '.'
}

/// The pieces of `s` between separators, empty pieces included (`str::split`).
pub open spec fn split_pieces(s: Seq<char>) -> Seq<Seq<char>>
    decreases s.len(),
{
    if s.len() == 0 {
        seq![Seq::empty()]
    } else {
        let rest = split_pieces(s.drop_last());
        if is_name_sep(s.last()) {
            rest.push(Seq::empty())
        } else {
            rest.update(rest.len() - 1, rest.last().push(s.last()))
        }
    }
}

/// Each piece trimmed, the pieces that trim to nothing left out.
pub open spec fn keep_trimmed(ps: Seq<Seq<char>>) -> Seq<Seq<char>>
    decreases ps.len(),
{
    if ps.len() == 0 {
        Seq::empty()
    } else if trim(ps.last()).len() > 0 {
        keep_trimmed(ps.drop_last()).push(trim(ps.last()))
    } else {
        keep_trimmed(ps.drop_last())
    }
}

/// The qualified name written in `text`: the text before any `<`, with `->` read as `.`,
/// split at `:` and `.`, each part trimmed, empty parts dropped.
pub open spec fn split_qualified_name_spec(text: Seq<char>) -> Seq<Seq<char>> {
    keep_trimmed(split_pieces(replace_arrows(before_first(text, '<'))))
}

proof fn lemma_split_pieces_nonempty(s: Seq<char>)
    ensures
        split_pieces(s).len() >= 1,
    decreases s.len(),
{
    if s.len() > 0 {
        lemma_split_pieces_nonempty(s.drop_last());
    }
}

/// `->` becomes `.` (the arrow of C/C++ member access reads as a path separator).
fn replace_arrows_chars(pre: &[char]) -> (r: Vec<char>)
    ensures
        r@ == replace_arrows(pre@),
{
    let mut out: Vec<char> = Vec::new();
    let mut i: usize = 0;
    assert(pre@.skip(0) == pre@);
    assert(out@ + replace_arrows(pre@) == replace_arrows(pre@));
    while i < pre.len()
        invariant
            i <= pre@.len(),
            replace_arrows(pre@) == out@ + replace_arrows(pre@.skip(i as int)),
        decreases pre.len() - i,
    {
        let ghost rest = pre@.skip(i as int);
        if i + 1 < pre.len() && pre[i] == '-' && pre[i + 1] == '>' {
            assert(rest.skip(2) == pre@.skip(i + 2));
            assert(replace_arrows(rest) == seq!['.'] + replace_arrows(rest.skip(2)));
            out.push('.');
            assert(out@ + replace_arrows(pre@.skip(i + 2)) == (out@.drop_last() + seq!['.'])
                + replace_arrows(pre@.skip(i + 2)));
            i += 2;
        } else {
            assert(rest.skip(1) == pre@.skip(i + 1));
            assert(replace_arrows(rest) == seq![rest[0]] + replace_arrows(rest.skip(1)));
            out.push(pre[i]);
            i += 1;
        }
    }
    assert(pre@.skip(i as int).len() == 0);
    assert(out@ + Seq::<char>::empty() == out@);
    out
}

/// Splits a textual qualified name (`std::vector<int>`, `Outer.Inner`, `p->field`) into its parts.
///
/// Generic parameters are dropped, `->` is read as `.`, and the text is split at `:` and `.`;
/// each part is trimmed and empty parts are left out.
pub fn split_qualified_name(text: &str) -> (r: QualifiedName)
    ensures
        r.deep_view() == split_qualified_name_spec(text@),
{
    let cs = chars_of(text);
    proof {
        lemma_first_index_of(cs@, '<');
    }
    let pre = match find_char(&cs, '<') {
        Some(i) => slice_chars(&cs, 0, i),
        None => cs,
    };
    assert(pre@ == before_first(text@, '<'));
    let norm = replace_arrows_chars(&pre);
    let mut out: Vec<String> = Vec::new();
    let mut cur: Vec<char> = Vec::new();
    let mut i: usize = 0;
    proof {
        assert(norm@.take(0) == Seq::<char>::empty());
    }
    while i < norm.len()
        invariant
            i <= norm@.len(),
            split_pieces(norm@.take(i as int)).len() >= 1,
            out.deep_view() == keep_trimmed(split_pieces(norm@.take(i as int)).drop_last()),
            cur@ == split_pieces(norm@.take(i as int)).last(),
        decreases norm.len() - i,
    {
        let ghost p = split_pieces(norm@.take(i as int));
        let c = norm[i];
        proof {
            assert(norm@.take(i + 1).drop_last() == norm@.take(i as int));
            assert(norm@.take(i + 1).last() == c);
        }
        if c == ':' || c == '.' {
            let t = trim_chars(&cur);
            if t.len() > 0 {
                let ghost before = out.deep_view();
                out.push(string_from_chars(&t));
                assert(out.deep_view() =~= before.push(t@));
            }
            assert(p.push(Seq::<char>::empty()).drop_last() == p);
            assert(p == p.drop_last().push(p.last()));
            cur = Vec::new();
        } else {
            cur.push(c);
            assert(p.update(p.len() - 1, p.last().push(c)).drop_last() == p.drop_last());
        }
        i += 1;
    }
    assert(norm@.take(norm@.len() as int) == norm@);
    let ghost p = split_pieces(norm@);
    assert(p == p.drop_last().push(p.last()));
    let t = trim_chars(&cur);
    if t.len() > 0 {
        let ghost before = out.deep_view();
        out.push(string_from_chars(&t));
        assert(out.deep_view() =~= before.push(t@));
    }
    out
}

/// The qualified name written in `text`, or `None` when `text` is blank.
pub open spec fn extract_name_from_text_spec(text: Seq<char>) -> Option<Seq<Seq<char>>> {
    if trim(text).len() == 0 {
        None
    } else {
        Some(split_qualified_name_spec(trim(text)))
    }
}

/// Extracts a qualified name from a textual string, `None` for blank text.
pub fn extract_name_from_text(text: &str) -> (r: Option<QualifiedName>)
    ensures
        match r {
            Some(q) => extract_name_from_text_spec(text@) == Some(q.deep_view()),
            None => extract_name_from_text_spec(text@) is None,
        },
{
    let cs = chars_of(text);
    let t = trim_chars(&cs);
    if t.len() == 0 {
        return None;
    }
    let s = string_from_chars(&t);
    Some(split_qualified_name(s.as_str()))
}


/// The characters of `s` before the first `c` (all of `s` where `c` does not occur).
pub fn prefix_before(s: &[char], c: char) -> (r: Vec<char>)
    ensures
        r@ == before_first(s@, c),
{
    proof {
        lemma_first_index_of(s@, c);
    }
    match find_char(s, c) {
        Some(i) => slice_chars(s, 0, i),
        None => slice_chars(s, 0, s.len()),
    }
}

/// `s` with white space trimmed at both ends (`str::trim`).
pub fn trimmed(s: &str) -> (r: String)
    ensures
        r@ == trim(s@),
{
    let cs = chars_of(s);
    let t = trim_chars(&cs);
    string_from_chars(&t)
}

/// The source text of a node.
pub fn node_text(tree: &SyntaxTree, node: usize) -> (r: String)
    requires
        tree.wf(),
        node < tree.size(),
    ensures
        r@ == tree.text_of(node as int),
{
    crate::text_util::to_owned_string(tree.text(node))
}

/// Kinds whose text is itself an identifier.
pub open spec fn identifier_kind(k: Seq<char>) -> bool {
    k == "identifier"@ || k == "type_identifier"@ || k == "pattern"@ || k == "name"@ || k
        == "scoped_identifier"@
}

/// Kinds whose text is itself a (possibly qualified) name.
pub open spec fn name_kind(k: Seq<char>) -> bool {
    k == "identifier"@ || k == "type_identifier"@ || k == "name"@ || k == "scoped_identifier"@
}

/// The declarator reached from `d` by following `declarator` fields down.
pub open spec fn innermost_declarator(tree: SyntaxTree, d: int) -> int
    decreases tree.size() - d,
{
    match tree.field_child(d, "declarator"@) {
        Some(n) => if d < n < tree.size() {
            innermost_declarator(tree, n as int)
        } else {
            d
        },
        None => d,
    }
}

/// Kinds whose trimmed text names a declarator directly.
pub open spec fn declarator_name_kind(k: Seq<char>) -> bool {
    k == "identifier"@ || k == "type_identifier"@ || k == "pattern"@ || k == "field_identifier"@ || k
        == "destructor_name"@
}

/// The name declared below the declarator `start`: read at its innermost
/// declarator `d` from a scoped or qualified name, else the `name` field, else a
/// name kind, else the text of `d` before any `(` and `=`; each trimmed and only
/// where not empty.
pub open spec fn declarator_ident(tree: SyntaxTree, start: int) -> Option<Seq<char>> {
    let d = innermost_declarator(tree, start);
    let k = tree.kind_of(d);
    let own = trim(tree.text_of(d));
    let part = trim(before_first(before_first(own, '('), '='));
    if (k == "scoped_identifier"@ || k == "qualified_identifier"@) && own.len() > 0 {
        Some(own)
    } else if tree.field_child(d, "name"@) is Some && trim(
        tree.text_of(tree.field_child(d, "name"@)->0 as int),
    ).len() > 0 {
        Some(trim(tree.text_of(tree.field_child(d, "name"@)->0 as int)))
    } else if declarator_name_kind(k) && own.len() > 0 {
        Some(own)
    } else if part.len() > 0 {
        Some(part)
    } else {
        None
    }
}

/// Extracts the declared name below a declarator, unwrapping nested declarators
/// (typical of C and C++).
fn extract_identifier_from_declarator(tree: &SyntaxTree, start: usize) -> (r: Option<String>)
    requires
        tree.wf(),
        start < tree.size(),
    ensures
        opt_str_view(r) == declarator_ident(*tree, start as int),
        r matches Some(t) ==> t@.len() > 0,
{
    let mut decl = start;
    let mut next = tree.child_by_field_name(decl, "declarator");
    while next.is_some()
        invariant
            tree.wf(),
            decl < tree.size(),
            next == tree.field_child(decl as int, "declarator"@),
            innermost_declarator(*tree, decl as int) == innermost_declarator(*tree, start as int),
            next matches Some(d) ==> decl < d < tree.size(),
        decreases tree.size() - decl,
    {
        decl = next.unwrap();
        next = tree.child_by_field_name(decl, "declarator");
    }
    assert(innermost_declarator(*tree, decl as int) == decl);
    let kind = tree.kind(decl);
    if str_eq(kind, "scoped_identifier") || str_eq(kind, "qualified_identifier") {
        let t = trimmed(tree.text(decl));
        if t.unicode_len() > 0 {
            return Some(t);
        }
    }
    if let Some(n) = tree.child_by_field_name(decl, "name") {
        let t = trimmed(tree.text(n));
        if t.unicode_len() > 0 {
            return Some(t);
        }
    }
    let text = trimmed(tree.text(decl));
    if str_eq(kind, "identifier") || str_eq(kind, "type_identifier") || str_eq(kind, "pattern")
        || str_eq(kind, "field_identifier") || str_eq(kind, "destructor_name") {
        if text.unicode_len() > 0 {
            return Some(text);
        }
    }
    let cs = chars_of(text.as_str());
    let before_paren = prefix_before(&cs, '(');
    let before_eq = prefix_before(&before_paren, '=');
    let part = trim_chars(&before_eq);
    if part.len() > 0 {
        return Some(string_from_chars(&part));
    }
    None
}

/// The first child under one of the usual name fields (`name`, `type_identifier`,
/// `identifier`, `pattern`, then `left` where asked).
pub open spec fn named_field_child_spec(tree: SyntaxTree, node: int, with_left: bool) -> Option<usize> {
    if tree.field_child(node, "name"@) is Some {
        tree.field_child(node, "name"@)
    } else if tree.field_child(node, "type_identifier"@) is Some {
        tree.field_child(node, "type_identifier"@)
    } else if tree.field_child(node, "identifier"@) is Some {
        tree.field_child(node, "identifier"@)
    } else if tree.field_child(node, "pattern"@) is Some {
        tree.field_child(node, "pattern"@)
    } else if with_left {
        tree.field_child(node, "left"@)
    } else {
        None
    }
}

/// The first child under one of the usual name fields (`name`, `type_identifier`,
/// `identifier`, `pattern`, then `left`).
fn named_field_child(tree: &SyntaxTree, node: usize, with_left: bool) -> (r: Option<usize>)
    requires
        tree.wf(),
        node < tree.size(),
    ensures
        r == named_field_child_spec(*tree, node as int, with_left),
        r matches Some(c) ==> node < c < tree.size(),
{
    if let Some(c) = tree.child_by_field_name(node, "name") {
        return Some(c);
    }
    if let Some(c) = tree.child_by_field_name(node, "type_identifier") {
        return Some(c);
    }
    if let Some(c) = tree.child_by_field_name(node, "identifier") {
        return Some(c);
    }
    if let Some(c) = tree.child_by_field_name(node, "pattern") {
        return Some(c);
    }
    if with_left {
        return tree.child_by_field_name(node, "left");
    }
    None
}

/// Whether the `k`-th child of `node` is its first `identifier` child with some
/// text once trimmed.
pub open spec fn first_ident_child(tree: SyntaxTree, node: int, k: int) -> bool {
    &&& 0 <= k < tree.kids_of(node).len()
    &&& ident_child(tree, tree.kids_of(node)[k] as int)
    &&& forall|j: int| 0 <= j < k ==> !ident_child(tree, #[trigger] tree.kids_of(node)[j] as int)
}

/// An `identifier` node with some text once trimmed.
pub open spec fn ident_child(tree: SyntaxTree, c: int) -> bool {
    tree.kind_of(c) == "identifier"@ && trim(tree.text_of(c)).len() > 0
}

/// The simple identifier of a node: its own trimmed text for identifier kinds,
/// else the name below its `declarator` field, else the trimmed text of its usual
/// name field (`left` included), else that of its first `identifier` child; each
/// only where not empty.
pub open spec fn identifier_spec(tree: SyntaxTree, node: int) -> Option<Seq<char>> {
    if identifier_kind(tree.kind_of(node)) && trim(tree.text_of(node)).len() > 0 {
        Some(trim(tree.text_of(node)))
    } else if tree.field_child(node, "declarator"@) is Some && declarator_ident(
        tree,
        tree.field_child(node, "declarator"@)->0 as int,
    ) is Some {
        declarator_ident(tree, tree.field_child(node, "declarator"@)->0 as int)
    } else if named_field_child_spec(tree, node, true) is Some && trim(
        tree.text_of(named_field_child_spec(tree, node, true)->0 as int),
    ).len() > 0 {
        Some(trim(tree.text_of(named_field_child_spec(tree, node, true)->0 as int)))
    } else if exists|k: int| first_ident_child(tree, node, k) {
        Some(
            trim(
                tree.text_of(
                    tree.kids_of(node)[choose|k: int| first_ident_child(tree, node, k)] as int,
                ),
            ),
        )
    } else {
        None
    }
}

/// Tries to extract a simple identifier from a node: its own text for identifier
/// kinds, else a nested declarator, a usual name field, or an `identifier` child.
pub fn extract_identifier(tree: &SyntaxTree, node: usize) -> (r: Option<String>)
    requires
        tree.wf(),
        node < tree.size(),
    ensures
        opt_str_view(r) == identifier_spec(*tree, node as int),
        r matches Some(t) ==> t@.len() > 0,
        identifier_kind(tree.kind_of(node as int)) && trim(tree.text_of(node as int)).len() > 0
            ==> (r matches Some(t) && t@ == trim(tree.text_of(node as int))),
{
    let kind = tree.kind(node);
    if str_eq(kind, "identifier") || str_eq(kind, "type_identifier") || str_eq(kind, "pattern")
        || str_eq(kind, "name") || str_eq(kind, "scoped_identifier") {
        let t = trimmed(tree.text(node));
        if t.unicode_len() > 0 {
            return Some(t);
        }
    }
    if let Some(decl) = tree.child_by_field_name(node, "declarator") {
        if let Some(ident) = extract_identifier_from_declarator(tree, decl) {
            return Some(ident);
        }
    }
    if let Some(n) = named_field_child(tree, node, true) {
        let t = trimmed(tree.text(n));
        if t.unicode_len() > 0 {
            return Some(t);
        }
    }
    let kids = tree.children(node);
    let mut i: usize = 0;
    while i < kids.len()
        invariant
            tree.wf(),
            node < tree.size(),
            kids@ == tree.kids_of(node as int),
            i <= kids@.len(),
            !(identifier_kind(tree.kind_of(node as int)) && trim(tree.text_of(node as int)).len()
                > 0),
            !(tree.field_child(node as int, "declarator"@) is Some && declarator_ident(
                *tree,
                tree.field_child(node as int, "declarator"@)->0 as int,
            ) is Some),
            !(named_field_child_spec(*tree, node as int, true) is Some && trim(
                tree.text_of(named_field_child_spec(*tree, node as int, true)->0 as int),
            ).len() > 0),
            forall|k: int| 0 <= k < kids@.len() ==> #[trigger] kids@[k] < tree.size(),
            forall|j: int| 0 <= j < i ==> !ident_child(*tree, #[trigger] kids@[j] as int),
        decreases kids.len() - i,
    {
        let c = kids[i];
        if str_eq(tree.kind(c), "identifier") {
            let t = trimmed(tree.text(c));
            if t.unicode_len() > 0 {
                proof {
                    assert(first_ident_child(*tree, node as int, i as int));
                    assert forall|k: int| first_ident_child(*tree, node as int, k) implies k == i by {
                        if k < i {
                            assert(!ident_child(*tree, kids@[k] as int));
                        }
                        if k > i {
                            assert(!ident_child(*tree, kids@[i as int] as int));
                        }
                    }
                }
                return Some(t);
            }
        }
        i += 1;
    }
    proof {
        assert forall|k: int| !first_ident_child(*tree, node as int, k) by {
            if 0 <= k < kids@.len() {
                assert(!ident_child(*tree, kids@[k] as int));
            }
        }
    }
    None
}

/// Kinds of the children that make up a qualified name read part by part.
pub open spec fn name_part_kind(k: Seq<char>) -> bool {
    k == "identifier"@ || k == "type_identifier"@ || k == "name"@
}

/// The test that picks the name parts among children: a part kind with some text.
pub closed spec fn name_part_pred(tree: SyntaxTree) -> spec_fn(usize) -> bool {
    |c: usize| name_part_kind(tree.kind_of(c as int)) && tree.text_of(c as int).len() > 0
}

/// The text of a node, as a function of the node.
pub closed spec fn text_fn(tree: SyntaxTree) -> spec_fn(usize) -> Seq<char> {
    |c: usize| tree.text_of(c as int)
}

/// The qualified name of a node: its own text, split, for name kinds; else the
/// text of its usual name field, split; else the texts of its name-part children,
/// where there is at least one.
pub open spec fn qualified_name_spec(tree: SyntaxTree, node: int) -> Option<Seq<Seq<char>>> {
    if name_kind(tree.kind_of(node)) {
        Some(split_qualified_name_spec(tree.text_of(node)))
    } else {
        match named_field_child_spec(tree, node, false) {
            Some(n) => Some(split_qualified_name_spec(tree.text_of(n as int))),
            None => {
                let parts = tree.kids_of(node).filter(name_part_pred(tree)).map_values(text_fn(tree));
                if parts.len() > 0 {
                    Some(parts)
                } else {
                    None
                }
            },
        }
    }
}

/// An optional qualified name by its view.
pub open spec fn opt_qn_view(q: Option<QualifiedName>) -> Option<Seq<Seq<char>>> {
    match q {
        Some(v) => Some(v.deep_view()),
        None => None,
    }
}

/// Extracts a qualified name (e.g. `A::B::C`) from a node: its own text for name
/// kinds, else a usual name field, else the identifiers among its children.
pub fn extract_qualified_name(tree: &SyntaxTree, node: usize) -> (r: Option<QualifiedName>)
    requires
        tree.wf(),
        node < tree.size(),
    ensures
        opt_qn_view(r) == qualified_name_spec(*tree, node as int),
        name_kind(tree.kind_of(node as int)) ==> (r matches Some(q) && q.deep_view()
            == split_qualified_name_spec(tree.text_of(node as int))),
{
    let kind = tree.kind(node);
    if str_eq(kind, "identifier") || str_eq(kind, "type_identifier") || str_eq(kind, "name")
        || str_eq(kind, "scoped_identifier") {
        return Some(split_qualified_name(tree.text(node)));
    }
    if let Some(n) = named_field_child(tree, node, false) {
        return Some(split_qualified_name(tree.text(n)));
    }
    let mut parts: Vec<String> = Vec::new();
    let kids = tree.children(node);
    let ghost pred = name_part_pred(*tree);
    let ghost tf = text_fn(*tree);
    let mut i: usize = 0;
    while i < kids.len()
        invariant
            tree.wf(),
            kids@ == tree.kids_of(node as int),
            pred == name_part_pred(*tree),
            tf == text_fn(*tree),
            i <= kids@.len(),
            forall|k: int| 0 <= k < kids@.len() ==> #[trigger] kids@[k] < tree.size(),
            parts.deep_view() == kids@.take(i as int).filter(pred).map_values(tf),
        decreases kids.len() - i,
    {
        let c = kids[i];
        proof {
            assert(kids@.take(i as int + 1) =~= kids@.take(i as int).push(c));
            kids@.take(i as int).lemma_filter_push(c, pred);
        }
        let ck = tree.kind(c);
        if str_eq(ck, "identifier") || str_eq(ck, "type_identifier") || str_eq(ck, "name") {
            let txt = tree.text(c);
            if txt.unicode_len() > 0 {
                let ghost before = parts.deep_view();
                parts.push(crate::text_util::to_owned_string(txt));
                proof {
                    assert(pred(c));
                    assert(parts.deep_view() =~= before.push(tf(c)));
                    assert(kids@.take(i as int).filter(pred).push(c).map_values(tf) =~= kids@.take(
                        i as int,
                    ).filter(pred).map_values(tf).push(tf(c)));
                }
            } else {
                proof {
                    assert(!pred(c));
                }
            }
        } else {
            proof {
                assert(!pred(c));
            }
        }
        i += 1;
    }
    proof {
        assert(kids@.take(i as int) =~= kids@);
    }
    if parts.len() > 0 {
        Some(parts)
    } else {
        None
    }
}

} // verus!
