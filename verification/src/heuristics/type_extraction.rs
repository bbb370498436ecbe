//! Deducing structured-type kinds and type references from text.
use crate::heuristics::text_parsing::{split_qualified_name, split_qualified_name_spec};
use crate::model::components::{opt_typeref_view, StructuredTypeKind};
use crate::model::queries::{
    lemma_typerefs_view, lemma_typerefs_view_concat, typerefs_view, TypeRef, TypeRefV,
};
use crate::text_util::{
    chars_eq, chars_of, contains_char, contains_sub, find_char, first_index_of, is_ws,
    lemma_chars_deep_view, lemma_first_index_of, slice_chars, str_contains, string_from_chars, trim, trim_chars,
    trim_end, trim_start,
};
use crate::syntax::SyntaxTree;
use crate::text_util::str_eq;
use vstd::prelude::*;

verus! {

/// The kind of a structured type, decided from its syntax-node kind and its text.
pub open spec fn structured_kind_spec(kind: Seq<char>, text: Seq<char>) -> StructuredTypeKind {
    if contains_sub(kind, "interface"@) || contains_sub(text, "interface"@) {
        StructuredTypeKind::Interface
    } else if contains_sub(kind, "trait"@) || contains_sub(text, "trait"@) {
        StructuredTypeKind::Trait
    } else if contains_sub(kind, "struct"@) || contains_sub(text, "struct"@) {
        StructuredTypeKind::Struct
    } else if contains_sub(kind, "enum_variant"@) {
        StructuredTypeKind::EnumVariant
    } else if contains_sub(kind, "enum"@) || contains_sub(text, "enum"@) {
        StructuredTypeKind::Enum
    } else {
        StructuredTypeKind::Class
    }
}

/// Classifies a structured type (Class, Struct, Interface, Trait, Enum, EnumVariant) from the
/// kind of its syntax node, falling back on its raw text.
pub fn determine_structured_kind(kind: &str, text: &str) -> (r: StructuredTypeKind)
    ensures
        r == structured_kind_spec(kind@, text@),
{
    if str_contains(kind, "interface") || str_contains(text, "interface") {
        StructuredTypeKind::Interface
    } else if str_contains(kind, "trait") || str_contains(text, "trait") {
        StructuredTypeKind::Trait
    } else if str_contains(kind, "struct") || str_contains(text, "struct") {
        StructuredTypeKind::Struct
    } else if str_contains(kind, "enum_variant") {
        StructuredTypeKind::EnumVariant
    } else if str_contains(kind, "enum") || str_contains(text, "enum") {
        StructuredTypeKind::Enum
    } else {
        StructuredTypeKind::Class
    }
}

// ---------------------------------------------------------------------------
// Textual type parsing
// ---------------------------------------------------------------------------

/// `s` without any `&` or `*`.
pub open spec fn remove_refs(s: Seq<char>) -> Seq<char>
    decreases s.len(),
{
    if s.len() == 0 {
        s
    } else if s.last() == '&' || s.last() == '*' {
        remove_refs(s.drop_last())
    } else {
        remove_refs(s.drop_last()).push(s.last())
    }
}

/// The pieces of `s` between occurrences of `c`, empty pieces included (`str::split`).
pub open spec fn split_on(s: Seq<char>, c: char) -> Seq<Seq<char>>
    decreases s.len(),
{
    if s.len() == 0 {
        seq![Seq::empty()]
    } else {
        let rest = split_on(s.drop_last(), c);
        if s.last() == c {
            rest.push(Seq::empty())
        } else {
            rest.update(rest.len() - 1, rest.last().push(s.last()))
        }
    }
}

pub open spec fn is_open_bracket(c: char) -> bool {
    c == '<' || c == '[' || c == '('
}

pub open spec fn is_close_bracket(c: char) -> bool {
    c == '>' || c == ']' || c == ')'
}

/// The scan of generic arguments after reading `s`: finished arguments, the current
/// argument, and the bracket depth (which never goes below zero).
pub open spec fn gen_args_scan(s: Seq<char>) -> (Seq<Seq<char>>, Seq<char>, nat)
    decreases s.len(),
{
    if s.len() == 0 {
        (Seq::empty(), Seq::empty(), 0)
    } else {
        let (args, cur, d) = gen_args_scan(s.drop_last());
        let ch = s.last();
        if is_open_bracket(ch) {
            (args, cur.push(ch), d + 1)
        } else if is_close_bracket(ch) {
            (args, cur.push(ch), if d == 0 { 0 } else { (d - 1) as nat })
        } else if ch == ',' && d == 0 {
            (if trim(cur).len() > 0 { args.push(trim(cur)) } else { args }, Seq::empty(), d)
        } else {
            (args, cur.push(ch), d)
        }
    }
}

/// The top-level, comma-separated, trimmed and non-empty arguments of `s`.
pub open spec fn split_generic_arguments_spec(s: Seq<char>) -> Seq<Seq<char>> {
    let (args, cur, _d) = gen_args_scan(s);
    if trim(cur).len() > 0 {
        args.push(trim(cur))
    } else {
        args
    }
}

pub proof fn lemma_trim_len(s: Seq<char>)
    ensures
        trim(s).len() <= s.len(),
        trim_start(s).len() <= s.len(),
{
    lemma_trim_start_len(s);
    lemma_trim_end_len(trim_start(s));
}

proof fn lemma_trim_start_len(s: Seq<char>)
    ensures
        trim_start(s).len() <= s.len(),
    decreases s.len(),
{
    if s.len() > 0 && is_ws(s[0]) {
        lemma_trim_start_len(s.drop_first());
    }
}

proof fn lemma_trim_end_len(s: Seq<char>)
    ensures
        trim_end(s).len() <= s.len(),
    decreases s.len(),
{
    if s.len() > 0 && is_ws(s.last()) {
        lemma_trim_end_len(s.drop_last());
    }
}

pub proof fn lemma_remove_refs_len(s: Seq<char>)
    ensures
        remove_refs(s).len() <= s.len(),
    decreases s.len(),
{
    if s.len() > 0 {
        lemma_remove_refs_len(s.drop_last());
    }
}

/// The text a type is parsed from: trimmed, with `&` and `*` removed, trimmed again.
pub open spec fn clean_type_text(text: Seq<char>) -> Seq<char> {
    trim(remove_refs(trim(text)))
}

pub proof fn lemma_clean_len(text: Seq<char>)
    ensures
        clean_type_text(text).len() <= text.len(),
{
    lemma_trim_len(text);
    lemma_remove_refs_len(trim(text));
    lemma_trim_len(remove_refs(trim(text)));
}

/// The type written in `text`: a generic application `Base<..>` / `Base[..]`, a union
/// `A | B`, or a plain qualified name. `&` and `*` are ignored.
pub open spec fn parse_type_spec(text: Seq<char>) -> TypeRefV
    decreases text.len(), 3nat, 0nat,
{
    let t = clean_type_text(text);
    proof {
        lemma_clean_len(text);
    }
    match parse_generic_spec(t) {
        Some(g) => g,
        None => if t.contains('|') {
            TypeRefV::Union(parse_type_list(split_on(t, '|'), t.len(), true))
        } else {
            TypeRefV::Unresolved(split_qualified_name_spec(t))
        },
    }
}

/// The types written in the pieces `ps`, each shorter than `bound`; with `trim_first`, each
/// piece is trimmed before it is parsed.
pub open spec fn parse_type_list(ps: Seq<Seq<char>>, bound: nat, trim_first: bool) -> Seq<
    TypeRefV,
>
    decreases bound, 0nat, ps.len(),
{
    if ps.len() == 0 {
        Seq::empty()
    } else {
        let p = if trim_first {
            trim(ps[0])
        } else {
            ps[0]
        };
        if p.len() < bound {
            seq![parse_type_spec(p)] + parse_type_list(ps.drop_first(), bound, trim_first)
        } else {
            Seq::empty()
        }
    }
}

/// A generic type written with `<..>`, else with `[..]`, after trimming.
pub open spec fn parse_generic_spec(text: Seq<char>) -> Option<TypeRefV>
    decreases text.len(), 2nat, 0nat,
{
    let t = trim(text);
    proof {
        lemma_trim_len(text);
    }
    match parse_delimited_spec(t, '<', '>') {
        Some(r) => Some(r),
        None => parse_delimited_spec(t, '[', ']'),
    }
}

/// `Base<A, B>` (for `open`/`close` = `<`/`>`) as a generic application, or as a union when
/// the base is `Union`. `None` unless `t` ends with `close`, contains `open` after a
/// non-blank base, and has at least one argument.
pub open spec fn parse_delimited_spec(t: Seq<char>, open: char, close: char) -> Option<TypeRefV>
    decreases t.len(), 1nat, 0nat,
{
    if t.len() == 0 || t.last() != close {
        None
    } else {
        match first_index_of(t, open) {
            None => None,
            Some(p) => {
                let base = trim(t.take(p));
                proof {
                    lemma_first_index_of(t, open);
                    lemma_trim_len(t.take(p));
                }
                if base.len() == 0 || p + 1 > t.len() - 1 {
                    None
                } else {
                    let args = split_generic_arguments_spec(t.subrange(p + 1, t.len() - 1));
                    if args.len() == 0 {
                        None
                    } else {
                        let parsed = parse_type_list(args, t.len(), false);
                        if base == "Union"@ {
                            Some(TypeRefV::Union(parsed))
                        } else {
                            Some(
                                TypeRefV::Generic {
                                    base: Box::new(parse_type_spec(base)),
                                    args: parsed,
                                },
                            )
                        }
                    }
                }
            },
        }
    }
}

fn remove_refs_chars(s: &[char]) -> (r: Vec<char>)
    ensures
        r@ == remove_refs(s@),
{
    let mut out: Vec<char> = Vec::new();
    let mut i: usize = 0;
    while i < s.len()
        invariant
            i <= s@.len(),
            out@ == remove_refs(s@.take(i as int)),
        decreases s.len() - i,
    {
        assert(s@.take(i + 1).drop_last() == s@.take(i as int));
        if s[i] != '&' && s[i] != '*' {
            out.push(s[i]);
        }
        i += 1;
    }
    assert(s@.take(s@.len() as int) == s@);
    out
}

pub fn split_on_chars(s: &[char], c: char) -> (r: Vec<Vec<char>>)
    ensures
        r.deep_view() == split_on(s@, c),
{
    let mut out: Vec<Vec<char>> = Vec::new();
    let mut cur: Vec<char> = Vec::new();
    let mut i: usize = 0;
    assert(s@.take(0) == Seq::<char>::empty());
    while i < s.len()
        invariant
            i <= s@.len(),
            split_on(s@.take(i as int), c).len() >= 1,
            out.deep_view() == split_on(s@.take(i as int), c).drop_last(),
            cur@ == split_on(s@.take(i as int), c).last(),
        decreases s.len() - i,
    {
        let ghost p = split_on(s@.take(i as int), c);
        assert(s@.take(i + 1).drop_last() == s@.take(i as int));
        if s[i] == c {
            let ghost before = out.deep_view();
            proof {
                lemma_chars_deep_view(cur);
            }
            out.push(cur);
            assert(out.deep_view() =~= before.push(p.last()));
            assert(p.push(Seq::<char>::empty()).drop_last() =~= p.drop_last().push(p.last()));
            cur = Vec::new();
        } else {
            cur.push(s[i]);
            assert(p.update(p.len() - 1, p.last().push(s@[i as int])).drop_last() == p.drop_last());
        }
        i += 1;
    }
    assert(s@.take(s@.len() as int) == s@);
    let ghost p = split_on(s@, c);
    let ghost before = out.deep_view();
    proof {
        lemma_chars_deep_view(cur);
    }
    out.push(cur);
    assert(out.deep_view() =~= before.push(p.last()));
    assert(p =~= p.drop_last().push(p.last()));
    out
}

/// Splits generic arguments at top-level commas (commas inside `<>`, `[]` or `()` do not
/// split), trimming each argument and leaving out empty ones.
pub fn split_generic_arguments(inner: &[char]) -> (r: Vec<Vec<char>>)
    ensures
        r.deep_view() == split_generic_arguments_spec(inner@),
{
    let mut args: Vec<Vec<char>> = Vec::new();
    let mut cur: Vec<char> = Vec::new();
    let mut depth: usize = 0;
    let mut i: usize = 0;
    assert(inner@.take(0) == Seq::<char>::empty());
    while i < inner.len()
        invariant
            i <= inner@.len(),
            depth <= i,
            ({
                let (a, c, d) = gen_args_scan(inner@.take(i as int));
                &&& args.deep_view() == a
                &&& cur@ == c
                &&& depth == d
            }),
        decreases inner.len() - i,
    {
        let ch = inner[i];
        assert(inner@.take(i + 1).drop_last() == inner@.take(i as int));
        if ch == '<' || ch == '[' || ch == '(' {
            depth += 1;
            cur.push(ch);
        } else if ch == '>' || ch == ']' || ch == ')' {
            if depth > 0 {
                depth -= 1;
            }
            cur.push(ch);
        } else if ch == ',' && depth == 0 {
            let t = trim_chars(&cur);
            if t.len() > 0 {
                let ghost before = args.deep_view();
                proof {
                    lemma_chars_deep_view(t);
                }
                args.push(t);
                assert(args.deep_view() =~= before.push(trim(cur@)));
            }
            cur = Vec::new();
        } else {
            cur.push(ch);
        }
        i += 1;
    }
    assert(inner@.take(inner@.len() as int) == inner@);
    let t = trim_chars(&cur);
    if t.len() > 0 {
        let ghost before = args.deep_view();
        proof {
            lemma_chars_deep_view(t);
        }
        args.push(t);
        assert(args.deep_view() =~= before.push(trim(cur@)));
    }
    args
}

/// The type written in the characters `text` (see [`parse_type_spec`]).
fn parse_type_chars(text: &[char]) -> (r: TypeRef)
    ensures
        r@ == parse_type_spec(text@),
    decreases text@.len(), 3nat, 0nat,
{
    let t1 = trim_chars(text);
    let t2 = remove_refs_chars(&t1);
    let t = trim_chars(&t2);
    proof {
        lemma_clean_len(text@);
    }
    match parse_generic_chars(&t) {
        Some(g) => g,
        None => {
            if contains_char(&t, '|') {
                let parts = split_on_chars(&t, '|');
                assert(parts.deep_view().skip(0) == parts.deep_view());
                TypeRef::Union(parse_type_list_from(&parts, 0, t.len(), true))
            } else {
                let s = string_from_chars(&t);
                TypeRef::Unresolved(split_qualified_name(s.as_str()))
            }
        },
    }
}

/// The types written in `ps[i..]` (see [`parse_type_list`]).
fn parse_type_list_from(ps: &Vec<Vec<char>>, i: usize, bound: usize, trim_first: bool) -> (r: Vec<
    TypeRef,
>)
    requires
        i <= ps@.len(),
    ensures
        typerefs_view(r@) == parse_type_list(ps.deep_view().skip(i as int), bound as nat, trim_first),
    decreases bound, 0nat, ps@.len() - i,
{
    let ghost rest = ps.deep_view().skip(i as int);
    if i == ps.len() {
        assert(rest.len() == 0);
        return Vec::new();
    }
    assert(rest[0] == ps[i as int]@);
    assert(rest.drop_first() == ps.deep_view().skip(i + 1));
    let p = if trim_first {
        trim_chars(&ps[i])
    } else {
        slice_chars(&ps[i], 0, ps[i].len())
    };
    assert(ps[i as int]@.subrange(0, ps[i as int]@.len() as int) == ps[i as int]@);
    if p.len() < bound {
        let head = parse_type_chars(&p);
        let mut out = parse_type_list_from(ps, i + 1, bound, trim_first);
        let ghost tail = out@;
        out.insert(0, head);
        proof {
            assert(out@ == seq![head] + tail);
            lemma_typerefs_view_concat(seq![head], tail);
            lemma_typerefs_view(seq![head]);
            assert(typerefs_view(seq![head]) =~= seq![head@]);
        }
        out
    } else {
        Vec::new()
    }
}

/// A generic type written in the characters `text` (see [`parse_generic_spec`]).
fn parse_generic_chars(text: &[char]) -> (r: Option<TypeRef>)
    ensures
        match r {
            Some(t) => parse_generic_spec(text@) == Some(t@),
            None => parse_generic_spec(text@) is None,
        },
    decreases text@.len(), 2nat, 0nat,
{
    let t = trim_chars(text);
    proof {
        lemma_trim_len(text@);
    }
    match parse_delimited_chars(&t, '<', '>') {
        Some(r) => Some(r),
        None => parse_delimited_chars(&t, '[', ']'),
    }
}

/// A delimited type application in `t` (see [`parse_delimited_spec`]).
fn parse_delimited_chars(t: &[char], open: char, close: char) -> (r: Option<TypeRef>)
    ensures
        match r {
            Some(x) => parse_delimited_spec(t@, open, close) == Some(x@),
            None => parse_delimited_spec(t@, open, close) is None,
        },
    decreases t@.len(), 1nat, 0nat,
{
    if t.len() == 0 || t[t.len() - 1] != close {
        return None;
    }
    proof {
        lemma_first_index_of(t@, open);
    }
    let p = match find_char(t, open) {
        None => {
            return None;
        },
        Some(p) => p,
    };
    let head = slice_chars(t, 0, p);
    let base = trim_chars(&head);
    proof {
        lemma_trim_len(t@.take(p as int));
        assert(head@ == t@.take(p as int));
    }
    if base.len() == 0 || p + 1 > t.len() - 1 {
        return None;
    }
    let inner = slice_chars(t, p + 1, t.len() - 1);
    let args = split_generic_arguments(&inner);
    if args.len() == 0 {
        return None;
    }
    let parsed = parse_type_list_from(&args, 0, t.len(), false);
    assert(args.deep_view().skip(0) == args.deep_view());
    let union_name = chars_of("Union");
    if chars_eq(&base, &union_name) {
        proof {
            reveal_strlit("Union");
        }
        Some(TypeRef::Union(parsed))
    } else {
        proof {
            reveal_strlit("Union");
        }
        let b = parse_type_chars(&base);
        Some(TypeRef::Generic { base: Box::new(b), args: parsed })
    }
}

/// Parses a generic type from text with balanced `<...>` (or else `[...]`): `Base<A, B>`
/// becomes a generic application, `Union[A, B]` a union; anything else gives `None`.
pub fn parse_generic_from_text(text: &str) -> (r: Option<TypeRef>)
    ensures
        match r {
            Some(t) => parse_generic_spec(text@) == Some(t@),
            None => parse_generic_spec(text@) is None,
        },
{
    let cs = chars_of(text);
    parse_generic_chars(&cs)
}

/// Parses a type from text: a generic application, a `|` union, or a plain qualified name;
/// `&` and `*` are ignored.
pub fn parse_type_from_text(text: &str) -> (r: TypeRef)
    ensures
        r@ == parse_type_spec(text@),
{
    let cs = chars_of(text);
    parse_type_chars(&cs)
}


/// Whether a type reference is a failed extraction.
pub fn is_failed(t: &TypeRef) -> (r: bool)
    ensures
        r == (*t is Failed),
{
    match t {
        TypeRef::Failed(_) => true,
        _ => false,
    }
}

/// `s` without its quote characters (`'` and `"`).
pub open spec fn strip_quotes(s: Seq<char>) -> Seq<char>
    decreases s.len(),
{
    if s.len() == 0 {
        s
    } else if s.last() == '\'' || s.last() == '"' {
        strip_quotes(s.drop_last())
    } else {
        strip_quotes(s.drop_last()).push(s.last())
    }
}

fn strip_quotes_chars(s: &[char]) -> (r: Vec<char>)
    ensures
        r@ == strip_quotes(s@),
{
    let mut out: Vec<char> = Vec::new();
    let mut i: usize = 0;
    while i < s.len()
        invariant
            i <= s@.len(),
            out@ == strip_quotes(s@.take(i as int)),
        decreases s.len() - i,
    {
        assert(s@.take(i + 1).drop_last() == s@.take(i as int));
        if s[i] != '\'' && s[i] != '"' {
            out.push(s[i]);
        }
        i += 1;
    }
    assert(s@.take(s@.len() as int) == s@);
    out
}

/// The type written in a name-like text: a generic application where the text is
/// one, else the qualified name.
pub open spec fn named_type_spec(text: Seq<char>) -> TypeRefV {
    match parse_generic_spec(text) {
        Some(g) => g,
        None => TypeRefV::Unresolved(split_qualified_name_spec(text)),
    }
}

fn named_type(text: &str) -> (r: TypeRef)
    ensures
        r@ == named_type_spec(text@),
{
    match parse_generic_from_text(text) {
        Some(g) => g,
        None => TypeRef::Unresolved(split_qualified_name(text)),
    }
}

/// Kinds whose own text names a type or an access path.
pub open spec fn direct_type_kind(k: Seq<char>) -> bool {
    k == "type_identifier"@ || k == "identifier"@ || k == "scoped_identifier"@ || k
        == "qualified_identifier"@ || k == "scoped_type_identifier"@ || k == "attribute"@ || k
        == "field_expression"@ || k == "field_access"@ || k == "primitive_type"@ || k
        == "predefined_type"@ || k == "string"@
}

/// The identifier-like kinds are none of the wrapper, union or generic kinds.
proof fn lemma_direct_kinds_distinct(k: Seq<char>)
    ensures
        direct_type_kind(k) ==> k != "type"@ && k != "union_type"@ && k != "binary_operator"@ && k
            != "generic_type"@ && k != "subscript"@ && k != "template_type"@,
{
    reveal_strlit("type");
    reveal_strlit("union_type");
    reveal_strlit("binary_operator");
    reveal_strlit("generic_type");
    reveal_strlit("subscript");
    reveal_strlit("template_type");
    reveal_strlit("type_identifier");
    reveal_strlit("identifier");
    reveal_strlit("scoped_identifier");
    reveal_strlit("qualified_identifier");
    reveal_strlit("scoped_type_identifier");
    reveal_strlit("attribute");
    reveal_strlit("field_expression");
    reveal_strlit("field_access");
    reveal_strlit("primitive_type");
    reveal_strlit("predefined_type");
    reveal_strlit("string");
    if direct_type_kind(k) {
        assert(k.len() != 4 || k[0] != 't');
        assert(k.len() != 10 || k[0] != 'u');
        assert(k.len() != 15 || k[0] != 'b');
        assert(k.len() != 12 || k[0] != 'g');
        assert(k.len() != 9 || k[0] != 's');
        assert(k.len() != 13 || k[0] != 't');
    }
}

fn is_direct_type_kind(k: &str) -> (r: bool)
    ensures
        r == (direct_type_kind(k@) || k@ == "template_type"@ || k@ == "type"@),
{
    str_eq(k, "type_identifier") || str_eq(k, "identifier") || str_eq(k, "scoped_identifier")
        || str_eq(k, "qualified_identifier") || str_eq(k, "scoped_type_identifier") || str_eq(
        k,
        "attribute",
    ) || str_eq(k, "field_expression") || str_eq(k, "field_access") || str_eq(k, "primitive_type")
        || str_eq(k, "predefined_type") || str_eq(k, "template_type") || str_eq(k, "type")
        || str_eq(k, "string")
}

/// Whether `->` stands at index `i` of `s`.
pub open spec fn arrow_at(s: Seq<char>, i: int) -> bool {
    0 <= i && i + 1 < s.len() && s[i] == '-' && s[i + 1] == '>'
}

/// The index of the first `->` in `s`.
fn find_arrow(s: &[char]) -> (r: Option<usize>)
    ensures
        r matches Some(i) ==> i + 2 <= s@.len(),
        match r {
            Some(i) => arrow_at(s@, i as int) && forall|j: int| 0 <= j < i ==> !#[trigger] arrow_at(s@, j),
            None => forall|j: int| !#[trigger] arrow_at(s@, j),
        },
{
    let mut i: usize = 0;
    while s.len() > 1 && i < s.len() - 1
        invariant
            i <= s@.len(),
            forall|j: int| 0 <= j < i ==> !#[trigger] arrow_at(s@, j),
        decreases s.len() - i,
    {
        if s[i] == '-' && s[i + 1] == '>' {
            return Some(i);
        }
        i += 1;
    }
    None
}

/// The node under the first of the usual type fields (`type`, `return_type`,
/// `field_type`, `value_type`, `right`).
pub open spec fn type_field_node(tree: SyntaxTree, node: int) -> Option<usize> {
    if tree.field_child(node, "type"@) is Some {
        tree.field_child(node, "type"@)
    } else if tree.field_child(node, "return_type"@) is Some {
        tree.field_child(node, "return_type"@)
    } else if tree.field_child(node, "field_type"@) is Some {
        tree.field_child(node, "field_type"@)
    } else if tree.field_child(node, "value_type"@) is Some {
        tree.field_child(node, "value_type"@)
    } else {
        tree.field_child(node, "right"@)
    }
}

/// A child that names a type by its text: an identifier-like kind with some text
/// and no space in it.
pub open spec fn type_kid(tree: SyntaxTree, c: int) -> bool {
    let k = tree.kind_of(c);
    (k == "type_identifier"@ || k == "primitive_type"@ || k == "identifier"@ || k == "type"@)
        && tree.text_of(c).len() > 0 && !tree.text_of(c).contains(' ')
}

/// Whether the `j`-th child of `node` is its first child that names a type.
pub open spec fn first_type_kid(tree: SyntaxTree, node: int, j: int) -> bool {
    &&& 0 <= j < tree.kids_of(node).len()
    &&& type_kid(tree, tree.kids_of(node)[j] as int)
    &&& forall|i: int| 0 <= i < j ==> !type_kid(tree, #[trigger] tree.kids_of(node)[i] as int)
}

/// The type written after the first `:` of a text, where something follows it.
pub open spec fn colon_type(text: Seq<char>) -> Option<TypeRefV> {
    match first_index_of(text, ':') {
        Some(p) => if trim(text.skip(p + 1)).len() > 0 {
            Some(parse_type_spec(trim(text.skip(p + 1))))
        } else {
            None
        },
        None => None,
    }
}

/// The type written after the first `->` of a text, where something follows it.
pub open spec fn arrow_type(text: Seq<char>) -> Option<TypeRefV> {
    if exists|i: int| arrow_at(text, i) && forall|j: int| 0 <= j < i ==> !#[trigger] arrow_at(text, j) {
        let i = choose|i: int| arrow_at(text, i) && forall|j: int| 0 <= j < i ==> !#[trigger] arrow_at(text, j);
        if trim(text.skip(i + 2)).len() > 0 {
            Some(parse_type_spec(trim(text.skip(i + 2))))
        } else {
            None
        }
    } else {
        None
    }
}

/// The type read from a node: a `type` wrapper of one child is that child's type;
/// then a union, a generic application, the text of a type-like kind, the type
/// under a usual type field, the text of the first child that names a type, and
/// last the text after a `:` or a `->`; `Failed` where none applies.
pub open spec fn type_of(tree: SyntaxTree, node: int) -> TypeRefV
    decreases tree.size() - node, 4int, 0int,
{
    let k = tree.kind_of(node);
    let kids = tree.kids_of(node);
    let text = tree.text_of(node);
    if k == "type"@ && kids.len() == 1 && node < kids[0] < tree.size() {
        type_of(tree, kids[0] as int)
    } else if union_of(tree, node) is Some {
        union_of(tree, node)->0
    } else if generic_of(tree, node) is Some {
        generic_of(tree, node)->0
    } else if (direct_type_kind(k) || k == "template_type"@ || k == "type"@) && strip_quotes(text).len() > 0 {
        named_type_spec(strip_quotes(text))
    } else if type_field_node(tree, node) is Some && node < type_field_node(tree, node)->0 < tree.size() {
        type_of(tree, type_field_node(tree, node)->0 as int)
    } else if exists|j: int| first_type_kid(tree, node, j) {
        named_type_spec(tree.text_of(kids[choose|j: int| first_type_kid(tree, node, j)] as int))
    } else if colon_type(text) is Some {
        colon_type(text)->0
    } else if arrow_type(text) is Some {
        arrow_type(text)->0
    } else {
        TypeRefV::Failed(Seq::empty())
    }
}

/// The non-failed types of the children of `node` from the `i`-th on, skipping
/// brackets and commas (`brackets`) or `|` separators.
pub open spec fn members_from(tree: SyntaxTree, node: int, i: int, brackets: bool) -> Seq<TypeRefV>
    decreases tree.size() - node, 2int, tree.kids_of(node).len() - i,
{
    if 0 <= i < tree.kids_of(node).len() {
        let c = tree.kids_of(node)[i];
        let k = tree.kind_of(c as int);
        let skip = if brackets {
            k == "["@ || k == "]"@ || k == ","@ || k == "("@ || k == ")"@ || k.len() == 0
        } else {
            k == "|"@
        };
        let here = if !skip && node < c < tree.size() && !(type_of(tree, c as int) is Failed) {
            seq![type_of(tree, c as int)]
        } else {
            Seq::empty()
        };
        here + members_from(tree, node, i + 1, brackets)
    } else {
        Seq::empty()
    }
}

/// The types of the members of a `Union[...]` subscript.
pub open spec fn subscript_members(tree: SyntaxTree, sn: int) -> Seq<TypeRefV>
    decreases tree.size() - sn, 5int, 0int,
{
    if tree.kind_of(sn) == "tuple"@ {
        members_from(tree, sn, 0, true)
    } else if !(type_of(tree, sn) is Failed) {
        seq![type_of(tree, sn)]
    } else {
        Seq::empty()
    }
}

/// The types of the two sides of a binary `|`.
pub open spec fn operand_types(tree: SyntaxTree, node: int) -> Seq<TypeRefV>
    decreases tree.size() - node, 2int, 0int,
{
    (match tree.field_child(node, "left"@) {
        Some(l) => if node < l < tree.size() {
            seq![type_of(tree, l as int)]
        } else {
            Seq::empty()
        },
        None => Seq::empty(),
    }) + (match tree.field_child(node, "right"@) {
        Some(r) => if node < r < tree.size() {
            seq![type_of(tree, r as int)]
        } else {
            Seq::empty()
        },
        None => Seq::empty(),
    })
}

/// A union read from a node: a `union_type`'s members, the sides of a `|`
/// operator, the arguments of a `Union[...]` generic or subscript; `None` where
/// none applies or no member is found.
pub open spec fn union_of(tree: SyntaxTree, node: int) -> Option<TypeRefV>
    decreases tree.size() - node, 3int, 0int,
{
    let k = tree.kind_of(node);
    let kids = tree.kids_of(node);
    if k == "union_type"@ && members_from(tree, node, 0, false).len() > 0 {
        Some(TypeRefV::Union(members_from(tree, node, 0, false)))
    } else if k == "binary_operator"@ && tree.text_of(node).contains('|') && operand_types(
        tree,
        node,
    ).len() > 0 {
        Some(TypeRefV::Union(operand_types(tree, node)))
    } else if k == "generic_type"@ && kids.len() > 1 && trim(tree.text_of(kids[0] as int)) == "Union"@
        && node < kids[1] < tree.size() && members_from(tree, kids[1] as int, 0, true).len() > 0 {
        Some(TypeRefV::Union(members_from(tree, kids[1] as int, 0, true)))
    } else if k == "subscript"@ && tree.field_child(node, "value"@) is Some && trim(
        tree.text_of(tree.field_child(node, "value"@)->0 as int),
    ) == "Union"@ && tree.field_child(node, "subscript"@) is Some && node < tree.field_child(
        node,
        "subscript"@,
    )->0 < tree.size() && subscript_members(
        tree,
        tree.field_child(node, "subscript"@)->0 as int,
    ).len() > 0 {
        Some(
            TypeRefV::Union(
                subscript_members(tree, tree.field_child(node, "subscript"@)->0 as int),
            ),
        )
    } else {
        None
    }
}

/// The base of a generic application: its `type`, `name` or `value` field, else
/// its first named child.
pub open spec fn generic_base_node(tree: SyntaxTree, node: int) -> Option<usize> {
    if tree.field_child(node, "type"@) is Some {
        tree.field_child(node, "type"@)
    } else if tree.field_child(node, "name"@) is Some {
        tree.field_child(node, "name"@)
    } else if tree.field_child(node, "value"@) is Some {
        tree.field_child(node, "value"@)
    } else if tree.named_kids(node).len() > 0 {
        Some(tree.named_kids(node)[0])
    } else {
        None
    }
}

/// Kinds of the argument list of a generic application found among its children.
pub open spec fn argument_list_kind(k: Seq<char>) -> bool {
    k == "template_argument_list"@ || k == "type_arguments"@ || k == "type_parameter"@
}

/// Whether the `j`-th child of `node` is its first argument list.
pub open spec fn first_argument_list(tree: SyntaxTree, node: int, j: int) -> bool {
    &&& 0 <= j < tree.kids_of(node).len()
    &&& argument_list_kind(tree.kind_of(tree.kids_of(node)[j] as int))
    &&& forall|i: int|
        0 <= i < j ==> !argument_list_kind(tree.kind_of(#[trigger] tree.kids_of(node)[i] as int))
}

/// The argument container of a generic application: its `type_arguments`,
/// `arguments` or `subscript` field, else its first argument-list child.
pub open spec fn generic_container(tree: SyntaxTree, node: int) -> Option<usize> {
    if tree.field_child(node, "type_arguments"@) is Some {
        tree.field_child(node, "type_arguments"@)
    } else if tree.field_child(node, "arguments"@) is Some {
        tree.field_child(node, "arguments"@)
    } else if tree.field_child(node, "subscript"@) is Some {
        tree.field_child(node, "subscript"@)
    } else if exists|j: int| first_argument_list(tree, node, j) {
        Some(tree.kids_of(node)[choose|j: int| first_argument_list(tree, node, j)])
    } else {
        None
    }
}

/// Kinds that hold several type arguments.
pub open spec fn argument_container_kind(k: Seq<char>) -> bool {
    k == "tuple"@ || k == "type_arguments"@ || k == "template_argument_list"@ || k
        == "type_parameter"@
}

/// Kinds of argument-list punctuation.
pub open spec fn list_punctuation_kind(k: Seq<char>) -> bool {
    k == "<"@ || k == ">"@ || k == "("@ || k == ")"@ || k == "["@ || k == "]"@ || k == ","@
}

/// The non-failed types among the children of `c` from the `i`-th on,
/// punctuation left out.
pub open spec fn args_from(tree: SyntaxTree, c: int, i: int) -> Seq<TypeRefV>
    decreases tree.size() - c, 1int, tree.kids_of(c).len() - i,
{
    if 0 <= i < tree.kids_of(c).len() {
        let a = tree.kids_of(c)[i];
        let k = tree.kind_of(a as int);
        let here = if !list_punctuation_kind(k) && k.len() > 0 && c < a < tree.size() && !(type_of(
            tree,
            a as int,
        ) is Failed) {
            seq![type_of(tree, a as int)]
        } else {
            Seq::empty()
        };
        here + args_from(tree, c, i + 1)
    } else {
        Seq::empty()
    }
}

/// The type arguments in a container, or the container itself as the one argument;
/// failed ones left out.
pub open spec fn argument_list(tree: SyntaxTree, c: int) -> Seq<TypeRefV>
    decreases tree.size() - c, 5int, 0int,
{
    if argument_container_kind(tree.kind_of(c)) {
        args_from(tree, c, 0)
    } else if !(type_of(tree, c) is Failed) {
        seq![type_of(tree, c)]
    } else {
        Seq::empty()
    }
}

/// A generic application read from a node of a generic kind: its base type and at
/// least one argument; `None` for a failed base or a `Union` base.
pub open spec fn generic_of(tree: SyntaxTree, node: int) -> Option<TypeRefV>
    decreases tree.size() - node, 3int, 0int,
{
    let k = tree.kind_of(node);
    if !(k == "template_type"@ || k == "generic_type"@ || k == "subscript"@) {
        None
    } else {
        match generic_base_node(tree, node) {
            None => None,
            Some(b) => if !(node < b < tree.size()) {
                None
            } else {
                let bt = type_of(tree, b as int);
                if bt is Failed {
                    None
                } else if bt matches TypeRefV::Unresolved(qn) && qn.len() > 0 && qn.last()
                    == "Union"@ {
                    None
                } else {
                    match generic_container(tree, node) {
                        None => None,
                        Some(c) => if !(node < c < tree.size()) {
                            None
                        } else if argument_list(tree, c as int).len() == 0 {
                            None
                        } else {
                            Some(
                                TypeRefV::Generic {
                                    base: Box::new(bt),
                                    args: argument_list(tree, c as int),
                                },
                            )
                        },
                    }
                }
            },
        }
    }
}

/// The type read from node `n` is `t`.
pub open spec fn type_read_from(tree: SyntaxTree, n: int, t: TypeRefV) -> bool {
    t == type_of(tree, n)
}

/// A heuristic type reference for a node: unwraps `type` wrappers, recognises
/// unions and generic applications, reads identifier-like nodes by their text,
/// follows the usual type fields, then an identifier child, and last the text after
/// a `:` or a `->`.
pub fn extract_type_ref(tree: &SyntaxTree, node: usize) -> (r: TypeRef)
    requires
        tree.wf(),
        node < tree.size(),
    ensures
        type_read_from(*tree, node as int, r@),
        r@ == type_of(*tree, node as int),
    decreases tree.size() - node, 2nat,
{
    let kind = tree.kind(node);
    if str_eq(kind, "type") && tree.child_count(node) == 1 {
        if let Some(child) = tree.child(node, 0) {
            return extract_type_ref(tree, child);
        }
    }
    if let Some(u) = try_extract_union(tree, node) {
        return u;
    }
    if let Some(g) = try_extract_generic(tree, node) {
        return g;
    }
    if is_direct_type_kind(kind) {
        let cs = chars_of(tree.text(node));
        let stripped = strip_quotes_chars(&cs);
        if stripped.len() > 0 {
            let text = string_from_chars(&stripped);
            return named_type(text.as_str());
        }
    }
    if let Some(t) = try_extract_from_type_field(tree, node) {
        return t;
    }
    let kids = tree.children(node);
    let mut i: usize = 0;
    while i < kids.len()
        invariant
            tree.wf(),
            node < tree.size(),
            kids@ == tree.kids_of(node as int),
            i <= kids@.len(),
            forall|k: int| 0 <= k < kids@.len() ==> #[trigger] kids@[k] < tree.size(),
            !(tree.kind_of(node as int) == "type"@ && kids@.len() == 1 && node < kids@[0] < tree.size()),
            union_of(*tree, node as int) is None,
            generic_of(*tree, node as int) is None,
            !((direct_type_kind(tree.kind_of(node as int)) || tree.kind_of(node as int) == "template_type"@
                || tree.kind_of(node as int) == "type"@) && strip_quotes(tree.text_of(node as int)).len() > 0),
            !(type_field_node(*tree, node as int) is Some && node < type_field_node(*tree, node as int)->0
                < tree.size()),
            forall|j: int| 0 <= j < i ==> !type_kid(*tree, #[trigger] kids@[j] as int),
        decreases kids.len() - i,
    {
        let c = kids[i];
        let ck = tree.kind(c);
        if str_eq(ck, "type_identifier") || str_eq(ck, "primitive_type") || str_eq(ck, "identifier")
            || str_eq(ck, "type") {
            let text = tree.text(c);
            let tcs = chars_of(text);
            if tcs.len() > 0 && !contains_char(&tcs, ' ') {
                proof {
                    assert(type_kid(*tree, c as int));
                    assert(first_type_kid(*tree, node as int, i as int));
                    assert forall|j: int| first_type_kid(*tree, node as int, j) implies j == i by {
                        if j < i {
                            assert(!type_kid(*tree, kids@[j] as int));
                        }
                        if j > i {
                            assert(!type_kid(*tree, kids@[i as int] as int));
                        }
                    }
                }
                return named_type(text);
            }
        }
        i += 1;
    }
    proof {
        assert forall|j: int| !first_type_kid(*tree, node as int, j) by {
            if 0 <= j < kids@.len() {
                assert(!type_kid(*tree, kids@[j] as int));
            }
        }
    }
    let cs = chars_of(tree.text(node));
    if let Some(pos) = find_char(&cs, ':') {
        proof {
            lemma_first_index_of(cs@, ':');
        }
        let n = cs.len();
        let after = trim_chars(&slice_chars(&cs, pos + 1, n));
        proof {
            assert(cs@.subrange(pos + 1, n as int) =~= cs@.skip(pos + 1));
        }
        if after.len() > 0 {
            return parse_type_chars(&after);
        }
    }
    if let Some(pos) = find_arrow(&cs) {
        let n = cs.len();
        let after = trim_chars(&slice_chars(&cs, pos + 2, n));
        proof {
            assert(cs@.subrange(pos + 2, n as int) =~= cs@.skip(pos + 2));
            let w = choose|i: int| arrow_at(cs@, i) && forall|j: int| 0 <= j < i ==> !#[trigger] arrow_at(cs@, j);
            assert(arrow_at(cs@, pos as int) && forall|j: int| 0 <= j < pos ==> !#[trigger] arrow_at(cs@, j));
            if w < pos {
                assert(!arrow_at(cs@, w));
            }
            if w > pos {
                assert(!arrow_at(cs@, pos as int));
            }
            assert(w == pos);
        }
        if after.len() > 0 {
            return parse_type_chars(&after);
        }
    } else {
        proof {
            if exists|i: int| arrow_at(cs@, i) && forall|j: int| 0 <= j < i ==> !#[trigger] arrow_at(cs@, j) {
                let w = choose|i: int| arrow_at(cs@, i) && forall|j: int| 0 <= j < i ==> !#[trigger] arrow_at(cs@, j);
                assert(!arrow_at(cs@, w));
            }
        }
    }
    let none: Vec<String> = Vec::new();
    proof {
        assert(none.deep_view() =~= Seq::<Seq<char>>::empty());
    }
    TypeRef::Failed(none)
}

/// The type under one of the usual type fields (`type`, `return_type`,
/// `field_type`, `value_type`, `right`).
fn try_extract_from_type_field(tree: &SyntaxTree, node: usize) -> (r: Option<TypeRef>)
    requires
        tree.wf(),
        node < tree.size(),
    ensures
        opt_typeref_view(r) == match type_field_node(*tree, node as int) {
            Some(f) => Some(type_of(*tree, f as int)),
            None => None,
        },
        r is Some ==> node < type_field_node(*tree, node as int)->0 < tree.size(),
    decreases tree.size() - node, 1nat,
{
    let mut found = tree.child_by_field_name(node, "type");
    if found.is_none() {
        found = tree.child_by_field_name(node, "return_type");
    }
    if found.is_none() {
        found = tree.child_by_field_name(node, "field_type");
    }
    if found.is_none() {
        found = tree.child_by_field_name(node, "value_type");
    }
    if found.is_none() {
        found = tree.child_by_field_name(node, "right");
    }
    assert(found == type_field_node(*tree, node as int));
    match found {
        Some(t) => Some(extract_type_ref(tree, t)),
        None => None,
    }
}

/// A generic application (`template_type`, `generic_type`, `subscript`): the base
/// type and at least one argument; `None` for other kinds, for a failed base, for
/// a `Union` base and where no argument is found.
pub fn try_extract_generic(tree: &SyntaxTree, node: usize) -> (r: Option<TypeRef>)
    requires
        tree.wf(),
        node < tree.size(),
    ensures
        opt_typeref_view(r) == generic_of(*tree, node as int),
        !(tree.kind_of(node as int) == "template_type"@ || tree.kind_of(node as int)
            == "generic_type"@ || tree.kind_of(node as int) == "subscript"@) ==> r is None,
        r matches Some(g) ==> g is Generic && g->args@.len() > 0,
    decreases tree.size() - node, 1nat,
{
    let kind = tree.kind(node);
    if !(str_eq(kind, "template_type") || str_eq(kind, "generic_type") || str_eq(kind, "subscript")) {
        return None;
    }
    let mut base_node = tree.child_by_field_name(node, "type");
    if base_node.is_none() {
        base_node = tree.child_by_field_name(node, "name");
    }
    if base_node.is_none() {
        base_node = tree.child_by_field_name(node, "value");
    }
    if base_node.is_none() {
        base_node = tree.named_child(node, 0);
    }
    assert(base_node == generic_base_node(*tree, node as int));
    let b = match base_node {
        Some(b) => b,
        None => {
            return None;
        },
    };
    let base_tr = extract_type_ref(tree, b);
    match &base_tr {
        TypeRef::Failed(_) => {
            return None;
        },
        TypeRef::Unresolved(qn) => {
            if qn.len() > 0 && str_eq(qn[qn.len() - 1].as_str(), "Union") {
                return None;
            }
        },
        _ => {},
    }
    let mut container = tree.child_by_field_name(node, "type_arguments");
    if container.is_none() {
        container = tree.child_by_field_name(node, "arguments");
    }
    if container.is_none() {
        container = tree.child_by_field_name(node, "subscript");
    }
    if container.is_none() {
        let kids = tree.children(node);
        let mut i: usize = 0;
        while i < kids.len()
            invariant_except_break
                container is None,
            invariant
                tree.wf(),
                node < tree.size(),
                kids@ == tree.kids_of(node as int),
                i <= kids@.len(),
                forall|k: int| 0 <= k < kids@.len() ==> node < #[trigger] kids@[k] < tree.size(),
                forall|j: int| 0 <= j < i ==> !argument_list_kind(tree.kind_of(#[trigger] kids@[j] as int)),
            ensures
                container matches Some(c) ==> node < c < tree.size() && exists|j: int|
                    first_argument_list(*tree, node as int, j) && kids@[j] == c,
                container is None ==> forall|j: int| !first_argument_list(*tree, node as int, j),
            decreases kids.len() - i,
        {
            let ck = tree.kind(kids[i]);
            if str_eq(ck, "template_argument_list") || str_eq(ck, "type_arguments") || str_eq(
                ck,
                "type_parameter",
            ) {
                proof {
                    assert(first_argument_list(*tree, node as int, i as int));
                }
                container = Some(kids[i]);
                break;
            }
            i += 1;
        }
        proof {
            if let Some(c) = container {
                let w = choose|j: int| first_argument_list(*tree, node as int, j) && kids@[j] == c;
                assert forall|j: int| first_argument_list(*tree, node as int, j) implies j == w by {
                    if j < w {
                        assert(!argument_list_kind(tree.kind_of(kids@[j] as int)));
                    }
                    if j > w {
                        assert(!argument_list_kind(tree.kind_of(kids@[w] as int)));
                    }
                }
            }
        }
    }
    assert(container == generic_container(*tree, node as int));
    let c = match container {
        Some(c) => c,
        None => {
            return None;
        },
    };
    let args = extract_type_argument_list(tree, c);
    if args.len() == 0 {
        return None;
    }
    proof {
        lemma_typerefs_view(args@);
    }
    Some(TypeRef::Generic { base: Box::new(base_tr), args })
}

/// Whether a kind is punctuation of an argument list.
fn is_list_punctuation(k: &str) -> (r: bool)
    ensures
        r == list_punctuation_kind(k@),
{
    str_eq(k, "<") || str_eq(k, ">") || str_eq(k, "(") || str_eq(k, ")") || str_eq(k, "[")
        || str_eq(k, "]") || str_eq(k, ",")
}

/// The type arguments in an argument container (`tuple`, `type_arguments`,
/// `template_argument_list`, `type_parameter`) or in a single argument node;
/// failed extractions are left out.
fn extract_type_argument_list(tree: &SyntaxTree, container: usize) -> (r: Vec<TypeRef>)
    requires
        tree.wf(),
        container < tree.size(),
    ensures
        typerefs_view(r@) == argument_list(*tree, container as int),
        forall|k: int| 0 <= k < r@.len() ==> !(#[trigger] r@[k] is Failed),
    decreases tree.size() - container, 3nat,
{
    let kind = tree.kind(container);
    if str_eq(kind, "tuple") || str_eq(kind, "type_arguments") || str_eq(kind, "template_argument_list")
        || str_eq(kind, "type_parameter") {
        let mut args: Vec<TypeRef> = Vec::new();
        let kids = tree.children(container);
        let mut i: usize = 0;
        proof {
            assert(typerefs_view(args@) + args_from(*tree, container as int, 0) =~= args_from(
                *tree,
                container as int,
                0,
            ));
        }
        while i < kids.len()
            invariant
                tree.wf(),
                container < tree.size(),
                kids@ == tree.kids_of(container as int),
                i <= kids@.len(),
                forall|k: int| 0 <= k < kids@.len() ==> container < #[trigger] kids@[k] < tree.size(),
                forall|k: int| 0 <= k < args@.len() ==> !(#[trigger] args@[k] is Failed),
                typerefs_view(args@) + args_from(*tree, container as int, i as int) == args_from(
                    *tree,
                    container as int,
                    0,
                ),
            decreases kids.len() - i,
        {
            let c = kids[i];
            let ck = tree.kind(c);
            let ghost rest = args_from(*tree, container as int, i + 1);
            let ghost before = typerefs_view(args@);
            if !is_list_punctuation(ck) && ck.unicode_len() > 0 {
                let tr = extract_type_ref(tree, c);
                if !is_failed(&tr) {
                    proof {
                        lemma_typerefs_view_concat(args@, seq![tr]);
                        lemma_typerefs_view(seq![tr]);
                        assert(args@.push(tr) =~= args@ + seq![tr]);
                    }
                    args.push(tr);
                    proof {
                        assert(typerefs_view(args@) =~= before.push(tr@));
                        assert(typerefs_view(args@) + rest =~= before + (seq![tr@] + rest));
                    }
                } else {
                    proof {
                        assert(before + rest =~= before + (Seq::<TypeRefV>::empty() + rest));
                    }
                }
            } else {
                proof {
                    assert(before + rest =~= before + (Seq::<TypeRefV>::empty() + rest));
                }
            }
            i += 1;
        }
        proof {
            assert(typerefs_view(args@) + args_from(*tree, container as int, i as int) =~= typerefs_view(args@));
        }
        args
    } else {
        let tr = extract_type_ref(tree, container);
        if is_failed(&tr) {
            let v: Vec<TypeRef> = Vec::new();
            proof {
                assert(typerefs_view(v@) =~= Seq::<TypeRefV>::empty());
            }
            v
        } else {
            let v = vec![tr];
            proof {
                lemma_typerefs_view(v@);
                assert(typerefs_view(v@) =~= seq![tr@]);
            }
            v
        }
    }
}

/// The non-failed types among the children of `node`, skipping brackets and
/// commas (`brackets`) or `|` separators.
fn union_members(tree: &SyntaxTree, node: usize, brackets: bool) -> (r: Vec<TypeRef>)
    requires
        tree.wf(),
        node < tree.size(),
    ensures
        typerefs_view(r@) == members_from(*tree, node as int, 0, brackets),
    decreases tree.size() - node, 0nat,
{
    let mut types: Vec<TypeRef> = Vec::new();
    let kids = tree.children(node);
    let mut i: usize = 0;
    proof {
        assert(typerefs_view(types@) + members_from(*tree, node as int, 0, brackets) =~= members_from(
            *tree,
            node as int,
            0,
            brackets,
        ));
    }
    while i < kids.len()
        invariant
            tree.wf(),
            node < tree.size(),
            kids@ == tree.kids_of(node as int),
            i <= kids@.len(),
            forall|k: int| 0 <= k < kids@.len() ==> node < #[trigger] kids@[k] < tree.size(),
            typerefs_view(types@) + members_from(*tree, node as int, i as int, brackets) == members_from(
                *tree,
                node as int,
                0,
                brackets,
            ),
        decreases kids.len() - i,
    {
        let c = kids[i];
        let ck = tree.kind(c);
        let ghost rest = members_from(*tree, node as int, i + 1, brackets);
        let ghost before = typerefs_view(types@);
        let skip = if brackets {
            str_eq(ck, "[") || str_eq(ck, "]") || str_eq(ck, ",") || str_eq(ck, "(") || str_eq(
                ck,
                ")",
            ) || ck.unicode_len() == 0
        } else {
            str_eq(ck, "|")
        };
        if !skip {
            let ty = extract_type_ref(tree, c);
            if !is_failed(&ty) {
                proof {
                    lemma_typerefs_view_concat(types@, seq![ty]);
                    lemma_typerefs_view(seq![ty]);
                    assert(types@.push(ty) =~= types@ + seq![ty]);
                }
                types.push(ty);
                proof {
                    assert(typerefs_view(types@) =~= before.push(ty@));
                    assert(typerefs_view(types@) + rest =~= before + (seq![ty@] + rest));
                }
            } else {
                proof {
                    assert(before + rest =~= before + (Seq::<TypeRefV>::empty() + rest));
                }
            }
        } else {
            proof {
                assert(before + rest =~= before + (Seq::<TypeRefV>::empty() + rest));
            }
        }
        i += 1;
    }
    proof {
        assert(typerefs_view(types@) + members_from(*tree, node as int, i as int, brackets) =~= typerefs_view(types@));
    }
    types
}

/// Whether the trimmed text of `node` is `Union`.
fn text_is_union(tree: &SyntaxTree, node: usize) -> (r: bool)
    requires
        tree.wf(),
        node < tree.size(),
    ensures
        r == (trim(tree.text_of(node as int)) == "Union"@),
{
    let cs = chars_of(tree.text(node));
    let t = trim_chars(&cs);
    let u = chars_of("Union");
    chars_eq(&t, &u)
}

/// A union type: a `union_type`, a `binary_operator` with `|`, a `Union[...]`
/// generic or subscript; `None` where no member is found.
fn try_extract_union(tree: &SyntaxTree, node: usize) -> (r: Option<TypeRef>)
    requires
        tree.wf(),
        node < tree.size(),
    ensures
        opt_typeref_view(r) == union_of(*tree, node as int),
        r matches Some(u) ==> u is Union,
        !(tree.kind_of(node as int) == "union_type"@ || tree.kind_of(node as int)
            == "binary_operator"@ || tree.kind_of(node as int) == "generic_type"@ || tree.kind_of(
            node as int,
        ) == "subscript"@) ==> r is None,
    decreases tree.size() - node, 1nat,
{
    let kind = tree.kind(node);
    if str_eq(kind, "union_type") {
        let types = union_members(tree, node, false);
        if types.len() > 0 {
            proof {
                lemma_typerefs_view(types@);
            }
            return Some(TypeRef::Union(types));
        }
    }
    if str_eq(kind, "binary_operator") {
        let cs = chars_of(tree.text(node));
        if contains_char(&cs, '|') {
            let mut types: Vec<TypeRef> = Vec::new();
            let ghost l_part: Seq<TypeRefV> = Seq::empty();
            if let Some(left) = tree.child_by_field_name(node, "left") {
                let t = extract_type_ref(tree, left);
                proof {
                    l_part = seq![t@];
                }
                types.push(t);
            }
            proof {
                lemma_typerefs_view(types@);
                assert(typerefs_view(types@) =~= l_part);
            }
            if let Some(right) = tree.child_by_field_name(node, "right") {
                let t = extract_type_ref(tree, right);
                proof {
                    lemma_typerefs_view_concat(types@, seq![t]);
                    lemma_typerefs_view(seq![t]);
                    assert(types@.push(t) =~= types@ + seq![t]);
                }
                types.push(t);
            }
            proof {
                lemma_typerefs_view(types@);
                assert(typerefs_view(types@) =~= operand_types(*tree, node as int));
            }
            if types.len() > 0 {
                return Some(TypeRef::Union(types));
            }
        }
    }
    if str_eq(kind, "generic_type") {
        if let Some(name_node) = tree.child(node, 0) {
            if text_is_union(tree, name_node) {
                if let Some(params) = tree.child(node, 1) {
                    let types = union_members(tree, params, true);
                    if types.len() > 0 {
                        proof {
                            lemma_typerefs_view(types@);
                        }
                        return Some(TypeRef::Union(types));
                    }
                }
            }
        }
    }
    if str_eq(kind, "subscript") {
        if let Some(val_node) = tree.child_by_field_name(node, "value") {
            if text_is_union(tree, val_node) {
                if let Some(sub_node) = tree.child_by_field_name(node, "subscript") {
                    let types = if str_eq(tree.kind(sub_node), "tuple") {
                        union_members(tree, sub_node, true)
                    } else {
                        let ty = extract_type_ref(tree, sub_node);
                        if is_failed(&ty) {
                            let v: Vec<TypeRef> = Vec::new();
                            proof {
                                assert(typerefs_view(v@) =~= Seq::<TypeRefV>::empty());
                            }
                            v
                        } else {
                            let v = vec![ty];
                            proof {
                                lemma_typerefs_view(v@);
                                assert(typerefs_view(v@) =~= seq![ty@]);
                            }
                            v
                        }
                    };
                    proof {
                        assert(typerefs_view(types@) == subscript_members(*tree, sub_node as int));
                    }
                    if types.len() > 0 {
                        proof {
                            lemma_typerefs_view(types@);
                        }
                        return Some(TypeRef::Union(types));
                    }
                }
            }
        }
    }
    None
}

} // verus!
