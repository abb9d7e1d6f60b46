//! Extracting the symbols and call sites of a Rust source file from its syntax
//! tree.
//!
//! The nodes are visited in document order, each with the context its parent
//! passes down: the enclosing `impl` block's name, the position of the
//! enclosing function among the symbols found so far, and the path of enclosing
//! modules.
use vstd::prelude::*;
use crate::model::{CallSite, Language, Symbol, SymbolKind, TextRange};
use crate::paths::{file_stem_of, path_file_stem};
use crate::rust_syntax::{NodeView, SyntaxNode, field_child, find_field_child, lemma_nearest_at_most_range, nodes_view, parent_of, parents, parse_rust_syntax, prev_sibling, prev_sibling_of, outcome_view, rust_syntax_of};
use crate::strings::{chars_contains, chars_of, contains_seq, extend_str, owned, str_eq, string_from_chars};
use crate::unicode::{char_is_space, is_space};

verus! {

/// The text without leading whitespace.
pub open spec fn trim_start(s: Seq<char>) -> Seq<char>
    decreases s.len(),
{
    if s.len() > 0 && char_is_space(s[0]) {
        trim_start(s.drop_first())
    } else {
        s
    }
}

/// The text without trailing whitespace.
pub open spec fn trim_end(s: Seq<char>) -> Seq<char>
    decreases s.len(),
{
    if s.len() > 0 && char_is_space(s.last()) {
        trim_end(s.drop_last())
    } else {
        s
    }
}

/// The text without leading and trailing whitespace (`str::trim`).
pub open spec fn trim(s: Seq<char>) -> Seq<char> {
    trim_end(trim_start(s))
}

/// The position of the first `c` in `s`.
pub open spec fn first_index(s: Seq<char>, c: char) -> Option<int>
    decreases s.len(),
{
    if s.len() == 0 {
        None
    } else if s[0] == c {
        Some(0)
    } else {
        match first_index(s.drop_first(), c) {
            Some(i) => Some(i + 1),
            None => None,
        }
    }
}

/// A type's name without its generic arguments, trimmed.
pub open spec fn clean_type(s: Seq<char>) -> Seq<char> {
    trim(
        match first_index(s, '<') {
            Some(i) => s.take(i),
            None => s,
        },
    )
}

/// One more, wrapping.
pub open spec fn inc(x: usize) -> usize {
    if x < usize::MAX {
        (x + 1) as usize
    } else {
        0
    }
}

/// A node's 1-based range.
pub open spec fn node_range(n: NodeView) -> TextRange {
    TextRange {
        start_line: inc(n.4.0),
        start_col: inc(n.4.1),
        end_line: inc(n.4.2),
        end_col: inc(n.4.3),
    }
}

/// A symbol found: name, qualified name, kind, range and body range.
pub type SymbolDesc = (Seq<char>, Seq<char>, SymbolKind, TextRange, Option<TextRange>);

/// A call found: the enclosing function's position, the called text and its range.
pub type SiteDesc = (Option<usize>, Seq<char>, TextRange);

/// The context passed down to a node's children: the enclosing impl block's name,
/// the enclosing function's position, and the path of enclosing modules.
pub type Ctx = (Option<Seq<char>>, Option<usize>, Option<Seq<char>>);

/// The qualified prefix of items: the file stem, then the enclosing modules.
pub open spec fn item_prefix(stem: Seq<char>, mods: Option<Seq<char>>) -> Seq<char> {
    match mods {
        Some(m) => stem + "::"@ + m,
        None => stem,
    }
}

/// Whether the attributes and comments right before a node (its previous
/// siblings, back to the first other node) include an attribute mentioning
/// `test`.
pub open spec fn attributed_test(ns: Seq<NodeView>, p: int) -> bool
    decreases p + 1,
{
    if p < 0 || p >= ns.len() {
        false
    } else {
        proof {
            lemma_nearest_at_most_range(ns, p, ns[p].2);
        }
        if ns[p].0 == "attribute_item"@ {
            if contains_seq(ns[p].3, "test"@) {
                true
            } else {
                attributed_test(ns, prev_sibling_of(ns, p))
            }
        } else if ns[p].0 == "line_comment"@ || ns[p].0 == "block_comment"@ {
            attributed_test(ns, prev_sibling_of(ns, p))
        } else {
            false
        }
    }
}

/// The name of an impl block: its type (and `as` its trait), or `impl`.
pub open spec fn impl_name(ns: Seq<NodeView>, i: int) -> Seq<char> {
    let t = field_child(ns, i, "type"@);
    let tr = field_child(ns, i, "trait"@);
    if t >= 0 {
        if tr >= 0 {
            clean_type(ns[t].3) + " as "@ + clean_type(ns[tr].3)
        } else {
            clean_type(ns[t].3)
        }
    } else {
        "impl"@
    }
}

/// The kind of symbol a named item is.
pub open spec fn item_kind(k: Seq<char>) -> SymbolKind {
    if k == "mod_item"@ {
        SymbolKind::Module
    } else if k == "struct_item"@ {
        SymbolKind::Struct
    } else if k == "enum_item"@ {
        SymbolKind::Enum
    } else {
        SymbolKind::Trait
    }
}

/// Whether a node kind is a named item: a module, struct, enum or trait.
pub open spec fn is_named_item(k: Seq<char>) -> bool {
    k == "mod_item"@ || k == "struct_item"@ || k == "enum_item"@ || k == "trait_item"@
}

/// The symbol node `i` declares, in context `ctx`: an impl block; a module,
/// struct, enum or trait with a name; or a named function, a test when an
/// attribute before it mentions `test`, a method inside an impl block.
pub open spec fn node_symbol(ns: Seq<NodeView>, stem: Seq<char>, i: int, ctx: Ctx) -> Option<SymbolDesc> {
    let k = ns[i].0;
    let nm = field_child(ns, i, "name"@);
    if k == "impl_item"@ {
        Some((impl_name(ns, i), impl_name(ns, i), SymbolKind::Impl, node_range(ns[i]), None))
    } else if is_named_item(k) && nm >= 0 {
        Some(
            (
                ns[nm].3,
                item_prefix(stem, ctx.2) + "::"@ + ns[nm].3,
                item_kind(k),
                node_range(ns[i]),
                None,
            ),
        )
    } else if k == "function_item"@ && nm >= 0 {
        let kind = if attributed_test(ns, prev_sibling_of(ns, i)) {
            SymbolKind::Test
        } else if ctx.0 is Some {
            SymbolKind::Method
        } else {
            SymbolKind::Function
        };
        let qn = match ctx.0 {
            Some(im) => im + "::"@ + ns[nm].3,
            None => item_prefix(stem, ctx.2) + "::"@ + ns[nm].3,
        };
        let b = field_child(ns, i, "body"@);
        Some(
            (
                ns[nm].3,
                qn,
                kind,
                node_range(ns[i]),
                if b >= 0 {
                    Some(node_range(ns[b]))
                } else {
                    None
                },
            ),
        )
    } else {
        None
    }
}

/// The call site node `i` is, in context `ctx`: a call expression with a callee.
pub open spec fn node_site(ns: Seq<NodeView>, i: int, ctx: Ctx) -> Option<SiteDesc> {
    let f = field_child(ns, i, "function"@);
    if ns[i].0 == "call_expression"@ && f >= 0 {
        Some((ctx.1, ns[f].3, node_range(ns[f])))
    } else {
        None
    }
}

/// The context node `i` passes to its children, `found` symbols having been
/// found before it.
pub open spec fn child_ctx(ns: Seq<NodeView>, i: int, ctx: Ctx, found: nat) -> Ctx {
    let k = ns[i].0;
    let nm = field_child(ns, i, "name"@);
    if k == "impl_item"@ {
        (Some(impl_name(ns, i)), ctx.1, ctx.2)
    } else if k == "mod_item"@ && nm >= 0 {
        (
            ctx.0,
            ctx.1,
            Some(
                match ctx.2 {
                    Some(m) => m + "::"@ + ns[nm].3,
                    None => ns[nm].3,
                },
            ),
        )
    } else if k == "function_item"@ && nm >= 0 {
        (ctx.0, Some(found as usize), ctx.2)
    } else {
        ctx
    }
}

/// The context a node receives: its parent's, or the empty one for a root.
pub open spec fn ctx_for(ns: Seq<NodeView>, ctxs: Seq<Ctx>, i: int) -> Ctx {
    let p = parent_of(ns, i);
    if 0 <= p < ctxs.len() {
        ctxs[p]
    } else {
        (None, None, None)
    }
}

/// The symbols and call sites of the first `n` nodes, and the contexts they pass on.
pub open spec fn visit_state(ns: Seq<NodeView>, stem: Seq<char>, n: nat) -> (
    Seq<SymbolDesc>,
    Seq<SiteDesc>,
    Seq<Ctx>,
)
    decreases n,
{
    if n == 0 {
        (Seq::empty(), Seq::empty(), Seq::empty())
    } else {
        let (syms, sites, ctxs) = visit_state(ns, stem, (n - 1) as nat);
        let i = n - 1;
        let ctx = ctx_for(ns, ctxs, i);
        (
            match node_symbol(ns, stem, i, ctx) {
                Some(s) => syms.push(s),
                None => syms,
            },
            match node_site(ns, i, ctx) {
                Some(c) => sites.push(c),
                None => sites,
            },
            ctxs.push(child_ctx(ns, i, ctx, syms.len())),
        )
    }
}

/// The description of a symbol found in file `path`.
pub open spec fn symbol_desc(s: Symbol) -> SymbolDesc {
    (s.name@, s.qualified_name@, s.kind, s.range, s.body_range)
}

/// The description of a call site found in file `path`.
pub open spec fn site_desc(c: CallSite) -> SiteDesc {
    (c.from_temp_index, c.raw_name@, c.range)
}

/// A symbol as the parser records it in file `path`: no ids, Rust.
pub open spec fn parsed_symbol_ok(s: Symbol, path: Seq<char>) -> bool {
    &&& s.id is None
    &&& s.file_id is None
    &&& s.language.0@ == "rust"@
    &&& s.file@ == path
}

/// A call site as the parser records it in file `path`: no ids yet.
pub open spec fn parsed_site_ok(c: CallSite, path: Seq<char>) -> bool {
    &&& c.id is None
    &&& c.file_id is None
    &&& c.from is None
    &&& c.file@ == path
}

pub open spec fn ctx_view(c: (Option<String>, Option<usize>, Option<String>)) -> Ctx {
    (
        match c.0 {
            Some(s) => Some(s@),
            None => None,
        },
        c.1,
        match c.2 {
            Some(s) => Some(s@),
            None => None,
        },
    )
}

proof fn lemma_first_index(s: Seq<char>, c: char)
    ensures
        match first_index(s, c) {
            Some(i) => 0 <= i < s.len() && s[i] == c && forall|j: int| 0 <= j < i ==> s[j] != c,
            None => forall|j: int| 0 <= j < s.len() ==> s[j] != c,
        },
    decreases s.len(),
{
    if s.len() > 0 && s[0] != c {
        lemma_first_index(s.drop_first(), c);
        match first_index(s.drop_first(), c) {
            Some(i) => {
                assert forall|j: int| 0 <= j < i + 1 implies s[j] != c by {
                    if j > 0 {
                        assert(s[j] == s.drop_first()[j - 1]);
                    }
                }
            },
            None => {
                assert forall|j: int| 0 <= j < s.len() implies s[j] != c by {
                    if j > 0 {
                        assert(s[j] == s.drop_first()[j - 1]);
                    }
                }
            },
        }
    }
}

proof fn lemma_trim_start_skip(s: Seq<char>, i: int)
    requires
        0 <= i <= s.len(),
        forall|j: int| 0 <= j < i ==> char_is_space(s[j]),
    ensures
        trim_start(s) == trim_start(s.skip(i)),
    decreases i,
{
    if i > 0 {
        assert(s.drop_first().skip(i - 1) =~= s.skip(i));
        lemma_trim_start_skip(s.drop_first(), i - 1);
    } else {
        assert(s.skip(0) =~= s);
    }
}

proof fn lemma_trim_end_take(s: Seq<char>, i: int)
    requires
        0 <= i <= s.len(),
        forall|j: int| i <= j < s.len() ==> char_is_space(s[j]),
    ensures
        trim_end(s) == trim_end(s.take(i)),
    decreases s.len() - i,
{
    if i < s.len() {
        assert(s.drop_last().take(i) =~= s.take(i));
        lemma_trim_end_take(s.drop_last(), i);
    } else {
        assert(s.take(i) =~= s);
    }
}

/// The text without leading and trailing whitespace (see `trim`).
pub fn trim_text(s: &Vec<char>) -> (r: Vec<char>)
    ensures
        r@ == trim(s@),
{
    let mut a: usize = 0;
    while a < s.len() && is_space(s[a])
        invariant
            a <= s.len(),
            forall|j: int| 0 <= j < a ==> char_is_space(s@[j]),
        decreases s.len() - a,
    {
        a = a + 1;
    }
    proof {
        lemma_trim_start_skip(s@, a as int);
        if a < s.len() {
            assert(s@.skip(a as int)[0] == s@[a as int]);
        }
    }
    let t = crate::strings::chars_slice(s, a, s.len());
    assert(trim_start(s@) == t@);
    let mut b: usize = t.len();
    while b > 0 && is_space(t[b - 1])
        invariant
            b <= t.len(),
            forall|j: int| b <= j < t.len() ==> char_is_space(t@[j]),
        decreases b,
    {
        b = b - 1;
    }
    proof {
        lemma_trim_end_take(t@, b as int);
        if b > 0 {
            assert(t@.take(b as int).last() == t@[b - 1]);
        }
    }
    crate::strings::chars_slice(&t, 0, b)
}

/// A type's name without generic arguments, trimmed (see `clean_type`).
pub fn clean_type_name(s: &str) -> (r: String)
    ensures
        r@ == clean_type(s@),
{
    let v = chars_of(s);
    proof {
        lemma_first_index(s@, '<');
    }
    let mut i: usize = 0;
    while i < v.len() && v[i] != '<'
        invariant
            i <= v.len(),
            v@ == s@,
            forall|j: int| 0 <= j < i ==> v@[j] != '<',
        decreases v.len() - i,
    {
        i = i + 1;
    }
    let head = if i < v.len() {
        assert(first_index(s@, '<') == Some(i as int));
        crate::strings::chars_slice(&v, 0, i)
    } else {
        assert(first_index(s@, '<') is None);
        assert(v@.subrange(0, v.len() as int) =~= v@);
        crate::strings::chars_slice(&v, 0, v.len())
    };
    let r = trim_text(&head);
    string_from_chars(&r)
}

/// Whether an attribute mentioning `test` comes right before a node (see
/// `attributed_test`), starting from its previous sibling `p`.
fn has_test_attribute(ns: &Vec<SyntaxNode>, parents: &Vec<i64>, start: i64) -> (r: bool)
    requires
        ns.len() < i64::MAX,
        -1 <= start < ns.len(),
        parents.len() == ns.len(),
        forall|k: int| 0 <= k < ns.len() ==> #[trigger] parents@[k] == parent_of(nodes_view(ns@), k),
    ensures
        r == attributed_test(nodes_view(ns@), start as int),
{
    let ghost nv = nodes_view(ns@);
    let mut p = start;
    while p >= 0
        invariant
            -1 <= p < ns.len() < i64::MAX,
            nv == nodes_view(ns@),
            parents.len() == ns.len(),
            forall|k: int| 0 <= k < ns.len() ==> #[trigger] parents@[k] == parent_of(nv, k),
            attributed_test(nv, start as int) == attributed_test(nv, p as int),
        decreases p + 1,
    {
        proof {
            lemma_nearest_at_most_range(nv, p as int, nv[p as int].2);
        }
        let k = ns[p as usize].0.as_str();
        assert(nv[p as int].0 == k@);
        let text = &ns[p as usize].3;
        assert(nv[p as int].3 == text@);
        if str_eq(k, "attribute_item") {
            let tv = chars_of(text.as_str());
            let needle = chars_of("test");
            if chars_contains(&tv, &needle) {
                return true;
            }
            p = prev_sibling(ns, parents, p as usize);
        } else if str_eq(k, "line_comment") || str_eq(k, "block_comment") {
            p = prev_sibling(ns, parents, p as usize);
        } else {
            return false;
        }
    }
    false
}

fn inc_exec(x: usize) -> (r: usize)
    ensures
        r == inc(x),
{
    if x < usize::MAX {
        x + 1
    } else {
        0
    }
}

fn range_of(n: &SyntaxNode) -> (r: TextRange)
    ensures
        r == node_range(crate::rust_syntax::node_view(*n)),
{
    TextRange {
        start_line: inc_exec(n.4.0),
        start_col: inc_exec(n.4.1),
        end_line: inc_exec(n.4.2),
        end_col: inc_exec(n.4.3),
    }
}

fn copy_opt(o: &Option<String>) -> (r: Option<String>)
    ensures
        r == *o,
{
    crate::model::copy_opt_string(o)
}

/// The name of the impl block at node `i` (see `impl_name`).
fn impl_name_of(ns: &Vec<SyntaxNode>, parents: &Vec<i64>, i: usize) -> (r: String)
    requires
        i < ns.len() < i64::MAX,
        parents.len() == ns.len(),
        forall|k: int| 0 <= k < ns.len() ==> #[trigger] parents@[k] == parent_of(nodes_view(ns@), k),
    ensures
        r@ == impl_name(nodes_view(ns@), i as int),
{
    let ghost nv = nodes_view(ns@);
    let t = find_field_child(ns, parents, i, "type");
    let tr = find_field_child(ns, parents, i, "trait");
    if t >= 0 {
        assert(nv[t as int].3 == ns@[t as int].3@);
        let tt = clean_type_name(ns[t as usize].3.as_str());
        if tr >= 0 {
            assert(nv[tr as int].3 == ns@[tr as int].3@);
            let trt = clean_type_name(ns[tr as usize].3.as_str());
            let mut v = chars_of(tt.as_str());
            extend_str(&mut v, " as ");
            extend_str(&mut v, trt.as_str());
            string_from_chars(&v)
        } else {
            tt
        }
    } else {
        owned("impl")
    }
}

/// The runtime form of a context.
pub type CtxValue = (Option<String>, Option<usize>, Option<String>);

fn copy_ctx(c: &CtxValue) -> (r: CtxValue)
    ensures
        r == *c,
{
    (copy_opt(&c.0), c.1, copy_opt(&c.2))
}

fn qualified(prefix_stem: &str, mods: &Option<String>, name: &str) -> (r: String)
    ensures
        r@ == item_prefix(prefix_stem@, ctx_view((None, None, *mods)).2) + "::"@ + name@,
{
    let mut v = chars_of(prefix_stem);
    match mods {
        Some(m) => {
            extend_str(&mut v, "::");
            extend_str(&mut v, m.as_str());
        },
        None => {},
    }
    extend_str(&mut v, "::");
    extend_str(&mut v, name);
    string_from_chars(&v)
}

fn new_symbol(name: String, qn: String, kind: SymbolKind, path: &str, range: TextRange, body: Option<TextRange>) -> (s: Symbol)
    ensures
        symbol_desc(s) == (name@, qn@, kind, range, body),
        parsed_symbol_ok(s, path@),
{
    Symbol {
        id: None,
        file_id: None,
        name,
        qualified_name: qn,
        kind,
        language: Language::rust(),
        file: owned(path),
        range,
        body_range: body,
    }
}

proof fn lemma_kinds_distinct()
    ensures
        "impl_item"@ != "call_expression"@,
        "mod_item"@ != "call_expression"@,
        "struct_item"@ != "call_expression"@,
        "enum_item"@ != "call_expression"@,
        "trait_item"@ != "call_expression"@,
        "function_item"@ != "call_expression"@,
        "impl_item"@ != "mod_item"@ && "impl_item"@ != "struct_item"@ && "impl_item"@ != "enum_item"@
            && "impl_item"@ != "trait_item"@ && "impl_item"@ != "function_item"@,
        "function_item"@ != "mod_item"@ && "function_item"@ != "struct_item"@ && "function_item"@
            != "enum_item"@ && "function_item"@ != "trait_item"@,
        "call_expression"@ != "function_item"@,
        "mod_item"@ != "struct_item"@ && "mod_item"@ != "enum_item"@ && "mod_item"@ != "trait_item"@,
        "struct_item"@ != "enum_item"@ && "struct_item"@ != "trait_item"@,
        "enum_item"@ != "trait_item"@,
{
    reveal_strlit("impl_item");
    reveal_strlit("call_expression");
    reveal_strlit("mod_item");
    reveal_strlit("struct_item");
    reveal_strlit("enum_item");
    reveal_strlit("trait_item");
    reveal_strlit("function_item");
    assert("impl_item"@.len() == 9 && "enum_item"@.len() == 9);
    assert("call_expression"@.len() == 15 && "mod_item"@.len() == 8);
    assert("struct_item"@.len() == 11 && "trait_item"@.len() == 10);
    assert("function_item"@.len() == 13);
    assert("impl_item"@[0] == 'i' && "enum_item"@[0] == 'e');
}

/// A module, struct, enum or trait item with a name declares a symbol of that
/// name and of its own kind: `mod_item` a module, `struct_item` a struct,
/// `enum_item` an enum and `trait_item` a trait; so items of different node
/// kinds never declare symbols of the same kind.
pub proof fn law_named_items_keep_their_kind(ns: Seq<NodeView>, stem: Seq<char>, i: int, ctx: Ctx)
    requires
        0 <= i < ns.len(),
        field_child(ns, i, "name"@) >= 0,
    ensures
        ns[i].0 == "mod_item"@ ==> (node_symbol(ns, stem, i, ctx) matches Some(d) && d.2 == SymbolKind::Module
            && d.0 == ns[field_child(ns, i, "name"@)].3),
        ns[i].0 == "struct_item"@ ==> (node_symbol(ns, stem, i, ctx) matches Some(d) && d.2 == SymbolKind::Struct
            && d.0 == ns[field_child(ns, i, "name"@)].3),
        ns[i].0 == "enum_item"@ ==> (node_symbol(ns, stem, i, ctx) matches Some(d) && d.2 == SymbolKind::Enum
            && d.0 == ns[field_child(ns, i, "name"@)].3),
        ns[i].0 == "trait_item"@ ==> (node_symbol(ns, stem, i, ctx) matches Some(d) && d.2 == SymbolKind::Trait
            && d.0 == ns[field_child(ns, i, "name"@)].3),
{
    lemma_kinds_distinct();
}

/// A named function declares a test when an attribute before it mentions
/// `test`; otherwise a method inside an impl block, qualified by the impl's name;
/// otherwise a plain function. An impl block declares an impl. Nothing else but
/// these items and the named modules, structs, enums and traits declares a
/// symbol.
pub proof fn law_functions_and_impls(ns: Seq<NodeView>, stem: Seq<char>, i: int, ctx: Ctx)
    requires
        0 <= i < ns.len(),
    ensures
        ns[i].0 == "impl_item"@ ==> (node_symbol(ns, stem, i, ctx) matches Some(d) && d.2 == SymbolKind::Impl),
        ns[i].0 == "function_item"@ && field_child(ns, i, "name"@) >= 0 ==> (node_symbol(ns, stem, i, ctx) matches Some(
            d,
        ) && d.0 == ns[field_child(ns, i, "name"@)].3 && d.2 == (if attributed_test(ns, prev_sibling_of(ns, i)) {
            SymbolKind::Test
        } else if ctx.0 is Some {
            SymbolKind::Method
        } else {
            SymbolKind::Function
        }) && (ctx.0 matches Some(im) ==> d.1 == im + "::"@ + ns[field_child(ns, i, "name"@)].3)),
        ns[i].0 != "impl_item"@ && ns[i].0 != "function_item"@ && ns[i].0 != "mod_item"@ && ns[i].0 != "struct_item"@
            && ns[i].0 != "enum_item"@ && ns[i].0 != "trait_item"@ ==> node_symbol(ns, stem, i, ctx) is None,
{
    lemma_kinds_distinct();
}

/// What node `i` yields in context `ctx`, `found` symbols having been found
/// before it: its symbol, its call site, and the context its children receive.
fn visit_node(
    ns: &Vec<SyntaxNode>,
    parents: &Vec<i64>,
    stem: &str,
    path: &str,
    i: usize,
    ctx: &CtxValue,
    found: usize,
) -> (r: (Option<Symbol>, Option<CallSite>, CtxValue))
    requires
        i < ns.len() < i64::MAX,
        parents.len() == ns.len(),
        forall|k: int| 0 <= k < ns.len() ==> #[trigger] parents@[k] == parent_of(nodes_view(ns@), k),
    ensures
        match r.0 {
            Some(s) => node_symbol(nodes_view(ns@), stem@, i as int, ctx_view(*ctx)) == Some(
                symbol_desc(s),
            ) && parsed_symbol_ok(s, path@),
            None => node_symbol(nodes_view(ns@), stem@, i as int, ctx_view(*ctx)) is None,
        },
        match r.1 {
            Some(c) => node_site(nodes_view(ns@), i as int, ctx_view(*ctx)) == Some(site_desc(c))
                && parsed_site_ok(c, path@),
            None => node_site(nodes_view(ns@), i as int, ctx_view(*ctx)) is None,
        },
        ctx_view(r.2) == child_ctx(nodes_view(ns@), i as int, ctx_view(*ctx), found as nat),
{
    let ghost nv = nodes_view(ns@);
    let ghost cv = ctx_view(*ctx);
    proof {
        lemma_kinds_distinct();
    }
    let k = ns[i].0.as_str();
    assert(nv[i as int].0 == k@);
    let range = range_of(&ns[i]);
    assert(range == node_range(nv[i as int]));
    let nm = find_field_child(ns, parents, i, "name");
    if str_eq(k, "impl_item") {
        let name = impl_name_of(ns, parents, i);
        let sym = new_symbol(name.clone(), name.clone(), SymbolKind::Impl, path, range, None);
        return (Some(sym), None, (Some(name), ctx.1, copy_opt(&ctx.2)));
    }
    let named = str_eq(k, "mod_item") || str_eq(k, "struct_item") || str_eq(k, "enum_item")
        || str_eq(k, "trait_item");
    if named && nm >= 0 {
        assert(nv[nm as int].3 == ns@[nm as int].3@);
        let name = ns[nm as usize].3.clone();
        let qn = qualified(stem, &ctx.2, name.as_str());
        let kind = if str_eq(k, "mod_item") {
            SymbolKind::Module
        } else if str_eq(k, "struct_item") {
            SymbolKind::Struct
        } else if str_eq(k, "enum_item") {
            SymbolKind::Enum
        } else {
            SymbolKind::Trait
        };
        let next = if str_eq(k, "mod_item") {
            let mods = match &ctx.2 {
                Some(m) => {
                    let mut v = chars_of(m.as_str());
                    extend_str(&mut v, "::");
                    extend_str(&mut v, name.as_str());
                    string_from_chars(&v)
                },
                None => name.clone(),
            };
            (copy_opt(&ctx.0), ctx.1, Some(mods))
        } else {
            copy_ctx(ctx)
        };
        let sym = new_symbol(name, qn, kind, path, range, None);
        return (Some(sym), None, next);
    }
    if str_eq(k, "function_item") && nm >= 0 {
        assert(nv[nm as int].3 == ns@[nm as int].3@);
        let name = ns[nm as usize].3.clone();
        let prev = prev_sibling(ns, parents, i);
        proof {
            lemma_nearest_at_most_range(nv, i as int, nv[i as int].2);
        }
        let is_test = has_test_attribute(ns, parents, prev);
        let kind = if is_test {
            SymbolKind::Test
        } else if ctx.0.is_some() {
            SymbolKind::Method
        } else {
            SymbolKind::Function
        };
        let qn = match &ctx.0 {
            Some(im) => {
                let mut v = chars_of(im.as_str());
                extend_str(&mut v, "::");
                extend_str(&mut v, name.as_str());
                string_from_chars(&v)
            },
            None => qualified(stem, &ctx.2, name.as_str()),
        };
        let b = find_field_child(ns, parents, i, "body");
        let body = if b >= 0 {
            Some(range_of(&ns[b as usize]))
        } else {
            None
        };
        let sym = new_symbol(name, qn, kind, path, range, body);
        return (Some(sym), None, (copy_opt(&ctx.0), Some(found), copy_opt(&ctx.2)));
    }
    if str_eq(k, "call_expression") {
        let f = find_field_child(ns, parents, i, "function");
        if f >= 0 {
            assert(nv[f as int].3 == ns@[f as int].3@);
            let site = CallSite {
                id: None,
                file_id: None,
                from: None,
                from_temp_index: ctx.1,
                raw_name: ns[f as usize].3.clone(),
                file: owned(path),
                range: range_of(&ns[f as usize]),
            };
            return (None, Some(site), copy_ctx(ctx));
        }
    }
    (None, None, copy_ctx(ctx))
}

/// The symbols and call sites of all nodes, visited in order (see `visit_state`).
pub fn visit_nodes(ns: &Vec<SyntaxNode>, stem: &str, path: &str) -> (r: (Vec<Symbol>, Vec<CallSite>))
    requires
        ns.len() < i64::MAX,
    ensures
        r.0@.map_values(|s: Symbol| symbol_desc(s)) == visit_state(nodes_view(ns@), stem@, ns.len() as nat).0,
        r.1@.map_values(|c: CallSite| site_desc(c)) == visit_state(nodes_view(ns@), stem@, ns.len() as nat).1,
        forall|k: int| 0 <= k < r.0@.len() ==> parsed_symbol_ok(#[trigger] r.0@[k], path@),
        forall|k: int| 0 <= k < r.1@.len() ==> parsed_site_ok(#[trigger] r.1@[k], path@),
{
    let ghost nv = nodes_view(ns@);
    let ps = parents(ns);
    let mut syms: Vec<Symbol> = Vec::new();
    let mut sites: Vec<CallSite> = Vec::new();
    let mut ctxs: Vec<CtxValue> = Vec::new();
    let mut i: usize = 0;
    while i < ns.len()
        invariant
            i <= ns.len() < i64::MAX,
            nv == nodes_view(ns@),
            ps.len() == ns.len(),
            forall|k: int| 0 <= k < ns.len() ==> #[trigger] ps@[k] == parent_of(nv, k),
            ctxs.len() == i,
            syms@.map_values(|s: Symbol| symbol_desc(s)) == visit_state(nv, stem@, i as nat).0,
            sites@.map_values(|c: CallSite| site_desc(c)) == visit_state(nv, stem@, i as nat).1,
            ctxs@.map_values(|c: CtxValue| ctx_view(c)) == visit_state(nv, stem@, i as nat).2,
            forall|k: int| 0 <= k < syms@.len() ==> parsed_symbol_ok(#[trigger] syms@[k], path@),
            forall|k: int| 0 <= k < sites@.len() ==> parsed_site_ok(#[trigger] sites@[k], path@),
        decreases ns.len() - i,
    {
        let ghost st = visit_state(nv, stem@, i as nat);
        let p = ps[i];
        proof {
            crate::rust_syntax::lemma_nearest_below_range(nv, i as int, nv[i as int].2);
        }
        let ctx = if p >= 0 {
            copy_ctx(&ctxs[p as usize])
        } else {
            (None, None, None)
        };
        assert(ctx_view(ctx) == ctx_for(nv, st.2, i as int));
        let found = syms.len();
        assert(found == st.0.len());
        let (sym, site, next) = visit_node(ns, &ps, stem, path, i, &ctx, found);
        let ghost s0 = syms@;
        let ghost c0 = sites@;
        let ghost x0 = ctxs@;
        match sym {
            Some(sy) => {
                syms.push(sy);
            },
            None => {},
        }
        match site {
            Some(si) => {
                sites.push(si);
            },
            None => {},
        }
        ctxs.push(next);
        proof {
            let st2 = visit_state(nv, stem@, (i + 1) as nat);
            assert(syms@.map_values(|s: Symbol| symbol_desc(s)) =~= st2.0);
            assert(sites@.map_values(|c: CallSite| site_desc(c)) =~= st2.1);
            assert(ctxs@.map_values(|c: CtxValue| ctx_view(c)) =~= st2.2);
        }
        i = i + 1;
    }
    (syms, sites)
}

/// The stem of a file's name, or `mod`.
pub open spec fn stem_or_mod(path: Seq<char>) -> Seq<char> {
    match file_stem_of(path) {
        Some(s) => s,
        None => "mod"@,
    }
}

/// What parsing a file at `path` gives for a syntax outcome: a failure when
/// there is no tree ("Failed to parse") or the tree holds a syntax error ("Syntax
/// error in"); else the symbols and call sites of its nodes (see `visit_state`),
/// the file stem starting every qualified name outside impl blocks.
pub open spec fn parse_outcome_ok(
    path: Seq<char>,
    o: Option<(bool, Seq<NodeView>)>,
    r: Result<(Vec<Symbol>, Vec<CallSite>), String>,
) -> bool {
    match o {
        None => r matches Err(e) && e@ == "Failed to parse "@ + path,
        Some((err, nv)) => if err {
            r matches Err(e) && e@ == "Syntax error in "@ + path
        } else if nv.len() >= i64::MAX {
            r matches Err(e) && e@ == "Failed to parse "@ + path
        } else {
            r matches Ok((syms, sites)) && {
                &&& syms@.map_values(|s: Symbol| symbol_desc(s)) == visit_state(
                    nv,
                    stem_or_mod(path),
                    nv.len(),
                ).0
                &&& sites@.map_values(|c: CallSite| site_desc(c)) == visit_state(
                    nv,
                    stem_or_mod(path),
                    nv.len(),
                ).1
                &&& forall|k: int| 0 <= k < syms@.len() ==> parsed_symbol_ok(#[trigger] syms@[k], path)
                &&& forall|k: int| 0 <= k < sites@.len() ==> parsed_site_ok(#[trigger] sites@[k], path)
            }
        },
    }
}

/// The symbols and call sites of a file at `path` from its syntax outcome.
pub fn symbols_from_syntax(path: &str, o: Option<(bool, Vec<SyntaxNode>)>) -> (r: Result<
    (Vec<Symbol>, Vec<CallSite>),
    String,
>)
    ensures
        parse_outcome_ok(path@, outcome_view(o), r),
{
    match o {
        None => {
            let mut v = chars_of("Failed to parse ");
            extend_str(&mut v, path);
            Err(string_from_chars(&v))
        },
        Some((err, ns)) => {
            if err {
                let mut v = chars_of("Syntax error in ");
                extend_str(&mut v, path);
                return Err(string_from_chars(&v));
            }
            // a node list this long cannot exist
            if ns.len() as u64 >= 0x7fff_ffff_ffff_ffffu64 {
                let mut v = chars_of("Failed to parse ");
                extend_str(&mut v, path);
                return Err(string_from_chars(&v));
            }
            let stem = match path_file_stem(path) {
                Some(s) => s,
                None => owned("mod"),
            };
            Ok(visit_nodes(&ns, stem.as_str(), path))
        },
    }
}

/// Parses a Rust source file's text with tree-sitter and takes its symbols and
/// call sites from the tree (see `symbols_from_syntax` and `rust_syntax_of`).
pub fn parse_rust_source(path: &str, source: &str) -> (r: Result<(Vec<Symbol>, Vec<CallSite>), String>)
    ensures
        parse_outcome_ok(path@, rust_syntax_of(source@), r),
{
    let o = parse_rust_syntax(source);
    symbols_from_syntax(path, o)
}

} // verus!
