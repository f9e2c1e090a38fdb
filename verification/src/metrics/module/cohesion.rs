//! Module Cohesion (MC): pairs of exports of a module that use a common import.
//!
//! An export (an exported function, or an exported variable with a value) uses an
//! import source when an identifier in its body, other than the names the export
//! itself declares, is bound by an import from that source.  MC is the share of
//! export pairs with a source in common (1 with fewer than two exports) and is
//! computed by the application from the counts.
use crate::strset::{add_unique, count_connected_pairs, linked_from, pairs_fit, views};
use crate::syntax::{names, SyntaxTree};
use crate::walk::{find_all, union_over, lemma_union_over_step, WalkPlan};
use vstd::prelude::*;

verus! {

/// `c` is a quote character stripped from import sources.
pub open spec fn is_quote(c: char) -> bool {
    c == '"' || c == '\''
}

/// Index of the first non-quote character of `s[p..e)`, or `e`.
pub open spec fn first_non_quote(s: Seq<char>, p: int, e: int) -> int
    decreases e - p,
{
    if p >= e {
        e
    } else if !is_quote(s[p]) {
        p
    } else {
        first_non_quote(s, p + 1, e)
    }
}

/// One past the last non-quote character of `s[p..e)`, or `p`.
pub open spec fn last_non_quote_end(s: Seq<char>, p: int, e: int) -> int
    decreases e - p,
{
    if e <= p {
        p
    } else if !is_quote(s[e - 1]) {
        e
    } else {
        last_non_quote_end(s, p, e - 1)
    }
}

/// `s` without its leading and trailing quote characters.
pub open spec fn strip_quotes(s: Seq<char>) -> Seq<char> {
    let a = first_non_quote(s, 0, s.len() as int);
    s.subrange(a, last_non_quote_end(s, a, s.len() as int))
}

/// `text` without its leading and trailing quote characters.
pub fn strip_quotes_of(text: &str) -> (r: String)
    ensures
        r@ == strip_quotes(text@),
{
    let cs = crate::text::chars_of(text);
    let n = cs.len();
    let mut a: usize = 0;
    while a < n && (cs[a] == '"' || cs[a] == '\'')
        invariant
            n == cs@.len(),
            cs@ == text@,
            a <= n,
            first_non_quote(text@, a as int, n as int) == first_non_quote(text@, 0, n as int),
        decreases n - a,
    {
        a = a + 1;
    }
    let mut b: usize = n;
    while b > a && (cs[b - 1] == '"' || cs[b - 1] == '\'')
        invariant
            n == cs@.len(),
            cs@ == text@,
            a <= b <= n,
            last_non_quote_end(text@, a as int, b as int) == last_non_quote_end(text@, a as int, n as int),
        decreases b,
    {
        b = b - 1;
    }
    let mut out = String::new();
    let mut i = a;
    while i < b
        invariant
            a <= i <= b <= n,
            n == cs@.len(),
            out@ == cs@.subrange(a as int, i as int),
        decreases b - i,
    {
        crate::text::push_char(&mut out, cs[i]);
        i = i + 1;
        proof {
            assert(out@ =~= cs@.subrange(a as int, i as int));
        }
    }
    proof {
        assert(cs@ == text@);
    }
    out
}

/// The top-level children of the root with kind `k`.
pub open spec fn top_level(t: SyntaxTree, k: Seq<char>) -> Seq<usize> {
    crate::walk::select_where(t.children(0), |c: usize| t.kind(c as int) == k)
}

/// The source of import statement `imp`: its first `string` child, quotes stripped.
pub open spec fn import_source(t: SyntaxTree, imp: int) -> Option<Seq<char>> {
    match t.first_child_of_kind(imp, "string"@) {
        Some(s) => Some(strip_quotes(t.text(s as int))),
        None => None,
    }
}

/// Texts of the `identifier` children of `n`.
pub open spec fn identifier_children(t: SyntaxTree, n: int) -> Set<Seq<char>> {
    union_over(t.children(n), |c: usize| if t.kind(c as int) == "identifier"@ { set![t.text(c as int)] } else { Set::empty() })
}

/// Local names bound by the specifiers of a `named_imports` node.
pub open spec fn named_import_names(t: SyntaxTree, n: int) -> Set<Seq<char>> {
    union_over(
        t.children(n),
        |c: usize|
            if t.kind(c as int) == "import_specifier"@ {
                match t.child_by_field(c as int, "alias"@) {
                    Some(a) => set![t.text(a as int)],
                    None => match t.child_by_field(c as int, "name"@) {
                        Some(m) => set![t.text(m as int)],
                        None => Set::empty(),
                    },
                }
            } else {
                Set::empty()
            },
    )
}

/// Names bound by one child of an `import_clause`.
pub open spec fn clause_part_names(t: SyntaxTree, c: int) -> Set<Seq<char>> {
    if t.kind(c) == "identifier"@ {
        set![t.text(c)]
    } else if t.kind(c) == "named_imports"@ {
        named_import_names(t, c)
    } else if t.kind(c) == "namespace_import"@ {
        identifier_children(t, c)
    } else {
        Set::empty()
    }
}

/// Names bound by one child of an import statement.
pub open spec fn import_part_names(t: SyntaxTree, c: int) -> Set<Seq<char>> {
    if t.kind(c) == "identifier"@ {
        set![t.text(c)]
    } else if t.kind(c) == "import_clause"@ {
        union_over(t.children(c), |d: usize| clause_part_names(t, d as int))
    } else if t.kind(c) == "namespace_import"@ {
        identifier_children(t, c)
    } else {
        Set::empty()
    }
}

/// Names bound by import statement `imp`.
pub open spec fn import_bound_names(t: SyntaxTree, imp: int) -> Set<Seq<char>> {
    union_over(t.children(imp), |c: usize| import_part_names(t, c as int))
}

/// The import sources that bind `name`.
pub open spec fn sources_for(t: SyntaxTree, name: Seq<char>) -> Set<Seq<char>> {
    union_over(
        top_level(t, "import_statement"@),
        |i: usize|
            match import_source(t, i as int) {
                Some(s) => if import_bound_names(t, i as int).contains(name) { set![s] } else { Set::empty() },
                None => Set::empty(),
            },
    )
}

/// Names bound by a binding pattern: an identifier, or the identifiers found by
/// descending through object and array patterns.
pub open spec fn binding_names(t: SyntaxTree, n: int) -> Set<Seq<char>>
    decreases t.len() - n, 0int,
{
    if 0 <= n < t.len() {
        if t.kind(n) == "identifier"@ {
            set![t.text(n)]
        } else if t.kind(n) == "object_pattern"@ || t.kind(n) == "array_pattern"@ {
            binding_names_chain(t, n + 1, t.end(n))
        } else {
            Set::empty()
        }
    } else {
        Set::empty()
    }
}

pub open spec fn binding_names_chain(t: SyntaxTree, c: int, e: int) -> Set<Seq<char>>
    decreases t.len() - c, 1int,
{
    if t.chain_ok(c, e) {
        binding_names(t, c).union(binding_names_chain(t, t.end(c), e))
    } else {
        Set::empty()
    }
}

/// An export: the node whose identifiers are looked at, and the names it declares.
pub type ExportSpec = (usize, Set<Seq<char>>);

/// Exports made by the declarators from position `c` on of a variable declaration.
pub open spec fn declarator_exports(t: SyntaxTree, c: int, e: int) -> Seq<ExportSpec>
    decreases e - c,
{
    if t.chain_ok(c, e) {
        (if t.kind(c) == "variable_declarator"@ {
            match t.child_by_field(c, "value"@) {
                Some(v) => seq![
                    (
                        v,
                        match t.child_by_field(c, "name"@) {
                            Some(n) => binding_names(t, n as int),
                            None => Set::empty(),
                        },
                    ),
                ],
                None => seq![],
            }
        } else {
            seq![]
        }) + declarator_exports(t, t.end(c), e)
    } else {
        seq![]
    }
}

/// Exports made by the children from position `c` on of an export statement.
pub open spec fn statement_exports(t: SyntaxTree, c: int, e: int) -> Seq<ExportSpec>
    decreases e - c,
{
    if t.chain_ok(c, e) {
        (if t.kind(c) == "function_declaration"@ || t.kind(c) == "generator_function_declaration"@ {
            let name = match t.child_by_field(c, "name"@) {
                Some(n) => t.text(n as int),
                None => seq![],
            };
            seq![(c as usize, if name.len() > 0 { set![name] } else { Set::empty() })]
        } else if t.kind(c) == "lexical_declaration"@ || t.kind(c) == "variable_declaration"@ {
            declarator_exports(t, c + 1, t.end(c))
        } else {
            seq![]
        }) + statement_exports(t, t.end(c), e)
    } else {
        seq![]
    }
}

/// Exports made by the top-level children from position `c` on.
pub open spec fn module_exports_from(t: SyntaxTree, c: int, e: int) -> Seq<ExportSpec>
    decreases e - c,
{
    if t.chain_ok(c, e) {
        (if t.kind(c) == "export_statement"@ {
            statement_exports(t, c + 1, t.end(c))
        } else {
            seq![]
        }) + module_exports_from(t, t.end(c), e)
    } else {
        seq![]
    }
}

/// The exports of the module, in order.
pub open spec fn module_exports(t: SyntaxTree) -> Seq<ExportSpec> {
    module_exports_from(t, 1, t.end(0))
}

/// Identifier nodes in the subtree of `n`.
pub open spec fn identifiers_in(t: SyntaxTree, n: int) -> Seq<usize> {
    t.walk_node(n, 0, find_all(seq!["identifier"@]))
}

/// The import sources that identifier node `j` brings in, unless the export declares it.
pub open spec fn used_sources(t: SyntaxTree, declared: Set<Seq<char>>) -> spec_fn(usize) -> Set<Seq<char>> {
    |j: usize| if declared.contains(t.text(j as int)) { Set::empty() } else { sources_for(t, t.text(j as int)) }
}

/// The import sources export `x` uses.
pub open spec fn export_sources(t: SyntaxTree, x: ExportSpec) -> Set<Seq<char>> {
    union_over(identifiers_in(t, x.0 as int), used_sources(t, x.1))
}

/// Module cohesion counts.
#[derive(Debug, Clone, Copy, PartialEq, Eq)]
pub struct ModuleCohesion {
    /// Total number of exported functions/consts considered.
    pub export_count: usize,
    /// Number of export pairs that share at least one import source.
    pub connected_pairs: usize,
    /// Total number of export pairs: export_count * (export_count - 1) / 2.
    pub total_pairs: usize,
}

/// `r` holds the cohesion counts of the module of `t`.
pub open spec fn cohesion_of(t: SyntaxTree, r: ModuleCohesion) -> bool {
    let xs = module_exports(t);
    let n = xs.len();
    &&& r.export_count == n
    &&& r.total_pairs == n * (n - 1) / 2
    &&& r.connected_pairs == linked_from(xs.map_values(|x: ExportSpec| export_sources(t, x)), 0)
}

// ── executable part ─────────────────────────────────────────────────────

/// Add to `acc` the texts of the children of `n` for which `pick` gives a name.
fn identifier_children_into(t: &SyntaxTree, n: usize, acc: &mut Vec<String>)
    requires
        t.wf(),
        n < t.len(),
        views(old(acc)@).no_duplicates(),
    ensures
        views(final(acc)@).no_duplicates(),
        views(final(acc)@).to_set() == views(old(acc)@).to_set().union(identifier_children(*t, n as int)),
{
    let kids = t.children_of(n);
    proof {
        t.lemma_children_bounds(n as int);
    }
    let ghost f = |c: usize| if t.kind(c as int) == "identifier"@ { set![t.text(c as int)] } else { Set::<Seq<char>>::empty() };
    let ghost a0 = views(acc@).to_set();
    let mut x: usize = 0;
    while x < kids.len()
        invariant
            t.wf(),
            n < t.len(),
            kids@ == t.children(n as int),
            forall|y: int| 0 <= y < kids@.len() ==> n < #[trigger] kids@[y] < t.end(n as int),
            t.end(n as int) <= t.len(),
            f == (|c: usize| if t.kind(c as int) == "identifier"@ { set![t.text(c as int)] } else { Set::<Seq<char>>::empty() }),
            x <= kids@.len(),
            views(acc@).no_duplicates(),
            views(acc@).to_set() == a0.union(union_over(kids@.take(x as int), f)),
        decreases kids.len() - x,
    {
        let c = kids[x];
        proof {
            lemma_union_over_step(kids@, x as int, f);
        }
        if t.is_kind(c, "identifier") {
            add_unique(acc, t.text_of(c));
        }
        proof {
            assert(views(acc@).to_set() =~= a0.union(union_over(kids@.take(x + 1), f)));
        }
        x = x + 1;
    }
    proof {
        assert(kids@.take(kids@.len() as int) =~= kids@);
        assert(identifier_children(*t, n as int) == union_over(kids@, f));
    }
}

fn named_imports_into(t: &SyntaxTree, n: usize, acc: &mut Vec<String>)
    requires
        t.wf(),
        n < t.len(),
        views(old(acc)@).no_duplicates(),
    ensures
        views(final(acc)@).no_duplicates(),
        views(final(acc)@).to_set() == views(old(acc)@).to_set().union(named_import_names(*t, n as int)),
{
    let kids = t.children_of(n);
    proof {
        t.lemma_children_bounds(n as int);
    }
    let ghost f = |c: usize|
        if t.kind(c as int) == "import_specifier"@ {
            match t.child_by_field(c as int, "alias"@) {
                Some(a) => set![t.text(a as int)],
                None => match t.child_by_field(c as int, "name"@) {
                    Some(m) => set![t.text(m as int)],
                    None => Set::<Seq<char>>::empty(),
                },
            }
        } else {
            Set::<Seq<char>>::empty()
        };
    proof {
        assert(named_import_names(*t, n as int) == union_over(kids@, f));
    }
    let ghost a0 = views(acc@).to_set();
    let mut x: usize = 0;
    while x < kids.len()
        invariant
            t.wf(),
            n < t.len(),
            kids@ == t.children(n as int),
            forall|y: int| 0 <= y < kids@.len() ==> n < #[trigger] kids@[y] < t.end(n as int),
            t.end(n as int) <= t.len(),
            f == (|c: usize|
                if t.kind(c as int) == "import_specifier"@ {
                    match t.child_by_field(c as int, "alias"@) {
                        Some(a) => set![t.text(a as int)],
                        None => match t.child_by_field(c as int, "name"@) {
                            Some(m) => set![t.text(m as int)],
                            None => Set::<Seq<char>>::empty(),
                        },
                    }
                } else {
                    Set::<Seq<char>>::empty()
                }),
            x <= kids@.len(),
            views(acc@).no_duplicates(),
            views(acc@).to_set() == a0.union(union_over(kids@.take(x as int), f)),
        decreases kids.len() - x,
    {
        let c = kids[x];
        proof {
            lemma_union_over_step(kids@, x as int, f);
        }
        if t.is_kind(c, "import_specifier") {
            let local = match t.child_by_field_name(c, "alias") {
                Some(a) => Some(a),
                None => t.child_by_field_name(c, "name"),
            };
            let ghost before = views(acc@).to_set();
            match local {
                Some(id) => {
                    proof {
                        assert(id < t.end(c as int) <= t.len());
                    }
                    add_unique(acc, t.text_of(id));
                    proof {
                        assert(f(c) == set![t.text(id as int)]);
                        assert(before.insert(t.text(id as int)) =~= before.union(set![t.text(id as int)]));
                    }
                },
                None => {
                    proof {
                        assert(f(c) == Set::<Seq<char>>::empty());
                        assert(before.union(Set::empty()) =~= before);
                    }
                },
            }
        }
        proof {
            assert(views(acc@).to_set() =~= a0.union(union_over(kids@.take(x + 1), f)));
        }
        x = x + 1;
    }
    proof {
        assert(kids@.take(kids@.len() as int) =~= kids@);
    }
}

fn part_names_into(t: &SyntaxTree, c: usize, in_clause: bool, acc: &mut Vec<String>)
    requires
        t.wf(),
        c < t.len(),
        views(old(acc)@).no_duplicates(),
    ensures
        views(final(acc)@).no_duplicates(),
        views(final(acc)@).to_set() == views(old(acc)@).to_set().union(
            if in_clause { clause_part_names(*t, c as int) } else { import_part_names(*t, c as int) },
        ),
    decreases (if in_clause { 0int } else { 1int }),
{
    let ghost a0 = views(acc@).to_set();
    if t.is_kind(c, "identifier") {
        add_unique(acc, t.text_of(c));
        proof {
            assert(set![t.text(c as int)] =~= Set::<Seq<char>>::empty().insert(t.text(c as int)));
            assert(a0.insert(t.text(c as int)) =~= a0.union(set![t.text(c as int)]));
        }
    } else if in_clause && t.is_kind(c, "named_imports") {
        named_imports_into(t, c, acc);
    } else if !in_clause && t.is_kind(c, "import_clause") {
        let kids = t.children_of(c);
        proof {
            t.lemma_children_bounds(c as int);
        }
        let ghost f = |d: usize| clause_part_names(*t, d as int);
        let mut x: usize = 0;
        while x < kids.len()
            invariant
                t.wf(),
                c < t.len(),
                !in_clause,
                kids@ == t.children(c as int),
                forall|y: int| 0 <= y < kids@.len() ==> c < #[trigger] kids@[y] < t.end(c as int),
                t.end(c as int) <= t.len(),
                f == (|d: usize| clause_part_names(*t, d as int)),
                x <= kids@.len(),
                views(acc@).no_duplicates(),
                views(acc@).to_set() == a0.union(union_over(kids@.take(x as int), f)),
            decreases kids.len() - x,
        {
            proof {
                lemma_union_over_step(kids@, x as int, f);
            }
            part_names_into(t, kids[x], true, acc);
            proof {
                assert(views(acc@).to_set() =~= a0.union(union_over(kids@.take(x + 1), f)));
            }
            x = x + 1;
        }
        proof {
            assert(kids@.take(kids@.len() as int) =~= kids@);
        }
    } else if t.is_kind(c, "namespace_import") {
        identifier_children_into(t, c, acc);
    } else {
        proof {
            assert(a0.union(Set::empty()) =~= a0);
        }
    }
}

/// Names bound by import statement `imp`, each once.
fn import_names(t: &SyntaxTree, imp: usize) -> (r: Vec<String>)
    requires
        t.wf(),
        imp < t.len(),
    ensures
        views(r@).to_set() == import_bound_names(*t, imp as int),
{
    let kids = t.children_of(imp);
    proof {
        t.lemma_children_bounds(imp as int);
    }
    let ghost f = |c: usize| import_part_names(*t, c as int);
    let mut acc: Vec<String> = Vec::new();
    proof {
        assert(views(acc@) =~= seq![]);
        assert(views(acc@).to_set() =~= Set::empty());
    }
    let mut x: usize = 0;
    while x < kids.len()
        invariant
            t.wf(),
            imp < t.len(),
            kids@ == t.children(imp as int),
            forall|y: int| 0 <= y < kids@.len() ==> imp < #[trigger] kids@[y] < t.end(imp as int),
            t.end(imp as int) <= t.len(),
            f == (|c: usize| import_part_names(*t, c as int)),
            x <= kids@.len(),
            views(acc@).no_duplicates(),
            views(acc@).to_set() == union_over(kids@.take(x as int), f),
        decreases kids.len() - x,
    {
        proof {
            lemma_union_over_step(kids@, x as int, f);
        }
        part_names_into(t, kids[x], false, &mut acc);
        x = x + 1;
    }
    proof {
        assert(kids@.take(kids@.len() as int) =~= kids@);
    }
    acc
}

/// The source of import statement `imp`, quotes stripped.
pub fn import_source_of(t: &SyntaxTree, imp: usize) -> (r: Option<String>)
    requires
        t.wf(),
        imp < t.len(),
    ensures
        r matches Some(s) ==> import_source(*t, imp as int) == Some(s@),
        r is None ==> import_source(*t, imp as int) is None,
{
    match t.child_of_kind(imp, "string") {
        Some(s) => Some(strip_quotes_of(t.text_of(s))),
        None => None,
    }
}

/// Top-level import statements.
pub fn top_level_of(t: &SyntaxTree, k: &str) -> (r: Vec<usize>)
    requires
        t.wf(),
    ensures
        r@ == top_level(*t, k@),
        forall|y: int| 0 <= y < r@.len() ==> #[trigger] r@[y] < t.len(),
{
    let kids = t.children_of(0);
    proof {
        t.lemma_children_bounds(0);
    }
    let ghost pred = |c: usize| t.kind(c as int) == k@;
    let mut out: Vec<usize> = Vec::new();
    let mut x: usize = 0;
    while x < kids.len()
        invariant
            t.wf(),
            kids@ == t.children(0),
            forall|y: int| 0 <= y < kids@.len() ==> 0 < #[trigger] kids@[y] < t.end(0),
            pred == (|c: usize| t.kind(c as int) == k@),
            x <= kids@.len(),
            out@ == crate::walk::select_where(kids@.take(x as int), pred),
            forall|y: int| 0 <= y < out@.len() ==> #[trigger] out@[y] < t.len(),
        decreases kids.len() - x,
    {
        proof {
            crate::walk::lemma_count_where_step(kids@, x as int, pred);
        }
        if t.is_kind(kids[x], k) {
            out.push(kids[x]);
        }
        x = x + 1;
    }
    proof {
        assert(kids@.take(kids@.len() as int) =~= kids@);
    }
    out
}

/// The import sources that bind `name`, each once.
fn sources_for_exec(t: &SyntaxTree, imports: &Vec<usize>, name: &str) -> (r: Vec<String>)
    requires
        t.wf(),
        imports@ == top_level(*t, "import_statement"@),
        forall|y: int| 0 <= y < imports@.len() ==> #[trigger] imports@[y] < t.len(),
    ensures
        views(r@).no_duplicates(),
        views(r@).to_set() == sources_for(*t, name@),
{
    let ghost f = |i: usize|
        match import_source(*t, i as int) {
            Some(s) => if import_bound_names(*t, i as int).contains(name@) { set![s] } else { Set::<Seq<char>>::empty() },
            None => Set::<Seq<char>>::empty(),
        };
    let mut acc: Vec<String> = Vec::new();
    proof {
        assert(views(acc@) =~= seq![]);
        assert(views(acc@).to_set() =~= Set::empty());
    }
    let mut x: usize = 0;
    while x < imports.len()
        invariant
            t.wf(),
            forall|y: int| 0 <= y < imports@.len() ==> #[trigger] imports@[y] < t.len(),
            f == (|i: usize|
                match import_source(*t, i as int) {
                    Some(s) => if import_bound_names(*t, i as int).contains(name@) { set![s] } else { Set::<Seq<char>>::empty() },
                    None => Set::<Seq<char>>::empty(),
                }),
            x <= imports@.len(),
            views(acc@).no_duplicates(),
            views(acc@).to_set() == union_over(imports@.take(x as int), f),
        decreases imports.len() - x,
    {
        let i = imports[x];
        proof {
            lemma_union_over_step(imports@, x as int, f);
        }
        let ghost before = views(acc@).to_set();
        match import_source_of(t, i) {
            Some(src) => {
                let names = import_names(t, i);
                if crate::strset::contains_str(&names, name) {
                    add_unique(&mut acc, src.as_str());
                    proof {
                        assert(before.insert(src@) =~= before.union(set![src@]));
                    }
                } else {
                    proof {
                        assert(before.union(Set::empty()) =~= before);
                    }
                }
            },
            None => {
                proof {
                    assert(before.union(Set::empty()) =~= before);
                }
            },
        }
        x = x + 1;
    }
    proof {
        assert(imports@.take(imports@.len() as int) =~= imports@);
    }
    acc
}

/// Add the names bound by pattern `n` to `acc`.
pub(crate) fn binding_names_into(t: &SyntaxTree, n: usize, acc: &mut Vec<String>)
    requires
        t.wf(),
        n < t.len(),
        views(old(acc)@).no_duplicates(),
    ensures
        views(final(acc)@).no_duplicates(),
        views(final(acc)@).to_set() == views(old(acc)@).to_set().union(binding_names(*t, n as int)),
    decreases t.len() - n,
{
    let ghost a0 = views(acc@).to_set();
    if t.is_kind(n, "identifier") {
        add_unique(acc, t.text_of(n));
        proof {
            assert(a0.insert(t.text(n as int)) =~= a0.union(set![t.text(n as int)]));
        }
    } else if t.is_kind(n, "object_pattern") || t.is_kind(n, "array_pattern") {
        let e = t.nodes[n].end;
        proof {
            assert(n < t.end(n as int) <= t.len());
        }
        let mut c = n + 1;
        while c < e
            invariant
                t.wf(),
                n < t.len(),
                e == t.end(n as int),
                n < c <= e,
                views(acc@).no_duplicates(),
                views(acc@).to_set().union(binding_names_chain(*t, c as int, e as int)) == a0.union(
                    binding_names_chain(*t, n + 1, e as int),
                ),
            decreases e - c,
        {
            let next = t.nodes[c].end;
            let ghost before = views(acc@).to_set();
            proof {
                assert(c < t.end(c as int) <= e);
            }
            binding_names_into(t, c, acc);
            proof {
                assert(views(acc@).to_set().union(binding_names_chain(*t, next as int, e as int)) =~= before.union(
                    binding_names_chain(*t, c as int, e as int),
                ));
            }
            c = next;
        }
        proof {
            assert(views(acc@).to_set().union(binding_names_chain(*t, c as int, e as int)) =~= views(acc@).to_set());
        }
    } else {
        proof {
            assert(a0.union(Set::empty()) =~= a0);
        }
    }
}

/// An export as the library holds it: the node looked at and the names it declares.
pub struct ExportEntry {
    pub body: usize,
    pub declared_names: Vec<String>,
}

pub open spec fn entry_view(x: ExportEntry) -> ExportSpec {
    (x.body, views(x.declared_names@).to_set())
}

pub open spec fn entries_view(v: Seq<ExportEntry>) -> Seq<ExportSpec> {
    v.map_values(|x: ExportEntry| entry_view(x))
}

proof fn lemma_entries_push(v: Seq<ExportEntry>, x: ExportEntry)
    ensures
        entries_view(v.push(x)) == entries_view(v).push(entry_view(x)),
{
    assert(entries_view(v.push(x)) =~= entries_view(v).push(entry_view(x)));
}

fn declarator_exports_into(t: &SyntaxTree, d: usize, out: &mut Vec<ExportEntry>)
    requires
        t.wf(),
        d < t.len(),
        forall|k: int| 0 <= k < old(out)@.len() ==> #[trigger] old(out)@[k].body < t.len(),
    ensures
        entries_view(final(out)@) == entries_view(old(out)@) + declarator_exports(*t, d + 1, t.end(d as int)),
        forall|k: int| 0 <= k < final(out)@.len() ==> #[trigger] final(out)@[k].body < t.len(),
{
    let e = t.nodes[d].end;
    proof {
        assert(d < t.end(d as int) <= t.len());
    }
    let ghost base = entries_view(out@);
    let mut c = d + 1;
    while c < e
        invariant
            t.wf(),
            d < t.len(),
            e == t.end(d as int),
            e <= t.len(),
            d < c <= e,
            forall|k: int| 0 <= k < out@.len() ==> #[trigger] out@[k].body < t.len(),
            entries_view(out@) + declarator_exports(*t, c as int, e as int) == base + declarator_exports(*t, d + 1, e as int),
        decreases e - c,
    {
        let next = t.nodes[c].end;
        let ghost before = entries_view(out@);
        proof {
            assert(c < t.end(c as int) <= e);
        }
        if t.is_kind(c, "variable_declarator") {
            match t.child_by_field_name(c, "value") {
                Some(v) => {
                    let mut declared: Vec<String> = Vec::new();
                    proof {
                        assert(views(declared@) =~= seq![]);
                        assert(views(declared@).to_set() =~= Set::empty());
                    }
                    match t.child_by_field_name(c, "name") {
                        Some(nm) => {
                            proof {
                                assert(nm < t.end(c as int));
                            }
                            binding_names_into(t, nm, &mut declared);
                            proof {
                                assert(Set::<Seq<char>>::empty().union(binding_names(*t, nm as int)) =~= binding_names(*t, nm as int));
                            }
                        },
                        None => {},
                    }
                    proof {
                        assert(v < t.end(c as int));
                    }
                    let x = ExportEntry { body: v, declared_names: declared };
                    proof {
                        lemma_entries_push(out@, x);
                    }
                    out.push(x);
                },
                None => {},
            }
        }
        proof {
            assert(entries_view(out@) + declarator_exports(*t, next as int, e as int) =~= before
                + declarator_exports(*t, c as int, e as int));
        }
        c = next;
    }
    proof {
        assert(entries_view(out@) + declarator_exports(*t, c as int, e as int) =~= entries_view(out@));
    }
}

/// The name a function declaration declares, unless it is empty.
fn function_declared(t: &SyntaxTree, c: usize) -> (r: Vec<String>)
    requires
        t.wf(),
        c < t.len(),
    ensures
        views(r@).to_set() == ({
            let name = match t.child_by_field(c as int, "name"@) {
                Some(n) => t.text(n as int),
                None => seq![],
            };
            if name.len() > 0 { set![name] } else { Set::<Seq<char>>::empty() }
        }),
{
    let mut declared: Vec<String> = Vec::new();
    match t.child_by_field_name(c, "name") {
        Some(nm) => {
            let txt = t.text_of(nm);
            if crate::text::first_char(txt).is_some() {
                declared.push(txt.to_owned());
                proof {
                    let e0 = Seq::<Seq<char>>::empty();
                    assert(views(declared@) =~= e0.push(txt@));
                    vstd::seq::Seq::<Seq<char>>::lemma_to_set_insert_commutes(e0, txt@);
                    assert(e0 + seq![txt@] =~= e0.push(txt@));
                    assert(e0.to_set() =~= Set::empty());
                    assert(e0.to_set().insert(txt@) =~= set![txt@]);
                }
            } else {
                proof {
                    assert(views(declared@) =~= seq![]);
                    assert(views(declared@).to_set() =~= Set::empty());
                }
            }
        },
        None => {
            proof {
                assert(views(declared@) =~= seq![]);
                assert(views(declared@).to_set() =~= Set::empty());
            }
        },
    }
    declared
}

fn statement_exports_into(t: &SyntaxTree, s: usize, out: &mut Vec<ExportEntry>)
    requires
        t.wf(),
        s < t.len(),
        forall|k: int| 0 <= k < old(out)@.len() ==> #[trigger] old(out)@[k].body < t.len(),
    ensures
        entries_view(final(out)@) == entries_view(old(out)@) + statement_exports(*t, s + 1, t.end(s as int)),
        forall|k: int| 0 <= k < final(out)@.len() ==> #[trigger] final(out)@[k].body < t.len(),
{
    let e = t.nodes[s].end;
    proof {
        assert(s < t.end(s as int) <= t.len());
    }
    let ghost base = entries_view(out@);
    let mut c = s + 1;
    while c < e
        invariant
            t.wf(),
            s < t.len(),
            e == t.end(s as int),
            e <= t.len(),
            s < c <= e,
            forall|k: int| 0 <= k < out@.len() ==> #[trigger] out@[k].body < t.len(),
            entries_view(out@) + statement_exports(*t, c as int, e as int) == base + statement_exports(*t, s + 1, e as int),
        decreases e - c,
    {
        let next = t.nodes[c].end;
        let ghost before = entries_view(out@);
        proof {
            assert(c < t.end(c as int) <= e);
        }
        if t.is_kind(c, "function_declaration") || t.is_kind(c, "generator_function_declaration") {
            let declared = function_declared(t, c);
            let x = ExportEntry { body: c, declared_names: declared };
            proof {
                lemma_entries_push(out@, x);
            }
            out.push(x);
        } else if t.is_kind(c, "lexical_declaration") || t.is_kind(c, "variable_declaration") {
            declarator_exports_into(t, c, out);
        }
        proof {
            assert(entries_view(out@) + statement_exports(*t, next as int, e as int) =~= before
                + statement_exports(*t, c as int, e as int));
        }
        c = next;
    }
    proof {
        assert(entries_view(out@) + statement_exports(*t, c as int, e as int) =~= entries_view(out@));
    }
}

/// The exports of the module, in order.
pub fn collect_exports(t: &SyntaxTree) -> (r: Vec<ExportEntry>)
    requires
        t.wf(),
    ensures
        entries_view(r@) == module_exports(*t),
        forall|k: int| 0 <= k < r@.len() ==> #[trigger] r@[k].body < t.len(),
{
    let e = t.nodes[0].end;
    let mut out: Vec<ExportEntry> = Vec::new();
    proof {
        assert(entries_view(out@) =~= seq![]);
    }
    let mut c: usize = 1;
    while c < e
        invariant
            t.wf(),
            e == t.end(0),
            e == t.len(),
            1 <= c <= e,
            forall|k: int| 0 <= k < out@.len() ==> #[trigger] out@[k].body < t.len(),
            entries_view(out@) + module_exports_from(*t, c as int, e as int) == module_exports(*t),
        decreases e - c,
    {
        let next = t.nodes[c].end;
        let ghost before = entries_view(out@);
        proof {
            assert(c < t.end(c as int) <= e);
        }
        if t.is_kind(c, "export_statement") {
            statement_exports_into(t, c, &mut out);
        }
        proof {
            assert(entries_view(out@) + module_exports_from(*t, next as int, e as int) =~= before
                + module_exports_from(*t, c as int, e as int));
        }
        c = next;
    }
    proof {
        assert(entries_view(out@) + module_exports_from(*t, c as int, e as int) =~= entries_view(out@));
    }
    out
}

/// Add the strings of `srcs` to the string set `acc`.
fn add_all(acc: &mut Vec<String>, srcs: &Vec<String>)
    requires
        views(old(acc)@).no_duplicates(),
    ensures
        views(final(acc)@).no_duplicates(),
        views(final(acc)@).to_set() == views(old(acc)@).to_set().union(views(srcs@).to_set()),
{
    let ghost before = views(acc@).to_set();
    let mut q: usize = 0;
    while q < srcs.len()
        invariant
            q <= srcs@.len(),
            views(acc@).no_duplicates(),
            views(acc@).to_set() == before.union(views(srcs@.take(q as int)).to_set()),
        decreases srcs.len() - q,
    {
        add_unique(acc, srcs[q].as_str());
        proof {
            assert(views(srcs@.take(q + 1)) =~= views(srcs@.take(q as int)).push(srcs@[q as int]@));
            vstd::seq::Seq::<Seq<char>>::lemma_to_set_insert_commutes(views(srcs@.take(q as int)), srcs@[q as int]@);
            assert(views(srcs@.take(q as int)) + seq![srcs@[q as int]@] =~= views(srcs@.take(q as int)).push(srcs@[q as int]@));
            assert(views(acc@).to_set() =~= before.union(views(srcs@.take(q + 1)).to_set()));
        }
        q = q + 1;
    }
    proof {
        assert(srcs@.take(srcs@.len() as int) =~= srcs@);
    }
}

/// The import sources export `x` uses, each once.
#[verifier::rlimit(50)]
fn resolve_export_sources(t: &SyntaxTree, imports: &Vec<usize>, x: &ExportEntry) -> (r: Vec<String>)
    requires
        t.wf(),
        x.body < t.len(),
        imports@ == top_level(*t, "import_statement"@),
        forall|y: int| 0 <= y < imports@.len() ==> #[trigger] imports@[y] < t.len(),
    ensures
        views(r@).to_set() == export_sources(*t, entry_view(*x)),
{
    let want: [&str; 1] = ["identifier"];
    let none: [&str; 0] = [];
    proof {
        assert(names(want@) =~= seq!["identifier"@]);
        assert(names(none@) =~= seq![]);
    }
    let plan = WalkPlan { want: &want, stop: &none, bump: &none, limit: usize::MAX, prune_wanted: false, stop_named_only: false, min_depth: 0 };
    let ids = t.walk(x.body, 0, &plan);
    proof {
        t.lemma_walk_node(x.body as int, 0, plan.spec());
    }
    let ghost f = used_sources(*t, views(x.declared_names@).to_set());
    let mut acc: Vec<String> = Vec::new();
    proof {
        assert(views(acc@) =~= seq![]);
        assert(views(acc@).to_set() =~= Set::empty());
    }
    let mut k: usize = 0;
    while k < ids.len()
        invariant
            t.wf(),
            imports@ == top_level(*t, "import_statement"@),
            forall|y: int| 0 <= y < imports@.len() ==> #[trigger] imports@[y] < t.len(),
            forall|y: int| 0 <= y < ids@.len() ==> #[trigger] ids@[y] < t.len(),
            f == used_sources(*t, views(x.declared_names@).to_set()),
            k <= ids@.len(),
            views(acc@).no_duplicates(),
            views(acc@).to_set() == union_over(ids@.take(k as int), f),
        decreases ids.len() - k,
    {
        let j = ids[k];
        proof {
            lemma_union_over_step(ids@, k as int, f);
        }
        let ghost before = views(acc@).to_set();
        let txt = t.text_of(j);
        if crate::strset::contains_str(&x.declared_names, txt) {
            proof {
                assert(before.union(Set::empty()) =~= before);
            }
        } else {
            let srcs = sources_for_exec(t, imports, txt);
            add_all(&mut acc, &srcs);
        }
        proof {
            assert(views(acc@).to_set() =~= union_over(ids@.take(k + 1), f));
        }
        k = k + 1;
    }
    proof {
        assert(ids@.take(ids@.len() as int) =~= ids@);
    }
    acc
}

proof fn lemma_declarator_exports_len(t: SyntaxTree, c: int, e: int)
    requires
        t.wf(),
        0 <= c <= e <= t.len(),
        forall|k: int| c <= k < e ==> #[trigger] t.end(k) <= e,
    ensures
        declarator_exports(t, c, e).len() <= e - c,
    decreases e - c,
{
    if t.chain_ok(c, e) {
        lemma_declarator_exports_len(t, t.end(c), e);
    }
}

proof fn lemma_statement_exports_len(t: SyntaxTree, c: int, e: int)
    requires
        t.wf(),
        0 <= c <= e <= t.len(),
        forall|k: int| c <= k < e ==> #[trigger] t.end(k) <= e,
    ensures
        statement_exports(t, c, e).len() <= e - c,
    decreases e - c,
{
    if t.chain_ok(c, e) {
        lemma_statement_exports_len(t, t.end(c), e);
        if t.kind(c) == "lexical_declaration"@ || t.kind(c) == "variable_declaration"@ {
            assert forall|k: int| c + 1 <= k < t.end(c) implies #[trigger] t.end(k) <= t.end(c) by {}
            lemma_declarator_exports_len(t, c + 1, t.end(c));
        }
    }
}

proof fn lemma_module_exports_len(t: SyntaxTree, c: int, e: int)
    requires
        t.wf(),
        0 <= c <= e <= t.len(),
        forall|k: int| c <= k < e ==> #[trigger] t.end(k) <= e,
    ensures
        module_exports_from(t, c, e).len() <= e - c,
    decreases e - c,
{
    if t.chain_ok(c, e) {
        lemma_module_exports_len(t, t.end(c), e);
        if t.kind(c) == "export_statement"@ {
            assert forall|k: int| c + 1 <= k < t.end(c) implies #[trigger] t.end(k) <= t.end(c) by {}
            lemma_statement_exports_len(t, c + 1, t.end(c));
        }
    }
}

/// Compute the cohesion counts of the module of `t`.
pub fn compute_module_cohesion(t: &SyntaxTree) -> (r: ModuleCohesion)
    requires
        t.wf(),
        pairs_fit(module_exports(*t).len() as int),
    ensures
        cohesion_of(*t, r),
{
    let imports = top_level_of(t, "import_statement");
    let exports = collect_exports(t);
    let mut sets: Vec<Vec<String>> = Vec::new();
    let mut k: usize = 0;
    while k < exports.len()
        invariant
            t.wf(),
            imports@ == top_level(*t, "import_statement"@),
            forall|y: int| 0 <= y < imports@.len() ==> #[trigger] imports@[y] < t.len(),
            entries_view(exports@) == module_exports(*t),
            forall|y: int| 0 <= y < exports@.len() ==> #[trigger] exports@[y].body < t.len(),
            k <= exports@.len(),
            sets@.len() == k,
            forall|q: int| 0 <= q < k ==> views((#[trigger] sets@[q])@).to_set() == export_sources(*t, entry_view(exports@[q])),
        decreases exports.len() - k,
    {
        let s = resolve_export_sources(t, &imports, &exports[k]);
        sets.push(s);
        k = k + 1;
    }
    proof {
        assert(t.end(0) == t.len());
        assert forall|kk: int| 1 <= kk < t.len() implies #[trigger] t.end(kk) <= t.len() by {}
        lemma_module_exports_len(*t, 1, t.len() as int);
        assert(entries_view(exports@).len() == exports@.len());
        assert(sets@.map_values(|v: Vec<String>| views(v@).to_set()) =~= module_exports(*t).map_values(
            |x: ExportSpec| export_sources(*t, x),
        ));
        assert(sets@.len() == module_exports(*t).len());
    }
    let n = sets.len();
    let total_pairs = if n < 2 {
        0
    } else {
        n * (n - 1) / 2
    };
    proof {
        if n < 2 {
            assert(n * (n - 1) / 2 == 0) by (nonlinear_arith)
                requires
                    n < 2,
            ;
        }
    }
    let connected_pairs = count_connected_pairs(&sets);
    ModuleCohesion { export_count: n, connected_pairs, total_pairs }
}

/// The number of exports whose pairs module cohesion counts.
pub fn count_module_exports(t: &SyntaxTree) -> (r: usize)
    requires
        t.wf(),
    ensures
        r == module_exports(*t).len(),
{
    let exports = collect_exports(t);
    proof {
        assert(entries_view(exports@).len() == exports@.len());
    }
    exports.len()
}

} // verus!
