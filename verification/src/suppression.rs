//! Suppression comments.
//!
//! `// tsmetrics-disable-next-function` before a function,
//! `// tsmetrics-disable-next-class` before a class, and
//! `// tsmetrics-disable-module` at the top level of a file.  The comment may
//! stand before the wrapper of a declaration (`export`, `const … =`), and other
//! comments or decorators may stand between it and the declaration.
use crate::metrics::class::{find_classes, metric_classes};
use crate::metrics::function::{function_nodes, measured_kinds};
use crate::syntax::{names, SyntaxTree};
use crate::walk::{find_all, WalkPlan};
use crate::text::{chars_of, first_non_ws, is_whitespace, trim_end_at, trimmed};
use vstd::prelude::*;

verus! {

/// `s` without every leading repetition of `p` (std `trim_start_matches` with a text pattern).
pub open spec fn strip_leading(s: Seq<char>, p: Seq<char>) -> Seq<char>
    decreases s.len(),
{
    if 0 < p.len() <= s.len() && s.take(p.len() as int) == p {
        strip_leading(s.skip(p.len() as int), p)
    } else {
        s
    }
}

/// `s` without every trailing repetition of `p` (std `trim_end_matches` with a text pattern).
pub open spec fn strip_trailing(s: Seq<char>, p: Seq<char>) -> Seq<char>
    decreases s.len(),
{
    if 0 < p.len() <= s.len() && s.skip(s.len() - p.len()) == p {
        strip_trailing(s.take(s.len() - p.len()), p)
    } else {
        s
    }
}

/// The words of a comment: its delimiters `//`, `/*` and `*/` and the white space round them removed.
pub open spec fn comment_body(text: Seq<char>) -> Seq<char> {
    trimmed(strip_trailing(strip_leading(strip_leading(text, "//"@), "/*"@), "*/"@))
}

/// The comment `text` carries the directive `keyword`.
pub open spec fn has_directive(text: Seq<char>, keyword: Seq<char>) -> bool {
    keyword.is_prefix_of(comment_body(text))
}

/// Scanning the siblings `sibs[..k]` from the last one back, a comment with the
/// directive comes before any named node other than a comment or a decorator.
pub open spec fn scan_back(t: SyntaxTree, sibs: Seq<usize>, k: int, keyword: Seq<char>) -> bool
    decreases k,
{
    if k <= 0 {
        false
    } else {
        let s = sibs[k - 1] as int;
        if !t.named(s) {
            scan_back(t, sibs, k - 1, keyword)
        } else if t.kind(s) == "comment"@ {
            has_directive(t.text(s), keyword) || scan_back(t, sibs, k - 1, keyword)
        } else if t.kind(s) == "decorator"@ {
            scan_back(t, sibs, k - 1, keyword)
        } else {
            false
        }
    }
}

/// The siblings before node `n`: the children of its parent that precede it.
pub open spec fn siblings_before(t: SyntaxTree, n: int) -> Seq<usize> {
    match t.parent(n) {
        Some(p) => t.chain(p + 1, n),
        None => seq![],
    }
}

/// The nodes just before `n` carry the directive.
pub open spec fn directive_before(t: SyntaxTree, n: int, keyword: Seq<char>) -> bool {
    let sibs = siblings_before(t, n);
    scan_back(t, sibs, sibs.len() as int, keyword)
}

/// Kinds that wrap a declaration without changing what it declares.
pub open spec fn is_wrapper(t: SyntaxTree, p: int) -> bool {
    t.kind(p) == "export_statement"@ || t.kind(p) == "lexical_declaration"@ || t.kind(p)
        == "variable_declarator"@
}

/// Node `n`, or one of the wrappers round it, is preceded by the directive.
pub open spec fn suppressed(t: SyntaxTree, n: int, keyword: Seq<char>) -> bool
    decreases n,
{
    directive_before(t, n, keyword) || match t.parent(n) {
        Some(p) => if (p as int) < n && is_wrapper(t, p as int) {
            suppressed(t, p as int, keyword)
        } else {
            false
        },
        None => false,
    }
}

/// A child of `root` is a comment with the module directive.
pub open spec fn module_suppressed(t: SyntaxTree, root: int) -> bool {
    exists|k: int|
        0 <= k < t.children(root).len() && t.kind(#[trigger] t.children(root)[k] as int) == "comment"@
            && has_directive(t.text(t.children(root)[k] as int), "tsmetrics-disable-module"@)
}

/// Index past the repetitions of the two-character pattern `x y` that start at `a`.
fn skip_pairs(cs: &Vec<char>, a: usize, n: usize, x: char, y: char, Ghost(p): Ghost<Seq<char>>) -> (r: usize)
    requires
        a <= n == cs@.len(),
        p == seq![x, y],
    ensures
        a <= r <= n,
        strip_leading(cs@.subrange(a as int, n as int), p) == cs@.subrange(r as int, n as int),
{
    let mut i = a;
    while n - i >= 2 && cs[i] == x && cs[i + 1] == y
        invariant
            a <= i <= n == cs@.len(),
            p == seq![x, y],
            strip_leading(cs@.subrange(a as int, n as int), p) == strip_leading(cs@.subrange(i as int, n as int), p),
        decreases n - i,
    {
        proof {
            let s = cs@.subrange(i as int, n as int);
            assert(s.take(2) =~= p);
            assert(s.skip(2) =~= cs@.subrange(i + 2, n as int));
        }
        i = i + 2;
    }
    proof {
        let s = cs@.subrange(i as int, n as int);
        if 0 < p.len() <= s.len() && s.take(p.len() as int) == p {
            assert(s.take(2)[0] == x && s.take(2)[1] == y);
        }
    }
    i
}

/// `true` when the comment `text` carries the directive `keyword`.
pub fn extract_directive(text: &str, keyword: &str) -> (r: bool)
    ensures
        r == has_directive(text@, keyword@),
{
    proof {
        reveal_strlit("//");
        reveal_strlit("/*");
        reveal_strlit("*/");
        assert("//"@ =~= seq!['/', '/']);
        assert("/*"@ =~= seq!['/', '*']);
        assert("*/"@ =~= seq!['*', '/']);
    }
    let cs = chars_of(text);
    let n = cs.len();
    proof {
        assert(cs@.subrange(0, n as int) =~= text@);
    }
    let a1 = skip_pairs(&cs, 0, n, '/', '/', Ghost("//"@));
    let a = skip_pairs(&cs, a1, n, '/', '*', Ghost("/*"@));
    let ghost s2 = cs@.subrange(a as int, n as int);
    let ghost p = "*/"@;
    let mut b = n;
    while b - a >= 2 && cs[b - 2] == '*' && cs[b - 1] == '/'
        invariant
            a <= b <= n == cs@.len(),
            s2 == cs@.subrange(a as int, n as int),
            p == seq!['*', '/'],
            strip_trailing(s2, p) == strip_trailing(cs@.subrange(a as int, b as int), p),
        decreases b,
    {
        proof {
            let s = cs@.subrange(a as int, b as int);
            assert(s.skip(s.len() - 2) =~= p);
            assert(s.take(s.len() - 2) =~= cs@.subrange(a as int, b - 2));
        }
        b = b - 2;
    }
    proof {
        let s = cs@.subrange(a as int, b as int);
        if 0 < p.len() <= s.len() && s.skip(s.len() - p.len()) == p {
            assert(s.skip(s.len() - 2)[0] == '*' && s.skip(s.len() - 2)[1] == '/');
        }
    }
    let mut mid: Vec<char> = Vec::new();
    let mut i = a;
    while i < b
        invariant
            a <= i <= b <= n == cs@.len(),
            mid@ == cs@.subrange(a as int, i as int),
        decreases b - i,
    {
        mid.push(cs[i]);
        i = i + 1;
        proof {
            assert(mid@ =~= cs@.subrange(a as int, i as int));
        }
    }
    let ghost m = mid@;
    proof {
        assert(m == strip_trailing(strip_leading(strip_leading(text@, "//"@), "/*"@), "*/"@));
    }
    let k = mid.len();
    let mut s: usize = 0;
    while s < k && is_whitespace(mid[s])
        invariant
            k == mid@.len(),
            m == mid@,
            s <= k,
            first_non_ws(m, s as int, k as int) == first_non_ws(m, 0, k as int),
        decreases k - s,
    {
        s = s + 1;
    }
    let mut e: usize = k;
    while e > s && is_whitespace(mid[e - 1])
        invariant
            k == mid@.len(),
            m == mid@,
            s <= e <= k,
            trim_end_at(m, s as int, e as int) == trim_end_at(m, s as int, k as int),
        decreases e,
    {
        e = e - 1;
    }
    let ghost body = m.subrange(s as int, e as int);
    proof {
        assert(first_non_ws(m, s as int, k as int) == s);
        assert(trim_end_at(m, s as int, e as int) == e);
        assert(body == trimmed(m));
        assert(body == comment_body(text@));
        assert(body.len() == e - s);
    }
    let kw = chars_of(keyword);
    if kw.len() > e - s {
        proof {
            assert(keyword@.len() > comment_body(text@).len());
            assert(!has_directive(text@, keyword@));
        }
        return false;
    }
    let mut j: usize = 0;
    while j < kw.len()
        invariant
            s <= e <= k == mid@.len(),
            kw@ == keyword@,
            kw@.len() <= e - s,
            j <= kw@.len(),
            body == mid@.subrange(s as int, e as int),
            body == comment_body(text@),
            forall|q: int| 0 <= q < j ==> kw@[q] == body[q],
        decreases kw.len() - j,
    {
        if mid[s + j] != kw[j] {
            proof {
                assert(body.subrange(0, kw@.len() as int)[j as int] != kw@[j as int]);
            }
            return false;
        }
        j = j + 1;
    }
    proof {
        assert(kw@ =~= body.subrange(0, kw@.len() as int));
    }
    true
}

/// `true` when the siblings just before `n` hold a comment with the directive,
/// looking past other comments and decorators.
fn check_prev_siblings_for(t: &SyntaxTree, n: usize, keyword: &str) -> (r: bool)
    requires
        t.wf(),
        n < t.len(),
    ensures
        r == directive_before(*t, n as int, keyword@),
{
    let p = match t.nodes[n].parent {
        Some(p) => p,
        None => return false,
    };
    proof {
        if n > 0 {
            assert(t.parent(n as int) is Some);
        }
    }
    let ghost sibs = t.chain(p + 1, n as int);
    let mut before: Vec<usize> = Vec::new();
    let mut c = p + 1;
    while c < n && t.nodes[c].end <= n
        invariant
            t.wf(),
            n < t.len(),
            p < c,
            sibs == t.chain(p + 1, n as int),
            sibs == before@ + t.chain(c as int, n as int),
            forall|q: int| 0 <= q < before@.len() ==> #[trigger] before@[q] < n,
        decreases n - c,
    {
        proof {
            assert(t.chain(c as int, n as int) == seq![c] + t.chain(t.end(c as int), n as int));
            assert(c < t.end(c as int));
        }
        before.push(c);
        proof {
            assert(sibs =~= before@ + t.chain(t.end(c as int), n as int));
        }
        c = t.nodes[c].end;
    }
    proof {
        assert(t.chain(c as int, n as int) =~= seq![]);
        assert(before@ =~= sibs);
    }
    let mut k = before.len();
    while k > 0
        invariant
            t.wf(),
            n < t.len(),
            before@ == sibs,
            forall|q: int| 0 <= q < before@.len() ==> #[trigger] before@[q] < n,
            k <= before@.len(),
            sibs == siblings_before(*t, n as int),
            scan_back(*t, sibs, k as int, keyword@) == scan_back(*t, sibs, sibs.len() as int, keyword@),
        decreases k,
    {
        let s = before[k - 1];
        proof {
            reveal_strlit("comment");
            reveal_strlit("decorator");
        }
        if !t.nodes[s].named {
            k = k - 1;
        } else if t.is_kind(s, "comment") {
            if extract_directive(t.text_of(s), keyword) {
                proof {
                    assert(scan_back(*t, sibs, k as int, keyword@));
                }
                return true;
            }
            k = k - 1;
        } else if t.is_kind(s, "decorator") {
            k = k - 1;
        } else {
            proof {
                assert(!scan_back(*t, sibs, k as int, keyword@));
            }
            return false;
        }
    }
    false
}

/// `true` when node `node`, or one of the `export`, declaration and declarator
/// wrappers round it, is preceded by a comment carrying `keyword`.
pub fn has_suppression_comment(t: &SyntaxTree, node: usize, keyword: &str) -> (r: bool)
    requires
        t.wf(),
        node < t.len(),
    ensures
        r == suppressed(*t, node as int, keyword@),
{
    if check_prev_siblings_for(t, node, keyword) {
        return true;
    }
    let mut current = node;
    loop
        invariant
            t.wf(),
            current < t.len(),
            suppressed(*t, node as int, keyword@) == suppressed(*t, current as int, keyword@),
            !directive_before(*t, current as int, keyword@),
        decreases current,
    {
        proof {
            reveal_strlit("export_statement");
            reveal_strlit("lexical_declaration");
            reveal_strlit("variable_declarator");
        }
        match t.nodes[current].parent {
            Some(p) => {
                proof {
                    if current == 0 {
                        assert(t.parent(0) is None);
                    }
                    assert(p < current);
                }
                if t.is_kind(p, "export_statement") || t.is_kind(p, "lexical_declaration") || t.is_kind(
                    p,
                    "variable_declarator",
                ) {
                    if check_prev_siblings_for(t, p, keyword) {
                        proof {
                            assert(suppressed(*t, p as int, keyword@));
                        }
                        return true;
                    }
                    current = p;
                } else {
                    return false;
                }
            },
            None => return false,
        }
    }
}

/// `true` when a top-level comment of the file carries `tsmetrics-disable-module`.
pub fn has_module_suppression(t: &SyntaxTree, root: usize) -> (r: bool)
    requires
        t.wf(),
        root < t.len(),
    ensures
        r == module_suppressed(*t, root as int),
{
    let kids = t.children_of(root);
    proof {
        t.lemma_children_bounds(root as int);
    }
    let mut k: usize = 0;
    while k < kids.len()
        invariant
            t.wf(),
            root < t.len(),
            kids@ == t.children(root as int),
            forall|q: int| 0 <= q < kids@.len() ==> #[trigger] kids@[q] < t.len(),
            k <= kids@.len(),
            forall|q: int|
                0 <= q < k ==> !(t.kind(#[trigger] kids@[q] as int) == "comment"@ && has_directive(
                    t.text(kids@[q] as int),
                    "tsmetrics-disable-module"@,
                )),
        decreases kids.len() - k,
    {
        let c = kids[k];
        if t.is_kind(c, "comment") && extract_directive(t.text_of(c), "tsmetrics-disable-module") {
            return true;
        }
        k = k + 1;
    }
    false
}

/// Node `n` is suppressed by the module directive of `root` or by `keyword` before it.
pub open spec fn entity_suppressed(t: SyntaxTree, root: int, n: int, keyword: Seq<char>) -> bool {
    module_suppressed(t, root) || suppressed(t, n, keyword)
}

/// Whether each of the nodes `s` is suppressed, by the module directive or by `keyword` before it.
fn suppressions_of(t: &SyntaxTree, root: usize, s: &Vec<usize>, keyword: &str) -> (r: Vec<bool>)
    requires
        t.wf(),
        root < t.len(),
        forall|y: int| 0 <= y < s@.len() ==> #[trigger] s@[y] < t.len(),
    ensures
        r@.len() == s@.len(),
        forall|k: int|
            0 <= k < r@.len() ==> r@[k] == (module_suppressed(*t, root as int) || suppressed(*t, #[trigger] s@[k] as int, keyword@)),
{
    let module = has_module_suppression(t, root);
    let mut out: Vec<bool> = Vec::new();
    let mut k: usize = 0;
    while k < s.len()
        invariant
            t.wf(),
            forall|y: int| 0 <= y < s@.len() ==> #[trigger] s@[y] < t.len(),
            module == module_suppressed(*t, root as int),
            k <= s@.len(),
            out@.len() == k,
            forall|q: int| 0 <= q < k ==> #[trigger] out@[q] == (module || suppressed(*t, s@[q] as int, keyword@)),
        decreases s.len() - k,
    {
        let flag = module || has_suppression_comment(t, s[k], keyword);
        out.push(flag);
        k = k + 1;
    }
    proof {
        assert forall|q: int| 0 <= q < out@.len() implies out@[q] == (module_suppressed(*t, root as int) || suppressed(
            *t,
            #[trigger] s@[q] as int,
            keyword@,
        )) by {
            assert(out@[q] == (module || suppressed(*t, s@[q] as int, keyword@)));
        }
    }
    out
}

/// Whether each function beneath `root` (in the order metrics list them) is
/// suppressed: by the module directive or by `tsmetrics-disable-next-function`.
pub fn function_suppressions(t: &SyntaxTree, root: usize) -> (r: Vec<bool>)
    requires
        t.wf(),
        root < t.len(),
    ensures
        r@.len() == function_nodes(*t, root as int).len(),
        forall|k: int|
            0 <= k < r@.len() ==> #[trigger] r@[k] == entity_suppressed(*t, root as int, function_nodes(*t, root as int)[k] as int, "tsmetrics-disable-next-function"@),
{
    let want: [&str; 4] = ["function_declaration", "function_expression", "arrow_function", "method_definition"];
    let none: [&str; 0] = [];
    proof {
        assert(names(want@) =~= measured_kinds());
        assert(names(none@) =~= seq![]);
    }
    let plan = WalkPlan { want: &want, stop: &none, bump: &none, limit: usize::MAX, prune_wanted: false, stop_named_only: false, min_depth: 0 };
    let fs = t.walk(root, 0, &plan);
    proof {
        t.lemma_walk_node(root as int, 0, plan.spec());
        assert(plan.spec() == find_all(measured_kinds()));
    }
    let r = suppressions_of(t, root, &fs, "tsmetrics-disable-next-function");
    proof {
        assert forall|k: int| 0 <= k < r@.len() implies #[trigger] r@[k] == entity_suppressed(*t, root as int, function_nodes(*t, root as int)[k] as int, "tsmetrics-disable-next-function"@) by {
            assert(fs@[k] == function_nodes(*t, root as int)[k]);
            assert(r@[k] == (module_suppressed(*t, root as int) || suppressed(*t, fs@[k] as int, "tsmetrics-disable-next-function"@)));
        }
    }
    r
}

/// Whether each class beneath `root` (in the order metrics list them) is
/// suppressed: by the module directive or by `tsmetrics-disable-next-class`.
pub fn class_suppressions(t: &SyntaxTree, root: usize) -> (r: Vec<bool>)
    requires
        t.wf(),
        root < t.len(),
    ensures
        r@.len() == metric_classes(*t, root as int).len(),
        forall|k: int|
            0 <= k < r@.len() ==> #[trigger] r@[k] == entity_suppressed(*t, root as int, metric_classes(*t, root as int)[k] as int, "tsmetrics-disable-next-class"@),
{
    let always: [&str; 2] = ["class_declaration", "abstract_class_declaration"];
    let with_body: [&str; 1] = ["class"];
    proof {
        assert(names(always@) =~= seq!["class_declaration"@, "abstract_class_declaration"@]);
        assert(names(with_body@) =~= seq!["class"@]);
    }
    let cs = find_classes(t, root, &always, &with_body);
    let r = suppressions_of(t, root, &cs, "tsmetrics-disable-next-class");
    proof {
        assert forall|k: int| 0 <= k < r@.len() implies #[trigger] r@[k] == entity_suppressed(*t, root as int, metric_classes(*t, root as int)[k] as int, "tsmetrics-disable-next-class"@) by {
            assert(cs@[k] == metric_classes(*t, root as int)[k]);
            assert(r@[k] == (module_suppressed(*t, root as int) || suppressed(*t, cs@[k] as int, "tsmetrics-disable-next-class"@)));
        }
    }
    r
}

} // verus!
