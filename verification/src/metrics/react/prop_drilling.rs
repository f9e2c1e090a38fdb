//! Prop drilling indicators: how deep in the JSX tree props are passed.
//!
//! JSX elements and fragments open a nesting level.  The props of an opening tag
//! belong to its element, at the level of that element; a self-closing element
//! sits one level below the context it appears in.  A tag passes props when it
//! has an attribute or a spread (`{...expr}`).
use crate::syntax::SyntaxTree;
use vstd::prelude::*;

verus! {

broadcast use vstd::seq_lib::group_to_multiset_ensures;

/// Kinds that open a JSX nesting level.
pub open spec fn level_kind(t: SyntaxTree, j: int) -> bool {
    t.kind(j) == "jsx_element"@ || t.kind(j) == "jsx_fragment"@
}

/// Tags that can carry props.
pub open spec fn is_tag(t: SyntaxTree, j: int) -> bool {
    t.kind(j) == "jsx_opening_element"@ || t.kind(j) == "jsx_self_closing_element"@
}

/// Level of the props of tag `j` found in a context at level `d`.
pub open spec fn prop_level(t: SyntaxTree, j: int, d: int) -> int {
    if t.kind(j) == "jsx_self_closing_element"@ { d + 1 } else { d }
}

/// Number of `spread_element` children among the children from position `c` on.
pub open spec fn spread_children(t: SyntaxTree, c: int, e: int) -> nat
    decreases e - c,
{
    if t.chain_ok(c, e) {
        (if t.kind(c) == "spread_element"@ { 1nat } else { 0nat }) + spread_children(t, t.end(c), e)
    } else {
        0
    }
}

/// Number of spreads among the children from position `c` on: each `jsx_expression`
/// child counts its `spread_element` children.
pub open spec fn spreads_in_chain(t: SyntaxTree, c: int, e: int) -> nat
    decreases e - c,
{
    if t.chain_ok(c, e) {
        (if t.kind(c) == "jsx_expression"@ { spread_children(t, c + 1, t.end(c)) } else { 0nat })
            + spreads_in_chain(t, t.end(c), e)
    } else {
        0
    }
}

/// Number of spread attributes of tag `j`.
pub open spec fn spread_count(t: SyntaxTree, j: int) -> nat {
    spreads_in_chain(t, j + 1, t.end(j))
}

/// Tag `j` passes props: it has an attribute or a spread.
pub open spec fn passes_props(t: SyntaxTree, j: int) -> bool {
    t.first_child_of_kind(j, "jsx_attribute"@) is Some || spread_count(t, j) > 0
}

/// The level that node `j`, reached at level `d`, contributes to the maximum.
pub open spec fn own_level(t: SyntaxTree, j: int, d: int) -> int {
    if is_tag(t, j) && passes_props(t, j) { prop_level(t, j, d) } else { 0 }
}

/// The spread levels of node `j` reached at level `d` (at least 1 each).
pub open spec fn own_spreads(t: SyntaxTree, j: int, d: int) -> Seq<usize> {
    if is_tag(t, j) {
        let l = prop_level(t, j, d);
        Seq::new(spread_count(t, j), |x: int| (if l >= 1 { l } else { 1 }) as usize)
    } else {
        seq![]
    }
}

pub open spec fn max_int(a: int, b: int) -> int {
    if a >= b { a } else { b }
}

/// Deepest level at which props are passed in the subtree of `j`, reached at level `d`.
pub open spec fn drill_max(t: SyntaxTree, j: int, d: int) -> int
    decreases t.len() - j, 0int,
{
    if 0 <= j < t.len() {
        let nd = if level_kind(t, j) { d + 1 } else { d };
        max_int(own_level(t, j, d), drill_max_chain(t, j + 1, t.end(j), nd))
    } else {
        0
    }
}

pub open spec fn drill_max_chain(t: SyntaxTree, c: int, e: int, d: int) -> int
    decreases t.len() - c, 1int,
{
    if t.chain_ok(c, e) {
        max_int(drill_max(t, c, d), drill_max_chain(t, t.end(c), e, d))
    } else {
        0
    }
}

/// Levels of all spreads in the subtree of `j`, reached at level `d`, in pre-order.
pub open spec fn drill_spreads(t: SyntaxTree, j: int, d: int) -> Seq<usize>
    decreases t.len() - j, 0int,
{
    if 0 <= j < t.len() {
        let nd = if level_kind(t, j) { d + 1 } else { d };
        own_spreads(t, j, d) + drill_spreads_chain(t, j + 1, t.end(j), nd)
    } else {
        seq![]
    }
}

pub open spec fn drill_spreads_chain(t: SyntaxTree, c: int, e: int, d: int) -> Seq<usize>
    decreases t.len() - c, 1int,
{
    if t.chain_ok(c, e) {
        drill_spreads(t, c, d) + drill_spreads_chain(t, t.end(c), e, d)
    } else {
        seq![]
    }
}

/// The elements of `s` are in non-decreasing order.
pub open spec fn nondecreasing(s: Seq<usize>) -> bool {
    forall|a: int, b: int| 0 <= a < b < s.len() ==> s[a] <= s[b]
}

/// Prop drilling indicators of a subtree.
#[derive(Debug, Clone, PartialEq, Eq)]
pub struct PropDrillingResult {
    /// Deepest level of a JSX tag that passes props (0 when none does).
    pub max_prop_pass_depth: usize,
    /// Levels at which spread attributes appear, in non-decreasing order.
    pub spread_prop_depths: Vec<usize>,
    /// Some spread attribute was found.
    pub has_spread_forwarding: bool,
}

fn count_spread_children(t: &SyntaxTree, p: usize) -> (r: usize)
    requires
        t.wf(),
        p < t.len(),
    ensures
        r == spread_children(*t, p + 1, t.end(p as int)),
        r <= t.end(p as int) - p,
{
    let e = t.nodes[p].end;
    proof {
        assert(p < t.end(p as int) <= t.len());
    }
    let mut c = p + 1;
    let mut n: usize = 0;
    while c < e
        invariant
            t.wf(),
            p < t.len(),
            e == t.end(p as int),
            p < c <= e <= t.len(),
            n + spread_children(*t, c as int, e as int) == spread_children(*t, p + 1, e as int),
            n <= c - p - 1,
        decreases e - c,
    {
        let next = t.nodes[c].end;
        proof {
            assert(c < t.end(c as int));
            assert(t.end(c as int) <= t.end(p as int));
        }
        if t.is_kind(c, "spread_element") {
            n = n + 1;
        }
        c = next;
    }
    n
}

fn count_spreads(t: &SyntaxTree, j: usize) -> (r: usize)
    requires
        t.wf(),
        j < t.len(),
    ensures
        r == spread_count(*t, j as int),
        r <= t.end(j as int) - j,
{
    let e = t.nodes[j].end;
    proof {
        assert(j < t.end(j as int) <= t.len());
    }
    let mut c = j + 1;
    let mut n: usize = 0;
    while c < e
        invariant
            t.wf(),
            j < t.len(),
            e == t.end(j as int),
            j < c <= e <= t.len(),
            n + spreads_in_chain(*t, c as int, e as int) == spread_count(*t, j as int),
            n <= c - j - 1,
        decreases e - c,
    {
        let next = t.nodes[c].end;
        proof {
            assert(c < t.end(c as int));
            assert(t.end(c as int) <= t.end(j as int));
        }
        if t.is_kind(c, "jsx_expression") {
            let k = count_spread_children(t, c);
            n = n + k;
        }
        c = next;
    }
    n
}

/// Add the props of node `j` (reached at level `d`) and of its subtree.
fn collect(t: &SyntaxTree, j: usize, d: usize, best: &mut usize, spreads: &mut Vec<usize>)
    requires
        t.wf(),
        j < t.len(),
        d + t.end(j as int) - j < usize::MAX,
    ensures
        *final(best) == max_int(*old(best) as int, drill_max(*t, j as int, d as int)),
        final(spreads)@ == old(spreads)@ + drill_spreads(*t, j as int, d as int),
    decreases t.len() - j,
{
    let ghost b0 = *best as int;
    let ghost s0 = spreads@;
    let e = t.nodes[j].end;
    proof {
        assert(j < t.end(j as int) <= t.len());
    }
    let opening = t.is_kind(j, "jsx_opening_element");
    let closing = t.is_kind(j, "jsx_self_closing_element");
    if opening || closing {
        let level = if closing { d + 1 } else { d };
        let k = count_spreads(t, j);
        let has_attr = t.child_of_kind(j, "jsx_attribute").is_some();
        let v = if level >= 1 { level } else { 1 };
        let mut x: usize = 0;
        while x < k
            invariant
                x <= k,
                spreads@ == s0 + Seq::new(x as nat, |y: int| v),
            decreases k - x,
        {
            spreads.push(v);
            x = x + 1;
            proof {
                assert(spreads@ =~= s0 + Seq::new(x as nat, |y: int| v));
            }
        }
        proof {
            let l = prop_level(*t, j as int, d as int);
            assert(l == level);
            assert(Seq::new(k as nat, |y: int| v) =~= own_spreads(*t, j as int, d as int));
        }
        if (has_attr || k > 0) && level > *best {
            *best = level;
        }
    } else {
        proof {
            assert(own_spreads(*t, j as int, d as int) =~= seq![]);
            assert(spreads@ =~= s0 + own_spreads(*t, j as int, d as int));
        }
    }
    let ghost b1 = *best as int;
    let ghost s1 = spreads@;
    proof {
        assert(b1 == max_int(b0, own_level(*t, j as int, d as int)));
        assert(s1 == s0 + own_spreads(*t, j as int, d as int));
    }
    let nd = if t.is_kind(j, "jsx_element") || t.is_kind(j, "jsx_fragment") {
        d + 1
    } else {
        d
    };
    let mut c = j + 1;
    while c < e
        invariant
            t.wf(),
            j < t.len(),
            e == t.end(j as int),
            j < c <= e,
            nd <= d + 1,
            d + e - j < usize::MAX,
            max_int(*best as int, drill_max_chain(*t, c as int, e as int, nd as int)) == max_int(
                b1,
                drill_max_chain(*t, j + 1, e as int, nd as int),
            ),
            spreads@ + drill_spreads_chain(*t, c as int, e as int, nd as int) == s1 + drill_spreads_chain(
                *t,
                j + 1,
                e as int,
                nd as int,
            ),
        decreases e - c,
    {
        let next = t.nodes[c].end;
        let ghost before = spreads@;
        proof {
            assert(c < t.end(c as int) <= e);
        }
        collect(t, c, nd, best, spreads);
        proof {
            assert(drill_spreads_chain(*t, c as int, e as int, nd as int) == drill_spreads(*t, c as int, nd as int)
                + drill_spreads_chain(*t, next as int, e as int, nd as int));
            assert(spreads@ + drill_spreads_chain(*t, next as int, e as int, nd as int) =~= before
                + drill_spreads_chain(*t, c as int, e as int, nd as int));
        }
        c = next;
    }
    proof {
        assert(spreads@ + drill_spreads_chain(*t, c as int, e as int, nd as int) =~= spreads@);
    }
}

/// `v` in non-decreasing order, as a permutation of itself.
fn sort_levels(v: &Vec<usize>) -> (r: Vec<usize>)
    ensures
        nondecreasing(r@),
        r@.to_multiset() == v@.to_multiset(),
{
    let mut out: Vec<usize> = Vec::new();
    let mut i: usize = 0;
    while i < v.len()
        invariant
            i <= v@.len(),
            out@.len() == i,
            nondecreasing(out@),
            out@.to_multiset() == v@.take(i as int).to_multiset(),
        decreases v.len() - i,
    {
        let x = v[i];
        let mut k: usize = 0;
        while k < out.len() && out[k] <= x
            invariant
                k <= out@.len(),
                forall|a: int| 0 <= a < k ==> out@[a] <= x,
            decreases out.len() - k,
        {
            k = k + 1;
        }
        let ghost before = out@;
        out.insert(k, x);
        proof {
            assert(v@.take(i + 1) =~= v@.take(i as int).push(x));
            assert forall|a: int, b: int| 0 <= a < b < out@.len() implies out@[a] <= out@[b] by {
                if b < k {
                    assert(out@[a] == before[a] && out@[b] == before[b]);
                } else if b == k {
                    assert(out@[a] == before[a]);
                } else if a < k {
                    assert(out@[a] == before[a] && out@[b] == before[b - 1]);
                    assert(before[k as int] > x);
                    assert(before[k as int] <= before[b - 1]);
                } else if a == k {
                    assert(out@[b] == before[b - 1]);
                    assert(before[k as int] > x);
                    assert(before[k as int] <= before[b - 1]);
                } else {
                    assert(out@[a] == before[a - 1] && out@[b] == before[b - 1]);
                }
            }
        }
        i = i + 1;
    }
    proof {
        assert(v@.take(v@.len() as int) =~= v@);
    }
    out
}

/// Prop drilling indicators of the subtree of `node`.
pub fn compute_prop_drilling(t: &SyntaxTree, node: usize) -> (r: PropDrillingResult)
    requires
        t.wf(),
        node < t.len(),
    ensures
        r.max_prop_pass_depth == drill_max(*t, node as int, 0),
        r.spread_prop_depths@.to_multiset() == drill_spreads(*t, node as int, 0).to_multiset(),
        nondecreasing(r.spread_prop_depths@),
        r.has_spread_forwarding == (drill_spreads(*t, node as int, 0).len() > 0),
{
    let mut best: usize = 0;
    let mut spreads: Vec<usize> = Vec::new();
    proof {
        assert(t.end(node as int) <= t.len());
    }
    collect(t, node, 0, &mut best, &mut spreads);
    proof {
        lemma_drill_max_nonneg(*t, node as int, 0);
        assert(spreads@ =~= drill_spreads(*t, node as int, 0));
    }
    let sorted = sort_levels(&spreads);
    let has = sorted.len() > 0;
    proof {
        vstd::seq_lib::to_multiset_len(sorted@);
        vstd::seq_lib::to_multiset_len(spreads@);
    }
    PropDrillingResult { max_prop_pass_depth: best, spread_prop_depths: sorted, has_spread_forwarding: has }
}

proof fn lemma_drill_max_nonneg(t: SyntaxTree, j: int, d: int)
    ensures
        drill_max(t, j, d) >= 0,
{
    if 0 <= j < t.len() {
        let nd = if level_kind(t, j) { d + 1 } else { d };
        lemma_drill_chain_nonneg(t, j + 1, t.end(j), nd);
    }
}

proof fn lemma_drill_chain_nonneg(t: SyntaxTree, c: int, e: int, d: int)
    ensures
        drill_max_chain(t, c, e, d) >= 0,
    decreases e - c,
{
    if t.chain_ok(c, e) {
        lemma_drill_chain_nonneg(t, t.end(c), e, d);
    }
}

} // verus!
