//! Pre-order walks over a [`SyntaxTree`] that select nodes by kind.
use crate::syntax::{names, SyntaxTree};
use crate::strset::{insert_unique, views};
use vstd::prelude::*;

verus! {

/// What a walk selects and where it stops.
///
/// A walk starts at some node with a depth.  Each node below the start whose
/// kind is in `stop` (and that is named, when `stop_named_only` holds) is
/// skipped together with its subtree.  The children of a node whose kind is in
/// `bump` are one level deeper than the node.  Nodes at a depth of `limit` or
/// more are skipped together with their subtrees.  Of the nodes that remain,
/// those whose kind is in `want` and whose depth is at least `min_depth` are
/// selected, in pre-order; when `prune_wanted` holds, the subtree below a
/// selected node is not walked.
pub struct WalkPlan<'a> {
    pub want: &'a [&'a str],
    pub stop: &'a [&'a str],
    pub bump: &'a [&'a str],
    pub limit: usize,
    pub prune_wanted: bool,
    pub stop_named_only: bool,
    pub min_depth: usize,
}

/// Kinds wanted, kinds stopped at, kinds that deepen, the depth limit, whether
/// selected nodes end the walk below them, whether only named nodes stop it, and
/// the least depth at which nodes are selected.
pub type PlanSpec = (Seq<Seq<char>>, Seq<Seq<char>>, Seq<Seq<char>>, int, bool, bool, int);

impl<'a> WalkPlan<'a> {
    pub open spec fn spec(&self) -> PlanSpec {
        (
            names(self.want@),
            names(self.stop@),
            names(self.bump@),
            self.limit as int,
            self.prune_wanted,
            self.stop_named_only,
            self.min_depth as int,
        )
    }
}

/// A plan that selects the nodes of the given kinds, anywhere.
pub open spec fn find_all(want: Seq<Seq<char>>) -> PlanSpec {
    (want, seq![], seq![], usize::MAX as int, false, false, 0)
}

/// Number of elements of `s` that satisfy `pred`.
pub open spec fn count_where(s: Seq<usize>, pred: spec_fn(usize) -> bool) -> nat
    decreases s.len(),
{
    if s.len() == 0 {
        0
    } else {
        count_where(s.drop_last(), pred) + (if pred(s.last()) { 1nat } else { 0nat })
    }
}

/// The elements of `s` that satisfy `pred`, in order.
pub open spec fn select_where(s: Seq<usize>, pred: spec_fn(usize) -> bool) -> Seq<usize>
    decreases s.len(),
{
    if s.len() == 0 {
        seq![]
    } else {
        select_where(s.drop_last(), pred) + (if pred(s.last()) { seq![s.last()] } else { seq![] })
    }
}

/// An element of `s` that passes `pred` is among the elements `select_where` keeps.
pub proof fn lemma_select_where_keeps(s: Seq<usize>, pred: spec_fn(usize) -> bool, x: int)
    requires
        0 <= x < s.len(),
        pred(s[x]),
    ensures
        select_where(s, pred).contains(s[x]),
    decreases s.len(),
{
    let r = select_where(s, pred);
    let r0 = select_where(s.drop_last(), pred);
    if x == s.len() - 1 {
        assert(r[r.len() - 1] == s[x]);
    } else {
        assert(s.drop_last()[x] == s[x]);
        lemma_select_where_keeps(s.drop_last(), pred, x);
        let y = choose|y: int| 0 <= y < r0.len() && r0[y] == s[x];
        assert(r[y] == r0[y]);
    }
}

pub proof fn lemma_count_where_step(s: Seq<usize>, x: int, pred: spec_fn(usize) -> bool)
    requires
        0 <= x < s.len(),
    ensures
        count_where(s.take(x + 1), pred) == count_where(s.take(x), pred) + (if pred(s[x]) { 1nat } else { 0nat }),
        select_where(s.take(x + 1), pred) == select_where(s.take(x), pred) + (if pred(s[x]) { seq![s[x]] } else { seq![] }),
{
    assert(s.take(x + 1).drop_last() =~= s.take(x));
}

pub proof fn lemma_count_where_le(s: Seq<usize>, pred: spec_fn(usize) -> bool)
    ensures
        count_where(s, pred) <= s.len(),
        select_where(s, pred).len() == count_where(s, pred),
    decreases s.len(),
{
    if s.len() > 0 {
        lemma_count_where_le(s.drop_last(), pred);
    }
}

/// Counts of predicates that never hold together add up to at most the length.
pub proof fn lemma_count_exclusive3(s: Seq<usize>, p1: spec_fn(usize) -> bool, p2: spec_fn(usize) -> bool, p3: spec_fn(usize) -> bool)
    requires
        forall|x: usize| #![trigger p1(x)] !(p1(x) && p2(x)) && !(p1(x) && p3(x)) && !(p2(x) && p3(x)),
    ensures
        count_where(s, p1) + count_where(s, p2) + count_where(s, p3) <= s.len(),
    decreases s.len(),
{
    if s.len() > 0 {
        lemma_count_exclusive3(s.drop_last(), p1, p2, p3);
    }
}

/// The texts of the nodes of `s`.
pub open spec fn texts_of(t: SyntaxTree, s: Seq<usize>) -> Seq<Seq<char>> {
    s.map_values(|j: usize| t.text(j as int))
}

/// The union of `f(x)` over the elements `x` of `s`.
pub open spec fn union_over(s: Seq<usize>, f: spec_fn(usize) -> Set<Seq<char>>) -> Set<Seq<char>>
    decreases s.len(),
{
    if s.len() == 0 {
        Set::empty()
    } else {
        union_over(s.drop_last(), f).union(f(s.last()))
    }
}

pub proof fn lemma_union_over_step(s: Seq<usize>, x: int, f: spec_fn(usize) -> Set<Seq<char>>)
    requires
        0 <= x < s.len(),
    ensures
        union_over(s.take(x + 1), f) == union_over(s.take(x), f).union(f(s[x])),
{
    assert(s.take(x + 1).drop_last() =~= s.take(x));
}

/// Add the texts of the nodes of `s` to the string set `acc`.
pub fn add_texts(t: &SyntaxTree, s: &Vec<usize>, acc: &mut Vec<String>)
    requires
        forall|x: int| 0 <= x < s@.len() ==> #[trigger] s@[x] < t.len(),
    ensures
        views(final(acc)@).to_set() == views(old(acc)@).to_set().union(texts_of(*t, s@).to_set()),
        views(old(acc)@).no_duplicates() ==> views(final(acc)@).no_duplicates(),
{
    let mut x: usize = 0;
    while x < s.len()
        invariant
            forall|y: int| 0 <= y < s@.len() ==> #[trigger] s@[y] < t.len(),
            x <= s@.len(),
            views(acc@).to_set() == views(old(acc)@).to_set().union(texts_of(*t, s@.take(x as int)).to_set()),
            views(old(acc)@).no_duplicates() ==> views(acc@).no_duplicates(),
        decreases s.len() - x,
    {
        let ghost before = views(acc@);
        let txt = t.text_of(s[x]);
        insert_unique(acc, txt);
        proof {
            assert(texts_of(*t, s@.take(x + 1)) =~= texts_of(*t, s@.take(x as int)).push(txt@));
            vstd::seq::Seq::<Seq<char>>::lemma_to_set_insert_commutes(texts_of(*t, s@.take(x as int)), txt@);
            assert(texts_of(*t, s@.take(x as int)) + seq![txt@] =~= texts_of(*t, s@.take(x as int)).push(txt@));
            if before.contains(txt@) {
                assert(views(acc@).to_set() =~= views(old(acc)@).to_set().union(texts_of(*t, s@.take(x + 1)).to_set()));
            } else {
                vstd::seq::Seq::<Seq<char>>::lemma_to_set_insert_commutes(before, txt@);
                assert(before + seq![txt@] =~= before.push(txt@));
                assert(views(acc@).to_set() =~= views(old(acc)@).to_set().union(texts_of(*t, s@.take(x + 1)).to_set()));
                if views(old(acc)@).no_duplicates() {
                    assert(views(acc@).no_duplicates()) by {
                        assert forall|i: int, j: int| 0 <= i < j < views(acc@).len() implies views(acc@)[i] != views(acc@)[j] by {
                            if j == before.len() {
                                assert(views(acc@)[i] == before[i]);
                                assert(before.contains(before[i]));
                            } else {
                                assert(views(acc@)[i] == before[i] && views(acc@)[j] == before[j]);
                            }
                        }
                    }
                }
            }
        }
        x = x + 1;
    }
    proof {
        assert(s@.take(s@.len() as int) =~= s@);
    }
}

/// Every selected element satisfies `pred` and is an element of `s`.
pub proof fn lemma_select_where_elems(s: Seq<usize>, pred: spec_fn(usize) -> bool)
    ensures
        forall|x: int| 0 <= x < select_where(s, pred).len() ==> pred(#[trigger] select_where(s, pred)[x]) && s.contains(select_where(s, pred)[x]),
    decreases s.len(),
{
    if s.len() > 0 {
        lemma_select_where_elems(s.drop_last(), pred);
        let r = select_where(s, pred);
        let r0 = select_where(s.drop_last(), pred);
        assert forall|x: int| 0 <= x < r.len() implies pred(#[trigger] r[x]) && s.contains(r[x]) by {
            if x < r0.len() {
                assert(r[x] == r0[x]);
                let y = choose|y: int| 0 <= y < s.drop_last().len() && s.drop_last()[y] == r0[x];
                assert(s[y] == r[x]);
            } else {
                assert(r[x] == s.last());
                assert(s[s.len() - 1] == r[x]);
            }
        }
    }
}

/// The elements of `s` are strictly increasing.
pub open spec fn increasing(s: Seq<usize>) -> bool {
    forall|x: int, y: int| 0 <= x < y < s.len() ==> s[x] < s[y]
}

pub proof fn lemma_increasing_concat(a: Seq<usize>, b: Seq<usize>)
    requires
        increasing(a),
        increasing(b),
        forall|x: int, y: int| 0 <= x < a.len() && 0 <= y < b.len() ==> a[x] < b[y],
    ensures
        increasing(a + b),
{
    let c = a + b;
    assert forall|x: int, y: int| 0 <= x < y < c.len() implies c[x] < c[y] by {
        if y < a.len() {
        } else if x >= a.len() {
            assert(c[x] == b[x - a.len()]);
            assert(c[y] == b[y - a.len()]);
        } else {
            assert(c[y] == b[y - a.len()]);
        }
    }
}

/// A strictly increasing sequence inside `[lo, hi)` has at most `hi - lo` elements.
pub proof fn lemma_increasing_len(s: Seq<usize>, lo: int, hi: int)
    requires
        increasing(s),
        forall|x: int| 0 <= x < s.len() ==> lo <= #[trigger] s[x] < hi,
    ensures
        s.len() <= if hi > lo { hi - lo } else { 0 },
    decreases s.len(),
{
    if s.len() > 0 {
        let t = s.drop_last();
        assert(forall|x: int| 0 <= x < t.len() ==> #[trigger] t[x] == s[x]);
        lemma_increasing_len(t, lo, s.last() as int);
    }
}

/// A test on single nodes of a tree, with its meaning as a spec function.
pub trait NodeTest {
    spec fn holds(&self, t: SyntaxTree, j: int) -> bool;

    fn test(&self, t: &SyntaxTree, j: usize) -> (r: bool)
        requires
            t.wf(),
            j < t.len(),
        ensures
            r == self.holds(*t, j as int),
    ;
}

/// Nodes whose kind is one of `kinds`.
pub struct KindTest<'a> {
    pub kinds: &'a [&'a str],
}

impl<'a> NodeTest for KindTest<'a> {
    open spec fn holds(&self, t: SyntaxTree, j: int) -> bool {
        names(self.kinds@).contains(t.kind(j))
    }

    fn test(&self, t: &SyntaxTree, j: usize) -> (r: bool) {
        t.is_kind_in(j, self.kinds)
    }
}

/// The test `p` as a predicate on node indices of `t`.
pub open spec fn pred_of<P: NodeTest>(p: P, t: SyntaxTree) -> spec_fn(usize) -> bool {
    |j: usize| p.holds(t, j as int)
}

/// Number of nodes in `s` that pass `p`.
pub fn count_matching<P: NodeTest>(t: &SyntaxTree, s: &Vec<usize>, p: &P) -> (r: usize)
    requires
        t.wf(),
        forall|x: int| 0 <= x < s@.len() ==> #[trigger] s@[x] < t.len(),
    ensures
        r == count_where(s@, pred_of(*p, *t)),
        r <= s@.len(),
{
    let mut n: usize = 0;
    let mut x: usize = 0;
    while x < s.len()
        invariant
            t.wf(),
            forall|y: int| 0 <= y < s@.len() ==> #[trigger] s@[y] < t.len(),
            x <= s@.len(),
            n <= x,
            n == count_where(s@.take(x as int), pred_of(*p, *t)),
        decreases s.len() - x,
    {
        proof {
            lemma_count_where_step(s@, x as int, pred_of(*p, *t));
        }
        if p.test(t, s[x]) {
            n = n + 1;
        }
        x = x + 1;
    }
    proof {
        assert(s@.take(s@.len() as int) =~= s@);
    }
    n
}

/// The nodes in `s` that pass `p`, in order.
pub fn select_matching<P: NodeTest>(t: &SyntaxTree, s: &Vec<usize>, p: &P) -> (r: Vec<usize>)
    requires
        t.wf(),
        forall|x: int| 0 <= x < s@.len() ==> #[trigger] s@[x] < t.len(),
    ensures
        r@ == select_where(s@, pred_of(*p, *t)),
{
    let mut out: Vec<usize> = Vec::new();
    let mut x: usize = 0;
    while x < s.len()
        invariant
            t.wf(),
            forall|y: int| 0 <= y < s@.len() ==> #[trigger] s@[y] < t.len(),
            x <= s@.len(),
            out@ == select_where(s@.take(x as int), pred_of(*p, *t)),
        decreases s.len() - x,
    {
        proof {
            lemma_count_where_step(s@, x as int, pred_of(*p, *t));
        }
        if p.test(t, s[x]) {
            out.push(s[x]);
        }
        x = x + 1;
    }
    proof {
        assert(s@.take(s@.len() as int) =~= s@);
    }
    out
}

impl SyntaxTree {
    /// Node `j`, reached at depth `d`, is selected.
    pub open spec fn selects(&self, j: int, d: int, p: PlanSpec) -> bool {
        p.0.contains(self.kind(j)) && d >= p.6
    }

    /// Node `c` below the start of a walk ends the walk there.
    pub open spec fn stops(&self, c: int, p: PlanSpec) -> bool {
        p.1.contains(self.kind(c)) && (self.named(c) || !p.5)
    }

    /// The nodes selected by a walk that reaches node `j` at depth `d`.
    pub open spec fn walk_node(&self, j: int, d: int, p: PlanSpec) -> Seq<usize>
        decreases self.len() - j, 0int,
    {
        if 0 <= j < self.len() && d < p.3 {
            (if self.selects(j, d, p) { seq![j as usize] } else { seq![] }) + (if p.4 && self.selects(j, d, p) {
                seq![]
            } else {
                self.walk_chain(j + 1, self.end(j), if p.2.contains(self.kind(j)) { d + 1 } else { d }, p)
            })
        } else {
            seq![]
        }
    }

    /// The nodes selected by walks over the children from position `c` on, at depth `d`.
    pub open spec fn walk_chain(&self, c: int, e: int, d: int, p: PlanSpec) -> Seq<usize>
        decreases self.len() - c, 1int,
    {
        if self.chain_ok(c, e) {
            (if self.stops(c, p) { seq![] } else { self.walk_node(c, d, p) }) + self.walk_chain(
                self.end(c),
                e,
                d,
                p,
            )
        } else {
            seq![]
        }
    }

    /// Every node a walk selects from `j` lies in `j`'s subtree and has a wanted kind.
    pub proof fn lemma_walk_node(&self, j: int, d: int, p: PlanSpec)
        requires
            self.wf(),
        ensures
            forall|x: int|
                0 <= x < self.walk_node(j, d, p).len() ==> {
                    &&& j <= #[trigger] self.walk_node(j, d, p)[x] < self.end(j)
                    &&& p.0.contains(self.kind(self.walk_node(j, d, p)[x] as int))
                },
            increasing(self.walk_node(j, d, p)),
        decreases self.len() - j, 0int,
    {
        if 0 <= j < self.len() && d < p.3 {
            let nd = if p.2.contains(self.kind(j)) { d + 1 } else { d };
            self.lemma_walk_chain(j + 1, self.end(j), nd, p);
            let head: Seq<usize> = if self.selects(j, d, p) { seq![j as usize] } else { seq![] };
            let w = self.walk_node(j, d, p);
            let rest = if p.4 && self.selects(j, d, p) { seq![] } else { self.walk_chain(j + 1, self.end(j), nd, p) };
            assert(w == head + rest);
            assert forall|x: int| 0 <= x < w.len() implies {
                &&& j <= #[trigger] w[x] < self.end(j)
                &&& p.0.contains(self.kind(w[x] as int))
            } by {
                if x >= head.len() {
                    assert(w[x] == rest[x - head.len()]);
                }
            }
            lemma_increasing_concat(head, rest);
        }
    }

    pub proof fn lemma_walk_chain(&self, c: int, e: int, d: int, p: PlanSpec)
        requires
            self.wf(),
        ensures
            forall|x: int|
                0 <= x < self.walk_chain(c, e, d, p).len() ==> {
                    &&& c <= #[trigger] self.walk_chain(c, e, d, p)[x] < e
                    &&& p.0.contains(self.kind(self.walk_chain(c, e, d, p)[x] as int))
                },
            increasing(self.walk_chain(c, e, d, p)),
        decreases self.len() - c, 1int,
    {
        if self.chain_ok(c, e) {
            self.lemma_walk_node(c, d, p);
            self.lemma_walk_chain(self.end(c), e, d, p);
            let head: Seq<usize> = if self.stops(c, p) { seq![] } else { self.walk_node(c, d, p) };
            let rest = self.walk_chain(self.end(c), e, d, p);
            let w = self.walk_chain(c, e, d, p);
            assert(w == head + rest);
            assert forall|x: int| 0 <= x < w.len() implies {
                &&& c <= #[trigger] w[x] < e
                &&& p.0.contains(self.kind(w[x] as int))
            } by {
                if x >= head.len() {
                    assert(w[x] == rest[x - head.len()]);
                } else {
                    assert(w[x] == head[x]);
                }
            }
            assert(forall|x: int| 0 <= x < head.len() ==> #[trigger] head[x] < self.end(c));
            assert(forall|x: int| 0 <= x < rest.len() ==> #[trigger] rest[x] >= self.end(c));
            lemma_increasing_concat(head, rest);
        }
    }

    /// The deepest level reached below `j`, when `j` sits at level `d` and each node whose
    /// kind is in `marks` adds a level for itself and its subtree.
    pub open spec fn max_depth(&self, j: int, d: int, marks: Seq<Seq<char>>) -> int
        decreases self.len() - j, 0int,
    {
        if 0 <= j < self.len() {
            let nd = if marks.contains(self.kind(j)) { d + 1 } else { d };
            let m = self.max_depth_chain(j + 1, self.end(j), nd, marks);
            if m > nd { m } else { nd }
        } else {
            d
        }
    }

    /// The deepest level reached by the children from position `c` on, all at level `d`.
    pub open spec fn max_depth_chain(&self, c: int, e: int, d: int, marks: Seq<Seq<char>>) -> int
        decreases self.len() - c, 1int,
    {
        if self.chain_ok(c, e) {
            let a = self.max_depth(c, d, marks);
            let b = self.max_depth_chain(self.end(c), e, d, marks);
            if a > b { a } else { b }
        } else {
            d
        }
    }

    pub proof fn lemma_max_depth_bounds(&self, j: int, d: int, marks: Seq<Seq<char>>)
        requires
            self.wf(),
            0 <= j < self.len(),
        ensures
            d <= self.max_depth(j, d, marks) <= d + self.end(j) - j,
        decreases self.len() - j, 0int,
    {
        let nd = if marks.contains(self.kind(j)) { d + 1 } else { d };
        assert(j < self.end(j) <= self.len());
        self.lemma_max_depth_chain_bounds(j + 1, self.end(j), nd, marks);
    }

    pub proof fn lemma_max_depth_chain_bounds(&self, c: int, e: int, d: int, marks: Seq<Seq<char>>)
        requires
            self.wf(),
            0 <= c <= e <= self.len(),
            forall|k: int| c <= k < e ==> #[trigger] self.end(k) <= e,
        ensures
            d <= self.max_depth_chain(c, e, d, marks) <= d + e - c,
        decreases self.len() - c, 1int,
    {
        if self.chain_ok(c, e) {
            self.lemma_max_depth_bounds(c, d, marks);
            self.lemma_max_depth_chain_bounds(self.end(c), e, d, marks);
        }
    }

    /// [`Self::max_depth`] computed by recursion over the children.
    pub fn max_depth_exec(&self, j: usize, d: usize, marks: &[&str]) -> (r: usize)
        requires
            self.wf(),
            j < self.len(),
            d + self.end(j as int) - j < usize::MAX,
        ensures
            r == self.max_depth(j as int, d as int, names(marks@)),
        decreases self.len() - j,
    {
        let nd = if self.is_kind_in(j, marks) {
            d + 1
        } else {
            d
        };
        let e = self.nodes[j].end;
        proof {
            assert(j < self.end(j as int) <= self.len());
        }
        let mut best = nd;
        let mut c = j + 1;
        proof {
            assert forall|k: int| j + 1 <= k < e implies #[trigger] self.end(k) <= e by {
                assert(self.end(k) <= self.end(j as int));
            }
            self.lemma_max_depth_chain_bounds(j + 1, e as int, nd as int, names(marks@));
        }
        while c < e
            invariant
                self.wf(),
                j < self.len(),
                e == self.end(j as int),
                j < c <= e,
                nd <= d + 1,
                d + e - j < usize::MAX,
                nd <= best,
                ({
                    let rest = self.max_depth_chain(c as int, e as int, nd as int, names(marks@));
                    let total = self.max_depth_chain(j + 1, e as int, nd as int, names(marks@));
                    total == if rest > best { rest } else { best as int }
                }),
            decreases e - c,
        {
            let next = self.nodes[c].end;
            proof {
                assert(c < self.end(c as int) <= e);
                assert forall|k: int| j < k < e implies #[trigger] self.end(k) <= e by {
                    assert(self.end(k) <= self.end(j as int));
                }
            }
            let sub = self.max_depth_exec(c, nd, marks);
            if sub > best {
                best = sub;
            }
            c = next;
        }
        proof {
            assert forall|k: int| j + 1 <= k < e implies #[trigger] self.end(k) <= e by {
                assert(self.end(k) <= self.end(j as int));
            }
            self.lemma_max_depth_chain_bounds(j + 1, e as int, nd as int, names(marks@));
        }
        best
    }

    /// A walk from `j` selects at most as many nodes as `j`'s subtree holds.
    pub proof fn lemma_walk_len(&self, j: int, d: int, p: PlanSpec)
        requires
            self.wf(),
            0 <= j < self.len(),
        ensures
            self.walk_node(j, d, p).len() <= self.end(j) - j,
            self.walk_node(j, d, p).len() < usize::MAX,
    {
        self.lemma_walk_node(j, d, p);
        assert(j < self.end(j) <= self.len());
        lemma_increasing_len(self.walk_node(j, d, p), j, self.end(j));
    }

    /// Append to `out` the nodes selected by a walk that reaches node `j` at depth `d`.
    pub fn walk_into(&self, j: usize, d: usize, p: &WalkPlan, out: &mut Vec<usize>)
        requires
            self.wf(),
            j < self.len(),
        ensures
            final(out)@ == old(out)@ + self.walk_node(j as int, d as int, p.spec()),
        decreases self.len() - j,
    {
        if d >= p.limit {
            return;
        }
        let ghost start = out@;
        let wanted = self.is_kind_in(j, p.want) && d >= p.min_depth;
        if wanted {
            out.push(j);
        }
        if wanted && p.prune_wanted {
            proof {
                assert(out@ =~= start + self.walk_node(j as int, d as int, p.spec()));
            }
            return;
        }
        let nd = if self.is_kind_in(j, p.bump) {
            d + 1
        } else {
            d
        };
        let e = self.nodes[j].end;
        proof {
            assert(j < self.end(j as int));
        }
        let mut c = j + 1;
        let ghost base = out@;
        while c < e
            invariant
                self.wf(),
                j < self.len(),
                e == self.end(j as int),
                j < c <= e,
                out@ + self.walk_chain(c as int, e as int, nd as int, p.spec()) == base + self.walk_chain(
                    j + 1,
                    e as int,
                    nd as int,
                    p.spec(),
                ),
            decreases e - c,
        {
            let next = self.nodes[c].end;
            let ghost before = out@;
            proof {
                assert(c < self.end(c as int) <= e);
            }
            let stopped = self.is_kind_in(c, p.stop) && (self.nodes[c].named || !p.stop_named_only);
            if !stopped {
                self.walk_into(c, nd, p, out);
            }
            proof {
                let head: Seq<usize> = if self.stops(c as int, p.spec()) {
                    seq![]
                } else {
                    self.walk_node(c as int, nd as int, p.spec())
                };
                assert(self.walk_chain(c as int, e as int, nd as int, p.spec()) == head + self.walk_chain(
                    next as int,
                    e as int,
                    nd as int,
                    p.spec(),
                ));
                assert(out@ == before + head);
                assert(out@ + self.walk_chain(next as int, e as int, nd as int, p.spec()) =~= before
                    + self.walk_chain(c as int, e as int, nd as int, p.spec()));
            }
            c = next;
        }
        proof {
            assert(out@ =~= out@ + self.walk_chain(c as int, e as int, nd as int, p.spec()));
            let head: Seq<usize> = if self.selects(j as int, d as int, p.spec()) { seq![j] } else { seq![] };
            assert(base == start + head);
            assert(out@ =~= start + self.walk_node(j as int, d as int, p.spec()));
        }
    }

    /// The nodes selected by a walk that starts at node `j` at depth `d`.
    pub fn walk(&self, j: usize, d: usize, p: &WalkPlan) -> (r: Vec<usize>)
        requires
            self.wf(),
            j < self.len(),
        ensures
            r@ == self.walk_node(j as int, d as int, p.spec()),
    {
        let mut out: Vec<usize> = Vec::new();
        self.walk_into(j, d, p, &mut out);
        proof {
            assert(out@ =~= self.walk_node(j as int, d as int, p.spec()));
        }
        out
    }
}

} // verus!
