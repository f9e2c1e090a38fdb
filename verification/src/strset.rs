//! Vectors of strings used as sets that keep first occurrences in order.
use crate::text::str_eq;
use vstd::prelude::*;

verus! {

/// The character sequences of a vector of strings.
pub open spec fn views(v: Seq<String>) -> Seq<Seq<char>> {
    v.map_values(|s: String| s@)
}

/// `s` without repeated elements, keeping first occurrences in order.
pub open spec fn dedup<A>(s: Seq<A>) -> Seq<A>
    decreases s.len(),
{
    if s.len() == 0 {
        seq![]
    } else {
        let d = dedup(s.drop_last());
        if d.contains(s.last()) {
            d
        } else {
            d.push(s.last())
        }
    }
}

/// `dedup` has no repetitions and holds exactly the elements of its argument.
pub proof fn lemma_dedup<A>(s: Seq<A>)
    ensures
        dedup(s).no_duplicates(),
        dedup(s).to_set() == s.to_set(),
        dedup(s).len() == s.to_set().len(),
        dedup(s).len() <= s.len(),
        forall|x: A| dedup(s).contains(x) <==> s.contains(x),
    decreases s.len(),
{
    if s.len() > 0 {
        lemma_dedup(s.drop_last());
        let d = dedup(s.drop_last());
        assert(s.drop_last().push(s.last()) =~= s);
        assert forall|x: A| dedup(s).contains(x) <==> s.contains(x) by {
            let dl = s.drop_last();
            assert(d.contains(x) <==> dl.contains(x));
            if s.contains(x) {
                let i = choose|i: int| 0 <= i < s.len() && s[i] == x;
                if i < s.len() - 1 {
                    assert(dl[i] == x);
                }
            }
            if dl.contains(x) {
                let i = choose|i: int| 0 <= i < dl.len() && dl[i] == x;
                assert(s[i] == x);
            }
            assert(s[s.len() - 1] == s.last());
            if !d.contains(s.last()) {
                let dp = d.push(s.last());
                if dp.contains(x) {
                    let i = choose|i: int| 0 <= i < dp.len() && dp[i] == x;
                    if i < d.len() {
                        assert(d[i] == x);
                    }
                }
                if d.contains(x) {
                    let i = choose|i: int| 0 <= i < d.len() && d[i] == x;
                    assert(dp[i] == x);
                }
                assert(dp[d.len() as int] == s.last());
            }
        }
        assert(dedup(s).to_set() =~= s.to_set());
        if !d.contains(s.last()) {
            assert(d.push(s.last()).no_duplicates()) by {
                assert forall|i: int, j: int| 0 <= i < j < d.push(s.last()).len() implies d.push(s.last())[i] != d.push(s.last())[j] by {
                    if j == d.len() {
                        assert(d.push(s.last())[i] == d[i]);
                    }
                }
            }
        }
        dedup(s).unique_seq_to_set();
    } else {
        assert(dedup(s).to_set() =~= Set::<A>::empty());
        assert(s.to_set() =~= Set::<A>::empty());
    }
}

pub proof fn lemma_dedup_push<A>(s: Seq<A>, x: A)
    ensures
        dedup(s.push(x)) == if dedup(s).contains(x) { dedup(s) } else { dedup(s).push(x) },
{
    assert(s.push(x).drop_last() =~= s);
}

/// `true` when some string of `v` equals `s`.
pub fn contains_str(v: &Vec<String>, s: &str) -> (r: bool)
    ensures
        r == views(v@).contains(s@),
{
    let mut i: usize = 0;
    while i < v.len()
        invariant
            i <= v@.len(),
            forall|k: int| 0 <= k < i ==> v@[k]@ != s@,
        decreases v.len() - i,
    {
        if str_eq(v[i].as_str(), s) {
            proof {
                assert(views(v@)[i as int] == s@);
            }
            return true;
        }
        i = i + 1;
    }
    proof {
        if views(v@).contains(s@) {
            let k = choose|k: int| 0 <= k < views(v@).len() && views(v@)[k] == s@;
            assert(v@[k]@ == s@);
        }
    }
    false
}

/// Append `s` unless an equal string is already present.
pub fn insert_unique(v: &mut Vec<String>, s: &str)
    ensures
        views(final(v)@) == if views(old(v)@).contains(s@) { views(old(v)@) } else { views(old(v)@).push(s@) },
{
    if !contains_str(v, s) {
        v.push(s.to_owned());
        proof {
            assert(views(v@) =~= views(old(v)@).push(s@));
        }
    }
}

/// Strings of `v`, deduplicated.
pub fn dedup_strings(v: &Vec<String>) -> (r: Vec<String>)
    ensures
        views(r@) == dedup(views(v@)),
{
    let mut out: Vec<String> = Vec::new();
    let mut i: usize = 0;
    while i < v.len()
        invariant
            i <= v@.len(),
            views(out@) == dedup(views(v@.take(i as int))),
        decreases v.len() - i,
    {
        proof {
            assert(views(v@.take(i + 1)) =~= views(v@.take(i as int)).push(v@[i as int]@));
            lemma_dedup_push(views(v@.take(i as int)), v@[i as int]@);
        }
        insert_unique(&mut out, v[i].as_str());
        i = i + 1;
    }
    proof {
        assert(v@.take(v@.len() as int) =~= v@);
    }
    out
}

/// The two vectors share an element.
pub fn share_any(a: &Vec<String>, b: &Vec<String>) -> (r: bool)
    ensures
        r == exists|x: Seq<char>| views(a@).contains(x) && views(b@).contains(x),
{
    let mut i: usize = 0;
    while i < a.len()
        invariant
            i <= a@.len(),
            forall|k: int| 0 <= k < i ==> !views(b@).contains(#[trigger] a@[k]@),
        decreases a.len() - i,
    {
        if contains_str(b, a[i].as_str()) {
            proof {
                assert(views(a@)[i as int] == a@[i as int]@);
            }
            return true;
        }
        i = i + 1;
    }
    proof {
        assert forall|x: Seq<char>| !(views(a@).contains(x) && views(b@).contains(x)) by {
            if views(a@).contains(x) {
                let k = choose|k: int| 0 <= k < views(a@).len() && views(a@)[k] == x;
                assert(a@[k]@ == x);
            }
        }
    }
    false
}

/// Lexicographic order on character sequences by code point (the order of std's `str`).
pub open spec fn seq_lt(a: Seq<char>, b: Seq<char>) -> bool
    decreases a.len(),
{
    if a.len() == 0 {
        b.len() > 0
    } else if b.len() == 0 {
        false
    } else if a[0] != b[0] {
        (a[0] as int) < (b[0] as int)
    } else {
        seq_lt(a.drop_first(), b.drop_first())
    }
}

pub proof fn lemma_seq_lt_irreflexive(a: Seq<char>)
    ensures
        !seq_lt(a, a),
    decreases a.len(),
{
    if a.len() > 0 {
        lemma_seq_lt_irreflexive(a.drop_first());
    }
}

pub proof fn lemma_seq_lt_total(a: Seq<char>, b: Seq<char>)
    ensures
        a != b ==> seq_lt(a, b) || seq_lt(b, a),
        !(seq_lt(a, b) && seq_lt(b, a)),
    decreases a.len(),
{
    if a.len() > 0 && b.len() > 0 {
        if a[0] == b[0] {
            lemma_seq_lt_total(a.drop_first(), b.drop_first());
            if a.drop_first() == b.drop_first() {
                assert(a =~= seq![a[0]] + a.drop_first());
                assert(b =~= seq![b[0]] + b.drop_first());
            }
        }
    } else if a.len() == 0 && b.len() == 0 {
        assert(a =~= b);
    }
}

pub proof fn lemma_seq_lt_transitive(a: Seq<char>, b: Seq<char>, c: Seq<char>)
    requires
        seq_lt(a, b),
        seq_lt(b, c),
    ensures
        seq_lt(a, c),
    decreases a.len(),
{
    if a.len() > 0 && b.len() > 0 && c.len() > 0 {
        if a[0] == b[0] && b[0] == c[0] {
            lemma_seq_lt_transitive(a.drop_first(), b.drop_first(), c.drop_first());
        }
    }
}

/// Strictly increasing in the order of [`seq_lt`].
pub open spec fn sorted_strict(s: Seq<Seq<char>>) -> bool {
    forall|i: int, j: int| 0 <= i < j < s.len() ==> seq_lt(#[trigger] s[i], #[trigger] s[j])
}

/// std `<` on strings.
#[verifier::external_body]
pub(crate) fn str_lt(a: &str, b: &str) -> (r: bool)
    ensures
        r == seq_lt(a@, b@),
{
    a < b
}

/// The strings of `v` in increasing order, each once.
pub fn sort_unique(v: &Vec<String>) -> (r: Vec<String>)
    ensures
        sorted_strict(views(r@)),
        views(r@).to_set() == views(v@).to_set(),
        views(r@).no_duplicates(),
        views(r@).len() == views(v@).to_set().len(),
{
    let mut out: Vec<String> = Vec::new();
    let mut k: usize = 0;
    while k < v.len()
        invariant
            k <= v@.len(),
            sorted_strict(views(out@)),
            views(out@).to_set() == views(v@.take(k as int)).to_set(),
        decreases v.len() - k,
    {
        let x = v[k].as_str();
        proof {
            assert(views(v@.take(k + 1)) =~= views(v@.take(k as int)).push(x@));
        }
        if !contains_str(&out, x) {
            let mut i: usize = 0;
            while i < out.len() && !str_lt(x, out[i].as_str())
                invariant
                    i <= out@.len(),
                    forall|q: int| 0 <= q < i ==> !seq_lt(x@, #[trigger] views(out@)[q]),
                decreases out.len() - i,
            {
                i = i + 1;
            }
            let ghost old_out = views(out@);
            out.insert(i, x.to_owned());
            proof {
                let n = views(out@);
                assert(n =~= old_out.take(i as int).push(x@) + old_out.skip(i as int));
                assert forall|p: int, q: int| 0 <= p < q < n.len() implies seq_lt(#[trigger] n[p], #[trigger] n[q]) by {
                    if q < i {
                        assert(n[p] == old_out[p] && n[q] == old_out[q]);
                    } else if q == i {
                        assert(n[p] == old_out[p]);
                        assert(!seq_lt(x@, old_out[p]));
                        assert(old_out[p] != x@) by {
                            assert(old_out.contains(old_out[p]));
                        }
                        lemma_seq_lt_total(old_out[p], x@);
                    } else if p == i {
                        assert(n[q] == old_out[q - 1]);
                        assert(seq_lt(x@, old_out[i as int]));
                        if q - 1 > i {
                            lemma_seq_lt_transitive(x@, old_out[i as int], old_out[q - 1]);
                        }
                    } else if p < i {
                        assert(n[p] == old_out[p] && n[q] == old_out[q - 1]);
                    } else {
                        assert(n[p] == old_out[p - 1] && n[q] == old_out[q - 1]);
                    }
                }
                assert(n.to_set() =~= old_out.to_set().insert(x@)) by {
                    assert forall|y: Seq<char>| n.to_set().contains(y) <==> old_out.to_set().insert(x@).contains(y) by {
                        if n.contains(y) {
                            let q = choose|q: int| 0 <= q < n.len() && n[q] == y;
                            if q < i {
                                assert(old_out[q] == y);
                            } else if q > i {
                                assert(old_out[q - 1] == y);
                            }
                        }
                        if old_out.contains(y) {
                            let q = choose|q: int| 0 <= q < old_out.len() && old_out[q] == y;
                            if q < i {
                                assert(n[q] == y);
                            } else {
                                assert(n[q + 1] == y);
                            }
                        }
                        if y == x@ {
                            assert(n[i as int] == y);
                        }
                    }
                }
                assert(views(v@.take(k + 1)).to_set() =~= views(v@.take(k as int)).to_set().insert(x@)) by {
                    vstd::seq::Seq::<Seq<char>>::lemma_to_set_insert_commutes(views(v@.take(k as int)), x@);
                    assert(views(v@.take(k as int)) + seq![x@] =~= views(v@.take(k + 1)));
                }
            }
        } else {
            proof {
                assert(views(v@.take(k + 1)).to_set() =~= views(v@.take(k as int)).to_set()) by {
                    assert forall|y: Seq<char>| views(v@.take(k + 1)).to_set().contains(y) <==> views(v@.take(k as int)).to_set().contains(y) by {
                        let a = views(v@.take(k as int));
                        if a.push(x@).contains(y) {
                            let q = choose|q: int| 0 <= q < a.push(x@).len() && a.push(x@)[q] == y;
                            if q < a.len() {
                                assert(a[q] == y);
                            } else {
                                assert(views(out@).to_set().contains(x@));
                            }
                        }
                        if a.contains(y) {
                            let q = choose|q: int| 0 <= q < a.len() && a[q] == y;
                            assert(a.push(x@)[q] == y);
                        }
                    }
                }
            }
        }
        k = k + 1;
    }
    proof {
        assert(v@.take(v@.len() as int) =~= v@);
        let r = views(out@);
        assert(r.no_duplicates()) by {
            assert forall|p: int, q: int| 0 <= p < r.len() && 0 <= q < r.len() && p != q implies r[p] != r[q] by {
                if p < q {
                    assert(seq_lt(r[p], r[q]));
                    lemma_seq_lt_irreflexive(r[p]);
                } else {
                    assert(seq_lt(r[q], r[p]));
                    lemma_seq_lt_irreflexive(r[q]);
                }
            }
        }
        r.unique_seq_to_set();
    }
    out
}

/// The two sets have an element in common.
pub open spec fn shares(a: Set<Seq<char>>, b: Set<Seq<char>>) -> bool {
    exists|x: Seq<char>| a.contains(x) && b.contains(x)
}

/// Number of `k` in `[j, fs.len())` whose set shares an element with `fs[i]`.
pub open spec fn linked_after(fs: Seq<Set<Seq<char>>>, i: int, j: int) -> nat
    decreases fs.len() - j,
{
    if j < 0 || j >= fs.len() {
        0
    } else {
        (if shares(fs[i], fs[j]) { 1nat } else { 0nat }) + linked_after(fs, i, j + 1)
    }
}

/// Number of pairs `i' < k` with `i' >= i` whose sets share an element.
pub open spec fn linked_from(fs: Seq<Set<Seq<char>>>, i: int) -> nat
    decreases fs.len() - i,
{
    if i < 0 || i >= fs.len() {
        0
    } else {
        linked_after(fs, i, i + 1) + linked_from(fs, i + 1)
    }
}

/// Pairs `(i, k)` with `j <= k` counted for set `i` are at most the sets from `j` on.
pub proof fn lemma_linked_after_bound(fs: Seq<Set<Seq<char>>>, i: int, j: int)
    requires
        0 <= j <= fs.len(),
    ensures
        linked_after(fs, i, j) <= fs.len() - j,
    decreases fs.len() - j,
{
    if j < fs.len() {
        lemma_linked_after_bound(fs, i, j + 1);
    }
}

/// Pairs among the sets from `i` on are at most `m·(m−1)/2` for `m` such sets.
pub proof fn lemma_linked_from_bound(fs: Seq<Set<Seq<char>>>, i: int)
    requires
        0 <= i <= fs.len(),
    ensures
        2 * linked_from(fs, i) <= (fs.len() - i) * (fs.len() - i - 1),
    decreases fs.len() - i,
{
    if i < fs.len() {
        lemma_linked_from_bound(fs, i + 1);
        lemma_linked_after_bound(fs, i, i + 1);
        let n = fs.len() as int;
        let a = linked_after(fs, i, i + 1) as int;
        let b = linked_from(fs, i + 1) as int;
        assert(linked_from(fs, i) == a + b);
        assert(2 * (a + b) <= (n - i) * (n - i - 1)) by (nonlinear_arith)
            requires
                0 <= i < n,
                a <= n - (i + 1),
                2 * b <= (n - (i + 1)) * (n - (i + 1) - 1),
        ;
    } else {
        let n = fs.len() as int;
        assert((n - i) * (n - i - 1) == 0) by (nonlinear_arith)
            requires
                i == n,
        ;
    }
}

/// `n` items make `n·(n−1)` ordered pairs, a number that fits in a `usize` (so their
/// `n·(n−1)/2` unordered pairs can be counted).
pub open spec fn pairs_fit(n: int) -> bool {
    n * (n - 1) <= usize::MAX
}

/// `true` when `pairs_fit(n)`.
pub fn pairs_fit_exec(n: usize) -> (r: bool)
    ensures
        r == pairs_fit(n as int),
{
    if n == 0 {
        return true;
    }
    n.checked_mul(n - 1).is_some()
}

/// Number of pairs `i < j` of string lists that share a string.
pub fn count_connected_pairs(fs: &Vec<Vec<String>>) -> (r: usize)
    requires
        pairs_fit(fs@.len() as int),
    ensures
        r == linked_from(fs@.map_values(|v: Vec<String>| views(v@).to_set()), 0),
{
    let ghost sets = fs@.map_values(|v: Vec<String>| views(v@).to_set());
    let n = fs.len();
    proof {
        lemma_linked_from_bound(sets, 0);
        assert(linked_from(sets, 0) <= usize::MAX) by (nonlinear_arith)
            requires
                2 * linked_from(sets, 0) <= (n - 0) * (n - 0 - 1),
                n * (n - 1) <= usize::MAX,
                n >= 0,
        ;
    }
    let mut count: usize = 0;
    let mut i: usize = 0;
    while i < n
        invariant
            n == fs@.len(),
            linked_from(sets, 0) <= usize::MAX,
            sets == fs@.map_values(|v: Vec<String>| views(v@).to_set()),
            i <= n,
            count + linked_from(sets, i as int) == linked_from(sets, 0),
        decreases n - i,
    {
        let mut c: usize = 0;
        let mut j = i + 1;
        while j < n
            invariant
                n == fs@.len(),
                sets == fs@.map_values(|v: Vec<String>| views(v@).to_set()),
                i < n,
                i + 1 <= j <= n,
                c + linked_after(sets, i as int, j as int) == linked_after(sets, i as int, i + 1),
                count + linked_after(sets, i as int, i + 1) + linked_from(sets, i + 1) == linked_from(sets, 0),
                linked_from(sets, 0) <= usize::MAX,
            decreases n - j,
        {
            let sh = share_any(&fs[i], &fs[j]);
            proof {
                let a = views(fs@[i as int]@);
                let b = views(fs@[j as int]@);
                assert(sets[i as int] == a.to_set());
                assert(sets[j as int] == b.to_set());
                if sh {
                    let x = choose|x: Seq<char>| a.contains(x) && b.contains(x);
                    assert(sets[i as int].contains(x) && sets[j as int].contains(x));
                } else {
                    assert forall|x: Seq<char>| !(sets[i as int].contains(x) && sets[j as int].contains(x)) by {
                        if sets[i as int].contains(x) && sets[j as int].contains(x) {
                            assert(a.contains(x) && b.contains(x));
                        }
                    }
                }
                assert(sh == shares(sets[i as int], sets[j as int]));
            }
            if sh {
                c = c + 1;
            }
            j = j + 1;
        }
        count = count + c;
        i = i + 1;
    }
    count
}

/// Insert `s` into the string set `acc`, keeping it free of duplicates.
pub fn add_unique(acc: &mut Vec<String>, s: &str)
    requires
        views(old(acc)@).no_duplicates(),
    ensures
        views(final(acc)@).no_duplicates(),
        views(final(acc)@).to_set() == views(old(acc)@).to_set().insert(s@),
{
    let ghost before = views(acc@);
    insert_unique(acc, s);
    proof {
        if before.contains(s@) {
            assert(before.to_set().insert(s@) =~= before.to_set());
        } else {
            vstd::seq::Seq::<Seq<char>>::lemma_to_set_insert_commutes(before, s@);
            assert(before + seq![s@] =~= before.push(s@));
            assert forall|a: int, b: int| 0 <= a < b < views(acc@).len() implies views(acc@)[a] != views(acc@)[b] by {
                if b == before.len() {
                    assert(before.contains(before[a]));
                }
            }
        }
    }
}

} // verus!
