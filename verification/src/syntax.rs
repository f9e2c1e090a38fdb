//! A syntax tree held as plain values.
//!
//! Nodes are stored in pre-order: the subtree of node `i` is the contiguous
//! index range `i .. end(i)`, and its children are `i + 1`, `end(i + 1)`, …,
//! up to `end(i)`.
use crate::text::str_eq;
use vstd::prelude::*;

verus! {

/// One node of a syntax tree.
pub struct SyntaxNode {
    /// Grammar kind of the node (e.g. `if_statement`, `identifier`, `&&`).
    pub kind: String,
    /// Field name under which the node hangs from its parent, if any.
    pub field: Option<String>,
    /// Named node (as opposed to an anonymous token).
    pub named: bool,
    /// Extra node (comments and the like).
    pub extra: bool,
    /// Source text covered by the node.
    pub text: String,
    /// Zero-based row of the first character.
    pub start_row: usize,
    /// Zero-based row of the last character.
    pub end_row: usize,
    /// One past the last index of the node's subtree.
    pub end: usize,
    /// Index of the parent node (`None` for the root).
    pub parent: Option<usize>,
}

/// A syntax tree whose root is node 0, with the source text it was built from.
pub struct SyntaxTree {
    pub nodes: Vec<SyntaxNode>,
    pub source: String,
    /// Read with the TSX grammar (otherwise with the TypeScript one).
    pub tsx: bool,
}

/// Kind names given as string literals, viewed as character sequences.
pub open spec fn names(l: Seq<&str>) -> Seq<Seq<char>> {
    l.map_values(|s: &str| s@)
}

impl SyntaxTree {
    pub open spec fn len(&self) -> int {
        self.nodes@.len() as int
    }

    pub open spec fn end(&self, i: int) -> int {
        self.nodes@[i].end as int
    }

    pub open spec fn kind(&self, i: int) -> Seq<char> {
        self.nodes@[i].kind@
    }

    pub open spec fn text(&self, i: int) -> Seq<char> {
        self.nodes@[i].text@
    }

    pub open spec fn row(&self, i: int) -> int {
        self.nodes@[i].start_row as int
    }

    pub open spec fn named(&self, i: int) -> bool {
        self.nodes@[i].named
    }

    pub open spec fn parent(&self, i: int) -> Option<usize> {
        self.nodes@[i].parent
    }

    /// Node `i` hangs from its parent under the field `name`.
    pub open spec fn has_field(&self, i: int, name: Seq<char>) -> bool {
        match self.nodes@[i].field {
            Some(f) => f@ == name,
            None => false,
        }
    }

    pub open spec fn kind_in(&self, i: int, ks: Seq<&str>) -> bool {
        names(ks).contains(self.kind(i))
    }

    /// Structural well-formedness of the pre-order layout.
    pub open spec fn wf(&self) -> bool {
        &&& 0 < self.len() < usize::MAX
        &&& self.end(0) == self.len()
        &&& self.parent(0) is None
        &&& forall|i: int| 0 <= i < self.len() ==> i < #[trigger] self.end(i) <= self.len()
        &&& forall|i: int| 0 <= i < self.len() ==> #[trigger] self.nodes@[i].start_row <= self.nodes@[i].end_row < usize::MAX
        &&& forall|i: int, j: int|
            #![trigger self.end(i), self.end(j)]
            0 <= i < j < self.end(i) && i < self.len() ==> self.end(j) <= self.end(i)
        &&& forall|j: int|
            0 < j < self.len() ==> {
                &&& (#[trigger] self.parent(j)) is Some
                &&& self.parent(j).unwrap() < j < self.end(self.parent(j).unwrap() as int)
            }
    }

    /// `c` is a child position within a parent whose subtree ends at `e`.
    pub open spec fn chain_ok(&self, c: int, e: int) -> bool {
        0 <= c < e && e <= self.len() && c < self.end(c) <= e
    }

    /// The children found from position `c` onward, inside a subtree ending at `e`.
    pub open spec fn chain(&self, c: int, e: int) -> Seq<usize>
        decreases e - c,
    {
        if self.chain_ok(c, e) {
            seq![c as usize] + self.chain(self.end(c), e)
        } else {
            seq![]
        }
    }

    /// The children of node `i`, in order.
    pub open spec fn children(&self, i: int) -> Seq<usize> {
        self.chain(i + 1, self.end(i))
    }

    /// The first child of `i` (from position `c` on) that hangs under field `name`.
    pub open spec fn field_in_chain(&self, c: int, e: int, name: Seq<char>) -> Option<usize>
        decreases e - c,
    {
        if self.chain_ok(c, e) {
            if self.has_field(c, name) {
                Some(c as usize)
            } else {
                self.field_in_chain(self.end(c), e, name)
            }
        } else {
            None
        }
    }

    /// The first child of `i` hanging under field `name` (tree-sitter's `child_by_field_name`).
    pub open spec fn child_by_field(&self, i: int, name: Seq<char>) -> Option<usize> {
        self.field_in_chain(i + 1, self.end(i), name)
    }

    /// Number of named children of `i`.
    pub open spec fn named_count_chain(&self, c: int, e: int) -> nat
        decreases e - c,
    {
        if self.chain_ok(c, e) {
            (if self.named(c) { 1nat } else { 0nat }) + self.named_count_chain(self.end(c), e)
        } else {
            0
        }
    }

    pub open spec fn named_child_count(&self, i: int) -> nat {
        self.named_count_chain(i + 1, self.end(i))
    }

    /// The first child of `i` whose kind is `k`.
    pub open spec fn kind_in_chain(&self, c: int, e: int, k: Seq<char>) -> Option<usize>
        decreases e - c,
    {
        if self.chain_ok(c, e) {
            if self.kind(c) == k {
                Some(c as usize)
            } else {
                self.kind_in_chain(self.end(c), e, k)
            }
        } else {
            None
        }
    }

    pub open spec fn first_child_of_kind(&self, i: int, k: Seq<char>) -> Option<usize> {
        self.kind_in_chain(i + 1, self.end(i), k)
    }

    /// Every element of a chain is a node strictly inside the subtree that ends at `e`.
    pub proof fn lemma_chain_bounds(&self, c: int, e: int)
        requires
            self.wf(),
        ensures
            forall|x: int|
                0 <= x < self.chain(c, e).len() ==> c <= #[trigger] self.chain(c, e)[x] < e,
        decreases e - c,
    {
        if self.chain_ok(c, e) {
            self.lemma_chain_bounds(self.end(c), e);
            let s = self.chain(c, e);
            assert(s == seq![c as usize] + self.chain(self.end(c), e));
            assert forall|x: int| 0 <= x < s.len() implies c <= #[trigger] s[x] < e by {
                if x > 0 {
                    assert(s[x] == self.chain(self.end(c), e)[x - 1]);
                }
            }
        }
    }

    /// Consecutive elements of a chain are consecutive subtrees, and the chain ends at `e`.
    pub proof fn lemma_chain_next(&self, c: int, e: int)
        requires
            self.wf(),
            c <= e,
            forall|k: int| c <= k < e ==> #[trigger] self.end(k) <= e,
        ensures
            self.chain(c, e).len() > 0 ==> self.chain(c, e)[0] == c,
            forall|x: int|
                0 <= x < self.chain(c, e).len() - 1 ==> #[trigger] self.chain(c, e)[x + 1] == self.end(
                    self.chain(c, e)[x] as int,
                ),
            self.chain(c, e).len() > 0 ==> self.end(self.chain(c, e).last() as int) == e,
        decreases e - c,
    {
        if self.chain_ok(c, e) {
            self.lemma_chain_next(self.end(c), e);
            let s = self.chain(c, e);
            let r = self.chain(self.end(c), e);
            assert(s == seq![c as usize] + r);
            assert forall|x: int| 0 <= x < s.len() - 1 implies #[trigger] s[x + 1] == self.end(s[x] as int) by {
                if x > 0 {
                    assert(s[x] == r[x - 1]);
                    assert(s[x + 1] == r[x]);
                    let y = x - 1;
                    assert(r[y + 1] == self.end(r[y] as int));
                } else {
                    assert(s[1] == r[0]);
                    assert(r[0] == self.end(c));
                }
            }
            if r.len() == 0 {
                if self.end(c) < e {
                    assert(self.end(c) < self.end(self.end(c)));
                }
            }
        }
    }

    /// A chain within `[c, e)` has at most `e - c` elements.
    pub proof fn lemma_chain_len(&self, c: int, e: int)
        requires
            self.wf(),
        ensures
            self.chain(c, e).len() <= if e > c { e - c } else { 0 },
        decreases e - c,
    {
        if self.chain_ok(c, e) {
            self.lemma_chain_len(self.end(c), e);
        }
    }

    pub proof fn lemma_children_bounds(&self, i: int)
        requires
            self.wf(),
            0 <= i < self.len(),
        ensures
            forall|x: int|
                0 <= x < self.children(i).len() ==> i < #[trigger] self.children(i)[x] < self.end(i),
    {
        self.lemma_chain_bounds(i + 1, self.end(i));
    }

    /// The text of the `name` field of `j`, or `<anonymous>` when it has none.
    pub open spec fn display_name(&self, j: int) -> Seq<char> {
        match self.child_by_field(j, "name"@) {
            Some(n) => self.text(n as int),
            None => "<anonymous>"@,
        }
    }

    // ── executable accessors ─────────────────────────────────────────────

    /// The text of the `name` field of `j`, or `<anonymous>` when it has none.
    pub fn display_name_of(&self, j: usize) -> (r: String)
        requires
            self.wf(),
            j < self.len(),
        ensures
            r@ == self.display_name(j as int),
    {
        match self.child_by_field_name(j, "name") {
            Some(n) => self.text_of(n).to_owned(),
            None => "<anonymous>".to_owned(),
        }
    }

    /// Index of the root node.
    pub fn root(&self) -> (r: usize)
        ensures
            r == 0,
    {
        0
    }

    /// The source text the tree was built from.
    pub fn source_text(&self) -> (r: &str)
        ensures
            r@ == self.source@,
    {
        self.source.as_str()
    }

    /// Number of nodes in the tree.
    pub fn node_count(&self) -> (r: usize)
        ensures
            r == self.len(),
    {
        self.nodes.len()
    }

    /// Grammar kind of node `i`.
    pub fn kind_of(&self, i: usize) -> (r: &str)
        requires
            i < self.len(),
        ensures
            r@ == self.kind(i as int),
    {
        self.nodes[i].kind.as_str()
    }

    /// Source text of node `i`.
    pub fn text_of(&self, i: usize) -> (r: &str)
        requires
            i < self.len(),
        ensures
            r@ == self.text(i as int),
    {
        self.nodes[i].text.as_str()
    }

    /// One-based line on which node `i` starts.
    pub fn line_of(&self, i: usize) -> (r: usize)
        requires
            self.wf(),
            i < self.len(),
        ensures
            r == self.row(i as int) + 1,
    {
        proof {
            assert(self.nodes@[i as int].start_row <= self.nodes@[i as int].end_row < usize::MAX);
        }
        self.nodes[i].start_row + 1
    }

    /// Zero-based row of node `i`'s first character.
    pub fn start_row_of(&self, i: usize) -> (r: usize)
        requires
            i < self.len(),
        ensures
            r == self.row(i as int),
    {
        self.nodes[i].start_row
    }

    /// Zero-based row of node `i`'s last character.
    pub fn end_row_of(&self, i: usize) -> (r: usize)
        requires
            i < self.len(),
        ensures
            r == self.nodes@[i as int].end_row,
    {
        self.nodes[i].end_row
    }

    /// Parent of node `i`.
    pub fn parent_of(&self, i: usize) -> (r: Option<usize>)
        requires
            self.wf(),
            i < self.len(),
        ensures
            r == self.parent(i as int),
            r matches Some(p) ==> p < i,
    {
        proof {
            if i > 0 {
                assert(self.parent(i as int) is Some);
            }
        }
        self.nodes[i].parent
    }

    /// Node `i` has kind `k`.
    pub fn is_kind(&self, i: usize, k: &str) -> (r: bool)
        requires
            i < self.len(),
        ensures
            r == (self.kind(i as int) == k@),
    {
        str_eq(self.nodes[i].kind.as_str(), k)
    }

    /// Node `i` has one of the kinds in `ks`.
    pub fn is_kind_in(&self, i: usize, ks: &[&str]) -> (r: bool)
        requires
            i < self.len(),
        ensures
            r == self.kind_in(i as int, ks@),
    {
        let mut x: usize = 0;
        while x < ks.len()
            invariant
                i < self.len(),
                x <= ks@.len(),
                forall|y: int| 0 <= y < x ==> ks@[y]@ != self.kind(i as int),
            decreases ks.len() - x,
        {
            if str_eq(self.nodes[i].kind.as_str(), ks[x]) {
                proof {
                    assert(names(ks@)[x as int] == self.kind(i as int));
                }
                return true;
            }
            x = x + 1;
        }
        proof {
            if names(ks@).contains(self.kind(i as int)) {
                let y = choose|y: int| 0 <= y < names(ks@).len() && names(ks@)[y] == self.kind(i as int);
                assert(ks@[y]@ == self.kind(i as int));
            }
        }
        false
    }

    /// Child positions of node `i`, in order.
    pub fn children_of(&self, i: usize) -> (r: Vec<usize>)
        requires
            self.wf(),
            i < self.len(),
        ensures
            r@ == self.children(i as int),
    {
        let e = self.nodes[i].end;
        proof {
            assert(i < self.end(i as int));
        }
        let mut out: Vec<usize> = Vec::new();
        let mut c = i + 1;
        while c < e
            invariant
                self.wf(),
                i < self.len(),
                e == self.end(i as int),
                i < c <= e,
                out@ + self.chain(c as int, e as int) == self.children(i as int),
            decreases e - c,
        {
            let next = self.nodes[c].end;
            proof {
                assert(self.chain(c as int, e as int) == seq![c] + self.chain(next as int, e as int));
                assert(out@.push(c) + self.chain(next as int, e as int) =~= out@ + self.chain(c as int, e as int));
            }
            out.push(c);
            c = next;
        }
        proof {
            assert(out@ + self.chain(c as int, e as int) =~= out@);
        }
        out
    }

    /// First child of `i` that hangs under field `name`.
    pub fn child_by_field_name(&self, i: usize, name: &str) -> (r: Option<usize>)
        requires
            self.wf(),
            i < self.len(),
        ensures
            r == self.child_by_field(i as int, name@),
            r matches Some(c) ==> i < c < self.end(i as int),
    {
        let e = self.nodes[i].end;
        proof {
            assert(i < self.end(i as int));
        }
        let mut c = i + 1;
        while c < e
            invariant
                self.wf(),
                i < self.len(),
                e == self.end(i as int),
                i < c <= e,
                self.field_in_chain(c as int, e as int, name@) == self.child_by_field(i as int, name@),
            decreases e - c,
        {
            let found = match &self.nodes[c].field {
                Some(f) => str_eq(f.as_str(), name),
                None => false,
            };
            if found {
                return Some(c);
            }
            c = self.nodes[c].end;
        }
        None
    }

    /// First child of `i` whose kind is `k`.
    pub fn child_of_kind(&self, i: usize, k: &str) -> (r: Option<usize>)
        requires
            self.wf(),
            i < self.len(),
        ensures
            r == self.first_child_of_kind(i as int, k@),
            r matches Some(c) ==> i < c < self.end(i as int),
    {
        let e = self.nodes[i].end;
        proof {
            assert(i < self.end(i as int));
        }
        let mut c = i + 1;
        while c < e
            invariant
                self.wf(),
                i < self.len(),
                e == self.end(i as int),
                i < c <= e,
                self.kind_in_chain(c as int, e as int, k@) == self.first_child_of_kind(i as int, k@),
            decreases e - c,
        {
            if str_eq(self.nodes[c].kind.as_str(), k) {
                return Some(c);
            }
            c = self.nodes[c].end;
        }
        None
    }

    /// Number of named children of `i`.
    pub fn named_child_count_of(&self, i: usize) -> (r: usize)
        requires
            self.wf(),
            i < self.len(),
        ensures
            r == self.named_child_count(i as int),
    {
        let e = self.nodes[i].end;
        proof {
            assert(i < self.end(i as int));
        }
        let mut c = i + 1;
        let mut n: usize = 0;
        while c < e
            invariant
                self.wf(),
                i < self.len(),
                e == self.end(i as int),
                i < c <= e,
                n + self.named_count_chain(c as int, e as int) == self.named_child_count(i as int),
                n <= c - i - 1,
            decreases e - c,
        {
            if self.nodes[c].named {
                n = n + 1;
            }
            c = self.nodes[c].end;
        }
        n
    }
}

} // verus!
