//! Number of Implemented Interfaces (NOI): the types listed after `implements`.
use crate::syntax::SyntaxTree;
use vstd::prelude::*;

verus! {

/// NOI from the children of a class from position `c` on: the first
/// `implements_clause`, directly or inside a `class_heritage`, gives its number of
/// named children.
pub open spec fn noi_in_chain(t: SyntaxTree, c: int, e: int) -> nat
    decreases e - c,
{
    if t.chain_ok(c, e) {
        if t.kind(c) == "class_heritage"@ {
            match t.first_child_of_kind(c, "implements_clause"@) {
                Some(i) => t.named_child_count(i as int),
                None => noi_in_chain(t, t.end(c), e),
            }
        } else if t.kind(c) == "implements_clause"@ {
            t.named_child_count(c)
        } else {
            noi_in_chain(t, t.end(c), e)
        }
    } else {
        0
    }
}

/// The NOI of class `c`.
pub open spec fn spec_noi(t: SyntaxTree, c: int) -> nat {
    noi_in_chain(t, c + 1, t.end(c))
}

/// Count the number of interfaces class `c` explicitly implements.
pub fn count_implemented_interfaces(t: &SyntaxTree, c: usize) -> (r: usize)
    requires
        t.wf(),
        c < t.len(),
    ensures
        r == spec_noi(*t, c as int),
{
    let e = t.nodes[c].end;
    proof {
        assert(c < t.end(c as int) <= t.len());
    }
    let mut k = c + 1;
    while k < e
        invariant
            t.wf(),
            c < t.len(),
            e == t.end(c as int),
            c < k <= e,
            noi_in_chain(*t, k as int, e as int) == spec_noi(*t, c as int),
        decreases e - k,
    {
        let next = t.nodes[k].end;
        proof {
            assert(k < t.end(k as int) <= e);
        }
        if t.is_kind(k, "class_heritage") {
            match t.child_of_kind(k, "implements_clause") {
                Some(i) => {
                    proof {
                        assert(i < t.end(k as int) <= t.len());
                    }
                    return t.named_child_count_of(i);
                },
                None => {},
            }
        } else if t.is_kind(k, "implements_clause") {
            return t.named_child_count_of(k);
        }
        k = next;
    }
    0
}

} // verus!
