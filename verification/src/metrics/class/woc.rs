//! Weight of Class (WOC): public attributes among the public members of a class.
//!
//! WOC = public_attributes / (public_attributes + public_methods), 0 for a class
//! with neither; the ratio is computed by the application from the two counts.
//! A member is public when it has no accessibility modifier or its modifier is
//! `public`.
use super::{class_name, class_name_of, classes_in, find_classes};
use super::nom::members;
use crate::syntax::{names, SyntaxTree};
use crate::walk::{count_where, lemma_count_where_step};
use vstd::prelude::*;

verus! {

/// Member `m` is public: its accessibility modifier, if any, is `public`.
pub open spec fn is_public_member(t: SyntaxTree, m: int) -> bool {
    match t.first_child_of_kind(m, "accessibility_modifier"@) {
        Some(a) => t.text(a as int) == "public"@,
        None => true,
    }
}

pub open spec fn public_field(t: SyntaxTree) -> spec_fn(usize) -> bool {
    |m: usize| t.kind(m as int) == "public_field_definition"@ && is_public_member(t, m as int)
}

pub open spec fn public_method(t: SyntaxTree) -> spec_fn(usize) -> bool {
    |m: usize| t.kind(m as int) == "method_definition"@ && is_public_member(t, m as int)
}

/// Weight of Class counts for a single class.
#[derive(Debug, Clone, PartialEq, Eq)]
pub struct ClassWoc {
    /// Name of the class (`<anonymous>` if the class is unnamed).
    pub class_name: String,
    /// Line number where the class starts (1-based).
    pub line: usize,
    /// Number of explicitly or implicitly public fields (attributes).
    pub public_attributes: usize,
    /// Number of explicitly or implicitly public methods (constructor and accessors included).
    pub public_methods: usize,
}

/// `r` is the WOC measurement of class `c`.
pub open spec fn woc_of(t: SyntaxTree, c: int, r: ClassWoc) -> bool {
    &&& r.class_name@ == class_name(t, c)
    &&& r.line == t.row(c) + 1
    &&& r.public_attributes == count_where(members(t, c), public_field(t))
    &&& r.public_methods == count_where(members(t, c), public_method(t))
}

/// Classes measured by WOC: declarations and class expressions.
pub open spec fn woc_classes(t: SyntaxTree, root: int) -> Seq<usize> {
    classes_in(t, root, seq!["class_declaration"@], seq!["class"@])
}

/// A member is public when it carries no accessibility modifier or its modifier is `public`.
pub fn is_public(t: &SyntaxTree, m: usize) -> (r: bool)
    requires
        t.wf(),
        m < t.len(),
    ensures
        r == is_public_member(*t, m as int),
{
    match t.child_of_kind(m, "accessibility_modifier") {
        Some(a) => crate::text::str_eq(t.text_of(a), "public"),
        None => true,
    }
}

fn measure_class(t: &SyntaxTree, c: usize) -> (r: ClassWoc)
    requires
        t.wf(),
        c < t.len(),
    ensures
        woc_of(*t, c as int, r),
        r.public_attributes + r.public_methods <= usize::MAX,
{
    let ms: Vec<usize> = match t.child_by_field_name(c, "body") {
        Some(b) => {
            proof {
                assert(b < t.end(c as int) <= t.len());
                t.lemma_children_bounds(b as int);
            }
            t.children_of(b)
        },
        None => Vec::new(),
    };
    proof {
        assert forall|k: int| 0 <= k < ms@.len() implies #[trigger] ms@[k] < t.len() by {
            if let Some(b) = t.child_by_field(c as int, "body"@) {
                assert(b < t.end(c as int) <= t.len());
            }
        }
    }
    let mut attrs: usize = 0;
    let mut methods: usize = 0;
    let mut x: usize = 0;
    while x < ms.len()
        invariant
            t.wf(),
            ms@ == members(*t, c as int),
            forall|k: int| 0 <= k < ms@.len() ==> #[trigger] ms@[k] < t.len(),
            x <= ms@.len(),
            attrs + methods <= x,
            attrs == count_where(ms@.take(x as int), public_field(*t)),
            methods == count_where(ms@.take(x as int), public_method(*t)),
        decreases ms.len() - x,
    {
        let m = ms[x];
        proof {
            lemma_count_where_step(ms@, x as int, public_field(*t));
            lemma_count_where_step(ms@, x as int, public_method(*t));
            reveal_strlit("public_field_definition");
            reveal_strlit("method_definition");
        }
        let is_field = t.is_kind(m, "public_field_definition");
        let is_method = t.is_kind(m, "method_definition");
        let public = is_public(t, m);
        proof {
            assert(public_field(*t)(m) == (is_field && public));
            assert(public_method(*t)(m) == (is_method && public));
            reveal_strlit("public_field_definition");
            reveal_strlit("method_definition");
            assert("public_field_definition"@.len() != "method_definition"@.len());
            assert(!(is_field && is_method));
        }
        if is_field && public {
            attrs = attrs + 1;
        } else if is_method && public {
            methods = methods + 1;
        }
        x = x + 1;
    }
    proof {
        assert(ms@.take(ms@.len() as int) =~= ms@);
    }
    ClassWoc { class_name: class_name_of(t, c), line: t.line_of(c), public_attributes: attrs, public_methods: methods }
}

/// Compute the WOC counts of every class found beneath `root`, in pre-order.
pub fn compute_class_woc(t: &SyntaxTree, root: usize) -> (r: Vec<ClassWoc>)
    requires
        t.wf(),
        root < t.len(),
    ensures
        r@.len() == woc_classes(*t, root as int).len(),
        forall|k: int| 0 <= k < r@.len() ==> woc_of(*t, #[trigger] woc_classes(*t, root as int)[k] as int, r@[k]),
        forall|k: int| 0 <= k < r@.len() ==> #[trigger] r@[k].public_attributes + r@[k].public_methods <= usize::MAX,
{
    let always: [&str; 1] = ["class_declaration"];
    let with_body: [&str; 1] = ["class"];
    proof {
        assert(names(always@) =~= seq!["class_declaration"@]);
        assert(names(with_body@) =~= seq!["class"@]);
    }
    let classes = find_classes(t, root, &always, &with_body);
    let mut out: Vec<ClassWoc> = Vec::new();
    let mut k: usize = 0;
    while k < classes.len()
        invariant
            t.wf(),
            classes@ == woc_classes(*t, root as int),
            forall|q: int| 0 <= q < classes@.len() ==> #[trigger] classes@[q] < t.len(),
            k <= classes@.len(),
            out@.len() == k,
            forall|q: int| 0 <= q < k ==> woc_of(*t, #[trigger] classes@[q] as int, out@[q]),
            forall|q: int| 0 <= q < k ==> #[trigger] out@[q].public_attributes + out@[q].public_methods <= usize::MAX,
        decreases classes.len() - k,
    {
        out.push(measure_class(t, classes[k]));
        k = k + 1;
    }
    out
}

} // verus!
