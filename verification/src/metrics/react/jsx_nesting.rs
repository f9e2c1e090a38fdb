//! JSX nesting depth.
use crate::parse::{parse_succeeds, parse_tsx, parsed_from, ParseError};
use crate::syntax::{names, SyntaxTree};
use vstd::prelude::*;

verus! {

/// JSX containers: elements and fragments (self-closing elements hold no children).
pub open spec fn jsx_container_kinds() -> Seq<Seq<char>> {
    seq!["jsx_element"@, "jsx_fragment"@]
}

/// The deepest nesting of JSX containers in the subtree of `node`.
pub fn max_jsx_depth(t: &SyntaxTree, node: usize) -> (r: usize)
    requires
        t.wf(),
        node < t.len(),
    ensures
        r == t.max_depth(node as int, 0, jsx_container_kinds()),
{
    let kinds: [&str; 2] = ["jsx_element", "jsx_fragment"];
    proof {
        assert(names(kinds@) =~= jsx_container_kinds());
        assert(t.end(node as int) <= t.len());
    }
    t.max_depth_exec(node, 0, &kinds)
}

/// Parse TSX `source` and return the deepest nesting of JSX containers in it.
pub fn max_jsx_nesting(source: &str) -> (r: Result<usize, ParseError>)
    ensures
        r is Ok <==> parse_succeeds(source@, true),
        r matches Ok(d) ==> exists|t: SyntaxTree| t.wf() && parsed_from(t, source@, true) && d == t.max_depth(0, 0, jsx_container_kinds()),
{
    match parse_tsx(source) {
        Ok(t) => {
            let d = max_jsx_depth(&t, t.root());
            Ok(d)
        },
        Err(e) => Err(e),
    }
}

} // verus!
