//! Report rendering decisions: CSV quoting and rows, complexity colouring, and
//! the summary line.  Printing and table drawing are left to the caller.
use crate::metrics::function::FunctionMetrics;
use crate::text::{chars_of, decimal, push_char, usize_to_string};
use vstd::prelude::*;

verus! {

/// A CSV field needs quoting: it holds a comma, a double quote or a line break.
pub open spec fn needs_quotes(s: Seq<char>) -> bool {
    s.contains(',') || s.contains('"') || s.contains('\n') || s.contains('\r')
}

/// `s` with every double quote doubled.
pub open spec fn double_quotes(s: Seq<char>) -> Seq<char>
    decreases s.len(),
{
    if s.len() == 0 {
        seq![]
    } else {
        double_quotes(s.drop_last()) + (if s.last() == '"' { seq!['"', '"'] } else { seq![s.last()] })
    }
}

/// The RFC 4180 form of a field: quoted, inner quotes doubled, when it needs quoting.
pub open spec fn csv_quoted(s: Seq<char>) -> Seq<char> {
    if needs_quotes(s) {
        seq!['"'] + double_quotes(s) + seq!['"']
    } else {
        s
    }
}

/// Append the characters of `t` to `s`.
fn push_all(s: &mut String, t: &str)
    ensures
        final(s)@ == old(s)@ + t@,
{
    let cs = chars_of(t);
    let mut i: usize = 0;
    while i < cs.len()
        invariant
            cs@ == t@,
            i <= cs@.len(),
            s@ == old(s)@ + t@.take(i as int),
        decreases cs.len() - i,
    {
        push_char(s, cs[i]);
        i = i + 1;
        proof {
            assert(s@ =~= old(s)@ + t@.take(i as int));
        }
    }
    proof {
        assert(t@.take(cs@.len() as int) =~= t@);
    }
}

/// RFC 4180 quoting of a CSV field: wrapped in double quotes, inner quotes
/// doubled, when it holds a comma, a double quote or a line break.
pub fn csv_field(s: &str) -> (r: String)
    ensures
        r@ == csv_quoted(s@),
{
    let cs = chars_of(s);
    let mut quote = false;
    let mut i: usize = 0;
    while i < cs.len()
        invariant
            cs@ == s@,
            i <= cs@.len(),
            quote == needs_quotes(s@.take(i as int)),
        decreases cs.len() - i,
    {
        let c = cs[i];
        proof {
            let p = s@.take(i as int);
            let q = s@.take(i + 1);
            assert(q =~= p.push(c));
            assert forall|x: char| q.contains(x) <==> (p.contains(x) || x == c) by {
                if q.contains(x) {
                    let k = choose|k: int| 0 <= k < q.len() && q[k] == x;
                    if k < p.len() {
                        assert(p[k] == x);
                    }
                }
                if p.contains(x) {
                    let k = choose|k: int| 0 <= k < p.len() && p[k] == x;
                    assert(q[k] == x);
                }
                if x == c {
                    assert(q[i as int] == x);
                }
            }
        }
        if c == ',' || c == '"' || c == '\n' || c == '\r' {
            quote = true;
        }
        i = i + 1;
    }
    proof {
        assert(s@.take(cs@.len() as int) =~= s@);
    }
    if !quote {
        let mut out = String::new();
        push_all(&mut out, s);
        proof {
            assert(out@ =~= s@);
        }
        return out;
    }
    let mut out = String::new();
    push_char(&mut out, '"');
    let mut j: usize = 0;
    while j < cs.len()
        invariant
            cs@ == s@,
            j <= cs@.len(),
            out@ == seq!['"'] + double_quotes(s@.take(j as int)),
        decreases cs.len() - j,
    {
        let c = cs[j];
        proof {
            assert(s@.take(j + 1).drop_last() =~= s@.take(j as int));
        }
        push_char(&mut out, c);
        if c == '"' {
            push_char(&mut out, '"');
        }
        j = j + 1;
        proof {
            assert(out@ =~= seq!['"'] + double_quotes(s@.take(j as int)));
        }
    }
    push_char(&mut out, '"');
    proof {
        assert(s@.take(cs@.len() as int) =~= s@);
        assert(out@ =~= seq!['"'] + double_quotes(s@) + seq!['"']);
    }
    out
}

/// The header line of the CSV report.
pub fn csv_header() -> (r: &'static str)
    ensures
        r@ == "file,function,line,loc,sloc,complexity,nesting,params"@,
{
    "file,function,line,loc,sloc,complexity,nesting,params"
}

/// The CSV line of function `f`: file, name, line, LOC, SLOC, complexity, nesting and parameters.
pub open spec fn csv_line(f: FunctionMetrics) -> Seq<char> {
    csv_quoted(f.file@) + seq![','] + csv_quoted(f.name@) + seq![','] + decimal(f.line as nat) + seq![','] + decimal(
        f.loc as nat,
    ) + seq![','] + decimal(f.sloc as nat) + seq![','] + decimal(f.cyclomatic_complexity as nat) + seq![','] + decimal(
        f.max_nesting as nat,
    ) + seq![','] + decimal(f.param_count as nat)
}

/// The CSV line of function `f`.
pub fn csv_row(f: &FunctionMetrics) -> (r: String)
    ensures
        r@ == csv_line(*f),
{
    let mut out = csv_field(f.file.as_str());
    push_char(&mut out, ',');
    push_all(&mut out, csv_field(f.name.as_str()).as_str());
    push_char(&mut out, ',');
    push_all(&mut out, usize_to_string(f.line).as_str());
    push_char(&mut out, ',');
    push_all(&mut out, usize_to_string(f.loc).as_str());
    push_char(&mut out, ',');
    push_all(&mut out, usize_to_string(f.sloc).as_str());
    push_char(&mut out, ',');
    push_all(&mut out, usize_to_string(f.cyclomatic_complexity).as_str());
    push_char(&mut out, ',');
    push_all(&mut out, usize_to_string(f.max_nesting).as_str());
    push_char(&mut out, ',');
    push_all(&mut out, usize_to_string(f.param_count).as_str());
    proof {
        assert(out@ =~= csv_line(*f));
    }
    out
}

/// How a function's cyclomatic complexity is coloured in the table.
#[derive(Debug, Clone, Copy, PartialEq, Eq, Structural)]
pub enum ComplexityLevel {
    /// 10 or more: red.
    High,
    /// 5 to 9: yellow.
    Medium,
    /// Below 5: green.
    Low,
}

/// The colour band of complexity `cc`.
pub fn complexity_level(cc: usize) -> (r: ComplexityLevel)
    ensures
        r == (if cc >= 10 {
            ComplexityLevel::High
        } else if cc >= 5 {
            ComplexityLevel::Medium
        } else {
            ComplexityLevel::Low
        }),
{
    if cc >= 10 {
        ComplexityLevel::High
    } else if cc >= 5 {
        ComplexityLevel::Medium
    } else {
        ComplexityLevel::Low
    }
}

/// The summary printed above the table.
pub open spec fn summary_text(files: nat, functions: nat, loc: nat) -> Seq<char> {
    "\nAnalyzed "@ + decimal(files) + " file(s) — "@ + decimal(functions) + " function(s) — "@ + decimal(loc)
        + " LOC total\n"@
}

/// The summary line: files, functions and lines analysed.
pub fn summary_line(total_files: usize, total_functions: usize, total_loc: usize) -> (r: String)
    ensures
        r@ == summary_text(total_files as nat, total_functions as nat, total_loc as nat),
{
    let mut out = String::new();
    push_all(&mut out, "\nAnalyzed ");
    push_all(&mut out, usize_to_string(total_files).as_str());
    push_all(&mut out, " file(s) — ");
    push_all(&mut out, usize_to_string(total_functions).as_str());
    push_all(&mut out, " function(s) — ");
    push_all(&mut out, usize_to_string(total_loc).as_str());
    push_all(&mut out, " LOC total\n");
    proof {
        assert(out@ =~= summary_text(total_files as nat, total_functions as nat, total_loc as nat));
    }
    out
}

} // verus!
