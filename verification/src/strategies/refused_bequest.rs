//! Refused Bequest: a subclass that overrides few or none of its methods.
//!
//! A class is flagged when it has a parent (DIT > 0) and its override ratio
//! `NOOM / NOM` is below 33 % (a class without methods has ratio 0).  Its DIT
//! is looked up by name among the named classes of the file, the last class of
//! that name deciding; a class not found there (an anonymous class) is skipped.
use super::{cross_below, Fraction};
use crate::metrics::class::dit::{compute_dit, dit_result, ClassDit};
use crate::metrics::class::nom::{compute_class_nom, nom_classes, nom_of, ClassNom};
use crate::syntax::SyntaxTree;
use crate::walk::{lemma_count_where_step, select_where};
use vstd::prelude::*;

verus! {

/// The override ratio below which a subclass refuses its bequest: 33 %.
pub fn override_ratio_threshold() -> (r: Fraction)
    ensures
        r == (Fraction { num: 33, den: 100 }),
{
    Fraction { num: 33, den: 100 }
}

/// A class detected as a Refused Bequest (the override ratio is `noom / nom`, 0 without methods).
#[derive(Debug, Clone, PartialEq, Eq)]
pub struct RefusedBequest {
    pub class_name: String,
    /// 1-based line of the class.
    pub line: usize,
    /// Depth of Inheritance Tree, at least 1.
    pub dit: usize,
    /// Methods of the class (NOM).
    pub nom: usize,
    /// Overriding methods (NOOM).
    pub noom: usize,
}

/// The DIT of the last entry of `d` named `name`.
pub open spec fn last_dit(d: Seq<ClassDit>, name: Seq<char>) -> Option<usize>
    decreases d.len(),
{
    if d.len() == 0 {
        None
    } else if d.last().name@ == name {
        Some(d.last().dit)
    } else {
        last_dit(d.drop_last(), name)
    }
}

/// `noom / nom` (0 when `nom` is 0) is below 33 %.
pub open spec fn low_override(nom: int, noom: int) -> bool {
    nom == 0 || noom * 100 < 33 * nom
}

/// The class measured by `n` refuses its bequest.
pub open spec fn refuses(d: Seq<ClassDit>, n: ClassNom) -> bool {
    last_dit(d, n.class_name@) matches Some(x) && x > 0 && low_override(n.nom as int, n.noom as int)
}

/// Positions in `n` of the classes that refuse their bequest.
pub open spec fn refusing(d: Seq<ClassDit>, n: Seq<ClassNom>) -> Seq<usize> {
    select_where(Seq::new(n.len(), |i: int| i as usize), |i: usize| refuses(d, n[i as int]))
}

/// `r` lists, in order, the classes of `n` that refuse their bequest, with their DIT from `d`.
pub open spec fn refused_spec(d: Seq<ClassDit>, n: Seq<ClassNom>, r: Seq<RefusedBequest>) -> bool {
    let idx = refusing(d, n);
    &&& r.len() == idx.len()
    &&& forall|k: int| 0 <= k < r.len() ==> {
        let e = n[#[trigger] idx[k] as int];
        &&& r[k].class_name@ == e.class_name@
        &&& r[k].line == e.line
        &&& Some(r[k].dit) == last_dit(d, e.class_name@)
        &&& r[k].nom == e.nom
        &&& r[k].noom == e.noom
    }
}

/// The DIT of the last entry of `dits` named `name`.
fn find_last_dit(dits: &Vec<ClassDit>, name: &str) -> (r: Option<usize>)
    ensures
        r == last_dit(dits@, name@),
{
    let mut j = dits.len();
    proof {
        assert(dits@.take(j as int) =~= dits@);
    }
    while j > 0
        invariant
            j <= dits@.len(),
            last_dit(dits@, name@) == last_dit(dits@.take(j as int), name@),
        decreases j,
    {
        let ghost pre = dits@.take(j as int);
        proof {
            assert(pre.drop_last() =~= dits@.take(j - 1));
        }
        if crate::text::str_eq(dits[j - 1].name.as_str(), name) {
            return Some(dits[j - 1].dit);
        }
        j = j - 1;
    }
    None
}

/// The Refused Bequests among the classes measured by `noms`, their DIT taken from `dits`.
pub fn refused_from(dits: &Vec<ClassDit>, noms: &Vec<ClassNom>) -> (r: Vec<RefusedBequest>)
    ensures
        refused_spec(dits@, noms@, r@),
{
    let ghost all = Seq::new(noms@.len(), |i: int| i as usize);
    let ghost pred = |i: usize| refuses(dits@, noms@[i as int]);
    let threshold = override_ratio_threshold();
    let mut out: Vec<RefusedBequest> = Vec::new();
    let mut i: usize = 0;
    while i < noms.len()
        invariant
            i <= noms@.len(),
            all == Seq::new(noms@.len(), |i: int| i as usize),
            pred == (|i: usize| refuses(dits@, noms@[i as int])),
            threshold == (Fraction { num: 33, den: 100 }),
            out@.len() == select_where(all.take(i as int), pred).len(),
            forall|k: int| 0 <= k < out@.len() ==> {
                let e = noms@[#[trigger] select_where(all.take(i as int), pred)[k] as int];
                &&& out@[k].class_name@ == e.class_name@
                &&& out@[k].line == e.line
                &&& Some(out@[k].dit) == last_dit(dits@, e.class_name@)
                &&& out@[k].nom == e.nom
                &&& out@[k].noom == e.noom
            },
        decreases noms.len() - i,
    {
        let n = &noms[i];
        proof {
            lemma_count_where_step(all, i as int, pred);
            assert(all[i as int] == i);
        }
        let ghost sel = select_where(all.take(i as int), pred);
        let ghost before = out@;
        let mut added = false;
        match find_last_dit(dits, n.class_name.as_str()) {
            Some(dit) => {
                if dit > 0 && (n.nom == 0 || cross_below(n.noom, n.nom, threshold)) {
                    out.push(RefusedBequest { class_name: n.class_name.clone(), line: n.line, dit, nom: n.nom, noom: n.noom });
                    added = true;
                }
            },
            None => {},
        }
        proof {
            if added {
                assert(pred(i));
                assert(select_where(all.take(i + 1), pred) == sel.push(i));
                assert forall|k: int| 0 <= k < out@.len() implies ({
                    let e = noms@[#[trigger] select_where(all.take(i + 1), pred)[k] as int];
                    &&& out@[k].class_name@ == e.class_name@
                    &&& out@[k].line == e.line
                    &&& Some(out@[k].dit) == last_dit(dits@, e.class_name@)
                    &&& out@[k].nom == e.nom
                    &&& out@[k].noom == e.noom
                }) by {
                    if k < sel.len() {
                        assert(out@[k] == before[k]);
                        assert(select_where(all.take(i + 1), pred)[k] == sel[k]);
                    }
                }
            } else {
                assert(!pred(i));
                assert(select_where(all.take(i + 1), pred) =~= sel);
            }
        }
        i = i + 1;
    }
    proof {
        assert(all.take(all.len() as int) =~= all);
    }
    out
}

/// Detect Refused Bequest smells in all classes beneath `root`.
pub fn detect_refused_bequest(t: &SyntaxTree, root: usize) -> (r: Vec<RefusedBequest>)
    requires
        t.wf(),
        root < t.len(),
    ensures
        exists|d: Seq<ClassDit>, n: Seq<ClassNom>|
            {
                &&& dit_result(*t, root as int, d)
                &&& n.len() == nom_classes(*t, root as int).len()
                &&& forall|k: int| 0 <= k < n.len() ==> nom_of(*t, #[trigger] nom_classes(*t, root as int)[k] as int, n[k])
                &&& refused_spec(d, n, r@)
            },
{
    let dits = compute_dit(t, root);
    let noms = compute_class_nom(t, root);
    let r = refused_from(&dits, &noms);
    proof {
        assert(dit_result(*t, root as int, dits@) && refused_spec(dits@, noms@, r@));
    }
    r
}

} // verus!
