//! The feature registry: the set of feature names enabled for a run, and
//! the evaluation of feature-guard expressions attached to recipes. A guard
//! is a left-associative chain of possibly negated feature names joined by
//! `&` (and) and `|` (or); the empty guard is always satisfied.

use crate::text::bytes_eq;
use vstd::prelude::*;

verus! {

/// True when `name` is one of the enabled features `fs`.
pub open spec fn has_feature(fs: Seq<Seq<u8>>, name: Seq<u8>) -> bool {
    exists|i: int| 0 <= i < fs.len() && fs[i] == name
}

/// One guard term: a feature name, possibly negated.
#[derive(Debug, Clone, PartialEq, Eq)]
pub struct GuardTerm {
    pub negated: bool,
    pub name: Vec<u8>,
}

/// A parsed feature guard: terms joined left-associatively by the
/// operators; `ops[i]` joins `terms[i]` and `terms[i + 1]` (`true` = or,
/// `false` = and). No terms means the guard is always satisfied.
#[derive(Debug, Clone, PartialEq, Eq)]
pub struct Guard {
    pub terms: Vec<GuardTerm>,
    pub ops: Vec<bool>,
}

/// The mathematical content of a guard's terms.
pub open spec fn guard_terms(g: &Guard) -> Seq<(bool, Seq<u8>)> {
    g.terms@.map_values(|t: GuardTerm| (t.negated, t.name@))
}

impl Guard {
    /// A guard is well-formed when it has one operator between each two
    /// adjacent terms.
    pub open spec fn wf(&self) -> bool {
        (self.terms@.len() == 0 && self.ops@.len() == 0) || self.ops@.len() + 1
            == self.terms@.len()
    }

    /// The guard that is always satisfied.
    pub fn always() -> (r: Guard)
        ensures
            r.wf(),
            guard_terms(&r).len() == 0,
    {
        let r = Guard { terms: Vec::new(), ops: Vec::new() };
        proof {
            assert(guard_terms(&r) =~= Seq::<(bool, Seq<u8>)>::empty());
        }
        r
    }
}

/// The truth of one guard term under the enabled features.
pub open spec fn term_eval(fs: Seq<Seq<u8>>, t: (bool, Seq<u8>)) -> bool {
    if t.0 {
        !has_feature(fs, t.1)
    } else {
        has_feature(fs, t.1)
    }
}

/// The truth of a guard chain, evaluated left-associatively.
pub open spec fn guard_eval(fs: Seq<Seq<u8>>, terms: Seq<(bool, Seq<u8>)>, ops: Seq<bool>) -> bool
    decreases terms.len(),
{
    if terms.len() == 0 {
        true
    } else if terms.len() == 1 {
        term_eval(fs, terms[0])
    } else {
        let prev = guard_eval(fs, terms.drop_last(), ops.drop_last());
        let t = term_eval(fs, terms.last());
        if ops.len() >= 1 && ops.last() {
            prev || t
        } else {
            prev && t
        }
    }
}

/// The truth of a whole well-formed guard under the enabled features.
pub open spec fn guard_sat(fs: Seq<Seq<u8>>, g: &Guard) -> bool {
    guard_eval(fs, guard_terms(g), g.ops@)
}

/// The set of enabled feature names.
pub struct Features {
    pub names: Vec<Vec<u8>>,
}

impl View for Features {
    type V = Seq<Seq<u8>>;

    open spec fn view(&self) -> Seq<Seq<u8>> {
        self.names.deep_view()
    }
}

impl Features {
    /// A registry built from the run configuration's feature names.
    pub fn new(names: Vec<Vec<u8>>) -> (r: Features)
        ensures
            r@ == names.deep_view(),
    {
        Features { names }
    }

    /// True when `name` is enabled.
    pub fn is_enabled(&self, name: &[u8]) -> (r: bool)
        ensures
            r == has_feature(self@, name@),
    {
        let mut i: usize = 0;
        while i < self.names.len()
            invariant
                i <= self.names.len(),
                forall|j: int| 0 <= j < i ==> self@[j] != name@,
            decreases self.names.len() - i,
        {
            let hit = bytes_eq(self.names[i].as_slice(), name);
            proof {
                assert(self@[i as int] == self.names@[i as int]@);
            }
            if hit {
                return true;
            }
            i += 1;
        }
        proof {
            assert(!has_feature(self@, name@));
        }
        false
    }

    /// The truth of a whole guard under this registry.
    pub fn evaluate(&self, g: &Guard) -> (r: bool)
        requires
            g.wf(),
        ensures
            r == guard_sat(self@, g),
    {
        let ghost terms = guard_terms(g);
        let ghost ops = g.ops@;
        if g.terms.len() == 0 {
            return true;
        }
        let t0 = &g.terms[0];
        let e0 = self.is_enabled(t0.name.as_slice());
        let mut acc: bool = if t0.negated {
            !e0
        } else {
            e0
        };
        proof {
            assert(terms.subrange(0, 1).len() == 1);
            assert(terms.subrange(0, 1)[0] == terms[0]);
            assert(terms[0] == (t0.negated, t0.name@));
            assert(acc == guard_eval(self@, terms.subrange(0, 1), ops.subrange(0, 0)));
        }
        let mut i: usize = 1;
        while i < g.terms.len()
            invariant
                1 <= i <= g.terms.len(),
                g.wf(),
                terms == guard_terms(g),
                ops == g.ops@,
                terms.len() == g.terms@.len(),
                acc == guard_eval(self@, terms.subrange(0, i as int), ops.subrange(0, i - 1)),
            decreases g.terms.len() - i,
        {
            let t = &g.terms[i];
            let e = self.is_enabled(t.name.as_slice());
            let tv: bool = if t.negated {
                !e
            } else {
                e
            };
            let is_or: bool = g.ops[i - 1];
            let next: bool = if is_or {
                acc || tv
            } else {
                acc && tv
            };
            proof {
                let sub1 = terms.subrange(0, i as int + 1);
                assert(sub1.drop_last() =~= terms.subrange(0, i as int));
                assert(sub1.last() == terms[i as int]);
                assert(terms[i as int] == (t.negated, t.name@));
                let opsub = ops.subrange(0, i as int);
                assert(opsub.last() == ops[i - 1]);
                assert(opsub.drop_last() =~= ops.subrange(0, i - 1));
                assert(next == guard_eval(self@, sub1, opsub));
            }
            acc = next;
            i += 1;
        }
        proof {
            assert(terms.subrange(0, terms.len() as int) =~= terms);
            assert(ops.subrange(0, ops.len() as int) =~= ops);
        }
        acc
    }
}

} // verus!
