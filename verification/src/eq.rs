//! Executable structural equality for the value tree, proved to return
//! exactly [`edn_eq`].  The unordered containers are compared by pairing each
//! element of one side off against a distinct, not-yet-consumed equal element
//! of the other side.

use vstd::pervasive::VecAdditionalExecFns;
use vstd::prelude::*;

use crate::laws::lemma_bag_eq_matching;
use crate::laws::lemma_bag_eq_pairs_matching;
use crate::laws::lemma_edn_eq_sym;
use crate::laws::lemma_edn_eq_trans;
use crate::value::BasicElement;
use crate::value::BasicSet;
use crate::value::Edn;
use crate::value::bag_eq;
use crate::value::bag_eq_pairs;
use crate::value::basic_eq;
use crate::value::edn_eq;
use crate::value::elems_match;
use crate::value::pair_eq;
use crate::value::pairs_match;

verus! {

/// A full matching can be redirected to send element `i` to any unconsumed
/// equal partner `j` without touching how elements before `i` are matched.
proof fn lemma_elems_match_exchange(x: Seq<Edn>, y: Seq<Edn>, mm: Seq<int>, i: int, j: int)
    requires
        elems_match(x, y, mm),
        0 <= i < x.len(),
        0 <= j < y.len(),
        edn_eq(x[i], y[j]),
        forall|k: int| 0 <= k < i ==> mm[k] != j,
    ensures
        exists|m2: Seq<int>|
            elems_match(x, y, m2) && m2[i] == j && (forall|k: int|
                0 <= k < i ==> m2[k] == mm[k]),
{
    if mm[i] == j {
        assert(elems_match(x, y, mm) && mm[i] == j && (forall|k: int|
            0 <= k < i ==> mm[k] == mm[k]));
    } else if exists|k: int| 0 <= k < x.len() && k != i && mm[k] == j {
        let k0 = choose|k: int| 0 <= k < x.len() && k != i && mm[k] == j;
        let m2 = mm.update(i, j).update(k0, mm[i]);
        assert(edn_eq(x[k0], y[j]));
        assert(edn_eq(x[i], y[mm[i]]));
        lemma_edn_eq_sym(x[i], y[j]);
        lemma_edn_eq_trans(x[k0], y[j], x[i]);
        lemma_edn_eq_trans(x[k0], x[i], y[mm[i]]);
        assert(elems_match(x, y, m2));
        assert(k0 > i);
        assert(m2[i] == j && (forall|k: int| 0 <= k < i ==> m2[k] == mm[k]));
    } else {
        let m2 = mm.update(i, j);
        assert(elems_match(x, y, m2));
        assert(m2[i] == j && (forall|k: int| 0 <= k < i ==> m2[k] == mm[k]));
    }
}

/// As [`lemma_elems_match_exchange`], for sequences of map entries.
proof fn lemma_pairs_match_exchange(
    x: Seq<(Edn, Edn)>,
    y: Seq<(Edn, Edn)>,
    mm: Seq<int>,
    i: int,
    j: int,
)
    requires
        pairs_match(x, y, mm),
        0 <= i < x.len(),
        0 <= j < y.len(),
        pair_eq(x[i], y[j]),
        forall|k: int| 0 <= k < i ==> mm[k] != j,
    ensures
        exists|m2: Seq<int>|
            pairs_match(x, y, m2) && m2[i] == j && (forall|k: int|
                0 <= k < i ==> m2[k] == mm[k]),
{
    if mm[i] == j {
        assert(pairs_match(x, y, mm) && mm[i] == j && (forall|k: int|
            0 <= k < i ==> mm[k] == mm[k]));
    } else if exists|k: int| 0 <= k < x.len() && k != i && mm[k] == j {
        let k0 = choose|k: int| 0 <= k < x.len() && k != i && mm[k] == j;
        let m2 = mm.update(i, j).update(k0, mm[i]);
        assert(pair_eq(x[k0], y[j]));
        assert(pair_eq(x[i], y[mm[i]]));
        lemma_edn_eq_sym(x[i].0, y[j].0);
        lemma_edn_eq_sym(x[i].1, y[j].1);
        lemma_edn_eq_trans(x[k0].0, y[j].0, x[i].0);
        lemma_edn_eq_trans(x[k0].1, y[j].1, x[i].1);
        lemma_edn_eq_trans(x[k0].0, x[i].0, y[mm[i]].0);
        lemma_edn_eq_trans(x[k0].1, x[i].1, y[mm[i]].1);
        assert(pair_eq(x[k0], y[mm[i]]));
        assert(pairs_match(x, y, m2));
        assert(k0 > i);
        assert(m2[i] == j && (forall|k: int| 0 <= k < i ==> m2[k] == mm[k]));
    } else {
        let m2 = mm.update(i, j);
        assert(pairs_match(x, y, m2));
        assert(m2[i] == j && (forall|k: int| 0 <= k < i ==> m2[k] == mm[k]));
    }
}

/// Compares two leaf values by content.
fn eq_basic(a: &BasicElement, b: &BasicElement) -> (r: bool)
    ensures
        r == basic_eq(*a, *b),
{
    match (a, b) {
        (BasicElement::Nil, BasicElement::Nil) => true,
        (BasicElement::Boolean(x), BasicElement::Boolean(y)) => *x == *y,
        (BasicElement::EString(x), BasicElement::EString(y)) => *x == *y,
        (BasicElement::Character(x), BasicElement::Character(y)) => *x == *y,
        (BasicElement::Symbol(x), BasicElement::Symbol(y)) => *x == *y,
        (BasicElement::Keyword(x), BasicElement::Keyword(y)) => *x == *y,
        (BasicElement::Integer(x), BasicElement::Integer(y)) => *x == *y,
        _ => false,
    }
}

/// Compares two ordered sequences of trees element by element.
#[verifier::loop_isolation(false)]
fn eq_seqs(x: &Vec<Edn>, y: &Vec<Edn>) -> (r: bool)
    ensures
        r == (x@.len() == y@.len() && forall|i: int| 0 <= i < x@.len() ==> edn_eq(x@[i], y@[i])),
    decreases x@, 0int,
{
    if x.len() != y.len() {
        return false;
    }
    let mut i: usize = 0;
    while i < x.len()
        invariant
            x@.len() == y@.len(),
            i <= x@.len(),
            forall|k: int| 0 <= k < i ==> edn_eq(x@[k], y@[k]),
        decreases x@.len() - i,
    {
        if !eq_edn(&x[i], &y[i]) {
            return false;
        }
        i += 1;
    }
    true
}

/// Compares two element bags: every element of one side must pair off
/// against a distinct equal element of the other.
#[verifier::loop_isolation(false)]
fn eq_elems_bag(x: &Vec<Edn>, y: &Vec<Edn>) -> (r: bool)
    ensures
        r == bag_eq(x@, y@),
    decreases x@, 1int,
{
    proof {
        lemma_bag_eq_matching(x@, y@);
    }
    let n = x.len();
    if y.len() != n {
        return false;
    }
    let mut used: Vec<bool> = Vec::new();
    while used.len() < n
        invariant
            used@.len() <= n,
            forall|k: int| 0 <= k < used@.len() ==> !used@[k],
        decreases n - used@.len(),
    {
        used.push(false);
    }
    let ghost mut mm: Seq<int> = Seq::empty();
    let mut i: usize = 0;
    while i < n
        invariant
            x@.len() == n,
            y@.len() == n,
            used@.len() == n,
            i <= n,
            mm.len() == i as int,
            forall|k: int| 0 <= k < i ==> 0 <= #[trigger] mm[k] < n,
            forall|k1: int, k2: int|
                0 <= k1 < i && 0 <= k2 < i && mm[k1] == mm[k2] ==> k1 == k2,
            forall|k: int| 0 <= k < i ==> edn_eq(x@[k], y@[#[trigger] mm[k]]),
            forall|jj: int| 0 <= jj < n ==> (#[trigger] used@[jj] <==> mm.contains(jj)),
            bag_eq(x@, y@) ==> exists|mf: Seq<int>|
                elems_match(x@, y@, mf) && (forall|k: int| 0 <= k < i ==> mf[k] == mm[k]),
        decreases n - i,
    {
        let mut j: usize = 0;
        let mut found: usize = n;
        while j < n
            invariant
                j <= n,
                found <= n,
                found == n ==> forall|jj: int|
                    0 <= jj < j ==> (used@[jj] || !edn_eq(x@[i as int], y@[jj])),
                found < n ==> !used@[found as int] && edn_eq(x@[i as int], y@[found as int]),
            decreases n - j,
        {
            if !used[j] && eq_edn(&x[i], &y[j]) {
                found = j;
                break;
            }
            j += 1;
        }
        if found == n {
            proof {
                if bag_eq(x@, y@) {
                    let mf = choose|mf: Seq<int>|
                        elems_match(x@, y@, mf) && (forall|k: int| 0 <= k < i ==> mf[k] == mm[k]);
                    let jw = mf[i as int];
                    assert(!mm.contains(jw)) by {
                        if mm.contains(jw) {
                            let k = choose|k: int| 0 <= k < mm.len() && mm[k] == jw;
                            assert(mf[k] == mf[i as int]);
                        }
                    }
                    assert(used@[jw] || !edn_eq(x@[i as int], y@[jw]));
                    assert(edn_eq(x@[i as int], y@[jw]));
                }
            }
            return false;
        }
        proof {
            if bag_eq(x@, y@) {
                let mf = choose|mf: Seq<int>|
                    elems_match(x@, y@, mf) && (forall|k: int| 0 <= k < i ==> mf[k] == mm[k]);
                assert forall|k: int| 0 <= k < i implies mf[k] != found as int by {
                    assert(mm[k] != found as int) by {
                        if mm[k] == found as int {
                            assert(mm.contains(found as int));
                        }
                    }
                }
                lemma_elems_match_exchange(x@, y@, mf, i as int, found as int);
            }
            let ghost prev = mm;
            mm = mm.push(found as int);
            assert forall|jj: int| 0 <= jj < n implies (#[trigger] used@.update(
                found as int,
                true,
            )[jj] <==> mm.contains(jj)) by {
                if jj == found as int {
                    assert(mm[i as int] == jj);
                } else {
                    assert(used@[jj] <==> prev.contains(jj));
                    if prev.contains(jj) {
                        let k = choose|k: int| 0 <= k < prev.len() && prev[k] == jj;
                        assert(mm[k] == jj);
                    }
                    if mm.contains(jj) {
                        let k = choose|k: int| 0 <= k < mm.len() && mm[k] == jj;
                        assert(k != i as int);
                        assert(prev[k] == jj);
                    }
                }
            }
        }
        used.set(found, true);
        i += 1;
    }
    proof {
        assert(elems_match(x@, y@, mm));
    }
    true
}

/// As [`eq_elems_bag`], for bags of map entries.
#[verifier::loop_isolation(false)]
fn eq_pairs_bag(x: &Vec<(Edn, Edn)>, y: &Vec<(Edn, Edn)>) -> (r: bool)
    ensures
        r == bag_eq_pairs(x@, y@),
    decreases x@, 1int,
{
    proof {
        lemma_bag_eq_pairs_matching(x@, y@);
    }
    let n = x.len();
    if y.len() != n {
        return false;
    }
    let mut used: Vec<bool> = Vec::new();
    while used.len() < n
        invariant
            used@.len() <= n,
            forall|k: int| 0 <= k < used@.len() ==> !used@[k],
        decreases n - used@.len(),
    {
        used.push(false);
    }
    let ghost mut mm: Seq<int> = Seq::empty();
    let mut i: usize = 0;
    while i < n
        invariant
            x@.len() == n,
            y@.len() == n,
            used@.len() == n,
            i <= n,
            mm.len() == i as int,
            forall|k: int| 0 <= k < i ==> 0 <= #[trigger] mm[k] < n,
            forall|k1: int, k2: int|
                0 <= k1 < i && 0 <= k2 < i && mm[k1] == mm[k2] ==> k1 == k2,
            forall|k: int| 0 <= k < i ==> pair_eq(x@[k], y@[#[trigger] mm[k]]),
            forall|jj: int| 0 <= jj < n ==> (#[trigger] used@[jj] <==> mm.contains(jj)),
            bag_eq_pairs(x@, y@) ==> exists|mf: Seq<int>|
                pairs_match(x@, y@, mf) && (forall|k: int| 0 <= k < i ==> mf[k] == mm[k]),
        decreases n - i,
    {
        let mut j: usize = 0;
        let mut found: usize = n;
        while j < n
            invariant
                j <= n,
                found <= n,
                found == n ==> forall|jj: int|
                    0 <= jj < j ==> (used@[jj] || !pair_eq(x@[i as int], y@[jj])),
                found < n ==> !used@[found as int] && pair_eq(x@[i as int], y@[found as int]),
            decreases n - j,
        {
            if !used[j] && eq_pair(&x[i], &y[j]) {
                found = j;
                break;
            }
            j += 1;
        }
        if found == n {
            proof {
                if bag_eq_pairs(x@, y@) {
                    let mf = choose|mf: Seq<int>|
                        pairs_match(x@, y@, mf) && (forall|k: int| 0 <= k < i ==> mf[k] == mm[k]);
                    let jw = mf[i as int];
                    assert(!mm.contains(jw)) by {
                        if mm.contains(jw) {
                            let k = choose|k: int| 0 <= k < mm.len() && mm[k] == jw;
                            assert(mf[k] == mf[i as int]);
                        }
                    }
                    assert(used@[jw] || !pair_eq(x@[i as int], y@[jw]));
                    assert(pair_eq(x@[i as int], y@[jw]));
                }
            }
            return false;
        }
        proof {
            if bag_eq_pairs(x@, y@) {
                let mf = choose|mf: Seq<int>|
                    pairs_match(x@, y@, mf) && (forall|k: int| 0 <= k < i ==> mf[k] == mm[k]);
                assert forall|k: int| 0 <= k < i implies mf[k] != found as int by {
                    assert(mm[k] != found as int) by {
                        if mm[k] == found as int {
                            assert(mm.contains(found as int));
                        }
                    }
                }
                lemma_pairs_match_exchange(x@, y@, mf, i as int, found as int);
            }
            let ghost prev = mm;
            mm = mm.push(found as int);
            assert forall|jj: int| 0 <= jj < n implies (#[trigger] used@.update(
                found as int,
                true,
            )[jj] <==> mm.contains(jj)) by {
                if jj == found as int {
                    assert(mm[i as int] == jj);
                } else {
                    assert(used@[jj] <==> prev.contains(jj));
                    if prev.contains(jj) {
                        let k = choose|k: int| 0 <= k < prev.len() && prev[k] == jj;
                        assert(mm[k] == jj);
                    }
                    if mm.contains(jj) {
                        let k = choose|k: int| 0 <= k < mm.len() && mm[k] == jj;
                        assert(k != i as int);
                        assert(prev[k] == jj);
                    }
                }
            }
        }
        used.set(found, true);
        i += 1;
    }
    proof {
        assert(pairs_match(x@, y@, mm));
    }
    true
}

/// Compares two map entries: keys equal and values equal.
fn eq_pair(p: &(Edn, Edn), q: &(Edn, Edn)) -> (r: bool)
    ensures
        r == pair_eq(*p, *q),
    decreases *p, 0int,
{
    eq_edn(&p.0, &q.0) && eq_edn(&p.1, &q.1)
}

/// Compares two value trees, returning exactly [`edn_eq`].
fn eq_edn(a: &Edn, b: &Edn) -> (r: bool)
    ensures
        r == edn_eq(*a, *b),
    decreases *a, 0int,
{
    match (a, b) {
        (Edn::Basic(x), Edn::Basic(y)) => eq_basic(x, y),
        (Edn::Tagged(x), Edn::Tagged(y)) => true,
        (Edn::List(x), Edn::List(y)) => eq_seqs(x, y),
        (Edn::Vector(x), Edn::Vector(y)) => eq_seqs(x, y),
        (Edn::EMap(x), Edn::EMap(y)) => eq_pairs_bag(&x.elements, &y.elements),
        (Edn::ESet(x), Edn::ESet(y)) => eq_elems_bag(&x.elements, &y.elements),
        _ => false,
    }
}

impl PartialEq for BasicElement {
    fn eq(&self, other: &BasicElement) -> (r: bool) {
        eq_basic(self, other)
    }
}

impl vstd::std_specs::cmp::PartialEqSpecImpl for BasicElement {
    open spec fn obeys_eq_spec() -> bool {
        true
    }

    open spec fn eq_spec(&self, other: &BasicElement) -> bool {
        basic_eq(*self, *other)
    }
}

impl PartialEq for Edn {
    fn eq(&self, other: &Edn) -> (r: bool) {
        eq_edn(self, other)
    }
}

impl vstd::std_specs::cmp::PartialEqSpecImpl for Edn {
    open spec fn obeys_eq_spec() -> bool {
        true
    }

    open spec fn eq_spec(&self, other: &Edn) -> bool {
        edn_eq(*self, *other)
    }
}

impl PartialEq for BasicSet<Edn> {
    fn eq(&self, other: &BasicSet<Edn>) -> (r: bool) {
        eq_elems_bag(&self.elements, &other.elements)
    }
}

impl vstd::std_specs::cmp::PartialEqSpecImpl for BasicSet<Edn> {
    open spec fn obeys_eq_spec() -> bool {
        true
    }

    open spec fn eq_spec(&self, other: &BasicSet<Edn>) -> bool {
        bag_eq(self.elems(), other.elems())
    }
}

impl PartialEq for BasicSet<(Edn, Edn)> {
    fn eq(&self, other: &BasicSet<(Edn, Edn)>) -> (r: bool) {
        eq_pairs_bag(&self.elements, &other.elements)
    }
}

impl vstd::std_specs::cmp::PartialEqSpecImpl for BasicSet<(Edn, Edn)> {
    open spec fn obeys_eq_spec() -> bool {
        true
    }

    open spec fn eq_spec(&self, other: &BasicSet<(Edn, Edn)>) -> bool {
        bag_eq_pairs(self.elems(), other.elems())
    }
}

} // verus!
